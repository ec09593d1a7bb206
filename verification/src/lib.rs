//! Class-loading and dynamic-dispatch core of a bytecode virtual machine for a
//! class-based, dynamically-typed scripting language, together with the pixel
//! and shared-object helpers that accompany it.
//!
//! The heart of the crate is the lazy unit loader ([`script::TranslationUnit`]),
//! the class descriptor ([`class::Class`]), the virtual dispatch table
//! ([`vtable::VTable`]) and the top-level script ([`script::Script`]). Strings,
//! namespaces and multinames are opaque interned values; garbage-collected
//! sharing is modelled by arena indices owned by [`context::Activation`].

pub mod abc;
pub mod avm1;
pub mod bitmap;
pub mod class;
pub mod context;
pub mod error;
pub mod interner;
pub mod method;
pub mod namespace_object;
pub mod property;
pub mod script;
pub mod shared_object;
pub mod traits;
pub mod value;
pub mod vtable;

pub use interner::Interner;
