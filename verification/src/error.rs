//! Loader and verifier errors.
//!
//! Two user-visible categories: a `LoadError` reports a malformed or
//! out-of-range archive reference, a `VerifyError` reports an illegal class
//! shape. Both end the current load or construct operation; there is no local
//! recovery.

use crate::value::QName;
use vstd::prelude::*;

verus! {

/// A malformed or out-of-range archive reference.
#[derive(Clone, Copy, PartialEq, Eq, Structural, Debug)]
pub enum LoadError {
    /// The class table has no entry at this index.
    ClassIndexInvalid { index: u32 },
    /// The instance table has no entry at this index.
    InstanceIndexInvalid { index: u32 },
    /// The script table has no entry at this index.
    ScriptIndexInvalid { index: u32 },
    /// The method table has no entry at this index.
    MethodIndexInvalid { index: u32 },
    /// The constant pool has no string at this index.
    StringIndexInvalid { index: u32 },
    /// The constant pool has no namespace at this index, or the index is the
    /// reserved zero.
    NamespaceIndexInvalid { index: u32 },
    /// The constant pool has no namespace set at this index, or the index is
    /// the reserved zero.
    NamespaceSetIndexInvalid { index: u32 },
    /// The constant pool has no multiname at this index, or the index is the
    /// reserved zero where zero is an error.
    MultinameIndexInvalid { index: u32 },
    /// A static-name accessor was used on a multiname with a runtime component.
    MultinameNotStatic { index: u32 },
    /// A parameterized name names another parameterized name as its base or
    /// argument; only one level of parameterization is resolved.
    MultinameNestedParameter { index: u32 },
    /// A trait name did not resolve to a plain qualified name.
    TraitNameInvalid { index: u32 },
    /// A script's traits were read before they were loaded.
    TraitsNotLoaded,
    /// A declared slot type name did not resolve to a loaded class.
    TypeNotFound,
    /// A slot id beyond the table of declared slot types.
    SlotIndexInvalid { index: u32 },
}

/// An illegal class shape found while validating against the superclass.
/// Never raised for system (built-in) classes.
#[derive(Clone, Copy, PartialEq, Eq, Structural, Debug)]
pub enum VerifyError {
    /// The named trait overrides a supertrait that is marked final.
    OverridesFinal { trait_name: QName },
    /// The named trait matches a supertrait but is not marked override.
    UnmarkedOverride { trait_name: QName },
    /// The named trait is marked override but matches no supertrait anywhere
    /// in the chain.
    OverrideWithoutTarget { trait_name: QName },
}

/// Any terminal failure of a load or construct operation.
#[derive(Clone, Copy, PartialEq, Eq, Structural, Debug)]
pub enum Error {
    Load(LoadError),
    Verify(VerifyError),
}

} // verus!
