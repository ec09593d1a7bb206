//! The in-memory model of one bytecode archive: per-archive tables of
//! classes, instances, methods, method bodies and scripts, and a constant
//! pool of strings, namespaces, namespace sets and multinames, each referenced
//! by dense integer index.
//!
//! Strings, namespaces, namespace sets and multinames are 1-based: index 0 is
//! reserved, and what it denotes varies per accessor. Classes, instances,
//! methods and scripts are 0-based.

use vstd::prelude::*;

verus! {

/// A constant-pool namespace entry: a kind and a string index for its name.
#[derive(Clone, Copy, PartialEq, Eq, Structural, Debug)]
pub enum AbcNamespace {
    Namespace { name: u32 },
    Package { name: u32 },
    PackageInternal { name: u32 },
    Protected { name: u32 },
    Explicit { name: u32 },
    StaticProtected { name: u32 },
    Private { name: u32 },
}

/// A constant-pool multiname entry. Indices refer to the pool's string,
/// namespace and namespace-set tables. The `A` forms denote attribute names;
/// the `RT` forms take their namespace, and the `L` forms their local name,
/// from the runtime stack. A parameterized name carries one type argument;
/// argument index 0 is the any type.
#[derive(Clone, Copy, PartialEq, Eq, Structural, Debug)]
pub enum AbcMultiname {
    QName { ns: u32, name: u32 },
    QNameA { ns: u32, name: u32 },
    RTQName { name: u32 },
    RTQNameA { name: u32 },
    RTQNameL,
    RTQNameLA,
    Multiname { ns_set: u32, name: u32 },
    MultinameA { ns_set: u32, name: u32 },
    MultinameL { ns_set: u32 },
    MultinameLA { ns_set: u32 },
    TypeName { base: u32, param: u32 },
}

/// A literal default value for a slot or constant trait, or a method
/// parameter. Numbers with a fractional part are raw bit patterns.
#[derive(Clone, Copy, PartialEq, Eq, Structural, Debug)]
pub enum AbcDefaultValue {
    Int(i32),
    Uint(u32),
    NumberBits(u64),
    StringIdx(u32),
    Bool(bool),
    NamespaceIdx(u32),
    Null,
    Undefined,
}

/// The constant pool of one archive.
#[derive(Clone, Debug)]
pub struct AbcConstantPool {
    /// Strings; pool index `i + 1` names `strings[i]`.
    pub strings: Vec<Vec<u8>>,
    /// Namespaces; pool index `i + 1` names `namespaces[i]`.
    pub namespaces: Vec<AbcNamespace>,
    /// Namespace sets, each a list of namespace pool indices; pool index
    /// `i + 1` names `ns_sets[i]`.
    pub ns_sets: Vec<Vec<u32>>,
    /// Multinames; pool index `i + 1` names `multinames[i]`.
    pub multinames: Vec<AbcMultiname>,
}

/// One method descriptor: its name, parameter types (multiname indices) and
/// whether it accepts rest arguments.
#[derive(Clone, Debug)]
pub struct AbcMethod {
    /// String pool index of the method's name; 0 for an unnamed method.
    pub name: u32,
    /// Multiname pool indices of the declared parameter types.
    pub param_types: Vec<u32>,
    /// Whether the method accepts a variable number of trailing arguments.
    pub is_variadic: bool,
}

/// The kind-specific payload of one declared trait.
#[derive(Clone, Copy, PartialEq, Eq, Structural, Debug)]
pub enum AbcTraitKind {
    /// A mutable stored field. `slot_id` 0 asks for auto-assignment;
    /// `declared_type` is a multiname index (0 means the any type).
    Slot { slot_id: u32, declared_type: u32, value: Option<AbcDefaultValue> },
    /// An immutable stored field; fields as for `Slot`.
    Const { slot_id: u32, declared_type: u32, value: Option<AbcDefaultValue> },
    /// A method; `method` is a method table index.
    Method { disp_id: u32, method: u32 },
    Getter { disp_id: u32, method: u32 },
    Setter { disp_id: u32, method: u32 },
    /// A nested class stored in a slot; `class` is a class table index.
    Class { slot_id: u32, class: u32 },
    /// A function value stored in a slot; `function` is a method table index.
    Function { slot_id: u32, function: u32 },
}

/// One declared trait of a class, instance, script or method body.
#[derive(Clone, Copy, PartialEq, Eq, Structural, Debug)]
pub struct AbcTrait {
    /// Multiname pool index of the trait's name; must resolve to a plain
    /// qualified name.
    pub name: u32,
    pub kind: AbcTraitKind,
    /// A subclass trait may not override this trait.
    pub is_final: bool,
    /// This trait declares that it overrides a supertrait.
    pub is_override: bool,
}

/// The static half of a class entry.
#[derive(Clone, Debug)]
pub struct AbcClass {
    /// Method table index of the class initializer.
    pub init_method: u32,
    pub traits: Vec<AbcTrait>,
}

/// The instance half of a class entry, sharing the class's index.
#[derive(Clone, Debug)]
pub struct AbcInstance {
    /// Multiname pool index of the class's qualified name.
    pub name: u32,
    /// Multiname pool index of the superclass name; 0 means none.
    pub super_name: u32,
    /// Namespace pool index of the protected namespace, if declared.
    pub protected_namespace: Option<u32>,
    /// Multiname pool indices of the directly implemented interfaces.
    pub interfaces: Vec<u32>,
    /// Method table index of the instance initializer.
    pub init_method: u32,
    pub is_sealed: bool,
    pub is_final: bool,
    pub is_interface: bool,
    pub traits: Vec<AbcTrait>,
}

/// One script entry: its initializer and its top-level traits.
#[derive(Clone, Debug)]
pub struct AbcScript {
    /// Method table index of the script initializer.
    pub init_method: u32,
    pub traits: Vec<AbcTrait>,
}

/// One method body: the method it belongs to and the traits of its
/// activation object.
#[derive(Clone, Debug)]
pub struct AbcMethodBody {
    /// Method table index this body belongs to.
    pub method: u32,
    pub traits: Vec<AbcTrait>,
}

/// One whole archive.
#[derive(Clone, Debug)]
pub struct AbcFile {
    pub constant_pool: AbcConstantPool,
    pub methods: Vec<AbcMethod>,
    /// Class and instance tables are index-aligned: entry `i` of each
    /// describes the two halves of class `i`.
    pub classes: Vec<AbcClass>,
    pub instances: Vec<AbcInstance>,
    pub scripts: Vec<AbcScript>,
    pub method_bodies: Vec<AbcMethodBody>,
}

} // verus!
