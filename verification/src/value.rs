//! Opaque interned value types: namespaces, qualified names, multinames, and
//! the dynamic value carried in slots.
//!
//! Strings are symbols handed out by [`crate::interner::Interner`]; symbol 0
//! is always the empty string. Two namespaces or names are the same exactly
//! when their fields are equal.

use vstd::prelude::*;

verus! {

/// The kind of a namespace, as the archive's constant pool declares it.
#[derive(Clone, Copy, PartialEq, Eq, Structural, Debug)]
pub enum NsKind {
    Namespace,
    Package,
    PackageInternal,
    Protected,
    Explicit,
    StaticProtected,
    Private,
}

/// An interned namespace: a kind together with its name symbol.
#[derive(Clone, Copy, PartialEq, Eq, Structural, Debug)]
pub struct Namespace {
    pub kind: NsKind,
    pub name: usize,
}

impl Namespace {
    /// The public package namespace with the empty name (symbol 0).
    pub fn public() -> (r: Namespace)
        ensures
            r == (Namespace { kind: NsKind::Package, name: 0usize }),
    {
        Namespace { kind: NsKind::Package, name: 0 }
    }

    /// Whether this namespace is the public namespace of some package.
    pub open spec fn spec_is_public(&self) -> bool {
        self.kind == NsKind::Package && self.name == 0
    }

    /// Whether this is the unnamed public package namespace.
    pub fn is_public(&self) -> (r: bool)
        ensures
            r == self.spec_is_public(),
    {
        match self.kind {
            NsKind::Package => self.name == 0,
            _ => false,
        }
    }
}

/// A fully qualified name: one namespace and one local name symbol.
#[derive(Clone, Copy, PartialEq, Eq, Structural, Debug)]
pub struct QName {
    pub ns: Namespace,
    pub name: usize,
}

impl QName {
    pub fn new(ns: Namespace, name: usize) -> (r: QName)
        ensures
            r == (QName { ns, name }),
    {
        QName { ns, name }
    }
}

/// The namespace constraint of a multiname: any namespace, exactly one, or a
/// set interned in the context's namespace-set arena.
#[derive(Clone, Copy, PartialEq, Eq, Structural, Debug)]
pub enum NsSpec {
    /// Any namespace is acceptable.
    Any,
    /// Exactly this namespace.
    Exact(Namespace),
    /// One of the namespaces in the arena set with this index. An index
    /// beyond the arena matches nothing.
    OneOf(usize),
}

/// The resolved type argument of a parameterized name.
#[derive(Clone, Copy, PartialEq, Eq, Structural, Debug)]
pub enum TypeParam {
    /// The any type `*`.
    AnyType,
    /// A named type.
    Of(QName),
}

/// A multiname: a namespace constraint and an optional local name. Either
/// half may instead be supplied at runtime by the evaluator; such a name has
/// a lazy component and is rejected by static-name accessors.
#[derive(Clone, Copy, PartialEq, Eq, Structural, Debug)]
pub struct Multiname {
    /// The candidate namespaces.
    pub ns: NsSpec,
    /// The local name, or `None` for the any-name `*`.
    pub name: Option<usize>,
    /// Whether the name denotes an attribute.
    pub attribute: bool,
    /// The namespace is supplied at runtime.
    pub lazy_ns: bool,
    /// The local name is supplied at runtime.
    pub lazy_name: bool,
    /// The type argument of a parameterized name, if any.
    pub param: Option<TypeParam>,
}

/// Whether `ns` satisfies the constraint `spec` under the given namespace-set
/// arena.
pub open spec fn ns_spec_contains(sets: Seq<Vec<Namespace>>, spec: NsSpec, ns: Namespace) -> bool {
    match spec {
        NsSpec::Any => true,
        NsSpec::Exact(n) => n == ns,
        NsSpec::OneOf(i) => i < sets.len() && (exists|j: int|
            0 <= j < sets[i as int]@.len() && sets[i as int]@[j] == ns),
    }
}

impl Multiname {
    /// The any-type `*`: no namespace constraint and no name.
    pub open spec fn spec_any() -> Multiname {
        Multiname {
            ns: NsSpec::Any,
            name: None,
            attribute: false,
            lazy_ns: false,
            lazy_name: false,
            param: None,
        }
    }

    pub open spec fn spec_is_any(&self) -> bool {
        *self == Multiname::spec_any()
    }

    /// The any-type `*`: no namespace constraint and no name.
    pub fn any() -> (r: Multiname)
        ensures
            r == Multiname::spec_any(),
    {
        Multiname {
            ns: NsSpec::Any,
            name: None,
            attribute: false,
            lazy_ns: false,
            lazy_name: false,
            param: None,
        }
    }

    /// The multiname that names exactly the qualified name `q`.
    pub open spec fn from_qname_spec(q: QName) -> Multiname {
        Multiname {
            ns: NsSpec::Exact(q.ns),
            name: Some(q.name),
            attribute: false,
            lazy_ns: false,
            lazy_name: false,
            param: None,
        }
    }

    /// A multiname that names exactly one qualified name.
    pub fn from_qname(q: QName) -> (r: Multiname)
        ensures
            r == Multiname::from_qname_spec(q),
    {
        Multiname {
            ns: NsSpec::Exact(q.ns),
            name: Some(q.name),
            attribute: false,
            lazy_ns: false,
            lazy_name: false,
            param: None,
        }
    }

    pub open spec fn spec_has_lazy_component(&self) -> bool {
        self.lazy_ns || self.lazy_name
    }

    /// Whether part of the name is supplied at runtime.
    pub fn has_lazy_component(&self) -> (r: bool)
        ensures
            r == self.spec_has_lazy_component(),
    {
        self.lazy_ns || self.lazy_name
    }

    pub fn is_attribute(&self) -> (r: bool)
        ensures
            r == self.attribute,
    {
        self.attribute
    }

    /// Whether `ns` is among the candidate namespaces, under the given
    /// namespace-set arena.
    pub fn contains_ns(&self, ns: Namespace, sets: &Vec<Vec<Namespace>>) -> (r: bool)
        ensures
            r == ns_spec_contains(sets@, self.ns, ns),
    {
        match self.ns {
            NsSpec::Any => true,
            NsSpec::Exact(n) => n == ns,
            NsSpec::OneOf(si) => {
                if si >= sets.len() {
                    return false;
                }
                let set = &sets[si];
                let n = set.len();
                let mut i: usize = 0;
                while i < n
                    invariant
                        self.ns == NsSpec::OneOf(si),
                        si < sets@.len(),
                        set@ == sets@[si as int]@,
                        n == set@.len(),
                        i <= n,
                        forall|j: int| 0 <= j < i ==> set@[j] != ns,
                    decreases n - i,
                {
                    if set[i] == ns {
                        return true;
                    }
                    i = i + 1;
                }
                false
            },
        }
    }
}

/// A dynamic value as stored in a slot or passed to an initializer. Numbers
/// with a fractional part are carried as their raw bit pattern, opaque to the
/// loader.
#[derive(Clone, Copy, PartialEq, Eq, Structural, Debug)]
pub enum Value {
    Undefined,
    Null,
    Bool(bool),
    Int(i32),
    Uint(u32),
    /// A number carried by its raw bit pattern; the loader never computes
    /// with it.
    NumberBits(u64),
    /// An interned string symbol.
    StringSym(usize),
    /// A namespace value.
    Ns(Namespace),
    /// A reference into the object arena of the running context.
    Object(usize),
}

} // verus!
