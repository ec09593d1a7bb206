//! Loaded traits: the single declared members of a class or script.
//!
//! A trait is a tagged union over slot, constant, method, getter, setter,
//! nested class and function, each carrying a qualified name and kind-specific
//! payload. A declared slot or dispatch id of 0 means "assign one for me".

use crate::value::{Multiname, QName, Value};
use vstd::prelude::*;

verus! {

/// The kind-specific payload of a loaded trait. Method, class and function
/// references are arena indices into the running context.
#[derive(Clone, Copy, PartialEq, Eq, Structural, Debug)]
pub enum TraitKind {
    /// A mutable stored field with a declared type and default value.
    Slot { slot_id: u32, declared_type: Multiname, default_value: Value, unit: Option<usize> },
    /// An immutable stored field with a declared type and default value.
    Const { slot_id: u32, declared_type: Multiname, default_value: Value, unit: Option<usize> },
    /// A method, by method arena index.
    Method { disp_id: u32, method: usize },
    /// A property getter, by method arena index.
    Getter { disp_id: u32, method: usize },
    /// A property setter, by method arena index.
    Setter { disp_id: u32, method: usize },
    /// A nested class, by class arena index.
    Class { slot_id: u32, class: usize },
    /// A function value, by method arena index.
    Function { slot_id: u32, function: usize },
}

/// One loaded trait: a qualified name, override and finality markers, and the
/// kind-specific payload.
#[derive(Clone, Copy, PartialEq, Eq, Structural, Debug)]
pub struct Trait {
    name: QName,
    is_final: bool,
    is_override: bool,
    kind: TraitKind,
}

impl Trait {
    pub fn new(name: QName, is_final: bool, is_override: bool, kind: TraitKind) -> (r: Trait)
        ensures
            r.spec_name() == name,
            r.spec_is_final() == is_final,
            r.spec_is_override() == is_override,
            r.spec_kind() == kind,
    {
        Trait { name, is_final, is_override, kind }
    }

    /// A constant trait without markers, as native code declares one.
    pub fn from_const(name: QName, declared_type: Multiname, value: Option<Value>) -> (r: Trait)
        ensures
            r.spec_name() == name,
            !r.spec_is_final(),
            !r.spec_is_override(),
            r.spec_kind() == (TraitKind::Const {
                slot_id: 0u32,
                declared_type,
                default_value: match value {
                    Some(v) => v,
                    None => Value::Undefined,
                },
                unit: None,
            }),
    {
        let default_value = match value {
            Some(v) => v,
            None => Value::Undefined,
        };
        Trait {
            name,
            is_final: false,
            is_override: false,
            kind: TraitKind::Const { slot_id: 0, declared_type, default_value, unit: None },
        }
    }

    /// A slot trait without markers, as native code declares one.
    pub fn from_slot(name: QName, declared_type: Multiname, value: Option<Value>) -> (r: Trait)
        ensures
            r.spec_name() == name,
            !r.spec_is_final(),
            !r.spec_is_override(),
            r.spec_kind() == (TraitKind::Slot {
                slot_id: 0u32,
                declared_type,
                default_value: match value {
                    Some(v) => v,
                    None => Value::Undefined,
                },
                unit: None,
            }),
    {
        let default_value = match value {
            Some(v) => v,
            None => Value::Undefined,
        };
        Trait {
            name,
            is_final: false,
            is_override: false,
            kind: TraitKind::Slot { slot_id: 0, declared_type, default_value, unit: None },
        }
    }

    /// A method trait without markers, as native code declares one.
    pub fn from_method(name: QName, method: usize) -> (r: Trait)
        ensures
            r.spec_name() == name,
            !r.spec_is_final(),
            !r.spec_is_override(),
            r.spec_kind() == (TraitKind::Method { disp_id: 0u32, method }),
    {
        Trait {
            name,
            is_final: false,
            is_override: false,
            kind: TraitKind::Method { disp_id: 0, method },
        }
    }

    /// A getter trait without markers, as native code declares one.
    pub fn from_getter(name: QName, method: usize) -> (r: Trait)
        ensures
            r.spec_name() == name,
            !r.spec_is_final(),
            !r.spec_is_override(),
            r.spec_kind() == (TraitKind::Getter { disp_id: 0u32, method }),
    {
        Trait {
            name,
            is_final: false,
            is_override: false,
            kind: TraitKind::Getter { disp_id: 0, method },
        }
    }

    /// A setter trait without markers, as native code declares one.
    pub fn from_setter(name: QName, method: usize) -> (r: Trait)
        ensures
            r.spec_name() == name,
            !r.spec_is_final(),
            !r.spec_is_override(),
            r.spec_kind() == (TraitKind::Setter { disp_id: 0u32, method }),
    {
        Trait {
            name,
            is_final: false,
            is_override: false,
            kind: TraitKind::Setter { disp_id: 0, method },
        }
    }

    pub closed spec fn spec_name(&self) -> QName {
        self.name
    }

    pub fn name(&self) -> (r: QName)
        ensures
            r == self.spec_name(),
    {
        self.name
    }

    pub closed spec fn spec_is_final(&self) -> bool {
        self.is_final
    }

    pub fn is_final(&self) -> (r: bool)
        ensures
            r == self.spec_is_final(),
    {
        self.is_final
    }

    pub closed spec fn spec_is_override(&self) -> bool {
        self.is_override
    }

    pub fn is_override(&self) -> (r: bool)
        ensures
            r == self.spec_is_override(),
    {
        self.is_override
    }

    pub closed spec fn spec_kind(&self) -> TraitKind {
        self.kind
    }

    pub fn kind(&self) -> (r: &TraitKind)
        ensures
            *r == self.spec_kind(),
    {
        &self.kind
    }

    /// Whether this trait and another are a getter/setter pair in some order;
    /// such a pair never counts as one overriding the other.
    pub open spec fn spec_is_getter_setter_pair(a: TraitKind, b: TraitKind) -> bool {
        (a is Getter && b is Setter) || (a is Setter && b is Getter)
    }

    /// Load one declared trait: resolve its name, load what it refers to, and
    /// tag it with its kind. A nested class reference uses the unit's cache,
    /// or loads the class if it is still unresolved.
    pub fn from_abc_trait(
        unit: crate::script::TranslationUnit,
        entry: crate::abc::AbcTrait,
        activation: &mut crate::context::Activation,
    ) -> (r: Result<Trait, crate::error::Error>)
        requires
            old(activation).wf(),
            crate::script::units_ok(*old(activation)),
            unit.valid(*old(activation)),
        ensures
            final(activation).wf(),
            crate::script::units_ok(*final(activation)),
            unit.valid(*final(activation)),
            crate::script::ctx_extends(*final(activation), *old(activation)),
            final(activation).scripts@ == old(activation).scripts@,
            final(activation).vtables@ == old(activation).vtables@,
            final(activation).objects@ == old(activation).objects@,
            final(activation).domains@ == old(activation).domains@,
            forall|i: int|
                0 <= i < old(activation).classes@.len() ==> final(activation).classes@[i] == old(
                    activation,
                ).classes@[i],
            ({
                let abc = unit.data(*old(activation)).abc;
                &&& (crate::script::trait_shallow_err(abc, entry) matches Some(le) ==> r == Err::<
                    Trait,
                    crate::error::Error,
                >(crate::error::Error::Load(le)))
                &&& (crate::script::trait_shallow_err(abc, entry) is None && (entry.kind
                    matches crate::abc::AbcTraitKind::Class { class, .. } ==> unit.data(
                    *old(activation),
                ).classes@[class as int] is Some) ==> r is Ok)
                &&& match r {
                    Ok(t) => crate::script::trait_entry_matches(*final(activation), abc, entry, t),
                    Err(e) => e is Load,
                }
            }),
        decreases
                crate::context::count_none(old(activation).units@[unit.0 as int].classes@),
                1int,
    {
        let ghost a = *old(activation);
        let ghost abc = unit.data(a).abc;
        let name = match crate::value::QName::from_abc_multiname(unit, entry.name, activation) {
            Ok(q) => q,
            Err(e) => {
                return Err(e);
            },
        };
        let ghost m1 = *activation;
        match entry.kind {
            crate::abc::AbcTraitKind::Slot { slot_id, declared_type, value } => {
                let dt = if declared_type == 0 {
                    Multiname::any()
                } else {
                    match unit.pool_multiname_static(declared_type, activation) {
                        Ok(mn) => mn,
                        Err(e) => {
                            proof {
                                crate::script::lemma_ctx_extends_trans(*activation, m1, a);
                            }
                            return Err(e);
                        },
                    }
                };
                proof {
                    crate::script::lemma_ctx_extends_trans(*activation, m1, a);
                }
                let ghost m2 = *activation;
                let dv = match unit.default_value(value, activation) {
                    Ok(v) => v,
                    Err(e) => {
                        proof {
                            crate::script::lemma_ctx_extends_trans(*activation, m2, a);
                        }
                        return Err(e);
                    },
                };
                proof {
                    crate::script::lemma_ctx_extends_trans(*activation, m2, a);
                    if declared_type != 0 {
                        crate::script::lemma_mn_ok_preserved(
                            m2,
                            *activation,
                            abc,
                            declared_type,
                            dt,
                        );
                    }
                }
                Ok(
                    Trait::new(
                        name,
                        entry.is_final,
                        entry.is_override,
                        TraitKind::Slot {
                            slot_id,
                            declared_type: dt,
                            default_value: dv,
                            unit: Some(unit.0),
                        },
                    ),
                )
            },
            crate::abc::AbcTraitKind::Const { slot_id, declared_type, value } => {
                let dt = if declared_type == 0 {
                    Multiname::any()
                } else {
                    match unit.pool_multiname_static(declared_type, activation) {
                        Ok(mn) => mn,
                        Err(e) => {
                            proof {
                                crate::script::lemma_ctx_extends_trans(*activation, m1, a);
                            }
                            return Err(e);
                        },
                    }
                };
                proof {
                    crate::script::lemma_ctx_extends_trans(*activation, m1, a);
                }
                let ghost m2 = *activation;
                let dv = match unit.default_value(value, activation) {
                    Ok(v) => v,
                    Err(e) => {
                        proof {
                            crate::script::lemma_ctx_extends_trans(*activation, m2, a);
                        }
                        return Err(e);
                    },
                };
                proof {
                    crate::script::lemma_ctx_extends_trans(*activation, m2, a);
                    if declared_type != 0 {
                        crate::script::lemma_mn_ok_preserved(
                            m2,
                            *activation,
                            abc,
                            declared_type,
                            dt,
                        );
                    }
                }
                Ok(
                    Trait::new(
                        name,
                        entry.is_final,
                        entry.is_override,
                        TraitKind::Const {
                            slot_id,
                            declared_type: dt,
                            default_value: dv,
                            unit: Some(unit.0),
                        },
                    ),
                )
            },
            crate::abc::AbcTraitKind::Method { disp_id, method } => {
                let m = match unit.load_method(method, false, activation) {
                    Ok(m) => m,
                    Err(e) => {
                        proof {
                            crate::script::lemma_ctx_extends_trans(*activation, m1, a);
                        }
                        return Err(e);
                    },
                };
                proof {
                    crate::script::lemma_ctx_extends_trans(*activation, m1, a);
                }
                Ok(
                    Trait::new(
                        name,
                        entry.is_final,
                        entry.is_override,
                        TraitKind::Method { disp_id, method: m },
                    ),
                )
            },
            crate::abc::AbcTraitKind::Getter { disp_id, method } => {
                let m = match unit.load_method(method, false, activation) {
                    Ok(m) => m,
                    Err(e) => {
                        proof {
                            crate::script::lemma_ctx_extends_trans(*activation, m1, a);
                        }
                        return Err(e);
                    },
                };
                proof {
                    crate::script::lemma_ctx_extends_trans(*activation, m1, a);
                }
                Ok(
                    Trait::new(
                        name,
                        entry.is_final,
                        entry.is_override,
                        TraitKind::Getter { disp_id, method: m },
                    ),
                )
            },
            crate::abc::AbcTraitKind::Setter { disp_id, method } => {
                let m = match unit.load_method(method, false, activation) {
                    Ok(m) => m,
                    Err(e) => {
                        proof {
                            crate::script::lemma_ctx_extends_trans(*activation, m1, a);
                        }
                        return Err(e);
                    },
                };
                proof {
                    crate::script::lemma_ctx_extends_trans(*activation, m1, a);
                }
                Ok(
                    Trait::new(
                        name,
                        entry.is_final,
                        entry.is_override,
                        TraitKind::Setter { disp_id, method: m },
                    ),
                )
            },
            crate::abc::AbcTraitKind::Function { slot_id, function } => {
                let m = match unit.load_method(function, true, activation) {
                    Ok(m) => m,
                    Err(e) => {
                        proof {
                            crate::script::lemma_ctx_extends_trans(*activation, m1, a);
                        }
                        return Err(e);
                    },
                };
                proof {
                    crate::script::lemma_ctx_extends_trans(*activation, m1, a);
                }
                Ok(
                    Trait::new(
                        name,
                        entry.is_final,
                        entry.is_override,
                        TraitKind::Function { slot_id, function: m },
                    ),
                )
            },
            crate::abc::AbcTraitKind::Class { slot_id, class } => {
                let u = unit.0;
                let cidx = class as usize;
                if cidx >= activation.units[u].classes.len() {
                    proof {
                        crate::script::lemma_ctx_extends_trans(*activation, m1, a);
                    }
                    return Err(
                        crate::error::Error::Load(
                            crate::error::LoadError::ClassIndexInvalid { index: class },
                        ),
                    );
                }
                let c = match activation.units[u].classes[cidx] {
                    Some(c) => c,
                    None => {
                        proof {
                            crate::context::lemma_count_none_mono(
                                a.units@[u as int].classes@,
                                activation.units@[u as int].classes@,
                            );
                        }
                        let loaded = match unit.load_class_uncached(class, activation) {
                            Ok(c) => c,
                            Err(e) => {
                                proof {
                                    crate::script::lemma_ctx_extends_trans(*activation, m1, a);
                                }
                                return Err(e);
                            },
                        };
                        loaded
                    },
                };
                proof {
                    crate::script::lemma_ctx_extends_trans(*activation, m1, a);
                }
                Ok(
                    Trait::new(
                        name,
                        entry.is_final,
                        entry.is_override,
                        TraitKind::Class { slot_id, class: c },
                    ),
                )
            },
        }
    }
}

} // verus!
