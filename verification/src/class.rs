//! Loaded class descriptors.
//!
//! A `Class` is the mutable descriptor of one class: attributes, superclass
//! reference, traits, initializers and allocator strategy. It is built from an
//! archive entry or synthesized natively for built-ins. Trait lists are
//! append-only until `traits_loaded` flips to true, which happens exactly
//! once.

use crate::context::Activation;
use crate::method::MethodBody;
use crate::traits::Trait;
use crate::value::{Multiname, Namespace, QName};
use vstd::prelude::*;

verus! {

/// Attribute bit: sealed — no dynamic properties on instances.
pub const ATTR_SEALED: u8 = 1;

/// Attribute bit: final — the class cannot be subclassed.
pub const ATTR_FINAL: u8 = 2;

/// Attribute bit: the class is an interface.
pub const ATTR_INTERFACE: u8 = 4;

/// Attribute bit: the class accepts type parameters.
pub const ATTR_GENERIC: u8 = 8;

/// All possible attributes of a class, as a bit set over the `ATTR_` bits.
#[derive(Clone, Copy, PartialEq, Eq, Structural, Debug)]
pub struct ClassAttributes {
    pub bits: u8,
}

impl ClassAttributes {
    pub fn empty() -> (r: ClassAttributes)
        ensures
            r.bits == 0u8,
    {
        ClassAttributes { bits: 0 }
    }

    pub open spec fn spec_contains(&self, mask: u8) -> bool {
        self.bits & mask == mask
    }

    pub fn contains(&self, mask: u8) -> (r: bool)
        ensures
            r == self.spec_contains(mask),
    {
        self.bits & mask == mask
    }

    /// Set or clear the bits of `mask`.
    pub fn set(&mut self, mask: u8, value: bool)
        ensures
            final(self).bits == if value {
                old(self).bits | mask
            } else {
                old(self).bits & !mask
            },
    {
        if value {
            self.bits = self.bits | mask;
        } else {
            self.bits = self.bits & !mask;
        }
    }

    /// Clear the bits of `mask`.
    pub fn remove(&mut self, mask: u8)
        ensures
            final(self).bits == (old(self).bits & !mask),
    {
        self.bits = self.bits & !mask;
    }
}

/// A native function that allocates instances of a class, by the embedder's
/// function number. With no allocator, instances take the superclass's
/// allocator, or the default object shape.
#[derive(Clone, Copy, PartialEq, Eq, Structural, Debug)]
pub struct Allocator(pub u32);

/// A loaded class descriptor.
#[derive(Clone, Debug)]
pub struct Class {
    /// The qualified name of the class; mutable only for generic
    /// specialization.
    pub name: QName,
    /// The bound type parameters (class arena indices); only for specialized
    /// generics.
    pub params: Vec<usize>,
    /// The unresolved name of the superclass, if any.
    pub super_class: Option<Multiname>,
    /// Sealed/final/interface/generic bits.
    pub attributes: ClassAttributes,
    /// The namespace protected traits of this class live in.
    pub protected_namespace: Option<Namespace>,
    /// The directly implemented interfaces; no superinterfaces, none of the
    /// superclass's.
    pub direct_interfaces: Vec<Multiname>,
    /// The custom instance allocator, if any.
    pub instance_allocator: Option<Allocator>,
    /// The instance initializer (method arena index).
    pub instance_init: usize,
    /// The native instance initializer; defaults to `instance_init`.
    pub native_instance_init: usize,
    /// Instance traits, in declaration order.
    pub instance_traits: Vec<Trait>,
    /// The class initializer (method arena index).
    pub class_init: usize,
    /// Whether the class initializer has already been called.
    pub class_initializer_called: bool,
    /// Called when the class is used as a conversion function; with none, a
    /// plain coercion is done.
    pub call_handler: Option<usize>,
    /// The class initializer for specializations of this class; only for
    /// generics.
    pub specialized_class_init: usize,
    /// Static (class) traits, in declaration order.
    pub class_traits: Vec<Trait>,
    /// Whether the trait lists have been loaded; flips false to true exactly
    /// once.
    pub traits_loaded: bool,
    /// System (built-in) classes are exempt from superclass validation.
    pub is_system: bool,
}

impl Class {
    /// Create a new system class with the minimum shape, for native built-ins.
    /// Its traits count as already loaded, so `load_traits` will not touch it.
    /// Allocates a do-nothing specialization initializer beside it.
    pub fn new(
        name: QName,
        super_class: Option<Multiname>,
        instance_init: usize,
        class_init: usize,
        activation: &mut Activation,
    ) -> (r: usize)
        requires
            old(activation).strings.wf(),
        ensures
            final(activation).strings == old(activation).strings,
            r == old(activation).classes@.len(),
            final(activation).classes@.len() == old(activation).classes@.len() + 1,
            forall|i: int|
                0 <= i < old(activation).classes@.len() ==> final(activation).classes@[i] == old(
                    activation,
                ).classes@[i],
            ({
                let c = final(activation).classes@[r as int];
                &&& c.name == name
                &&& c.params@.len() == 0
                &&& c.super_class == super_class
                &&& c.attributes.bits == 0
                &&& c.protected_namespace is None
                &&& c.direct_interfaces@.len() == 0
                &&& c.instance_allocator is None
                &&& c.instance_init == instance_init
                &&& c.native_instance_init == instance_init
                &&& c.instance_traits@.len() == 0
                &&& c.class_init == class_init
                &&& !c.class_initializer_called
                &&& c.call_handler is None
                &&& c.class_traits@.len() == 0
                &&& c.traits_loaded
                &&& c.is_system
            }),
            final(activation).methods@.len() == old(activation).methods@.len() + 1,
            forall|i: int|
                0 <= i < old(activation).methods@.len() ==> final(activation).methods@[i] == old(
                    activation,
                ).methods@[i],
            final(activation).methods@[old(activation).methods@.len() as int].body
                == (MethodBody::Native { native: 0u32 }),
            *final(activation) == (Activation {
                classes: final(activation).classes,
                methods: final(activation).methods,
                ..*old(activation)
            }),
    {
        let specialized_class_init = activation.alloc_native_method(0, 0);
        let r = activation.classes.len();
        activation.classes.push(
            Class {
                name,
                params: Vec::new(),
                super_class,
                attributes: ClassAttributes::empty(),
                protected_namespace: None,
                direct_interfaces: Vec::new(),
                instance_allocator: None,
                instance_init,
                native_instance_init: instance_init,
                instance_traits: Vec::new(),
                class_init,
                class_initializer_called: false,
                call_handler: None,
                specialized_class_init,
                class_traits: Vec::new(),
                traits_loaded: true,
                is_system: true,
            },
        );
        r
    }

    /// Construct a class from a translation unit and its class index: resolve
    /// its name, superclass name, protected namespace and interface list, load
    /// its initializers, compute its attribute bits, and — only when loading
    /// into the global domain — splice native allocator, initializer and call
    /// handler implementations in from the side-tables, keeping the declared
    /// shape. The result is unlinked: its traits are not loaded, and the
    /// caller must store it in the unit before loading them.
    #[verifier::rlimit(100)]
    #[verifier::loop_isolation(false)]
    pub fn from_abc_index(
        unit: crate::script::TranslationUnit,
        class_index: u32,
        activation: &mut Activation,
    ) -> (r: Result<usize, crate::error::Error>)
        requires
            old(activation).wf(),
            crate::script::units_ok(*old(activation)),
            unit.valid(*old(activation)),
        ensures
            final(activation).wf(),
            crate::script::units_ok(*final(activation)),
            unit.valid(*final(activation)),
            crate::script::ctx_extends(*final(activation), *old(activation)),
            final(activation).scripts@ == old(activation).scripts@,
            final(activation).vtables@ == old(activation).vtables@,
            final(activation).objects@ == old(activation).objects@,
            final(activation).domains@ == old(activation).domains@,
            crate::script::units_same_classes_scripts(*final(activation), *old(activation)),
            forall|i: int|
                0 <= i < old(activation).classes@.len() ==> final(activation).classes@[i] == old(
                    activation,
                ).classes@[i],
            ({
                let abc = unit.data(*old(activation)).abc;
                &&& (match crate::script::class_entry_err(abc, class_index) {
                    Some(le) => r == Err::<usize, crate::error::Error>(
                        crate::error::Error::Load(le),
                    ),
                    None => r is Ok,
                })
                &&& match r {
                    Ok(c) => {
                        &&& c == old(activation).classes@.len()
                        &&& final(activation).classes@.len() == c + 1
                        &&& (class_index as int) < abc.classes@.len()
                        &&& (class_index as int) < abc.instances@.len()
                        &&& ({
                            let inst = abc.instances@[class_index as int];
                            let cls = abc.classes@[class_index as int];
                            let cl = final(activation).classes@[c as int];
                            &&& !cl.traits_loaded
                            &&& !cl.is_system
                            &&& !cl.class_initializer_called
                            &&& cl.instance_traits@.len() == 0
                            &&& cl.class_traits@.len() == 0
                            &&& cl.params@.len() == 0
                            &&& crate::script::qname_entry_ok(
                                *final(activation),
                                abc,
                                inst.name,
                                cl.name,
                            )
                            &&& (inst.super_name == 0 <==> cl.super_class is None)
                            &&& (cl.super_class matches Some(mn) ==> crate::script::mn_ok(
                                *final(activation),
                                abc,
                                inst.super_name,
                                mn,
                            ) && !mn.spec_has_lazy_component())
                            &&& (inst.protected_namespace is None <==> cl.protected_namespace
                                is None)
                            &&& (cl.protected_namespace matches Some(ns)
                                ==> inst.protected_namespace matches Some(pidx)
                                && crate::script::ns_entry_ok(*final(activation), abc, pidx, ns))
                            &&& cl.direct_interfaces@.len() == inst.interfaces@.len()
                            &&& (forall|k: int|
                                0 <= k < inst.interfaces@.len() ==> crate::script::mn_ok(
                                    *final(activation),
                                    abc,
                                    inst.interfaces@[k],
                                    #[trigger] cl.direct_interfaces@[k],
                                ))
                            &&& cl.attributes.bits == ((if inst.is_sealed {
                                ATTR_SEALED
                            } else {
                                0
                            }) | (if inst.is_final {
                                ATTR_FINAL
                            } else {
                                0
                            }) | (if inst.is_interface {
                                ATTR_INTERFACE
                            } else {
                                0
                            }))
                            &&& cl.instance_init < final(activation).methods@.len()
                            &&& cl.class_init < final(activation).methods@.len()
                            &&& unit.data(*final(activation)).methods@[inst.init_method as int]
                                == Some(cl.instance_init)
                            &&& unit.data(*final(activation)).methods@[cls.init_method as int]
                                == Some(cl.class_init)
                            &&& ({
                                let d = unit.data(*old(activation));
                                if d.domain == old(activation).global_domain {
                                    &&& (cl.instance_allocator matches Some(al)
                                        ==> (class_index as int) < old(
                                        activation,
                                    ).native_instance_allocator_table@.len() && old(
                                        activation,
                                    ).native_instance_allocator_table@[class_index as int] == Some(
                                        al.0,
                                    ))
                                    &&& (if (class_index as int) < old(
                                        activation,
                                    ).native_instance_init_table@.len() && old(
                                        activation,
                                    ).native_instance_init_table@[class_index as int] is Some {
                                        let nm = old(
                                            activation,
                                        ).native_instance_init_table@[class_index as int]->Some_0;
                                        let nmd =
                                            final(activation).methods@[cl.native_instance_init as int];
                                        let imd = final(activation).methods@[cl.instance_init as int];
                                        &&& cl.native_instance_init < final(activation).methods@.len()
                                        &&& nmd.body == (crate::method::MethodBody::Native {
                                            native: nm.native,
                                        })
                                        &&& nmd.name == nm.name
                                        &&& nmd.signature@ == imd.signature@
                                        &&& nmd.is_variadic == imd.is_variadic
                                    } else {
                                        cl.native_instance_init == cl.instance_init
                                    })
                                    &&& (if (class_index as int) < old(
                                        activation,
                                    ).native_call_handler_table@.len() && old(
                                        activation,
                                    ).native_call_handler_table@[class_index as int] is Some {
                                        let nm = old(
                                            activation,
                                        ).native_call_handler_table@[class_index as int]->Some_0;
                                        &&& cl.call_handler matches Some(h)
                                        &&& (cl.call_handler matches Some(h) ==> h < final(activation).methods@.len() && final(activation).methods@[h as int].body
                                            == (crate::method::MethodBody::Native {
                                            native: nm.native,
                                        }) && final(activation).methods@[h as int].name == nm.name)
                                    } else {
                                        cl.call_handler is None
                                    })
                                } else {
                                    &&& cl.instance_allocator is None
                                    &&& cl.native_instance_init == cl.instance_init
                                    &&& cl.call_handler is None
                                }
                            })
                        })
                    },
                    Err(e) => e is Load,
                }
            }),
    {
        let ghost a = *old(activation);
        let ghost abc = unit.data(a).abc;
        let u = unit.0;
        let idx = class_index as usize;
        if idx >= activation.units[u].abc.classes.len() {
            proof {
                crate::script::lemma_ctx_extends_refl(a);
            }
            return Err(
                crate::error::Error::Load(
                    crate::error::LoadError::ClassIndexInvalid { index: class_index },
                ),
            );
        }
        if idx >= activation.units[u].abc.instances.len() {
            proof {
                crate::script::lemma_ctx_extends_refl(a);
            }
            return Err(
                crate::error::Error::Load(
                    crate::error::LoadError::InstanceIndexInvalid { index: class_index },
                ),
            );
        }
        let inst_name = activation.units[u].abc.instances[idx].name;
        let super_name_idx = activation.units[u].abc.instances[idx].super_name;
        let protected_idx = activation.units[u].abc.instances[idx].protected_namespace;
        let is_sealed = activation.units[u].abc.instances[idx].is_sealed;
        let is_final_flag = activation.units[u].abc.instances[idx].is_final;
        let is_interface = activation.units[u].abc.instances[idx].is_interface;
        let inst_init_idx = activation.units[u].abc.instances[idx].init_method;
        let class_init_idx = activation.units[u].abc.classes[idx].init_method;
        let name = match crate::value::QName::from_abc_multiname(unit, inst_name, activation) {
            Ok(q) => q,
            Err(e) => {
                return Err(e);
            },
        };
        let ghost m1 = *activation;
        proof {
            crate::script::lemma_ctx_extends_refl(m1);
        }
        let super_class = if super_name_idx == 0 {
            None
        } else {
            match unit.pool_multiname_static(super_name_idx, activation) {
                Ok(mn) => Some(mn),
                Err(e) => {
                    proof {
                        crate::script::lemma_ctx_extends_trans(*activation, m1, a);
                    }
                    return Err(e);
                },
            }
        };
        proof {
            crate::script::lemma_ctx_extends_trans(*activation, m1, a);
        }
        let ghost m2 = *activation;
        proof {
            crate::script::lemma_ctx_extends_refl(m2);
        }
        let protected_namespace = match protected_idx {
            None => None,
            Some(p) => match unit.pool_namespace(p, activation) {
                Ok(ns) => Some(ns),
                Err(e) => {
                    proof {
                        crate::script::lemma_ctx_extends_trans(*activation, m2, a);
                    }
                    return Err(e);
                },
            },
        };
        proof {
            crate::script::lemma_ctx_extends_trans(*activation, m2, a);
        }
        let ghost s3 = *activation;
        proof {
            crate::script::lemma_ctx_extends_refl(s3);
        }
        let n_ifaces = activation.units[u].abc.instances[idx].interfaces.len();
        let mut interfaces: Vec<Multiname> = Vec::new();
        let mut k: usize = 0;
        while k < n_ifaces
            invariant
                crate::script::ctx_extends(*activation, s3),
                old(activation).wf(),
                crate::script::units_ok(*old(activation)),
                unit.valid(*old(activation)),
                activation.wf(),
                crate::script::units_ok(*activation),
                unit.valid(*activation),
                crate::script::ctx_extends(*activation, *old(activation)),
                activation.classes@ == old(activation).classes@,
                activation.scripts@ == old(activation).scripts@,
                activation.vtables@ == old(activation).vtables@,
                activation.objects@ == old(activation).objects@,
                activation.domains@ == old(activation).domains@,
                crate::script::units_same_classes_scripts(*activation, *old(activation)),
                u == unit.0,
                idx == class_index as int,
                abc == unit.data(*old(activation)).abc,
                abc == unit.data(*activation).abc,
                (class_index as int) < abc.instances@.len(),
                n_ifaces == abc.instances@[class_index as int].interfaces@.len(),
                k <= n_ifaces,
                interfaces@.len() == k,
                forall|j: int|
                    0 <= j < k ==> crate::script::mn_static_err(
                        abc,
                        #[trigger] abc.instances@[class_index as int].interfaces@[j],
                    ) is None,
                forall|j: int|
                    0 <= j < k ==> crate::script::mn_ok(
                        *activation,
                        abc,
                        abc.instances@[class_index as int].interfaces@[j],
                        #[trigger] interfaces@[j],
                    ) && !(#[trigger] interfaces@[j]).spec_has_lazy_component(),
            decreases n_ifaces - k,
        {
            let iface_idx = activation.units[u].abc.instances[idx].interfaces[k];
            let ghost before = *activation;
            let mn = match unit.pool_multiname_static(iface_idx, activation) {
                Ok(mn) => mn,
                Err(e) => {
                    proof {
                        crate::script::lemma_ctx_extends_trans(*activation, before, *old(activation));
                        crate::script::lemma_iface_err_skip(
                            abc,
                            abc.instances@[class_index as int].interfaces@,
                            0,
                            k as int,
                        );
                    }
                    return Err(e);
                },
            };
            proof {
                crate::script::lemma_ctx_extends_trans(*activation, before, *old(activation));
                crate::script::lemma_ctx_extends_trans(*activation, before, s3);
                assert forall|j: int| 0 <= j < k implies crate::script::mn_ok(
                    *activation,
                    abc,
                    abc.instances@[class_index as int].interfaces@[j],
                    #[trigger] interfaces@[j],
                ) by {
                    crate::script::lemma_mn_ok_preserved(
                        before,
                        *activation,
                        abc,
                        abc.instances@[class_index as int].interfaces@[j],
                        interfaces@[j],
                    );
                }
            }
            interfaces.push(mn);
            k = k + 1;
        }
        let ghost s4 = *activation;
        proof {
            crate::script::lemma_ctx_extends_refl(s4);
        }
        let instance_init = match unit.load_method(inst_init_idx, false, activation) {
            Ok(m) => m,
            Err(e) => {
                proof {
                    crate::script::lemma_ctx_extends_trans(*activation, s4, a);
                    crate::script::lemma_iface_err_skip(
                        abc,
                        abc.instances@[idx as int].interfaces@,
                        0,
                        n_ifaces as int,
                    );
                }
                return Err(e);
            },
        };
        proof {
            crate::script::lemma_ctx_extends_trans(*activation, s4, a);
        }
        let ghost s5 = *activation;
        proof {
            crate::script::lemma_ctx_extends_refl(s5);
        }
        let class_init = match unit.load_method(class_init_idx, false, activation) {
            Ok(m) => m,
            Err(e) => {
                proof {
                    crate::script::lemma_ctx_extends_trans(*activation, s5, a);
                    crate::script::lemma_iface_err_skip(
                        abc,
                        abc.instances@[idx as int].interfaces@,
                        0,
                        n_ifaces as int,
                    );
                    assert(crate::script::method_err(abc, inst_init_idx) is None);
                }
                return Err(e);
            },
        };
        proof {
            crate::script::lemma_ctx_extends_trans(*activation, s5, a);
        }
        let ghost s6 = *activation;
        let mut native_instance_init = instance_init;
        let mut native_call_handler: Option<usize> = None;
        let mut instance_allocator: Option<Allocator> = None;
        let is_global = activation.units[u].domain == activation.global_domain;
        if is_global {
            if idx < activation.native_instance_allocator_table.len() {
                if let Some(alloc) = activation.native_instance_allocator_table[idx] {
                    instance_allocator = Some(Allocator(alloc));
                }
            }
            if idx < activation.native_instance_init_table.len() {
                if let Some(nm) = activation.native_instance_init_table[idx] {
                    let sig = crate::context::copy_vec(&activation.methods[instance_init].signature);
                    let variadic = activation.methods[instance_init].is_variadic;
                    native_instance_init = activation.alloc_native_method_with_params(
                        nm.name,
                        nm.native,
                        sig,
                        variadic,
                    );
                }
            }
            if idx < activation.native_call_handler_table.len() {
                if let Some(nm) = activation.native_call_handler_table[idx] {
                    let mut sig: Vec<crate::method::ParamConfig> = Vec::new();
                    sig.push(crate::method::ParamConfig::of_type(0));
                    let h = activation.alloc_native_method_with_params(nm.name, nm.native, sig, false);
                    native_call_handler = Some(h);
                }
            }
        }
        let ghost m5 = *activation;
        let specialized_class_init = activation.alloc_native_method(0, 0);
        let bits: u8 = (if is_sealed {
            ATTR_SEALED
        } else {
            0
        }) | (if is_final_flag {
            ATTR_FINAL
        } else {
            0
        }) | (if is_interface {
            ATTR_INTERFACE
        } else {
            0
        });
        let attributes = ClassAttributes { bits };
        let c = activation.classes.len();
        activation.classes.push(
            Class {
                name,
                params: Vec::new(),
                super_class,
                attributes,
                protected_namespace,
                direct_interfaces: interfaces,
                instance_allocator,
                instance_init,
                native_instance_init,
                instance_traits: Vec::new(),
                class_init,
                class_initializer_called: false,
                call_handler: native_call_handler,
                specialized_class_init,
                class_traits: Vec::new(),
                traits_loaded: false,
                is_system: false,
            },
        );
        proof {
            let b = *final(activation);
            assert(crate::script::ctx_extends(m5, s6)) by {
                crate::script::lemma_ctx_extends_refl(s6);
                assert(s6.methods@.is_prefix_of(m5.methods@)) by {
                    assert(s6.methods@ =~= m5.methods@.take(s6.methods@.len() as int));
                }
                assert(s6.ns_sets@.is_prefix_of(m5.ns_sets@)) by {
                    assert(s6.ns_sets@ =~= m5.ns_sets@.take(s6.ns_sets@.len() as int));
                }
                assert(s6.class_objects@.is_prefix_of(m5.class_objects@)) by {
                    assert(s6.class_objects@ =~= m5.class_objects@.take(
                        s6.class_objects@.len() as int,
                    ));
                }
            }
            assert(crate::script::ctx_extends(b, m5)) by {
                crate::script::lemma_ctx_extends_refl(m5);
                assert(m5.methods@.is_prefix_of(b.methods@)) by {
                    assert(m5.methods@ =~= b.methods@.take(m5.methods@.len() as int));
                }
            }
            crate::script::lemma_ctx_extends_trans(b, m5, s6);
            crate::script::lemma_ctx_extends_trans(b, s6, s5);
            crate::script::lemma_ctx_extends_trans(b, s5, s4);
            crate::script::lemma_ctx_extends_trans(b, s4, s3);
            crate::script::lemma_ctx_extends_trans(b, s3, m2);
            crate::script::lemma_ctx_extends_trans(b, m2, m1);
            crate::script::lemma_ctx_extends_trans(b, m1, a);
            assert forall|uu: int| 0 <= uu < b.units@.len() implies crate::script::unit_ok(
                b,
                #[trigger] b.units@[uu],
            ) by {
                assert(crate::script::unit_ok(m5, m5.units@[uu]));
                crate::script::lemma_unit_ok_preserved(m5, b, m5.units@[uu]);
                assert(b.units@[uu] == m5.units@[uu]);
            }
            assert(crate::script::qname_entry_ok(b, abc, inst_name, name));
            match super_class {
                Some(mn) => {
                    crate::script::lemma_mn_ok_preserved(m2, b, abc, super_name_idx, mn);
                },
                None => {},
            }
            assert forall|kk: int| 0 <= kk < interfaces@.len() implies crate::script::mn_ok(
                b,
                abc,
                abc.instances@[idx as int].interfaces@[kk],
                #[trigger] interfaces@[kk],
            ) by {
                crate::script::lemma_mn_ok_preserved(
                    s4,
                    b,
                    abc,
                    abc.instances@[idx as int].interfaces@[kk],
                    interfaces@[kk],
                );
            }
            assert(unit.data(b).methods@[inst_init_idx as int] == Some(instance_init));
            assert(unit.data(b).methods@[class_init_idx as int] == Some(class_init));
            crate::script::lemma_iface_err_skip(
                abc,
                abc.instances@[idx as int].interfaces@,
                0,
                n_ifaces as int,
            );
            assert(crate::script::class_entry_err(abc, class_index) is None);
        }
        Ok(c)
    }

    /// Construct the hidden class of one method's activation object: named
    /// after the method, without a superclass, carrying the activation's
    /// declared traits, with do-nothing initializers. Its traits count as
    /// loaded from the start.
    pub fn for_activation(
        activation: &mut Activation,
        translation_unit: crate::script::TranslationUnit,
        method_index: u32,
        body_index: u32,
    ) -> (r: Result<usize, crate::error::Error>)
        requires
            old(activation).wf(),
            crate::script::units_ok(*old(activation)),
            translation_unit.valid(*old(activation)),
        ensures
            final(activation).wf(),
            crate::script::units_ok(*final(activation)),
            translation_unit.valid(*final(activation)),
            crate::script::ctx_extends(*final(activation), *old(activation)),
            final(activation).scripts@ == old(activation).scripts@,
            final(activation).vtables@ == old(activation).vtables@,
            final(activation).objects@ == old(activation).objects@,
            final(activation).domains@ == old(activation).domains@,
            forall|i: int|
                0 <= i < old(activation).classes@.len() ==> final(activation).classes@[i] == old(
                    activation,
                ).classes@[i],
            ({
                let d = translation_unit.data(*old(activation));
                let abc = d.abc;
                &&& ((body_index as int) >= abc.method_bodies@.len() ==> r == Err::<
                    usize,
                    crate::error::Error,
                >(
                    crate::error::Error::Load(
                        crate::error::LoadError::MethodIndexInvalid { index: body_index },
                    ),
                ))
                &&& ((body_index as int) < abc.method_bodies@.len() && (if (method_index as int)
                    < abc.methods@.len() {
                    !crate::script::string_err(abc, abc.methods@[method_index as int].name)
                } else {
                    true
                }) && crate::script::traits_loadable(
                    d,
                    abc.method_bodies@[body_index as int].traits@,
                    -1,
                ) ==> r is Ok)
                &&& match r {
                    Ok(c) => {
                        &&& c < final(activation).classes@.len()
                        &&& (body_index as int) < abc.method_bodies@.len()
                        &&& ({
                            let cl = final(activation).classes@[c as int];
                            let btraits = abc.method_bodies@[body_index as int].traits@;
                            &&& cl.traits_loaded
                            &&& !cl.is_system
                            &&& cl.super_class is None
                            &&& cl.name.ns == old(activation).public_namespace
                            &&& cl.instance_traits@.len() == btraits.len()
                            &&& (forall|k: int|
                                0 <= k < btraits.len() ==> crate::script::trait_entry_matches(
                                    *final(activation),
                                    abc,
                                    btraits[k],
                                    #[trigger] cl.instance_traits@[k],
                                ))
                            &&& cl.class_traits@.len() == 0
                        })
                    },
                    Err(e) => e is Load,
                }
            }),
        decreases
                crate::context::count_none(
                    old(activation).units@[translation_unit.0 as int].classes@,
                ),
                2int,
    {
        let ghost a = *old(activation);
        let ghost abc = translation_unit.data(a).abc;
        let u = translation_unit.0;
        if body_index as usize >= activation.units[u].abc.method_bodies.len() {
            proof {
                crate::script::lemma_ctx_extends_refl(a);
            }
            return Err(
                crate::error::Error::Load(
                    crate::error::LoadError::MethodIndexInvalid { index: body_index },
                ),
            );
        }
        let name_idx = if (method_index as usize) < activation.units[u].abc.methods.len() {
            activation.units[u].abc.methods[method_index as usize].name
        } else {
            0
        };
        let name_sym = match translation_unit.pool_string(name_idx, activation) {
            Ok(s) => s,
            Err(e) => {
                return Err(e);
            },
        };
        proof {
            assert(!crate::script::string_err(abc, name_idx));
        }
        let ghost e0 = *activation;
        let n = activation.units[u].abc.method_bodies[body_index as usize].traits.len();
        let mut loaded: Vec<Trait> = Vec::new();
        let mut i: usize = 0;
        while i < n
            invariant
                a == *old(activation),
                a.wf(),
                crate::script::units_ok(a),
                translation_unit.valid(a),
                activation.wf(),
                crate::script::units_ok(*activation),
                translation_unit.valid(*activation),
                crate::script::ctx_extends(*activation, e0),
                crate::script::ctx_extends(e0, a),
                activation.scripts@ == a.scripts@,
                activation.vtables@ == a.vtables@,
                activation.objects@ == a.objects@,
                activation.domains@ == a.domains@,
                forall|j: int|
                    0 <= j < a.classes@.len() ==> activation.classes@[j] == a.classes@[j],
                u == translation_unit.0,
                abc == translation_unit.data(a).abc,
                abc == translation_unit.data(*activation).abc,
                (body_index as int) < abc.method_bodies@.len(),
                n == abc.method_bodies@[body_index as int].traits@.len(),
                i <= n,
                loaded@.len() == i,
                forall|k: int|
                    0 <= k < i ==> crate::script::trait_entry_matches(
                        *activation,
                        abc,
                        abc.method_bodies@[body_index as int].traits@[k],
                        #[trigger] loaded@[k],
                    ),
            decreases n - i,
        {
            let entry = activation.units[u].abc.method_bodies[body_index as usize].traits[i];
            let ghost before = *activation;
            proof {
                crate::context::lemma_count_none_mono(
                    a.units@[u as int].classes@,
                    before.units@[u as int].classes@,
                );
            }
            let t = match Trait::from_abc_trait(translation_unit, entry, activation) {
                Ok(t) => t,
                Err(e) => {
                    proof {
                        crate::script::lemma_ctx_extends_trans(*activation, before, e0);
                        crate::script::lemma_ctx_extends_trans(*activation, e0, a);
                        if crate::script::traits_loadable(
                            translation_unit.data(a),
                            abc.method_bodies@[body_index as int].traits@,
                            -1,
                        ) {
                            match entry.kind {
                                crate::abc::AbcTraitKind::Class { slot_id, class: cc } => {
                                    assert(translation_unit.data(a).classes@[cc as int] is Some);
                                    assert(translation_unit.data(before).classes@[cc as int]
                                        == translation_unit.data(a).classes@[cc as int]);
                                },
                                _ => {},
                            }
                            assert(false);
                        }
                    }
                    return Err(e);
                },
            };
            proof {
                crate::script::lemma_ctx_extends_trans(*activation, before, e0);
                assert forall|k: int| 0 <= k < i implies crate::script::trait_entry_matches(
                    *activation,
                    abc,
                    abc.method_bodies@[body_index as int].traits@[k],
                    #[trigger] loaded@[k],
                ) by {
                    crate::script::lemma_trait_matches_preserved(
                        before,
                        *activation,
                        abc,
                        abc.method_bodies@[body_index as int].traits@[k],
                        loaded@[k],
                    );
                }
            }
            loaded.push(t);
            i = i + 1;
        }
        let init = activation.alloc_native_method(0, 0);
        let public = activation.public_namespace;
        let c = activation.classes.len();
        activation.classes.push(
            Class {
                name: QName::new(public, name_sym),
                params: Vec::new(),
                super_class: None,
                attributes: ClassAttributes::empty(),
                protected_namespace: None,
                direct_interfaces: Vec::new(),
                instance_allocator: None,
                instance_init: init,
                native_instance_init: init,
                instance_traits: loaded,
                class_init: init,
                class_initializer_called: false,
                call_handler: None,
                specialized_class_init: init,
                class_traits: Vec::new(),
                traits_loaded: true,
                is_system: false,
            },
        );
        proof {
            let b = *final(activation);
            let ghost m5 = b;
            assert(crate::script::ctx_extends(b, e0)) by {
                crate::script::lemma_ctx_extends_refl(e0);
                assert(e0.methods@.is_prefix_of(b.methods@)) by {
                    assert(e0.methods@ =~= b.methods@.take(e0.methods@.len() as int));
                }
                assert(e0.ns_sets@.is_prefix_of(b.ns_sets@)) by {
                    assert(e0.ns_sets@ =~= b.ns_sets@.take(e0.ns_sets@.len() as int));
                }
                assert(e0.class_objects@.is_prefix_of(b.class_objects@)) by {
                    assert(e0.class_objects@ =~= b.class_objects@.take(
                        e0.class_objects@.len() as int,
                    ));
                }
            }
            crate::script::lemma_ctx_extends_trans(b, e0, a);
        }
        Ok(c)
    }

    /// Apply a type parameter to a generic class: a copy of the descriptor
    /// whose name embeds the parameter's qualified name, whose class
    /// initializer becomes the specialization initializer with its one-shot
    /// flag reset, and which is no longer generic. One type parameter is
    /// supported.
    pub fn with_type_params(class: usize, params: &Vec<usize>, activation: &mut Activation) -> (r:
        usize)
        requires
            old(activation).wf(),
            class < old(activation).classes@.len(),
            params@.len() == 1,
            params@[0] < old(activation).classes@.len(),
            old(activation).strings.has_sym(old(activation).classes@[class as int].name.name),
            old(activation).strings.has_sym(
                old(activation).classes@[params@[0] as int].name.name,
            ),
            old(activation).strings.has_sym(
                old(activation).classes@[params@[0] as int].name.ns.name,
            ),
        ensures
            final(activation).wf(),
            r == old(activation).classes@.len(),
            final(activation).classes@.len() == old(activation).classes@.len() + 1,
            forall|i: int|
                0 <= i < old(activation).classes@.len() ==> final(activation).classes@[i] == old(
                    activation,
                ).classes@[i],
            ({
                let base = old(activation).classes@[class as int];
                let param = old(activation).classes@[params@[0] as int];
                let c = final(activation).classes@[r as int];
                &&& c.name.ns == base.name.ns
                &&& final(activation).strings.spec_str(c.name.name) == old(
                    activation,
                ).strings.spec_str(base.name.name) + seq![0x2Eu8, 0x3Cu8] + qualified_name_bytes(
                    *old(activation),
                    param.name,
                ) + seq![0x3Eu8]
                &&& c.params@ == params@
                &&& c.attributes.bits == (base.attributes.bits & !ATTR_GENERIC)
                &&& c.class_init == base.specialized_class_init
                &&& !c.class_initializer_called
                &&& c.super_class == base.super_class
                &&& c.protected_namespace == base.protected_namespace
                &&& c.direct_interfaces@ == base.direct_interfaces@
                &&& c.instance_allocator == base.instance_allocator
                &&& c.instance_init == base.instance_init
                &&& c.native_instance_init == base.native_instance_init
                &&& c.call_handler == base.call_handler
                &&& c.specialized_class_init == base.specialized_class_init
                &&& c.instance_traits@ == base.instance_traits@
                &&& c.class_traits@ == base.class_traits@
                &&& c.traits_loaded == base.traits_loaded
                &&& c.is_system == base.is_system
            }),
    {
        let base_name = activation.classes[class].name;
        let param_name = activation.classes[params[0]].name;
        let mut buf = crate::context::copy_vec(activation.strings.get(base_name.name));
        buf.push(0x2E);
        buf.push(0x3C);
        let mut qualified = crate::context::copy_vec(activation.strings.get(param_name.ns.name));
        if qualified.len() > 0 {
            qualified.push(0x3A);
            qualified.push(0x3A);
        }
        let mut local = crate::context::copy_vec(activation.strings.get(param_name.name));
        qualified.append(&mut local);
        buf.append(&mut qualified);
        buf.push(0x3E);
        proof {
            assert(buf@ =~= old(activation).strings.spec_str(base_name.name) + seq![
                0x2Eu8,
                0x3Cu8,
            ] + qualified_name_bytes(*old(activation), param_name) + seq![0x3Eu8]);
        }
        let sym = activation.strings.intern(buf);
        let new_params = crate::context::copy_vec(params);
        let mut attributes = activation.classes[class].attributes;
        attributes.remove(ATTR_GENERIC);
        let specialized = activation.classes[class].specialized_class_init;
        let fresh = Class {
            name: QName::new(base_name.ns, sym),
            params: new_params,
            super_class: activation.classes[class].super_class,
            attributes,
            protected_namespace: activation.classes[class].protected_namespace,
            direct_interfaces: crate::context::copy_vec(
                &activation.classes[class].direct_interfaces,
            ),
            instance_allocator: activation.classes[class].instance_allocator,
            instance_init: activation.classes[class].instance_init,
            native_instance_init: activation.classes[class].native_instance_init,
            instance_traits: crate::context::copy_vec(&activation.classes[class].instance_traits),
            class_init: specialized,
            class_initializer_called: false,
            call_handler: activation.classes[class].call_handler,
            specialized_class_init: specialized,
            class_traits: crate::context::copy_vec(&activation.classes[class].class_traits),
            traits_loaded: activation.classes[class].traits_loaded,
            is_system: activation.classes[class].is_system,
        };
        let r = activation.classes.len();
        activation.classes.push(fresh);
        proof {
            assert(final(activation).classes@[r as int].instance_traits@ =~= old(
                activation,
            ).classes@[class as int].instance_traits@);
            assert(final(activation).classes@[r as int].class_traits@ =~= old(
                activation,
            ).classes@[class as int].class_traits@);
            assert(final(activation).classes@[r as int].params@ =~= params@);
        }
        r
    }

    /// Finish the class-loading process by loading traits, after the class
    /// has been stored in the translation unit. Loading is idempotent: once
    /// `traits_loaded` is true, a call returns at once and appends nothing, so
    /// the trait lists are append-only up to that one transition and frozen
    /// after it. On the first call the flag flips before any trait is read, so
    /// a recursive reference to this class meets the stored descriptor.
    pub fn load_traits(
        class: usize,
        unit: crate::script::TranslationUnit,
        class_index: u32,
        activation: &mut Activation,
    ) -> (r: Result<(), crate::error::Error>)
        requires
            old(activation).wf(),
            crate::script::units_ok(*old(activation)),
            unit.valid(*old(activation)),
            class < old(activation).classes@.len(),
        ensures
            final(activation).wf(),
            crate::script::units_ok(*final(activation)),
            unit.valid(*final(activation)),
            crate::script::ctx_extends(*final(activation), *old(activation)),
            final(activation).scripts@ == old(activation).scripts@,
            final(activation).vtables@ == old(activation).vtables@,
            final(activation).objects@ == old(activation).objects@,
            final(activation).domains@ == old(activation).domains@,
            forall|i: int|
                0 <= i < old(activation).classes@.len() && i != class ==> final(activation).classes@[i] == old(activation).classes@[i],
            r matches Err(e) ==> e is Load,
            old(activation).classes@[class as int].traits_loaded ==> r is Ok && *final(activation)
                == *old(activation),
            !old(activation).classes@[class as int].traits_loaded ==> ({
                let d = unit.data(*old(activation));
                let abc = d.abc;
                &&& ((class_index as int) >= abc.classes@.len() ==> r == Err::<
                    (),
                    crate::error::Error,
                >(
                    crate::error::Error::Load(
                        crate::error::LoadError::ClassIndexInvalid { index: class_index },
                    ),
                ))
                &&& ((class_index as int) < abc.classes@.len() && (class_index as int)
                    >= abc.instances@.len() ==> r == Err::<(), crate::error::Error>(
                    crate::error::Error::Load(
                        crate::error::LoadError::InstanceIndexInvalid { index: class_index },
                    ),
                ))
                &&& ((class_index as int) < abc.classes@.len() && (class_index as int)
                    < abc.instances@.len() && crate::script::traits_loadable(
                    d,
                    abc.instances@[class_index as int].traits@,
                    -1,
                ) && crate::script::traits_loadable(
                    d,
                    abc.classes@[class_index as int].traits@,
                    -1,
                ) ==> r is Ok)
            }),
            !old(activation).classes@[class as int].traits_loaded ==> ({
                let c0 = old(activation).classes@[class as int];
                let c1 = final(activation).classes@[class as int];
                let abc = unit.data(*old(activation)).abc;
                &&& c1.traits_loaded
                &&& c1 == (Class {
                    instance_traits: c1.instance_traits,
                    class_traits: c1.class_traits,
                    traits_loaded: true,
                    ..c0
                })
                &&& c0.instance_traits@.is_prefix_of(c1.instance_traits@)
                &&& c0.class_traits@.is_prefix_of(c1.class_traits@)
                &&& (r is Ok ==> {
                    &&& (class_index as int) < abc.classes@.len()
                    &&& (class_index as int) < abc.instances@.len()
                    &&& ({
                        let itraits = abc.instances@[class_index as int].traits@;
                        let ctraits = abc.classes@[class_index as int].traits@;
                        &&& c1.instance_traits@.len() == c0.instance_traits@.len() + itraits.len()
                        &&& c1.class_traits@.len() == c0.class_traits@.len() + ctraits.len()
                        &&& (forall|k: int|
                            0 <= k < itraits.len() ==> crate::script::trait_entry_matches(
                                *final(activation),
                                abc,
                                itraits[k],
                                #[trigger] c1.instance_traits@[c0.instance_traits@.len() + k],
                            ))
                        &&& (forall|k: int|
                            0 <= k < ctraits.len() ==> crate::script::trait_entry_matches(
                                *final(activation),
                                abc,
                                ctraits[k],
                                #[trigger] c1.class_traits@[c0.class_traits@.len() + k],
                            ))
                    })
                })
            }),
        decreases
                crate::context::count_none(old(activation).units@[unit.0 as int].classes@),
                2int,
    {
        let ghost a = *old(activation);
        let ghost abc = unit.data(a).abc;
        if activation.classes[class].traits_loaded {
            proof {
                crate::script::lemma_ctx_extends_refl(a);
            }
            return Ok(());
        }
        {
            let cref = &mut activation.classes[class];
            cref.traits_loaded = true;
        }
        let ghost e0 = *activation;
        proof {
            crate::script::lemma_ctx_extends_refl(e0);
            assert(crate::script::ctx_extends(e0, a));
            assert forall|uu: int| 0 <= uu < e0.units@.len() implies crate::script::unit_ok(
                e0,
                #[trigger] e0.units@[uu],
            ) by {
                assert(crate::script::unit_ok(a, a.units@[uu]));
                crate::script::lemma_unit_ok_preserved(a, e0, a.units@[uu]);
            }
        }
        let u = unit.0;
        let idx = class_index as usize;
        if idx >= activation.units[u].abc.classes.len() {
            return Err(
                crate::error::Error::Load(
                    crate::error::LoadError::ClassIndexInvalid { index: class_index },
                ),
            );
        }
        if idx >= activation.units[u].abc.instances.len() {
            return Err(
                crate::error::Error::Load(
                    crate::error::LoadError::InstanceIndexInvalid { index: class_index },
                ),
            );
        }
        let ghost base_inst = e0.classes@[class as int].instance_traits@;
        let ghost base_cls = e0.classes@[class as int].class_traits@;
        let n_inst = activation.units[u].abc.instances[idx].traits.len();
        let mut i: usize = 0;
        while i < n_inst
            invariant
                a == *old(activation),
                !a.classes@[class as int].traits_loaded,
                a.wf(),
                crate::script::units_ok(a),
                unit.valid(a),
                class < a.classes@.len(),
                activation.wf(),
                crate::script::units_ok(*activation),
                unit.valid(*activation),
                crate::script::ctx_extends(*activation, e0),
                crate::script::ctx_extends(e0, a),
                e0.classes@.len() == a.classes@.len(),
                class < e0.classes@.len(),
                activation.scripts@ == a.scripts@,
                activation.vtables@ == a.vtables@,
                activation.objects@ == a.objects@,
                activation.domains@ == a.domains@,
                forall|j: int|
                    0 <= j < e0.classes@.len() && j != class ==> activation.classes@[j]
                        == e0.classes@[j],
                e0 == (Activation { classes: e0.classes, ..a }),
                e0.classes@ == a.classes@.update(
                    class as int,
                    (Class { traits_loaded: true, ..a.classes@[class as int] }),
                ),
                u == unit.0,
                idx == class_index as int,
                abc == unit.data(a).abc,
                abc == unit.data(*activation).abc,
                (class_index as int) < abc.classes@.len(),
                (class_index as int) < abc.instances@.len(),
                base_inst == a.classes@[class as int].instance_traits@,
                base_cls == a.classes@[class as int].class_traits@,
                n_inst == abc.instances@[class_index as int].traits@.len(),
                i <= n_inst,
                ({
                    let cc = activation.classes@[class as int];
                    &&& cc == (Class {
                        instance_traits: cc.instance_traits,
                        ..e0.classes@[class as int]
                    })
                    &&& cc.instance_traits@.len() == base_inst.len() + i
                    &&& base_inst.is_prefix_of(cc.instance_traits@)
                    &&& (forall|k: int|
                        0 <= k < i ==> crate::script::trait_entry_matches(
                            *activation,
                            abc,
                            abc.instances@[class_index as int].traits@[k],
                            #[trigger] cc.instance_traits@[base_inst.len() + k],
                        ))
                }),
            decreases n_inst - i,
        {
            let entry = activation.units[u].abc.instances[idx].traits[i];
            let ghost before = *activation;
            proof {
                crate::context::lemma_count_none_mono(
                    a.units@[u as int].classes@,
                    before.units@[u as int].classes@,
                );
            }
            let t = match Trait::from_abc_trait(unit, entry, activation) {
                Ok(t) => t,
                Err(e) => {
                    proof {
                        crate::script::lemma_ctx_extends_trans(*activation, before, e0);
                        crate::script::lemma_ctx_extends_trans(*activation, e0, a);
                        assert(base_inst.is_prefix_of(
                            activation.classes@[class as int].instance_traits@,
                        ));
                        assert forall|ii: int|
                            0 <= ii < a.classes@.len() && ii != class implies activation.classes@[ii]
                            == a.classes@[ii] by {
                            assert(activation.classes@[ii] == before.classes@[ii]);
                            assert(before.classes@[ii] == e0.classes@[ii]);
                        }
                        if crate::script::traits_loadable(
                            unit.data(a),
                            abc.instances@[class_index as int].traits@,
                            -1,
                        ) {
                            match entry.kind {
                                crate::abc::AbcTraitKind::Class { slot_id, class: cc } => {
                                    assert(unit.data(a).classes@[cc as int] is Some);
                                    assert(unit.data(before).classes@[cc as int] == unit.data(
                                        a,
                                    ).classes@[cc as int]);
                                },
                                _ => {},
                            }
                            assert(false);
                        }
                    }
                    return Err(e);
                },
            };
            proof {
                crate::script::lemma_ctx_extends_trans(*activation, before, e0);
            }
            let ghost mid = *activation;
            {
                let cref = &mut activation.classes[class];
                cref.instance_traits.push(t);
            }
            proof {
                let cur = *activation;
                assert(crate::script::ctx_extends(cur, mid)) by {
                    crate::script::lemma_ctx_extends_refl(mid);
                }
                crate::script::lemma_ctx_extends_trans(cur, mid, e0);
                assert forall|uu: int| 0 <= uu < cur.units@.len() implies crate::script::unit_ok(
                    cur,
                    #[trigger] cur.units@[uu],
                ) by {
                    assert(crate::script::unit_ok(mid, mid.units@[uu]));
                    crate::script::lemma_unit_ok_preserved(mid, cur, mid.units@[uu]);
                    assert(cur.units@[uu] == mid.units@[uu]);
                }
                assert forall|k: int| 0 <= k < i + 1 implies crate::script::trait_entry_matches(
                    cur,
                    abc,
                    abc.instances@[class_index as int].traits@[k],
                    #[trigger] cur.classes@[class as int].instance_traits@[base_inst.len() + k],
                ) by {
                    if k < i {
                        crate::script::lemma_trait_matches_preserved(
                            before,
                            cur,
                            abc,
                            abc.instances@[class_index as int].traits@[k],
                            before.classes@[class as int].instance_traits@[base_inst.len() + k],
                        );
                    } else {
                        crate::script::lemma_trait_matches_preserved(
                            mid,
                            cur,
                            abc,
                            abc.instances@[class_index as int].traits@[k],
                            t,
                        );
                    }
                }
                assert(base_inst.is_prefix_of(activation.classes@[class as int].instance_traits@));
            }
            i = i + 1;
        }
        let ghost after_inst = *activation;
        let n_cls = activation.units[u].abc.classes[idx].traits.len();
        let mut i2: usize = 0;
        while i2 < n_cls
            invariant
                a == *old(activation),
                !a.classes@[class as int].traits_loaded,
                a.wf(),
                crate::script::units_ok(a),
                unit.valid(a),
                class < a.classes@.len(),
                activation.wf(),
                crate::script::units_ok(*activation),
                unit.valid(*activation),
                crate::script::ctx_extends(*activation, after_inst),
                crate::script::ctx_extends(after_inst, e0),
                crate::script::ctx_extends(e0, a),
                e0.classes@.len() == a.classes@.len(),
                class < e0.classes@.len(),
                activation.scripts@ == a.scripts@,
                activation.vtables@ == a.vtables@,
                activation.objects@ == a.objects@,
                activation.domains@ == a.domains@,
                forall|j: int|
                    0 <= j < e0.classes@.len() && j != class ==> activation.classes@[j]
                        == e0.classes@[j],
                e0 == (Activation { classes: e0.classes, ..a }),
                e0.classes@ == a.classes@.update(
                    class as int,
                    (Class { traits_loaded: true, ..a.classes@[class as int] }),
                ),
                u == unit.0,
                idx == class_index as int,
                abc == unit.data(a).abc,
                abc == unit.data(*activation).abc,
                (class_index as int) < abc.classes@.len(),
                (class_index as int) < abc.instances@.len(),
                base_inst == a.classes@[class as int].instance_traits@,
                base_cls == a.classes@[class as int].class_traits@,
                n_cls == abc.classes@[class_index as int].traits@.len(),
                i2 <= n_cls,
                ({
                    let cc = activation.classes@[class as int];
                    &&& cc == (Class {
                        instance_traits: cc.instance_traits,
                        class_traits: cc.class_traits,
                        ..e0.classes@[class as int]
                    })
                    &&& cc.instance_traits@.len() == base_inst.len()
                        + abc.instances@[class_index as int].traits@.len()
                    &&& base_inst.is_prefix_of(cc.instance_traits@)
                    &&& (forall|k: int|
                        0 <= k < abc.instances@[class_index as int].traits@.len()
                            ==> crate::script::trait_entry_matches(
                            *activation,
                            abc,
                            abc.instances@[class_index as int].traits@[k],
                            #[trigger] cc.instance_traits@[base_inst.len() + k],
                        ))
                    &&& cc.class_traits@.len() == base_cls.len() + i2
                    &&& base_cls.is_prefix_of(cc.class_traits@)
                    &&& (forall|k: int|
                        0 <= k < i2 ==> crate::script::trait_entry_matches(
                            *activation,
                            abc,
                            abc.classes@[class_index as int].traits@[k],
                            #[trigger] cc.class_traits@[base_cls.len() + k],
                        ))
                }),
            decreases n_cls - i2,
        {
            let entry = activation.units[u].abc.classes[idx].traits[i2];
            let ghost before = *activation;
            proof {
                crate::script::lemma_ctx_extends_trans(before, after_inst, e0);
                crate::context::lemma_count_none_mono(
                    a.units@[u as int].classes@,
                    before.units@[u as int].classes@,
                );
            }
            let t = match Trait::from_abc_trait(unit, entry, activation) {
                Ok(t) => t,
                Err(e) => {
                    proof {
                        crate::script::lemma_ctx_extends_trans(*activation, before, e0);
                        crate::script::lemma_ctx_extends_trans(*activation, e0, a);
                        assert(base_inst.is_prefix_of(
                            activation.classes@[class as int].instance_traits@,
                        ));
                        assert(base_cls.is_prefix_of(
                            activation.classes@[class as int].class_traits@,
                        ));
                        assert forall|ii: int|
                            0 <= ii < a.classes@.len() && ii != class implies activation.classes@[ii]
                            == a.classes@[ii] by {
                            assert(activation.classes@[ii] == before.classes@[ii]);
                            assert(before.classes@[ii] == e0.classes@[ii]);
                        }
                        if crate::script::traits_loadable(
                            unit.data(a),
                            abc.classes@[class_index as int].traits@,
                            -1,
                        ) {
                            match entry.kind {
                                crate::abc::AbcTraitKind::Class { slot_id, class: cc } => {
                                    assert(unit.data(a).classes@[cc as int] is Some);
                                    assert(unit.data(before).classes@[cc as int] == unit.data(
                                        a,
                                    ).classes@[cc as int]);
                                },
                                _ => {},
                            }
                            assert(false);
                        }
                    }
                    return Err(e);
                },
            };
            proof {
                crate::script::lemma_ctx_extends_trans(*activation, before, after_inst);
            }
            let ghost mid = *activation;
            {
                let cref = &mut activation.classes[class];
                cref.class_traits.push(t);
            }
            proof {
                let cur = *activation;
                assert(crate::script::ctx_extends(cur, mid)) by {
                    crate::script::lemma_ctx_extends_refl(mid);
                }
                crate::script::lemma_ctx_extends_trans(cur, mid, after_inst);
                assert forall|uu: int| 0 <= uu < cur.units@.len() implies crate::script::unit_ok(
                    cur,
                    #[trigger] cur.units@[uu],
                ) by {
                    assert(crate::script::unit_ok(mid, mid.units@[uu]));
                    crate::script::lemma_unit_ok_preserved(mid, cur, mid.units@[uu]);
                    assert(cur.units@[uu] == mid.units@[uu]);
                }
                assert forall|k: int| 0 <= k < abc.instances@[class_index as int].traits@.len()
                    implies crate::script::trait_entry_matches(
                    cur,
                    abc,
                    abc.instances@[class_index as int].traits@[k],
                    #[trigger] cur.classes@[class as int].instance_traits@[base_inst.len() + k],
                ) by {
                    crate::script::lemma_trait_matches_preserved(
                        before,
                        cur,
                        abc,
                        abc.instances@[class_index as int].traits@[k],
                        before.classes@[class as int].instance_traits@[base_inst.len() + k],
                    );
                }
                assert forall|k: int| 0 <= k < i2 + 1 implies crate::script::trait_entry_matches(
                    cur,
                    abc,
                    abc.classes@[class_index as int].traits@[k],
                    #[trigger] cur.classes@[class as int].class_traits@[base_cls.len() + k],
                ) by {
                    if k < i2 {
                        crate::script::lemma_trait_matches_preserved(
                            before,
                            cur,
                            abc,
                            abc.classes@[class_index as int].traits@[k],
                            before.classes@[class as int].class_traits@[base_cls.len() + k],
                        );
                    } else {
                        crate::script::lemma_trait_matches_preserved(mid, cur, abc, entry, t);
                    }
                }
                assert(base_inst.is_prefix_of(activation.classes@[class as int].instance_traits@));
                assert(base_cls.is_prefix_of(activation.classes@[class as int].class_traits@));
            }
            i2 = i2 + 1;
        }
        proof {
            crate::script::lemma_ctx_extends_trans(*activation, after_inst, e0);
            crate::script::lemma_ctx_extends_trans(*activation, e0, a);
            assert forall|ii: int|
                0 <= ii < a.classes@.len() && ii != class implies activation.classes@[ii]
                == a.classes@[ii] by {
                assert(activation.classes@[ii] == e0.classes@[ii]);
            }
        }
        Ok(())
    }

    /// Completely validate this class against its resolved superclass: walk
    /// the superclass chain for every instance trait, looking for a same-named
    /// supertrait. Overriding a final supertrait is an error; matching one
    /// without the override marker is an error; a trait marked override that
    /// matches nothing anywhere in the chain is an error. Getter/setter pairs
    /// never count as overriding each other, and the walk stops at the first
    /// real match. System classes are exempt.
    #[verifier::loop_isolation(false)]
    pub fn validate_class(
        class: usize,
        superclass: Option<usize>,
        activation: &Activation,
    ) -> (r: Result<(), crate::error::Error>)
        requires
            activation.class_objects_wf(),
            class < activation.classes@.len(),
            match superclass {
                Some(s) => s < activation.class_objects@.len(),
                None => true,
            },
        ensures
            r == match validate_spec(*activation, activation.classes@[class as int], superclass) {
                Ok(()) => Ok::<(), crate::error::Error>(()),
                Err(ve) => Err::<(), crate::error::Error>(crate::error::Error::Verify(ve)),
            },
    {
        let ghost c = activation.classes@[class as int];
        if activation.classes[class].is_system {
            return Ok(());
        }
        let sc = match superclass {
            None => {
                return Ok(());
            },
            Some(s) => s,
        };
        let nt = activation.classes[class].instance_traits.len();
        let mut ti: usize = 0;
        while ti < nt
            invariant
                activation.class_objects_wf(),
                class < activation.classes@.len(),
                c == activation.classes@[class as int],
                sc < activation.class_objects@.len(),
                nt == c.instance_traits@.len(),
                ti <= nt,
                validate_traits(*activation, c, sc, 0) == validate_traits(
                    *activation,
                    c,
                    sc,
                    ti as int,
                ),
            decreases nt - ti,
        {
            let t = activation.classes[class].instance_traits[ti];
            let is_protected = match activation.classes[class].protected_namespace {
                Some(p) => p == t.name().ns,
                None => false,
            };
            let mut cur: Option<usize> = Some(sc);
            let mut walk_result: Option<Result<(), crate::error::VerifyError>> = None;
            while walk_result.is_none() && cur.is_some()
                invariant
                    activation.class_objects_wf(),
                    match cur {
                        Some(j) => j < activation.class_objects@.len(),
                        None => true,
                    },
                    match walk_result {
                        None => walk_chain(*activation, t, Some(sc), is_protected) == walk_chain(
                            *activation,
                            t,
                            cur,
                            is_protected,
                        ),
                        Some(res) => cur is None && walk_chain(
                            *activation,
                            t,
                            Some(sc),
                            is_protected,
                        ) == match res {
                            Ok(()) => Ok::<bool, crate::error::VerifyError>(true),
                            Err(e) => Err::<bool, crate::error::VerifyError>(e),
                        },
                    },
                decreases (match cur {
                    Some(j) => j + 1,
                    None => 0int,
                }),
            {
                let j = match cur {
                    Some(j) => j,
                    None => 0,
                };
                let sup_class = activation.class_objects[j].class;
                let ghost sup_traits = activation.classes@[sup_class as int].instance_traits@;
                let sup_pns = activation.classes[sup_class].protected_namespace;
                let ns_sup = activation.classes[sup_class].instance_traits.len();
                let mut k: usize = 0;
                let mut found: Option<Result<(), crate::error::VerifyError>> = None;
                while k < ns_sup && found.is_none()
                    invariant
                        class < activation.classes@.len(),
                        sup_class < activation.classes@.len(),
                        sup_traits == activation.classes@[sup_class as int].instance_traits@,
                        sup_pns == activation.classes@[sup_class as int].protected_namespace,
                        ns_sup == sup_traits.len(),
                        k <= ns_sup,
                        match found {
                            None => scan_supertraits(t, sup_traits, 0, is_protected, sup_pns)
                                == scan_supertraits(
                                t,
                                sup_traits,
                                k as int,
                                is_protected,
                                sup_pns,
                            ),
                            Some(res) => scan_supertraits(t, sup_traits, 0, is_protected, sup_pns)
                                == Some(res),
                        },
                    decreases ns_sup - k,
                {
                    let sup = activation.classes[sup_class].instance_traits[k];
                    let names_do_match = sup.name().name == t.name().name && (sup.name().ns
                        == t.name().ns || (is_protected && sup_pns == Some(sup.name().ns)));
                    if names_do_match {
                        let gs_pair = match (sup.kind(), t.kind()) {
                            (
                                crate::traits::TraitKind::Getter { .. },
                                crate::traits::TraitKind::Setter { .. },
                            ) => true,
                            (
                                crate::traits::TraitKind::Setter { .. },
                                crate::traits::TraitKind::Getter { .. },
                            ) => true,
                            _ => false,
                        };
                        if !gs_pair {
                            if sup.is_final() {
                                found = Some(
                                    Err(
                                        crate::error::VerifyError::OverridesFinal {
                                            trait_name: t.name(),
                                        },
                                    ),
                                );
                            } else if !t.is_override() {
                                found = Some(
                                    Err(
                                        crate::error::VerifyError::UnmarkedOverride {
                                            trait_name: t.name(),
                                        },
                                    ),
                                );
                            } else {
                                found = Some(Ok(()));
                            }
                        }
                    }
                    k = k + 1;
                }
                match found {
                    Some(res) => {
                        walk_result = Some(res);
                        cur = None;
                    },
                    None => {
                        cur = activation.class_objects[j].superclass_object;
                    },
                }
            }
            match walk_result {
                Some(Err(e)) => {
                    return Err(crate::error::Error::Verify(e));
                },
                Some(Ok(())) => {},
                None => {
                    if t.is_override() {
                        return Err(
                            crate::error::Error::Verify(
                                crate::error::VerifyError::OverrideWithoutTarget {
                                    trait_name: t.name(),
                                },
                            ),
                        );
                    }
                },
            }
            ti = ti + 1;
        }
        Ok(())
    }

    /// Set the attributes of the class (sealed/final/interface status).
    pub fn set_attributes(&mut self, attributes: ClassAttributes)
        ensures
            *final(self) == (Class { attributes, ..*old(self) }),
    {
        self.attributes = attributes;
    }

    pub fn name(&self) -> (r: QName)
        ensures
            r == self.name,
    {
        self.name
    }

    pub fn set_name(&mut self, name: QName)
        ensures
            *final(self) == (Class { name, ..*old(self) }),
    {
        self.name = name;
    }

    pub fn super_class_name(&self) -> (r: &Option<Multiname>)
        ensures
            *r == self.super_class,
    {
        &self.super_class
    }

    pub fn protected_namespace(&self) -> (r: Option<Namespace>)
        ensures
            r == self.protected_namespace,
    {
        self.protected_namespace
    }

    /// Define a trait on the class object; class traits are accessible as
    /// properties of the class object itself.
    pub fn define_class_trait(&mut self, my_trait: Trait)
        requires
            old(self).class_traits@.len() < usize::MAX,
        ensures
            final(self).class_traits@ == old(self).class_traits@.push(my_trait),
            *final(self) == (Class { class_traits: final(self).class_traits, ..*old(self) }),
    {
        self.class_traits.push(my_trait);
    }

    /// Return class traits provided by this class.
    pub fn class_traits(&self) -> (r: &Vec<Trait>)
        ensures
            r@ == self.class_traits@,
    {
        &self.class_traits
    }

    /// Define a trait on instances of the class; instance traits shadow any
    /// same-named prototype properties.
    pub fn define_instance_trait(&mut self, my_trait: Trait)
        requires
            old(self).instance_traits@.len() < usize::MAX,
        ensures
            final(self).instance_traits@ == old(self).instance_traits@.push(my_trait),
            *final(self) == (Class { instance_traits: final(self).instance_traits, ..*old(self) }),
    {
        self.instance_traits.push(my_trait);
    }

    /// Return instance traits provided by this class.
    pub fn instance_traits(&self) -> (r: &Vec<Trait>)
        ensures
            r@ == self.instance_traits@,
    {
        &self.instance_traits
    }

    /// This class's instance allocator, if it has one of its own.
    pub fn instance_allocator(&self) -> (r: Option<u32>)
        ensures
            r == match self.instance_allocator {
                Some(a) => Some(a.0),
                None => None::<u32>,
            },
    {
        match &self.instance_allocator {
            Some(a) => Some(a.0),
            None => None,
        }
    }

    /// Set this class's instance allocator.
    pub fn set_instance_allocator(&mut self, alloc: u32)
        ensures
            *final(self) == (Class { instance_allocator: Some(Allocator(alloc)), ..*old(self) }),
    {
        self.instance_allocator = Some(Allocator(alloc));
    }

    /// This class's instance initializer.
    pub fn instance_init(&self) -> (r: usize)
        ensures
            r == self.instance_init,
    {
        self.instance_init
    }

    /// This class's native-code instance initializer.
    pub fn native_instance_init(&self) -> (r: usize)
        ensures
            r == self.native_instance_init,
    {
        self.native_instance_init
    }

    /// Set a native-code instance initializer for this class.
    pub fn set_native_instance_init(&mut self, new_native_init: usize)
        ensures
            *final(self) == (Class { native_instance_init: new_native_init, ..*old(self) }),
    {
        self.native_instance_init = new_native_init;
    }

    /// This class's class initializer.
    pub fn class_init(&self) -> (r: usize)
        ensures
            r == self.class_init,
    {
        self.class_init
    }

    /// Set a call handler for this class.
    pub fn set_call_handler(&mut self, new_call_handler: usize)
        ensures
            *final(self) == (Class { call_handler: Some(new_call_handler), ..*old(self) }),
    {
        self.call_handler = Some(new_call_handler);
    }

    /// This class's call handler.
    pub fn call_handler(&self) -> (r: Option<usize>)
        ensures
            r == self.call_handler,
    {
        self.call_handler
    }

    /// Whether the class initializer has already been called.
    pub fn is_class_initialized(&self) -> (r: bool)
        ensures
            r == self.class_initializer_called,
    {
        self.class_initializer_called
    }

    /// Mark the class initializer as called; never unmarked again.
    pub fn mark_class_initialized(&mut self)
        ensures
            *final(self) == (Class { class_initializer_called: true, ..*old(self) }),
    {
        self.class_initializer_called = true;
    }

    /// Set the class initializer for specializations of this class.
    pub fn set_specialized_init(&mut self, specialized_init: usize)
        ensures
            *final(self) == (Class { specialized_class_init: specialized_init, ..*old(self) }),
    {
        self.specialized_class_init = specialized_init;
    }

    pub fn direct_interfaces(&self) -> (r: &Vec<Multiname>)
        ensures
            r@ == self.direct_interfaces@,
    {
        &self.direct_interfaces
    }

    /// Add a directly implemented interface.
    pub fn implements(&mut self, iface: Multiname)
        requires
            old(self).direct_interfaces@.len() < usize::MAX,
        ensures
            final(self).direct_interfaces@ == old(self).direct_interfaces@.push(iface),
            *final(self) == (Class {
                direct_interfaces: final(self).direct_interfaces,
                ..*old(self)
            }),
    {
        self.direct_interfaces.push(iface);
    }

    /// Whether this class is sealed (no dynamic properties).
    pub fn is_sealed(&self) -> (r: bool)
        ensures
            r == self.attributes.spec_contains(ATTR_SEALED),
    {
        self.attributes.contains(ATTR_SEALED)
    }

    /// Whether this class is final (cannot be subclassed).
    pub fn is_final(&self) -> (r: bool)
        ensures
            r == self.attributes.spec_contains(ATTR_FINAL),
    {
        self.attributes.contains(ATTR_FINAL)
    }

    /// Whether this class is an interface.
    pub fn is_interface(&self) -> (r: bool)
        ensures
            r == self.attributes.spec_contains(ATTR_INTERFACE),
    {
        self.attributes.contains(ATTR_INTERFACE)
    }

    /// Whether this class is generic (can be specialized).
    pub fn is_generic(&self) -> (r: bool)
        ensures
            r == self.attributes.spec_contains(ATTR_GENERIC),
    {
        self.attributes.contains(ATTR_GENERIC)
    }

    pub fn params(&self) -> (r: &Vec<usize>)
        ensures
            r@ == self.params@,
    {
        &self.params
    }
}

/// The printed form of a qualified name: the namespace's bytes, two colons
/// and the local name, or the local name alone under an unnamed namespace.
pub open spec fn qualified_name_bytes(ctx: Activation, q: QName) -> Seq<u8> {
    if ctx.strings.spec_str(q.ns.name).len() == 0 {
        ctx.strings.spec_str(q.name)
    } else {
        ctx.strings.spec_str(q.ns.name) + seq![0x3Au8, 0x3Au8] + ctx.strings.spec_str(q.name)
    }
}

/// Whether a supertrait's name matches an instance trait's name: equal local
/// names, and either equal namespaces or — for a protected trait — the
/// superclass's own protected namespace.
pub open spec fn names_match(
    t: Trait,
    sup: Trait,
    is_protected: bool,
    sup_pns: Option<Namespace>,
) -> bool {
    sup.spec_name().name == t.spec_name().name && (sup.spec_name().ns == t.spec_name().ns || (
    is_protected && sup_pns == Some(sup.spec_name().ns)))
}

/// Scan one superclass's trait list for the first real match of `t`:
/// getter/setter pairs are skipped; a final match is an error; a match without
/// the override marker is an error; any other match is a clean override.
/// `None` means no real match in this list.
pub open spec fn scan_supertraits(
    t: Trait,
    sup_traits: Seq<Trait>,
    i: int,
    is_protected: bool,
    sup_pns: Option<Namespace>,
) -> Option<Result<(), crate::error::VerifyError>>
    decreases sup_traits.len() - i when 0 <= i <= sup_traits.len()
{
    if i >= sup_traits.len() {
        None
    } else {
        let sup = sup_traits[i];
        if names_match(t, sup, is_protected, sup_pns) && !Trait::spec_is_getter_setter_pair(
            sup.spec_kind(),
            t.spec_kind(),
        ) {
            if sup.spec_is_final() {
                Some(Err(crate::error::VerifyError::OverridesFinal { trait_name: t.spec_name() }))
            } else if !t.spec_is_override() {
                Some(Err(crate::error::VerifyError::UnmarkedOverride { trait_name: t.spec_name() }))
            } else {
                Some(Ok(()))
            }
        } else {
            scan_supertraits(t, sup_traits, i + 1, is_protected, sup_pns)
        }
    }
}

/// Walk the superclass chain for one instance trait: scan each class's
/// traits; stop at the first real match or error; report whether any class in
/// the chain was overridden.
pub open spec fn walk_chain(
    ctx: Activation,
    t: Trait,
    cur: Option<usize>,
    is_protected: bool,
) -> Result<bool, crate::error::VerifyError>
    decreases (match cur {
        Some(j) => j + 1,
        None => 0int,
    }) when (cur matches Some(j) ==> j < ctx.class_objects@.len() && (
    ctx.class_objects@[j as int].superclass_object matches Some(k) ==> k < j))
{
    match cur {
        None => Ok(false),
        Some(j) => {
            let sup_class = ctx.class_objects@[j as int].class;
            let sup_traits = ctx.classes@[sup_class as int].instance_traits@;
            let sup_pns = ctx.classes@[sup_class as int].protected_namespace;
            match scan_supertraits(t, sup_traits, 0, is_protected, sup_pns) {
                Some(Err(e)) => Err(e),
                Some(Ok(())) => Ok(true),
                None => walk_chain(
                    ctx,
                    t,
                    ctx.class_objects@[j as int].superclass_object,
                    is_protected,
                ),
            }
        },
    }
}

/// Whether trait `t` of class `c` lives in the class's protected namespace.
pub open spec fn trait_is_protected(c: Class, t: Trait) -> bool {
    c.protected_namespace == Some(t.spec_name().ns)
}

/// Validate the instance traits of `c` from index `i` on against the
/// superclass chain starting at class object `sc`: the first trait whose walk
/// errs decides, and a trait marked override that matched nothing is an error
/// of its own.
pub open spec fn validate_traits(ctx: Activation, c: Class, sc: usize, i: int) -> Result<
    (),
    crate::error::VerifyError,
>
    decreases c.instance_traits@.len() - i when 0 <= i <= c.instance_traits@.len()
{
    if i >= c.instance_traits@.len() {
        Ok(())
    } else {
        let t = c.instance_traits@[i];
        match walk_chain(ctx, t, Some(sc), trait_is_protected(c, t)) {
            Err(e) => Err(e),
            Ok(true) => validate_traits(ctx, c, sc, i + 1),
            Ok(false) => if t.spec_is_override() {
                Err(crate::error::VerifyError::OverrideWithoutTarget { trait_name: t.spec_name() })
            } else {
                validate_traits(ctx, c, sc, i + 1)
            },
        }
    }
}

/// What validating a class against its resolved superclass returns: nothing
/// to check for system classes or classes without a superclass; otherwise the
/// verdict of walking every instance trait.
pub open spec fn validate_spec(ctx: Activation, c: Class, superclass: Option<usize>) -> Result<
    (),
    crate::error::VerifyError,
> {
    if c.is_system {
        Ok(())
    } else {
        match superclass {
            None => Ok(()),
            Some(sc) => validate_traits(ctx, c, sc, 0),
        }
    }
}

/// A subclass trait whose first real name match in the superclass's list is
/// neither final nor a getter/setter counterpart, and which is not marked
/// override, is reported as an unmarked override naming that trait.
pub proof fn lemma_unmarked_override_scan(
    t: Trait,
    sup_traits: Seq<Trait>,
    j: int,
    is_protected: bool,
    sup_pns: Option<Namespace>,
)
    requires
        0 <= j < sup_traits.len(),
        names_match(t, sup_traits[j], is_protected, sup_pns),
        !Trait::spec_is_getter_setter_pair(sup_traits[j].spec_kind(), t.spec_kind()),
        !sup_traits[j].spec_is_final(),
        !t.spec_is_override(),
        forall|k: int|
            0 <= k < j ==> !(names_match(t, #[trigger] sup_traits[k], is_protected, sup_pns)
                && !Trait::spec_is_getter_setter_pair(sup_traits[k].spec_kind(), t.spec_kind())),
    ensures
        scan_supertraits(t, sup_traits, 0, is_protected, sup_pns) == Some(
            Err::<(), crate::error::VerifyError>(
                crate::error::VerifyError::UnmarkedOverride { trait_name: t.spec_name() },
            ),
        ),
{
    lemma_scan_skips_to(t, sup_traits, 0, j, is_protected, sup_pns);
}

proof fn lemma_scan_skips_to(
    t: Trait,
    sup_traits: Seq<Trait>,
    i: int,
    j: int,
    is_protected: bool,
    sup_pns: Option<Namespace>,
)
    requires
        0 <= i <= j <= sup_traits.len(),
        forall|k: int|
            i <= k < j ==> !(names_match(t, #[trigger] sup_traits[k], is_protected, sup_pns)
                && !Trait::spec_is_getter_setter_pair(sup_traits[k].spec_kind(), t.spec_kind())),
    ensures
        scan_supertraits(t, sup_traits, i, is_protected, sup_pns) == scan_supertraits(
            t,
            sup_traits,
            j,
            is_protected,
            sup_pns,
        ),
    decreases j - i,
{
    if i < j {
        lemma_scan_skips_to(t, sup_traits, i + 1, j, is_protected, sup_pns);
    }
}

/// A trait marked override whose walk of the whole superclass chain found no
/// real match makes validation fail with the override-without-target error
/// naming that trait, the moment that trait is validated.
pub proof fn lemma_override_without_target(ctx: Activation, c: Class, sc: usize, i: int)
    requires
        0 <= i < c.instance_traits@.len(),
        walk_chain(
            ctx,
            c.instance_traits@[i],
            Some(sc),
            trait_is_protected(c, c.instance_traits@[i]),
        ) == Ok::<bool, crate::error::VerifyError>(false),
        c.instance_traits@[i].spec_is_override(),
    ensures
        validate_traits(ctx, c, sc, i) == Err::<(), crate::error::VerifyError>(
            crate::error::VerifyError::OverrideWithoutTarget {
                trait_name: c.instance_traits@[i].spec_name(),
            },
        ),
{
}

/// A class reference compared and hashed by arena identity.
#[derive(Clone, Copy, PartialEq, Eq, Hash, Structural, Debug)]
pub struct ClassHashWrapper(pub usize);

} // verus!
