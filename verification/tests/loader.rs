//! Tests of the unit loader, class loading, dispatch-table linking, class
//! validation and script lifecycle, on small hand-built archives.

use avm_core::abc::{
    AbcClass, AbcConstantPool, AbcFile, AbcInstance, AbcMethod, AbcMultiname, AbcNamespace,
    AbcScript, AbcTrait, AbcTraitKind,
};
use avm_core::class::{Class, ClassAttributes};
use avm_core::context::{Activation, ClassObjectData, ObjectData, ScopeChain};
use avm_core::error::{Error, LoadError, VerifyError};
use avm_core::property::Property;
use avm_core::script::{Script, TranslationUnit};
use avm_core::traits::{Trait, TraitKind};
use avm_core::value::{Multiname, Namespace, NsKind, QName, Value};
use avm_core::vtable::VTable;

/// An archive with one class `A` (one slot trait) and one script.
fn small_abc() -> AbcFile {
    AbcFile {
        constant_pool: AbcConstantPool {
            strings: vec![b"A".to_vec(), b"x".to_vec()],
            namespaces: vec![AbcNamespace::Package { name: 0 }],
            ns_sets: Vec::new(),
            multinames: vec![
                AbcMultiname::QName { ns: 1, name: 1 },
                AbcMultiname::QName { ns: 1, name: 2 },
            ],
        },
        methods: vec![
            AbcMethod { name: 0, param_types: Vec::new(), is_variadic: false },
            AbcMethod { name: 0, param_types: Vec::new(), is_variadic: false },
            AbcMethod { name: 0, param_types: Vec::new(), is_variadic: false },
        ],
        classes: vec![AbcClass { init_method: 0, traits: Vec::new() }],
        instances: vec![AbcInstance {
            name: 1,
            super_name: 0,
            protected_namespace: None,
            interfaces: Vec::new(),
            init_method: 1,
            is_sealed: true,
            is_final: false,
            is_interface: false,
            traits: vec![AbcTrait {
                name: 2,
                kind: AbcTraitKind::Slot { slot_id: 0, declared_type: 0, value: None },
                is_final: false,
                is_override: false,
            }],
        }],
        scripts: vec![AbcScript { init_method: 2, traits: Vec::new() }],
        method_bodies: Vec::new(),
    }
}

#[test]
fn pool_string_caches_and_rejects_bad_index() {
    let mut ctx = Activation::new();
    let unit = TranslationUnit::from_abc(small_abc(), 0, None, &mut ctx);
    let a = unit.pool_string(1, &mut ctx).unwrap();
    let a_again = unit.pool_string(1, &mut ctx).unwrap();
    assert_eq!(a, a_again);
    assert_eq!(ctx.strings.get(a).as_slice(), b"A");
    let zero = unit.pool_string(0, &mut ctx).unwrap();
    assert_eq!(zero, 0);
    assert!(matches!(
        unit.pool_string(99, &mut ctx),
        Err(Error::Load(LoadError::StringIndexInvalid { index: 99 }))
    ));
}

#[test]
fn pool_multiname_static_rejects_runtime_names() {
    let mut abc = small_abc();
    abc.constant_pool.multinames.push(AbcMultiname::RTQName { name: 1 });
    let mut ctx = Activation::new();
    let unit = TranslationUnit::from_abc(abc, 0, None, &mut ctx);
    let q = unit.pool_multiname_static(1, &mut ctx).unwrap();
    assert!(!q.has_lazy_component());
    assert!(matches!(
        unit.pool_multiname_static(3, &mut ctx),
        Err(Error::Load(LoadError::MultinameNotStatic { index: 3 }))
    ));
}

#[test]
fn load_class_is_cached_and_two_phase() {
    let mut ctx = Activation::new();
    let unit = TranslationUnit::from_abc(small_abc(), 0, None, &mut ctx);
    let c = unit.load_class(0, &mut ctx).unwrap();
    assert!(ctx.classes[c].traits_loaded);
    assert_eq!(ctx.classes[c].instance_traits.len(), 1);
    let c2 = unit.load_class(0, &mut ctx).unwrap();
    assert_eq!(c, c2);
}

#[test]
fn load_traits_is_idempotent_and_appends_nothing_when_loaded() {
    let mut ctx = Activation::new();
    let unit = TranslationUnit::from_abc(small_abc(), 0, None, &mut ctx);
    let c = unit.load_class(0, &mut ctx).unwrap();
    let before = ctx.classes[c].instance_traits.len();
    Class::load_traits(c, unit, 0, &mut ctx).unwrap();
    Class::load_traits(c, unit, 0, &mut ctx).unwrap();
    assert_eq!(ctx.classes[c].instance_traits.len(), before);
    assert_eq!(ctx.classes[c].class_traits.len(), 0);
}

fn public_qname(ctx: &mut Activation, name: &[u8]) -> QName {
    let ns = Namespace { kind: NsKind::Package, name: 0 };
    let sym = ctx.strings.intern(name.to_vec());
    QName::new(ns, sym)
}

/// Link a superclass table with a getter and a slot, then a subclass table
/// over it: dispatch ids are preserved, the override points at the new body,
/// the inherited slot keeps its id and default, and the new constant is
/// assigned the next free slot id.
#[test]
fn subclass_vtable_keeps_dispatch_and_slot_ids() {
    let mut ctx = Activation::new();
    let get_x = public_qname(&mut ctx, b"getX");
    let y = public_qname(&mut ctx, b"y");
    let z = public_qname(&mut ctx, b"z");
    let m1 = ctx.alloc_native_method(0, 11);
    let m2 = ctx.alloc_native_method(0, 22);
    let scope = ScopeChain::new(0);

    let vt_a = VTable::empty(&mut ctx);
    let a_traits = vec![
        Trait::from_getter(get_x, m1),
        Trait::new(
            y,
            false,
            false,
            TraitKind::Slot {
                slot_id: 1,
                declared_type: Multiname::any(),
                default_value: Value::Int(10),
                unit: None,
            },
        ),
    ];
    vt_a.init_vtable(0, &a_traits, scope, None, &mut ctx).unwrap();
    assert_eq!(
        vt_a.get_trait(&Multiname::from_qname(get_x), &ctx),
        Some(Property::Virtual { get: Some(0), set: None })
    );
    assert_eq!(
        vt_a.get_trait(&Multiname::from_qname(y), &ctx),
        Some(Property::Slot { slot_id: 1 })
    );
    assert_eq!(vt_a.default_slots(&ctx)[1], Some(Value::Int(10)));

    let vt_b = VTable::empty(&mut ctx);
    let b_traits = vec![
        Trait::from_getter(get_x, m2),
        Trait::new(
            z,
            false,
            false,
            TraitKind::Const {
                slot_id: 0,
                declared_type: Multiname::any(),
                default_value: Value::Int(7),
                unit: None,
            },
        ),
    ];
    vt_b.init_vtable(0, &b_traits, scope, Some(vt_a), &mut ctx).unwrap();
    // The overridden getter keeps dispatch id 0, now bound to the new body.
    assert_eq!(
        vt_b.get_trait(&Multiname::from_qname(get_x), &ctx),
        Some(Property::Virtual { get: Some(0), set: None })
    );
    assert_eq!(vt_b.get_method(0, &ctx), Some(m2));
    // The superclass table still holds the old body.
    assert_eq!(vt_a.get_method(0, &ctx), Some(m1));
    // The inherited slot is unchanged.
    assert_eq!(
        vt_b.get_trait(&Multiname::from_qname(y), &ctx),
        Some(Property::Slot { slot_id: 1 })
    );
    assert_eq!(vt_b.default_slots(&ctx)[1], Some(Value::Int(10)));
    // The new constant takes the next free slot id, 2.
    assert_eq!(
        vt_b.get_trait(&Multiname::from_qname(z), &ctx),
        Some(Property::ConstSlot { slot_id: 2 })
    );
    assert_eq!(vt_b.default_slots(&ctx)[2], Some(Value::Int(7)));
}

/// Two traits of one pass declaring the same nonzero slot id: the second is
/// reassigned to a fresh id and the first keeps its value.
#[test]
fn slot_conflict_degrades_to_auto_assignment() {
    let mut ctx = Activation::new();
    let p = public_qname(&mut ctx, b"p");
    let q = public_qname(&mut ctx, b"q");
    let scope = ScopeChain::new(0);
    let vt = VTable::empty(&mut ctx);
    let traits = vec![
        Trait::new(
            p,
            false,
            false,
            TraitKind::Slot {
                slot_id: 3,
                declared_type: Multiname::any(),
                default_value: Value::Int(1),
                unit: None,
            },
        ),
        Trait::new(
            q,
            false,
            false,
            TraitKind::Slot {
                slot_id: 3,
                declared_type: Multiname::any(),
                default_value: Value::Int(2),
                unit: None,
            },
        ),
    ];
    vt.init_vtable(0, &traits, scope, None, &mut ctx).unwrap();
    assert_eq!(vt.get_trait(&Multiname::from_qname(p), &ctx), Some(Property::Slot { slot_id: 3 }));
    assert_eq!(vt.get_trait(&Multiname::from_qname(q), &ctx), Some(Property::Slot { slot_id: 4 }));
    assert_eq!(vt.default_slots(&ctx)[3], Some(Value::Int(1)));
    assert_eq!(vt.default_slots(&ctx)[4], Some(Value::Int(2)));
}

/// A trait with declared slot id 0 is assigned the number of previously
/// assigned slots.
#[test]
fn auto_slot_id_is_next_free_index() {
    let mut ctx = Activation::new();
    let p = public_qname(&mut ctx, b"p");
    let scope = ScopeChain::new(0);
    let vt = VTable::empty(&mut ctx);
    let traits = vec![Trait::new(
        p,
        false,
        false,
        TraitKind::Slot {
            slot_id: 0,
            declared_type: Multiname::any(),
            default_value: Value::Int(5),
            unit: None,
        },
    )];
    vt.init_vtable(0, &traits, scope, None, &mut ctx).unwrap();
    assert_eq!(vt.get_trait(&Multiname::from_qname(p), &ctx), Some(Property::Slot { slot_id: 0 }));
    assert_eq!(vt.default_slots(&ctx).len(), 1);
}

fn plain_class(ctx: &mut Activation, name: QName, traits: Vec<Trait>) -> usize {
    let init = ctx.alloc_native_method(0, 0);
    let id = ctx.classes.len();
    ctx.classes.push(Class {
        name,
        params: Vec::new(),
        super_class: None,
        attributes: ClassAttributes::empty(),
        protected_namespace: None,
        direct_interfaces: Vec::new(),
        instance_allocator: None,
        instance_init: init,
        native_instance_init: init,
        instance_traits: traits,
        class_init: init,
        class_initializer_called: false,
        call_handler: None,
        specialized_class_init: init,
        class_traits: Vec::new(),
        traits_loaded: true,
        is_system: false,
    });
    id
}

/// A subclass trait that matches a non-final supertrait without the override
/// marker is a verification error naming the trait; a trait marked override
/// with no match anywhere is one too; overriding a final trait is one too.
#[test]
fn validation_errors_for_override_misuse() {
    let mut ctx = Activation::new();
    let foo = public_qname(&mut ctx, b"foo");
    let bar = public_qname(&mut ctx, b"bar");
    let m = ctx.alloc_native_method(0, 0);

    let p_name = public_qname(&mut ctx, b"P");
    let sup = plain_class(&mut ctx, p_name, vec![Trait::from_method(foo, m)]);
    let co = ctx.class_objects.len();
    ctx.class_objects.push(ClassObjectData { class: sup, superclass_object: None, vtable: None });

    // Same name, not marked override.
    let s1_name = public_qname(&mut ctx, b"S1");
    let s1 = plain_class(&mut ctx, s1_name, vec![Trait::from_method(foo, m)]);
    assert!(matches!(
        Class::validate_class(s1, Some(co), &ctx),
        Err(Error::Verify(VerifyError::UnmarkedOverride { trait_name })) if trait_name == foo
    ));

    // Marked override, but nothing to override.
    let s2_name = public_qname(&mut ctx, b"S2");
    let s2 = plain_class(
        &mut ctx,
        s2_name,
        vec![Trait::new(bar, false, true, TraitKind::Method { disp_id: 0, method: m })],
    );
    assert!(matches!(
        Class::validate_class(s2, Some(co), &ctx),
        Err(Error::Verify(VerifyError::OverrideWithoutTarget { trait_name })) if trait_name == bar
    ));

    // Overriding a final supertrait.
    let pf_name = public_qname(&mut ctx, b"PF");
    let sup_final = plain_class(
        &mut ctx,
        pf_name,
        vec![Trait::new(foo, true, false, TraitKind::Method { disp_id: 0, method: m })],
    );
    let co_f = ctx.class_objects.len();
    ctx.class_objects.push(ClassObjectData {
        class: sup_final,
        superclass_object: None,
        vtable: None,
    });
    let s3_name = public_qname(&mut ctx, b"S3");
    let s3 = plain_class(
        &mut ctx,
        s3_name,
        vec![Trait::new(foo, false, true, TraitKind::Method { disp_id: 0, method: m })],
    );
    assert!(matches!(
        Class::validate_class(s3, Some(co_f), &ctx),
        Err(Error::Verify(VerifyError::OverridesFinal { trait_name })) if trait_name == foo
    ));

    // A clean override passes, and so does a getter over a setter.
    let s4_name = public_qname(&mut ctx, b"S4");
    let s4 = plain_class(
        &mut ctx,
        s4_name,
        vec![Trait::new(foo, false, true, TraitKind::Method { disp_id: 0, method: m })],
    );
    assert!(Class::validate_class(s4, Some(co), &ctx).is_ok());
}

/// Getter/setter pairs do not override each other.
#[test]
fn getter_setter_pairs_do_not_conflict() {
    let mut ctx = Activation::new();
    let v = public_qname(&mut ctx, b"value");
    let m = ctx.alloc_native_method(0, 0);
    let p_name = public_qname(&mut ctx, b"P");
    let sup = plain_class(&mut ctx, p_name, vec![Trait::from_getter(v, m)]);
    let co = ctx.class_objects.len();
    ctx.class_objects.push(ClassObjectData { class: sup, superclass_object: None, vtable: None });
    let s_name = public_qname(&mut ctx, b"S");
    let s = plain_class(&mut ctx, s_name, vec![Trait::from_setter(v, m)]);
    assert!(Class::validate_class(s, Some(co), &ctx).is_ok());
}

/// System classes are exempt from validation.
#[test]
fn system_classes_skip_validation() {
    let mut ctx = Activation::new();
    let foo = public_qname(&mut ctx, b"foo");
    let m = ctx.alloc_native_method(0, 0);
    let p_name = public_qname(&mut ctx, b"P");
    let sup = plain_class(&mut ctx, p_name, vec![Trait::new(
        foo,
        true,
        false,
        TraitKind::Method { disp_id: 0, method: m },
    )]);
    let co = ctx.class_objects.len();
    ctx.class_objects.push(ClassObjectData { class: sup, superclass_object: None, vtable: None });
    let name = public_qname(&mut ctx, b"Sys");
    let sys = Class::new(name, None, m, m, &mut ctx);
    assert!(Class::validate_class(sys, Some(co), &ctx).is_ok());
}

/// Requesting a script's globals twice returns the same object and runs the
/// initializer exactly once.
#[test]
fn globals_initializes_exactly_once() {
    let mut ctx = Activation::new();
    let vt = VTable::empty(&mut ctx);
    let obj = ctx.objects.len();
    ctx.objects.push(ObjectData {
        instance_of: Some(ctx.global_class),
        vtable: Some(vt.0),
        slots: Vec::new(),
        namespace: None,
        bound_method: None,
        bound_receiver: None,
        function_method: None,
        function_scope: None,
    });
    let script = Script::empty_script(&mut ctx, obj, 0);
    assert_eq!(ctx.script_init_runs.len(), 0);
    let g1 = script.globals(&mut ctx).unwrap();
    let g2 = script.globals(&mut ctx).unwrap();
    assert_eq!(g1, obj);
    assert_eq!(g1, g2);
    assert_eq!(ctx.script_init_runs.len(), 1);
    assert_eq!(ctx.script_init_runs[0], script.0);
}

/// Loading a script stores it, loads its traits, and caches it.
#[test]
fn load_script_caches() {
    let mut ctx = Activation::new();
    let unit = TranslationUnit::from_abc(small_abc(), 0, None, &mut ctx);
    let s1 = unit.load_script(0, &mut ctx).unwrap();
    assert!(ctx.scripts[s1.0].traits_loaded);
    let s2 = unit.load_script(0, &mut ctx).unwrap();
    assert_eq!(s1.0, s2.0);
    assert!(matches!(
        unit.load_script(9, &mut ctx),
        Err(Error::Load(LoadError::ScriptIndexInvalid { index: 9 }))
    ));
}

/// End to end: an archive where class B extends class A; A declares a getter
/// and a slot at id 1 with default 10, B overrides the getter and adds an
/// auto-assigned constant. After linking B's table over A's, the getter's
/// dispatch id is A's, the slot is inherited unchanged, and the constant
/// lands on the next free slot id.
#[test]
fn two_class_archive_links_with_stable_ids() {
    let abc = AbcFile {
        constant_pool: AbcConstantPool {
            strings: vec![
                b"A".to_vec(),
                b"B".to_vec(),
                b"getX".to_vec(),
                b"y".to_vec(),
                b"z".to_vec(),
            ],
            namespaces: vec![AbcNamespace::Package { name: 0 }],
            ns_sets: Vec::new(),
            multinames: vec![
                AbcMultiname::QName { ns: 1, name: 1 },
                AbcMultiname::QName { ns: 1, name: 2 },
                AbcMultiname::QName { ns: 1, name: 3 },
                AbcMultiname::QName { ns: 1, name: 4 },
                AbcMultiname::QName { ns: 1, name: 5 },
            ],
        },
        methods: vec![
            AbcMethod { name: 0, param_types: Vec::new(), is_variadic: false },
            AbcMethod { name: 0, param_types: Vec::new(), is_variadic: false },
            AbcMethod { name: 0, param_types: Vec::new(), is_variadic: false },
        ],
        classes: vec![
            AbcClass { init_method: 0, traits: Vec::new() },
            AbcClass { init_method: 0, traits: Vec::new() },
        ],
        instances: vec![
            AbcInstance {
                name: 1,
                super_name: 0,
                protected_namespace: None,
                interfaces: Vec::new(),
                init_method: 1,
                is_sealed: false,
                is_final: false,
                is_interface: false,
                traits: vec![
                    AbcTrait {
                        name: 3,
                        kind: AbcTraitKind::Getter { disp_id: 0, method: 1 },
                        is_final: false,
                        is_override: false,
                    },
                    AbcTrait {
                        name: 4,
                        kind: AbcTraitKind::Slot {
                            slot_id: 1,
                            declared_type: 0,
                            value: Some(avm_core::abc::AbcDefaultValue::Int(10)),
                        },
                        is_final: false,
                        is_override: false,
                    },
                ],
            },
            AbcInstance {
                name: 2,
                super_name: 1,
                protected_namespace: None,
                interfaces: Vec::new(),
                init_method: 2,
                is_sealed: false,
                is_final: false,
                is_interface: false,
                traits: vec![
                    AbcTrait {
                        name: 3,
                        kind: AbcTraitKind::Getter { disp_id: 0, method: 2 },
                        is_final: false,
                        is_override: true,
                    },
                    AbcTrait {
                        name: 5,
                        kind: AbcTraitKind::Const {
                            slot_id: 0,
                            declared_type: 0,
                            value: Some(avm_core::abc::AbcDefaultValue::Int(3)),
                        },
                        is_final: false,
                        is_override: false,
                    },
                ],
            },
        ],
        scripts: Vec::new(),
        method_bodies: Vec::new(),
    };
    let mut ctx = Activation::new();
    let unit = TranslationUnit::from_abc(abc, 0, None, &mut ctx);
    let a = unit.load_class(0, &mut ctx).unwrap();
    let b = unit.load_class(1, &mut ctx).unwrap();
    assert!(ctx.classes[a].super_class.is_none());
    assert!(ctx.classes[b].super_class.is_some());

    let scope = ScopeChain::new(0);
    let vt_a = VTable::empty(&mut ctx);
    let a_traits = ctx.classes[a].instance_traits.clone();
    vt_a.init_vtable(0, &a_traits, scope, None, &mut ctx).unwrap();
    let vt_b = VTable::empty(&mut ctx);
    let b_traits = ctx.classes[b].instance_traits.clone();
    vt_b.init_vtable(0, &b_traits, scope, Some(vt_a), &mut ctx).unwrap();

    let get_x = ctx.classes[a].instance_traits[0].name();
    let y = ctx.classes[a].instance_traits[1].name();
    let z = ctx.classes[b].instance_traits[1].name();
    let a_getx = vt_a.get_trait(&Multiname::from_qname(get_x), &ctx).unwrap();
    let b_getx = vt_b.get_trait(&Multiname::from_qname(get_x), &ctx).unwrap();
    assert_eq!(a_getx, b_getx);
    assert_eq!(b_getx, Property::Virtual { get: Some(0), set: None });
    let b_body = match ctx.classes[b].instance_traits[0].kind() {
        TraitKind::Getter { method, .. } => *method,
        _ => panic!("expected a getter trait"),
    };
    assert_eq!(vt_b.get_method(0, &ctx), Some(b_body));
    assert_eq!(vt_b.get_trait(&Multiname::from_qname(y), &ctx), Some(Property::Slot { slot_id: 1 }));
    assert_eq!(vt_b.default_slots(&ctx)[1], Some(Value::Int(10)));
    assert_eq!(
        vt_b.get_trait(&Multiname::from_qname(z), &ctx),
        Some(Property::ConstSlot { slot_id: 2 })
    );
    assert_eq!(vt_b.default_slots(&ctx)[2], Some(Value::Int(3)));

    // B validates against A: the getter is marked override and matches.
    let co_a = ctx.class_objects.len();
    ctx.class_objects.push(ClassObjectData { class: a, superclass_object: None, vtable: None });
    assert!(Class::validate_class(b, Some(co_a), &ctx).is_ok());
}

#[test]
fn shared_object_stubs_answer_undefined() {
    let ctx = Activation::new();
    let args: Vec<Value> = Vec::new();
    assert!(matches!(
        avm_core::shared_object::close(&ctx, None, &args),
        Ok(Value::Undefined)
    ));
    assert!(matches!(
        avm_core::shared_object::clear(&ctx, None, &args),
        Ok(Value::Undefined)
    ));
}

#[test]
fn interner_gives_equal_symbols_for_equal_strings() {
    let mut ctx = Activation::new();
    let a = ctx.strings.intern(b"hello".to_vec());
    let b = ctx.strings.intern(b"world".to_vec());
    let a2 = ctx.strings.intern(b"hello".to_vec());
    assert_eq!(a, a2);
    assert_ne!(a, b);
    assert_eq!(ctx.strings.get(0).len(), 0);
}

#[test]
fn from_abc_index_resolves_shape_without_loading_traits() {
    let mut ctx = Activation::new();
    let unit = TranslationUnit::from_abc(small_abc(), 0, None, &mut ctx);
    let c = Class::from_abc_index(unit, 0, &mut ctx).unwrap();
    assert!(!ctx.classes[c].traits_loaded);
    assert!(ctx.classes[c].is_sealed());
    assert!(!ctx.classes[c].is_final());
    assert_eq!(ctx.classes[c].instance_traits.len(), 0);
    assert!(matches!(
        Class::from_abc_index(unit, 5, &mut ctx),
        Err(Error::Load(LoadError::ClassIndexInvalid { index: 5 }))
    ));
}

/// The checked globals entry refuses an out-of-range script untouched and
/// initializes a well-formed one like `globals` itself.
#[test]
fn globals_checked_guards_and_initializes() {
    let mut ctx = Activation::new();
    assert!(!Script(7).globals_ready_check(&ctx));
    assert!(Script(7).globals_checked(&mut ctx).is_none());
    let vt = VTable::empty(&mut ctx);
    let obj = ctx.objects.len();
    ctx.objects.push(ObjectData {
        instance_of: Some(ctx.global_class),
        vtable: Some(vt.0),
        slots: Vec::new(),
        namespace: None,
        bound_method: None,
        bound_receiver: None,
        function_method: None,
        function_scope: None,
    });
    let script = Script::empty_script(&mut ctx, obj, 0);
    assert!(script.globals_ready_check(&ctx));
    let g = script.globals_checked(&mut ctx).unwrap().unwrap();
    assert_eq!(g, obj);
    assert_eq!(ctx.script_init_runs.len(), 1);
}

/// Coercing a stored value resolves a declared type name to its exported
/// class on first use and memoizes it; an out-of-range slot is an error.
#[test]
fn coerce_trait_value_memoizes_resolved_type() {
    let mut ctx = Activation::new();
    let vt = VTable::empty(&mut ctx);
    assert_eq!(
        vt.coerce_trait_value(3, Value::Int(1), &mut ctx),
        Err(Error::Load(LoadError::SlotIndexInvalid { index: 3 }))
    );
    let name = public_qname(&mut ctx, b"Point");
    let class = plain_class(&mut ctx, name, Vec::new());
    let dom = ctx.global_domain;
    ctx.domains[dom].export_class(name, class);
    let mn = Multiname::from_qname(name);
    ctx.vtables[vt.0].slot_classes.push(avm_core::property::PropertyClass::Name {
        declared_type: mn,
        unit: None,
    });
    ctx.vtables[vt.0].slot_classes.push(avm_core::property::PropertyClass::Name {
        declared_type: Multiname::any(),
        unit: None,
    });
    assert_eq!(vt.coerce_trait_value(0, Value::Int(9), &mut ctx), Ok(Value::Int(9)));
    assert_eq!(
        ctx.vtables[vt.0].slot_classes[0],
        avm_core::property::PropertyClass::Class(class)
    );
    assert_eq!(vt.coerce_trait_value(1, Value::Bool(true), &mut ctx), Ok(Value::Bool(true)));
    assert_eq!(ctx.vtables[vt.0].slot_classes[1], avm_core::property::PropertyClass::Any);
}
