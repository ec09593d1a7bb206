//! Linked virtual dispatch tables.
//!
//! A `VTable` is the flat dispatch table for one class's instances: a
//! tagged-property map over a dense, append-only method table indexed by
//! dispatch id, per-slot declared types, and default slot values. Inheritance
//! is a value-copy of the superclass table at link time, not delegation.
//! Dispatch ids are dense indices `0..method_table.len()`; slot ids may have
//! gaps, and `default_slots.len()` bounds the valid range.

use crate::context::{copy_vec, Activation, ScopeChain};
use crate::property::{pm_get, pm_get_mn, PropEntry, Property, PropertyClass, PropertyMap};
use crate::value::{Multiname, Namespace, QName, Value};
use vstd::prelude::*;

verus! {

/// One method table entry: the method body together with the class that
/// defined it and the scope it captured.
#[derive(Clone, Copy, PartialEq, Eq, Structural, Debug)]
pub struct ClassBoundMethod {
    /// Class-object arena index of the defining class.
    pub class: usize,
    /// The captured lexical scope.
    pub scope: ScopeChain,
    /// Method arena index of the body.
    pub method: usize,
}

/// The state of one dispatch table.
#[derive(Clone, Debug)]
pub struct VTableData {
    /// The class this table dispatches for; present once initialized.
    pub defining_class: Option<usize>,
    /// The scope captured for native trait evaluation; present once
    /// initialized.
    pub scope: Option<ScopeChain>,
    /// The defining class's protected namespace.
    pub protected_namespace: Option<Namespace>,
    /// Resolved traits by qualified name.
    pub resolved_traits: PropertyMap,
    /// The declared type of each slot, indexed by slot id.
    pub slot_classes: Vec<PropertyClass>,
    /// Method bodies indexed by dispatch id.
    pub method_table: Vec<ClassBoundMethod>,
    /// Default slot values, indexed by slot id.
    pub default_slots: Vec<Option<Value>>,
}

/// The public-namespace entries of a property map, as (name symbol, property)
/// pairs in insertion order.
pub open spec fn public_props_of(s: Seq<PropEntry>) -> Seq<(usize, Property)>
    decreases s.len(),
{
    if s.len() == 0 {
        Seq::empty()
    } else {
        let rest = public_props_of(s.drop_last());
        if s.last().ns.spec_is_public() {
            rest.push((s.last().name, s.last().prop))
        } else {
            rest
        }
    }
}

/// The linking state of a dispatch table while traits are applied: the
/// resolved-trait map, the method table, the default slot values, the slot
/// types, and how many objects the context holds (function trait defaults
/// allocate function objects).
pub struct VtState {
    pub rt: Seq<PropEntry>,
    pub methods: Seq<ClassBoundMethod>,
    pub defaults: Seq<Option<Value>>,
    pub slots: Seq<PropertyClass>,
    pub nobj: nat,
}

/// Grow a sequence to length `n` with copies of `fill`; a longer sequence is
/// left alone.
pub open spec fn grow_to<T>(s: Seq<T>, n: int, fill: T) -> Seq<T> {
    if s.len() >= n {
        s
    } else {
        s + Seq::new((n - s.len()) as nat, |i: int| fill)
    }
}

/// The default value a slot-like trait stores, and the object count after
/// computing it: a function trait allocates one fresh function object.
pub open spec fn trait_default_spec(t: crate::traits::Trait, nobj: nat) -> (Value, nat) {
    match t.spec_kind() {
        crate::traits::TraitKind::Slot { default_value, .. } => (default_value, nobj),
        crate::traits::TraitKind::Const { default_value, .. } => (default_value, nobj),
        crate::traits::TraitKind::Function { .. } => (Value::Object(nobj as usize), nobj + 1),
        _ => (Value::Undefined, nobj),
    }
}

/// The enforced type of a slot-like trait: the declared type name for slots
/// and constants, the Function class for function traits, the Class metaclass
/// for nested classes.
pub open spec fn trait_slot_class_spec(
    t: crate::traits::Trait,
    function_class: usize,
    class_class: usize,
) -> PropertyClass {
    match t.spec_kind() {
        crate::traits::TraitKind::Slot { declared_type, unit, .. } => PropertyClass::Name {
            declared_type,
            unit,
        },
        crate::traits::TraitKind::Const { declared_type, unit, .. } => PropertyClass::Name {
            declared_type,
            unit,
        },
        crate::traits::TraitKind::Function { .. } => PropertyClass::Class(function_class),
        _ => PropertyClass::Class(class_class),
    }
}

/// The declared slot id of a slot-like trait.
pub open spec fn trait_slot_id(t: crate::traits::Trait) -> u32 {
    match t.spec_kind() {
        crate::traits::TraitKind::Slot { slot_id, .. } => slot_id,
        crate::traits::TraitKind::Const { slot_id, .. } => slot_id,
        crate::traits::TraitKind::Function { slot_id, .. } => slot_id,
        crate::traits::TraitKind::Class { slot_id, .. } => slot_id,
        _ => 0,
    }
}

/// Whether the resolved slot-like property is a constant slot.
pub open spec fn trait_is_const_slot(t: crate::traits::Trait) -> bool {
    t.spec_kind() is Const || t.spec_kind() is Class
}

/// The slot id a slot-like trait is assigned against the current default-slot
/// table: a declared id of 0 asks for the next free index; a declared id that
/// collides with an already-filled slot of this table degrades to the next
/// free index rather than overwriting; any other declared id is taken as it
/// stands.
pub open spec fn assign_slot_id(defaults: Seq<Option<Value>>, slot_id: u32) -> u32 {
    if slot_id == 0 {
        defaults.len() as u32
    } else if slot_id < defaults.len() && defaults[slot_id as int] is Some {
        defaults.len() as u32
    } else {
        slot_id
    }
}

/// Apply one trait to the linking state: methods overwrite an inherited entry
/// of the same name at its dispatch id, or append a fresh one; getters and
/// setters fill or overwrite their half of a virtual pair; slot-like traits
/// are placed at their assigned slot id, growing the tables as needed.
pub open spec fn vt_apply_trait(
    st: VtState,
    t: crate::traits::Trait,
    defining_class: usize,
    scope: ScopeChain,
    function_class: usize,
    class_class: usize,
) -> VtState {
    let name = t.spec_name();
    match t.spec_kind() {
        crate::traits::TraitKind::Method { method, .. } => {
            let entry = ClassBoundMethod { class: defining_class, scope, method };
            match pm_get(st.rt, name.name, name.ns) {
                Some(Property::Method { disp_id }) => VtState {
                    methods: st.methods.update(disp_id as int, entry),
                    ..st
                },
                _ => VtState {
                    methods: st.methods.push(entry),
                    rt: crate::property::pm_insert(
                        st.rt,
                        name.name,
                        name.ns,
                        Property::Method { disp_id: st.methods.len() as u32 },
                    ),
                    ..st
                },
            }
        },
        crate::traits::TraitKind::Getter { method, .. } => {
            let entry = ClassBoundMethod { class: defining_class, scope, method };
            match pm_get(st.rt, name.name, name.ns) {
                Some(Property::Virtual { get: Some(disp_id), set }) => VtState {
                    methods: st.methods.update(disp_id as int, entry),
                    ..st
                },
                Some(Property::Virtual { get: None, set }) => VtState {
                    methods: st.methods.push(entry),
                    rt: crate::property::pm_insert(
                        st.rt,
                        name.name,
                        name.ns,
                        Property::Virtual { get: Some(st.methods.len() as u32), set },
                    ),
                    ..st
                },
                _ => VtState {
                    methods: st.methods.push(entry),
                    rt: crate::property::pm_insert(
                        st.rt,
                        name.name,
                        name.ns,
                        Property::Virtual { get: Some(st.methods.len() as u32), set: None },
                    ),
                    ..st
                },
            }
        },
        crate::traits::TraitKind::Setter { method, .. } => {
            let entry = ClassBoundMethod { class: defining_class, scope, method };
            match pm_get(st.rt, name.name, name.ns) {
                Some(Property::Virtual { set: Some(disp_id), get }) => VtState {
                    methods: st.methods.update(disp_id as int, entry),
                    ..st
                },
                Some(Property::Virtual { set: None, get }) => VtState {
                    methods: st.methods.push(entry),
                    rt: crate::property::pm_insert(
                        st.rt,
                        name.name,
                        name.ns,
                        Property::Virtual { get, set: Some(st.methods.len() as u32) },
                    ),
                    ..st
                },
                _ => VtState {
                    methods: st.methods.push(entry),
                    rt: crate::property::pm_insert(
                        st.rt,
                        name.name,
                        name.ns,
                        Property::Virtual { get: None, set: Some(st.methods.len() as u32) },
                    ),
                    ..st
                },
            }
        },
        _ => {
            let dn = trait_default_spec(t, st.nobj);
            let value = dn.0;
            let nobj = dn.1;
            let slot_id = trait_slot_id(t);
            let new_slot_id = assign_slot_id(st.defaults, slot_id);
            let defaults = grow_to(st.defaults, new_slot_id as int + 1, None).update(
                new_slot_id as int,
                Some(value),
            );
            let slots = grow_to(st.slots, new_slot_id as int + 1, PropertyClass::Any).update(
                new_slot_id as int,
                trait_slot_class_spec(t, function_class, class_class),
            );
            let prop = if trait_is_const_slot(t) {
                Property::ConstSlot { slot_id: new_slot_id }
            } else {
                Property::Slot { slot_id: new_slot_id }
            };
            VtState {
                rt: crate::property::pm_insert(st.rt, name.name, name.ns, prop),
                methods: st.methods,
                defaults,
                slots,
                nobj,
            }
        },
    }
}

/// Apply the first `n` of a class's traits to the linking state, in order.
pub open spec fn vt_apply_traits(
    st: VtState,
    ts: Seq<crate::traits::Trait>,
    n: int,
    defining_class: usize,
    scope: ScopeChain,
    function_class: usize,
    class_class: usize,
) -> VtState
    decreases n,
{
    if n <= 0 {
        st
    } else {
        vt_apply_trait(
            vt_apply_traits(st, ts, n - 1, defining_class, scope, function_class, class_class),
            ts[n - 1],
            defining_class,
            scope,
            function_class,
            class_class,
        )
    }
}

/// The inherited protected-namespace aliases: for every entry of the
/// superclass map in the superclass's protected namespace, the same property
/// under this class's own protected namespace, inserted in map order.
pub open spec fn vt_remap_protected(
    rt: Seq<PropEntry>,
    super_rt: Seq<PropEntry>,
    n: int,
    super_pns: Namespace,
    my_pns: Namespace,
) -> Seq<PropEntry>
    decreases n,
{
    if n <= 0 {
        rt
    } else {
        let prev = vt_remap_protected(rt, super_rt, n - 1, super_pns, my_pns);
        let e = super_rt[n - 1];
        if e.ns == super_pns {
            crate::property::pm_insert(prev, e.name, my_pns, e.prop)
        } else {
            prev
        }
    }
}

/// The base linking state before a class's own traits are applied: the
/// superclass table copied verbatim with its protected traits re-inserted
/// under this class's protected namespace, or the table's own current state
/// when there is no superclass.
pub open spec fn init_base_state(
    a: Activation,
    vt: VTable,
    superclass_vtable: Option<VTable>,
    my_pns: Option<Namespace>,
) -> VtState {
    match superclass_vtable {
        Some(s) => {
            let srt = s.data(a).resolved_traits@;
            let rt = match (my_pns, s.data(a).protected_namespace) {
                (Some(my), Some(sp)) => vt_remap_protected(srt, srt, srt.len() as int, sp, my),
                _ => srt,
            };
            VtState {
                rt,
                methods: s.data(a).method_table@,
                defaults: s.data(a).default_slots@,
                slots: s.data(a).slot_classes@,
                nobj: a.objects@.len(),
            }
        },
        None => VtState {
            rt: vt.data(a).resolved_traits@,
            methods: vt.data(a).method_table@,
            defaults: vt.data(a).default_slots@,
            slots: vt.data(a).slot_classes@,
            nobj: a.objects@.len(),
        },
    }
}

/// Every dispatch id a property map mentions is inside the method table.
pub open spec fn vt_disp_wf(rt: Seq<PropEntry>, nmethods: int) -> bool {
    forall|i: int|
        0 <= i < rt.len() ==> match (#[trigger] rt[i]).prop {
            Property::Method { disp_id } => disp_id < nmethods,
            Property::Virtual { get, set } => (match get {
                Some(d) => d < nmethods,
                None => true,
            }) && (match set {
                Some(d) => d < nmethods,
                None => true,
            }),
            _ => true,
        }
}

/// The dispatch ids a single property mentions are inside the method table.
pub open spec fn prop_disp_ok(prop: Property, nmethods: int) -> bool {
    match prop {
        Property::Method { disp_id } => disp_id < nmethods,
        Property::Virtual { get, set } => (match get {
            Some(d) => d < nmethods,
            None => true,
        }) && (match set {
            Some(d) => d < nmethods,
            None => true,
        }),
        _ => true,
    }
}

/// Inserting an in-bounds property keeps every dispatch id in bounds.
pub proof fn lemma_pm_insert_disp_wf(
    s: Seq<PropEntry>,
    name: usize,
    ns: Namespace,
    prop: Property,
    nmethods: int,
)
    requires
        vt_disp_wf(s, nmethods),
        prop_disp_ok(prop, nmethods),
    ensures
        vt_disp_wf(crate::property::pm_insert(s, name, ns, prop), nmethods),
{
    let t = crate::property::pm_insert(s, name, ns, prop);
    crate::property::lemma_pm_find_props(s, name, ns, 0);
    let fi = crate::property::pm_find(s, name, ns, 0);
    assert forall|i: int| 0 <= i < t.len() implies prop_disp_ok((#[trigger] t[i]).prop, nmethods) by {
        if fi < s.len() {
            if i != fi {
                assert(t[i] == s[i]);
                assert(prop_disp_ok(s[i].prop, nmethods));
            } else {
                assert(t[i].prop == prop);
            }
        } else {
            if i < s.len() {
                assert(t[i] == s[i]);
                assert(prop_disp_ok(s[i].prop, nmethods));
            } else {
                assert(t[i].prop == prop);
            }
        }
    }
}

/// A map whose ids fit a table also fits any longer table.
pub proof fn lemma_disp_wf_mono(s: Seq<PropEntry>, n1: int, n2: int)
    requires
        vt_disp_wf(s, n1),
        n1 <= n2,
    ensures
        vt_disp_wf(s, n2),
{
}

proof fn lemma_remap_wf(
    rt: Seq<PropEntry>,
    srt: Seq<PropEntry>,
    n: int,
    sp: Namespace,
    my: Namespace,
    nmethods: int,
)
    requires
        vt_disp_wf(rt, nmethods),
        vt_disp_wf(srt, nmethods),
        0 <= n <= srt.len(),
    ensures
        vt_disp_wf(vt_remap_protected(rt, srt, n, sp, my), nmethods),
    decreases n,
{
    if n > 0 {
        lemma_remap_wf(rt, srt, n - 1, sp, my, nmethods);
        let prev = vt_remap_protected(rt, srt, n - 1, sp, my);
        let e = srt[n - 1];
        if e.ns == sp {
            lemma_pm_insert_disp_wf(prev, e.name, my, e.prop, nmethods);
        }
    }
}

/// The protected-namespace remap keeps every dispatch id in bounds.
pub proof fn lemma_remap_preserves_disp_wf(
    srt: Seq<PropEntry>,
    nmethods: int,
    my: Option<Namespace>,
    sp: Option<Namespace>,
)
    requires
        vt_disp_wf(srt, nmethods),
    ensures
        match (my, sp) {
            (Some(m), Some(s)) => vt_disp_wf(
                vt_remap_protected(srt, srt, srt.len() as int, s, m),
                nmethods,
            ),
            _ => true,
        },
{
    match (my, sp) {
        (Some(m), Some(s)) => {
            lemma_remap_wf(srt, srt, srt.len() as int, s, m, nmethods);
        },
        _ => {},
    }
}

/// Applying one trait keeps every dispatch id in bounds, grows the method
/// table by at most one entry, and grows the default-slot table by at most
/// one entry beyond the declared slot id.
pub proof fn lemma_apply_trait_disp_wf(
    st: VtState,
    t: crate::traits::Trait,
    defining_class: usize,
    scope: ScopeChain,
    function_class: usize,
    class_class: usize,
)
    requires
        vt_disp_wf(st.rt, st.methods.len() as int),
    ensures
        ({
            let sn = vt_apply_trait(st, t, defining_class, scope, function_class, class_class);
            &&& vt_disp_wf(sn.rt, sn.methods.len() as int)
            &&& st.methods.len() <= sn.methods.len() <= st.methods.len() + 1
            &&& (sn.defaults.len() <= st.defaults.len() + 1 || sn.defaults.len()
                == trait_slot_id(t) + 1)
        }),
{
    let sn = vt_apply_trait(st, t, defining_class, scope, function_class, class_class);
    let name = t.spec_name();
    match t.spec_kind() {
        crate::traits::TraitKind::Method { method, .. } => {
            match crate::property::pm_get(st.rt, name.name, name.ns) {
                Some(Property::Method { disp_id }) => {
                    crate::property::lemma_pm_find_props(st.rt, name.name, name.ns, 0);
                    assert(disp_id < st.methods.len());
                    assert(vt_disp_wf(sn.rt, sn.methods.len() as int));
                },
                _ => {
                    lemma_disp_wf_mono(st.rt, st.methods.len() as int, sn.methods.len() as int);
                    lemma_pm_insert_disp_wf(
                        st.rt,
                        name.name,
                        name.ns,
                        Property::Method { disp_id: st.methods.len() as u32 },
                        sn.methods.len() as int,
                    );
                },
            }
        },
        crate::traits::TraitKind::Getter { method, .. } => {
            match crate::property::pm_get(st.rt, name.name, name.ns) {
                Some(Property::Virtual { get: Some(disp_id), set }) => {
                    crate::property::lemma_pm_find_props(st.rt, name.name, name.ns, 0);
                    assert(disp_id < st.methods.len());
                },
                Some(Property::Virtual { get: None, set }) => {
                    crate::property::lemma_pm_find_props(st.rt, name.name, name.ns, 0);
                    lemma_disp_wf_mono(st.rt, st.methods.len() as int, sn.methods.len() as int);
                    lemma_pm_insert_disp_wf(
                        st.rt,
                        name.name,
                        name.ns,
                        Property::Virtual { get: Some(st.methods.len() as u32), set },
                        sn.methods.len() as int,
                    );
                },
                _ => {
                    lemma_disp_wf_mono(st.rt, st.methods.len() as int, sn.methods.len() as int);
                    lemma_pm_insert_disp_wf(
                        st.rt,
                        name.name,
                        name.ns,
                        Property::Virtual { get: Some(st.methods.len() as u32), set: None },
                        sn.methods.len() as int,
                    );
                },
            }
        },
        crate::traits::TraitKind::Setter { method, .. } => {
            match crate::property::pm_get(st.rt, name.name, name.ns) {
                Some(Property::Virtual { set: Some(disp_id), get }) => {
                    crate::property::lemma_pm_find_props(st.rt, name.name, name.ns, 0);
                    assert(disp_id < st.methods.len());
                },
                Some(Property::Virtual { set: None, get }) => {
                    crate::property::lemma_pm_find_props(st.rt, name.name, name.ns, 0);
                    lemma_disp_wf_mono(st.rt, st.methods.len() as int, sn.methods.len() as int);
                    lemma_pm_insert_disp_wf(
                        st.rt,
                        name.name,
                        name.ns,
                        Property::Virtual { get, set: Some(st.methods.len() as u32) },
                        sn.methods.len() as int,
                    );
                },
                _ => {
                    lemma_disp_wf_mono(st.rt, st.methods.len() as int, sn.methods.len() as int);
                    lemma_pm_insert_disp_wf(
                        st.rt,
                        name.name,
                        name.ns,
                        Property::Virtual { get: None, set: Some(st.methods.len() as u32) },
                        sn.methods.len() as int,
                    );
                },
            }
        },
        _ => {
            let new_slot_id = assign_slot_id(st.defaults, trait_slot_id(t));
            let prop = if trait_is_const_slot(t) {
                Property::ConstSlot { slot_id: new_slot_id }
            } else {
                Property::Slot { slot_id: new_slot_id }
            };
            lemma_pm_insert_disp_wf(st.rt, name.name, name.ns, prop, st.methods.len() as int);
        },
    }
}

/// Applying traits never frees objects: the object count only grows.
pub proof fn lemma_apply_traits_nobj_mono(
    st: VtState,
    ts: Seq<crate::traits::Trait>,
    n: int,
    defining_class: usize,
    scope: ScopeChain,
    function_class: usize,
    class_class: usize,
)
    requires
        0 <= n <= ts.len(),
    ensures
        vt_apply_traits(st, ts, n, defining_class, scope, function_class, class_class).nobj
            >= st.nobj,
    decreases n,
{
    if n > 0 {
        lemma_apply_traits_nobj_mono(st, ts, n - 1, defining_class, scope, function_class, class_class);
    }
}

/// Whether a resolved property mentions the given dispatch id, directly or as
/// either half of a virtual pair.
pub open spec fn prop_mentions_disp(p: Option<Property>, d: u32) -> bool {
    match p {
        Some(Property::Method { disp_id }) => disp_id == d,
        Some(Property::Virtual { get, set }) => get == Some(d) || set == Some(d),
        _ => false,
    }
}

/// A trait whose declared slot id is 0 is assigned the number of previously
/// assigned slots: linking appends exactly one default slot, and the trait's
/// resolved property carries that fresh index.
pub proof fn lemma_slot_auto_assign(
    st: VtState,
    t: crate::traits::Trait,
    defining_class: usize,
    scope: ScopeChain,
    function_class: usize,
    class_class: usize,
)
    requires
        t.spec_kind() is Slot || t.spec_kind() is Const || t.spec_kind() is Function
            || t.spec_kind() is Class,
        trait_slot_id(t) == 0,
        st.defaults.len() < u32::MAX,
    ensures
        ({
            let sn = vt_apply_trait(st, t, defining_class, scope, function_class, class_class);
            let assigned = st.defaults.len() as u32;
            let prop = if trait_is_const_slot(t) {
                Property::ConstSlot { slot_id: assigned }
            } else {
                Property::Slot { slot_id: assigned }
            };
            &&& crate::property::pm_get(sn.rt, t.spec_name().name, t.spec_name().ns) == Some(prop)
            &&& sn.defaults.len() == st.defaults.len() + 1
            &&& sn.defaults.last() == Some(trait_default_spec(t, st.nobj).0)
        }),
{
    let name = t.spec_name();
    let assigned = assign_slot_id(st.defaults, 0);
    let prop = if trait_is_const_slot(t) {
        Property::ConstSlot { slot_id: assigned }
    } else {
        Property::Slot { slot_id: assigned }
    };
    crate::property::lemma_pm_insert_get(st.rt, name.name, name.ns, prop);
    let sn = vt_apply_trait(st, t, defining_class, scope, function_class, class_class);
    assert(sn.defaults =~= st.defaults.push(Some(trait_default_spec(t, st.nobj).0)));
}

/// Two traits of one loading pass that declare the same nonzero slot id do
/// not collide: the second is auto-reassigned to a fresh id, and the slot the
/// first filled keeps its value.
pub proof fn lemma_slot_conflict_reassigned(
    st: VtState,
    t: crate::traits::Trait,
    defining_class: usize,
    scope: ScopeChain,
    function_class: usize,
    class_class: usize,
)
    requires
        t.spec_kind() is Slot || t.spec_kind() is Const || t.spec_kind() is Function
            || t.spec_kind() is Class,
        trait_slot_id(t) != 0,
        trait_slot_id(t) < st.defaults.len(),
        st.defaults[trait_slot_id(t) as int] is Some,
        st.defaults.len() < u32::MAX,
    ensures
        ({
            let sn = vt_apply_trait(st, t, defining_class, scope, function_class, class_class);
            let assigned = st.defaults.len() as u32;
            let prop = if trait_is_const_slot(t) {
                Property::ConstSlot { slot_id: assigned }
            } else {
                Property::Slot { slot_id: assigned }
            };
            &&& assigned != trait_slot_id(t)
            &&& crate::property::pm_get(sn.rt, t.spec_name().name, t.spec_name().ns) == Some(prop)
            &&& sn.defaults[trait_slot_id(t) as int] == st.defaults[trait_slot_id(t) as int]
            &&& sn.defaults.len() == st.defaults.len() + 1
        }),
{
    let name = t.spec_name();
    let assigned = assign_slot_id(st.defaults, trait_slot_id(t));
    let prop = if trait_is_const_slot(t) {
        Property::ConstSlot { slot_id: assigned }
    } else {
        Property::Slot { slot_id: assigned }
    };
    crate::property::lemma_pm_insert_get(st.rt, name.name, name.ns, prop);
    let sn = vt_apply_trait(st, t, defining_class, scope, function_class, class_class);
    assert(sn.defaults =~= st.defaults.push(Some(trait_default_spec(t, st.nobj).0)));
}

/// A subclass method trait whose name is inherited as a method keeps the
/// superclass's dispatch id: the resolved property is untouched and the
/// method table entry at that id now holds the subclass's body; every other
/// dispatch id keeps its entry.
pub proof fn lemma_override_keeps_dispatch_id(
    st: VtState,
    t: crate::traits::Trait,
    d: u32,
    defining_class: usize,
    scope: ScopeChain,
    function_class: usize,
    class_class: usize,
)
    requires
        t.spec_kind() is Method,
        crate::property::pm_get(st.rt, t.spec_name().name, t.spec_name().ns) == Some(
            Property::Method { disp_id: d },
        ),
        d < st.methods.len(),
    ensures
        ({
            let sn = vt_apply_trait(st, t, defining_class, scope, function_class, class_class);
            &&& sn.rt == st.rt
            &&& crate::property::pm_get(sn.rt, t.spec_name().name, t.spec_name().ns) == Some(
                Property::Method { disp_id: d },
            )
            &&& sn.methods[d as int] == (ClassBoundMethod {
                class: defining_class,
                scope,
                method: t.spec_kind()->Method_method,
            })
            &&& sn.methods.len() == st.methods.len()
            &&& (forall|e: int| 0 <= e < st.methods.len() && e != d ==> sn.methods[e] == st.methods[e])
        }),
{
}

/// Dispatch ids assigned in a superclass's table survive the subclass's own
/// traits when none of them redeclares the method's name and no other name
/// aliases its dispatch id: the name still resolves to the same id, and the
/// method table entry at that id is unchanged.
pub proof fn lemma_traits_preserve_dispatch(
    st: VtState,
    ts: Seq<crate::traits::Trait>,
    m: int,
    n: QName,
    d: u32,
    defining_class: usize,
    scope: ScopeChain,
    function_class: usize,
    class_class: usize,
)
    requires
        0 <= m <= ts.len(),
        st.methods.len() + ts.len() <= u32::MAX,
        vt_disp_wf(st.rt, st.methods.len() as int),
        crate::property::pm_get(st.rt, n.name, n.ns) == Some(Property::Method { disp_id: d }),
        d < st.methods.len(),
        forall|nm: usize, nsx: Namespace|
            !(nm == n.name && nsx == n.ns) ==> !prop_mentions_disp(
                crate::property::pm_get(st.rt, nm, nsx),
                d,
            ),
        forall|k: int| 0 <= k < m ==> (#[trigger] ts[k]).spec_name() != n,
    ensures
        ({
            let sn = vt_apply_traits(
                st,
                ts,
                m,
                defining_class,
                scope,
                function_class,
                class_class,
            );
            &&& crate::property::pm_get(sn.rt, n.name, n.ns) == Some(
                Property::Method { disp_id: d },
            )
            &&& sn.methods[d as int] == st.methods[d as int]
            &&& st.methods.len() <= sn.methods.len() <= st.methods.len() + m
            &&& vt_disp_wf(sn.rt, sn.methods.len() as int)
            &&& (forall|nm: usize, nsx: Namespace|
                !(nm == n.name && nsx == n.ns) ==> !prop_mentions_disp(
                    crate::property::pm_get(sn.rt, nm, nsx),
                    d,
                ))
        }),
    decreases m,
{
    if m > 0 {
        lemma_traits_preserve_dispatch(
            st,
            ts,
            m - 1,
            n,
            d,
            defining_class,
            scope,
            function_class,
            class_class,
        );
        let sp = vt_apply_traits(st, ts, m - 1, defining_class, scope, function_class, class_class);
        let t = ts[m - 1];
        let name = t.spec_name();
        let sn = vt_apply_trait(sp, t, defining_class, scope, function_class, class_class);
        assert(name != n);
        assert(!(name.name == n.name && name.ns == n.ns));
        assert(!prop_mentions_disp(crate::property::pm_get(sp.rt, name.name, name.ns), d));
        assert(sp.methods.len() < u32::MAX);
        assert(sp.methods.len() as u32 != d);
        assert(st.methods.len() <= sp.methods.len());
        assert(d < sp.methods.len());
        assert(sp.methods[d as int] == st.methods[d as int]);
        lemma_apply_trait_disp_wf(sp, t, defining_class, scope, function_class, class_class);
        crate::property::lemma_pm_find_props(sp.rt, name.name, name.ns, 0);
        match t.spec_kind() {
            crate::traits::TraitKind::Method { method, .. } => {
                match crate::property::pm_get(sp.rt, name.name, name.ns) {
                    Some(Property::Method { disp_id }) => {
                        assert(disp_id != d);
                        assert(sn.rt == sp.rt);
                        assert(sn.methods[d as int] == sp.methods[d as int]);
                    },
                    _ => {
                        crate::property::lemma_pm_insert_other(
                            sp.rt,
                            name.name,
                            name.ns,
                            Property::Method { disp_id: sp.methods.len() as u32 },
                            n.name,
                            n.ns,
                        );
                        lemma_insert_keeps_no_mention(
                            sp.rt,
                            name.name,
                            name.ns,
                            Property::Method { disp_id: sp.methods.len() as u32 },
                            n,
                            d,
                        );
                    },
                }
            },
            crate::traits::TraitKind::Getter { method, .. } => {
                match crate::property::pm_get(sp.rt, name.name, name.ns) {
                    Some(Property::Virtual { get: Some(disp_id), set }) => {
                        assert(disp_id != d);
                        assert(sn.rt == sp.rt);
                        assert(sn.methods[d as int] == sp.methods[d as int]);
                    },
                    Some(Property::Virtual { get: None, set }) => {
                        crate::property::lemma_pm_insert_other(
                            sp.rt,
                            name.name,
                            name.ns,
                            Property::Virtual { get: Some(sp.methods.len() as u32), set },
                            n.name,
                            n.ns,
                        );
                        lemma_insert_keeps_no_mention(
                            sp.rt,
                            name.name,
                            name.ns,
                            Property::Virtual { get: Some(sp.methods.len() as u32), set },
                            n,
                            d,
                        );
                    },
                    _ => {
                        crate::property::lemma_pm_insert_other(
                            sp.rt,
                            name.name,
                            name.ns,
                            Property::Virtual { get: Some(sp.methods.len() as u32), set: None },
                            n.name,
                            n.ns,
                        );
                        lemma_insert_keeps_no_mention(
                            sp.rt,
                            name.name,
                            name.ns,
                            Property::Virtual { get: Some(sp.methods.len() as u32), set: None },
                            n,
                            d,
                        );
                    },
                }
            },
            crate::traits::TraitKind::Setter { method, .. } => {
                match crate::property::pm_get(sp.rt, name.name, name.ns) {
                    Some(Property::Virtual { set: Some(disp_id), get }) => {
                        assert(disp_id != d);
                        assert(sn.rt == sp.rt);
                        assert(sn.methods[d as int] == sp.methods[d as int]);
                    },
                    Some(Property::Virtual { set: None, get }) => {
                        crate::property::lemma_pm_insert_other(
                            sp.rt,
                            name.name,
                            name.ns,
                            Property::Virtual { get, set: Some(sp.methods.len() as u32) },
                            n.name,
                            n.ns,
                        );
                        lemma_insert_keeps_no_mention(
                            sp.rt,
                            name.name,
                            name.ns,
                            Property::Virtual { get, set: Some(sp.methods.len() as u32) },
                            n,
                            d,
                        );
                    },
                    _ => {
                        crate::property::lemma_pm_insert_other(
                            sp.rt,
                            name.name,
                            name.ns,
                            Property::Virtual { get: None, set: Some(sp.methods.len() as u32) },
                            n.name,
                            n.ns,
                        );
                        lemma_insert_keeps_no_mention(
                            sp.rt,
                            name.name,
                            name.ns,
                            Property::Virtual { get: None, set: Some(sp.methods.len() as u32) },
                            n,
                            d,
                        );
                    },
                }
            },
            _ => {
                let new_slot_id = assign_slot_id(sp.defaults, trait_slot_id(t));
                let prop = if trait_is_const_slot(t) {
                    Property::ConstSlot { slot_id: new_slot_id }
                } else {
                    Property::Slot { slot_id: new_slot_id }
                };
                crate::property::lemma_pm_insert_other(
                    sp.rt,
                    name.name,
                    name.ns,
                    prop,
                    n.name,
                    n.ns,
                );
                lemma_insert_keeps_no_mention(sp.rt, name.name, name.ns, prop, n, d);
            },
        }
    }
}

/// Inserting a property that does not mention `d` keeps every name other
/// than `n` free of `d`, provided they were free of it before.
proof fn lemma_insert_keeps_no_mention(
    s: Seq<PropEntry>,
    name2: usize,
    ns2: Namespace,
    prop: Property,
    n: QName,
    d: u32,
)
    requires
        forall|nm: usize, nsx: Namespace|
            !(nm == n.name && nsx == n.ns) ==> !prop_mentions_disp(
                crate::property::pm_get(s, nm, nsx),
                d,
            ),
        !prop_mentions_disp(Some(prop), d),
        !(name2 == n.name && ns2 == n.ns),
    ensures
        forall|nm: usize, nsx: Namespace|
            !(nm == n.name && nsx == n.ns) ==> !prop_mentions_disp(
                crate::property::pm_get(crate::property::pm_insert(s, name2, ns2, prop), nm, nsx),
                d,
            ),
{
    let t = crate::property::pm_insert(s, name2, ns2, prop);
    assert forall|nm: usize, nsx: Namespace|
        !(nm == n.name && nsx == n.ns) implies !prop_mentions_disp(
        crate::property::pm_get(t, nm, nsx),
        d,
    ) by {
        if nm == name2 && nsx == ns2 {
            crate::property::lemma_pm_insert_get(s, name2, ns2, prop);
        } else {
            crate::property::lemma_pm_insert_other(s, name2, ns2, prop, nm, nsx);
        }
    }
}

/// A handle to one dispatch table in the context's arena.
#[derive(Clone, Copy, PartialEq, Eq, Structural, Debug)]
pub struct VTable(pub usize);

impl VTable {
    /// The table this handle points at.
    pub open spec fn data(self, ctx: Activation) -> VTableData {
        ctx.vtables@[self.0 as int]
    }

    pub open spec fn valid(self, ctx: Activation) -> bool {
        self.0 < ctx.vtables@.len()
    }

    /// Allocate an empty, uninitialized dispatch table.
    pub fn empty(activation: &mut Activation) -> (r: VTable)
        requires
            old(activation).wf(),
        ensures
            final(activation).wf(),
            r.0 == old(activation).vtables@.len(),
            final(activation).vtables@.len() == old(activation).vtables@.len() + 1,
            forall|i: int|
                0 <= i < old(activation).vtables@.len() ==> final(activation).vtables@[i] == old(activation).vtables@[i],
            ({
                let d = r.data(*final(activation));
                &&& d.defining_class is None
                &&& d.scope is None
                &&& d.protected_namespace is None
                &&& d.resolved_traits@.len() == 0
                &&& d.slot_classes@.len() == 0
                &&& d.method_table@.len() == 0
                &&& d.default_slots@.len() == 0
            }),
            *final(activation) == (Activation {
                vtables: final(activation).vtables,
                ..*old(activation)
            }),
    {
        let r = VTable(activation.vtables.len());
        activation.vtables.push(
            VTableData {
                defining_class: None,
                scope: None,
                protected_namespace: None,
                resolved_traits: PropertyMap::new(),
                slot_classes: Vec::new(),
                method_table: Vec::new(),
                default_slots: Vec::new(),
            },
        );
        r
    }

    /// The special table for an exception-catch scope: a single variable name
    /// mapped to slot 1, with two slots so that slot index 1 is in range.
    pub fn newcatch(activation: &mut Activation, vname: QName) -> (r: VTable)
        requires
            old(activation).wf(),
        ensures
            final(activation).wf(),
            r.0 == old(activation).vtables@.len(),
            final(activation).vtables@.len() == old(activation).vtables@.len() + 1,
            forall|i: int|
                0 <= i < old(activation).vtables@.len() ==> final(activation).vtables@[i] == old(activation).vtables@[i],
            ({
                let d = r.data(*final(activation));
                &&& d.defining_class is None
                &&& d.scope is None
                &&& d.protected_namespace is None
                &&& d.resolved_traits@ == seq![
                    PropEntry {
                        name: vname.name,
                        ns: vname.ns,
                        prop: Property::Slot { slot_id: 1u32 },
                    },
                ]
                &&& d.slot_classes@ == seq![PropertyClass::Any, PropertyClass::Any]
                &&& d.method_table@.len() == 0
                &&& d.default_slots@ == seq![None::<Value>, None::<Value>]
            }),
            *final(activation) == (Activation {
                vtables: final(activation).vtables,
                ..*old(activation)
            }),
    {
        let mut rt = PropertyMap::new();
        rt.insert(vname, Property::Slot { slot_id: 1 });
        let mut slot_classes: Vec<PropertyClass> = Vec::new();
        slot_classes.push(PropertyClass::Any);
        slot_classes.push(PropertyClass::Any);
        let mut default_slots: Vec<Option<Value>> = Vec::new();
        default_slots.push(None);
        default_slots.push(None);
        let r = VTable(activation.vtables.len());
        proof {
            assert(rt@ =~= seq![
                PropEntry { name: vname.name, ns: vname.ns, prop: Property::Slot { slot_id: 1u32 } },
            ]);
            assert(slot_classes@ =~= seq![PropertyClass::Any, PropertyClass::Any]);
            assert(default_slots@ =~= seq![None::<Value>, None::<Value>]);
        }
        activation.vtables.push(
            VTableData {
                defining_class: None,
                scope: None,
                protected_namespace: None,
                resolved_traits: rt,
                slot_classes,
                method_table: Vec::new(),
                default_slots,
            },
        );
        r
    }

    /// Allocate a fresh table holding a copy of this one's state.
    pub fn duplicate(self, activation: &mut Activation) -> (r: VTable)
        requires
            old(activation).wf(),
            self.valid(*old(activation)),
        ensures
            final(activation).wf(),
            r.0 == old(activation).vtables@.len(),
            final(activation).vtables@.len() == old(activation).vtables@.len() + 1,
            forall|i: int|
                0 <= i < old(activation).vtables@.len() ==> final(activation).vtables@[i] == old(activation).vtables@[i],
            ({
                let d = r.data(*final(activation));
                let s = self.data(*old(activation));
                &&& d.defining_class == s.defining_class
                &&& d.scope == s.scope
                &&& d.protected_namespace == s.protected_namespace
                &&& d.resolved_traits@ == s.resolved_traits@
                &&& d.slot_classes@ == s.slot_classes@
                &&& d.method_table@ == s.method_table@
                &&& d.default_slots@ == s.default_slots@
            }),
            *final(activation) == (Activation {
                vtables: final(activation).vtables,
                ..*old(activation)
            }),
    {
        let src = &activation.vtables[self.0];
        let copied = VTableData {
            defining_class: src.defining_class,
            scope: src.scope,
            protected_namespace: src.protected_namespace,
            resolved_traits: src.resolved_traits.duplicate(),
            slot_classes: copy_vec(&src.slot_classes),
            method_table: copy_vec(&src.method_table),
            default_slots: copy_vec(&src.default_slots),
        };
        let r = VTable(activation.vtables.len());
        activation.vtables.push(copied);
        r
    }

    /// Read access to the resolved-trait map.
    pub fn resolved_traits<'a>(self, activation: &'a Activation) -> (r: &'a PropertyMap)
        requires
            self.valid(*activation),
        ensures
            r@ == self.data(*activation).resolved_traits@,
    {
        &activation.vtables[self.0].resolved_traits
    }

    /// The default slot values.
    pub fn default_slots<'a>(self, activation: &'a Activation) -> (r: &'a Vec<Option<Value>>)
        requires
            self.valid(*activation),
        ensures
            r@ == self.data(*activation).default_slots@,
    {
        &activation.vtables[self.0].default_slots
    }

    /// The declared type name of a slot, for error reporting and coercion.
    /// Fails on a slot id beyond the table.
    pub fn slot_class_name(self, slot_id: u32, activation: &Activation) -> (r: Result<
        Multiname,
        crate::error::Error,
    >)
        requires
            self.valid(*activation),
        ensures
            ({
                let d = self.data(*activation);
                if slot_id < d.slot_classes@.len() {
                    match d.slot_classes@[slot_id as int] {
                        PropertyClass::Any => r == Ok::<Multiname, crate::error::Error>(
                            Multiname::spec_any(),
                        ),
                        PropertyClass::Class(co) => match r {
                            Ok(mn) => co < activation.class_objects@.len()
                                && activation.class_objects@[co as int].class
                                < activation.classes@.len() && mn == Multiname::from_qname_spec(
                                activation.classes@[activation.class_objects@[co as int].class as int].name,
                            ),
                            Err(e) => (co >= activation.class_objects@.len()
                                || activation.class_objects@[co as int].class
                                >= activation.classes@.len()) && e == crate::error::Error::Load(
                                crate::error::LoadError::SlotIndexInvalid { index: slot_id },
                            ),
                        },
                        PropertyClass::Name { declared_type, unit } => r == Ok::<
                            Multiname,
                            crate::error::Error,
                        >(declared_type),
                    }
                } else {
                    r == Err::<Multiname, crate::error::Error>(
                        crate::error::Error::Load(
                            crate::error::LoadError::SlotIndexInvalid { index: slot_id },
                        ),
                    )
                }
            }),
    {
        let d = &activation.vtables[self.0];
        if (slot_id as usize) < d.slot_classes.len() {
            match d.slot_classes[slot_id as usize] {
                PropertyClass::Any => Ok(Multiname::any()),
                PropertyClass::Class(co) => {
                    if (co as usize) < activation.class_objects.len() {
                        let cls = activation.class_objects[co as usize].class;
                        if (cls as usize) < activation.classes.len() {
                            Ok(Multiname::from_qname(activation.classes[cls as usize].name))
                        } else {
                            Err(
                                crate::error::Error::Load(
                                    crate::error::LoadError::SlotIndexInvalid { index: slot_id },
                                ),
                            )
                        }
                    } else {
                        Err(
                            crate::error::Error::Load(
                                crate::error::LoadError::SlotIndexInvalid { index: slot_id },
                            ),
                        )
                    }
                },
                PropertyClass::Name { declared_type, unit } => Ok(declared_type),
            }
        } else {
            Err(
                crate::error::Error::Load(
                    crate::error::LoadError::SlotIndexInvalid { index: slot_id },
                ),
            )
        }
    }

    /// Look a trait up by multiname; attribute names never resolve.
    pub fn get_trait(self, name: &Multiname, activation: &Activation) -> (r: Option<Property>)
        requires
            self.valid(*activation),
        ensures
            r == if name.attribute {
                None::<Property>
            } else {
                match pm_get_mn(
                    activation.ns_sets@,
                    self.data(*activation).resolved_traits@,
                    *name,
                ) {
                    Some(e) => Some(e.prop),
                    None => None::<Property>,
                }
            },
    {
        if name.is_attribute() {
            return None;
        }
        let d = &activation.vtables[self.0];
        match d.resolved_traits.get_for_multiname(name, &activation.ns_sets) {
            Some(e) => Some(e.prop),
            None => None,
        }
    }

    /// Look a trait up by multiname, returning the namespace it resolved in.
    pub fn get_trait_with_ns(self, name: &Multiname, activation: &Activation) -> (r: Option<
        (Namespace, Property),
    >)
        requires
            self.valid(*activation),
        ensures
            r == if name.attribute {
                None::<(Namespace, Property)>
            } else {
                match pm_get_mn(
                    activation.ns_sets@,
                    self.data(*activation).resolved_traits@,
                    *name,
                ) {
                    Some(e) => Some((e.ns, e.prop)),
                    None => None::<(Namespace, Property)>,
                }
            },
    {
        if name.is_attribute() {
            return None;
        }
        let d = &activation.vtables[self.0];
        match d.resolved_traits.get_for_multiname(name, &activation.ns_sets) {
            Some(e) => Some((e.ns, e.prop)),
            None => None,
        }
    }

    /// Whether any trait resolves for the multiname.
    pub fn has_trait(self, name: &Multiname, activation: &Activation) -> (r: bool)
        requires
            self.valid(*activation),
        ensures
            r == pm_get_mn(
                activation.ns_sets@,
                self.data(*activation).resolved_traits@,
                *name,
            ) is Some,
    {
        let d = &activation.vtables[self.0];
        d.resolved_traits.get_for_multiname(name, &activation.ns_sets).is_some()
    }

    /// The method body at a dispatch id, if the id is in range.
    pub fn get_method(self, disp_id: u32, activation: &Activation) -> (r: Option<usize>)
        requires
            self.valid(*activation),
        ensures
            r == if disp_id < self.data(*activation).method_table@.len() {
                Some(self.data(*activation).method_table@[disp_id as int].method)
            } else {
                None::<usize>
            },
    {
        let d = &activation.vtables[self.0];
        if (disp_id as usize) < d.method_table.len() {
            Some(d.method_table[disp_id as usize].method)
        } else {
            None
        }
    }

    /// The full method table entry at a dispatch id.
    pub fn get_full_method(self, disp_id: u32, activation: &Activation) -> (r: Option<
        ClassBoundMethod,
    >)
        requires
            self.valid(*activation),
        ensures
            r == if disp_id < self.data(*activation).method_table@.len() {
                Some(self.data(*activation).method_table@[disp_id as int])
            } else {
                None::<ClassBoundMethod>
            },
    {
        let d = &activation.vtables[self.0];
        if (disp_id as usize) < d.method_table.len() {
            Some(d.method_table[disp_id as usize])
        } else {
            None
        }
    }

    /// All public-namespace traits, as (name symbol, property) pairs in
    /// insertion order.
    pub fn public_properties(self, activation: &Activation) -> (r: Vec<(usize, Property)>)
        requires
            self.valid(*activation),
        ensures
            r@ == public_props_of(self.data(*activation).resolved_traits@),
    {
        let n = activation.vtables[self.0].resolved_traits.num_entries();
        let mut props: Vec<(usize, Property)> = Vec::new();
        let ghost entries = self.data(*activation).resolved_traits@;
        let mut i: usize = 0;
        while i < n
            invariant
                n == entries.len(),
                entries == self.data(*activation).resolved_traits@,
                self.valid(*activation),
                i <= n,
                props@ == public_props_of(entries.take(i as int)),
            decreases n - i,
        {
            let e = activation.vtables[self.0].resolved_traits.entry_at(i);
            proof {
                assert(entries.take(i + 1).drop_last() =~= entries.take(i as int));
                assert(entries.take(i + 1).last() == entries[i as int]);
            }
            if e.ns.is_public() {
                props.push((e.name, e.prop));
            }
            i = i + 1;
        }
        proof {
            assert(entries.take(n as int) =~= entries);
        }
        props
    }

    /// Calculate the flattened instance dispatch table for a class: set the
    /// defining class, scope and protected namespace; copy the superclass
    /// table verbatim if one is given, re-inserting inherited protected
    /// traits under this class's own protected namespace; then apply the
    /// class's own traits in order. The whole result equals the specification
    /// fold [`vt_apply_traits`] over the inherited base state.
    #[verifier::rlimit(100)]
    #[verifier::loop_isolation(false)]
    pub fn init_vtable(
        self,
        defining_class: usize,
        traits: &Vec<crate::traits::Trait>,
        scope: ScopeChain,
        superclass_vtable: Option<VTable>,
        activation: &mut Activation,
    ) -> (r: Result<(), crate::error::Error>)
        requires
            old(activation).wf(),
            self.valid(*old(activation)),
            defining_class < old(activation).class_objects@.len(),
            old(activation).class_objects@[defining_class as int].class < old(activation).classes@.len(),
            match superclass_vtable {
                Some(sv) => {
                    &&& sv.valid(*old(activation))
                    &&& sv.0 != self.0
                    &&& vt_disp_wf(
                        sv.data(*old(activation)).resolved_traits@,
                        sv.data(*old(activation)).method_table@.len() as int,
                    )
                    &&& sv.data(*old(activation)).default_slots@.len() + traits@.len()
                        <= u32::MAX
                    &&& sv.data(*old(activation)).method_table@.len() + traits@.len() <= u32::MAX
                },
                None => {
                    &&& vt_disp_wf(
                        self.data(*old(activation)).resolved_traits@,
                        self.data(*old(activation)).method_table@.len() as int,
                    )
                    &&& self.data(*old(activation)).default_slots@.len() + traits@.len()
                        <= u32::MAX
                    &&& self.data(*old(activation)).method_table@.len() + traits@.len()
                        <= u32::MAX
                },
            },
            forall|k: int|
                0 <= k < traits@.len() ==> trait_slot_id(#[trigger] traits@[k]) + traits@.len()
                    <= u32::MAX,
        ensures
            final(activation).wf(),
            r is Ok,
            final(activation).classes@ == old(activation).classes@,
            final(activation).scripts@ == old(activation).scripts@,
            final(activation).methods@ == old(activation).methods@,
            final(activation).units@ == old(activation).units@,
            final(activation).domains@ == old(activation).domains@,
            final(activation).class_objects@ == old(activation).class_objects@,
            final(activation).vtables@.len() == old(activation).vtables@.len(),
            forall|i: int|
                0 <= i < old(activation).vtables@.len() && i != self.0 as int ==> final(activation).vtables@[i] == old(activation).vtables@[i],
            final(activation).objects@.len() >= old(activation).objects@.len(),
            forall|i: int|
                0 <= i < old(activation).objects@.len() ==> final(activation).objects@[i] == old(activation).objects@[i],
            forall|i: int|
                old(activation).objects@.len() <= i < final(activation).objects@.len() ==> (
                #[trigger] final(activation).objects@[i]).function_method is Some && final(activation).objects@[i].function_scope == Some(scope),
            *final(activation) == (Activation {
                vtables: final(activation).vtables,
                objects: final(activation).objects,
                ..*old(activation)
            }),
            ({
                let a = *old(activation);
                let my_pns =
                    a.classes@[a.class_objects@[defining_class as int].class as int].protected_namespace;
                let st0 = init_base_state(a, self, superclass_vtable, my_pns);
                let stf = vt_apply_traits(
                    st0,
                    traits@,
                    traits@.len() as int,
                    defining_class,
                    scope,
                    a.function_class,
                    a.class_class,
                );
                let d = self.data(*final(activation));
                &&& d.defining_class == Some(defining_class)
                &&& d.scope == Some(scope)
                &&& d.protected_namespace == my_pns
                &&& d.resolved_traits@ == stf.rt
                &&& d.method_table@ == stf.methods
                &&& d.default_slots@ == stf.defaults
                &&& d.slot_classes@ == stf.slots
                &&& final(activation).objects@.len() == stf.nobj
            }),
    {
        let ghost a = *old(activation);
        let ghost my_pns_spec =
            a.classes@[a.class_objects@[defining_class as int].class as int].protected_namespace;
        let my_pns = activation.classes[activation.class_objects[defining_class].class]
            .protected_namespace;
        {
            let d = &mut activation.vtables[self.0];
            d.defining_class = Some(defining_class);
            d.scope = Some(scope);
            d.protected_namespace = my_pns;
        }
        if let Some(sv) = superclass_vtable {
            let rt_copy = activation.vtables[sv.0].resolved_traits.duplicate();
            let sc_copy = copy_vec(&activation.vtables[sv.0].slot_classes);
            let mt_copy = copy_vec(&activation.vtables[sv.0].method_table);
            let ds_copy = copy_vec(&activation.vtables[sv.0].default_slots);
            {
                let d = &mut activation.vtables[self.0];
                d.resolved_traits = rt_copy;
                d.slot_classes = sc_copy;
                d.method_table = mt_copy;
                d.default_slots = ds_copy;
            }
            if let Some(my) = my_pns {
                if let Some(sp) = activation.vtables[sv.0].protected_namespace {
                    let ghost super_rt = sv.data(a).resolved_traits@;
                    let n = activation.vtables[sv.0].resolved_traits.num_entries();
                    let mut i: usize = 0;
                    while i < n
                        invariant
                            activation.vtables@.len() == a.vtables@.len(),
                            self.0 < a.vtables@.len(),
                            sv.0 < a.vtables@.len(),
                            sv.0 != self.0,
                            n == super_rt.len(),
                            sv.data(*activation).resolved_traits@ == super_rt,
                            self.data(*activation).resolved_traits@ == vt_remap_protected(
                                super_rt,
                                super_rt,
                                i as int,
                                sp,
                                my,
                            ),
                            i <= n,
                            self.data(*activation).method_table@ == sv.data(a).method_table@,
                            self.data(*activation).default_slots@ == sv.data(a).default_slots@,
                            self.data(*activation).slot_classes@ == sv.data(a).slot_classes@,
                            self.data(*activation).defining_class == Some(defining_class),
                            self.data(*activation).scope == Some(scope),
                            self.data(*activation).protected_namespace == my_pns,
                            activation.objects@ == a.objects@,
                            forall|j: int|
                                0 <= j < a.vtables@.len() && j != self.0 as int
                                    ==> activation.vtables@[j] == a.vtables@[j],
                            *activation == (Activation {
                                vtables: activation.vtables,
                                ..a
                            }),
                        decreases n - i,
                    {
                        let e = activation.vtables[sv.0].resolved_traits.entry_at(i);
                        if e.ns == sp {
                            let d = &mut activation.vtables[self.0];
                            d.resolved_traits.insert(
                                QName { ns: my, name: e.name },
                                e.prop,
                            );
                        }
                        i = i + 1;
                    }
                }
            }
        }
        let ghost st0 = init_base_state(a, self, superclass_vtable, my_pns_spec);
        proof {
            assert(self.data(*activation).resolved_traits@ == st0.rt);
            assert(self.data(*activation).method_table@ == st0.methods);
            assert(self.data(*activation).default_slots@ == st0.defaults);
            assert(self.data(*activation).slot_classes@ == st0.slots);
            assert(activation.objects@.len() == st0.nobj);
            assert(vt_disp_wf(st0.rt, st0.methods.len() as int)) by {
                match superclass_vtable {
                    Some(sv) => {
                        lemma_remap_preserves_disp_wf(
                            sv.data(a).resolved_traits@,
                            sv.data(a).method_table@.len() as int,
                            my_pns_spec,
                            sv.data(a).protected_namespace,
                        );
                    },
                    None => {},
                }
            }
        }
        let n = traits.len();
        let mut i: usize = 0;
        while i < n
            invariant
                activation.vtables@.len() == a.vtables@.len(),
                self.0 < a.vtables@.len(),
                n == traits@.len(),
                i <= n,
                ({
                    let cur = vt_apply_traits(
                        st0,
                        traits@,
                        i as int,
                        defining_class,
                        scope,
                        a.function_class,
                        a.class_class,
                    );
                    &&& self.data(*activation).resolved_traits@ == cur.rt
                    &&& self.data(*activation).method_table@ == cur.methods
                    &&& self.data(*activation).default_slots@ == cur.defaults
                    &&& self.data(*activation).slot_classes@ == cur.slots
                    &&& activation.objects@.len() == cur.nobj
                    &&& vt_disp_wf(cur.rt, cur.methods.len() as int)
                    &&& cur.methods.len() + (n - i) <= u32::MAX
                    &&& cur.defaults.len() + (n - i) <= u32::MAX
                }),
                self.data(*activation).defining_class == Some(defining_class),
                self.data(*activation).scope == Some(scope),
                self.data(*activation).protected_namespace == my_pns_spec,
                forall|j: int|
                    0 <= j < a.vtables@.len() && j != self.0 as int ==> activation.vtables@[j]
                        == a.vtables@[j],
                forall|j: int|
                    0 <= j < a.objects@.len() ==> activation.objects@[j] == a.objects@[j],
                activation.objects@.len() >= a.objects@.len(),
                forall|j: int|
                    a.objects@.len() <= j < activation.objects@.len() ==> (
                    #[trigger] activation.objects@[j]).function_method is Some
                        && activation.objects@[j].function_scope == Some(scope),
                *activation == (Activation {
                    vtables: activation.vtables,
                    objects: activation.objects,
                    ..a
                }),
            decreases n - i,
        {
            let ghost stp = vt_apply_traits(
                st0,
                traits@,
                i as int,
                defining_class,
                scope,
                a.function_class,
                a.class_class,
            );
            let ghost objects0 = activation.objects@;
            proof {
                lemma_apply_traits_nobj_mono(
                    st0,
                    traits@,
                    i as int,
                    defining_class,
                    scope,
                    a.function_class,
                    a.class_class,
                );
            }
            let name = traits[i].name();
            let kind = traits[i].kind();
            match kind {
                crate::traits::TraitKind::Method { method, .. } => {
                    let method = *method;
                    let entry = ClassBoundMethod { class: defining_class, scope, method };
                    let got = activation.vtables[self.0].resolved_traits.get(name);
                    proof {
                        crate::property::lemma_pm_find_props(stp.rt, name.name, name.ns, 0);
                    }
                    match got {
                        Some(Property::Method { disp_id }) => {
                            let d = &mut activation.vtables[self.0];
                            d.method_table.set(disp_id as usize, entry);
                        },
                        _ => {
                            let d = &mut activation.vtables[self.0];
                            let disp_id = d.method_table.len() as u32;
                            d.method_table.push(entry);
                            d.resolved_traits.insert(name, Property::Method { disp_id });
                        },
                    }
                },
                crate::traits::TraitKind::Getter { method, .. } => {
                    let method = *method;
                    let entry = ClassBoundMethod { class: defining_class, scope, method };
                    let got = activation.vtables[self.0].resolved_traits.get(name);
                    proof {
                        crate::property::lemma_pm_find_props(stp.rt, name.name, name.ns, 0);
                    }
                    match got {
                        Some(Property::Virtual { get: Some(disp_id), set: _ }) => {
                            let d = &mut activation.vtables[self.0];
                            d.method_table.set(disp_id as usize, entry);
                        },
                        Some(Property::Virtual { get: None, set }) => {
                            let d = &mut activation.vtables[self.0];
                            let disp_id = d.method_table.len() as u32;
                            d.method_table.push(entry);
                            d.resolved_traits.insert(
                                name,
                                Property::Virtual { get: Some(disp_id), set },
                            );
                        },
                        _ => {
                            let d = &mut activation.vtables[self.0];
                            let disp_id = d.method_table.len() as u32;
                            d.method_table.push(entry);
                            d.resolved_traits.insert(
                                name,
                                Property::Virtual { get: Some(disp_id), set: None },
                            );
                        },
                    }
                },
                crate::traits::TraitKind::Setter { method, .. } => {
                    let method = *method;
                    let entry = ClassBoundMethod { class: defining_class, scope, method };
                    let got = activation.vtables[self.0].resolved_traits.get(name);
                    proof {
                        crate::property::lemma_pm_find_props(stp.rt, name.name, name.ns, 0);
                    }
                    match got {
                        Some(Property::Virtual { set: Some(disp_id), get: _ }) => {
                            let d = &mut activation.vtables[self.0];
                            d.method_table.set(disp_id as usize, entry);
                        },
                        Some(Property::Virtual { set: None, get }) => {
                            let d = &mut activation.vtables[self.0];
                            let disp_id = d.method_table.len() as u32;
                            d.method_table.push(entry);
                            d.resolved_traits.insert(
                                name,
                                Property::Virtual { get, set: Some(disp_id) },
                            );
                        },
                        _ => {
                            let d = &mut activation.vtables[self.0];
                            let disp_id = d.method_table.len() as u32;
                            d.method_table.push(entry);
                            d.resolved_traits.insert(
                                name,
                                Property::Virtual { get: None, set: Some(disp_id) },
                            );
                        },
                    }
                },
                _ => {
                    let value: Value = match kind {
                        crate::traits::TraitKind::Slot { default_value, .. } => *default_value,
                        crate::traits::TraitKind::Const { default_value, .. } => *default_value,
                        crate::traits::TraitKind::Function { function, .. } => {
                            let id = activation.objects.len();
                            activation.objects.push(
                                crate::context::ObjectData {
                                    instance_of: None,
                                    vtable: None,
                                    slots: Vec::new(),
                                    namespace: None,
                                    bound_method: None,
                                    bound_receiver: None,
                                    function_method: Some(*function),
                                    function_scope: Some(scope),
                                },
                            );
                            Value::Object(id)
                        },
                        _ => Value::Undefined,
                    };
                    let slot_id: u32 = match kind {
                        crate::traits::TraitKind::Slot { slot_id, .. } => *slot_id,
                        crate::traits::TraitKind::Const { slot_id, .. } => *slot_id,
                        crate::traits::TraitKind::Function { slot_id, .. } => *slot_id,
                        crate::traits::TraitKind::Class { slot_id, .. } => *slot_id,
                        _ => 0,
                    };
                    let is_const = match kind {
                        crate::traits::TraitKind::Const { .. } => true,
                        crate::traits::TraitKind::Class { .. } => true,
                        _ => false,
                    };
                    let slot_class: PropertyClass = match kind {
                        crate::traits::TraitKind::Slot { declared_type, unit, .. } => PropertyClass::Name {
                            declared_type: *declared_type,
                            unit: *unit,
                        },
                        crate::traits::TraitKind::Const { declared_type, unit, .. } => PropertyClass::Name {
                            declared_type: *declared_type,
                            unit: *unit,
                        },
                        crate::traits::TraitKind::Function { .. } => PropertyClass::Class(
                            activation.function_class,
                        ),
                        _ => PropertyClass::Class(activation.class_class),
                    };
                    let dlen = activation.vtables[self.0].default_slots.len();
                    let occupied = if slot_id != 0 && (slot_id as usize) < dlen {
                        activation.vtables[self.0].default_slots[slot_id as usize].is_some()
                    } else {
                        false
                    };
                    let new_slot_id: u32 = if slot_id == 0 || occupied {
                        dlen as u32
                    } else {
                        slot_id
                    };
                    let ghost objs_now = activation.objects@;
                    proof {
                        assert(stp.defaults.is_prefix_of(
                            activation.vtables@[self.0 as int].default_slots@,
                        )) by {
                            assert(stp.defaults =~= activation.vtables@[self.0 as int].default_slots@
                                .take(stp.defaults.len() as int));
                        }
                    }
                    while activation.vtables[self.0].default_slots.len() < new_slot_id as usize + 1
                        invariant
                            activation.vtables@.len() == a.vtables@.len(),
                            self.0 < a.vtables@.len(),
                            ({
                                let dd = activation.vtables@[self.0 as int];
                                &&& stp.defaults.is_prefix_of(dd.default_slots@)
                                &&& (dd.default_slots@.len() <= new_slot_id as int + 1
                                    || dd.default_slots@ == stp.defaults)
                                &&& (forall|j: int|
                                    stp.defaults.len() <= j < dd.default_slots@.len()
                                        ==> dd.default_slots@[j] is None)
                                &&& dd.slot_classes@ == stp.slots
                                &&& dd.method_table@ == stp.methods
                                &&& dd.resolved_traits@ == stp.rt
                                &&& dd.defining_class == Some(defining_class)
                                &&& dd.scope == Some(scope)
                                &&& dd.protected_namespace == my_pns_spec
                            }),
                            activation.objects@ == objs_now,
                            forall|j: int|
                                0 <= j < a.vtables@.len() && j != self.0 as int
                                    ==> activation.vtables@[j] == a.vtables@[j],
                            *activation == (Activation {
                                vtables: activation.vtables,
                                objects: activation.objects,
                                ..a
                            }),
                        decreases
                                (new_slot_id as int) + 1
                                    - activation.vtables@[self.0 as int].default_slots@.len(),
                    {
                        proof {
                            assert(stp.defaults =~= stp.defaults.push(None::<Value>).take(
                                stp.defaults.len() as int,
                            ));
                        }
                        let d = &mut activation.vtables[self.0];
                        d.default_slots.push(None);
                    }
                    let dmutd = &mut activation.vtables[self.0];
                    dmutd.default_slots.set(new_slot_id as usize, Some(value));
                    let ghost defaults_done = activation.vtables@[self.0 as int].default_slots@;
                    proof {
                        assert(stp.slots.is_prefix_of(
                            activation.vtables@[self.0 as int].slot_classes@,
                        )) by {
                            assert(stp.slots =~= activation.vtables@[self.0 as int].slot_classes@
                                .take(stp.slots.len() as int));
                        }
                    }
                    while activation.vtables[self.0].slot_classes.len() < new_slot_id as usize + 1
                        invariant
                            activation.vtables@.len() == a.vtables@.len(),
                            self.0 < a.vtables@.len(),
                            ({
                                let dd = activation.vtables@[self.0 as int];
                                &&& stp.slots.is_prefix_of(dd.slot_classes@)
                                &&& (dd.slot_classes@.len() <= new_slot_id as int + 1
                                    || dd.slot_classes@ == stp.slots)
                                &&& (forall|j: int|
                                    stp.slots.len() <= j < dd.slot_classes@.len()
                                        ==> dd.slot_classes@[j] == PropertyClass::Any)
                                &&& dd.default_slots@ == defaults_done
                                &&& dd.method_table@ == stp.methods
                                &&& dd.resolved_traits@ == stp.rt
                                &&& dd.defining_class == Some(defining_class)
                                &&& dd.scope == Some(scope)
                                &&& dd.protected_namespace == my_pns_spec
                            }),
                            activation.objects@ == objs_now,
                            forall|j: int|
                                0 <= j < a.vtables@.len() && j != self.0 as int
                                    ==> activation.vtables@[j] == a.vtables@[j],
                            *activation == (Activation {
                                vtables: activation.vtables,
                                objects: activation.objects,
                                ..a
                            }),
                        decreases
                                (new_slot_id as int) + 1
                                    - activation.vtables@[self.0 as int].slot_classes@.len(),
                    {
                        proof {
                            assert(stp.slots =~= stp.slots.push(PropertyClass::Any).take(
                                stp.slots.len() as int,
                            ));
                        }
                        let d = &mut activation.vtables[self.0];
                        d.slot_classes.push(PropertyClass::Any);
                    }
                    let dmuts = &mut activation.vtables[self.0];
                    dmuts.slot_classes.set(new_slot_id as usize, slot_class);
                    let prop = if is_const {
                        Property::ConstSlot { slot_id: new_slot_id }
                    } else {
                        Property::Slot { slot_id: new_slot_id }
                    };
                    let dmutr = &mut activation.vtables[self.0];
                    dmutr.resolved_traits.insert(name, prop);
                    proof {
                        assert(activation.objects@ == objs_now);
                        assert forall|j: int|
                            0 <= j < a.objects@.len() implies activation.objects@[j]
                            == a.objects@[j] by {
                            assert(objs_now[j] == objects0[j]);
                            assert(objects0[j] == a.objects@[j]);
                        }
                        let stn = vt_apply_trait(
                            stp,
                            traits@[i as int],
                            defining_class,
                            scope,
                            a.function_class,
                            a.class_class,
                        );
                        assert(self.data(*activation).default_slots@ =~= stn.defaults);
                        assert(self.data(*activation).slot_classes@ =~= stn.slots);
                    }
                },
            }
            proof {
                let stn = vt_apply_trait(
                    stp,
                    traits@[i as int],
                    defining_class,
                    scope,
                    a.function_class,
                    a.class_class,
                );
                assert(vt_apply_traits(
                    st0,
                    traits@,
                    i + 1,
                    defining_class,
                    scope,
                    a.function_class,
                    a.class_class,
                ) == stn);
                assert(self.data(*activation).resolved_traits@ == stn.rt);
                assert(self.data(*activation).method_table@ == stn.methods);
                assert(self.data(*activation).default_slots@ == stn.defaults);
                assert(self.data(*activation).slot_classes@ == stn.slots);
                lemma_apply_trait_disp_wf(
                    stp,
                    traits@[i as int],
                    defining_class,
                    scope,
                    a.function_class,
                    a.class_class,
                );
            }
            i = i + 1;
        }
        Ok(())
    }

    /// Produce a method value bound to the given receiver, as a fresh
    /// function object, together with nothing else changed. Returns `None`
    /// for a dispatch id beyond the method table. Callers cache the result per
    /// receiver and dispatch id so that bound-method identity stays stable.
    /// The domain a slot's declared type name is resolved through: the
    /// defining unit's domain where the slot records one, the global domain
    /// otherwise.
    pub open spec fn slot_type_domain(ctx: Activation, unit: Option<usize>) -> int {
        match unit {
            Some(u) => if u < ctx.units@.len() {
                ctx.units@[u as int].domain as int
            } else {
                ctx.global_domain as int
            },
            None => ctx.global_domain as int,
        }
    }

    /// The class a slot's declared type name resolves to, if any: the first
    /// exported class the name picks out in the resolving domain.
    pub open spec fn slot_type_lookup(ctx: Activation, unit: Option<usize>, mn: Multiname) -> Option<
        usize,
    > {
        let dm = Self::slot_type_domain(ctx, unit);
        if 0 <= dm < ctx.domains@.len() {
            let cls = ctx.domains@[dm].classes@;
            let i = crate::context::DomainData::spec_find_class_mn(ctx.ns_sets@, cls, mn, 0);
            if i < cls.len() {
                Some(cls[i].1)
            } else {
                None
            }
        } else {
            None
        }
    }

    /// Coerce a value being stored into the slot `slot_id`: a declared type
    /// still held by name is resolved to a class through the defining unit's
    /// domain on the first store and memoized back into the slot record, so
    /// later stores reuse the resolved class.
    pub fn coerce_trait_value(
        self,
        slot_id: u32,
        value: Value,
        activation: &mut Activation,
    ) -> (r: Result<Value, crate::error::Error>)
        requires
            old(activation).wf(),
            self.valid(*old(activation)),
        ensures
            final(activation).wf(),
            self.valid(*final(activation)),
            ({
                let vd = self.data(*old(activation));
                let sc = vd.slot_classes@;
                &&& ((slot_id as int) >= sc.len() ==> r == Err::<Value, crate::error::Error>(
                    crate::error::Error::Load(
                        crate::error::LoadError::SlotIndexInvalid { index: slot_id },
                    ),
                ) && *final(activation) == *old(activation))
                &&& ((slot_id as int) < sc.len() ==> match sc[slot_id as int] {
                    PropertyClass::Any => r == Ok::<Value, crate::error::Error>(value) && *final(activation) == *old(activation),
                    PropertyClass::Class(c) => r == Ok::<Value, crate::error::Error>(value)
                        && *final(activation) == *old(activation),
                    PropertyClass::Name { declared_type: mn, unit } => ({
                        let memoized_to = |pc: PropertyClass|
                            {
                                &&& *final(activation) == (Activation {
                                    vtables: final(activation).vtables,
                                    ..*old(activation)
                                })
                                &&& final(activation).vtables@ == old(activation).vtables@.update(
                                    self.0 as int,
                                    (VTableData {
                                        slot_classes: final(activation).vtables@[self.0 as int].slot_classes,
                                        ..vd
                                    }),
                                )
                                &&& final(activation).vtables@[self.0 as int].slot_classes@
                                    == sc.update(slot_id as int, pc)
                            };
                        &&& (mn.name is None ==> r == Ok::<Value, crate::error::Error>(value)
                            && memoized_to(PropertyClass::Any))
                        &&& (mn.name is Some ==> match Self::slot_type_lookup(
                            *old(activation),
                            unit,
                            mn,
                        ) {
                            Some(c) => r == Ok::<Value, crate::error::Error>(value) && memoized_to(
                                PropertyClass::Class(c),
                            ),
                            None => r == Err::<Value, crate::error::Error>(
                                crate::error::Error::Load(crate::error::LoadError::TypeNotFound),
                            ) && *final(activation) == *old(activation),
                        })
                    }),
                })
            }),
    {
        let ghost a = *old(activation);
        let n = activation.vtables[self.0].slot_classes.len();
        if slot_id as usize >= n {
            return Err(crate::error::Error::Load(
                crate::error::LoadError::SlotIndexInvalid { index: slot_id },
            ));
        }
        let sidx = slot_id as usize;
        let pc = activation.vtables[self.0].slot_classes[sidx];
        match pc {
            PropertyClass::Any => Ok(value),
            PropertyClass::Class(_) => Ok(value),
            PropertyClass::Name { declared_type, unit } => {
                if declared_type.name.is_none() {
                    {
                        let d = &mut activation.vtables[self.0];
                        d.slot_classes.set(sidx, PropertyClass::Any);
                    }
                    proof {
                        assert(activation.vtables@ =~= a.vtables@.update(
                            self.0 as int,
                            (VTableData {
                                slot_classes: activation.vtables@[self.0 as int].slot_classes,
                                ..a.vtables@[self.0 as int]
                            }),
                        ));
                    }
                    Ok(value)
                } else {
                    let dm = match unit {
                        Some(u) => if u < activation.units.len() {
                            activation.units[u].domain
                        } else {
                            activation.global_domain
                        },
                        None => activation.global_domain,
                    };
                    if dm >= activation.domains.len() {
                        return Err(crate::error::Error::Load(
                            crate::error::LoadError::TypeNotFound,
                        ));
                    }
                    let found = activation.domains[dm].lookup_class(
                        &declared_type,
                        &activation.ns_sets,
                    );
                    match found {
                        Some(c) => {
                            {
                                let d = &mut activation.vtables[self.0];
                                d.slot_classes.set(sidx, PropertyClass::Class(c));
                            }
                            proof {
                                assert(activation.vtables@ =~= a.vtables@.update(
                                    self.0 as int,
                                    (VTableData {
                                        slot_classes: activation.vtables@[self.0 as
                                            int].slot_classes,
                                        ..a.vtables@[self.0 as int]
                                    }),
                                ));
                            }
                            Ok(value)
                        },
                        None => Err(crate::error::Error::Load(
                            crate::error::LoadError::TypeNotFound,
                        )),
                    }
                }
            },
        }
    }

    pub fn make_bound_method(
        self,
        activation: &mut Activation,
        receiver: usize,
        disp_id: u32,
    ) -> (r: Option<usize>)
        requires
            old(activation).wf(),
            self.valid(*old(activation)),
        ensures
            final(activation).wf(),
            ({
                let d = self.data(*old(activation));
                if disp_id < d.method_table@.len() {
                    &&& r == Some(old(activation).objects@.len() as usize)
                    &&& final(activation).objects@.len() == old(activation).objects@.len() + 1
                    &&& forall|i: int|
                        0 <= i < old(activation).objects@.len() ==> final(activation).objects@[i]
                            == old(activation).objects@[i]
                    &&& final(activation).objects@.last().bound_method == Some(
                        d.method_table@[disp_id as int],
                    )
                    &&& final(activation).objects@.last().bound_receiver == Some(receiver)
                    &&& *final(activation) == (Activation {
                        objects: final(activation).objects,
                        ..*old(activation)
                    })
                } else {
                    r is None && *final(activation) == *old(activation)
                }
            }),
    {
        let full = self.get_full_method(disp_id, activation);
        match full {
            Some(entry) => {
                let id = activation.objects.len();
                activation.objects.push(
                    crate::context::ObjectData {
                        instance_of: None,
                        vtable: None,
                        slots: Vec::new(),
                        namespace: None,
                        bound_method: Some(entry),
                        bound_receiver: Some(receiver),
                        function_method: None,
                        function_scope: None,
                    },
                );
                Some(id)
            },
            None => None,
        }
    }

    /// Install a constant trait late on the global object: append a fresh
    /// slot holding `value` typed by `class`, and map `name` to it.
    pub fn install_const_trait_late(
        self,
        activation: &mut Activation,
        name: QName,
        value: Value,
        class: usize,
    ) -> (r: u32)
        requires
            old(activation).wf(),
            self.valid(*old(activation)),
            self.data(*old(activation)).default_slots@.len() < u32::MAX,
        ensures
            final(activation).wf(),
            r == old(activation).vtables@[self.0 as int].default_slots@.len(),
            ({
                let d0 = self.data(*old(activation));
                let d = self.data(*final(activation));
                &&& d.default_slots@ == d0.default_slots@.push(Some(value))
                &&& d.resolved_traits@ == crate::property::pm_insert(
                    d0.resolved_traits@,
                    name.name,
                    name.ns,
                    Property::Slot { slot_id: r },
                )
                &&& d.slot_classes@ == d0.slot_classes@.push(PropertyClass::Class(class))
                &&& d.method_table@ == d0.method_table@
                &&& d.defining_class == d0.defining_class
                &&& d.scope == d0.scope
                &&& d.protected_namespace == d0.protected_namespace
            }),
            forall|i: int|
                0 <= i < old(activation).vtables@.len() && i != self.0 as int
                    ==> final(activation).vtables@[i] == old(activation).vtables@[i],
            *final(activation) == (Activation {
                vtables: final(activation).vtables,
                ..*old(activation)
            }),
    {
        let d = &mut activation.vtables[self.0];
        d.default_slots.push(Some(value));
        let new_slot_id = (d.default_slots.len() - 1) as u32;
        d.resolved_traits.insert(name, Property::Slot { slot_id: new_slot_id });
        d.slot_classes.push(PropertyClass::Class(class));
        new_slot_id
    }

    /// Install an existing trait under a second name supplied by an
    /// interface: the new name aliases the same property, ids unchanged.
    /// Nothing happens if the public name has no trait.
    pub fn copy_property_for_interface(
        self,
        activation: &mut Activation,
        public_name: QName,
        interface_name: QName,
    )
        requires
            old(activation).wf(),
            self.valid(*old(activation)),
        ensures
            final(activation).wf(),
            ({
                let d0 = self.data(*old(activation));
                let d = self.data(*final(activation));
                match pm_get(d0.resolved_traits@, public_name.name, public_name.ns) {
                    Some(prop) => d.resolved_traits@ == crate::property::pm_insert(
                        d0.resolved_traits@,
                        interface_name.name,
                        interface_name.ns,
                        prop,
                    ),
                    None => d.resolved_traits@ == d0.resolved_traits@,
                }
            }),
            ({
                let d0 = self.data(*old(activation));
                let d = self.data(*final(activation));
                &&& d.default_slots@ == d0.default_slots@
                &&& d.slot_classes@ == d0.slot_classes@
                &&& d.method_table@ == d0.method_table@
                &&& d.defining_class == d0.defining_class
                &&& d.scope == d0.scope
                &&& d.protected_namespace == d0.protected_namespace
            }),
            forall|i: int|
                0 <= i < old(activation).vtables@.len() && i != self.0 as int
                    ==> final(activation).vtables@[i] == old(activation).vtables@[i],
            *final(activation) == (Activation {
                vtables: final(activation).vtables,
                ..*old(activation)
            }),
    {
        let d = &mut activation.vtables[self.0];
        let prop = d.resolved_traits.get(public_name);
        if let Some(prop) = prop {
            d.resolved_traits.insert(interface_name, prop);
        }
    }
}

} // verus!
