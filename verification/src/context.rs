//! The execution context handed to every load and link operation.
//!
//! All shared, reachability-managed objects — classes, class objects, linked
//! dispatch tables, scripts, translation units, domains and plain objects —
//! live in arenas owned by one [`Activation`] and are referred to by index.
//! The interpreter hands the context in by `&mut` reference, which models the
//! single-mutator discipline: at most one mutable access at a time.

use crate::class::Class;
use crate::interner::Interner;
use crate::method::{MethodBody, MethodData, ParamConfig};
use crate::script::{ScriptData, TranslationUnitData};
use crate::value::{Multiname, Namespace, NsKind, QName, Value};
use crate::vtable::VTableData;
use vstd::prelude::*;

verus! {

/// A captured lexical scope for native trait evaluation. The loader only
/// records which domain the scope closes over.
#[derive(Clone, Copy, PartialEq, Eq, Structural, Debug)]
pub struct ScopeChain {
    pub domain: usize,
}

impl ScopeChain {
    pub fn new(domain: usize) -> (r: ScopeChain)
        ensures
            r == (ScopeChain { domain }),
    {
        ScopeChain { domain }
    }
}

/// A native (built-in) implementation in a side-table: the embedder's name
/// symbol and function number.
#[derive(Clone, Copy, PartialEq, Eq, Structural, Debug)]
pub struct NativeMethod {
    pub name: usize,
    pub native: u32,
}

/// The runtime object standing for one linked class: its descriptor, its
/// resolved superclass object and its linked dispatch table.
#[derive(Clone, Copy, PartialEq, Eq, Structural, Debug)]
pub struct ClassObjectData {
    /// Class arena index of the descriptor.
    pub class: usize,
    /// Class-object arena index of the resolved superclass, if any. Always
    /// smaller than this object's own index, so superclass chains end.
    pub superclass_object: Option<usize>,
    /// VTable arena index of the linked instance dispatch table, if linked.
    pub vtable: Option<usize>,
}

/// A plain object: what it is an instance of, its dispatch table and its
/// installed slots.
#[derive(Clone, Debug)]
pub struct ObjectData {
    /// Class-object arena index, if the object has a class.
    pub instance_of: Option<usize>,
    /// VTable arena index.
    pub vtable: Option<usize>,
    /// Installed slot values, indexed by slot id.
    pub slots: Vec<Value>,
    /// The boxed namespace, for namespace objects.
    pub namespace: Option<Namespace>,
    /// For bound-method function objects: the bound method entry.
    pub bound_method: Option<crate::vtable::ClassBoundMethod>,
    /// For bound-method function objects: the receiver.
    pub bound_receiver: Option<usize>,
    /// For bare function values: the method arena index.
    pub function_method: Option<usize>,
    /// For bare function values: the scope chain captured at creation.
    pub function_scope: Option<ScopeChain>,
}

/// Copy a vector of plain values.
pub fn copy_vec<T: Copy>(v: &Vec<T>) -> (r: Vec<T>)
    ensures
        r@ == v@,
{
    let n = v.len();
    let mut r: Vec<T> = Vec::new();
    let mut i: usize = 0;
    while i < n
        invariant
            n == v@.len(),
            i <= n,
            r@ == v@.take(i as int),
        decreases n - i,
    {
        r.push(v[i]);
        proof {
            assert(v@.take(i + 1) =~= v@.take(i as int).push(v@[i as int]));
        }
        i = i + 1;
    }
    proof {
        assert(v@.take(n as int) =~= v@);
    }
    r
}

/// A vector of `n` unresolved slots.
pub fn none_vec<T>(n: usize) -> (r: Vec<Option<T>>)
    ensures
        r@.len() == n,
        forall|i: int| 0 <= i < n ==> r@[i] is None,
{
    let mut r: Vec<Option<T>> = Vec::new();
    let mut i: usize = 0;
    while i < n
        invariant
            i <= n,
            r@.len() == i,
            forall|j: int| 0 <= j < i ==> r@[j] is None,
        decreases n - i,
    {
        r.push(None);
        i = i + 1;
    }
    r
}

/// Index of the first definition with the given qualified name at or after
/// `i`, or the sequence's length if there is none.
pub open spec fn dom_find(s: Seq<(QName, usize)>, name: QName, i: int) -> int
    decreases s.len() - i when 0 <= i <= s.len()
{
    if i >= s.len() {
        s.len() as int
    } else if s[i].0 == name {
        i
    } else {
        dom_find(s, name, i + 1)
    }
}

/// A domain: the external namespace registry scripts and classes export their
/// definitions into, keyed by qualified name.
#[derive(Clone, Debug)]
pub struct DomainData {
    /// Exported top-level definitions: name to script arena index.
    pub defs: Vec<(QName, usize)>,
    /// Exported classes: name to class arena index.
    pub classes: Vec<(QName, usize)>,
}

impl DomainData {
    pub fn new() -> (r: DomainData)
        ensures
            r.defs@ == Seq::<(QName, usize)>::empty(),
            r.classes@ == Seq::<(QName, usize)>::empty(),
    {
        let r = DomainData { defs: Vec::new(), classes: Vec::new() };
        proof {
            assert(r.defs@ =~= Seq::<(QName, usize)>::empty());
            assert(r.classes@ =~= Seq::<(QName, usize)>::empty());
        }
        r
    }

    /// Export a top-level definition: the first export of a name wins; a
    /// later export of the same name replaces it in place.
    pub fn export_definition(&mut self, name: QName, script: usize)
        ensures
            final(self).classes == old(self).classes,
            ({
                let i = dom_find(old(self).defs@, name, 0);
                if i < old(self).defs@.len() {
                    final(self).defs@ == old(self).defs@.update(i, (name, script))
                } else {
                    final(self).defs@ == old(self).defs@.push((name, script))
                }
            }),
    {
        let ghost s0 = self.defs@;
        let n = self.defs.len();
        let mut i: usize = 0;
        while i < n
            invariant
                self == old(self),
                s0 == old(self).defs@,
                n == s0.len(),
                i <= n,
                dom_find(s0, name, 0) == dom_find(s0, name, i as int),
            decreases n - i,
        {
            let e = self.defs[i];
            if e.0 == name {
                self.defs.set(i, (name, script));
                return ;
            }
            i = i + 1;
        }
        self.defs.push((name, script));
    }

    /// Export a class definition, in the same replace-or-append way.
    pub fn export_class(&mut self, name: QName, class: usize)
        ensures
            final(self).defs == old(self).defs,
            ({
                let i = dom_find(old(self).classes@, name, 0);
                if i < old(self).classes@.len() {
                    final(self).classes@ == old(self).classes@.update(i, (name, class))
                } else {
                    final(self).classes@ == old(self).classes@.push((name, class))
                }
            }),
    {
        let ghost s0 = self.classes@;
        let n = self.classes.len();
        let mut i: usize = 0;
        while i < n
            invariant
                self == old(self),
                s0 == old(self).classes@,
                n == s0.len(),
                i <= n,
                dom_find(s0, name, 0) == dom_find(s0, name, i as int),
            decreases n - i,
        {
            let e = self.classes[i];
            if e.0 == name {
                self.classes.set(i, (name, class));
                return ;
            }
            i = i + 1;
        }
        self.classes.push((name, class));
    }

    /// Whether the multiname picks out the exported name: equal local names
    /// and the exported namespace among the candidates.
    pub open spec fn spec_mn_picks(sets: Seq<Vec<Namespace>>, name: QName, mn: Multiname) -> bool {
        mn.name == Some(name.name) && crate::value::ns_spec_contains(sets, mn.ns, name.ns)
    }

    /// Index of the first exported class a multiname picks out at or after
    /// `i`, or the sequence's length.
    pub open spec fn spec_find_class_mn(
        sets: Seq<Vec<Namespace>>,
        s: Seq<(QName, usize)>,
        mn: Multiname,
        i: int,
    ) -> int
        decreases s.len() - i when 0 <= i <= s.len()
    {
        if i >= s.len() {
            s.len() as int
        } else if DomainData::spec_mn_picks(sets, s[i].0, mn) {
            i
        } else {
            DomainData::spec_find_class_mn(sets, s, mn, i + 1)
        }
    }

    /// Look up an exported class by multiname; the earliest export wins.
    pub fn lookup_class(&self, mn: &Multiname, sets: &Vec<Vec<Namespace>>) -> (r: Option<usize>)
        ensures
            ({
                let i = DomainData::spec_find_class_mn(sets@, self.classes@, *mn, 0);
                if i < self.classes@.len() {
                    r == Some(self.classes@[i].1)
                } else {
                    r is None
                }
            }),
    {
        let n = self.classes.len();
        let mut i: usize = 0;
        while i < n
            invariant
                n == self.classes@.len(),
                i <= n,
                DomainData::spec_find_class_mn(sets@, self.classes@, *mn, 0)
                    == DomainData::spec_find_class_mn(sets@, self.classes@, *mn, i as int),
            decreases n - i,
        {
            let e = self.classes[i];
            let name_matches = match mn.name {
                Some(nm) => nm == e.0.name,
                None => false,
            };
            if name_matches && mn.contains_ns(e.0.ns, sets) {
                return Some(e.1);
            }
            i = i + 1;
        }
        None
    }
}

/// A lazily-filled table only fills in: a resolved slot never changes again.
pub open spec fn cache_monotone<T>(a: Seq<Option<T>>, b: Seq<Option<T>>) -> bool {
    &&& a.len() == b.len()
    &&& forall|i: int| 0 <= i < a.len() && a[i] is Some ==> b[i] == a[i]
}

/// A table of all-unresolved slots counts every slot.
pub proof fn lemma_all_none_count<T>(s: Seq<Option<T>>)
    requires
        forall|i: int| 0 <= i < s.len() ==> s[i] is None,
    ensures
        count_none(s) == s.len(),
    decreases s.len(),
{
    if s.len() > 0 {
        lemma_all_none_count(s.drop_first());
    }
}

/// How many slots of a lazily-filled table are still unresolved.
pub open spec fn count_none<T>(s: Seq<Option<T>>) -> nat
    decreases s.len(),
{
    if s.len() == 0 {
        0
    } else {
        (if s[0] is None {
            1nat
        } else {
            0nat
        }) + count_none(s.drop_first())
    }
}

/// Resolving one unresolved slot lowers the count of unresolved slots by one.
pub proof fn lemma_count_none_update<T>(s: Seq<Option<T>>, i: int, v: T)
    requires
        0 <= i < s.len(),
        s[i] is None,
    ensures
        count_none(s.update(i, Some(v))) + 1 == count_none(s),
    decreases s.len(),
{
    if s.len() > 0 {
        if i == 0 {
            assert(s.update(0, Some(v)).drop_first() =~= s.drop_first());
        } else {
            assert(s.update(i, Some(v)).drop_first() =~= s.drop_first().update(i - 1, Some(v)));
            lemma_count_none_update(s.drop_first(), i - 1, v);
        }
    }
}

/// A table where every resolved slot of `s` is unchanged in `t` has no more
/// unresolved slots than... the other way round: `t` resolves at least what
/// `s` resolves, so `t` counts no more unresolved slots.
pub proof fn lemma_count_none_mono<T>(s: Seq<Option<T>>, t: Seq<Option<T>>)
    requires
        s.len() == t.len(),
        forall|i: int| 0 <= i < s.len() && s[i] is Some ==> t[i] == s[i],
    ensures
        count_none(t) <= count_none(s),
    decreases s.len(),
{
    if s.len() > 0 {
        assert(forall|i: int|
            0 <= i < s.drop_first().len() && s.drop_first()[i] is Some ==> t.drop_first()[i]
                == s.drop_first()[i]);
        lemma_count_none_mono(s.drop_first(), t.drop_first());
    }
}

/// The execution context: every arena of shared objects, the interner, the
/// native side-tables and the registry of built-in classes.
pub struct Activation {
    /// Interned strings; symbol 0 is the empty string.
    pub strings: Interner,
    /// Interned namespace sets, referred to by multinames.
    pub ns_sets: Vec<Vec<Namespace>>,
    /// All loaded methods.
    pub methods: Vec<MethodData>,
    /// All loaded class descriptors.
    pub classes: Vec<Class>,
    /// All linked class objects.
    pub class_objects: Vec<ClassObjectData>,
    /// All dispatch tables.
    pub vtables: Vec<VTableData>,
    /// All loaded scripts.
    pub scripts: Vec<ScriptData>,
    /// All translation units.
    pub units: Vec<TranslationUnitData>,
    /// All domains.
    pub domains: Vec<DomainData>,
    /// All plain objects.
    pub objects: Vec<ObjectData>,
    /// Native method bodies by archive method index, consulted only when
    /// loading into the global domain.
    pub native_method_table: Vec<Option<NativeMethod>>,
    /// Native instance allocators by archive class index.
    pub native_instance_allocator_table: Vec<Option<u32>>,
    /// Native instance initializer overrides by archive class index.
    pub native_instance_init_table: Vec<Option<NativeMethod>>,
    /// Native call handler overrides by archive class index.
    pub native_call_handler_table: Vec<Option<NativeMethod>>,
    /// The domain built-ins load into.
    pub global_domain: usize,
    /// Scripts whose initializer has been run, in run order.
    pub script_init_runs: Vec<usize>,
    /// The class object of the Function class, for function slot types.
    pub function_class: usize,
    /// The class object of the Class metaclass, for nested class slot types.
    pub class_class: usize,
    /// The class object every script global object is an instance of.
    pub global_class: usize,
    /// The unnamed public package namespace.
    pub public_namespace: Namespace,
}

impl Activation {
    /// The context's own invariant: the interner holds distinct strings, so
    /// symbol equality is string equality, and symbol 0 is the empty string.
    pub open spec fn wf(&self) -> bool {
        &&& self.strings.wf()
        &&& self.strings.has_sym(0)
        &&& self.strings.spec_str(0) == Seq::<u8>::empty()
    }

    /// Superclass chains go strictly downward in the class-object arena, so
    /// every chain ends; and each class object refers to a real descriptor.
    pub open spec fn class_objects_wf(&self) -> bool {
        forall|i: int|
            0 <= i < self.class_objects@.len() ==> {
                &&& (#[trigger] self.class_objects@[i]).class < self.classes@.len()
                &&& match self.class_objects@[i].superclass_object {
                    Some(j) => j < i,
                    None => true,
                }
            }
    }

    /// Read one class descriptor.
    pub fn class_at(&self, class: usize) -> (r: &Class)
        requires
            class < self.classes@.len(),
        ensures
            *r == self.classes@[class as int],
    {
        &self.classes[class]
    }

    /// A fresh context: one empty global domain, and the three built-in class
    /// objects every loader relies on — the global-object class, the Function
    /// class and the Class metaclass — each with an empty linked table.
    pub fn new() -> (r: Activation)
        ensures
            r.wf(),
            r.class_objects_wf(),
            crate::script::units_ok(r),
            r.units@.len() == 0,
            r.scripts@.len() == 0,
            r.objects@.len() == 0,
            r.script_init_runs@.len() == 0,
            r.domains@.len() == 1,
            r.global_domain == 0,
            r.classes@.len() == 3,
            r.class_objects@.len() == 3,
            r.global_class == 0,
            r.function_class == 1,
            r.class_class == 2,
            r.vtables@.len() == 3,
            forall|i: int|
                0 <= i < 3 ==> (#[trigger] r.class_objects@[i]).vtable == Some(i as usize),
            r.public_namespace == (Namespace { kind: NsKind::Package, name: 0usize }),
            r.native_method_table@.len() == 0,
            r.native_instance_allocator_table@.len() == 0,
            r.native_instance_init_table@.len() == 0,
            r.native_call_handler_table@.len() == 0,
    {
        let mut ctx = Activation {
            strings: Interner::new(),
            ns_sets: Vec::new(),
            methods: Vec::new(),
            classes: Vec::new(),
            class_objects: Vec::new(),
            vtables: Vec::new(),
            scripts: Vec::new(),
            units: Vec::new(),
            domains: Vec::new(),
            objects: Vec::new(),
            native_method_table: Vec::new(),
            native_instance_allocator_table: Vec::new(),
            native_instance_init_table: Vec::new(),
            native_call_handler_table: Vec::new(),
            global_domain: 0,
            script_init_runs: Vec::new(),
            function_class: 1,
            class_class: 2,
            global_class: 0,
            public_namespace: Namespace::public(),
        };
        ctx.domains.push(DomainData::new());
        let init = ctx.alloc_native_method(0, 0);
        let public = Namespace::public();
        let name_global = ctx.strings.intern(vstd::slice::slice_to_vec("global".as_bytes()));
        let name_function = ctx.strings.intern(vstd::slice::slice_to_vec("Function".as_bytes()));
        let name_class = ctx.strings.intern(vstd::slice::slice_to_vec("Class".as_bytes()));
        let c_global = Class::new(QName::new(public, name_global), None, init, init, &mut ctx);
        let vt_global = crate::vtable::VTable::empty(&mut ctx);
        ctx.class_objects.push(
            ClassObjectData { class: c_global, superclass_object: None, vtable: Some(vt_global.0) },
        );
        let c_function = Class::new(QName::new(public, name_function), None, init, init, &mut ctx);
        let vt_function = crate::vtable::VTable::empty(&mut ctx);
        ctx.class_objects.push(
            ClassObjectData {
                class: c_function,
                superclass_object: None,
                vtable: Some(vt_function.0),
            },
        );
        let c_class = Class::new(QName::new(public, name_class), None, init, init, &mut ctx);
        let vt_class = crate::vtable::VTable::empty(&mut ctx);
        ctx.class_objects.push(
            ClassObjectData { class: c_class, superclass_object: None, vtable: Some(vt_class.0) },
        );
        ctx
    }

    /// Allocate a native (built-in) method with an empty declared signature.
    pub fn alloc_native_method(&mut self, name: usize, native: u32) -> (r: usize)
        ensures
            final(self).methods@.len() == old(self).methods@.len() + 1,
            forall|i: int|
                0 <= i < old(self).methods@.len() ==> final(self).methods@[i] == old(
                    self,
                ).methods@[i],
            final(self).methods@[r as int].name == name,
            final(self).methods@[r as int].signature@ == Seq::<ParamConfig>::empty(),
            !final(self).methods@[r as int].is_variadic,
            final(self).methods@[r as int].body == (MethodBody::Native { native }),
            r == old(self).methods@.len(),
            *final(self) == (Activation { methods: final(self).methods, ..*old(self) }),
    {
        let r = self.methods.len();
        let signature: Vec<ParamConfig> = Vec::new();
        proof {
            assert(signature@ =~= Seq::<ParamConfig>::empty());
        }
        self.methods.push(
            MethodData { name, signature, is_variadic: false, is_function: false, body: MethodBody::Native { native } },
        );
        r
    }

    /// Allocate a native method with an explicit signature and variadic-ness,
    /// as when splicing a native body under a bytecode-declared shape.
    pub fn alloc_native_method_with_params(
        &mut self,
        name: usize,
        native: u32,
        signature: Vec<ParamConfig>,
        is_variadic: bool,
    ) -> (r: usize)
        ensures
            final(self).methods@ == old(self).methods@.push(
                MethodData {
                    name,
                    signature,
                    is_variadic,
                    is_function: false,
                    body: MethodBody::Native { native },
                },
            ),
            r == old(self).methods@.len(),
            *final(self) == (Activation { methods: final(self).methods, ..*old(self) }),
    {
        let r = self.methods.len();
        self.methods.push(
            MethodData {
                name,
                signature,
                is_variadic,
                is_function: false,
                body: MethodBody::Native { native },
            },
        );
        r
    }

    /// Allocate a fresh domain.
    pub fn alloc_domain(&mut self) -> (r: usize)
        ensures
            r == old(self).domains@.len(),
            final(self).domains@.len() == old(self).domains@.len() + 1,
            final(self).domains@[r as int].defs@ == Seq::<(QName, usize)>::empty(),
            final(self).domains@[r as int].classes@ == Seq::<(QName, usize)>::empty(),
            forall|i: int|
                0 <= i < old(self).domains@.len() ==> final(self).domains@[i] == old(
                    self,
                ).domains@[i],
            *final(self) == (Activation { domains: final(self).domains, ..*old(self) }),
    {
        let r = self.domains.len();
        self.domains.push(DomainData::new());
        r
    }

    /// Whether a domain is the one built-ins load into.
    pub fn is_global_domain(&self, domain: usize) -> (r: bool)
        ensures
            r == (domain == self.global_domain),
    {
        domain == self.global_domain
    }
}

} // verus!
