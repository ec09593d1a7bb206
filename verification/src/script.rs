//! Translation units and scripts.
//!
//! A `TranslationUnit` owns one immutable archive and lazily materializes its
//! constant-pool entries and higher-level descriptors, caching each by index
//! so repeated references resolve once: a resolved slot is never recomputed or
//! mutated. Classes and scripts use a two-phase protocol — store the bare
//! descriptor first, load its traits second — because trait bodies can refer
//! to the same or mutually recursive classes; a recursive reference then sees
//! the stored descriptor instead of retriggering a load.
//!
//! A `Script` is a top-level code unit bound to a global object and a domain;
//! it runs its initializer exactly once, the first time its globals are
//! requested.

use crate::abc::{AbcFile, AbcMultiname, AbcNamespace, AbcTraitKind};
use crate::class::Class;
use crate::context::{
    cache_monotone, count_none, none_vec, Activation, ObjectData, ScopeChain,
};
use crate::error::{Error, LoadError};
use crate::interner::Interner;
use crate::method::{MethodBody, MethodData, ParamConfig};
use crate::traits::{Trait, TraitKind};
use crate::value::{Multiname, Namespace, NsKind, NsSpec, QName};
use vstd::prelude::*;

verus! {

/// The string a constant-pool string index denotes: index 0 is the empty
/// string, index `i + 1` is entry `i`.
pub open spec fn abc_string(abc: AbcFile, sidx: u32) -> Seq<u8> {
    if sidx == 0 {
        Seq::empty()
    } else {
        abc.constant_pool.strings@[sidx - 1]@
    }
}

/// A string index is 0 or within the pool.
pub open spec fn abc_string_idx_ok(abc: AbcFile, sidx: u32) -> bool {
    sidx == 0 || sidx <= abc.constant_pool.strings@.len()
}

/// `sym` is the interned form of the pool string `sidx`.
pub open spec fn name_sym_ok(ctx: Activation, abc: AbcFile, sidx: u32, sym: usize) -> bool {
    &&& abc_string_idx_ok(abc, sidx)
    &&& ctx.strings.has_sym(sym)
    &&& ctx.strings.spec_str(sym) == abc_string(abc, sidx)
}

/// The namespace kind a pool entry declares.
pub open spec fn abc_ns_kind(e: AbcNamespace) -> NsKind {
    match e {
        AbcNamespace::Namespace { .. } => NsKind::Namespace,
        AbcNamespace::Package { .. } => NsKind::Package,
        AbcNamespace::PackageInternal { .. } => NsKind::PackageInternal,
        AbcNamespace::Protected { .. } => NsKind::Protected,
        AbcNamespace::Explicit { .. } => NsKind::Explicit,
        AbcNamespace::StaticProtected { .. } => NsKind::StaticProtected,
        AbcNamespace::Private { .. } => NsKind::Private,
    }
}

/// The string index a namespace pool entry names.
pub open spec fn abc_ns_name(e: AbcNamespace) -> u32 {
    match e {
        AbcNamespace::Namespace { name } => name,
        AbcNamespace::Package { name } => name,
        AbcNamespace::PackageInternal { name } => name,
        AbcNamespace::Protected { name } => name,
        AbcNamespace::Explicit { name } => name,
        AbcNamespace::StaticProtected { name } => name,
        AbcNamespace::Private { name } => name,
    }
}

/// `ns` is the resolved form of namespace pool entry `idx`.
pub open spec fn ns_entry_ok(ctx: Activation, abc: AbcFile, idx: u32, ns: Namespace) -> bool {
    &&& 1 <= idx <= abc.constant_pool.namespaces@.len()
    &&& ns.kind == abc_ns_kind(abc.constant_pool.namespaces@[idx - 1])
    &&& name_sym_ok(ctx, abc, abc_ns_name(abc.constant_pool.namespaces@[idx - 1]), ns.name)
}

/// `name_opt` is the resolved form of the local-name index of a multiname:
/// index 0 is the any name.
pub open spec fn name_opt_ok(ctx: Activation, abc: AbcFile, nidx: u32, name_opt: Option<usize>) -> bool {
    if nidx == 0 {
        name_opt is None
    } else {
        match name_opt {
            Some(sym) => name_sym_ok(ctx, abc, nidx, sym),
            None => false,
        }
    }
}

/// `sid` is an interned namespace set equal, entry by entry, to namespace-set
/// pool entry `set_idx`.
pub open spec fn ns_set_ok(ctx: Activation, abc: AbcFile, set_idx: u32, sid: usize) -> bool {
    &&& 1 <= set_idx <= abc.constant_pool.ns_sets@.len()
    &&& sid < ctx.ns_sets@.len()
    &&& ctx.ns_sets@[sid as int]@.len() == abc.constant_pool.ns_sets@[set_idx - 1]@.len()
    &&& forall|k: int|
        0 <= k < ctx.ns_sets@[sid as int]@.len() ==> ns_entry_ok(
            ctx,
            abc,
            abc.constant_pool.ns_sets@[set_idx - 1]@[k],
            ctx.ns_sets@[sid as int]@[k],
        )
}

/// `mn` is the resolved form of multiname pool entry `idx`: lazy flags,
/// attribute flag, local name and namespace constraint all match the entry.
pub open spec fn mn_ok(ctx: Activation, abc: AbcFile, idx: u32, mn: Multiname) -> bool {
    &&& 1 <= idx <= abc.constant_pool.multinames@.len()
    &&& match abc.constant_pool.multinames@[idx - 1] {
        AbcMultiname::QName { ns, name } => {
            &&& !mn.lazy_ns
            &&& !mn.lazy_name
            &&& !mn.attribute
            &&& mn.param is None
            &&& (mn.ns matches NsSpec::Exact(nsv) && ns_entry_ok(ctx, abc, ns, nsv))
            &&& name_opt_ok(ctx, abc, name, mn.name)
        },
        AbcMultiname::QNameA { ns, name } => {
            &&& !mn.lazy_ns
            &&& !mn.lazy_name
            &&& mn.attribute
            &&& mn.param is None
            &&& (mn.ns matches NsSpec::Exact(nsv) && ns_entry_ok(ctx, abc, ns, nsv))
            &&& name_opt_ok(ctx, abc, name, mn.name)
        },
        AbcMultiname::RTQName { name } => {
            &&& mn.lazy_ns
            &&& !mn.lazy_name
            &&& !mn.attribute
            &&& mn.ns is Any
            &&& mn.param is None
            &&& name_opt_ok(ctx, abc, name, mn.name)
        },
        AbcMultiname::RTQNameA { name } => {
            &&& mn.lazy_ns
            &&& !mn.lazy_name
            &&& mn.attribute
            &&& mn.ns is Any
            &&& mn.param is None
            &&& name_opt_ok(ctx, abc, name, mn.name)
        },
        AbcMultiname::RTQNameL => mn.lazy_ns && mn.lazy_name && mn.name is None && !mn.attribute
            && mn.ns is Any,
        AbcMultiname::RTQNameLA => mn.lazy_ns && mn.lazy_name && mn.name is None && mn.attribute
            && mn.ns is Any,
        AbcMultiname::Multiname { ns_set, name } => {
            &&& !mn.lazy_ns
            &&& !mn.lazy_name
            &&& !mn.attribute
            &&& mn.param is None
            &&& (mn.ns matches NsSpec::OneOf(sid) && ns_set_ok(ctx, abc, ns_set, sid))
            &&& name_opt_ok(ctx, abc, name, mn.name)
        },
        AbcMultiname::MultinameA { ns_set, name } => {
            &&& !mn.lazy_ns
            &&& !mn.lazy_name
            &&& mn.attribute
            &&& mn.param is None
            &&& (mn.ns matches NsSpec::OneOf(sid) && ns_set_ok(ctx, abc, ns_set, sid))
            &&& name_opt_ok(ctx, abc, name, mn.name)
        },
        AbcMultiname::MultinameL { ns_set } => {
            &&& !mn.lazy_ns
            &&& mn.lazy_name
            &&& !mn.attribute
            &&& mn.param is None
            &&& mn.name is None
            &&& (mn.ns matches NsSpec::OneOf(sid) && ns_set_ok(ctx, abc, ns_set, sid))
        },
        AbcMultiname::MultinameLA { ns_set } => {
            &&& !mn.lazy_ns
            &&& mn.lazy_name
            &&& mn.attribute
            &&& mn.param is None
            &&& mn.name is None
            &&& (mn.ns matches NsSpec::OneOf(sid) && ns_set_ok(ctx, abc, ns_set, sid))
        },
        AbcMultiname::TypeName { base, param } => {
            &&& mn.param is Some
            &&& 1 <= base <= abc.constant_pool.multinames@.len()
            &&& !(abc.constant_pool.multinames@[base - 1] is TypeName)
            &&& mn.lazy_ns == entry_lazy_ns(abc.constant_pool.multinames@[base - 1])
            &&& mn.lazy_name == entry_lazy_name(abc.constant_pool.multinames@[base - 1])
            &&& mn_err(abc, idx) is None
        },
    }
}

/// Whether resolving this entry leaves the namespace to the runtime.
pub open spec fn entry_lazy_ns(e: AbcMultiname) -> bool {
    e is RTQName || e is RTQNameA || e is RTQNameL || e is RTQNameLA
}

/// Whether resolving this entry leaves the local name to the runtime.
pub open spec fn entry_lazy_name(e: AbcMultiname) -> bool {
    e is RTQNameL || e is RTQNameLA || e is MultinameL || e is MultinameLA
}

/// The earlier of two resolution verdicts.
pub open spec fn first_err(a: Option<LoadError>, b: Option<LoadError>) -> Option<LoadError> {
    if a is Some {
        a
    } else {
        b
    }
}

/// A string pool index that cannot resolve: beyond the pool. Index 0 always
/// resolves (to the empty string or the any name, per accessor).
pub open spec fn string_err(abc: AbcFile, sidx: u32) -> bool {
    sidx > abc.constant_pool.strings@.len()
}

/// The verdict of a local-name index: a bad string index decides.
pub open spec fn name_idx_err(abc: AbcFile, nidx: u32) -> Option<LoadError> {
    if string_err(abc, nidx) {
        Some(LoadError::StringIndexInvalid { index: nidx })
    } else {
        None
    }
}

/// What resolving a namespace pool entry reports: the reserved index 0 and
/// out-of-pool indices are invalid; otherwise a bad name string index
/// decides; otherwise resolution succeeds.
pub open spec fn ns_err(abc: AbcFile, idx: u32) -> Option<LoadError> {
    if idx == 0 || idx > abc.constant_pool.namespaces@.len() {
        Some(LoadError::NamespaceIndexInvalid { index: idx })
    } else if string_err(abc, abc_ns_name(abc.constant_pool.namespaces@[idx - 1])) {
        Some(
            LoadError::StringIndexInvalid {
                index: abc_ns_name(abc.constant_pool.namespaces@[idx - 1]),
            },
        )
    } else {
        None
    }
}

/// The first unresolvable member of a namespace set, in pool order.
pub open spec fn set_member_err(abc: AbcFile, members: Seq<u32>, k: int) -> Option<LoadError>
    decreases members.len() - k when 0 <= k <= members.len()
{
    if k >= members.len() {
        None
    } else {
        match ns_err(abc, members[k]) {
            Some(e) => Some(e),
            None => set_member_err(abc, members, k + 1),
        }
    }
}

/// What resolving a namespace-set pool entry reports.
pub open spec fn ns_set_err(abc: AbcFile, set_idx: u32) -> Option<LoadError> {
    if set_idx == 0 || set_idx > abc.constant_pool.ns_sets@.len() {
        Some(LoadError::NamespaceSetIndexInvalid { index: set_idx })
    } else {
        set_member_err(abc, abc.constant_pool.ns_sets@[set_idx - 1]@, 0)
    }
}

/// What resolving a non-parameterized multiname entry reports: the reserved
/// index 0 and out-of-pool indices are invalid; a parameterized entry is
/// rejected here; otherwise the entry's namespace (or set) and local name
/// decide, in that order.
pub open spec fn mn_plain_err(abc: AbcFile, idx: u32) -> Option<LoadError> {
    if idx == 0 || idx > abc.constant_pool.multinames@.len() {
        Some(LoadError::MultinameIndexInvalid { index: idx })
    } else {
        match abc.constant_pool.multinames@[idx - 1] {
            AbcMultiname::QName { ns, name } => first_err(ns_err(abc, ns), name_idx_err(abc, name)),
            AbcMultiname::QNameA { ns, name } => first_err(
                ns_err(abc, ns),
                name_idx_err(abc, name),
            ),
            AbcMultiname::RTQName { name } => name_idx_err(abc, name),
            AbcMultiname::RTQNameA { name } => name_idx_err(abc, name),
            AbcMultiname::RTQNameL => None,
            AbcMultiname::RTQNameLA => None,
            AbcMultiname::Multiname { ns_set, name } => first_err(
                ns_set_err(abc, ns_set),
                name_idx_err(abc, name),
            ),
            AbcMultiname::MultinameA { ns_set, name } => first_err(
                ns_set_err(abc, ns_set),
                name_idx_err(abc, name),
            ),
            AbcMultiname::MultinameL { ns_set } => ns_set_err(abc, ns_set),
            AbcMultiname::MultinameLA { ns_set } => ns_set_err(abc, ns_set),
            AbcMultiname::TypeName { base, param } => Some(
                LoadError::MultinameNestedParameter { index: idx },
            ),
        }
    }
}

/// What resolving any multiname entry reports: a parameterized entry resolves
/// its base and its one argument, neither of which may be parameterized, and
/// the argument must be a plain qualified name with a proper local name.
pub open spec fn mn_err(abc: AbcFile, idx: u32) -> Option<LoadError> {
    if idx == 0 || idx > abc.constant_pool.multinames@.len() {
        Some(LoadError::MultinameIndexInvalid { index: idx })
    } else {
        match abc.constant_pool.multinames@[idx - 1] {
            AbcMultiname::TypeName { base, param } => {
                if base == 0 || base > abc.constant_pool.multinames@.len() || (
                abc.constant_pool.multinames@[base - 1] is TypeName) {
                    Some(LoadError::MultinameNestedParameter { index: idx })
                } else {
                    match mn_plain_err(abc, base) {
                        Some(e) => Some(e),
                        None => if param == 0 {
                            None
                        } else if param > abc.constant_pool.multinames@.len() || (
                        abc.constant_pool.multinames@[param - 1] is TypeName) {
                            Some(LoadError::MultinameNestedParameter { index: idx })
                        } else {
                            match mn_plain_err(abc, param) {
                                Some(e) => Some(e),
                                None => match abc.constant_pool.multinames@[param - 1] {
                                    AbcMultiname::QName { ns, name } => if name == 0 {
                                        Some(LoadError::MultinameNestedParameter { index: idx })
                                    } else {
                                        None
                                    },
                                    AbcMultiname::QNameA { ns, name } => if name == 0 {
                                        Some(LoadError::MultinameNestedParameter { index: idx })
                                    } else {
                                        None
                                    },
                                    _ => Some(LoadError::MultinameNestedParameter { index: idx }),
                                },
                            }
                        },
                    }
                }
            },
            _ => mn_plain_err(abc, idx),
        }
    }
}

/// Whether the resolved form of an entry (whose resolution succeeds) carries
/// a runtime component.
pub open spec fn entry_lazy(abc: AbcFile, idx: u32) -> bool {
    match abc.constant_pool.multinames@[idx - 1] {
        AbcMultiname::TypeName { base, param } => entry_lazy_ns(
            abc.constant_pool.multinames@[base - 1],
        ) || entry_lazy_name(abc.constant_pool.multinames@[base - 1]),
        e => entry_lazy_ns(e) || entry_lazy_name(e),
    }
}

/// What a static-name accessor reports: a resolution error, or the
/// not-static rejection of a runtime component.
pub open spec fn mn_static_err(abc: AbcFile, idx: u32) -> Option<LoadError> {
    match mn_err(abc, idx) {
        Some(e) => Some(e),
        None => if entry_lazy(abc, idx) {
            Some(LoadError::MultinameNotStatic { index: idx })
        } else {
            None
        },
    }
}

/// What resolving an entry as a plain qualified name reports: a static
/// resolution error, or the rejection of any entry that is not a plain
/// (possibly attribute) qualified name.
pub open spec fn qname_err(abc: AbcFile, idx: u32) -> Option<LoadError> {
    match mn_static_err(abc, idx) {
        Some(e) => Some(e),
        None => match abc.constant_pool.multinames@[idx - 1] {
            AbcMultiname::QName { ns, name } => None,
            AbcMultiname::QNameA { ns, name } => None,
            _ => Some(LoadError::TraitNameInvalid { index: idx }),
        },
    }
}

/// What resolving a literal default value reports.
pub open spec fn default_err(abc: AbcFile, v: Option<crate::abc::AbcDefaultValue>) -> Option<
    LoadError,
> {
    match v {
        Some(crate::abc::AbcDefaultValue::StringIdx(si)) => name_idx_err(abc, si),
        Some(crate::abc::AbcDefaultValue::NamespaceIdx(ni)) => ns_err(abc, ni),
        _ => None,
    }
}

/// What loading a method descriptor reports: an out-of-table index, or a bad
/// name string index.
pub open spec fn method_err(abc: AbcFile, idx: u32) -> Option<LoadError> {
    if idx >= abc.methods@.len() {
        Some(LoadError::MethodIndexInvalid { index: idx })
    } else {
        name_idx_err(abc, abc.methods@[idx as int].name)
    }
}

/// What loading one declared trait reports, short of following a nested
/// class reference: its name, declared type, default value and method or
/// class indices decide, in loading order.
pub open spec fn trait_shallow_err(abc: AbcFile, e: crate::abc::AbcTrait) -> Option<LoadError> {
    match qname_err(abc, e.name) {
        Some(er) => Some(er),
        None => match e.kind {
            AbcTraitKind::Slot { slot_id, declared_type, value } => first_err(
                if declared_type == 0 {
                    None
                } else {
                    mn_static_err(abc, declared_type)
                },
                default_err(abc, value),
            ),
            AbcTraitKind::Const { slot_id, declared_type, value } => first_err(
                if declared_type == 0 {
                    None
                } else {
                    mn_static_err(abc, declared_type)
                },
                default_err(abc, value),
            ),
            AbcTraitKind::Method { disp_id, method } => method_err(abc, method),
            AbcTraitKind::Getter { disp_id, method } => method_err(abc, method),
            AbcTraitKind::Setter { disp_id, method } => method_err(abc, method),
            AbcTraitKind::Function { slot_id, function } => method_err(abc, function),
            AbcTraitKind::Class { slot_id, class } => if class as int >= abc.classes@.len() {
                Some(LoadError::ClassIndexInvalid { index: class })
            } else {
                None
            },
        },
    }
}

/// Every trait of the list resolves shallowly, and each nested class it
/// names is already loaded (or is the class at `own`, which the two-phase
/// protocol stores before its traits load): the condition under which
/// loading the whole list is owed to succeed.
pub open spec fn traits_loadable(d: TranslationUnitData, ts: Seq<crate::abc::AbcTrait>, own: int) -> bool {
    forall|k: int|
        0 <= k < ts.len() ==> trait_shallow_err(d.abc, #[trigger] ts[k]) is None && (
        ts[k].kind matches AbcTraitKind::Class { class, .. } ==> (d.classes@[class as int] is Some
            || class as int == own))
}

/// What constructing a class descriptor from its archive entry reports: the
/// class and instance entries must exist; then the name, superclass name,
/// protected namespace, interfaces and the two initializers decide, in
/// loading order.
pub open spec fn class_entry_err(abc: AbcFile, idx: u32) -> Option<LoadError> {
    if idx as int >= abc.classes@.len() {
        Some(LoadError::ClassIndexInvalid { index: idx })
    } else if idx as int >= abc.instances@.len() {
        Some(LoadError::InstanceIndexInvalid { index: idx })
    } else {
        let inst = abc.instances@[idx as int];
        let cls = abc.classes@[idx as int];
        first_err(
            qname_err(abc, inst.name),
            first_err(
                if inst.super_name == 0 {
                    None
                } else {
                    mn_static_err(abc, inst.super_name)
                },
                first_err(
                    match inst.protected_namespace {
                        Some(p) => ns_err(abc, p),
                        None => None,
                    },
                    first_err(
                        iface_err(abc, inst.interfaces@, 0),
                        first_err(
                            method_err(abc, inst.init_method),
                            method_err(abc, cls.init_method),
                        ),
                    ),
                ),
            ),
        )
    }
}

/// The first unresolvable interface name, in declaration order.
pub open spec fn iface_err(abc: AbcFile, ifaces: Seq<u32>, k: int) -> Option<LoadError>
    decreases ifaces.len() - k when 0 <= k <= ifaces.len()
{
    if k >= ifaces.len() {
        None
    } else {
        match mn_static_err(abc, ifaces[k]) {
            Some(e) => Some(e),
            None => iface_err(abc, ifaces, k + 1),
        }
    }
}

/// What constructing a script descriptor reports: the script entry must
/// exist; then its initializer decides.
pub open spec fn script_entry_err(abc: AbcFile, idx: u32) -> Option<LoadError> {
    if idx as int >= abc.scripts@.len() {
        Some(LoadError::ScriptIndexInvalid { index: idx })
    } else {
        method_err(abc, abc.scripts@[idx as int].init_method)
    }
}

/// A cached namespace resolution leaves no resolution error to report.
pub proof fn lemma_ns_entry_ok_no_err(ctx: Activation, abc: AbcFile, idx: u32, ns: Namespace)
    requires
        ns_entry_ok(ctx, abc, idx, ns),
    ensures
        ns_err(abc, idx) is None,
{
}

/// Resolved set members leave no member error to report.
pub proof fn lemma_set_members_no_err(abc: AbcFile, members: Seq<u32>, k: int)
    requires
        0 <= k <= members.len(),
        forall|j: int| k <= j < members.len() ==> ns_err(abc, #[trigger] members[j]) is None,
    ensures
        set_member_err(abc, members, k) is None,
    decreases members.len() - k,
{
    if k < members.len() {
        lemma_set_members_no_err(abc, members, k + 1);
    }
}

/// A cached namespace-set resolution leaves no resolution error to report.
pub proof fn lemma_ns_set_ok_no_err(ctx: Activation, abc: AbcFile, set_idx: u32, sid: usize)
    requires
        ns_set_ok(ctx, abc, set_idx, sid),
    ensures
        ns_set_err(abc, set_idx) is None,
{
    let members = abc.constant_pool.ns_sets@[set_idx - 1]@;
    assert forall|j: int| 0 <= j < members.len() implies ns_err(
        abc,
        #[trigger] members[j],
    ) is None by {
        lemma_ns_entry_ok_no_err(ctx, abc, members[j], ctx.ns_sets@[sid as int]@[j]);
    }
    lemma_set_members_no_err(abc, members, 0);
}

/// A clean scan so far continues the member scan where it stands.
proof fn lemma_set_member_err_skip(abc: AbcFile, members: Seq<u32>, i: int, k: int)
    requires
        0 <= i <= k <= members.len(),
        forall|j: int| i <= j < k ==> ns_err(abc, #[trigger] members[j]) is None,
    ensures
        set_member_err(abc, members, i) == set_member_err(abc, members, k),
    decreases k - i,
{
    if i < k {
        lemma_set_member_err_skip(abc, members, i + 1, k);
    }
}

/// A clean scan so far continues the interface scan where it stands.
pub proof fn lemma_iface_err_skip(abc: AbcFile, ifaces: Seq<u32>, i: int, k: int)
    requires
        0 <= i <= k <= ifaces.len(),
        forall|j: int| i <= j < k ==> mn_static_err(abc, #[trigger] ifaces[j]) is None,
    ensures
        iface_err(abc, ifaces, i) == iface_err(abc, ifaces, k),
    decreases k - i,
{
    if i < k {
        lemma_iface_err_skip(abc, ifaces, i + 1, k);
    }
}

/// A faithful resolution carries a runtime component exactly when its entry
/// says so.
pub proof fn lemma_mn_ok_lazy(ctx: Activation, abc: AbcFile, idx: u32, mn: Multiname)
    requires
        mn_ok(ctx, abc, idx, mn),
    ensures
        mn.spec_has_lazy_component() == entry_lazy(abc, idx),
{
}

/// A cached resolution of a non-parameterized entry leaves no plain
/// resolution error to report.
pub proof fn lemma_mn_ok_no_plain_err(ctx: Activation, abc: AbcFile, idx: u32, mn: Multiname)
    requires
        mn_ok(ctx, abc, idx, mn),
        !(abc.constant_pool.multinames@[idx - 1] is TypeName),
    ensures
        mn_plain_err(abc, idx) is None,
{
    match abc.constant_pool.multinames@[idx - 1] {
        AbcMultiname::Multiname { ns_set, name } => {
            lemma_ns_set_ok_no_err(ctx, abc, ns_set, mn.ns->OneOf_0);
        },
        AbcMultiname::MultinameA { ns_set, name } => {
            lemma_ns_set_ok_no_err(ctx, abc, ns_set, mn.ns->OneOf_0);
        },
        AbcMultiname::MultinameL { ns_set } => {
            lemma_ns_set_ok_no_err(ctx, abc, ns_set, mn.ns->OneOf_0);
        },
        AbcMultiname::MultinameLA { ns_set } => {
            lemma_ns_set_ok_no_err(ctx, abc, ns_set, mn.ns->OneOf_0);
        },
        _ => {},
    }
}

/// `q` is the resolved form of multiname pool entry `idx`, which must be a
/// plain (possibly attribute) qualified name.
pub open spec fn qname_entry_ok(ctx: Activation, abc: AbcFile, idx: u32, q: QName) -> bool {
    &&& 1 <= idx <= abc.constant_pool.multinames@.len()
    &&& match abc.constant_pool.multinames@[idx - 1] {
        AbcMultiname::QName { ns, name } => ns_entry_ok(ctx, abc, ns, q.ns) && (if name == 0 {
            q.name == 0
        } else {
            name_sym_ok(ctx, abc, name, q.name)
        }),
        AbcMultiname::QNameA { ns, name } => ns_entry_ok(ctx, abc, ns, q.ns) && (if name == 0 {
            q.name == 0
        } else {
            name_sym_ok(ctx, abc, name, q.name)
        }),
        _ => false,
    }
}

/// `val` is the resolved form of a literal default value.
pub open spec fn default_matches(
    ctx: Activation,
    abc: AbcFile,
    v: Option<crate::abc::AbcDefaultValue>,
    val: crate::value::Value,
) -> bool {
    match v {
        None => val is Undefined,
        Some(av) => match av {
            crate::abc::AbcDefaultValue::Int(i) => val == crate::value::Value::Int(i),
            crate::abc::AbcDefaultValue::Uint(u) => val == crate::value::Value::Uint(u),
            crate::abc::AbcDefaultValue::NumberBits(b) => val == crate::value::Value::NumberBits(
                b,
            ),
            crate::abc::AbcDefaultValue::Bool(b) => val == crate::value::Value::Bool(b),
            crate::abc::AbcDefaultValue::Null => val is Null,
            crate::abc::AbcDefaultValue::Undefined => val is Undefined,
            crate::abc::AbcDefaultValue::StringIdx(si) => val matches crate::value::Value::StringSym(
                sym,
            ) && name_sym_ok(ctx, abc, si, sym),
            crate::abc::AbcDefaultValue::NamespaceIdx(ni) => val matches crate::value::Value::Ns(
                ns,
            ) && ns_entry_ok(ctx, abc, ni, ns),
        },
    }
}

/// `t` is the loaded form of the declared trait `e`: markers equal, name
/// resolved, kind and declared ids equal, and every loaded reference points
/// into the context's arenas.
/// A domain registry after one replace-or-append insertion, as
/// `DomainData::export_definition` and `export_class` perform it.
pub open spec fn dom_insert(s: Seq<(QName, usize)>, name: QName, v: usize) -> Seq<(QName, usize)> {
    let i = crate::context::dom_find(s, name, 0);
    if i < s.len() {
        s.update(i, (name, v))
    } else {
        s.push((name, v))
    }
}

/// The definition registry after exporting the first `n` of the traits `ts`
/// under the script `script`, starting from `defs`.
pub open spec fn defs_after(
    defs: Seq<(QName, usize)>,
    ts: Seq<Trait>,
    n: int,
    script: usize,
) -> Seq<(QName, usize)>
    decreases n,
{
    if n <= 0 {
        defs
    } else {
        dom_insert(defs_after(defs, ts, n - 1, script), ts[n - 1].spec_name(), script)
    }
}

/// The class registry after exporting the first `n` of the traits `ts`,
/// starting from `cls`: each class trait registers the class's own name,
/// read from the class arena `cs`.
pub open spec fn classes_after(
    cs: Seq<Class>,
    cls: Seq<(QName, usize)>,
    ts: Seq<Trait>,
    n: int,
) -> Seq<(QName, usize)>
    decreases n,
{
    if n <= 0 {
        cls
    } else {
        let prev = classes_after(cs, cls, ts, n - 1);
        match ts[n - 1].spec_kind() {
            TraitKind::Class { class, .. } => dom_insert(prev, cs[class as int].name, class),
            _ => prev,
        }
    }
}

/// The definition fold reads only the first `n` traits.
pub proof fn lemma_defs_after_agree(
    defs: Seq<(QName, usize)>,
    ts1: Seq<Trait>,
    ts2: Seq<Trait>,
    n: int,
    script: usize,
)
    requires
        forall|k: int| 0 <= k < n ==> ts1[k] == ts2[k],
    ensures
        defs_after(defs, ts1, n, script) == defs_after(defs, ts2, n, script),
    decreases n,
{
    if n > 0 {
        lemma_defs_after_agree(defs, ts1, ts2, n - 1, script);
    }
}

/// The class fold reads only the first `n` traits, and of the class arena
/// only the entries those traits name: a longer arena with the same prefix
/// gives the same registry.
pub proof fn lemma_classes_after_agree(
    cs1: Seq<Class>,
    cs2: Seq<Class>,
    cls: Seq<(QName, usize)>,
    ts1: Seq<Trait>,
    ts2: Seq<Trait>,
    n: int,
)
    requires
        cs1.len() <= cs2.len(),
        forall|c: int| 0 <= c < cs1.len() ==> #[trigger] cs2[c].name == cs1[c].name,
        forall|k: int| 0 <= k < n ==> ts1[k] == ts2[k],
        forall|k: int|
            0 <= k < n ==> ((#[trigger] ts1[k]).spec_kind() matches TraitKind::Class {
                class,
                ..
            } ==> class < cs1.len()),
    ensures
        classes_after(cs1, cls, ts1, n) == classes_after(cs2, cls, ts2, n),
    decreases n,
{
    if n > 0 {
        lemma_classes_after_agree(cs1, cs2, cls, ts1, ts2, n - 1);
        match ts1[n - 1].spec_kind() {
            TraitKind::Class { class, .. } => {
                assert(cs1[class as int].name == cs2[class as int].name);
            },
            _ => {},
        }
    }
}

/// Traits that match archive entries name only classes the arena holds.
pub proof fn lemma_added_class_bounds(
    ctx: Activation,
    abc: AbcFile,
    straits: Seq<crate::abc::AbcTrait>,
    added: Seq<Trait>,
    i: int,
)
    requires
        forall|k: int|
            0 <= k < i ==> trait_entry_matches(ctx, abc, straits[k], #[trigger] added[k]),
    ensures
        forall|k: int|
            0 <= k < i ==> ((#[trigger] added[k]).spec_kind() matches TraitKind::Class {
                class,
                ..
            } ==> class < ctx.classes@.len()),
{
    assert forall|k: int|
        0 <= k < i implies ((#[trigger] added[k]).spec_kind() matches TraitKind::Class {
        class,
        ..
    } ==> class < ctx.classes@.len()) by {
        match straits[k].kind {
            AbcTraitKind::Class { slot_id, class } => {},
            _ => {},
        }
    }
}

pub open spec fn trait_entry_matches(
    ctx: Activation,
    abc: AbcFile,
    e: crate::abc::AbcTrait,
    t: Trait,
) -> bool {
    &&& t.spec_is_final() == e.is_final
    &&& t.spec_is_override() == e.is_override
    &&& qname_entry_ok(ctx, abc, e.name, t.spec_name())
    &&& match e.kind {
        AbcTraitKind::Slot { slot_id, declared_type, value } => {
            &&& t.spec_kind() matches TraitKind::Slot { slot_id: s, declared_type: dt, default_value: dv, unit: un }
            &&& (t.spec_kind() matches TraitKind::Slot { slot_id: s, .. } ==> s == slot_id)
            &&& (t.spec_kind() matches TraitKind::Slot { declared_type: dt, .. } ==> (if declared_type == 0 {
                dt == Multiname::spec_any()
            } else {
                mn_ok(ctx, abc, declared_type, dt) && !dt.spec_has_lazy_component()
            }))
            &&& (t.spec_kind() matches TraitKind::Slot { default_value: dv, .. }
                ==> default_matches(ctx, abc, value, dv))
        },
        AbcTraitKind::Const { slot_id, declared_type, value } => {
            &&& t.spec_kind() matches TraitKind::Const { slot_id: s, declared_type: dt, default_value: dv, unit: un }
            &&& (t.spec_kind() matches TraitKind::Const { slot_id: s, .. } ==> s == slot_id)
            &&& (t.spec_kind() matches TraitKind::Const { declared_type: dt, .. } ==> (if declared_type == 0 {
                dt == Multiname::spec_any()
            } else {
                mn_ok(ctx, abc, declared_type, dt) && !dt.spec_has_lazy_component()
            }))
            &&& (t.spec_kind() matches TraitKind::Const { default_value: dv, .. }
                ==> default_matches(ctx, abc, value, dv))
        },
        AbcTraitKind::Method { disp_id, method } => t.spec_kind() matches TraitKind::Method {
            disp_id: d,
            method: m,
        } && d == disp_id && m < ctx.methods@.len(),
        AbcTraitKind::Getter { disp_id, method } => t.spec_kind() matches TraitKind::Getter {
            disp_id: d,
            method: m,
        } && d == disp_id && m < ctx.methods@.len(),
        AbcTraitKind::Setter { disp_id, method } => t.spec_kind() matches TraitKind::Setter {
            disp_id: d,
            method: m,
        } && d == disp_id && m < ctx.methods@.len(),
        AbcTraitKind::Class { slot_id, class } => t.spec_kind() matches TraitKind::Class {
            slot_id: s,
            class: c,
        } && s == slot_id && c < ctx.classes@.len(),
        AbcTraitKind::Function { slot_id, function } => t.spec_kind() matches TraitKind::Function {
            slot_id: s,
            function: f,
        } && s == slot_id && f < ctx.methods@.len(),
    }
}

/// A loaded trait stays a faithful resolution when the context grows.
pub proof fn lemma_trait_matches_preserved(
    a: Activation,
    b: Activation,
    abc: AbcFile,
    e: crate::abc::AbcTrait,
    t: Trait,
)
    requires
        trait_entry_matches(a, abc, e, t),
        Interner::extends(b.strings, a.strings),
        a.ns_sets@.is_prefix_of(b.ns_sets@),
        b.classes@.len() >= a.classes@.len(),
        b.methods@.len() >= a.methods@.len(),
    ensures
        trait_entry_matches(b, abc, e, t),
{
    match e.kind {
        AbcTraitKind::Slot { slot_id, declared_type, value } => {
            if declared_type != 0 {
                match t.spec_kind() {
                    TraitKind::Slot { declared_type: dt, .. } => {
                        lemma_mn_ok_preserved(a, b, abc, declared_type, dt);
                    },
                    _ => {},
                }
            }
        },
        AbcTraitKind::Const { slot_id, declared_type, value } => {
            if declared_type != 0 {
                match t.spec_kind() {
                    TraitKind::Const { declared_type: dt, .. } => {
                        lemma_mn_ok_preserved(a, b, abc, declared_type, dt);
                    },
                    _ => {},
                }
            }
        },
        _ => {},
    }
}

/// The lazily-populated state of one translation unit: the immutable archive
/// and six index-aligned tables of resolved entries.
#[derive(Clone, Debug)]
pub struct TranslationUnitData {
    /// The domain all scripts of this unit export definitions into.
    pub domain: usize,
    /// The archive's name, if the host supplied one.
    pub name: Option<usize>,
    /// The immutable archive.
    pub abc: AbcFile,
    /// Loaded classes by class index (class arena indices).
    pub classes: Vec<Option<usize>>,
    /// Loaded methods by method index (method arena indices).
    pub methods: Vec<Option<usize>>,
    /// Loaded scripts by script index (script arena indices).
    pub scripts: Vec<Option<usize>>,
    /// Interned strings by pool index; entry 0 is never filled.
    pub strings: Vec<Option<usize>>,
    /// Resolved namespaces by pool index; entry 0 is never filled.
    pub namespaces: Vec<Option<Namespace>>,
    /// Resolved multinames by pool index; entry 0 is never filled.
    pub multinames: Vec<Option<Multiname>>,
}

/// The tables are index-aligned with the archive and all cached entries are
/// faithful resolutions of their archive entries.
pub open spec fn unit_ok(ctx: Activation, d: TranslationUnitData) -> bool {
    &&& d.classes@.len() == d.abc.classes@.len()
    &&& d.methods@.len() == d.abc.methods@.len()
    &&& d.scripts@.len() == d.abc.scripts@.len()
    &&& d.strings@.len() == d.abc.constant_pool.strings@.len() + 1
    &&& d.namespaces@.len() == d.abc.constant_pool.namespaces@.len() + 1
    &&& d.multinames@.len() == d.abc.constant_pool.multinames@.len() + 1
    &&& d.strings@.len() > 0 && d.strings@[0] is None
    &&& d.namespaces@.len() > 0 && d.namespaces@[0] is None
    &&& d.multinames@.len() > 0 && d.multinames@[0] is None
    &&& d.domain < ctx.domains@.len()
    &&& forall|i: int|
        1 <= i < d.strings@.len() && d.strings@[i] is Some ==> name_sym_ok(
            ctx,
            d.abc,
            i as u32,
            (#[trigger] d.strings@[i])->Some_0,
        )
    &&& forall|i: int|
        1 <= i < d.namespaces@.len() && d.namespaces@[i] is Some ==> ns_entry_ok(
            ctx,
            d.abc,
            i as u32,
            (#[trigger] d.namespaces@[i])->Some_0,
        )
    &&& forall|i: int|
        1 <= i < d.multinames@.len() && d.multinames@[i] is Some ==> mn_ok(
            ctx,
            d.abc,
            i as u32,
            (#[trigger] d.multinames@[i])->Some_0,
        )
    &&& forall|i: int|
        0 <= i < d.classes@.len() && d.classes@[i] is Some ==> (#[trigger] d.classes@[i])->Some_0
            < ctx.classes@.len()
    &&& forall|i: int|
        0 <= i < d.methods@.len() && d.methods@[i] is Some ==> (#[trigger] d.methods@[i])->Some_0
            < ctx.methods@.len() && method_err(d.abc, i as u32) is None
    &&& forall|i: int|
        0 <= i < d.scripts@.len() && d.scripts@[i] is Some ==> (#[trigger] d.scripts@[i])->Some_0
            < ctx.scripts@.len()
}

/// Every unit of the context is internally consistent.
pub open spec fn units_ok(ctx: Activation) -> bool {
    forall|u: int| 0 <= u < ctx.units@.len() ==> unit_ok(ctx, #[trigger] ctx.units@[u])
}

/// One context extends another: the interner, the namespace-set arena and the
/// loaded-object arenas only grow, unit caches only fill in, and everything
/// else is untouched. Loading operations only ever extend the context.
pub open spec fn ctx_extends(b: Activation, a: Activation) -> bool {
    &&& Interner::extends(b.strings, a.strings)
    &&& a.ns_sets@.is_prefix_of(b.ns_sets@)
    &&& a.methods@.is_prefix_of(b.methods@)
    &&& a.scripts@.len() <= b.scripts@.len()
    &&& a.classes@.len() <= b.classes@.len()
    &&& forall|c: int|
        0 <= c < a.classes@.len() ==> #[trigger] b.classes@[c].name == a.classes@[c].name
    &&& a.class_objects@.is_prefix_of(b.class_objects@)
    &&& a.vtables@.len() <= b.vtables@.len()
    &&& a.objects@.len() <= b.objects@.len()
    &&& a.domains@.len() == b.domains@.len()
    &&& a.units@.len() == b.units@.len()
    &&& forall|u: int|
        0 <= u < a.units@.len() ==> unit_extends(#[trigger] b.units@[u], a.units@[u])
    &&& b.native_method_table@ == a.native_method_table@
    &&& b.native_instance_allocator_table@ == a.native_instance_allocator_table@
    &&& b.native_instance_init_table@ == a.native_instance_init_table@
    &&& b.native_call_handler_table@ == a.native_call_handler_table@
    &&& b.global_domain == a.global_domain
    &&& b.function_class == a.function_class
    &&& b.class_class == a.class_class
    &&& b.global_class == a.global_class
    &&& b.public_namespace == a.public_namespace
}

/// One unit state extends another: same archive, caches only fill in.
pub open spec fn unit_extends(b: TranslationUnitData, a: TranslationUnitData) -> bool {
    &&& b.domain == a.domain
    &&& b.name == a.name
    &&& b.abc == a.abc
    &&& cache_monotone(a.classes@, b.classes@)
    &&& cache_monotone(a.methods@, b.methods@)
    &&& cache_monotone(a.scripts@, b.scripts@)
    &&& cache_monotone(a.strings@, b.strings@)
    &&& cache_monotone(a.namespaces@, b.namespaces@)
    &&& cache_monotone(a.multinames@, b.multinames@)
}

/// No unit's class or script table changed.
pub open spec fn units_same_classes_scripts(b: Activation, a: Activation) -> bool {
    &&& b.units@.len() == a.units@.len()
    &&& forall|u: int|
        0 <= u < a.units@.len() ==> (#[trigger] b.units@[u]).classes@ == a.units@[u].classes@
            && b.units@[u].scripts@ == a.units@[u].scripts@
}

/// No unit's namespace table changed.
pub open spec fn units_same_ns_tables(b: Activation, a: Activation) -> bool {
    &&& b.units@.len() == a.units@.len()
    &&& forall|u: int|
        0 <= u < a.units@.len() ==> (#[trigger] b.units@[u]).namespaces@
            == a.units@[u].namespaces@
}

/// No unit's multiname table changed.
pub open spec fn units_same_mn_tables(b: Activation, a: Activation) -> bool {
    &&& b.units@.len() == a.units@.len()
    &&& forall|u: int|
        0 <= u < a.units@.len() ==> (#[trigger] b.units@[u]).multinames@
            == a.units@[u].multinames@
}

/// No unit's method table changed.
pub open spec fn units_same_method_tables(b: Activation, a: Activation) -> bool {
    &&& b.units@.len() == a.units@.len()
    &&& forall|u: int|
        0 <= u < a.units@.len() ==> (#[trigger] b.units@[u]).methods@ == a.units@[u].methods@
}

/// A handle to one translation unit in the context's arena.
#[derive(Clone, Copy, PartialEq, Eq, Structural, Debug)]
pub struct TranslationUnit(pub usize);

impl TranslationUnit {
    /// The unit state this handle points at.
    pub open spec fn data(self, ctx: Activation) -> TranslationUnitData {
        ctx.units@[self.0 as int]
    }

    pub open spec fn valid(self, ctx: Activation) -> bool {
        self.0 < ctx.units@.len()
    }

    /// Construct a new unit for an archive that will execute within the given
    /// domain, with every table unresolved.
    pub fn from_abc(
        abc: AbcFile,
        domain: usize,
        name: Option<usize>,
        activation: &mut Activation,
    ) -> (r: TranslationUnit)
        requires
            old(activation).wf(),
            units_ok(*old(activation)),
            domain < old(activation).domains@.len(),
            abc.constant_pool.strings@.len() < usize::MAX,
            abc.constant_pool.namespaces@.len() < usize::MAX,
            abc.constant_pool.multinames@.len() < usize::MAX,
        ensures
            final(activation).wf(),
            units_ok(*final(activation)),
            r.0 == old(activation).units@.len(),
            final(activation).units@.len() == old(activation).units@.len() + 1,
            forall|i: int|
                0 <= i < old(activation).units@.len() ==> final(activation).units@[i] == old(activation).units@[i],
            ({
                let d = r.data(*final(activation));
                &&& d.domain == domain
                &&& d.name == name
                &&& d.abc == abc
                &&& count_none(d.classes@) == d.classes@.len()
                &&& count_none(d.scripts@) == d.scripts@.len()
                &&& forall|i: int| 0 <= i < d.classes@.len() ==> d.classes@[i] is None
                &&& forall|i: int| 0 <= i < d.scripts@.len() ==> d.scripts@[i] is None
                &&& forall|i: int| 0 <= i < d.methods@.len() ==> d.methods@[i] is None
            }),
            *final(activation) == (Activation {
                units: final(activation).units,
                ..*old(activation)
            }),
    {
        let classes = none_vec(abc.classes.len());
        let methods = none_vec(abc.methods.len());
        let scripts = none_vec(abc.scripts.len());
        let strings = none_vec(abc.constant_pool.strings.len() + 1);
        let namespaces = none_vec(abc.constant_pool.namespaces.len() + 1);
        let multinames = none_vec(abc.constant_pool.multinames.len() + 1);
        let r = TranslationUnit(activation.units.len());
        let d = TranslationUnitData {
            domain,
            name,
            abc,
            classes,
            methods,
            scripts,
            strings,
            namespaces,
            multinames,
        };
        proof {
            crate::context::lemma_all_none_count(d.classes@);
            crate::context::lemma_all_none_count(d.scripts@);
        }
        activation.units.push(d);
        proof {
            assert forall|u: int| 0 <= u < final(activation).units@.len() implies unit_ok(
                *final(activation),
                #[trigger] final(activation).units@[u],
            ) by {
                if u < old(activation).units@.len() {
                    assert(unit_ok(*old(activation), old(activation).units@[u]));
                }
            }
        }
        r
    }

    /// The domain this unit's scripts export definitions into.
    pub fn domain(self, activation: &Activation) -> (r: usize)
        requires
            self.valid(*activation),
        ensures
            r == self.data(*activation).domain,
    {
        activation.units[self.0].domain
    }

    /// The archive's name, if the host supplied one.
    pub fn name(self, activation: &Activation) -> (r: Option<usize>)
        requires
            self.valid(*activation),
        ensures
            r == self.data(*activation).name,
    {
        activation.units[self.0].name
    }

    /// A script already loaded at an index, if any.
    pub fn get_script(self, index: usize, activation: &Activation) -> (r: Option<Script>)
        requires
            self.valid(*activation),
        ensures
            ({
                let d = self.data(*activation);
                if index < d.scripts@.len() {
                    match d.scripts@[index as int] {
                        Some(s) => r == Some(Script(s)),
                        None => r is None,
                    }
                } else {
                    r is None
                }
            }),
    {
        let d = &activation.units[self.0];
        if index < d.scripts.len() {
            match d.scripts[index] {
                Some(s) => Some(Script(s)),
                None => None,
            }
        } else {
            None
        }
    }

    /// Load a string from the constant pool, yielding `None` for index 0,
    /// which callers interpret as the context demands. The resolved symbol is
    /// cached; a later call returns the cached symbol without re-resolving.
    pub fn pool_string_option(self, string_index: u32, activation: &mut Activation) -> (r: Result<
        Option<usize>,
        Error,
    >)
        requires
            old(activation).wf(),
            units_ok(*old(activation)),
            self.valid(*old(activation)),
        ensures
            final(activation).wf(),
            units_ok(*final(activation)),
            self.valid(*final(activation)),
            ctx_extends(*final(activation), *old(activation)),
            final(activation).classes@ == old(activation).classes@,
            final(activation).scripts@ == old(activation).scripts@,
            final(activation).vtables@ == old(activation).vtables@,
            final(activation).objects@ == old(activation).objects@,
            final(activation).domains@ == old(activation).domains@,
            final(activation).methods@ == old(activation).methods@,
            units_same_classes_scripts(*final(activation), *old(activation)),
            units_same_ns_tables(*final(activation), *old(activation)),
            units_same_mn_tables(*final(activation), *old(activation)),
            units_same_method_tables(*final(activation), *old(activation)),
            ({
                let d = self.data(*old(activation));
                let abc = d.abc;
                match r {
                    Ok(None) => string_index == 0 && *final(activation) == *old(activation),
                    Ok(Some(sym)) => {
                        &&& 1 <= string_index <= abc.constant_pool.strings@.len()
                        &&& name_sym_ok(*final(activation), abc, string_index, sym)
                        &&& self.data(*final(activation)).strings@[string_index as int] == Some(sym)
                    },
                    Err(e) => {
                        &&& e == Error::Load(LoadError::StringIndexInvalid { index: string_index })
                        &&& string_index >= 1
                        &&& string_index > abc.constant_pool.strings@.len()
                        &&& *final(activation) == *old(activation)
                    },
                }
            }),
    {
        proof {
            lemma_ctx_extends_refl(*old(activation));
        }
        let u = self.0;
        let idx = string_index as usize;
        if idx < activation.units[u].strings.len() {
            if let Some(sym) = activation.units[u].strings[idx] {
                return Ok(Some(sym));
            }
        }
        if string_index == 0 {
            return Ok(None);
        }
        if idx >= activation.units[u].strings.len() {
            return Err(Error::Load(LoadError::StringIndexInvalid { index: string_index }));
        }
        let bytes = crate::context::copy_vec(
            &activation.units[u].abc.constant_pool.strings[idx - 1],
        );
        let sym = activation.strings.intern(bytes);
        let unit = &mut activation.units[u];
        unit.strings.set(idx, Some(sym));
        proof {
            let a = *old(activation);
            let b = *final(activation);
            assert(Interner::extends(b.strings, a.strings));
            assert(cache_monotone(a.units@[self.0 as int].strings@, b.units@[self.0 as int].strings@));
            assert(ctx_extends(b, a)) by {
                assert(a.ns_sets@.is_prefix_of(b.ns_sets@)) by {
                    assert(a.ns_sets@ =~= b.ns_sets@.take(a.ns_sets@.len() as int));
                }
                assert(a.methods@.is_prefix_of(b.methods@)) by {
                    assert(a.methods@ =~= b.methods@.take(a.methods@.len() as int));
                }
                assert(a.class_objects@.is_prefix_of(b.class_objects@)) by {
                    assert(a.class_objects@ =~= b.class_objects@.take(
                        a.class_objects@.len() as int,
                    ));
                }
            }
            assert(name_sym_ok(b, b.units@[self.0 as int].abc, string_index, sym));
            assert forall|uu: int| 0 <= uu < b.units@.len() implies unit_ok(
                b,
                #[trigger] b.units@[uu],
            ) by {
                lemma_unit_ok_preserved(a, b, a.units@[uu]);
                if uu != self.0 as int {
                    assert(b.units@[uu] == a.units@[uu]);
                } else {
                    lemma_unit_ok_fill_string(b, a.units@[uu], b.units@[uu], string_index, sym);
                }
            }
        }
        Ok(Some(sym))
    }

    /// Load a string from the constant pool; index 0 is the empty string
    /// (symbol 0).
    pub fn pool_string(self, string_index: u32, activation: &mut Activation) -> (r: Result<
        usize,
        Error,
    >)
        requires
            old(activation).wf(),
            units_ok(*old(activation)),
            self.valid(*old(activation)),
        ensures
            final(activation).wf(),
            units_ok(*final(activation)),
            ctx_extends(*final(activation), *old(activation)),
            final(activation).classes@ == old(activation).classes@,
            final(activation).scripts@ == old(activation).scripts@,
            final(activation).vtables@ == old(activation).vtables@,
            final(activation).objects@ == old(activation).objects@,
            final(activation).domains@ == old(activation).domains@,
            final(activation).methods@ == old(activation).methods@,
            units_same_classes_scripts(*final(activation), *old(activation)),
            units_same_ns_tables(*final(activation), *old(activation)),
            units_same_mn_tables(*final(activation), *old(activation)),
            units_same_method_tables(*final(activation), *old(activation)),
            ({
                let abc = self.data(*old(activation)).abc;
                match r {
                    Ok(sym) => {
                        &&& abc_string_idx_ok(abc, string_index)
                        &&& name_sym_ok(*final(activation), abc, string_index, sym)
                    },
                    Err(e) => {
                        &&& e == Error::Load(LoadError::StringIndexInvalid { index: string_index })
                        &&& string_index > abc.constant_pool.strings@.len()
                        &&& *final(activation) == *old(activation)
                    },
                }
            }),
    {
        let r = self.pool_string_option(string_index, activation)?;
        match r {
            Some(sym) => Ok(sym),
            None => Ok(0),
        }
    }

    /// Resolve a namespace from the constant pool; index 0 is an error. The
    /// resolved namespace is cached and never recomputed.
    pub fn pool_namespace(self, ns_index: u32, activation: &mut Activation) -> (r: Result<
        Namespace,
        Error,
    >)
        requires
            old(activation).wf(),
            units_ok(*old(activation)),
            self.valid(*old(activation)),
        ensures
            final(activation).wf(),
            units_ok(*final(activation)),
            self.valid(*final(activation)),
            ctx_extends(*final(activation), *old(activation)),
            final(activation).classes@ == old(activation).classes@,
            final(activation).scripts@ == old(activation).scripts@,
            final(activation).vtables@ == old(activation).vtables@,
            final(activation).objects@ == old(activation).objects@,
            final(activation).domains@ == old(activation).domains@,
            final(activation).methods@ == old(activation).methods@,
            units_same_classes_scripts(*final(activation), *old(activation)),
            units_same_mn_tables(*final(activation), *old(activation)),
            units_same_method_tables(*final(activation), *old(activation)),
            ({
                let d = self.data(*old(activation));
                let abc = d.abc;
                &&& (((ns_index as int) < d.namespaces@.len() && (d.namespaces@[ns_index as int]
                    matches Some(ns0) && r == Ok::<Namespace, Error>(ns0))) || !((
                ns_index as int) < d.namespaces@.len() && d.namespaces@[ns_index as int] is Some))
                &&& ((ns_index as int) < d.namespaces@.len() && d.namespaces@[ns_index as int]
                    is Some ==> *final(activation) == *old(activation))
                &&& (!((ns_index as int) < d.namespaces@.len()
                    && d.namespaces@[ns_index as int] is Some) ==> match ns_err(abc, ns_index) {
                    Some(le) => r == Err::<Namespace, Error>(Error::Load(le)) && *final(activation)
                        == *old(activation),
                    None => r is Ok,
                })
                &&& match r {
                    Ok(ns) => {
                        &&& ns_entry_ok(*final(activation), abc, ns_index, ns)
                        &&& self.data(*final(activation)).namespaces@[ns_index as int] == Some(ns)
                        &&& ns_err(abc, ns_index) is None
                    },
                    Err(e) => e is Load,
                }
            }),
    {
        proof {
            lemma_ctx_extends_refl(*old(activation));
        }
        let u = self.0;
        let idx = ns_index as usize;
        if idx < activation.units[u].namespaces.len() {
            if let Some(ns) = activation.units[u].namespaces[idx] {
                proof {
                    lemma_ns_entry_ok_no_err(
                        *old(activation),
                        self.data(*old(activation)).abc,
                        ns_index,
                        ns,
                    );
                }
                return Ok(ns);
            }
        }
        if idx == 0 || idx >= activation.units[u].namespaces.len() {
            return Err(Error::Load(LoadError::NamespaceIndexInvalid { index: ns_index }));
        }
        let entry = activation.units[u].abc.constant_pool.namespaces[idx - 1];
        let name_idx = match entry {
            AbcNamespace::Namespace { name } => name,
            AbcNamespace::Package { name } => name,
            AbcNamespace::PackageInternal { name } => name,
            AbcNamespace::Protected { name } => name,
            AbcNamespace::Explicit { name } => name,
            AbcNamespace::StaticProtected { name } => name,
            AbcNamespace::Private { name } => name,
        };
        let kind = match entry {
            AbcNamespace::Namespace { .. } => NsKind::Namespace,
            AbcNamespace::Package { .. } => NsKind::Package,
            AbcNamespace::PackageInternal { .. } => NsKind::PackageInternal,
            AbcNamespace::Protected { .. } => NsKind::Protected,
            AbcNamespace::Explicit { .. } => NsKind::Explicit,
            AbcNamespace::StaticProtected { .. } => NsKind::StaticProtected,
            AbcNamespace::Private { .. } => NsKind::Private,
        };
        let ghost mid0 = *activation;
        let name_sym = self.pool_string(name_idx, activation)?;
        let ghost mid = *activation;
        let ns = Namespace { kind, name: name_sym };
        let unit = &mut activation.units[u];
        unit.namespaces.set(idx, Some(ns));
        proof {
            let a = *old(activation);
            let b = *final(activation);
            assert(ctx_extends(b, mid)) by {
                lemma_ctx_extends_refl(mid);
            }
            lemma_ctx_extends_trans(b, mid, a);
            assert(ns_entry_ok(b, b.units@[self.0 as int].abc, ns_index, ns));
            assert forall|uu: int| 0 <= uu < b.units@.len() implies unit_ok(
                b,
                #[trigger] b.units@[uu],
            ) by {
                assert(unit_ok(mid, mid.units@[uu]));
                lemma_unit_ok_preserved(mid, b, mid.units@[uu]);
                if uu != self.0 as int {
                    assert(b.units@[uu] == mid.units@[uu]);
                } else {
                    assert(unit_ok(b, mid.units@[uu]));
                }
            }
        }
        Ok(ns)
    }

    /// Resolve a multiname that is not a parameterized name; a parameterized
    /// entry is rejected. Resolution is cached.
    fn pool_plain_multiname(self, multiname_index: u32, activation: &mut Activation) -> (r: Result<
        Multiname,
        Error,
    >)
        requires
            old(activation).wf(),
            units_ok(*old(activation)),
            self.valid(*old(activation)),
        ensures
            final(activation).wf(),
            units_ok(*final(activation)),
            self.valid(*final(activation)),
            ctx_extends(*final(activation), *old(activation)),
            final(activation).classes@ == old(activation).classes@,
            final(activation).scripts@ == old(activation).scripts@,
            final(activation).vtables@ == old(activation).vtables@,
            final(activation).objects@ == old(activation).objects@,
            final(activation).domains@ == old(activation).domains@,
            final(activation).methods@ == old(activation).methods@,
            units_same_classes_scripts(*final(activation), *old(activation)),
            units_same_method_tables(*final(activation), *old(activation)),
            ({
                let d = self.data(*old(activation));
                let abc = d.abc;
                &&& ((multiname_index as int) < d.multinames@.len()
                    && d.multinames@[multiname_index as int] is Some ==> r == Ok::<Multiname, Error>(
                    d.multinames@[multiname_index as int]->Some_0,
                ) && *final(activation) == *old(activation))
                &&& (!((multiname_index as int) < d.multinames@.len()
                    && d.multinames@[multiname_index as int] is Some) ==> match mn_plain_err(
                    abc,
                    multiname_index,
                ) {
                    Some(le) => r == Err::<Multiname, Error>(Error::Load(le)),
                    None => r is Ok,
                })
                &&& match r {
                    Ok(mn) => {
                        &&& mn_ok(*final(activation), abc, multiname_index, mn)
                        &&& self.data(*final(activation)).multinames@[multiname_index as int]
                            == Some(mn)
                    },
                    Err(e) => e is Load,
                }
            }),
    {
        proof {
            lemma_ctx_extends_refl(*old(activation));
        }
        let u = self.0;
        let idx = multiname_index as usize;
        if idx < activation.units[u].multinames.len() {
            if let Some(mn) = activation.units[u].multinames[idx] {
                return Ok(mn);
            }
        }
        if idx == 0 || idx >= activation.units[u].multinames.len() {
            return Err(Error::Load(LoadError::MultinameIndexInvalid { index: multiname_index }));
        }
        let entry = activation.units[u].abc.constant_pool.multinames[idx - 1];
        let mn: Multiname = match entry {
            AbcMultiname::QName { ns, name } => {
                let nsv = self.pool_namespace(ns, activation)?;
                let name_opt = self.pool_name_sym(name, activation)?;
                Multiname {
                    ns: NsSpec::Exact(nsv),
                    name: name_opt,
                    attribute: false,
                    lazy_ns: false,
                    lazy_name: false,
                    param: None,
                }
            },
            AbcMultiname::QNameA { ns, name } => {
                let nsv = self.pool_namespace(ns, activation)?;
                let name_opt = self.pool_name_sym(name, activation)?;
                Multiname {
                    ns: NsSpec::Exact(nsv),
                    name: name_opt,
                    attribute: true,
                    lazy_ns: false,
                    lazy_name: false,
                    param: None,
                }
            },
            AbcMultiname::RTQName { name } => {
                let name_opt = self.pool_name_sym(name, activation)?;
                Multiname {
                    ns: NsSpec::Any,
                    name: name_opt,
                    attribute: false,
                    lazy_ns: true,
                    lazy_name: false,
                    param: None,
                }
            },
            AbcMultiname::RTQNameA { name } => {
                let name_opt = self.pool_name_sym(name, activation)?;
                Multiname {
                    ns: NsSpec::Any,
                    name: name_opt,
                    attribute: true,
                    lazy_ns: true,
                    lazy_name: false,
                    param: None,
                }
            },
            AbcMultiname::RTQNameL => Multiname {
                ns: NsSpec::Any,
                name: None,
                attribute: false,
                lazy_ns: true,
                lazy_name: true,
                param: None,
            },
            AbcMultiname::RTQNameLA => Multiname {
                ns: NsSpec::Any,
                name: None,
                attribute: true,
                lazy_ns: true,
                lazy_name: true,
                param: None,
            },
            AbcMultiname::Multiname { ns_set, name } => {
                let sid = self.pool_ns_set(ns_set, activation)?;
                let name_opt = self.pool_name_sym(name, activation)?;
                Multiname {
                    ns: NsSpec::OneOf(sid),
                    name: name_opt,
                    attribute: false,
                    lazy_ns: false,
                    lazy_name: false,
                    param: None,
                }
            },
            AbcMultiname::MultinameA { ns_set, name } => {
                let sid = self.pool_ns_set(ns_set, activation)?;
                let name_opt = self.pool_name_sym(name, activation)?;
                Multiname {
                    ns: NsSpec::OneOf(sid),
                    name: name_opt,
                    attribute: true,
                    lazy_ns: false,
                    lazy_name: false,
                    param: None,
                }
            },
            AbcMultiname::MultinameL { ns_set } => {
                let sid = self.pool_ns_set(ns_set, activation)?;
                Multiname {
                    ns: NsSpec::OneOf(sid),
                    name: None,
                    attribute: false,
                    lazy_ns: false,
                    lazy_name: true,
                    param: None,
                }
            },
            AbcMultiname::MultinameLA { ns_set } => {
                let sid = self.pool_ns_set(ns_set, activation)?;
                Multiname {
                    ns: NsSpec::OneOf(sid),
                    name: None,
                    attribute: true,
                    lazy_ns: false,
                    lazy_name: true,
                    param: None,
                }
            },
            AbcMultiname::TypeName { .. } => {
                return Err(
                    Error::Load(LoadError::MultinameNestedParameter { index: multiname_index }),
                );
            },
        };
        let ghost mid = *activation;
        if let Some(cached) = activation.units[u].multinames[idx] {
            return Ok(cached);
        }
        let unit = &mut activation.units[u];
        unit.multinames.set(idx, Some(mn));
        proof {
            let a = *old(activation);
            let b = *final(activation);
            assert(ctx_extends(b, mid)) by {
                lemma_ctx_extends_refl(mid);
            }
            lemma_ctx_extends_trans(b, mid, a);
            assert(mn_ok(b, b.units@[self.0 as int].abc, multiname_index, mn));
            assert forall|uu: int| 0 <= uu < b.units@.len() implies unit_ok(
                b,
                #[trigger] b.units@[uu],
            ) by {
                assert(unit_ok(mid, mid.units@[uu]));
                lemma_unit_ok_preserved(mid, b, mid.units@[uu]);
                if uu != self.0 as int {
                    assert(b.units@[uu] == mid.units@[uu]);
                } else {
                    assert(unit_ok(b, mid.units@[uu]));
                }
            }
        }
        Ok(mn)
    }

    /// Resolve the optional local name of a multiname: index 0 is the any
    /// name.
    fn pool_name_sym(self, name_index: u32, activation: &mut Activation) -> (r: Result<
        Option<usize>,
        Error,
    >)
        requires
            old(activation).wf(),
            units_ok(*old(activation)),
            self.valid(*old(activation)),
        ensures
            final(activation).wf(),
            units_ok(*final(activation)),
            self.valid(*final(activation)),
            ctx_extends(*final(activation), *old(activation)),
            final(activation).classes@ == old(activation).classes@,
            final(activation).scripts@ == old(activation).scripts@,
            final(activation).vtables@ == old(activation).vtables@,
            final(activation).objects@ == old(activation).objects@,
            final(activation).domains@ == old(activation).domains@,
            final(activation).methods@ == old(activation).methods@,
            units_same_classes_scripts(*final(activation), *old(activation)),
            units_same_ns_tables(*final(activation), *old(activation)),
            units_same_mn_tables(*final(activation), *old(activation)),
            units_same_method_tables(*final(activation), *old(activation)),
            ({
                let abc = self.data(*old(activation)).abc;
                match r {
                    Ok(name_opt) => {
                        &&& name_opt_ok(*final(activation), abc, name_index, name_opt)
                        &&& name_idx_err(abc, name_index) is None
                    },
                    Err(e) => name_idx_err(abc, name_index) matches Some(le) && e == Error::Load(
                        le,
                    ),
                }
            }),
    {
        if name_index == 0 {
            proof {
                lemma_ctx_extends_refl(*old(activation));
            }
            return Ok(None);
        }
        let sym = self.pool_string(name_index, activation)?;
        Ok(Some(sym))
    }

    /// Resolve a namespace-set pool entry into an interned namespace set,
    /// returning its arena index.
    fn pool_ns_set(self, set_index: u32, activation: &mut Activation) -> (r: Result<usize, Error>)
        requires
            old(activation).wf(),
            units_ok(*old(activation)),
            self.valid(*old(activation)),
        ensures
            final(activation).wf(),
            units_ok(*final(activation)),
            self.valid(*final(activation)),
            ctx_extends(*final(activation), *old(activation)),
            final(activation).classes@ == old(activation).classes@,
            final(activation).scripts@ == old(activation).scripts@,
            final(activation).vtables@ == old(activation).vtables@,
            final(activation).objects@ == old(activation).objects@,
            final(activation).domains@ == old(activation).domains@,
            final(activation).methods@ == old(activation).methods@,
            units_same_classes_scripts(*final(activation), *old(activation)),
            units_same_mn_tables(*final(activation), *old(activation)),
            units_same_method_tables(*final(activation), *old(activation)),
            ({
                let abc = self.data(*old(activation)).abc;
                match r {
                    Ok(sid) => {
                        &&& ns_set_ok(*final(activation), abc, set_index, sid)
                        &&& ns_set_err(abc, set_index) is None
                    },
                    Err(e) => ns_set_err(abc, set_index) matches Some(le) && e == Error::Load(le),
                }
            }),
    {
        proof {
            lemma_ctx_extends_refl(*old(activation));
        }
        let u = self.0;
        if set_index == 0 || set_index as usize > activation.units[u].abc.constant_pool.ns_sets.len() {
            return Err(Error::Load(LoadError::NamespaceSetIndexInvalid { index: set_index }));
        }
        let pool_set = crate::context::copy_vec(
            &activation.units[u].abc.constant_pool.ns_sets[(set_index - 1) as usize],
        );
        let n = pool_set.len();
        let mut resolved: Vec<Namespace> = Vec::new();
        let ghost abc = self.data(*old(activation)).abc;
        let mut k: usize = 0;
        while k < n
            invariant
                old(activation).wf(),
                units_ok(*old(activation)),
                self.valid(*old(activation)),
                activation.wf(),
                units_ok(*activation),
                self.valid(*activation),
                ctx_extends(*activation, *old(activation)),
                activation.classes@ == old(activation).classes@,
                activation.scripts@ == old(activation).scripts@,
                activation.vtables@ == old(activation).vtables@,
                activation.objects@ == old(activation).objects@,
                activation.domains@ == old(activation).domains@,
                activation.methods@ == old(activation).methods@,
                units_same_classes_scripts(*activation, *old(activation)),
                units_same_mn_tables(*activation, *old(activation)),
                units_same_method_tables(*activation, *old(activation)),
                abc == self.data(*old(activation)).abc,
                abc == self.data(*activation).abc,
                1 <= set_index <= abc.constant_pool.ns_sets@.len(),
                n == abc.constant_pool.ns_sets@[set_index - 1]@.len(),
                pool_set@ == abc.constant_pool.ns_sets@[set_index - 1]@,
                k <= n,
                resolved@.len() == k,
                forall|j: int| 0 <= j < k ==> ns_err(abc, #[trigger] pool_set@[j]) is None,
                forall|j: int|
                    0 <= j < k ==> ns_entry_ok(
                        *activation,
                        abc,
                        pool_set@[j],
                        #[trigger] resolved@[j],
                    ),
            decreases n - k,
        {
            let ghost before = *activation;
            let ns = match self.pool_namespace(pool_set[k], activation) {
                Ok(ns) => ns,
                Err(e) => {
                    proof {
                        lemma_ctx_extends_trans(*activation, before, *old(activation));
                        lemma_set_member_err_skip(abc, pool_set@, 0, k as int);
                    }
                    return Err(e);
                },
            };
            proof {
                lemma_ctx_extends_trans(*activation, before, *old(activation));
                assert forall|j: int| 0 <= j < k implies ns_entry_ok(
                    *activation,
                    abc,
                    pool_set@[j],
                    #[trigger] resolved@[j],
                ) by {
                    assert(ns_entry_ok(before, abc, pool_set@[j], resolved@[j]));
                }
            }
            resolved.push(ns);
            k = k + 1;
        }
        let ghost mid = *activation;
        let sid = activation.ns_sets.len();
        activation.ns_sets.push(resolved);
        proof {
            let b = *final(activation);
            let a = *old(activation);
            assert(b.ns_sets@[sid as int]@.len() == abc.constant_pool.ns_sets@[set_index - 1]@.len());
            assert(ctx_extends(b, mid)) by {
                lemma_ctx_extends_refl(mid);
                assert(mid.ns_sets@.is_prefix_of(b.ns_sets@)) by {
                    assert(mid.ns_sets@ =~= b.ns_sets@.take(mid.ns_sets@.len() as int));
                }
            }
            lemma_ctx_extends_trans(b, mid, a);
            assert forall|uu: int| 0 <= uu < b.units@.len() implies unit_ok(
                b,
                #[trigger] b.units@[uu],
            ) by {
                assert(unit_ok(mid, mid.units@[uu]));
                lemma_unit_ok_preserved(mid, b, mid.units@[uu]);
            }
            lemma_set_members_no_err(abc, pool_set@, 0);
        }
        Ok(sid)
    }

    /// Resolve a multiname from the constant pool. The result can have a lazy
    /// (runtime) component; do not hand it anywhere that needs a static name.
    /// Resolution is cached; index 0 is an error.
    pub fn pool_maybe_uninitialized_multiname(
        self,
        multiname_index: u32,
        activation: &mut Activation,
    ) -> (r: Result<Multiname, Error>)
        requires
            old(activation).wf(),
            units_ok(*old(activation)),
            self.valid(*old(activation)),
        ensures
            final(activation).wf(),
            units_ok(*final(activation)),
            self.valid(*final(activation)),
            ctx_extends(*final(activation), *old(activation)),
            final(activation).classes@ == old(activation).classes@,
            final(activation).scripts@ == old(activation).scripts@,
            final(activation).vtables@ == old(activation).vtables@,
            final(activation).objects@ == old(activation).objects@,
            final(activation).domains@ == old(activation).domains@,
            final(activation).methods@ == old(activation).methods@,
            units_same_classes_scripts(*final(activation), *old(activation)),
            units_same_method_tables(*final(activation), *old(activation)),
            ({
                let d = self.data(*old(activation));
                let abc = d.abc;
                &&& ((multiname_index as int) < d.multinames@.len()
                    && d.multinames@[multiname_index as int] is Some ==> r == Ok::<Multiname, Error>(
                    d.multinames@[multiname_index as int]->Some_0,
                ) && *final(activation) == *old(activation))
                &&& (!((multiname_index as int) < d.multinames@.len()
                    && d.multinames@[multiname_index as int] is Some) ==> match mn_err(
                    abc,
                    multiname_index,
                ) {
                    Some(le) => r == Err::<Multiname, Error>(Error::Load(le)),
                    None => r is Ok,
                })
                &&& match r {
                    Ok(mn) => {
                        &&& mn_ok(*final(activation), abc, multiname_index, mn)
                        &&& self.data(*final(activation)).multinames@[multiname_index as int]
                            == Some(mn)
                        &&& mn_err(abc, multiname_index) is None
                    },
                    Err(e) => e is Load,
                }
            }),
    {
        proof {
            lemma_ctx_extends_refl(*old(activation));
        }
        let ghost a = *old(activation);
        let ghost abc = self.data(a).abc;
        let u = self.0;
        let idx = multiname_index as usize;
        if idx < activation.units[u].multinames.len() {
            if let Some(mn) = activation.units[u].multinames[idx] {
                proof {
                    if !(abc.constant_pool.multinames@[multiname_index - 1] is TypeName) {
                        lemma_mn_ok_no_plain_err(a, abc, multiname_index, mn);
                    }
                }
                return Ok(mn);
            }
        }
        if idx == 0 || idx >= activation.units[u].multinames.len() {
            return Err(Error::Load(LoadError::MultinameIndexInvalid { index: multiname_index }));
        }
        let entry = activation.units[u].abc.constant_pool.multinames[idx - 1];
        if let AbcMultiname::TypeName { base, param } = entry {
            let pool_len = activation.units[u].abc.constant_pool.multinames.len();
            if base == 0 || base as usize > pool_len {
                return Err(
                    Error::Load(LoadError::MultinameNestedParameter { index: multiname_index }),
                );
            }
            let base_is_nested = match activation.units[u].abc.constant_pool.multinames[(base
                - 1) as usize] {
                AbcMultiname::TypeName { .. } => true,
                _ => false,
            };
            if base_is_nested {
                return Err(
                    Error::Load(LoadError::MultinameNestedParameter { index: multiname_index }),
                );
            }
            let base_mn = self.pool_plain_multiname(base, activation)?;
            let ghost mid1 = *activation;
            proof {
                if a.units@[self.0 as int].multinames@[base as int] is Some {
                    lemma_mn_ok_no_plain_err(
                        a,
                        abc,
                        base,
                        a.units@[self.0 as int].multinames@[base as int]->Some_0,
                    );
                }
                assert(mn_plain_err(abc, base) is None);
            }
            let param_tp = if param == 0 {
                crate::value::TypeParam::AnyType
            } else {
                if param as usize > pool_len {
                    proof {
                        lemma_ctx_extends_trans(*activation, mid1, a);
                    }
                    return Err(
                        Error::Load(LoadError::MultinameNestedParameter { index: multiname_index }),
                    );
                }
                let param_is_nested = match activation.units[u].abc.constant_pool.multinames[(
                param - 1) as usize] {
                    AbcMultiname::TypeName { .. } => true,
                    _ => false,
                };
                if param_is_nested {
                    proof {
                        lemma_ctx_extends_trans(*activation, mid1, a);
                    }
                    return Err(
                        Error::Load(LoadError::MultinameNestedParameter { index: multiname_index }),
                    );
                }
                let ghost before_param = *activation;
                let pmn = match self.pool_plain_multiname(param, activation) {
                    Ok(pmn) => pmn,
                    Err(e) => {
                        proof {
                            lemma_ctx_extends_trans(*activation, before_param, a);
                        }
                        return Err(e);
                    },
                };
                proof {
                    lemma_ctx_extends_trans(*activation, before_param, a);
                    if before_param.units@[self.0 as int].multinames@[param as int] is Some {
                        lemma_mn_ok_no_plain_err(
                            before_param,
                            abc,
                            param,
                            before_param.units@[self.0 as int].multinames@[param as int]->Some_0,
                        );
                    }
                    assert(mn_plain_err(abc, param) is None);
                }
                let pq = match (pmn.ns, pmn.name) {
                    (NsSpec::Exact(pns), Some(pname)) => QName { ns: pns, name: pname },
                    _ => {
                        return Err(
                            Error::Load(
                                LoadError::MultinameNestedParameter { index: multiname_index },
                            ),
                        );
                    },
                };
                crate::value::TypeParam::Of(pq)
            };
            let mn = Multiname {
                ns: base_mn.ns,
                name: base_mn.name,
                attribute: base_mn.attribute,
                lazy_ns: base_mn.lazy_ns,
                lazy_name: base_mn.lazy_name,
                param: Some(param_tp),
            };
            let ghost mid = *activation;
            if let Some(cached) = activation.units[u].multinames[idx] {
                proof {
                    lemma_ctx_extends_trans(*activation, mid1, a);
                }
                return Ok(cached);
            }
            let unit = &mut activation.units[u];
            unit.multinames.set(idx, Some(mn));
            proof {
                let b = *final(activation);
                assert(ctx_extends(b, mid)) by {
                    lemma_ctx_extends_refl(mid);
                }
                lemma_ctx_extends_trans(b, mid, a);
                assert(mn_err(abc, multiname_index) is None);
                assert(mn_ok(b, b.units@[self.0 as int].abc, multiname_index, mn));
                assert forall|uu: int| 0 <= uu < b.units@.len() implies unit_ok(
                    b,
                    #[trigger] b.units@[uu],
                ) by {
                    assert(unit_ok(mid, mid.units@[uu]));
                    lemma_unit_ok_preserved(mid, b, mid.units@[uu]);
                    if uu != self.0 as int {
                        assert(b.units@[uu] == mid.units@[uu]);
                    } else {
                        assert(unit_ok(b, mid.units@[uu]));
                    }
                }
            }
            Ok(mn)
        } else {
            self.pool_plain_multiname(multiname_index, activation)
        }
    }

    /// Resolve a static (non-runtime) multiname from the constant pool: a
    /// name with a lazy component is rejected, and index 0 is an error.
    pub fn pool_multiname_static(self, multiname_index: u32, activation: &mut Activation) -> (r:
        Result<Multiname, Error>)
        requires
            old(activation).wf(),
            units_ok(*old(activation)),
            self.valid(*old(activation)),
        ensures
            final(activation).wf(),
            units_ok(*final(activation)),
            self.valid(*final(activation)),
            ctx_extends(*final(activation), *old(activation)),
            final(activation).classes@ == old(activation).classes@,
            final(activation).scripts@ == old(activation).scripts@,
            final(activation).vtables@ == old(activation).vtables@,
            final(activation).objects@ == old(activation).objects@,
            final(activation).domains@ == old(activation).domains@,
            final(activation).methods@ == old(activation).methods@,
            units_same_classes_scripts(*final(activation), *old(activation)),
            units_same_method_tables(*final(activation), *old(activation)),
            ({
                let abc = self.data(*old(activation)).abc;
                &&& (match mn_static_err(abc, multiname_index) {
                    Some(le) => r == Err::<Multiname, Error>(Error::Load(le)),
                    None => r is Ok,
                })
                &&& match r {
                    Ok(mn) => {
                        &&& mn_ok(*final(activation), abc, multiname_index, mn)
                        &&& !mn.spec_has_lazy_component()
                    },
                    Err(e) => e is Load,
                }
            }),
    {
        let ghost a = *old(activation);
        let ghost abc = self.data(a).abc;
        let mn = self.pool_maybe_uninitialized_multiname(multiname_index, activation)?;
        proof {
            lemma_mn_ok_lazy(*activation, abc, multiname_index, mn);
        }
        if mn.has_lazy_component() {
            return Err(Error::Load(LoadError::MultinameNotStatic { index: multiname_index }));
        }
        Ok(mn)
    }

    /// Resolve a static multiname from the constant pool, treating index 0 as
    /// the any-type `*`.
    pub fn pool_multiname_static_any(self, multiname_index: u32, activation: &mut Activation) -> (r:
        Result<Multiname, Error>)
        requires
            old(activation).wf(),
            units_ok(*old(activation)),
            self.valid(*old(activation)),
        ensures
            final(activation).wf(),
            units_ok(*final(activation)),
            self.valid(*final(activation)),
            ctx_extends(*final(activation), *old(activation)),
            final(activation).classes@ == old(activation).classes@,
            final(activation).scripts@ == old(activation).scripts@,
            final(activation).vtables@ == old(activation).vtables@,
            final(activation).objects@ == old(activation).objects@,
            final(activation).domains@ == old(activation).domains@,
            final(activation).methods@ == old(activation).methods@,
            units_same_classes_scripts(*final(activation), *old(activation)),
            units_same_method_tables(*final(activation), *old(activation)),
            ({
                let abc = self.data(*old(activation)).abc;
                &&& (multiname_index == 0 ==> r == Ok::<Multiname, Error>(Multiname::spec_any())
                    && *final(activation) == *old(activation))
                &&& (multiname_index != 0 ==> match mn_static_err(abc, multiname_index) {
                    Some(le) => r == Err::<Multiname, Error>(Error::Load(le)),
                    None => r is Ok,
                })
                &&& match r {
                    Ok(mn) => {
                        &&& !mn.spec_has_lazy_component()
                        &&& (multiname_index != 0 ==> mn_ok(
                            *final(activation),
                            abc,
                            multiname_index,
                            mn,
                        ))
                    },
                    Err(e) => e is Load,
                }
            }),
    {
        if multiname_index == 0 {
            proof {
                lemma_ctx_extends_refl(*old(activation));
            }
            Ok(Multiname::any())
        } else {
            self.pool_multiname_static(multiname_index, activation)
        }
    }

    /// Load a method from the archive and return its arena index, caching it
    /// by method index. When loading into the global domain, a native body
    /// from the side-table replaces the bytecode body while keeping the
    /// bytecode-declared parameter signature and variadic-ness.
    pub fn load_method(
        self,
        method_index: u32,
        is_function: bool,
        activation: &mut Activation,
    ) -> (r: Result<usize, Error>)
        requires
            old(activation).wf(),
            units_ok(*old(activation)),
            self.valid(*old(activation)),
        ensures
            final(activation).wf(),
            units_ok(*final(activation)),
            self.valid(*final(activation)),
            ctx_extends(*final(activation), *old(activation)),
            final(activation).classes@ == old(activation).classes@,
            final(activation).scripts@ == old(activation).scripts@,
            final(activation).vtables@ == old(activation).vtables@,
            final(activation).objects@ == old(activation).objects@,
            final(activation).domains@ == old(activation).domains@,
                        units_same_classes_scripts(*final(activation), *old(activation)),
            units_same_ns_tables(*final(activation), *old(activation)),
            units_same_mn_tables(*final(activation), *old(activation)),
            ({
                let d = self.data(*old(activation));
                let abc = d.abc;
                &&& ((method_index as int) < d.methods@.len()
                    && d.methods@[method_index as int] is Some ==> r == Ok::<usize, Error>(
                    d.methods@[method_index as int]->Some_0,
                ) && *final(activation) == *old(activation))
                &&& (!((method_index as int) < d.methods@.len()
                    && d.methods@[method_index as int] is Some) ==> match method_err(
                    abc,
                    method_index,
                ) {
                    Some(le) => r == Err::<usize, Error>(Error::Load(le)) && *final(activation)
                        == *old(activation),
                    None => r is Ok,
                })
                &&& match r {
                    Ok(m) => {
                        &&& m < final(activation).methods@.len()
                        &&& self.data(*final(activation)).methods@[method_index as int] == Some(m)
                        &&& (method_index as int) < abc.methods@.len()
                        &&& (d.methods@[method_index as int] == Some(m) ==> *final(activation)
                            == *old(activation))
                        &&& (d.methods@[method_index as int] is None ==> {
                            let md = final(activation).methods@[m as int];
                            let e = abc.methods@[method_index as int];
                            &&& m == old(activation).methods@.len()
                            &&& final(activation).methods@.len() == m + 1
                            &&& md.signature@.len() == e.param_types@.len()
                            &&& (forall|k: int|
                                0 <= k < md.signature@.len()
                                    ==> (#[trigger] md.signature@[k]).declared_type
                                    == e.param_types@[k])
                            &&& md.is_variadic == e.is_variadic
                            &&& md.is_function == is_function
                            &&& if d.domain == old(activation).global_domain && (method_index as int)
                                < old(activation).native_method_table@.len() && old(activation).native_method_table@[method_index as int] is Some {
                                let nm = old(activation).native_method_table@[method_index as int]->Some_0;
                                md.body == (MethodBody::Native { native: nm.native }) && md.name
                                    == nm.name
                            } else {
                                md.body == (MethodBody::Bytecode {
                                    unit: self.0,
                                    method_index,
                                }) && name_sym_ok(*final(activation), abc, e.name, md.name)
                            }
                        })
                    },
                    Err(e) => e is Load,
                }
            }),
    {
        proof {
            lemma_ctx_extends_refl(*old(activation));
        }
        let u = self.0;
        let idx = method_index as usize;
        if idx < activation.units[u].methods.len() {
            if let Some(m) = activation.units[u].methods[idx] {
                return Ok(m);
            }
        }
        if idx >= activation.units[u].methods.len() {
            return Err(Error::Load(LoadError::MethodIndexInvalid { index: method_index }));
        }
        let name_idx = activation.units[u].abc.methods[idx].name;
        let is_variadic = activation.units[u].abc.methods[idx].is_variadic;
        let param_types = crate::context::copy_vec(
            &activation.units[u].abc.methods[idx].param_types,
        );
        let bytecode_name = self.pool_string(name_idx, activation)?;
        let ghost mid = *activation;
        let mut signature: Vec<ParamConfig> = Vec::new();
        let np = param_types.len();
        let mut k: usize = 0;
        while k < np
            invariant
                np == param_types@.len(),
                k <= np,
                signature@.len() == k,
                forall|j: int|
                    0 <= j < k ==> (#[trigger] signature@[j]) == (ParamConfig {
                        param_name: 0usize,
                        declared_type: param_types@[j],
                    }),
            decreases np - k,
        {
            signature.push(ParamConfig { param_name: 0, declared_type: param_types[k] });
            k = k + 1;
        }
        let is_global = activation.units[u].domain == activation.global_domain;
        let mut name = bytecode_name;
        let mut body = MethodBody::Bytecode { unit: u, method_index };
        if is_global && idx < activation.native_method_table.len() {
            if let Some(nm) = activation.native_method_table[idx] {
                name = nm.name;
                body = MethodBody::Native { native: nm.native };
            }
        }
        let m = activation.methods.len();
        activation.methods.push(MethodData { name, signature, is_variadic, is_function, body });
        let unit = &mut activation.units[u];
        unit.methods.set(idx, Some(m));
        proof {
            let a = *old(activation);
            let b = *final(activation);
            assert(ctx_extends(b, mid)) by {
                lemma_ctx_extends_refl(mid);
                assert(mid.methods@.is_prefix_of(b.methods@)) by {
                    assert(mid.methods@ =~= b.methods@.take(mid.methods@.len() as int));
                }
            }
            lemma_ctx_extends_trans(b, mid, a);
            assert forall|uu: int| 0 <= uu < b.units@.len() implies unit_ok(
                b,
                #[trigger] b.units@[uu],
            ) by {
                assert(unit_ok(mid, mid.units@[uu]));
                lemma_unit_ok_preserved(mid, b, mid.units@[uu]);
                if uu != self.0 as int {
                    assert(b.units@[uu] == mid.units@[uu]);
                } else {
                    assert(unit_ok(b, mid.units@[uu]));
                }
            }
        }
        Ok(m)
    }

    /// Resolve a declared literal default value.
    pub fn default_value(
        self,
        v: Option<crate::abc::AbcDefaultValue>,
        activation: &mut Activation,
    ) -> (r: Result<crate::value::Value, Error>)
        requires
            old(activation).wf(),
            units_ok(*old(activation)),
            self.valid(*old(activation)),
        ensures
            final(activation).wf(),
            units_ok(*final(activation)),
            self.valid(*final(activation)),
            ctx_extends(*final(activation), *old(activation)),
            final(activation).classes@ == old(activation).classes@,
            final(activation).scripts@ == old(activation).scripts@,
            final(activation).vtables@ == old(activation).vtables@,
            final(activation).objects@ == old(activation).objects@,
            final(activation).domains@ == old(activation).domains@,
            final(activation).methods@ == old(activation).methods@,
            units_same_classes_scripts(*final(activation), *old(activation)),
            units_same_mn_tables(*final(activation), *old(activation)),
            units_same_method_tables(*final(activation), *old(activation)),
            ({
                let abc = self.data(*old(activation)).abc;
                &&& (match default_err(abc, v) {
                    Some(le) => r == Err::<crate::value::Value, Error>(Error::Load(le)),
                    None => r is Ok,
                })
                &&& match r {
                    Ok(val) => default_matches(*final(activation), abc, v, val),
                    Err(e) => e is Load,
                }
            }),
    {
        proof {
            lemma_ctx_extends_refl(*old(activation));
        }
        match v {
            None => Ok(crate::value::Value::Undefined),
            Some(av) => match av {
                crate::abc::AbcDefaultValue::Int(i) => Ok(crate::value::Value::Int(i)),
                crate::abc::AbcDefaultValue::Uint(u) => Ok(crate::value::Value::Uint(u)),
                crate::abc::AbcDefaultValue::NumberBits(b) => Ok(
                    crate::value::Value::NumberBits(b),
                ),
                crate::abc::AbcDefaultValue::Bool(b) => Ok(crate::value::Value::Bool(b)),
                crate::abc::AbcDefaultValue::Null => Ok(crate::value::Value::Null),
                crate::abc::AbcDefaultValue::Undefined => Ok(crate::value::Value::Undefined),
                crate::abc::AbcDefaultValue::StringIdx(si) => {
                    let sym = self.pool_string(si, activation)?;
                    Ok(crate::value::Value::StringSym(sym))
                },
                crate::abc::AbcDefaultValue::NamespaceIdx(ni) => {
                    let ns = self.pool_namespace(ni, activation)?;
                    Ok(crate::value::Value::Ns(ns))
                },
            },
        }
    }

    /// Load a class from the archive and return its descriptor's arena index,
    /// caching it by class index. A cached class is returned as it is, with
    /// nothing recomputed. An uncached class is constructed, stored, and only
    /// then has its traits loaded, so recursive references meet the stored
    /// bare descriptor instead of retriggering a load.
    pub fn load_class(self, class_index: u32, activation: &mut Activation) -> (r: Result<
        usize,
        Error,
    >)
        requires
            old(activation).wf(),
            units_ok(*old(activation)),
            self.valid(*old(activation)),
        ensures
            final(activation).wf(),
            units_ok(*final(activation)),
            self.valid(*final(activation)),
            ctx_extends(*final(activation), *old(activation)),
            final(activation).scripts@ == old(activation).scripts@,
            final(activation).vtables@ == old(activation).vtables@,
            final(activation).objects@ == old(activation).objects@,
            final(activation).domains@ == old(activation).domains@,
            forall|i: int|
                0 <= i < old(activation).classes@.len() ==> final(activation).classes@[i] == old(activation).classes@[i],
            ({
                let d = self.data(*old(activation));
                let abc = d.abc;
                &&& ((class_index as int) < d.classes@.len()
                    && d.classes@[class_index as int] is Some ==> r == Ok::<usize, Error>(
                    d.classes@[class_index as int]->Some_0,
                ) && *final(activation) == *old(activation))
                &&& (!((class_index as int) < d.classes@.len()
                    && d.classes@[class_index as int] is Some) ==> {
                    &&& ((class_index as int) >= d.classes@.len() ==> r == Err::<usize, Error>(
                        Error::Load(LoadError::ClassIndexInvalid { index: class_index }),
                    ))
                    &&& ((class_index as int) < d.classes@.len() && class_entry_err(
                        abc,
                        class_index,
                    ) is None && traits_loadable(
                        d,
                        abc.instances@[class_index as int].traits@,
                        class_index as int,
                    ) && traits_loadable(
                        d,
                        abc.classes@[class_index as int].traits@,
                        class_index as int,
                    ) ==> r is Ok)
                })
                &&& match r {
                    Ok(c) => {
                        &&& c < final(activation).classes@.len()
                        &&& (class_index as int) < d.classes@.len()
                        &&& self.data(*final(activation)).classes@[class_index as int] == Some(c)
                        &&& (d.classes@[class_index as int] == Some(c) ==> *final(activation)
                            == *old(activation))
                        &&& (d.classes@[class_index as int] is None ==> final(activation).classes@[c as int].traits_loaded)
                    },
                    Err(e) => e is Load,
                }
            }),
        decreases count_none(old(activation).units@[self.0 as int].classes@), 3int,
    {
        proof {
            lemma_ctx_extends_refl(*old(activation));
        }
        let u = self.0;
        let idx = class_index as usize;
        if idx < activation.units[u].classes.len() {
            if let Some(c) = activation.units[u].classes[idx] {
                return Ok(c);
            }
        }
        if idx >= activation.units[u].classes.len() {
            return Err(Error::Load(LoadError::ClassIndexInvalid { index: class_index }));
        }
        self.load_class_uncached(class_index, activation)
    }

    /// Load a class whose slot is still unresolved: construct the bare
    /// descriptor, store it, then load its traits.
    pub(crate) fn load_class_uncached(self, class_index: u32, activation: &mut Activation) -> (r:
        Result<usize, Error>)
        requires
            old(activation).wf(),
            units_ok(*old(activation)),
            self.valid(*old(activation)),
            (class_index as int) < self.data(*old(activation)).classes@.len(),
            self.data(*old(activation)).classes@[class_index as int] is None,
        ensures
            final(activation).wf(),
            units_ok(*final(activation)),
            self.valid(*final(activation)),
            ctx_extends(*final(activation), *old(activation)),
            final(activation).scripts@ == old(activation).scripts@,
            final(activation).vtables@ == old(activation).vtables@,
            final(activation).objects@ == old(activation).objects@,
            final(activation).domains@ == old(activation).domains@,
            forall|i: int|
                0 <= i < old(activation).classes@.len() ==> final(activation).classes@[i] == old(activation).classes@[i],
            ({
                let d = self.data(*old(activation));
                let abc = d.abc;
                &&& (class_entry_err(abc, class_index) is None && traits_loadable(
                    d,
                    abc.instances@[class_index as int].traits@,
                    class_index as int,
                ) && traits_loadable(
                    d,
                    abc.classes@[class_index as int].traits@,
                    class_index as int,
                ) ==> r is Ok)
                &&& match r {
                    Ok(c) => {
                        &&& c < final(activation).classes@.len()
                        &&& self.data(*final(activation)).classes@[class_index as int] == Some(c)
                        &&& final(activation).classes@[c as int].traits_loaded
                    },
                    Err(e) => e is Load,
                }
            }),
        decreases count_none(old(activation).units@[self.0 as int].classes@), 0int,
    {
        let ghost a = *old(activation);
        let u = self.0;
        let ghost spec_itraits = self.data(a).abc.instances@[class_index as int].traits@;
        let ghost spec_ctraits = self.data(a).abc.classes@[class_index as int].traits@;
        let c = match Class::from_abc_index(self, class_index, activation) {
            Ok(c) => c,
            Err(e) => {
                return Err(e);
            },
        };
        let ghost mid = *activation;
        let idx = class_index as usize;
        let unit = &mut activation.units[u];
        unit.classes.set(idx, Some(c));
        let ghost stored = *activation;
        proof {
            assert(ctx_extends(stored, mid)) by {
                lemma_ctx_extends_refl(mid);
            }
            lemma_ctx_extends_trans(stored, mid, a);
            assert forall|uu: int| 0 <= uu < stored.units@.len() implies unit_ok(
                stored,
                #[trigger] stored.units@[uu],
            ) by {
                assert(unit_ok(mid, mid.units@[uu]));
                lemma_unit_ok_preserved(mid, stored, mid.units@[uu]);
                if uu != self.0 as int {
                    assert(stored.units@[uu] == mid.units@[uu]);
                } else {
                    assert(unit_ok(stored, mid.units@[uu]));
                }
            }
            assert(mid.units@[self.0 as int].classes@ == a.units@[self.0 as int].classes@);
            crate::context::lemma_count_none_update(
                mid.units@[self.0 as int].classes@,
                idx as int,
                c,
            );
        }
        proof {
            assert(!stored.classes@[c as int].traits_loaded);
        }
        match Class::load_traits(c, self, class_index, activation) {
            Ok(()) => {
                proof {
                    lemma_ctx_extends_trans(*final(activation), stored, a);
                    assert(cache_monotone(
                        stored.units@[self.0 as int].classes@,
                        final(activation).units@[self.0 as int].classes@,
                    ));
                    assert(self.data(*final(activation)).classes@[class_index as int] == Some(c));
                    assert(final(activation).classes@[c as int].traits_loaded);
                }
                Ok(c)
            },
            Err(e) => {
                proof {
                    lemma_ctx_extends_trans(*final(activation), stored, a);
                    if class_entry_err(self.data(a).abc, class_index) is None && traits_loadable(
                        self.data(a),
                        spec_itraits,
                        class_index as int,
                    ) && traits_loadable(self.data(a), spec_ctraits, class_index as int) {
                        assert(traits_loadable(self.data(stored), spec_itraits, -1)) by {
                            assert forall|k: int|
                                0 <= k < spec_itraits.len() implies trait_shallow_err(
                                self.data(stored).abc,
                                #[trigger] spec_itraits[k],
                            ) is None && (spec_itraits[k].kind
                                matches AbcTraitKind::Class { class, .. } ==> self.data(
                                stored,
                            ).classes@[class as int] is Some) by {
                                match spec_itraits[k].kind {
                                    AbcTraitKind::Class { slot_id, class: cc } => {
                                        if cc as int != class_index as int {
                                            assert(self.data(stored).classes@[cc as int]
                                                == self.data(a).classes@[cc as int]);
                                        }
                                    },
                                    _ => {},
                                }
                            }
                        }
                        assert(traits_loadable(self.data(stored), spec_ctraits, -1)) by {
                            assert forall|k: int|
                                0 <= k < spec_ctraits.len() implies trait_shallow_err(
                                self.data(stored).abc,
                                #[trigger] spec_ctraits[k],
                            ) is None && (spec_ctraits[k].kind
                                matches AbcTraitKind::Class { class, .. } ==> self.data(
                                stored,
                            ).classes@[class as int] is Some) by {
                                match spec_ctraits[k].kind {
                                    AbcTraitKind::Class { slot_id, class: cc } => {
                                        if cc as int != class_index as int {
                                            assert(self.data(stored).classes@[cc as int]
                                                == self.data(a).classes@[cc as int]);
                                        }
                                    },
                                    _ => {},
                                }
                            }
                        }
                        assert(false);
                    }
                }
                Err(e)
            },
        }
    }
}

impl TranslationUnit {
    /// Load a script from the archive and return its handle, caching it by
    /// script index. A fresh script gets a fresh global object whose dispatch
    /// table forks the global class's table; the script is stored before its
    /// traits load, like a class.
    pub fn load_script(self, script_index: u32, activation: &mut Activation) -> (r: Result<
        Script,
        Error,
    >)
        requires
            old(activation).wf(),
            units_ok(*old(activation)),
            self.valid(*old(activation)),
            old(activation).global_class < old(activation).class_objects@.len(),
            old(activation).class_objects@[old(activation).global_class as int].vtable matches Some(
                v,
            ) && v < old(activation).vtables@.len(),
        ensures
            final(activation).wf(),
            units_ok(*final(activation)),
            self.valid(*final(activation)),
            ctx_extends(*final(activation), *old(activation)),
            ({
                let d = self.data(*old(activation));
                match r {
                    Ok(s) => {
                        &&& s.0 < final(activation).scripts@.len()
                        &&& (script_index as int) < d.scripts@.len()
                        &&& self.data(*final(activation)).scripts@[script_index as int] == Some(
                            s.0,
                        )
                        &&& (d.scripts@[script_index as int] == Some(s.0) ==> *final(activation)
                            == *old(activation))
                        &&& (d.scripts@[script_index as int] is None ==> final(activation).scripts@[s.0 as int].traits_loaded)
                    },
                    Err(e) => e is Load,
                }
            }),
        decreases count_none(old(activation).units@[self.0 as int].classes@), 3int,
    {
        proof {
            lemma_ctx_extends_refl(*old(activation));
        }
        let ghost a = *old(activation);
        let u = self.0;
        let idx = script_index as usize;
        if idx < activation.units[u].scripts.len() {
            if let Some(s) = activation.units[u].scripts[idx] {
                return Ok(Script(s));
            }
        }
        if idx >= activation.units[u].scripts.len() {
            return Err(Error::Load(LoadError::ScriptIndexInvalid { index: script_index }));
        }
        let domain = activation.units[u].domain;
        let base_vt = match activation.class_objects[activation.global_class].vtable {
            Some(v) => v,
            None => 0,
        };
        let new_vt = crate::vtable::VTable(base_vt).duplicate(activation);
        let globals_obj = activation.objects.len();
        activation.objects.push(
            ObjectData {
                instance_of: Some(activation.global_class),
                vtable: Some(new_vt.0),
                slots: Vec::new(),
                namespace: None,
                bound_method: None,
                bound_receiver: None,
                function_method: None,
                function_scope: None,
            },
        );
        let ghost m0 = *activation;
        proof {
            assert(ctx_extends(m0, a)) by {
                lemma_ctx_extends_refl(a);
                assert(a.ns_sets@.is_prefix_of(m0.ns_sets@)) by {
                    assert(a.ns_sets@ =~= m0.ns_sets@.take(a.ns_sets@.len() as int));
                }
                assert(a.methods@.is_prefix_of(m0.methods@)) by {
                    assert(a.methods@ =~= m0.methods@.take(a.methods@.len() as int));
                }
                assert(a.class_objects@.is_prefix_of(m0.class_objects@)) by {
                    assert(a.class_objects@ =~= m0.class_objects@.take(
                        a.class_objects@.len() as int,
                    ));
                }
            }
            assert forall|uu: int| 0 <= uu < m0.units@.len() implies unit_ok(
                m0,
                #[trigger] m0.units@[uu],
            ) by {
                assert(unit_ok(a, a.units@[uu]));
                lemma_unit_ok_preserved(a, m0, a.units@[uu]);
                assert(m0.units@[uu] == a.units@[uu]);
            }
        }
        let script = match Script::from_abc_index(self, script_index, globals_obj, domain, activation) {
            Ok(s) => s,
            Err(e) => {
                proof {
                    lemma_ctx_extends_trans(*activation, m0, a);
                }
                return Err(e);
            },
        };
        proof {
            lemma_ctx_extends_trans(*activation, m0, a);
        }
        let ghost mid = *activation;
        {
            let unitref = &mut activation.units[u];
            unitref.scripts.set(idx, Some(script.0));
        }
        let ghost stored = *activation;
        proof {
            assert(ctx_extends(stored, mid)) by {
                lemma_ctx_extends_refl(mid);
            }
            lemma_ctx_extends_trans(stored, mid, a);
            assert forall|uu: int| 0 <= uu < stored.units@.len() implies unit_ok(
                stored,
                #[trigger] stored.units@[uu],
            ) by {
                assert(unit_ok(mid, mid.units@[uu]));
                lemma_unit_ok_preserved(mid, stored, mid.units@[uu]);
                if uu != self.0 as int {
                    assert(stored.units@[uu] == mid.units@[uu]);
                } else {
                    assert(unit_ok(stored, mid.units@[uu]));
                }
            }
            crate::context::lemma_count_none_mono(
                a.units@[self.0 as int].classes@,
                stored.units@[self.0 as int].classes@,
            );
            assert(!stored.scripts@[script.0 as int].traits_loaded);
        }
        match script.load_traits(self, script_index, activation) {
            Ok(()) => {
                proof {
                    lemma_ctx_extends_trans(*final(activation), stored, a);
                    assert(cache_monotone(
                        stored.units@[self.0 as int].scripts@,
                        final(activation).units@[self.0 as int].scripts@,
                    ));
                    assert(self.data(*final(activation)).scripts@[script_index as int] == Some(
                        script.0,
                    ));
                }
                Ok(script)
            },
            Err(e) => {
                proof {
                    lemma_ctx_extends_trans(*final(activation), stored, a);
                    if script_entry_err(self.data(a).abc, script_index) is None && traits_loadable(
                        self.data(a),
                        self.data(a).abc.scripts@[script_index as int].traits@,
                        -1,
                    ) {
                        let sts = self.data(a).abc.scripts@[script_index as int].traits@;
                        assert(traits_loadable(self.data(stored), sts, -1)) by {
                            assert forall|k: int|
                                0 <= k < sts.len() implies trait_shallow_err(
                                self.data(stored).abc,
                                #[trigger] sts[k],
                            ) is None && (sts[k].kind matches AbcTraitKind::Class { class, .. }
                                ==> self.data(stored).classes@[class as int] is Some) by {
                                match sts[k].kind {
                                    AbcTraitKind::Class { slot_id, class: cc } => {
                                        assert(self.data(stored).classes@[cc as int] == self.data(
                                            a,
                                        ).classes@[cc as int]);
                                    },
                                    _ => {},
                                }
                            }
                        }
                        assert(false);
                    }
                }
                Err(e)
            },
        }
    }
}

/// Resolve a qualified name out of a multiname pool entry: the entry must be
/// a plain (possibly attribute) qualified name without runtime components.
/// Name index 0 resolves to the empty local name.
impl QName {
    pub fn from_abc_multiname(
        unit: TranslationUnit,
        multiname_index: u32,
        activation: &mut Activation,
    ) -> (r: Result<QName, Error>)
        requires
            old(activation).wf(),
            units_ok(*old(activation)),
            unit.valid(*old(activation)),
        ensures
            final(activation).wf(),
            units_ok(*final(activation)),
            unit.valid(*final(activation)),
            ctx_extends(*final(activation), *old(activation)),
            final(activation).classes@ == old(activation).classes@,
            final(activation).scripts@ == old(activation).scripts@,
            final(activation).vtables@ == old(activation).vtables@,
            final(activation).objects@ == old(activation).objects@,
            final(activation).domains@ == old(activation).domains@,
            final(activation).methods@ == old(activation).methods@,
            units_same_classes_scripts(*final(activation), *old(activation)),
            units_same_method_tables(*final(activation), *old(activation)),
            ({
                let abc = unit.data(*old(activation)).abc;
                &&& (match qname_err(abc, multiname_index) {
                    Some(le) => r == Err::<QName, Error>(Error::Load(le)),
                    None => r is Ok,
                })
                &&& match r {
                    Ok(q) => qname_entry_ok(*final(activation), abc, multiname_index, q),
                    Err(e) => e is Load,
                }
            }),
    {
        let ghost abc = unit.data(*old(activation)).abc;
        let mn = unit.pool_multiname_static(multiname_index, activation)?;
        match (mn.ns, mn.name, mn.param) {
            (NsSpec::Exact(ns), Some(name), None) => Ok(QName { ns, name }),
            (NsSpec::Exact(ns), None, None) => Ok(QName { ns, name: 0 }),
            _ => Err(Error::Load(LoadError::TraitNameInvalid { index: multiname_index })),
        }
    }
}

/// The loaded state of one script.
#[derive(Clone, Debug)]
pub struct ScriptData {
    /// The global object of the script (object arena index).
    pub globals: usize,
    /// The domain the script exports its definitions into.
    pub domain: usize,
    /// The initializer method (method arena index).
    pub init: usize,
    /// The script's traits, in declaration order.
    pub traits: Vec<Trait>,
    /// Whether the traits were loaded; flips false to true exactly once.
    pub traits_loaded: bool,
    /// Whether the initializer ran; flips false to true exactly once, the
    /// first time the globals are requested.
    pub initialized: bool,
    /// The unit the script was loaded from; absent for built-ins.
    pub translation_unit: Option<usize>,
}

/// A handle to one script in the context's arena.
#[derive(Clone, Copy, PartialEq, Eq, Structural, Debug)]
pub struct Script(pub usize);

impl Script {
    /// The script state this handle points at.
    pub open spec fn data(self, ctx: Activation) -> ScriptData {
        ctx.scripts@[self.0 as int]
    }

    pub open spec fn valid(self, ctx: Activation) -> bool {
        self.0 < ctx.scripts@.len()
    }

    /// Create an empty script whose initializer does nothing, for built-in
    /// globals; its traits count as loaded.
    pub fn empty_script(activation: &mut Activation, globals: usize, domain: usize) -> (r: Script)
        requires
            old(activation).wf(),
        ensures
            final(activation).wf(),
            r.0 == old(activation).scripts@.len(),
            final(activation).scripts@.len() == old(activation).scripts@.len() + 1,
            forall|i: int|
                0 <= i < old(activation).scripts@.len() ==> final(activation).scripts@[i] == old(activation).scripts@[i],
            ({
                let d = r.data(*final(activation));
                &&& d.globals == globals
                &&& d.domain == domain
                &&& d.traits@.len() == 0
                &&& d.traits_loaded
                &&& !d.initialized
                &&& d.translation_unit is None
            }),
            final(activation).methods@.len() == old(activation).methods@.len() + 1,
            forall|i: int|
                0 <= i < old(activation).methods@.len() ==> final(activation).methods@[i] == old(activation).methods@[i],
            *final(activation) == (Activation {
                scripts: final(activation).scripts,
                methods: final(activation).methods,
                ..*old(activation)
            }),
    {
        let init = activation.alloc_native_method(0, 0);
        let r = Script(activation.scripts.len());
        activation.scripts.push(
            ScriptData {
                globals,
                domain,
                init,
                traits: Vec::new(),
                traits_loaded: true,
                initialized: false,
                translation_unit: None,
            },
        );
        r
    }

    /// The entrypoint for the script: its initializer, global object and
    /// domain.
    pub fn init(self, activation: &Activation) -> (r: (usize, usize, usize))
        requires
            self.valid(*activation),
        ensures
            r.0 == self.data(*activation).init,
            r.1 == self.data(*activation).globals,
            r.2 == self.data(*activation).domain,
    {
        let d = &activation.scripts[self.0];
        (d.init, d.globals, d.domain)
    }

    pub fn domain(self, activation: &Activation) -> (r: usize)
        requires
            self.valid(*activation),
        ensures
            r == self.data(*activation).domain,
    {
        activation.scripts[self.0].domain
    }

    pub fn translation_unit(self, activation: &Activation) -> (r: Option<TranslationUnit>)
        requires
            self.valid(*activation),
        ensures
            r == match self.data(*activation).translation_unit {
                Some(u) => Some(TranslationUnit(u)),
                None => None::<TranslationUnit>,
            },
    {
        match activation.scripts[self.0].translation_unit {
            Some(u) => Some(TranslationUnit(u)),
            None => None,
        }
    }

    /// Construct a script from a translation unit and its script index: load
    /// its initializer eagerly but defer trait loading, so that a recursive
    /// reference meets the stored descriptor. The caller stores the script in
    /// the unit and calls `load_traits`.
    pub fn from_abc_index(
        unit: TranslationUnit,
        script_index: u32,
        globals: usize,
        domain: usize,
        activation: &mut Activation,
    ) -> (r: Result<Script, Error>)
        requires
            old(activation).wf(),
            units_ok(*old(activation)),
            unit.valid(*old(activation)),
        ensures
            final(activation).wf(),
            units_ok(*final(activation)),
            unit.valid(*final(activation)),
            ctx_extends(*final(activation), *old(activation)),
            final(activation).classes@ == old(activation).classes@,
            final(activation).vtables@ == old(activation).vtables@,
            final(activation).objects@ == old(activation).objects@,
            final(activation).domains@ == old(activation).domains@,
            units_same_classes_scripts(*final(activation), *old(activation)),
            ({
                let abc = unit.data(*old(activation)).abc;
                &&& (match script_entry_err(abc, script_index) {
                    Some(le) => r == Err::<Script, Error>(Error::Load(le)),
                    None => r is Ok,
                })
                &&& match r {
                    Ok(s) => {
                        &&& s.0 == old(activation).scripts@.len()
                        &&& final(activation).scripts@.len() == s.0 + 1
                        &&& (script_index as int) < abc.scripts@.len()
                        &&& ({
                            let d = s.data(*final(activation));
                            &&& d.globals == globals
                            &&& d.domain == domain
                            &&& d.traits@.len() == 0
                            &&& !d.traits_loaded
                            &&& !d.initialized
                            &&& d.translation_unit == Some(unit.0)
                            &&& d.init < final(activation).methods@.len()
                            &&& unit.data(*final(activation)).methods@[abc.scripts@[script_index as int].init_method as int]
                                == Some(d.init)
                        })
                    },
                    Err(e) => {
                        &&& e is Load
                        &&& final(activation).scripts@ == old(activation).scripts@
                    },
                }
            }),
    {
        let ghost a = *old(activation);
        let u = unit.0;
        let idx = script_index as usize;
        if idx >= activation.units[u].abc.scripts.len() {
            proof {
                lemma_ctx_extends_refl(a);
            }
            return Err(Error::Load(LoadError::ScriptIndexInvalid { index: script_index }));
        }
        let init_idx = activation.units[u].abc.scripts[idx].init_method;
        let init = unit.load_method(init_idx, false, activation)?;
        let r = Script(activation.scripts.len());
        let ghost mid = *activation;
        activation.scripts.push(
            ScriptData {
                globals,
                domain,
                init,
                traits: Vec::new(),
                traits_loaded: false,
                initialized: false,
                translation_unit: Some(u),
            },
        );
        proof {
            let b = *final(activation);
            assert(ctx_extends(b, mid)) by {
                lemma_ctx_extends_refl(mid);
            }
            lemma_ctx_extends_trans(b, mid, a);
            assert forall|uu: int| 0 <= uu < b.units@.len() implies unit_ok(
                b,
                #[trigger] b.units@[uu],
            ) by {
                assert(unit_ok(mid, mid.units@[uu]));
                lemma_unit_ok_preserved(mid, b, mid.units@[uu]);
                assert(b.units@[uu] == mid.units@[uu]);
            }
        }
        Ok(r)
    }

    /// Finish loading by reading the script's traits, after the script has
    /// been stored in the unit. Loading is idempotent: once `traits_loaded` is
    /// true, a call returns at once and appends nothing. Every loaded trait's
    /// name is exported into the owning domain as resolving to this script,
    /// and a nested class trait exports its class as well.
    pub fn load_traits(
        self,
        unit: TranslationUnit,
        script_index: u32,
        activation: &mut Activation,
    ) -> (r: Result<(), Error>)
        requires
            old(activation).wf(),
            units_ok(*old(activation)),
            unit.valid(*old(activation)),
            self.valid(*old(activation)),
            self.data(*old(activation)).domain < old(activation).domains@.len(),
        ensures
            final(activation).wf(),
            units_ok(*final(activation)),
            unit.valid(*final(activation)),
            self.valid(*final(activation)),
            ctx_extends(*final(activation), *old(activation)),
            final(activation).vtables@ == old(activation).vtables@,
            final(activation).objects@ == old(activation).objects@,
            final(activation).domains@.len() == old(activation).domains@.len(),
            forall|i: int|
                0 <= i < old(activation).domains@.len() && i != self.data(
                    *old(activation),
                ).domain as int ==> final(activation).domains@[i] == old(activation).domains@[i],
            forall|i: int|
                0 <= i < old(activation).scripts@.len() && i != self.0 as int ==> final(activation).scripts@[i] == old(activation).scripts@[i],
            r matches Err(e) ==> e is Load,
            old(activation).scripts@[self.0 as int].traits_loaded ==> r is Ok && *final(activation)
                == *old(activation),
            !old(activation).scripts@[self.0 as int].traits_loaded ==> ({
                let d = unit.data(*old(activation));
                let abc = d.abc;
                &&& ((script_index as int) >= abc.scripts@.len() ==> r == Err::<(), Error>(
                    Error::Load(LoadError::ScriptIndexInvalid { index: script_index }),
                ))
                &&& ((script_index as int) < abc.scripts@.len() && traits_loadable(
                    d,
                    abc.scripts@[script_index as int].traits@,
                    -1,
                ) ==> r is Ok)
            }),
            !old(activation).scripts@[self.0 as int].traits_loaded ==> ({
                let s0 = old(activation).scripts@[self.0 as int];
                let s1 = final(activation).scripts@[self.0 as int];
                let abc = unit.data(*old(activation)).abc;
                &&& s1.traits_loaded
                &&& s1 == (ScriptData { traits: s1.traits, traits_loaded: true, ..s0 })
                &&& s0.traits@.is_prefix_of(s1.traits@)
                &&& (r is Ok ==> {
                    &&& (script_index as int) < abc.scripts@.len()
                    &&& ({
                        let straits = abc.scripts@[script_index as int].traits@;
                        &&& s1.traits@.len() == s0.traits@.len() + straits.len()
                        &&& (forall|k: int|
                            0 <= k < straits.len() ==> trait_entry_matches(
                                *final(activation),
                                abc,
                                straits[k],
                                #[trigger] s1.traits@[s0.traits@.len() + k],
                            ))
                    })
                })
                &&& ({
                    let added = s1.traits@.skip(s0.traits@.len() as int);
                    let dm = s0.domain as int;
                    &&& final(activation).domains@[dm].defs@ == defs_after(
                        old(activation).domains@[dm].defs@,
                        added,
                        added.len() as int,
                        self.0,
                    )
                    &&& final(activation).domains@[dm].classes@ == classes_after(
                        final(activation).classes@,
                        old(activation).domains@[dm].classes@,
                        added,
                        added.len() as int,
                    )
                })
            }),
        decreases count_none(old(activation).units@[unit.0 as int].classes@), 2int,
    {
        let ghost a = *old(activation);
        let ghost abc = unit.data(a).abc;
        let ghost dom = self.data(a).domain as int;
        if activation.scripts[self.0].traits_loaded {
            proof {
                lemma_ctx_extends_refl(a);
            }
            return Ok(());
        }
        {
            let sref = &mut activation.scripts[self.0];
            sref.traits_loaded = true;
        }
        let ghost e0 = *activation;
        proof {
            lemma_ctx_extends_refl(e0);
            assert(ctx_extends(e0, a));
            assert forall|uu: int| 0 <= uu < e0.units@.len() implies unit_ok(
                e0,
                #[trigger] e0.units@[uu],
            ) by {
                assert(unit_ok(a, a.units@[uu]));
                lemma_unit_ok_preserved(a, e0, a.units@[uu]);
            }
        }
        let u = unit.0;
        let idx = script_index as usize;
        if idx >= activation.units[u].abc.scripts.len() {
            return Err(Error::Load(LoadError::ScriptIndexInvalid { index: script_index }));
        }
        let ghost base = e0.scripts@[self.0 as int].traits@;
        let n = activation.units[u].abc.scripts[idx].traits.len();
        let domain = activation.scripts[self.0].domain;
        let mut i: usize = 0;
        while i < n
            invariant
                a == *old(activation),
                !a.scripts@[self.0 as int].traits_loaded,
                a.wf(),
                units_ok(a),
                unit.valid(a),
                self.valid(a),
                domain as int == dom,
                dom == self.data(a).domain as int,
                dom < a.domains@.len(),
                activation.wf(),
                units_ok(*activation),
                unit.valid(*activation),
                self.valid(*activation),
                ctx_extends(*activation, e0),
                ctx_extends(e0, a),
                e0.scripts@.len() == a.scripts@.len(),
                self.0 < e0.scripts@.len(),
                activation.vtables@ == a.vtables@,
                activation.objects@ == a.objects@,
                activation.domains@.len() == a.domains@.len(),
                forall|j: int|
                    0 <= j < a.domains@.len() && j != dom ==> activation.domains@[j]
                        == a.domains@[j],
                forall|j: int|
                    0 <= j < e0.scripts@.len() && j != self.0 as int ==> activation.scripts@[j]
                        == e0.scripts@[j],
                e0 == (Activation { scripts: e0.scripts, ..a }),
                e0.scripts@ == a.scripts@.update(
                    self.0 as int,
                    (ScriptData { traits_loaded: true, ..a.scripts@[self.0 as int] }),
                ),
                u == unit.0,
                idx == script_index as int,
                abc == unit.data(a).abc,
                abc == unit.data(*activation).abc,
                (script_index as int) < abc.scripts@.len(),
                base == a.scripts@[self.0 as int].traits@,
                n == abc.scripts@[script_index as int].traits@.len(),
                i <= n,
                ({
                    let ss = activation.scripts@[self.0 as int];
                    &&& ss == (ScriptData { traits: ss.traits, ..e0.scripts@[self.0 as int] })
                    &&& ss.traits@.len() == base.len() + i
                    &&& base.is_prefix_of(ss.traits@)
                    &&& (forall|k: int|
                        0 <= k < i ==> trait_entry_matches(
                            *activation,
                            abc,
                            abc.scripts@[script_index as int].traits@[k],
                            #[trigger] ss.traits@[base.len() + k],
                        ))
                    &&& ({
                        let added = ss.traits@.skip(base.len() as int);
                        &&& activation.domains@[dom].defs@ == defs_after(
                            a.domains@[dom].defs@,
                            added,
                            i as int,
                            self.0,
                        )
                        &&& activation.domains@[dom].classes@ == classes_after(
                            activation.classes@,
                            a.domains@[dom].classes@,
                            added,
                            i as int,
                        )
                    })
                }),
            decreases n - i,
        {
            let entry = activation.units[u].abc.scripts[idx].traits[i];
            let ghost before = *activation;
            proof {
                crate::context::lemma_count_none_mono(
                    a.units@[u as int].classes@,
                    before.units@[u as int].classes@,
                );
            }
            let t = match Trait::from_abc_trait(unit, entry, activation) {
                Ok(t) => t,
                Err(e) => {
                    proof {
                        lemma_ctx_extends_trans(*activation, before, e0);
                        lemma_ctx_extends_trans(*activation, e0, a);
                        assert(base.is_prefix_of(activation.scripts@[self.0 as int].traits@));
                        assert forall|jj: int|
                            0 <= jj < a.scripts@.len() && jj != self.0 as int
                            implies activation.scripts@[jj] == a.scripts@[jj] by {
                            assert(activation.scripts@[jj] == before.scripts@[jj]);
                            assert(before.scripts@[jj] == e0.scripts@[jj]);
                        }
                        let added_b = before.scripts@[self.0 as int].traits@.skip(
                            base.len() as int,
                        );
                        assert(activation.scripts@[self.0 as int] == before.scripts@[self.0 as int]);
                        assert(added_b.len() == i as int);
                        assert forall|k: int| 0 <= k < i implies trait_entry_matches(
                            before,
                            abc,
                            abc.scripts@[script_index as int].traits@[k],
                            #[trigger] added_b[k],
                        ) by {
                            assert(added_b[k] == before.scripts@[self.0 as int].traits@[base.len()
                                + k]);
                        }
                        lemma_added_class_bounds(
                            before,
                            abc,
                            abc.scripts@[script_index as int].traits@,
                            added_b,
                            i as int,
                        );
                        lemma_classes_after_agree(
                            before.classes@,
                            activation.classes@,
                            a.domains@[dom].classes@,
                            added_b,
                            added_b,
                            i as int,
                        );
                        if traits_loadable(
                            unit.data(a),
                            abc.scripts@[script_index as int].traits@,
                            -1,
                        ) {
                            match entry.kind {
                                AbcTraitKind::Class { slot_id, class: cc } => {
                                    assert(unit.data(a).classes@[cc as int] is Some);
                                    assert(unit.data(before).classes@[cc as int] == unit.data(
                                        a,
                                    ).classes@[cc as int]);
                                },
                                _ => {},
                            }
                            assert(false);
                        }
                    }
                    return Err(e);
                },
            };
            proof {
                lemma_ctx_extends_trans(*activation, before, e0);
            }
            let ghost m1 = *activation;
            proof {
                assert(m1.domains@[dom] == before.domains@[dom]);
                assert(m1.scripts@[self.0 as int] == before.scripts@[self.0 as int]);
                let added_b = before.scripts@[self.0 as int].traits@.skip(base.len() as int);
                assert(added_b.len() == i as int);
                assert forall|k: int| 0 <= k < i implies trait_entry_matches(
                    before,
                    abc,
                    abc.scripts@[script_index as int].traits@[k],
                    #[trigger] added_b[k],
                ) by {
                    assert(added_b[k] == before.scripts@[self.0 as int].traits@[base.len() + k]);
                }
                lemma_added_class_bounds(
                    before,
                    abc,
                    abc.scripts@[script_index as int].traits@,
                    added_b,
                    i as int,
                );
                lemma_classes_after_agree(
                    before.classes@,
                    m1.classes@,
                    a.domains@[dom].classes@,
                    added_b,
                    added_b,
                    i as int,
                );
                assert(m1.domains@[dom].classes@ == classes_after(
                    m1.classes@,
                    a.domains@[dom].classes@,
                    added_b,
                    i as int,
                ));
            }
            {
                let dref = &mut activation.domains[domain];
                dref.export_definition(t.name(), self.0);
            }
            let ghost m1b = *activation;
            if let crate::traits::TraitKind::Class { class, .. } = *t.kind() {
                let cname = activation.classes[class].name;
                let dref = &mut activation.domains[domain];
                dref.export_class(cname, class);
            }
            let ghost m2 = *activation;
            proof {
                assert(m1b.domains@[dom].defs@ == dom_insert(
                    m1.domains@[dom].defs@,
                    t.spec_name(),
                    self.0,
                ));
                assert(m1b.domains@[dom].classes@ == m1.domains@[dom].classes@);
                assert(m2.classes@ == m1.classes@);
                match t.spec_kind() {
                    TraitKind::Class { class, .. } => {
                        assert(m2.domains@[dom].classes@ == dom_insert(
                            m1b.domains@[dom].classes@,
                            m2.classes@[class as int].name,
                            class,
                        ));
                        assert(m2.domains@[dom].defs@ == m1b.domains@[dom].defs@);
                    },
                    _ => {
                        assert(m2.domains@[dom] == m1b.domains@[dom]);
                    },
                }
                assert(ctx_extends(m2, m1)) by {
                    lemma_ctx_extends_refl(m1);
                }
                lemma_ctx_extends_trans(m2, m1, e0);
                assert forall|uu: int| 0 <= uu < m2.units@.len() implies unit_ok(
                    m2,
                    #[trigger] m2.units@[uu],
                ) by {
                    assert(unit_ok(m1, m1.units@[uu]));
                    lemma_unit_ok_preserved(m1, m2, m1.units@[uu]);
                    assert(m2.units@[uu] == m1.units@[uu]);
                }
            }
            {
                let sref = &mut activation.scripts[self.0];
                sref.traits.push(t);
            }
            proof {
                let cur = *activation;
                assert(ctx_extends(cur, m2)) by {
                    lemma_ctx_extends_refl(m2);
                }
                lemma_ctx_extends_trans(cur, m2, e0);
                assert forall|uu: int| 0 <= uu < cur.units@.len() implies unit_ok(
                    cur,
                    #[trigger] cur.units@[uu],
                ) by {
                    assert(unit_ok(m2, m2.units@[uu]));
                    lemma_unit_ok_preserved(m2, cur, m2.units@[uu]);
                    assert(cur.units@[uu] == m2.units@[uu]);
                }
                assert forall|k: int| 0 <= k < i + 1 implies trait_entry_matches(
                    cur,
                    abc,
                    abc.scripts@[script_index as int].traits@[k],
                    #[trigger] cur.scripts@[self.0 as int].traits@[base.len() + k],
                ) by {
                    if k < i {
                        lemma_trait_matches_preserved(
                            before,
                            cur,
                            abc,
                            abc.scripts@[script_index as int].traits@[k],
                            before.scripts@[self.0 as int].traits@[base.len() + k],
                        );
                    } else {
                        lemma_trait_matches_preserved(m1, cur, abc, entry, t);
                    }
                }
                let added_new = cur.scripts@[self.0 as int].traits@.skip(base.len() as int);
                let added_old = before.scripts@[self.0 as int].traits@.skip(base.len() as int);
                assert(m2.scripts@[self.0 as int] == m1.scripts@[self.0 as int]);
                assert(m1.scripts@[self.0 as int] == before.scripts@[self.0 as int]);
                assert(cur.scripts@[self.0 as int].traits@ == m2.scripts@[self.0 as
                    int].traits@.push(t));
                assert(added_new =~= added_old.push(t));
                assert(added_new.len() == i + 1);
                assert(added_new[i as int] == t);
                lemma_defs_after_agree(
                    a.domains@[dom].defs@,
                    added_new,
                    added_old,
                    i as int,
                    self.0,
                );
                assert(defs_after(a.domains@[dom].defs@, added_new, i as int, self.0)
                    == m1.domains@[dom].defs@);
                assert(defs_after(a.domains@[dom].defs@, added_new, i + 1, self.0) == dom_insert(
                    m1.domains@[dom].defs@,
                    added_new[i as int].spec_name(),
                    self.0,
                ));
                assert(cur.domains@[dom].defs@ == m2.domains@[dom].defs@);
                assert(cur.domains@[dom].defs@ == defs_after(
                    a.domains@[dom].defs@,
                    added_new,
                    i + 1,
                    self.0,
                ));
                let csf = cur.classes@;
                assert(csf == m1.classes@);
                assert forall|k: int| 0 <= k < i implies trait_entry_matches(
                    before,
                    abc,
                    abc.scripts@[script_index as int].traits@[k],
                    #[trigger] added_old[k],
                ) by {
                    assert(added_old[k] == before.scripts@[self.0 as int].traits@[base.len() + k]);
                }
                lemma_added_class_bounds(
                    before,
                    abc,
                    abc.scripts@[script_index as int].traits@,
                    added_old,
                    i as int,
                );
                assert forall|k: int|
                    0 <= k < i implies ((#[trigger] added_new[k]).spec_kind()
                    matches TraitKind::Class { class, .. } ==> class < m1.classes@.len()) by {
                    assert(added_new[k] == added_old[k]);
                }
                lemma_classes_after_agree(
                    m1.classes@,
                    csf,
                    a.domains@[dom].classes@,
                    added_old,
                    added_new,
                    i as int,
                );
                assert(classes_after(csf, a.domains@[dom].classes@, added_new, i as int)
                    == m1.domains@[dom].classes@);
                match t.spec_kind() {
                    TraitKind::Class { class, .. } => {
                        assert(csf[class as int].name == m2.classes@[class as int].name);
                        assert(classes_after(csf, a.domains@[dom].classes@, added_new, i + 1)
                            == dom_insert(
                            classes_after(csf, a.domains@[dom].classes@, added_new, i as int),
                            csf[class as int].name,
                            class,
                        ));
                    },
                    _ => {
                        assert(classes_after(csf, a.domains@[dom].classes@, added_new, i + 1)
                            == classes_after(csf, a.domains@[dom].classes@, added_new, i as int));
                    },
                }
                assert(cur.domains@[dom].classes@ == m2.domains@[dom].classes@);
                assert(cur.domains@[dom].classes@ == classes_after(
                    csf,
                    a.domains@[dom].classes@,
                    added_new,
                    i + 1,
                ));
                assert(base.is_prefix_of(activation.scripts@[self.0 as int].traits@));
            }
            i = i + 1;
        }
        proof {
            lemma_ctx_extends_trans(*activation, e0, a);
            assert forall|j: int|
                0 <= j < a.scripts@.len() && j != self.0 as int implies activation.scripts@[j]
                == a.scripts@[j] by {
                assert(activation.scripts@[j] == e0.scripts@[j]);
            }
        }
        Ok(())
    }

    /// The script's global object: the first request links the global
    /// object's dispatch table from the script's traits, installs the default
    /// slots on the object, and runs the script initializer exactly once;
    /// later requests return the cached object with nothing rerun.
    pub fn globals(self, activation: &mut Activation) -> (r: Result<usize, Error>)
        requires
            old(activation).wf(),
            self.valid(*old(activation)),
            globals_ready(*old(activation), self),
        ensures
            final(activation).wf(),
            self.valid(*final(activation)),
            r matches Err(e) ==> e is Load,
            r is Err ==> final(activation).script_init_runs@ == old(activation).script_init_runs@,
            old(activation).scripts@[self.0 as int].initialized ==> r == Ok::<usize, Error>(
                old(activation).scripts@[self.0 as int].globals,
            ) && *final(activation) == *old(activation),
            !old(activation).scripts@[self.0 as int].initialized ==> ({
                let sd = old(activation).scripts@[self.0 as int];
                &&& final(activation).scripts@.len() == old(activation).scripts@.len()
                &&& final(activation).scripts@[self.0 as int] == (ScriptData {
                    initialized: true,
                    ..sd
                })
                &&& (forall|i: int|
                    0 <= i < old(activation).scripts@.len() && i != self.0 as int ==> final(activation).scripts@[i] == old(activation).scripts@[i])
                &&& final(activation).classes@ == old(activation).classes@
                &&& final(activation).methods@ == old(activation).methods@
                &&& final(activation).units@ == old(activation).units@
                &&& final(activation).domains@ == old(activation).domains@
                &&& (!sd.traits_loaded ==> r == Err::<usize, Error>(
                    Error::Load(LoadError::TraitsNotLoaded),
                ) && final(activation).objects@ == old(activation).objects@ && final(activation).vtables@ == old(activation).vtables@)
                &&& (sd.traits_loaded ==> ({
                    let g = sd.globals;
                    let vt = old(activation).objects@[g as int].vtable->Some_0;
                    let co = old(activation).objects@[g as int].instance_of->Some_0;
                    let my_pns = old(activation).classes@[old(activation).class_objects@[co as int].class as int].protected_namespace;
                    let st0 = crate::vtable::init_base_state(
                        *old(activation),
                        crate::vtable::VTable(vt),
                        None,
                        my_pns,
                    );
                    let stf = crate::vtable::vt_apply_traits(
                        st0,
                        sd.traits@,
                        sd.traits@.len() as int,
                        co,
                        ScopeChain { domain: sd.domain },
                        old(activation).function_class,
                        old(activation).class_class,
                    );
                    &&& r == Ok::<usize, Error>(g)
                    &&& final(activation).script_init_runs@ == old(activation).script_init_runs@.push(self.0)
                    &&& final(activation).vtables@.len() == old(activation).vtables@.len()
                    &&& (forall|i: int|
                        0 <= i < old(activation).vtables@.len() && i != vt as int ==> final(activation).vtables@[i] == old(activation).vtables@[i])
                    &&& final(activation).vtables@[vt as int].resolved_traits@ == stf.rt
                    &&& final(activation).vtables@[vt as int].method_table@ == stf.methods
                    &&& final(activation).vtables@[vt as int].default_slots@ == stf.defaults
                    &&& final(activation).vtables@[vt as int].slot_classes@ == stf.slots
                    &&& final(activation).objects@.len() == stf.nobj
                    &&& (forall|i: int|
                        0 <= i < old(activation).objects@.len() && i != g as int ==> final(activation).objects@[i] == old(activation).objects@[i])
                    &&& final(activation).objects@[g as int] == (ObjectData {
                        slots: final(activation).objects@[g as int].slots,
                        ..old(activation).objects@[g as int]
                    })
                    &&& final(activation).objects@[g as int].slots@.len() == stf.defaults.len()
                    &&& (forall|k: int|
                        0 <= k < stf.defaults.len() ==> final(activation).objects@[g as int].slots@[k] == (match stf.defaults[k] {
                            Some(v) => v,
                            None => crate::value::Value::Undefined,
                        }))
                }))
            }),
    {
        let ghost a = *old(activation);
        if activation.scripts[self.0].initialized {
            return Ok(activation.scripts[self.0].globals);
        }
        {
            let sref = &mut activation.scripts[self.0];
            sref.initialized = true;
        }
        if !activation.scripts[self.0].traits_loaded {
            return Err(Error::Load(LoadError::TraitsNotLoaded));
        }
        let ghost m1 = *activation;
        let globals_obj = activation.scripts[self.0].globals;
        let domain = activation.scripts[self.0].domain;
        let ts = crate::context::copy_vec(&activation.scripts[self.0].traits);
        let vt = crate::vtable::VTable(
            match activation.objects[globals_obj].vtable {
                Some(v) => v,
                None => 0,
            },
        );
        let instance_of = match activation.objects[globals_obj].instance_of {
            Some(co) => co,
            None => 0,
        };
        let scope = ScopeChain::new(domain);
        let res = vt.init_vtable(instance_of, &ts, scope, None, activation);
        match res {
            Ok(()) => {},
            Err(e) => {
                return Err(e);
            },
        }
        let ghost m2 = *activation;
        proof {
            let my_pns =
                a.classes@[a.class_objects@[instance_of as int].class as int].protected_namespace;
            let st0a = crate::vtable::init_base_state(a, vt, None, my_pns);
            let st0m = crate::vtable::init_base_state(m1, vt, None, my_pns);
            assert(st0a == st0m);
        }
        let nslots = activation.vtables[vt.0].default_slots.len();
        let mut slots: Vec<crate::value::Value> = Vec::new();
        let mut k: usize = 0;
        while k < nslots
            invariant
                vt.0 < activation.vtables@.len(),
                globals_obj < activation.objects@.len(),
                self.0 < activation.scripts@.len(),
                *activation == m2,
                nslots == activation.vtables@[vt.0 as int].default_slots@.len(),
                k <= nslots,
                slots@.len() == k,
                forall|j: int|
                    0 <= j < k ==> slots@[j] == (match activation.vtables@[vt.0 as int].default_slots@[j] {
                        Some(v) => v,
                        None => crate::value::Value::Undefined,
                    }),
            decreases nslots - k,
        {
            let v = match activation.vtables[vt.0].default_slots[k] {
                Some(v) => v,
                None => crate::value::Value::Undefined,
            };
            slots.push(v);
            k = k + 1;
        }
        let oref = &mut activation.objects[globals_obj];
        oref.slots = slots;
        activation.script_init_runs.push(self.0);
        Ok(globals_obj)
    }

    /// Whether the context satisfies everything `globals` asks of it, checked
    /// at run time: in-range arena indices, a linked global-object vtable with
    /// dispatch ids inside its method table, and room for this script's traits.
    pub fn globals_ready_check(self, activation: &Activation) -> (r: bool)
        ensures
            r == (self.valid(*activation) && globals_ready(*activation, self)),
    {
        if self.0 >= activation.scripts.len() {
            return false;
        }
        let sd = &activation.scripts[self.0];
        let g = sd.globals;
        if g >= activation.objects.len() || sd.domain >= activation.domains.len() {
            return false;
        }
        let v = match activation.objects[g].vtable {
            Some(v) => v,
            None => {
                return false;
            },
        };
        if v >= activation.vtables.len() {
            return false;
        }
        let nmethods = activation.vtables[v].method_table.len();
        let nprops = activation.vtables[v].resolved_traits.num_entries();
        let mut i: usize = 0;
        while i < nprops
            invariant
                self.0 < activation.scripts@.len(),
                g == activation.scripts@[self.0 as int].globals,
                g < activation.objects@.len(),
                activation.objects@[g as int].vtable == Some(v),
                v < activation.vtables@.len(),
                nprops == activation.vtables@[v as int].resolved_traits@.len(),
                nmethods == activation.vtables@[v as int].method_table@.len(),
                i <= nprops,
                forall|j: int|
                    0 <= j < i ==> crate::vtable::prop_disp_ok(
                        (#[trigger] activation.vtables@[v as int].resolved_traits@[j]).prop,
                        nmethods as int,
                    ),
            decreases nprops - i,
        {
            let e = activation.vtables[v].resolved_traits.entry_at(i);
            let ok = match e.prop {
                crate::property::Property::Method { disp_id } => (disp_id as usize) < nmethods,
                crate::property::Property::Virtual { get, set } => ({
                    let gok = match get {
                        Some(d) => (d as usize) < nmethods,
                        None => true,
                    };
                    let sok = match set {
                        Some(d) => (d as usize) < nmethods,
                        None => true,
                    };
                    gok && sok
                }),
                _ => true,
            };
            if !ok {
                proof {
                    let rt = activation.vtables@[v as int].resolved_traits@;
                    if crate::vtable::vt_disp_wf(rt, nmethods as int) {
                        assert(rt[i as int] == e);
                        assert(false);
                    }
                    assert(!crate::vtable::vt_disp_wf(rt, nmethods as int));
                    assert(activation.scripts@[self.0 as int].globals == g);
                    assert(activation.objects@[g as int].vtable == Some(v));
                    assert(!globals_ready(*activation, self));
                }
                return false;
            }
            i = i + 1;
        }
        let ntraits = sd.traits.len();
        let nslots = activation.vtables[v].default_slots.len();
        if (nslots as u128) + (ntraits as u128) > (u32::MAX as u128) {
            return false;
        }
        if (nmethods as u128) + (ntraits as u128) > (u32::MAX as u128) {
            return false;
        }
        let co = match activation.objects[g].instance_of {
            Some(co) => co,
            None => {
                return false;
            },
        };
        if co >= activation.class_objects.len()
            || activation.class_objects[co].class >= activation.classes.len() {
            return false;
        }
        let mut k: usize = 0;
        while k < ntraits
            invariant
                self.0 < activation.scripts@.len(),
                ntraits == activation.scripts@[self.0 as int].traits@.len(),
                k <= ntraits,
                forall|j: int|
                    0 <= j < k ==> crate::vtable::trait_slot_id(
                        #[trigger] activation.scripts@[self.0 as int].traits@[j],
                    ) + ntraits <= u32::MAX,
            decreases ntraits - k,
        {
            let sid: u32 = match *activation.scripts[self.0].traits[k].kind() {
                TraitKind::Slot { slot_id, .. } => slot_id,
                TraitKind::Const { slot_id, .. } => slot_id,
                TraitKind::Function { slot_id, .. } => slot_id,
                TraitKind::Class { slot_id, .. } => slot_id,
                _ => 0,
            };
            if (sid as u128) + (ntraits as u128) > (u32::MAX as u128) {
                return false;
            }
            k = k + 1;
        }
        true
    }

    /// Initialize the script's globals after checking at run time what
    /// `globals` requires of the context: `None` when a condition fails and
    /// the context is untouched, otherwise the result of `globals`.
    pub fn globals_checked(self, activation: &mut Activation) -> (r: Option<Result<usize, Error>>)
        requires
            old(activation).wf(),
        ensures
            final(activation).wf(),
            r is None ==> *final(activation) == *old(activation) && !(self.valid(*old(activation))
                && globals_ready(*old(activation), self)),
            r is Some ==> self.valid(*old(activation)) && globals_ready(*old(activation), self),
            r matches Some(rr) ==> (old(activation).scripts@[self.0 as int].initialized ==> rr
                == Ok::<usize, Error>(old(activation).scripts@[self.0 as int].globals) && *final(activation) == *old(activation)),
            r matches Some(rr) ==> (!old(activation).scripts@[self.0 as int].initialized && old(activation).scripts@[self.0 as int].traits_loaded ==> rr == Ok::<usize, Error>(
                old(activation).scripts@[self.0 as int].globals,
            ) && final(activation).script_init_runs@ == old(activation).script_init_runs@.push(
                self.0,
            )),
    {
        if self.globals_ready_check(activation) {
            Some(self.globals(activation))
        } else {
            None
        }
    }

    /// The script's traits. Reading them before they are loaded is an error.
    pub fn traits<'a>(self, activation: &'a Activation) -> (r: Result<&'a Vec<Trait>, Error>)
        requires
            self.valid(*activation),
        ensures
            ({
                let d = self.data(*activation);
                if d.traits_loaded {
                    match r {
                        Ok(ts) => ts@ == d.traits@,
                        Err(_) => false,
                    }
                } else {
                    r == Err::<&'a Vec<Trait>, Error>(Error::Load(LoadError::TraitsNotLoaded))
                }
            }),
    {
        let d = &activation.scripts[self.0];
        if !d.traits_loaded {
            return Err(Error::Load(LoadError::TraitsNotLoaded));
        }
        Ok(&d.traits)
    }
}

/// Context extension is transitive.
pub proof fn lemma_ctx_extends_trans(c: Activation, b: Activation, a: Activation)
    requires
        ctx_extends(c, b),
        ctx_extends(b, a),
    ensures
        ctx_extends(c, a),
{
    assert(a.ns_sets@.is_prefix_of(c.ns_sets@)) by {
        assert(a.ns_sets@ =~= c.ns_sets@.take(a.ns_sets@.len() as int));
    }
    assert(a.methods@.is_prefix_of(c.methods@)) by {
        assert(a.methods@ =~= c.methods@.take(a.methods@.len() as int));
    }
    assert(a.class_objects@.is_prefix_of(c.class_objects@)) by {
        assert(a.class_objects@ =~= c.class_objects@.take(a.class_objects@.len() as int));
    }
    assert forall|u: int| 0 <= u < a.units@.len() implies unit_extends(
        #[trigger] c.units@[u],
        a.units@[u],
    ) by {
        assert(unit_extends(b.units@[u], a.units@[u]));
        assert(unit_extends(c.units@[u], b.units@[u]));
    }
}

/// The state a script's global object must be in before its dispatch table
/// can be linked: the object and its table exist, the table's dispatch ids
/// are in bounds, and the script's traits fit the table's id space.
pub open spec fn globals_ready(ctx: Activation, s: Script) -> bool {
    &&& s.0 < ctx.scripts@.len()
    &&& ({
        let sd = ctx.scripts@[s.0 as int];
        let g = sd.globals;
        &&& g < ctx.objects@.len()
        &&& sd.domain < ctx.domains@.len()
        &&& (ctx.objects@[g as int].vtable matches Some(v) && v < ctx.vtables@.len() && {
            let vd = ctx.vtables@[v as int];
            &&& crate::vtable::vt_disp_wf(vd.resolved_traits@, vd.method_table@.len() as int)
            &&& vd.default_slots@.len() + sd.traits@.len() <= u32::MAX
            &&& vd.method_table@.len() + sd.traits@.len() <= u32::MAX
        })
        &&& (ctx.objects@[g as int].instance_of matches Some(co) && co
            < ctx.class_objects@.len() && ctx.class_objects@[co as int].class
            < ctx.classes@.len())
        &&& (forall|k: int|
            0 <= k < sd.traits@.len() ==> crate::vtable::trait_slot_id(#[trigger] sd.traits@[k])
                + sd.traits@.len() <= u32::MAX)
    })
}

/// A context extends itself.
pub proof fn lemma_ctx_extends_refl(a: Activation)
    ensures
        ctx_extends(a, a),
{
    assert(a.ns_sets@.is_prefix_of(a.ns_sets@)) by {
        assert(a.ns_sets@ =~= a.ns_sets@.take(a.ns_sets@.len() as int));
    }
    assert(a.methods@.is_prefix_of(a.methods@)) by {
        assert(a.methods@ =~= a.methods@.take(a.methods@.len() as int));
    }
    assert(a.class_objects@.is_prefix_of(a.class_objects@)) by {
        assert(a.class_objects@ =~= a.class_objects@.take(a.class_objects@.len() as int));
    }
}

/// A resolved multiname stays a faithful resolution when the context grows:
/// every fact `mn_ok` states reads only interner entries and namespace-set
/// entries that extension keeps.
pub proof fn lemma_mn_ok_preserved(a: Activation, b: Activation, abc: AbcFile, idx: u32, mn: Multiname)
    requires
        mn_ok(a, abc, idx, mn),
        Interner::extends(b.strings, a.strings),
        a.ns_sets@.is_prefix_of(b.ns_sets@),
    ensures
        mn_ok(b, abc, idx, mn),
{
    let e = abc.constant_pool.multinames@[idx - 1];
    match e {
        AbcMultiname::Multiname { ns_set, name } => {
            lemma_ns_set_ok_preserved(a, b, abc, ns_set, mn.ns->OneOf_0);
        },
        AbcMultiname::MultinameA { ns_set, name } => {
            lemma_ns_set_ok_preserved(a, b, abc, ns_set, mn.ns->OneOf_0);
        },
        AbcMultiname::MultinameL { ns_set } => {
            lemma_ns_set_ok_preserved(a, b, abc, ns_set, mn.ns->OneOf_0);
        },
        AbcMultiname::MultinameLA { ns_set } => {
            lemma_ns_set_ok_preserved(a, b, abc, ns_set, mn.ns->OneOf_0);
        },
        _ => {},
    }
}

/// An interned namespace set stays a faithful resolution when the context
/// grows.
pub proof fn lemma_ns_set_ok_preserved(a: Activation, b: Activation, abc: AbcFile, set_idx: u32, sid: usize)
    requires
        ns_set_ok(a, abc, set_idx, sid),
        Interner::extends(b.strings, a.strings),
        a.ns_sets@.is_prefix_of(b.ns_sets@),
    ensures
        ns_set_ok(b, abc, set_idx, sid),
{
    assert(b.ns_sets@[sid as int] == a.ns_sets@[sid as int]);
}

/// Extending the context preserves a unit's internal consistency, for
/// unchanged unit data.
pub proof fn lemma_unit_ok_preserved(a: Activation, b: Activation, d: TranslationUnitData)
    requires
        unit_ok(a, d),
        Interner::extends(b.strings, a.strings),
        a.ns_sets@.is_prefix_of(b.ns_sets@),
        b.classes@.len() >= a.classes@.len(),
        b.methods@.len() >= a.methods@.len(),
        b.scripts@.len() >= a.scripts@.len(),
        b.domains@.len() >= a.domains@.len(),
    ensures
        unit_ok(b, d),
{
    assert forall|i: int|
        1 <= i < d.multinames@.len() && d.multinames@[i] is Some implies mn_ok(
        b,
        d.abc,
        i as u32,
        (#[trigger] d.multinames@[i])->Some_0,
    ) by {
        lemma_mn_ok_preserved(a, b, d.abc, i as u32, d.multinames@[i]->Some_0);
    }
}

/// Filling one string-cache slot with a faithful symbol keeps the unit
/// consistent, provided it was consistent in the same context with that slot
/// empty.
proof fn lemma_unit_ok_fill_string(
    b: Activation,
    da: TranslationUnitData,
    db: TranslationUnitData,
    idx: u32,
    sym: usize,
)
    requires
        unit_ok(b, da),
        1 <= idx < da.strings@.len(),
        name_sym_ok(b, da.abc, idx, sym),
        db == (TranslationUnitData { strings: db.strings, ..da }),
        db.strings@ == da.strings@.update(idx as int, Some(sym)),
    ensures
        unit_ok(b, db),
{
}

} // verus!
