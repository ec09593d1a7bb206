//! Resolved properties and the tagged-property map of a dispatch table.
//!
//! A resolved trait is a `Property`: a slot, a constant slot, a method with a
//! dispatch id, or a virtual getter/setter pair holding an independent get and
//! set dispatch id. The map is keyed by qualified name (name symbol plus
//! namespace) and preserves insertion order, supporting lookup both by exact
//! qualified name and by a multiname's namespace set.

use crate::value::{ns_spec_contains, Multiname, Namespace, QName};
use vstd::prelude::*;

verus! {

/// One resolved trait of a linked dispatch table.
#[derive(Clone, Copy, PartialEq, Eq, Structural, Debug)]
pub enum Property {
    /// A mutable stored field.
    Slot { slot_id: u32 },
    /// An immutable stored field.
    ConstSlot { slot_id: u32 },
    /// A callable method.
    Method { disp_id: u32 },
    /// A getter/setter pair; either half may be absent.
    Virtual { get: Option<u32>, set: Option<u32> },
}

impl Property {
    pub fn new_slot(slot_id: u32) -> (r: Property)
        ensures
            r == (Property::Slot { slot_id }),
    {
        Property::Slot { slot_id }
    }

    pub fn new_const_slot(slot_id: u32) -> (r: Property)
        ensures
            r == (Property::ConstSlot { slot_id }),
    {
        Property::ConstSlot { slot_id }
    }

    pub fn new_method(disp_id: u32) -> (r: Property)
        ensures
            r == (Property::Method { disp_id }),
    {
        Property::Method { disp_id }
    }

    pub fn new_getter(disp_id: u32) -> (r: Property)
        ensures
            r == (Property::Virtual { get: Some(disp_id), set: None }),
    {
        Property::Virtual { get: Some(disp_id), set: None }
    }

    pub fn new_setter(disp_id: u32) -> (r: Property)
        ensures
            r == (Property::Virtual { get: None, set: Some(disp_id) }),
    {
        Property::Virtual { get: None, set: Some(disp_id) }
    }
}

/// The enforced type of one slot: anything, a resolved class (class-object
/// arena index), or a type name not yet resolved to a class. Resolving a name
/// is memoized by replacing the `Name` form with the `Class` form in place.
#[derive(Clone, Copy, PartialEq, Eq, Structural, Debug)]
pub enum PropertyClass {
    Any,
    Class(usize),
    Name { declared_type: Multiname, unit: Option<usize> },
}

/// One entry of a property map.
#[derive(Clone, Copy, PartialEq, Eq, Structural, Debug)]
pub struct PropEntry {
    pub name: usize,
    pub ns: Namespace,
    pub prop: Property,
}

/// Whether a multiname picks out this entry: the local names are equal and
/// the entry's namespace satisfies the multiname's constraint under the given
/// namespace-set arena.
pub open spec fn mn_matches_entry(sets: Seq<Vec<Namespace>>, e: PropEntry, mn: Multiname) -> bool {
    mn.name == Some(e.name) && ns_spec_contains(sets, mn.ns, e.ns)
}

/// Index of the first entry with the given qualified name at or after `i`,
/// or the sequence's length if there is none.
pub open spec fn pm_find(s: Seq<PropEntry>, name: usize, ns: Namespace, i: int) -> int
    decreases s.len() - i when 0 <= i <= s.len()
{
    if i >= s.len() {
        s.len() as int
    } else if s[i].name == name && s[i].ns == ns {
        i
    } else {
        pm_find(s, name, ns, i + 1)
    }
}

/// The property stored under an exact qualified name.
pub open spec fn pm_get(s: Seq<PropEntry>, name: usize, ns: Namespace) -> Option<Property> {
    let i = pm_find(s, name, ns, 0);
    if i < s.len() {
        Some(s[i].prop)
    } else {
        None
    }
}

/// The first entry a multiname picks out at or after `i`, if any.
pub open spec fn pm_find_mn(sets: Seq<Vec<Namespace>>, s: Seq<PropEntry>, mn: Multiname, i: int) -> int
    decreases s.len() - i when 0 <= i <= s.len()
{
    if i >= s.len() {
        s.len() as int
    } else if mn_matches_entry(sets, s[i], mn) {
        i
    } else {
        pm_find_mn(sets, s, mn, i + 1)
    }
}

/// The property (with its namespace) the multiname resolves to.
pub open spec fn pm_get_mn(sets: Seq<Vec<Namespace>>, s: Seq<PropEntry>, mn: Multiname) -> Option<
    PropEntry,
> {
    let i = pm_find_mn(sets, s, mn, 0);
    if i < s.len() {
        Some(s[i])
    } else {
        None
    }
}

/// The map after inserting `prop` under a qualified name: replace the first
/// entry with that name in place, or append a new entry.
pub open spec fn pm_insert(s: Seq<PropEntry>, name: usize, ns: Namespace, prop: Property) -> Seq<
    PropEntry,
> {
    let e = PropEntry { name, ns, prop };
    let i = pm_find(s, name, ns, 0);
    if i < s.len() {
        s.update(i, e)
    } else {
        s.push(e)
    }
}

pub proof fn lemma_pm_find_props(s: Seq<PropEntry>, name: usize, ns: Namespace, i: int)
    requires
        0 <= i <= s.len(),
    ensures
        i <= pm_find(s, name, ns, i) <= s.len(),
        pm_find(s, name, ns, i) < s.len() ==> {
            &&& s[pm_find(s, name, ns, i)].name == name
            &&& s[pm_find(s, name, ns, i)].ns == ns
        },
        forall|j: int|
            i <= j < pm_find(s, name, ns, i) ==> !(s[j].name == name && s[j].ns == ns),
    decreases s.len() - i,
{
    if i < s.len() && !(s[i].name == name && s[i].ns == ns) {
        lemma_pm_find_props(s, name, ns, i + 1);
    }
}

/// Looking up the name just inserted finds the inserted property.
pub proof fn lemma_pm_insert_get(s: Seq<PropEntry>, name: usize, ns: Namespace, prop: Property)
    ensures
        pm_get(pm_insert(s, name, ns, prop), name, ns) == Some(prop),
{
    lemma_pm_find_props(s, name, ns, 0);
    let fi = pm_find(s, name, ns, 0);
    if fi < s.len() {
        lemma_pm_find_update(s, name, ns, fi, prop);
    } else {
        lemma_pm_find_push(s, name, ns, prop);
    }
}

proof fn lemma_find_update_nomatch(
    s: Seq<PropEntry>,
    fi: int,
    e2: PropEntry,
    name: usize,
    ns: Namespace,
    i: int,
)
    requires
        0 <= fi < s.len(),
        !(e2.name == name && e2.ns == ns),
        !(s[fi].name == name && s[fi].ns == ns),
        0 <= i <= s.len(),
    ensures
        pm_find(s.update(fi, e2), name, ns, i) == pm_find(s, name, ns, i),
    decreases s.len() - i,
{
    if i < s.len() {
        lemma_find_update_nomatch(s, fi, e2, name, ns, i + 1);
    }
}

proof fn lemma_find_push_nomatch(s: Seq<PropEntry>, e2: PropEntry, name: usize, ns: Namespace, i: int)
    requires
        !(e2.name == name && e2.ns == ns),
        0 <= i <= s.len(),
    ensures
        pm_find(s.push(e2), name, ns, i) == if pm_find(s, name, ns, i) < s.len() {
            pm_find(s, name, ns, i)
        } else {
            s.len() as int + 1
        },
    decreases s.len() - i,
{
    if i < s.len() {
        lemma_find_push_nomatch(s, e2, name, ns, i + 1);
    } else {
        assert(pm_find(s.push(e2), name, ns, i + 1) == s.len() + 1);
    }
}

/// Inserting under one qualified name leaves the lookup of any other
/// qualified name unchanged.
pub proof fn lemma_pm_insert_other(
    s: Seq<PropEntry>,
    name2: usize,
    ns2: Namespace,
    prop: Property,
    name1: usize,
    ns1: Namespace,
)
    requires
        !(name1 == name2 && ns1 == ns2),
    ensures
        pm_get(pm_insert(s, name2, ns2, prop), name1, ns1) == pm_get(s, name1, ns1),
{
    lemma_pm_find_props(s, name2, ns2, 0);
    lemma_pm_find_props(s, name1, ns1, 0);
    let fi = pm_find(s, name2, ns2, 0);
    let e2 = PropEntry { name: name2, ns: ns2, prop };
    if fi < s.len() {
        lemma_find_update_nomatch(s, fi, e2, name1, ns1, 0);
        lemma_pm_find_props(s.update(fi, e2), name1, ns1, 0);
    } else {
        lemma_find_push_nomatch(s, e2, name1, ns1, 0);
    }
}

/// An insertion-ordered map from qualified name to `Property`.
#[derive(Clone, Debug)]
pub struct PropertyMap {
    entries: Vec<PropEntry>,
}

impl PropertyMap {
    /// The entries in insertion order.
    pub closed spec fn view(&self) -> Seq<PropEntry> {
        self.entries@
    }

    pub fn new() -> (r: PropertyMap)
        ensures
            r@ == Seq::<PropEntry>::empty(),
    {
        let r = PropertyMap { entries: Vec::new() };
        proof {
            assert(r@ =~= Seq::<PropEntry>::empty());
        }
        r
    }

    /// A fresh map with the same entries.
    pub fn duplicate(&self) -> (r: PropertyMap)
        ensures
            r@ == self@,
    {
        PropertyMap { entries: crate::context::copy_vec(&self.entries) }
    }

    pub fn num_entries(&self) -> (r: usize)
        ensures
            r == self@.len(),
    {
        self.entries.len()
    }

    /// Read the entry at a position, in insertion order.
    pub fn entry_at(&self, i: usize) -> (r: PropEntry)
        requires
            i < self@.len(),
        ensures
            r == self@[i as int],
    {
        self.entries[i]
    }

    /// Look a property up by exact qualified name.
    pub fn get(&self, name: QName) -> (r: Option<Property>)
        ensures
            r == pm_get(self@, name.name, name.ns),
    {
        let n = self.entries.len();
        let mut i: usize = 0;
        while i < n
            invariant
                n == self@.len(),
                i <= n,
                pm_find(self@, name.name, name.ns, 0) == pm_find(self@, name.name, name.ns, i as int),
            decreases n - i,
        {
            let e = self.entries[i];
            if e.name == name.name && e.ns == name.ns {
                return Some(e.prop);
            }
            i = i + 1;
        }
        None
    }

    /// Look a property up by a multiname's name and namespace set; the first
    /// inserted entry among the candidates wins.
    pub fn get_for_multiname(&self, mn: &Multiname, sets: &Vec<Vec<Namespace>>) -> (r: Option<
        PropEntry,
    >)
        ensures
            r == pm_get_mn(sets@, self@, *mn),
    {
        let n = self.entries.len();
        let mut i: usize = 0;
        while i < n
            invariant
                n == self@.len(),
                i <= n,
                pm_find_mn(sets@, self@, *mn, 0) == pm_find_mn(sets@, self@, *mn, i as int),
            decreases n - i,
        {
            let e = self.entries[i];
            let name_matches = match mn.name {
                Some(nm) => nm == e.name,
                None => false,
            };
            if name_matches && mn.contains_ns(e.ns, sets) {
                return Some(e);
            }
            i = i + 1;
        }
        None
    }

    /// Insert a property under a qualified name: replace the existing entry
    /// in place, or append.
    pub fn insert(&mut self, name: QName, prop: Property)
        ensures
            final(self)@ == pm_insert(old(self)@, name.name, name.ns, prop),
            pm_get(final(self)@, name.name, name.ns) == Some(prop),
    {
        let ghost s0 = self@;
        let n = self.entries.len();
        let mut i: usize = 0;
        while i < n
            invariant
                self@ == s0,
                s0 == old(self)@,
                n == s0.len(),
                i <= n,
                pm_find(s0, name.name, name.ns, 0) == pm_find(s0, name.name, name.ns, i as int),
            decreases n - i,
        {
            let e = self.entries[i];
            if e.name == name.name && e.ns == name.ns {
                self.entries.set(i, PropEntry { name: name.name, ns: name.ns, prop });
                proof {
                    assert(pm_find(s0, name.name, name.ns, i as int) == i as int);
                    lemma_pm_find_update(s0, name.name, name.ns, i as int, prop);
                }
                return ;
            }
            i = i + 1;
        }
        self.entries.push(PropEntry { name: name.name, ns: name.ns, prop });
        proof {
            lemma_pm_find_push(s0, name.name, name.ns, prop);
        }
    }
}

proof fn lemma_pm_find_update(s: Seq<PropEntry>, name: usize, ns: Namespace, i: int, prop: Property)
    requires
        0 <= i < s.len(),
        s[i].name == name && s[i].ns == ns,
        pm_find(s, name, ns, 0) == i,
    ensures
        pm_get(s.update(i, PropEntry { name, ns, prop }), name, ns) == Some(prop),
        pm_insert(s, name, ns, prop) == s.update(i, PropEntry { name, ns, prop }),
    decreases i,
{
    let t = s.update(i, PropEntry { name, ns, prop });
    lemma_pm_find_props(s, name, ns, 0);
    lemma_pm_find_same_to(s, t, name, ns, 0, i);
    assert(pm_find(t, name, ns, i) == i);
}

/// If two maps agree on entries before `k` and neither has a match there,
/// their searches agree down to `k`; both searches then continue from `k`.
proof fn lemma_pm_find_same_to(
    s: Seq<PropEntry>,
    t: Seq<PropEntry>,
    name: usize,
    ns: Namespace,
    i: int,
    k: int,
)
    requires
        0 <= i <= k,
        k <= s.len(),
        k <= t.len(),
        forall|j: int| i <= j < k ==> t[j] == s[j],
        forall|j: int| i <= j < k ==> !(s[j].name == name && s[j].ns == ns),
    ensures
        pm_find(t, name, ns, i) == pm_find(t, name, ns, k),
    decreases k - i,
{
    if i < k {
        lemma_pm_find_same_to(s, t, name, ns, i + 1, k);
    }
}

proof fn lemma_pm_find_push(s: Seq<PropEntry>, name: usize, ns: Namespace, prop: Property)
    requires
        pm_find(s, name, ns, 0) == s.len(),
    ensures
        pm_get(s.push(PropEntry { name, ns, prop }), name, ns) == Some(prop),
        pm_insert(s, name, ns, prop) == s.push(PropEntry { name, ns, prop }),
{
    let t = s.push(PropEntry { name, ns, prop });
    lemma_pm_find_props(s, name, ns, 0);
    lemma_pm_find_same_to(s, t, name, ns, 0, s.len() as int);
    assert(pm_find(t, name, ns, s.len() as int) == s.len());
}

} // verus!
