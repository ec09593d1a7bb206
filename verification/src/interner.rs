//! Interned strings.
//!
//! Scripts, namespaces and multinames refer to strings by small integer
//! symbols. The interner guarantees that two symbols are equal exactly when
//! the byte strings behind them are equal, so name comparisons throughout the
//! loader are plain integer comparisons.

use vstd::prelude::*;

verus! {

/// Compare two byte vectors for content equality.
pub fn bytes_eq(a: &Vec<u8>, b: &Vec<u8>) -> (r: bool)
    ensures
        r == (a@ == b@),
{
    if a.len() != b.len() {
        proof {
            assert(a@.len() != b@.len());
        }
        return false;
    }
    let mut i: usize = 0;
    while i < a.len()
        invariant
            i <= a.len(),
            a.len() == b.len(),
            forall|j: int| 0 <= j < i ==> a@[j] == b@[j],
        decreases a.len() - i,
    {
        if a[i] != b[i] {
            return false;
        }
        i = i + 1;
    }
    proof {
        assert(a@ =~= b@);
    }
    true
}

/// A table of distinct byte strings; a symbol is an index into it.
pub struct Interner {
    strings: Vec<Vec<u8>>,
}

impl Interner {
    /// The sequence of interned strings, in insertion order.
    pub closed spec fn strings(&self) -> Seq<Seq<u8>> {
        self.strings@.map(|i: int, s: Vec<u8>| s@)
    }

    /// No two interned strings are equal, so symbol equality is string equality.
    pub open spec fn wf(&self) -> bool {
        forall|i: int, j: int|
            0 <= i < j < self.strings().len() ==> self.strings()[i] != self.strings()[j]
    }

    /// `sym` is a symbol this interner has handed out.
    pub open spec fn has_sym(&self, sym: usize) -> bool {
        sym < self.strings().len()
    }

    /// The string behind a symbol.
    pub open spec fn spec_str(&self, sym: usize) -> Seq<u8> {
        self.strings()[sym as int]
    }

    /// A fresh interner holding only the empty string, as symbol 0.
    pub fn new() -> (r: Self)
        ensures
            r.wf(),
            r.strings().len() == 1,
            r.spec_str(0) == Seq::<u8>::empty(),
    {
        let empty: Vec<u8> = Vec::new();
        let mut strings: Vec<Vec<u8>> = Vec::new();
        strings.push(empty);
        let r = Interner { strings };
        proof {
            assert(r.strings() =~= seq![Seq::<u8>::empty()]);
        }
        r
    }

    /// How many symbols exist.
    pub fn len(&self) -> (r: usize)
        ensures
            r == self.strings().len(),
    {
        self.strings.len()
    }

    /// Read the string behind a symbol.
    pub fn get(&self, sym: usize) -> (r: &Vec<u8>)
        requires
            self.has_sym(sym),
        ensures
            r@ == self.spec_str(sym),
    {
        &self.strings[sym]
    }

    /// One interner extends another: every symbol keeps its meaning.
    pub open spec fn extends(b: Interner, a: Interner) -> bool {
        forall|s: usize| a.has_sym(s) ==> b.has_sym(s) && b.spec_str(s) == a.spec_str(s)
    }

    /// Intern a byte string: return the existing symbol for an equal string,
    /// or a fresh symbol otherwise. Existing symbols never change meaning.
    pub fn intern(&mut self, s: Vec<u8>) -> (sym: usize)
        requires
            old(self).wf(),
        ensures
            final(self).wf(),
            final(self).has_sym(sym),
            final(self).spec_str(sym) == s@,
            final(self).strings().len() >= old(self).strings().len(),
            Interner::extends(*final(self), *old(self)),
            (exists|i: int| 0 <= i < old(self).strings().len() && old(self).strings()[i] == s@)
                ==> *final(self) == *old(self),
            !(exists|i: int| 0 <= i < old(self).strings().len() && old(self).strings()[i] == s@)
                ==> final(self).strings() == old(self).strings().push(s@),
    {
        let n = self.strings.len();
        let mut i: usize = 0;
        while i < n
            invariant
                *self == *old(self),
                old(self).wf(),
                n == self.strings().len(),
                i <= n,
                forall|j: int| 0 <= j < i ==> self.strings()[j] != s@,
            decreases n - i,
        {
            if bytes_eq(&self.strings[i], &s) {
                proof {
                    assert(old(self).strings()[i as int] == s@);
                }
                return i;
            }
            i = i + 1;
        }
        self.strings.push(s);
        proof {
            assert(self.strings() =~= old(self).strings().push(s@));
        }
        self.strings.len() - 1
    }
}

} // verus!
