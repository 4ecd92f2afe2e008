//! Copies that are known to say the same as what they were made from.
use vstd::prelude::*;
use vstd::string::*;

use crate::namemap::{key_pos, without, NameMap};
use crate::text::texts;

verus! {

/// A value that can be copied: the copy has the same view.
pub trait Dup: View + Sized {
    /// The value's own invariant.
    spec fn wf(&self) -> bool;

    /// A copy of the value.
    fn dup(&self) -> (r: Self)
        requires
            self.wf(),
        ensures
            r@ == self@,
            r.wf(),
    ;
}

/// The views of a list of values.
pub open spec fn views<T: View>(s: Seq<T>) -> Seq<T::V> {
    Seq::new(s.len(), |i: int| s[i]@)
}

/// The view of an optional value.
pub open spec fn opt_view<T: View>(o: Option<T>) -> Option<T::V> {
    match o {
        Some(v) => Some(v@),
        None => None,
    }
}

/// Whether every value of the list is well-formed.
pub open spec fn all_wf<T: Dup>(s: Seq<T>) -> bool {
    forall|i: int| 0 <= i < s.len() ==> (#[trigger] s[i]).wf()
}

impl Dup for String {
    open spec fn wf(&self) -> bool {
        true
    }

    fn dup(&self) -> (r: Self) {
        self.clone()
    }
}

/// A copy of a list.
pub fn dup_vec<T: Dup>(v: &Vec<T>) -> (r: Vec<T>)
    requires
        all_wf(v@),
    ensures
        views(r@) == views(v@),
        all_wf(r@),
        r@.len() == v@.len(),
{
    let mut out: Vec<T> = Vec::new();
    let mut i: usize = 0;
    while i < v.len()
        invariant
            i <= v@.len(),
            all_wf(v@),
            out@.len() == i,
            all_wf(out@),
            forall|j: int| 0 <= j < i ==> (#[trigger] out@[j])@ == v@[j]@,
        decreases v@.len() - i,
    {
        let c = v[i].dup();
        out.push(c);
        i += 1;
    }
    assert(views(out@) == views(v@));
    out
}

/// A copy of an optional value.
pub fn dup_opt<T: Dup>(o: &Option<T>) -> (r: Option<T>)
    requires
        o matches Some(v) ==> v.wf(),
    ensures
        opt_view(r) == opt_view(*o),
        r matches Some(v) ==> v.wf(),
{
    match o {
        Some(v) => Some(v.dup()),
        None => None,
    }
}

/// A copy of an optional string.
pub fn dup_opt_string(o: &Option<String>) -> (r: Option<String>)
    ensures
        r == *o,
{
    match o {
        Some(v) => Some(v.clone()),
        None => None,
    }
}

/// A copy of a list of numbers.
pub fn dup_u64s(v: &Vec<u64>) -> (r: Vec<u64>)
    ensures
        r@ == v@,
{
    let mut out: Vec<u64> = Vec::new();
    let mut i: usize = 0;
    while i < v.len()
        invariant
            i <= v@.len(),
            out@ == v@.subrange(0, i as int),
        decreases v@.len() - i,
    {
        out.push(v[i]);
        i += 1;
    }
    assert(out@ == v@);
    out
}

impl<V: View> NameMap<V> {
    /// The map with each value replaced by its view.
    pub open spec fn deep(&self) -> Map<Seq<char>, V::V> {
        self@.map_values(|v: V| v@)
    }
}

impl<V: Dup> NameMap<V> {
    /// A map without names is the empty map.
    pub proof fn lemma_empty(&self)
        requires
            self.wf(),
            self.names().len() == 0,
        ensures
            self.deep() == Map::<Seq<char>, V::V>::empty(),
            self.deep_wf(),
    {
        assert(self.deep() =~= Map::<Seq<char>, V::V>::empty());
    }

    /// The map's own invariant and that of each value.
    pub open spec fn deep_wf(&self) -> bool {
        &&& self.wf()
        &&& all_wf(self.vals@)
    }

    /// The value of `k`.
    pub fn lookup(&self, k: &str) -> (r: Option<&V>)
        requires
            self.deep_wf(),
        ensures
            match r {
                Some(v) => self.deep().dom().contains(k@) && v@ == self.deep()[k@] && v.wf(),
                None => !self.deep().dom().contains(k@),
            },
    {
        match self.position(k) {
            Some(i) => Some(&self.vals[i]),
            None => None,
        }
    }

    /// Gives `k` the value `v`.
    pub fn put(&mut self, k: String, v: V)
        requires
            old(self).deep_wf(),
            v.wf(),
        ensures
            final(self).deep_wf(),
            final(self).deep() == old(self).deep().insert(k@, v@),
            final(self).names() == if old(self).deep().dom().contains(k@) {
                old(self).names()
            } else {
                old(self).names().push(k@)
            },
    {
        let ghost kk = k@;
        let ghost vv = v;
        self.insert(k, v);
        proof {
            assert forall|i: int| 0 <= i < self.vals@.len() implies (
            #[trigger] self.vals@[i]).wf() by {
                let w = self.vals@[i];
                assert(self.vals@.contains(w));
                if old(self).vals@.contains(w) {
                    let j = choose|j: int| 0 <= j < old(self).vals@.len() && old(self).vals@[j] == w;
                    assert(old(self).vals@[j].wf());
                }
            }
            assert(self.deep() == old(self).deep().insert(kk, vv@));
        }
    }

    /// Takes `k` out of the map, and returns the value that it had.
    pub fn take(&mut self, k: &str) -> (r: Option<V>)
        requires
            old(self).deep_wf(),
        ensures
            final(self).deep_wf(),
            final(self).deep() == old(self).deep().remove(k@),
            final(self).names() == without(old(self).names(), k@),
            match r {
                Some(w) => old(self).deep().dom().contains(k@) && w@ == old(self).deep()[k@],
                None => !old(self).deep().dom().contains(k@),
            },
    {
        let r = self.remove(k);
        proof {
            assert forall|i: int| 0 <= i < self.vals@.len() implies (
            #[trigger] self.vals@[i]).wf() by {
                let w = self.vals@[i];
                assert(self.vals@.contains(w));
                let j = choose|j: int| 0 <= j < old(self).vals@.len() && old(self).vals@[j] == w;
                assert(old(self).vals@[j].wf());
            }
            assert(self.deep() == old(self).deep().remove(k@));
        }
        r
    }

    /// The map after the value at position `i` was changed in place.
    pub proof fn lemma_deep_update(before: &Self, after: &Self, i: int)
        requires
            before.deep_wf(),
            0 <= i < before.keys@.len(),
            after.keys@ == before.keys@,
            after.vals@ == before.vals@.update(i, after.vals@[i]),
            after.vals@[i].wf(),
        ensures
            after.deep_wf(),
            after.names() == before.names(),
            after.deep() == before.deep().insert(before.keys@[i]@, after.vals@[i]@),
    {
        NameMap::lemma_update(before, after, i);
        assert forall|j: int| 0 <= j < after.vals@.len() implies (#[trigger] after.vals@[j]).wf() by {
            if j != i {
                assert(after.vals@[j] == before.vals@[j]);
            }
        }
        assert(after.deep() == before.deep().insert(before.keys@[i]@, after.vals@[i]@));
    }

    /// What the map says of the entry at position `i`.
    pub proof fn lemma_deep_entry(&self, i: int)
        requires
            self.deep_wf(),
            0 <= i < self.keys@.len(),
        ensures
            self.deep().dom().contains(self.keys@[i]@),
            self.deep()[self.keys@[i]@] == self.vals@[i]@,
            self.vals@[i].wf(),
    {
        self.lemma_entry(i);
    }

    /// A copy of the map.
    pub fn dup_map(&self) -> (r: Self)
        requires
            self.deep_wf(),
        ensures
            r.deep_wf(),
            r.deep() == self.deep(),
            r.names() == self.names(),
    {
        let keys = crate::text::clone_strings(&self.keys);
        let vals = dup_vec(&self.vals);
        let r = NameMap { keys, vals };
        proof {
            assert forall|k: Seq<char>| r.deep().dom().contains(k) implies r.deep()[k]
                == self.deep()[k] by {
                let i = key_pos(texts(self.keys@), k);
                assert(0 <= i < self.keys@.len() && texts(self.keys@)[i] == k);
                assert(views(r.vals@)[i] == views(self.vals@)[i]);
                r.lemma_entry(i);
                self.lemma_entry(i);
            }
            assert(r.deep() == self.deep());
        }
        r
    }
}

} // verus!
