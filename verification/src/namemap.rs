//! A map from names to values that remembers the order of insertion.
use vstd::prelude::*;
use vstd::string::*;

use crate::text::{same, texts};

verus! {

/// A map whose keys are names. A name that is inserted again keeps its place.
pub struct NameMap<V> {
    pub keys: Vec<String>,
    pub vals: Vec<V>,
}

/// The names of the list other than `k`, in order.
pub open spec fn without(names: Seq<Seq<char>>, k: Seq<char>) -> Seq<Seq<char>> {
    names.filter(|q: Seq<char>| q != k)
}

/// The position of `k` among `keys`.
pub open spec fn key_pos(keys: Seq<Seq<char>>, k: Seq<char>) -> int {
    choose|i: int| 0 <= i < keys.len() && #[trigger] keys[i] == k
}

impl<V> View for NameMap<V> {
    type V = Map<Seq<char>, V>;

    open spec fn view(&self) -> Map<Seq<char>, V> {
        Map::new(
            |k: Seq<char>| texts(self.keys@).contains(k),
            |k: Seq<char>| self.vals@[key_pos(texts(self.keys@), k)],
        )
    }
}

impl<V> NameMap<V> {
    /// Each key has one value, and no key occurs twice.
    pub open spec fn wf(&self) -> bool {
        &&& self.keys@.len() == self.vals@.len()
        &&& texts(self.keys@).no_duplicates()
    }

    /// The names in order of insertion.
    pub open spec fn names(&self) -> Seq<Seq<char>> {
        texts(self.keys@)
    }

    pub proof fn lemma_entry(&self, i: int)
        requires
            self.wf(),
            0 <= i < self.keys@.len(),
        ensures
            self@.dom().contains(self.keys@[i]@),
            self@[self.keys@[i]@] == self.vals@[i],
    {
        let k = self.keys@[i]@;
        assert(texts(self.keys@)[i] == k);
        assert(texts(self.keys@).contains(k));
        let p = key_pos(texts(self.keys@), k);
        assert(0 <= p < self.keys@.len() && texts(self.keys@)[p] == k);
        assert(p == i);
    }

    /// The empty map.
    pub fn new() -> (r: Self)
        ensures
            r.wf(),
            r@ == Map::<Seq<char>, V>::empty(),
            r.names() == Seq::<Seq<char>>::empty(),
    {
        let r = NameMap { keys: Vec::new(), vals: Vec::new() };
        assert(r@ == Map::<Seq<char>, V>::empty());
        r
    }

    /// The position of `k`.
    pub fn position(&self, k: &str) -> (r: Option<usize>)
        requires
            self.wf(),
        ensures
            match r {
                Some(i) => i < self.keys@.len() && self.keys@[i as int]@ == k@
                    && self@.dom().contains(k@) && self@[k@] == self.vals@[i as int],
                None => !self@.dom().contains(k@),
            },
    {
        let mut i: usize = 0;
        while i < self.keys.len()
            invariant
                i <= self.keys@.len(),
                forall|j: int| 0 <= j < i ==> texts(self.keys@)[j] != k@,
                self.wf(),
            decreases self.keys@.len() - i,
        {
            if same(&self.keys[i], k) {
                proof {
                    self.lemma_entry(i as int);
                }
                return Some(i);
            }
            i += 1;
        }
        assert(!texts(self.keys@).contains(k@));
        None
    }

    /// Whether `k` has a value.
    pub fn contains_key(&self, k: &str) -> (r: bool)
        requires
            self.wf(),
        ensures
            r == self@.dom().contains(k@),
    {
        self.position(k).is_some()
    }

    /// The value of `k`.
    pub fn get(&self, k: &str) -> (r: Option<&V>)
        requires
            self.wf(),
        ensures
            match r {
                Some(v) => self@.dom().contains(k@) && *v == self@[k@],
                None => !self@.dom().contains(k@),
            },
    {
        match self.position(k) {
            Some(i) => Some(&self.vals[i]),
            None => None,
        }
    }

    /// Gives `k` the value `v`. A value that it had before is returned.
    pub fn insert(&mut self, k: String, v: V) -> (r: Option<V>)
        requires
            old(self).wf(),
        ensures
            final(self).wf(),
            final(self)@ == old(self)@.insert(k@, v),
            final(self).names() == if old(self)@.dom().contains(k@) {
                old(self).names()
            } else {
                old(self).names().push(k@)
            },
            match r {
                Some(w) => old(self)@.dom().contains(k@) && w == old(self)@[k@],
                None => !old(self)@.dom().contains(k@),
            },
            forall|w: V| #[trigger]
                final(self).vals@.contains(w) ==> old(self).vals@.contains(w) || w == v,
    {
        match self.position(&k) {
            Some(i) => {
                let ghost nv = v;
                self.vals.push(v);
                let w = self.vals.swap_remove(i);
                proof {
                    assert(self.vals@ == old(self).vals@.update(i as int, nv));
                    assert forall|q: V| #[trigger] self.vals@.contains(q) implies old(
                        self,
                    ).vals@.contains(q) || q == nv by {
                        let j = choose|j: int| 0 <= j < self.vals@.len() && self.vals@[j] == q;
                        if j != i {
                            assert(old(self).vals@[j] == q);
                        }
                    }
                    assert(self.keys@ == old(self).keys@);
                    assert forall|q: Seq<char>| self@.dom().contains(q) implies self@[q] == old(
                        self,
                    )@.insert(k@, nv)[q] by {
                        let j = key_pos(texts(self.keys@), q);
                        assert(0 <= j < self.keys@.len() && texts(self.keys@)[j] == q);
                        if j == i {
                            assert(q == k@);
                        } else {
                            assert(q != k@) by {
                                assert(texts(self.keys@)[i as int] == k@);
                            }
                        }
                    }
                    assert(self@ == old(self)@.insert(k@, nv));
                }
                Some(w)
            },
            None => {
                let ghost kk = k@;
                self.keys.push(k);
                self.vals.push(v);
                proof {
                    assert(texts(self.keys@) == texts(old(self).keys@).push(kk));
                    assert forall|q: V| #[trigger] self.vals@.contains(q) implies old(
                        self,
                    ).vals@.contains(q) || q == v by {
                        let j = choose|j: int| 0 <= j < self.vals@.len() && self.vals@[j] == q;
                        if j < old(self).vals@.len() {
                            assert(old(self).vals@[j] == q);
                        }
                    }
                    assert(self.wf());
                    assert forall|q: Seq<char>| #[trigger]
                        self@.dom().contains(q) == old(self)@.insert(kk, v).dom().contains(q) by {
                        if old(self)@.dom().contains(q) {
                            let j = key_pos(texts(old(self).keys@), q);
                            assert(texts(self.keys@)[j] == q);
                        }
                        if q == kk {
                            assert(texts(self.keys@)[self.keys@.len() - 1] == q);
                        }
                        if self@.dom().contains(q) && q != kk {
                            let j = key_pos(texts(self.keys@), q);
                            assert(texts(self.keys@)[j] == q);
                            assert(texts(old(self).keys@)[j] == q);
                        }
                    }
                    assert forall|q: Seq<char>| self@.dom().contains(q) implies self@[q] == old(
                        self,
                    )@.insert(kk, v)[q] by {
                        let j = key_pos(texts(self.keys@), q);
                        assert(0 <= j < self.keys@.len() && texts(self.keys@)[j] == q);
                        if q == kk {
                            assert(texts(self.keys@)[self.keys@.len() - 1] == q);
                        } else {
                            assert(texts(old(self).keys@)[j] == q);
                            old(self).lemma_entry(j);
                        }
                    }
                    assert(self@ == old(self)@.insert(kk, v));
                }
                None
            },
        }
    }

    /// Takes the entry at position `i` out of the map.
    pub fn remove_at(&mut self, i: usize) -> (r: (String, V))
        requires
            old(self).wf(),
            i < old(self).keys@.len(),
        ensures
            final(self).wf(),
            final(self).keys@ == old(self).keys@.remove(i as int),
            final(self).vals@ == old(self).vals@.remove(i as int),
            final(self)@ == old(self)@.remove(old(self).keys@[i as int]@),
            final(self).names() == without(old(self).names(), old(self).keys@[i as int]@),
            r.0 == old(self).keys@[i as int],
            r.1 == old(self).vals@[i as int],
    {
        let ghost okeys = texts(self.keys@);
        let ghost k = self.keys@[i as int]@;
        let gone = self.keys.remove(i);
        let w = self.vals.remove(i);
        proof {
            assert(texts(self.keys@) == okeys.remove(i as int));
            assert(self.wf());
            lemma_filter_remove(okeys, i as int, k);
            assert forall|q: Seq<char>| #[trigger]
                self@.dom().contains(q) == old(self)@.remove(k).dom().contains(q) by {
                if old(self)@.dom().contains(q) && q != k {
                    let j = key_pos(okeys, q);
                    let j2 = if j < i { j } else { j - 1 };
                    assert(texts(self.keys@)[j2] == q);
                }
                if self@.dom().contains(q) {
                    let j = key_pos(texts(self.keys@), q);
                    let j2 = if j < i { j } else { j + 1 };
                    assert(okeys[j2] == q);
                    assert(j2 != i);
                    assert(okeys[i as int] == k);
                }
            }
            assert forall|q: Seq<char>| self@.dom().contains(q) implies self@[q] == old(self)@[q] by {
                let j = key_pos(texts(self.keys@), q);
                assert(0 <= j < self.keys@.len() && texts(self.keys@)[j] == q);
                let j2 = if j < i { j } else { j + 1 };
                assert(okeys[j2] == q);
                old(self).lemma_entry(j2);
            }
            assert(self@ == old(self)@.remove(k));
        }
        (gone, w)
    }

    /// Takes `k` and its value out of the map. The other names keep their order.
    pub fn remove(&mut self, k: &str) -> (r: Option<V>)
        requires
            old(self).wf(),
        ensures
            final(self).wf(),
            final(self)@ == old(self)@.remove(k@),
            final(self).names() == without(old(self).names(), k@),
            forall|v: V| #[trigger]
                final(self).vals@.contains(v) ==> old(self).vals@.contains(v),
            match r {
                Some(w) => old(self)@.dom().contains(k@) && w == old(self)@[k@],
                None => !old(self)@.dom().contains(k@) && *final(self) == *old(self),
            },
    {
        match self.position(k) {
            Some(i) => {
                let (gone, w) = self.remove_at(i);
                proof {
                    assert forall|v: V| #[trigger] self.vals@.contains(v) implies old(
                        self,
                    ).vals@.contains(v) by {
                        let j = choose|j: int| 0 <= j < self.vals@.len() && self.vals@[j] == v;
                        let j2 = if j < i { j } else { j + 1 };
                        assert(old(self).vals@[j2] == v);
                    }
                }
                Some(w)
            },
            None => {
                proof {
                    assert(self@ == old(self)@.remove(k@));
                    lemma_filter_all(self.names(), k@);
                }
                None
            },
        }
    }

    /// The value at position `i`, to be changed in place.
    pub fn at_mut(&mut self, i: usize) -> (r: &mut V)
        requires
            old(self).wf(),
            i < old(self).keys@.len(),
        ensures
            *r == old(self).vals@[i as int],
            final(self).keys@ == old(self).keys@,
            final(self).vals@ == old(self).vals@.update(i as int, *final(r)),
            final(self).wf(),
    {
        &mut self.vals[i]
    }

    /// Changing the value at one position changes the map at that name alone.
    pub proof fn lemma_update(before: &Self, after: &Self, i: int)
        requires
            before.wf(),
            0 <= i < before.keys@.len(),
            after.keys@ == before.keys@,
            after.vals@ == before.vals@.update(i, after.vals@[i]),
        ensures
            after.wf(),
            after.names() == before.names(),
            after@ == before@.insert(before.keys@[i]@, after.vals@[i]),
    {
        let k = before.keys@[i]@;
        assert(texts(after.keys@) == texts(before.keys@));
        before.lemma_entry(i);
        assert forall|q: Seq<char>| after@.dom().contains(q) implies after@[q] == before@.insert(
            k,
            after.vals@[i],
        )[q] by {
            let j = key_pos(texts(after.keys@), q);
            assert(0 <= j < after.keys@.len() && texts(after.keys@)[j] == q);
            if j == i {
                assert(q == k);
            } else {
                assert(texts(after.keys@)[i] == k);
                assert(q != k);
            }
        }
        assert(after@ == before@.insert(k, after.vals@[i]));
    }

    /// Whether the map is empty.
    pub fn is_empty(&self) -> (r: bool)
        requires
            self.wf(),
        ensures
            r == (self.names().len() == 0),
    {
        self.keys.len() == 0
    }

    /// How many names have a value.
    pub fn len(&self) -> (r: usize)
        requires
            self.wf(),
        ensures
            r == self.names().len(),
    {
        self.keys.len()
    }

    /// The names in order of insertion.
    pub fn key_list(&self) -> (r: Vec<String>)
        requires
            self.wf(),
        ensures
            texts(r@) == self.names(),
            r@ == self.keys@,
    {
        crate::text::clone_strings(&self.keys)
    }
}

proof fn lemma_filter_all(s: Seq<Seq<char>>, k: Seq<char>)
    requires
        !s.contains(k),
    ensures
        without(s, k) == s,
    decreases s.len(),
{
    reveal(Seq::filter);
    if s.len() > 0 {
        let r = s.drop_last();
        assert forall|i: int| 0 <= i < r.len() implies r[i] != k by {
            assert(s[i] == r[i]);
        }
        lemma_filter_all(r, k);
        assert(s[s.len() - 1] == s.last());
        assert(s == r.push(s.last()));
    }
}

proof fn lemma_filter_remove(s: Seq<Seq<char>>, i: int, k: Seq<char>)
    requires
        0 <= i < s.len(),
        s[i] == k,
        s.no_duplicates(),
    ensures
        without(s, k) == s.remove(i),
    decreases s.len(),
{
    reveal(Seq::filter);
    let r = s.drop_last();
    if i == s.len() - 1 {
        assert forall|j: int| 0 <= j < r.len() implies r[j] != k by {
            assert(s[j] == r[j]);
        }
        lemma_filter_all(r, k);
        assert(s.remove(i) == r);
    } else {
        assert(r.no_duplicates());
        lemma_filter_remove(r, i, k);
        assert(s.last() != k);
        assert(s.remove(i) == r.remove(i).push(s.last()));
    }
}

} // verus!
