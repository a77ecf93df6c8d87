//! Bindings: finite maps from variables to the terms they stand for.
use crate::term::{AtomicTerm, TermView};
use vstd::prelude::*;

verus! {

/// A map from terms (in practice, variables) to terms, in insertion order.
pub struct Binding {
    entries: Vec<(AtomicTerm, AtomicTerm)>,
}

impl Binding {
    /// No two entries have the same key.
    #[verifier::type_invariant]
    closed spec fn distinct_keys(self) -> bool {
        forall|i: int, j: int|
            0 <= i < j < self.entries@.len() ==> (#[trigger] self.entries@[i]).0@
                != (#[trigger] self.entries@[j]).0@
    }

    closed spec fn has_key_at(&self, k: TermView, i: int) -> bool {
        0 <= i < self.entries@.len() && self.entries@[i].0@ == k
    }

    /// The map that the binding stands for.
    pub closed spec fn map_view(&self) -> Map<TermView, TermView> {
        Map::new(
            |k: TermView| exists|i: int| self.has_key_at(k, i),
            |k: TermView| self.entries@[choose|i: int| self.has_key_at(k, i)].1@,
        )
    }

    /// The keys of the binding, in insertion order.
    pub closed spec fn keys_view(&self) -> Seq<TermView> {
        self.entries@.map_values(|e: (AtomicTerm, AtomicTerm)| e.0@)
    }

    /// An empty binding.
    pub fn new() -> (r: Binding)
        ensures
            r@ == Map::<TermView, TermView>::empty(),
            r.keys_view() == Seq::<TermView>::empty(),
    {
        let r = Binding { entries: Vec::new() };
        assert(r@ =~= Map::<TermView, TermView>::empty());
        assert(r.keys_view() =~= Seq::<TermView>::empty());
        r
    }

    /// The number of entries.
    pub fn len(&self) -> (r: usize)
        ensures
            r == self.keys_view().len(),
    {
        self.entries.len()
    }

    fn find(&self, key: &AtomicTerm) -> (r: Option<usize>)
        ensures
            match r {
                Some(i) => self.has_key_at(key@, i as int),
                None => !self@.dom().contains(key@),
            },
    {
        let mut i: usize = 0;
        while i < self.entries.len()
            invariant
                i <= self.entries@.len(),
                forall|j: int| 0 <= j < i ==> self.entries@[j].0@ != key@,
            decreases self.entries@.len() - i,
        {
            if self.entries[i].0.equals(key) {
                return Some(i);
            }
            i += 1;
        }
        proof {
            if self@.dom().contains(key@) {
                let j = choose|j: int| self.has_key_at(key@, j);
                assert(self.entries@[j].0@ != key@);
            }
        }
        None
    }

    proof fn lemma_value_at(&self, k: TermView, i: int)
        requires
            self.distinct_keys(),
            self.has_key_at(k, i),
        ensures
            self@.dom().contains(k),
            self@[k] == self.entries@[i].1@,
    {
        assert(self@.dom().contains(k));
        let j = choose|j: int| self.has_key_at(k, j);
        if i != j {
            if i < j {
                assert(self.entries@[i].0@ != self.entries@[j].0@);
            } else {
                assert(self.entries@[j].0@ != self.entries@[i].0@);
            }
        }
    }

    /// Whether `key` is bound.
    pub fn contains_key(&self, key: &AtomicTerm) -> (r: bool)
        ensures
            r == self@.dom().contains(key@),
    {
        match self.find(key) {
            Some(i) => {
                proof {
                    use_type_invariant(self);
                    self.lemma_value_at(key@, i as int);
                }
                true
            },
            None => false,
        }
    }

    /// The term bound to `key`, if any.
    pub fn get(&self, key: &AtomicTerm) -> (r: Option<&AtomicTerm>)
        ensures
            match r {
                Some(v) => self@.dom().contains(key@) && self@[key@] == v@,
                None => !self@.dom().contains(key@),
            },
    {
        match self.find(key) {
            Some(i) => {
                proof {
                    use_type_invariant(self);
                    self.lemma_value_at(key@, i as int);
                }
                Some(&self.entries[i].1)
            },
            None => None,
        }
    }

    /// Bind `key` to `value`, replacing an earlier binding of `key`.
    pub fn insert(&mut self, key: AtomicTerm, value: AtomicTerm)
        ensures
            final(self)@ == old(self)@.insert(key@, value@),
            old(self)@.dom().contains(key@) ==> final(self).keys_view() == old(self).keys_view(),
            !old(self)@.dom().contains(key@) ==> final(self).keys_view() == old(self).keys_view().push(key@),
    {
        proof {
            use_type_invariant(&*self);
        }
        let ghost old_self = *self;
        match self.find(&key) {
            Some(i) => {
                let ghost k = key@;
                let mut entries = Vec::new();
                std::mem::swap(&mut entries, &mut self.entries);
                entries.set(i, (key, value));
                self.entries = entries;
                proof {
                    assert forall|a: int, b: int|
                        0 <= a < b < self.entries@.len() implies (#[trigger] self.entries@[a]).0@
                        != (#[trigger] self.entries@[b]).0@ by {
                        assert(old_self.entries@[a].0@ != old_self.entries@[b].0@);
                    }
                    assert forall|kk: TermView| #[trigger] self@.dom().contains(kk) <==> old_self@.insert(k, value@).dom().contains(kk) by {
                        if self@.dom().contains(kk) {
                            let j = choose|j: int| self.has_key_at(kk, j);
                            if j != i {
                                assert(old_self.has_key_at(kk, j));
                            }
                        }
                        if old_self@.dom().contains(kk) && kk != k {
                            let j = choose|j: int| old_self.has_key_at(kk, j);
                            assert(self.has_key_at(kk, j));
                        }
                        if kk == k {
                            assert(self.has_key_at(kk, i as int));
                        }
                    }
                    assert forall|kk: TermView| #[trigger] self@.dom().contains(kk) implies self@[kk] == old_self@.insert(k, value@)[kk] by {
                        let j = choose|j: int| self.has_key_at(kk, j);
                        self.lemma_value_at(kk, j);
                        if j != i {
                            old_self.lemma_value_at(kk, j);
                        }
                    }
                    assert(self@ =~= old_self@.insert(k, value@));
                    assert(self.keys_view() =~= old_self.keys_view());
                }
            },
            None => {
                let ghost k = key@;
                let ghost v = value@;
                let mut entries = Vec::new();
                std::mem::swap(&mut entries, &mut self.entries);
                entries.push((key, value));
                proof {
                    let n = old_self.entries@.len() as int;
                    assert forall|a: int, b: int|
                        0 <= a < b < entries@.len() implies (#[trigger] entries@[a]).0@
                        != (#[trigger] entries@[b]).0@ by {
                        if b == n {
                            assert(!old_self.has_key_at(k, a));
                        } else {
                            assert(old_self.entries@[a].0@ != old_self.entries@[b].0@);
                        }
                    }
                }
                self.entries = entries;
                proof {
                    let n = old_self.entries@.len() as int;
                    assert forall|kk: TermView| #[trigger] self@.dom().contains(kk) <==> old_self@.insert(k, v).dom().contains(kk) by {
                        if self@.dom().contains(kk) {
                            let j = choose|j: int| self.has_key_at(kk, j);
                            if j != n {
                                assert(old_self.has_key_at(kk, j));
                            }
                        }
                        if old_self@.dom().contains(kk) {
                            let j = choose|j: int| old_self.has_key_at(kk, j);
                            assert(self.has_key_at(kk, j));
                        }
                        if kk == k {
                            assert(self.has_key_at(kk, n));
                        }
                    }
                    assert forall|kk: TermView| #[trigger] self@.dom().contains(kk) implies self@[kk] == old_self@.insert(k, v)[kk] by {
                        let j = choose|j: int| self.has_key_at(kk, j);
                        self.lemma_value_at(kk, j);
                        if j != n {
                            old_self.lemma_value_at(kk, j);
                        }
                    }
                    assert(self@ =~= old_self@.insert(k, v));
                    assert(self.keys_view() =~= old_self.keys_view().push(k));
                }
            },
        }
    }
}

impl View for Binding {
    type V = Map<TermView, TermView>;

    closed spec fn view(&self) -> Map<TermView, TermView> {
        self.map_view()
    }
}

} // verus!
