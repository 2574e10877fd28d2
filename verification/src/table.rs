//! Tables that map texts to values.

use crate::text;
use vstd::prelude::*;

verus! {

/// A map from texts to values.
pub struct Table<V> {
    entries: Vec<(String, V)>,
}

impl<V> Table<V> {
    spec fn key(&self, i: int) -> Seq<char> {
        self.entries@[i].0@
    }

    spec fn holds(&self, i: int, k: Seq<char>) -> bool {
        0 <= i < self.entries@.len() && self.key(i) == k
    }

    spec fn place(&self, k: Seq<char>) -> int {
        choose|i: int| self.holds(i, k)
    }

    /// Whether every key stands in the table once.
    pub closed spec fn wf(&self) -> bool {
        forall|i: int, j: int|
            0 <= i < j < self.entries@.len() ==> #[trigger] self.key(i) != #[trigger] self.key(j)
    }

    /// The keys, in the order in which they came in.
    pub closed spec fn order(&self) -> Seq<Seq<char>> {
        Seq::new(self.entries@.len(), |i: int| self.key(i))
    }
}

impl<V> View for Table<V> {
    type V = Map<Seq<char>, V>;

    closed spec fn view(&self) -> Map<Seq<char>, V> {
        Map::new(
            |k: Seq<char>| exists|i: int| self.holds(i, k),
            |k: Seq<char>| self.entries@[self.place(k)].1,
        )
    }
}

impl<V> Table<V> {
    proof fn lemma_entry(&self, i: int)
        requires
            self.wf(),
            0 <= i < self.entries@.len(),
        ensures
            self@.dom().contains(self.key(i)),
            self@[self.key(i)] == self.entries@[i].1,
    {
        let k = self.key(i);
        assert(self.holds(i, k));
        let p = self.place(k);
        assert(self.holds(p, k));
        if p < i {
            assert(self.key(p) != self.key(i));
        } else if i < p {
            assert(self.key(i) != self.key(p));
        }
    }

    proof fn lemma_absent(&self, k: Seq<char>)
        requires
            forall|i: int| 0 <= i < self.entries@.len() ==> #[trigger] self.key(i) != k,
        ensures
            !self@.dom().contains(k),
    {
        assert forall|i: int| !self.holds(i, k) by {
            if 0 <= i < self.entries@.len() {
                assert(self.key(i) != k);
            }
        }
    }

    /// The keys in order are those of the map, each once.
    pub proof fn lemma_order(&self)
        requires
            self.wf(),
        ensures
            self.order().no_duplicates(),
            self.order().to_set() == self@.dom(),
            self@.dom().finite(),
            self.order().len() == self@.dom().len(),
    {
        let order = self.order();
        assert forall|i: int, j: int|
            0 <= i < order.len() && 0 <= j < order.len() && i != j implies order[i] != order[j] by {
            if i < j {
                assert(self.key(i) != self.key(j));
            } else {
                assert(self.key(j) != self.key(i));
            }
        }
        assert forall|k: Seq<char>| order.to_set().contains(k) == self@.dom().contains(k) by {
            if order.contains(k) {
                let i = choose|i: int| 0 <= i < order.len() && order[i] == k;
                self.lemma_entry(i);
            }
            if self@.dom().contains(k) {
                let i = self.place(k);
                assert(self.holds(i, k));
                assert(order[i] == k);
            }
        }
        assert(order.to_set() =~= self@.dom());
        order.unique_seq_to_set();
    }

    /// A table without entries.
    pub fn new() -> (r: Self)
        ensures
            r.wf(),
            r@ == Map::<Seq<char>, V>::empty(),
    {
        let r = Table { entries: Vec::new() };
        assert forall|k: Seq<char>| !r@.dom().contains(k) by {
            r.lemma_absent(k);
        }
        assert(r@ =~= Map::<Seq<char>, V>::empty());
        r
    }

    fn position(&self, k: &str) -> (r: usize)
        requires
            self.wf(),
        ensures
            r <= self.entries@.len(),
            forall|j: int| 0 <= j < r ==> #[trigger] self.key(j) != k@,
            r < self.entries@.len() ==> self.key(r as int) == k@ && self@.dom().contains(k@)
                && self@[k@] == self.entries@[r as int].1,
            r == self.entries@.len() ==> !self@.dom().contains(k@),
    {
        let mut i: usize = 0;
        while i < self.entries.len()
            invariant
                self.wf(),
                i <= self.entries@.len(),
                forall|j: int| 0 <= j < i ==> #[trigger] self.key(j) != k@,
            decreases self.entries@.len() - i,
        {
            if text::same(self.entries[i].0.as_str(), k) {
                proof {
                    self.lemma_entry(i as int);
                }
                return i;
            }
            i += 1;
        }
        proof {
            self.lemma_absent(k@);
        }
        i
    }

    /// The value of `k`.
    pub fn get(&self, k: &str) -> (r: Option<&V>)
        requires
            self.wf(),
        ensures
            r is Some == self@.dom().contains(k@),
            r matches Some(v) ==> *v == self@[k@],
    {
        let i = self.position(k);
        if i < self.entries.len() {
            Some(&self.entries[i].1)
        } else {
            None
        }
    }

    /// Sets the value of `k` to `v`.
    pub fn insert(&mut self, k: String, v: V)
        requires
            old(self).wf(),
        ensures
            final(self).wf(),
            final(self)@ == old(self)@.insert(k@, v),
    {
        let ghost before = *self;
        let i = self.position(k.as_str());
        if i < self.entries.len() {
            self.entries.set(i, (k, v));
            proof {
                assert forall|j: int| 0 <= j < self.entries@.len() implies #[trigger] self.key(j)
                    == before.key(j) by {}
            }
        } else {
            self.entries.push((k, v));
            proof {
                assert forall|j: int| 0 <= j < before.entries@.len() implies #[trigger] self.key(j)
                    == before.key(j) by {}
                assert(self.key(i as int) == k@);
            }
        }
        proof {
            assert(self.wf()) by {
                assert forall|a: int, b: int| 0 <= a < b < self.entries@.len() implies
                    #[trigger] self.key(a) != #[trigger] self.key(b) by {
                    if b < before.entries@.len() {
                        assert(before.key(a) != before.key(b));
                    } else {
                        assert(before.key(a) != k@);
                    }
                }
            }
            let after = before@.insert(k@, v);
            assert forall|x: Seq<char>|
                #![trigger self@.dom().contains(x)]
                #![trigger after.dom().contains(x)]
                #![trigger self@[x]]
                self@.dom().contains(x) == after.dom().contains(x) && (self@.dom().contains(x)
                    ==> self@[x] == after[x]) by {
                if self@.dom().contains(x) {
                    let j = self.place(x);
                    assert(self.holds(j, x));
                    self.lemma_entry(j);
                    if j == i {
                        assert(x == k@);
                    } else {
                        before.lemma_entry(j);
                        assert(x != k@) by {
                            self.lemma_entry(i as int);
                            if j < i {
                                assert(self.key(j) != self.key(i as int));
                            } else {
                                assert(self.key(i as int) != self.key(j));
                            }
                        }
                    }
                }
                if after.dom().contains(x) {
                    if x == k@ {
                        self.lemma_entry(i as int);
                    } else {
                        let j = before.place(x);
                        assert(before.holds(j, x));
                        self.lemma_entry(j);
                    }
                }
            }
            assert(self@ =~= after);
        }
    }

    /// Removes `k` and its value.
    pub fn remove(&mut self, k: &str)
        requires
            old(self).wf(),
        ensures
            final(self).wf(),
            final(self)@ == old(self)@.remove(k@),
    {
        let ghost before = *self;
        let i = self.position(k);
        if i < self.entries.len() {
            let _ = self.entries.remove(i);
            proof {
                assert forall|j: int| 0 <= j < self.entries@.len() implies #[trigger] self.key(j)
                    == before.key(if j < i { j } else { j + 1 }) && self.entries@[j]
                    == before.entries@[if j < i { j } else { j + 1 }] by {}
                assert forall|a: int, b: int| 0 <= a < b < self.entries@.len() implies
                    #[trigger] self.key(a) != #[trigger] self.key(b) by {
                    let c = if a < i { a } else { a + 1 };
                    let d = if b < i { b } else { b + 1 };
                    assert(before.key(c) != before.key(d));
                }
            }
        }
        proof {
            let after = before@.remove(k@);
            assert forall|x: Seq<char>|
                #![trigger self@.dom().contains(x)]
                #![trigger after.dom().contains(x)]
                #![trigger self@[x]]
                self@.dom().contains(x) == after.dom().contains(x) && (self@.dom().contains(x)
                    ==> self@[x] == after[x]) by {
                if i < before.entries@.len() {
                    if self@.dom().contains(x) {
                        let j = self.place(x);
                        assert(self.holds(j, x));
                        self.lemma_entry(j);
                        let c = if j < i { j } else { j + 1 };
                        before.lemma_entry(c);
                        if c < i {
                            assert(before.key(c) != before.key(i as int));
                        } else {
                            assert(before.key(i as int) != before.key(c));
                        }
                    }
                    if after.dom().contains(x) {
                        let c = before.place(x);
                        assert(before.holds(c, x));
                        let j = if c < i { c } else { c - 1 };
                        assert(self.key(j) == before.key(c));
                        self.lemma_entry(j);
                    }
                }
            }
            assert(self@ =~= after);
        }
    }

    /// The number of entries.
    pub fn len(&self) -> (r: usize)
        requires
            self.wf(),
        ensures
            r == self@.dom().len(),
            self@.dom().finite(),
    {
        proof {
            self.lemma_order();
        }
        self.entries.len()
    }

    /// All keys, in the order in which they came in.
    pub fn keys(&self) -> (r: Vec<String>)
        requires
            self.wf(),
        ensures
            text::texts(r@) == self.order(),
    {
        let mut out: Vec<String> = Vec::new();
        let mut i: usize = 0;
        while i < self.entries.len()
            invariant
                i <= self.entries@.len(),
                out@.len() == i,
                forall|j: int| 0 <= j < i ==> (#[trigger] out@[j])@ == self.key(j),
            decreases self.entries@.len() - i,
        {
            out.push(self.entries[i].0.clone());
            i += 1;
        }
        assert(text::texts(out@) =~= self.order());
        out
    }
}

} // verus!
