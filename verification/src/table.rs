//! A keyed table of component rows.
//!
//! Every component kind of the world is stored in one `Table`: a list of rows,
//! each owned by one entity id, with at most one row per id. Rows keep the order
//! in which they were first inserted, so every pass over a table is deterministic.

use crate::entity::Entity;
use vstd::prelude::*;

verus! {

/// Whether `rows` lists the map `m`: every row is an entry of the map, no
/// entity has two rows, and every entry of the map has its row.
pub open spec fn lists<T>(m: Map<i64, T>, rows: Seq<(Entity, T)>) -> bool {
    &&& forall|i: int|
        0 <= i < rows.len() ==> m.dom().contains((#[trigger] rows[i]).0.id) && m[rows[i].0.id]
            == rows[i].1
    &&& forall|i: int, j: int|
        0 <= i < j < rows.len() ==> (#[trigger] rows[i]).0.id != (#[trigger] rows[j]).0.id
    &&& forall|e: i64| #[trigger]
        m.dom().contains(e) ==> exists|i: int| 0 <= i < rows.len() && (#[trigger] rows[i]).0.id == e
}

/// Rows of one component kind, keyed by entity id.
pub struct Table<T> {
    keys: Vec<i64>,
    vals: Vec<T>,
}

impl<T> Table<T> {
    /// The entity ids of the rows, in row order.
    pub closed spec fn keys(&self) -> Seq<i64> {
        self.keys@
    }

    /// The row values, in row order.
    pub closed spec fn vals(&self) -> Seq<T> {
        self.vals@
    }

    /// Every row has a key and a value, and no key occurs twice.
    pub open spec fn wf(&self) -> bool {
        &&& self.keys().len() == self.vals().len()
        &&& self.keys().no_duplicates()
    }

    /// The table as a map from entity id to row value.
    pub open spec fn view(&self) -> Map<i64, T> {
        Map::new(
            |k: i64| self.keys().contains(k),
            |k: i64| self.vals()[self.keys().index_of(k)],
        )
    }

    /// The row at position `i` is the map's entry for its key.
    pub proof fn lemma_row(&self, i: int)
        requires
            self.wf(),
            0 <= i < self.keys().len(),
        ensures
            self@.dom().contains(self.keys()[i]),
            self@[self.keys()[i]] == self.vals()[i],
            self.keys().index_of(self.keys()[i]) == i,
    {
        let k = self.keys()[i];
        assert(self.keys().contains(k));
        let j = self.keys().index_of(k);
        assert(0 <= j < self.keys().len() && self.keys()[j] == k);
    }

    /// Every entry of the map is a row of the table.
    pub proof fn lemma_key(&self, k: i64) -> (i: int)
        requires
            self.wf(),
            self@.dom().contains(k),
        ensures
            0 <= i < self.keys().len(),
            self.keys()[i] == k,
            self.vals()[i] == self@[k],
    {
        self.keys().index_of(k)
    }

    /// The map has as many entries as the table has rows.
    pub proof fn lemma_len(&self)
        requires
            self.wf(),
        ensures
            self@.dom().finite(),
            self@.dom().len() == self.keys().len(),
    {
        self.keys().unique_seq_to_set();
        vstd::seq_lib::seq_to_set_is_finite(self.keys());
        assert(self@.dom() =~= self.keys().to_set());
    }

    /// Where every row of this table is `f` of the row that `before` has in
    /// its place, the map of this table is the map of `before` with `f`
    /// applied to every entry.
    pub proof fn lemma_mapped(&self, before: &Self, f: spec_fn(i64, T) -> T)
        requires
            self.wf(),
            before.wf(),
            self.keys() == before.keys(),
            forall|j: int|
                0 <= j < before.keys().len() ==> #[trigger] self.vals()[j] == f(
                    before.keys()[j],
                    before.vals()[j],
                ),
        ensures
            self@ == Map::new(|k: i64| before@.dom().contains(k), |k: i64| f(k, before@[k])),
    {
        let target = Map::new(|k: i64| before@.dom().contains(k), |k: i64| f(k, before@[k]));
        assert forall|k: i64| #[trigger] self@.dom().contains(k) implies self@[k] == target[k] by {
            let j = self.lemma_key(k);
            before.lemma_row(j);
        }
        assert(self@ =~= target);
    }

    /// Two tables with the same rows in the same order are the same map.
    pub proof fn lemma_same_rows(&self, other: &Self)
        requires
            self.keys() == other.keys(),
            self.vals() == other.vals(),
        ensures
            self@ == other@,
            self.wf() == other.wf(),
    {
        assert(self@ =~= other@);
    }

    /// An empty table.
    pub fn new() -> (t: Self)
        ensures
            t.wf(),
            t.keys() == Seq::<i64>::empty(),
            t.vals() == Seq::<T>::empty(),
            t@ == Map::<i64, T>::empty(),
    {
        let t = Table { keys: Vec::new(), vals: Vec::new() };
        assert(t@ =~= Map::<i64, T>::empty());
        t
    }

    /// The number of rows.
    pub fn len(&self) -> (n: usize)
        ensures
            n == self.keys().len(),
    {
        self.keys.len()
    }

    /// The entity id of row `i`.
    pub fn key_at(&self, i: usize) -> (k: i64)
        requires
            i < self.keys().len(),
        ensures
            k == self.keys()[i as int],
    {
        self.keys[i]
    }

    /// The value of row `i`.
    pub fn value_at(&self, i: usize) -> (v: &T)
        requires
            self.wf(),
            i < self.keys().len(),
        ensures
            *v == self.vals()[i as int],
    {
        &self.vals[i]
    }

    /// The position of the row of entity `k`, if it has one.
    pub fn position(&self, k: i64) -> (r: Option<usize>)
        requires
            self.wf(),
        ensures
            r.is_some() == self@.dom().contains(k),
            r matches Some(i) ==> i < self.keys().len() && self.keys()[i as int] == k,
    {
        let mut i: usize = 0;
        while i < self.keys.len()
            invariant
                i <= self.keys@.len(),
                forall|j: int| 0 <= j < i ==> self.keys@[j] != k,
            decreases self.keys@.len() - i,
        {
            if self.keys[i] == k {
                assert(self.keys().contains(k));
                return Some(i);
            }
            i = i + 1;
        }
        None
    }

    /// Whether entity `k` has a row.
    pub fn contains(&self, k: i64) -> (b: bool)
        requires
            self.wf(),
        ensures
            b == self@.dom().contains(k),
    {
        self.position(k).is_some()
    }

    /// The row value of entity `k`, if it has one.
    pub fn get(&self, k: i64) -> (r: Option<&T>)
        requires
            self.wf(),
        ensures
            r.is_some() == self@.dom().contains(k),
            r matches Some(v) ==> *v == self@[k],
    {
        match self.position(k) {
            Some(i) => {
                proof {
                    self.lemma_row(i as int);
                }
                Some(&self.vals[i])
            },
            None => None,
        }
    }

    /// Replaces the value of row `i`, keeping its key and its place.
    pub fn set_value_at(&mut self, i: usize, v: T)
        requires
            old(self).wf(),
            i < old(self).keys().len(),
        ensures
            final(self).wf(),
            final(self).keys() == old(self).keys(),
            final(self).vals() == old(self).vals().update(i as int, v),
            final(self)@ == old(self)@.insert(old(self).keys()[i as int], v),
    {
        let ghost before = *self;
        self.vals.set(i, v);
        proof {
            let k = before.keys()[i as int];
            before.lemma_row(i as int);
            assert forall|q: i64| self@.dom().contains(q) implies #[trigger] self@[q]
                == before@.insert(k, v)[q] by {
                let j = self.keys().index_of(q);
                assert(0 <= j < self.keys().len() && self.keys()[j] == q);
            }
            assert(self@ =~= before@.insert(k, v));
        }
    }

    /// Replaces the values of all rows at once, keeping keys and order.
    pub fn replace_values(&mut self, vals: Vec<T>)
        requires
            old(self).wf(),
            vals.len() == old(self).keys().len(),
        ensures
            final(self).wf(),
            final(self).keys() == old(self).keys(),
            final(self).vals() == vals@,
    {
        self.vals = vals;
    }

    /// Inserts a row for entity `k`, or replaces the value of the row it has.
    /// A replaced row keeps its place; a new row goes to the end.
    pub fn upsert(&mut self, k: i64, v: T)
        requires
            old(self).wf(),
        ensures
            final(self).wf(),
            final(self)@ == old(self)@.insert(k, v),
            old(self)@.dom().contains(k) ==> final(self).keys() == old(self).keys(),
            !old(self)@.dom().contains(k) ==> final(self).keys() == old(self).keys().push(k)
                && final(self).vals() == old(self).vals().push(v),
    {
        match self.position(k) {
            Some(i) => {
                self.set_value_at(i, v);
            },
            None => {
                let ghost before = *self;
                self.keys.push(k);
                self.vals.push(v);
                proof {
                    let n = before.keys().len() as int;
                    assert(self.keys()[n] == k);
                    assert forall|q: i64| self.keys().contains(q) <==> (q == k
                        || before.keys().contains(q)) by {
                        if before.keys().contains(q) {
                            let j = before.keys().index_of(q);
                            assert(self.keys()[j] == q);
                        }
                        if self.keys().contains(q) && q != k {
                            let j = self.keys().index_of(q);
                            assert(before.keys()[j] == q);
                        }
                    }
                    assert forall|q: i64| self@.dom().contains(q) implies #[trigger] self@[q]
                        == before@.insert(k, v)[q] by {
                        let j = self.keys().index_of(q);
                        assert(0 <= j < self.keys().len() && self.keys()[j] == q);
                        if q != k {
                            assert(before.keys()[j] == q);
                            before.lemma_row(j);
                        }
                    }
                    assert(self@ =~= before@.insert(k, v));
                }
            },
        }
    }

    /// Removes the row of entity `k`, if it has one; the other rows keep their order.
    pub fn remove(&mut self, k: i64) -> (removed: bool)
        requires
            old(self).wf(),
        ensures
            final(self).wf(),
            removed == old(self)@.dom().contains(k),
            final(self)@ == old(self)@.remove(k),
            !removed ==> final(self).keys() == old(self).keys() && final(self).vals() == old(
                self,
            ).vals(),
            forall|q: i64| final(self).keys().contains(q) ==> old(self).keys().contains(q),
    {
        match self.position(k) {
            Some(i) => {
                let ghost before = *self;
                self.keys.remove(i);
                self.vals.remove(i);
                proof {
                    let ii = i as int;
                    assert forall|a: int| 0 <= a < self.keys().len() implies self.keys()[a] == (if a
                        < ii {
                        before.keys()[a]
                    } else {
                        before.keys()[a + 1]
                    }) && self.vals()[a] == (if a < ii {
                        before.vals()[a]
                    } else {
                        before.vals()[a + 1]
                    }) by {}
                    assert forall|q: i64| self.keys().contains(q) <==> (q != k
                        && before.keys().contains(q)) by {
                        if self.keys().contains(q) {
                            let a = self.keys().index_of(q);
                            let b = if a < ii { a } else { a + 1 };
                            assert(before.keys()[b] == q);
                        }
                        if q != k && before.keys().contains(q) {
                            let b = before.keys().index_of(q);
                            let a = if b < ii { b } else { b - 1 };
                            assert(self.keys()[a] == q);
                        }
                    }
                    assert forall|q: i64| self@.dom().contains(q) implies #[trigger] self@[q]
                        == before@.remove(k)[q] by {
                        let a = self.keys().index_of(q);
                        assert(0 <= a < self.keys().len() && self.keys()[a] == q);
                        let b = if a < ii { a } else { a + 1 };
                        before.lemma_row(b);
                    }
                    assert(self@ =~= before@.remove(k));
                }
                true
            },
            None => {
                assert(self@ =~= self@.remove(k));
                false
            },
        }
    }
}

impl<T: Clone> Table<T> {
    /// A copy of the table, for a row type whose clone equals what was cloned.
    pub fn duplicate(&self) -> (t: Self)
        requires
            self.wf(),
            forall|a: T, b: T| cloned(a, b) ==> a == b,
        ensures
            t.wf(),
            t.keys() == self.keys(),
            t.vals() == self.vals(),
            t@ == self@,
    {
        let keys = self.keys.clone();
        let vals = self.vals.clone();
        assert(keys@ =~= self.keys@);
        assert(vals@ =~= self.vals@);
        let t = Table { keys, vals };
        proof {
            t.lemma_same_rows(self);
        }
        t
    }

    /// The rows of the table, each with its entity, in row order, for a row
    /// type whose clone equals what was cloned.
    pub fn entries(&self) -> (rows: Vec<(Entity, T)>)
        requires
            self.wf(),
            forall|a: T, b: T| cloned(a, b) ==> a == b,
        ensures
            lists(self@, rows@),
            rows@.len() == self.keys().len(),
            forall|i: int|
                0 <= i < rows@.len() ==> (#[trigger] rows@[i]).0.id == self.keys()[i] && rows@[i].1
                    == self.vals()[i],
    {
        let mut rows: Vec<(Entity, T)> = Vec::new();
        let mut i: usize = 0;
        while i < self.keys.len()
            invariant
                self.wf(),
                forall|a: T, b: T| cloned(a, b) ==> a == b,
                i <= self.keys@.len(),
                rows@.len() == i,
                forall|j: int|
                    0 <= j < i ==> (#[trigger] rows@[j]).0.id == self.keys@[j] && rows@[j].1
                        == self.vals@[j],
            decreases self.keys@.len() - i,
        {
            let v = self.vals[i].clone();
            assert(cloned(self.vals@[i as int], v));
            rows.push((Entity { id: self.keys[i] }, v));
            i = i + 1;
        }
        proof {
            assert forall|j: int| 0 <= j < rows@.len() implies self@.dom().contains(
                (#[trigger] rows@[j]).0.id,
            ) && self@[rows@[j].0.id] == rows@[j].1 by {
                self.lemma_row(j);
            }
            assert forall|e: i64| #[trigger] self@.dom().contains(e) implies exists|j: int|
                0 <= j < rows@.len() && (#[trigger] rows@[j]).0.id == e by {
                let j = self.lemma_key(e);
                assert(rows@[j].0.id == e);
            }
        }
        rows
    }
}

} // verus!
