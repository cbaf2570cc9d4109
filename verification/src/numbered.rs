//! Things kept under numbers.

use vstd::prelude::*;

verus! {

/// A map from numbers to things that are copied.
#[derive(Debug)]
pub struct Numbered<V> {
    rows: Vec<(usize, V)>,
}

/// The map that rows stand for, of which the last for a number counts.
spec fn rows_map<V>(rows: Seq<(usize, V)>) -> Map<usize, V>
    decreases rows.len(),
{
    if rows.len() == 0 {
        Map::empty()
    } else {
        rows_map(rows.drop_last()).insert(rows.last().0, rows.last().1)
    }
}

impl<V> View for Numbered<V> {
    type V = Map<usize, V>;

    closed spec fn view(&self) -> Map<usize, V> {
        rows_map(self.rows@)
    }
}

impl<V: Copy> Numbered<V> {
    pub fn new() -> (r: Numbered<V>)
        ensures
            r@ == Map::<usize, V>::empty(),
    {
        Numbered { rows: Vec::new() }
    }

    /// What is kept under a number.
    pub fn get(&self, id: usize) -> (r: Option<V>)
        ensures
            r == (if self@.contains_key(id) {
                Some(self@[id])
            } else {
                None
            }),
    {
        let ghost rows = self.rows@;
        let mut k: usize = self.rows.len();
        assert(rows.take(k as int) =~= rows);
        while k > 0
            invariant
                k <= self.rows.len(),
                rows == self.rows@,
                rows_map(rows).contains_key(id) == rows_map(rows.take(k as int)).contains_key(id),
                rows_map(rows).contains_key(id) ==> rows_map(rows)[id] == rows_map(
                    rows.take(k as int),
                )[id],
            decreases k,
        {
            assert(rows.take(k as int).drop_last() =~= rows.take(k - 1));
            k -= 1;
            if self.rows[k].0 == id {
                return Some(self.rows[k].1);
            }
        }
        None
    }

    /// Forget what is kept under a number.
    pub fn remove(&mut self, id: usize)
        ensures
            final(self)@ == old(self)@.remove(id),
    {
        let ghost rows = self.rows@;
        let mut left: Vec<(usize, V)> = Vec::new();
        let mut i: usize = 0;
        assert(rows_map(rows.take(0)).remove(id) =~= Map::empty());
        while i < self.rows.len()
            invariant
                i <= self.rows.len(),
                rows == self.rows@,
                rows_map(left@) == rows_map(rows.take(i as int)).remove(id),
            decreases self.rows.len() - i,
        {
            let ghost before = left@;
            proof {
                assert(rows.take(i + 1).drop_last() =~= rows.take(i as int));
            }
            if self.rows[i].0 != id {
                left.push(self.rows[i]);
                assert(left@.drop_last() =~= before);
            }
            assert(rows_map(left@) =~= rows_map(rows.take(i + 1)).remove(id));
            i += 1;
        }
        assert(rows.take(i as int) =~= rows);
        self.rows = left;
    }

    /// Keep a thing under a number, in place of what is there.
    pub fn insert(&mut self, id: usize, value: V)
        ensures
            final(self)@ == old(self)@.insert(id, value),
    {
        let ghost was = self@;
        self.remove(id);
        let ghost before = self.rows@;
        self.rows.push((id, value));
        proof {
            assert(self.rows@.drop_last() =~= before);
            assert(self@ =~= was.insert(id, value));
        }
    }
}

} // verus!
