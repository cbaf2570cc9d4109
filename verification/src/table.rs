//! Values under names, kept in the order of the names.

use crate::text::{ascending, before, lex_irreflexive, lex_lt, lex_total, lex_transitive, same};
use crate::value::{Value, ValueView};
use vstd::prelude::*;

verus! {

/// A map from names to values whose rows stand in the order of the names, each name once.
#[derive(Debug)]
pub struct Table {
    rows: Vec<(String, Value)>,
}

pub open spec fn row_names(rows: Seq<(String, Value)>) -> Seq<Seq<char>> {
    rows.map_values(|r: (String, Value)| r.0@)
}

/// The map that rows stand for.
pub open spec fn rows_map(rows: Seq<(String, Value)>) -> Map<Seq<char>, ValueView>
    decreases rows.len(),
{
    if rows.len() == 0 {
        Map::empty()
    } else {
        rows_map(rows.drop_last()).insert(rows.last().0@, rows.last().1@)
    }
}

/// Do the rows hold each entry of the map once, in the order of the names?
pub open spec fn ordered_rows(rows: Seq<(String, Value)>, map: Map<Seq<char>, ValueView>) -> bool {
    ascending(row_names(rows)) && rows_map(rows) == map
}

proof fn map_keys(rows: Seq<(String, Value)>, name: Seq<char>)
    ensures
        rows_map(rows).contains_key(name) <==> row_names(rows).contains(name),
    decreases rows.len(),
{
    if rows.len() > 0 {
        let rest = rows.drop_last();
        map_keys(rest, name);
        if row_names(rest).contains(name) {
            let k = choose|k: int| 0 <= k < rest.len() && row_names(rest)[k] == name;
            assert(row_names(rows)[k] == name);
        }
        if rows.last().0@ == name {
            assert(row_names(rows)[rows.len() - 1] == name);
        }
        if row_names(rows).contains(name) {
            let k = choose|k: int| 0 <= k < rows.len() && row_names(rows)[k] == name;
            if k < rest.len() {
                assert(row_names(rest)[k] == name);
            }
        }
    }
}

proof fn map_value(rows: Seq<(String, Value)>, i: int)
    requires
        ascending(row_names(rows)),
        0 <= i < rows.len(),
    ensures
        rows_map(rows).contains_key(rows[i].0@),
        rows_map(rows)[rows[i].0@] == rows[i].1@,
    decreases rows.len(),
{
    let rest = rows.drop_last();
    if i < rest.len() {
        assert forall|a: int, b: int| 0 <= a < b < rest.len() implies #[trigger] lex_lt(
            row_names(rest)[a],
            row_names(rest)[b],
        ) by {
            assert(lex_lt(row_names(rows)[a], row_names(rows)[b]));
        }
        map_value(rest, i);
        assert(rest[i] == rows[i]);
        assert(lex_lt(row_names(rows)[i], row_names(rows)[rows.len() - 1]));
        lex_irreflexive(rows[i].0@);
    }
}

/// Two maps of rows agree when they have the same names and the same value under each.
proof fn map_from_rows(rows: Seq<(String, Value)>, map: Map<Seq<char>, ValueView>)
    requires
        ascending(row_names(rows)),
        forall|name: Seq<char>| #[trigger]
            map.contains_key(name) <==> row_names(rows).contains(name),
        forall|i: int| 0 <= i < rows.len() ==> map[(#[trigger] rows[i]).0@] == rows[i].1@,
    ensures
        rows_map(rows) == map,
{
    assert forall|name: Seq<char>| rows_map(rows).contains_key(name) == map.contains_key(name) by {
        map_keys(rows, name);
    }
    assert forall|name: Seq<char>| rows_map(rows).contains_key(name) implies rows_map(rows)[name]
        == map[name] by {
        map_keys(rows, name);
        let k = choose|k: int| 0 <= k < rows.len() && row_names(rows)[k] == name;
        map_value(rows, k);
        assert(rows[k].0@ == name);
    }
    assert(rows_map(rows) =~= map);
}

impl View for Table {
    type V = Map<Seq<char>, ValueView>;

    closed spec fn view(&self) -> Map<Seq<char>, ValueView> {
        rows_map(self.rows@)
    }
}

impl Table {
    /// The rows are in order.
    pub closed spec fn wf(self) -> bool {
        ascending(row_names(self.rows@))
    }

    pub fn new() -> (r: Table)
        ensures
            r.wf(),
            r@ == Map::<Seq<char>, ValueView>::empty(),
    {
        Table { rows: Vec::new() }
    }

    /// Where `name` stands, or where it would.
    fn place(&self, name: &str) -> (r: (usize, bool))
        requires
            self.wf(),
        ensures
            r.0 <= self.rows@.len(),
            r.1 ==> r.0 < self.rows@.len() && self.rows@[r.0 as int].0@ == name@,
            forall|i: int| 0 <= i < r.0 ==> lex_lt(#[trigger] row_names(self.rows@)[i], name@),
            !r.1 ==> forall|i: int|
                r.0 <= i < self.rows@.len() ==> lex_lt(name@, #[trigger] row_names(self.rows@)[i]),
    {
        let mut i: usize = 0;
        while i < self.rows.len() && before(self.rows[i].0.as_str(), name)
            invariant
                i <= self.rows.len(),
                forall|j: int| 0 <= j < i ==> lex_lt(#[trigger] row_names(self.rows@)[j], name@),
            decreases self.rows.len() - i,
        {
            assert(row_names(self.rows@)[i as int] == self.rows@[i as int].0@);
            i += 1;
        }
        if i < self.rows.len() && same(self.rows[i].0.as_str(), name) {
            return (i, true);
        }
        proof {
            let names = row_names(self.rows@);
            assert forall|j: int| i <= j < names.len() implies lex_lt(
                name@,
                #[trigger] names[j],
            ) by {
                assert(names[i as int] == self.rows@[i as int].0@);
                lex_total(names[i as int], name@);
                if j > i {
                    assert(lex_lt(names[i as int], names[j]));
                    lex_transitive(name@, names[i as int], names[j]);
                }
            }
        }
        (i, false)
    }

    proof fn absent(&self, name: Seq<char>, at: int)
        requires
            0 <= at <= self.rows@.len(),
            forall|i: int| 0 <= i < at ==> lex_lt(#[trigger] row_names(self.rows@)[i], name),
            forall|i: int|
                at <= i < self.rows@.len() ==> lex_lt(name, #[trigger] row_names(self.rows@)[i]),
        ensures
            !self@.contains_key(name),
    {
        map_keys(self.rows@, name);
        if row_names(self.rows@).contains(name) {
            let k = choose|k: int| 0 <= k < self.rows@.len() && row_names(self.rows@)[k] == name;
            assert(row_names(self.rows@)[k] == name);
            lex_irreflexive(name);
        }
    }

    /// The value under `name`.
    pub fn get(&self, name: &str) -> (r: Option<&Value>)
        requires
            self.wf(),
        ensures
            match r {
                Some(v) => self@.contains_key(name@) && self@[name@] == v@,
                None => !self@.contains_key(name@),
            },
    {
        let (at, found) = self.place(name);
        if found {
            proof {
                map_value(self.rows@, at as int);
            }
            Some(&self.rows[at].1)
        } else {
            proof {
                self.absent(name@, at as int);
            }
            None
        }
    }

    /// Put `value` under `name`, in place of what is there.
    pub fn set(&mut self, name: &str, value: Value)
        requires
            old(self).wf(),
        ensures
            final(self).wf(),
            final(self)@ == old(self)@.insert(name@, value@),
    {
        let ghost was = self.rows@;
        let ghost names = row_names(was);
        let ghost v = value@;
        let (at, found) = self.place(name);
        let ghost want = self@.insert(name@, v);
        if found {
            self.rows[at] = (name.to_owned(), value);
            proof {
                let now = self.rows@;
                assert(row_names(now) =~= names);
                assert forall|k: Seq<char>| #[trigger] want.contains_key(k) <==> row_names(
                    now,
                ).contains(k) by {
                    map_keys(was, k);
                    assert(names[at as int] == name@);
                }
                assert forall|i: int| 0 <= i < now.len() implies want[(#[trigger] now[i]).0@]
                    == now[i].1@ by {
                    if i != at {
                        assert(now[i] == was[i]);
                        map_value(was, i);
                        if i < at {
                            assert(lex_lt(names[i], names[at as int]));
                        } else {
                            assert(lex_lt(names[at as int], names[i]));
                        }
                        lex_irreflexive(name@);
                    }
                }
                map_from_rows(now, want);
            }
        } else {
            self.rows.insert(at, (name.to_owned(), value));
            proof {
                let now = self.rows@;
                let now_names = row_names(now);
                assert(now_names =~= names.insert(at as int, name@));
                assert forall|i: int, j: int| 0 <= i < j < now_names.len() implies #[trigger] lex_lt(
                    now_names[i],
                    now_names[j],
                ) by {
                    let a = if i < at {
                        i
                    } else {
                        i - 1
                    };
                    let b = if j < at {
                        j
                    } else {
                        j - 1
                    };
                    if i == at {
                        assert(now_names[j] == names[b]);
                    } else if j == at {
                        assert(now_names[i] == names[a]);
                    } else {
                        assert(lex_lt(names[a], names[b]));
                        assert(now_names[i] == names[a]);
                        assert(now_names[j] == names[b]);
                    }
                }
                assert forall|k: Seq<char>| #[trigger] want.contains_key(k) <==> now_names.contains(
                    k,
                ) by {
                    map_keys(was, k);
                    if names.contains(k) {
                        let m = choose|m: int| 0 <= m < names.len() && names[m] == k;
                        if m < at {
                            assert(now_names[m] == k);
                        } else {
                            assert(now_names[m + 1] == k);
                        }
                    }
                    assert(now_names[at as int] == name@);
                    if now_names.contains(k) {
                        let m = choose|m: int| 0 <= m < now_names.len() && now_names[m] == k;
                        if m < at {
                            assert(names[m] == k);
                        } else if m > at {
                            assert(names[m - 1] == k);
                        }
                    }
                }
                assert forall|i: int| 0 <= i < now.len() implies want[(#[trigger] now[i]).0@]
                    == now[i].1@ by {
                    if i != at {
                        let a = if i < at {
                            i
                        } else {
                            i - 1
                        };
                        assert(now[i] == was[a]);
                        map_value(was, a);
                        assert(names[a] == was[a].0@);
                        lex_irreflexive(name@);
                    }
                }
                map_from_rows(now, want);
            }
        }
    }

    /// Take out what is under `name`, if anything.
    pub fn remove(&mut self, name: &str)
        requires
            old(self).wf(),
        ensures
            final(self).wf(),
            final(self)@ == old(self)@.remove(name@),
    {
        let ghost was = self.rows@;
        let ghost names = row_names(was);
        let ghost want = self@.remove(name@);
        let (at, found) = self.place(name);
        if found {
            let _gone = self.rows.remove(at);
            proof {
                let now = self.rows@;
                let now_names = row_names(now);
                assert(now_names =~= names.remove(at as int));
                assert forall|i: int, j: int| 0 <= i < j < now_names.len() implies #[trigger] lex_lt(
                    now_names[i],
                    now_names[j],
                ) by {
                    let a = if i < at {
                        i
                    } else {
                        i + 1
                    };
                    let b = if j < at {
                        j
                    } else {
                        j + 1
                    };
                    assert(lex_lt(names[a], names[b]));
                }
                assert forall|k: Seq<char>| #[trigger] want.contains_key(k) <==> now_names.contains(
                    k,
                ) by {
                    map_keys(was, k);
                    assert(names[at as int] == name@);
                    if names.contains(k) && k != name@ {
                        let m = choose|m: int| 0 <= m < names.len() && names[m] == k;
                        if m < at {
                            assert(now_names[m] == k);
                        } else {
                            assert(now_names[m - 1] == k);
                        }
                    }
                    if now_names.contains(k) {
                        let m = choose|m: int| 0 <= m < now_names.len() && now_names[m] == k;
                        if m < at {
                            assert(names[m] == k);
                            assert(lex_lt(names[m], names[at as int]));
                        } else {
                            assert(names[m + 1] == k);
                            assert(lex_lt(names[at as int], names[m + 1]));
                        }
                        lex_irreflexive(name@);
                    }
                }
                assert forall|i: int| 0 <= i < now.len() implies want[(#[trigger] now[i]).0@]
                    == now[i].1@ by {
                    let a = if i < at {
                        i
                    } else {
                        i + 1
                    };
                    assert(now[i] == was[a]);
                    map_value(was, a);
                    if i < at {
                        assert(lex_lt(names[i], names[at as int]));
                    } else {
                        assert(lex_lt(names[at as int], names[i + 1]));
                    }
                    lex_irreflexive(name@);
                }
                map_from_rows(now, want);
            }
        } else {
            proof {
                self.absent(name@, at as int);
                assert(want =~= self@);
            }
        }
    }

    /// Copies of the rows, in the order of the names.
    pub fn rows(&self) -> (r: Vec<(String, Value)>)
        requires
            self.wf(),
        ensures
            ordered_rows(r@, self@),
    {
        let mut r: Vec<(String, Value)> = Vec::new();
        let mut i: usize = 0;
        while i < self.rows.len()
            invariant
                i <= self.rows.len(),
                r.len() == i,
                forall|j: int|
                    0 <= j < i ==> (#[trigger] r@[j]).0@ == self.rows@[j].0@ && r@[j].1@
                        == self.rows@[j].1@,
            decreases self.rows.len() - i,
        {
            r.push((self.rows[i].0.clone(), self.rows[i].1.dup()));
            i += 1;
        }
        proof {
            assert(row_names(r@) =~= row_names(self.rows@));
            same_rows(r@, self.rows@);
        }
        r
    }

    /// Write every row of `other` into this table.
    pub fn extend(&mut self, other: &Table)
        requires
            old(self).wf(),
            other.wf(),
        ensures
            final(self).wf(),
            final(self)@ == old(self)@.union_prefer_right(other@),
    {
        let ghost was = self@;
        let mut i: usize = 0;
        proof {
            assert(other.rows@.take(0) =~= Seq::empty());
            assert(was.union_prefer_right(rows_map(other.rows@.take(0))) =~= was);
        }
        while i < other.rows.len()
            invariant
                i <= other.rows.len(),
                self.wf(),
                self@ == was.union_prefer_right(rows_map(other.rows@.take(i as int))),
            decreases other.rows.len() - i,
        {
            proof {
                let next = other.rows@.take(i + 1);
                assert(next.drop_last() =~= other.rows@.take(i as int));
                assert(next.last() == other.rows@[i as int]);
            }
            self.set(other.rows[i].0.as_str(), other.rows[i].1.dup());
            assert(self@ =~= was.union_prefer_right(rows_map(other.rows@.take(i + 1))));
            i += 1;
        }
        assert(other.rows@.take(i as int) =~= other.rows@);
    }

    /// The table of rows that are in order.
    pub fn from_rows(rows: Vec<(String, Value)>) -> (r: Table)
        requires
            ascending(row_names(rows@)),
        ensures
            r.wf(),
            r@ == rows_map(rows@),
    {
        Table { rows }
    }

    /// A table with the same rows.
    pub fn dup(&self) -> (r: Table)
        requires
            self.wf(),
        ensures
            r.wf(),
            r@ == self@,
    {
        Table { rows: self.rows() }
    }
}

proof fn same_rows(a: Seq<(String, Value)>, b: Seq<(String, Value)>)
    requires
        a.len() == b.len(),
        forall|j: int| 0 <= j < a.len() ==> (#[trigger] a[j]).0@ == b[j].0@ && a[j].1@ == b[j].1@,
    ensures
        rows_map(a) == rows_map(b),
    decreases a.len(),
{
    if a.len() > 0 {
        assert(a[a.len() - 1].0@ == b[b.len() - 1].0@);
        assert forall|j: int| 0 <= j < a.drop_last().len() implies (
        #[trigger] a.drop_last()[j]).0@ == b.drop_last()[j].0@ && a.drop_last()[j].1@
            == b.drop_last()[j].1@ by {
            assert(a[j].0@ == b[j].0@);
        }
        same_rows(a.drop_last(), b.drop_last());
    }
}

} // verus!
