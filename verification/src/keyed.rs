//! Things kept under names, in order.

use crate::text::{ascending, before, lex_irreflexive, lex_lt, lex_total, lex_transitive, same};
use vstd::prelude::*;

verus! {

/// A map from names to things.
#[derive(Debug)]
pub struct Keyed<V> {
    rows: Vec<(String, V)>,
}

/// The names of rows.
pub open spec fn keys<V>(rows: Seq<(String, V)>) -> Seq<Seq<char>> {
    rows.map_values(|r: (String, V)| r.0@)
}

/// Is there a row of this name?
pub open spec fn has_row<V>(rows: Seq<(String, V)>, name: Seq<char>) -> bool {
    exists|i: int| 0 <= i < rows.len() && (#[trigger] rows[i]).0@ == name
}

/// The row of a name.
pub open spec fn row_of<V>(rows: Seq<(String, V)>, name: Seq<char>) -> int {
    choose|i: int| 0 <= i < rows.len() && (#[trigger] rows[i]).0@ == name
}

/// The map that rows stand for.
pub open spec fn rows_as_map<V>(rows: Seq<(String, V)>) -> Map<Seq<char>, V> {
    Map::new(|name: Seq<char>| has_row(rows, name), |name: Seq<char>| rows[row_of(rows, name)].1)
}

impl<V> View for Keyed<V> {
    type V = Map<Seq<char>, V>;

    closed spec fn view(&self) -> Map<Seq<char>, V> {
        rows_as_map(self.rows@)
    }
}

proof fn row_is_its_own<V>(rows: Seq<(String, V)>, i: int)
    requires
        ascending(keys(rows)),
        0 <= i < rows.len(),
    ensures
        has_row(rows, rows[i].0@),
        row_of(rows, rows[i].0@) == i,
        rows_as_map(rows).contains_key(rows[i].0@),
        rows_as_map(rows)[rows[i].0@] == rows[i].1,
{
    let k = keys(rows);
    let j = row_of(rows, rows[i].0@);
    assert(rows[i].0@ == rows[i].0@);
    assert(k[i] == k[j]);
    if i < j {
        assert(lex_lt(k[i], k[j]));
        lex_irreflexive(k[i]);
    } else if j < i {
        assert(lex_lt(k[j], k[i]));
        lex_irreflexive(k[i]);
    }
}

impl<V> Keyed<V> {
    #[verifier::type_invariant]
    spec fn sorted(self) -> bool {
        ascending(keys(self.rows@))
    }

    pub fn new() -> (r: Keyed<V>)
        ensures
            r@ == Map::<Seq<char>, V>::empty(),
    {
        let r = Keyed { rows: Vec::new() };
        assert(r@ =~= Map::empty());
        r
    }

    /// What is kept under a name.
    pub fn get(&self, name: &str) -> (r: Option<&V>)
        ensures
            match r {
                Some(v) => self@.contains_key(name@) && *v == self@[name@],
                None => !self@.contains_key(name@),
            },
    {
        proof {
            use_type_invariant(self);
        }
        let mut i: usize = 0;
        while i < self.rows.len()
            invariant
                i <= self.rows.len(),
                ascending(keys(self.rows@)),
                forall|j: int| 0 <= j < i ==> (#[trigger] self.rows@[j]).0@ != name@,
            decreases self.rows.len() - i,
        {
            if same(self.rows[i].0.as_str(), name) {
                proof {
                    row_is_its_own(self.rows@, i as int);
                }
                return Some(&self.rows[i].1);
            }
            i += 1;
        }
        None
    }

    /// Keep a thing under a name, in place of what is there.
    pub fn put(&mut self, name: String, value: V)
        ensures
            final(self)@ == old(self)@.insert(name@, value),
    {
        proof {
            use_type_invariant(&*self);
        }
        let ghost was = self@;
        let ghost x = name@;
        let ghost v = value;
        let mut rows: Vec<(String, V)> = Vec::new();
        std::mem::swap(&mut rows, &mut self.rows);
        let ghost first = rows@;
        let ghost k0 = keys(first);
        let mut at: usize = 0;
        while at < rows.len() && before(rows[at].0.as_str(), name.as_str())
            invariant
                at <= rows.len(),
                x == name@,
                rows@ == first,
                k0 == keys(first),
                forall|j: int| 0 <= j < at ==> lex_lt(#[trigger] k0[j], x),
            decreases rows.len() - at,
        {
            assert(k0[at as int] == rows@[at as int].0@);
            at += 1;
        }
        let there = at < rows.len() && same(rows[at].0.as_str(), name.as_str());
        proof {
            if at < first.len() {
                assert(k0[at as int] == first[at as int].0@);
            }
            assert forall|j: int| at < j < k0.len() implies lex_lt(x, #[trigger] k0[j]) by {
                lex_total(k0[at as int], x);
                assert(lex_lt(k0[at as int], k0[j]));
                if k0[at as int] != x {
                    lex_transitive(x, k0[at as int], k0[j]);
                }
            }
        }
        if there {
            rows.set(at, (name, value));
            proof {
                let now = rows@;
                assert(keys(now) =~= k0) by {
                    assert(now[at as int].0@ == x);
                    assert forall|i: int| 0 <= i < now.len() implies keys(now)[i] == k0[i] by {
                        assert(keys(now)[i] == now[i].0@);
                        assert(k0[i] == first[i].0@);
                    }
                }
                same_rows(first, now, at as int, x, v);
            }
        } else {
            rows.insert(at, (name, value));
            proof {
                let now = rows@;
                let k1 = keys(now);
                assert(k1 =~= k0.insert(at as int, x));
                if at < k0.len() {
                    lex_total(k0[at as int], x);
                }
                assert forall|i: int, j: int| 0 <= i < j < k1.len() implies #[trigger] lex_lt(
                    k1[i],
                    k1[j],
                ) by {
                    let a = if i < at { i } else { i - 1 };
                    let b = if j < at { j } else { j - 1 };
                    if i == at {
                        assert(k1[j] == k0[b]);
                    } else if j == at {
                        assert(k1[i] == k0[a]);
                    } else {
                        assert(k1[i] == k0[a]);
                        assert(k1[j] == k0[b]);
                        assert(lex_lt(k0[a], k0[b]));
                    }
                }
                more_rows(first, now, at as int, x, v);
            }
        }
        self.rows = rows;
    }

    /// Forget what is kept under a name.
    pub fn forget(&mut self, name: &str)
        ensures
            final(self)@ == old(self)@.remove(name@),
    {
        proof {
            use_type_invariant(&*self);
        }
        let ghost was = self@;
        let mut rows: Vec<(String, V)> = Vec::new();
        std::mem::swap(&mut rows, &mut self.rows);
        let ghost first = rows@;
        let ghost k0 = keys(first);
        let mut at: usize = 0;
        while at < rows.len() && !same(rows[at].0.as_str(), name)
            invariant
                at <= rows.len(),
                rows@ == first,
                forall|j: int| 0 <= j < at ==> (#[trigger] first[j]).0@ != name@,
            decreases rows.len() - at,
        {
            at += 1;
        }
        if at < rows.len() {
            let _ = rows.remove(at);
            proof {
                let now = rows@;
                assert(now =~= first.remove(at as int));
                assert(keys(now) =~= k0.remove(at as int));
                assert forall|i: int, j: int| 0 <= i < j < now.len() implies #[trigger] lex_lt(
                    keys(now)[i],
                    keys(now)[j],
                ) by {
                    let a = if i < at { i } else { i + 1 };
                    let b = if j < at { j } else { j + 1 };
                    assert(lex_lt(k0[a], k0[b]));
                }
                fewer_rows(first, now, at as int);
            }
        } else {
            assert(was.remove(name@) =~= was);
        }
        self.rows = rows;
    }

    /// The rows, in the order of their names.
    pub closed spec fn entries(&self) -> Seq<(String, V)> {
        self.rows@
    }

    /// The rows, in the order of their names.
    pub fn rows(&self) -> (r: &Vec<(String, V)>)
        ensures
            r@ == self.entries(),
            ascending(keys(r@)),
            rows_as_map(r@) == self@,
    {
        proof {
            use_type_invariant(self);
        }
        &self.rows
    }
}

proof fn same_rows<V>(
    a: Seq<(String, V)>,
    b: Seq<(String, V)>,
    at: int,
    x: Seq<char>,
    v: V,
)
    requires
        ascending(keys(a)),
        keys(b) == keys(a),
        0 <= at < a.len() == b.len(),
        b[at].0@ == x,
        b[at].1 == v,
        forall|i: int| 0 <= i < a.len() && i != at ==> a[i] == b[i],
    ensures
        rows_as_map(b) == rows_as_map(a).insert(x, v),
{
    assert forall|n: Seq<char>| rows_as_map(b).contains_key(n) <==> rows_as_map(a).insert(
        x,
        v,
    ).contains_key(n) by {
        if has_row(b, n) {
            let i = row_of(b, n);
            assert(keys(b)[i] == keys(a)[i]);
            assert(a[i].0@ == n);
        }
        if has_row(a, n) {
            let i = row_of(a, n);
            assert(keys(b)[i] == keys(a)[i]);
            assert(b[i].0@ == n);
        }
    }
    assert forall|n: Seq<char>| #[trigger] rows_as_map(b).contains_key(n) implies rows_as_map(b)[n]
        == rows_as_map(a).insert(x, v)[n] by {
        let i = row_of(b, n);
        row_is_its_own(b, i);
        assert(keys(b)[i] == keys(a)[i]);
        row_is_its_own(a, i);
        if n == x {
            row_is_its_own(b, at);
        }
    }
    assert(rows_as_map(b) =~= rows_as_map(a).insert(x, v));
}

proof fn more_rows<V>(
    a: Seq<(String, V)>,
    b: Seq<(String, V)>,
    at: int,
    x: Seq<char>,
    v: V,
)
    requires
        ascending(keys(a)),
        ascending(keys(b)),
        0 <= at <= a.len(),
        b.len() == a.len() + 1,
        b[at].0@ == x,
        b[at].1 == v,
        forall|i: int| 0 <= i < at ==> a[i] == b[i],
        forall|i: int| at <= i < a.len() ==> a[i] == b[i + 1],
    ensures
        rows_as_map(b) == rows_as_map(a).insert(x, v),
{
    assert forall|n: Seq<char>| rows_as_map(b).contains_key(n) <==> rows_as_map(a).insert(
        x,
        v,
    ).contains_key(n) by {
        if has_row(b, n) && n != x {
            let i = row_of(b, n);
            let m = if i < at { i } else { i - 1 };
            assert(a[m].0@ == n);
        }
        if has_row(a, n) {
            let i = row_of(a, n);
            let m = if i < at { i } else { i + 1 };
            assert(b[m].0@ == n);
        }
        assert(b[at].0@ == x);
    }
    assert forall|n: Seq<char>| #[trigger] rows_as_map(b).contains_key(n) implies rows_as_map(b)[n]
        == rows_as_map(a).insert(x, v)[n] by {
        let i = row_of(b, n);
        row_is_its_own(b, i);
        if n == x {
            row_is_its_own(b, at);
        } else {
            let m = if i < at { i } else { i - 1 };
            row_is_its_own(a, m);
        }
    }
    assert(rows_as_map(b) =~= rows_as_map(a).insert(x, v));
}

proof fn fewer_rows<V>(a: Seq<(String, V)>, b: Seq<(String, V)>, at: int)
    requires
        ascending(keys(a)),
        ascending(keys(b)),
        0 <= at < a.len(),
        b == a.remove(at),
    ensures
        rows_as_map(b) == rows_as_map(a).remove(a[at].0@),
{
    let x = a[at].0@;
    assert forall|n: Seq<char>| rows_as_map(b).contains_key(n) <==> rows_as_map(a).remove(
        x,
    ).contains_key(n) by {
        if has_row(b, n) {
            let i = row_of(b, n);
            let m = if i < at { i } else { i + 1 };
            assert(a[m].0@ == n);
            row_is_its_own(a, m);
            row_is_its_own(a, at);
        }
        if has_row(a, n) && n != x {
            let i = row_of(a, n);
            let m = if i < at { i } else { i - 1 };
            assert(b[m].0@ == n);
        }
    }
    assert forall|n: Seq<char>| #[trigger] rows_as_map(b).contains_key(n) implies rows_as_map(b)[n]
        == rows_as_map(a).remove(x)[n] by {
        let i = row_of(b, n);
        row_is_its_own(b, i);
        let m = if i < at { i } else { i + 1 };
        row_is_its_own(a, m);
    }
    assert(rows_as_map(b) =~= rows_as_map(a).remove(x));
}

} // verus!
