//! Sets of names, and of pairs of names, in order.

use crate::text::{
    ascending, before, insert_text, lex_irreflexive, lex_lt, lex_total, lex_transitive, listed, same,
    views,
};
use vstd::prelude::*;

verus! {

/// A set of names.
#[derive(Debug)]
pub struct Names {
    list: Vec<String>,
}

impl View for Names {
    type V = Set<Seq<char>>;

    closed spec fn view(&self) -> Set<Seq<char>> {
        views(self.list@).to_set()
    }
}

proof fn ascending_distinct(s: Seq<Seq<char>>)
    requires
        ascending(s),
    ensures
        s.no_duplicates(),
{
    assert forall|i: int, j: int| 0 <= i < s.len() && 0 <= j < s.len() && i != j implies s[i]
        != s[j] by {
        if i < j {
            assert(lex_lt(s[i], s[j]));
        } else {
            assert(lex_lt(s[j], s[i]));
        }
        lex_irreflexive(s[i]);
    }
}

impl Names {
    #[verifier::type_invariant]
    spec fn sorted(self) -> bool {
        ascending(views(self.list@))
    }

    /// No names.
    pub fn new() -> (r: Names)
        ensures
            r@ == Set::<Seq<char>>::empty(),
    {
        let r = Names { list: Vec::new() };
        assert(r@ =~= Set::empty());
        r
    }

    /// Is this name in the set?
    pub fn has(&self, name: &str) -> (r: bool)
        ensures
            r == self@.contains(name@),
    {
        listed(&self.list, name)
    }

    /// Put a name into the set.
    pub fn put(&mut self, name: &str)
        ensures
            final(self)@ == old(self)@.insert(name@),
    {
        proof {
            use_type_invariant(&*self);
        }
        let ghost was = self@;
        let ghost before = views(self.list@);
        let mut list: Vec<String> = Vec::new();
        std::mem::swap(&mut list, &mut self.list);
        insert_text(&mut list, name);
        let ghost after = views(list@);
        self.list = list;
        proof {
            assert forall|x: Seq<char>| self@.contains(x) <==> was.insert(name@).contains(x) by {
                assert(after.contains(x) <==> x == name@ || before.contains(x));
            }
            assert(self@ =~= was.insert(name@));
        }
    }

    /// The names, in ascending order.
    pub fn list(&self) -> (r: &Vec<String>)
        ensures
            ascending(views(r@)),
            views(r@).to_set() == self@,
    {
        proof {
            use_type_invariant(self);
        }
        &self.list
    }

    /// How many names there are.
    pub fn count(&self) -> (r: usize)
        ensures
            r == self@.len(),
            self@.finite(),
    {
        proof {
            use_type_invariant(self);
            ascending_distinct(views(self.list@));
            views(self.list@).unique_seq_to_set();
        }
        self.list.len()
    }
}

impl Default for Names {
    fn default() -> (r: Names)
        ensures
            r@ == Set::<Seq<char>>::empty(),
    {
        Names::new()
    }
}

// ---- pairs ----

/// The order of pairs of names: by the first, and by the second where the first are the same.
pub open spec fn pair_lt(a: (Seq<char>, Seq<char>), b: (Seq<char>, Seq<char>)) -> bool {
    lex_lt(a.0, b.0) || (a.0 == b.0 && lex_lt(a.1, b.1))
}

pub open spec fn pair_views(s: Seq<(String, String)>) -> Seq<(Seq<char>, Seq<char>)> {
    s.map_values(|p: (String, String)| (p.0@, p.1@))
}

/// Each pair of the list strictly before the next.
pub open spec fn pairs_ascending(s: Seq<(Seq<char>, Seq<char>)>) -> bool {
    forall|i: int, j: int| 0 <= i < j < s.len() ==> #[trigger] pair_lt(s[i], s[j])
}

proof fn pair_transitive(
    a: (Seq<char>, Seq<char>),
    b: (Seq<char>, Seq<char>),
    c: (Seq<char>, Seq<char>),
)
    requires
        pair_lt(a, b),
        pair_lt(b, c),
    ensures
        pair_lt(a, c),
{
    if lex_lt(a.0, b.0) && lex_lt(b.0, c.0) {
        lex_transitive(a.0, b.0, c.0);
    } else if a.0 == b.0 && b.0 == c.0 {
        lex_transitive(a.1, b.1, c.1);
    }
}

proof fn pair_irreflexive(a: (Seq<char>, Seq<char>))
    ensures
        !pair_lt(a, a),
{
    lex_irreflexive(a.0);
    lex_irreflexive(a.1);
}

proof fn pair_total(a: (Seq<char>, Seq<char>), b: (Seq<char>, Seq<char>))
    ensures
        a != b ==> pair_lt(a, b) || pair_lt(b, a),
{
    lex_total(a.0, b.0);
    lex_total(a.1, b.1);
}

/// A set of pairs of names.
#[derive(Debug)]
pub struct Pairs {
    list: Vec<(String, String)>,
}

impl View for Pairs {
    type V = Set<(Seq<char>, Seq<char>)>;

    closed spec fn view(&self) -> Set<(Seq<char>, Seq<char>)> {
        pair_views(self.list@).to_set()
    }
}

impl Pairs {
    #[verifier::type_invariant]
    spec fn sorted(self) -> bool {
        pairs_ascending(pair_views(self.list@))
    }

    /// No pairs.
    pub fn new() -> (r: Pairs)
        ensures
            r@ == Set::<(Seq<char>, Seq<char>)>::empty(),
    {
        let r = Pairs { list: Vec::new() };
        assert(r@ =~= Set::empty());
        r
    }

    /// Is this pair in the set?
    pub fn has(&self, first: &str, second: &str) -> (r: bool)
        ensures
            r == self@.contains((first@, second@)),
    {
        let ghost all = pair_views(self.list@);
        let mut i: usize = 0;
        while i < self.list.len()
            invariant
                i <= self.list.len(),
                all == pair_views(self.list@),
                forall|j: int| 0 <= j < i ==> #[trigger] all[j] != (first@, second@),
            decreases self.list.len() - i,
        {
            if same(self.list[i].0.as_str(), first) && same(self.list[i].1.as_str(), second) {
                assert(all[i as int] == (first@, second@));
                assert(all.contains((first@, second@)));
                return true;
            }
            assert(all[i as int] == (self.list@[i as int].0@, self.list@[i as int].1@));
            i += 1;
        }
        false
    }

    /// Put a pair into the set.
    pub fn put(&mut self, first: &str, second: &str)
        ensures
            final(self)@ == old(self)@.insert((first@, second@)),
    {
        proof {
            use_type_invariant(&*self);
        }
        let ghost was = self@;
        let ghost old_rows = pair_views(self.list@);
        let ghost x = (first@, second@);
        let mut list: Vec<(String, String)> = Vec::new();
        std::mem::swap(&mut list, &mut self.list);
        let mut at: usize = 0;
        while at < list.len() && (before(list[at].0.as_str(), first) || (same(
            list[at].0.as_str(),
            first,
        ) && before(list[at].1.as_str(), second)))
            invariant
                at <= list.len(),
                x == (first@, second@),
                old_rows == pair_views(list@),
                forall|j: int| 0 <= j < at ==> pair_lt(#[trigger] old_rows[j], x),
            decreases list.len() - at,
        {
            assert(old_rows[at as int] == (list@[at as int].0@, list@[at as int].1@));
            at += 1;
        }
        if at < list.len() && same(list[at].0.as_str(), first) && same(list[at].1.as_str(), second) {
            proof {
                assert(old_rows[at as int] == x);
                assert(old_rows.contains(x));
                assert(was.insert(x) =~= was);
            }
            self.list = list;
            return;
        }
        proof {
            if at < list@.len() {
                assert(old_rows[at as int] == (list@[at as int].0@, list@[at as int].1@));
                assert(!pair_lt(old_rows[at as int], x));
                assert(old_rows[at as int] != x);
            }
        }
        list.insert(at, (first.to_owned(), second.to_owned()));
        proof {
            let now = pair_views(list@);
            assert(now =~= old_rows.insert(at as int, x));
            assert forall|j: int| at <= j < old_rows.len() implies pair_lt(
                x,
                #[trigger] old_rows[j],
            ) by {
                pair_total(old_rows[at as int], x);
                if j > at {
                    assert(pair_lt(old_rows[at as int], old_rows[j]));
                    pair_transitive(x, old_rows[at as int], old_rows[j]);
                }
            }
            assert forall|i: int, j: int| 0 <= i < j < now.len() implies #[trigger] pair_lt(
                now[i],
                now[j],
            ) by {
                let a = if i < at { i } else { i - 1 };
                let b = if j < at { j } else { j - 1 };
                if i == at {
                    assert(now[j] == old_rows[b]);
                } else if j == at {
                    assert(now[i] == old_rows[a]);
                } else {
                    assert(now[i] == old_rows[a]);
                    assert(now[j] == old_rows[b]);
                    assert(pair_lt(old_rows[a], old_rows[b]));
                }
            }
            assert forall|y: (Seq<char>, Seq<char>)| now.contains(y) <==> y == x
                || old_rows.contains(y) by {
                if old_rows.contains(y) {
                    let k = choose|k: int| 0 <= k < old_rows.len() && old_rows[k] == y;
                    let m = if k < at { k } else { k + 1 };
                    assert(now[m] == y);
                }
                assert(now[at as int] == x);
                if now.contains(y) && y != x {
                    let k = choose|k: int| 0 <= k < now.len() && now[k] == y;
                    let m = if k < at { k } else { k - 1 };
                    assert(old_rows[m] == y);
                }
            }
        }
        let ghost now = pair_views(list@);
        self.list = list;
        proof {
            assert forall|y: (Seq<char>, Seq<char>)| self@.contains(y) <==> was.insert(x).contains(
                y,
            ) by {
                assert(now.contains(y) <==> y == x || old_rows.contains(y));
            }
            assert(self@ =~= was.insert(x));
        }
    }

    /// The pairs, in ascending order.
    pub fn list(&self) -> (r: &Vec<(String, String)>)
        ensures
            pairs_ascending(pair_views(r@)),
            pair_views(r@).to_set() == self@,
    {
        proof {
            use_type_invariant(self);
        }
        &self.list
    }

    /// How many pairs there are.
    pub fn count(&self) -> (r: usize)
        ensures
            r == self@.len(),
            self@.finite(),
    {
        proof {
            use_type_invariant(self);
            let s = pair_views(self.list@);
            assert forall|i: int, j: int| 0 <= i < s.len() && 0 <= j < s.len() && i != j implies
                s[i] != s[j] by {
                if i < j {
                    assert(pair_lt(s[i], s[j]));
                } else {
                    assert(pair_lt(s[j], s[i]));
                }
                pair_irreflexive(s[i]);
            }
            s.unique_seq_to_set();
        }
        self.list.len()
    }
}

} // verus!
