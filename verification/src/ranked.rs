//! Lists in the order of a rank, in which equals keep the order in which they came.

use vstd::prelude::*;

verus! {

/// A list with one more member, behind all whose rank is not above its own.
pub open spec fn ranked_in<T>(s: Seq<(i32, T)>, x: (i32, T)) -> Seq<(i32, T)>
    decreases s.len(),
{
    if s.len() == 0 {
        seq![x]
    } else if s.last().0 <= x.0 {
        s.push(x)
    } else {
        ranked_in(s.drop_last(), x).push(s.last())
    }
}

/// The members of a list, each put into its place in turn.
pub open spec fn ranked<T>(s: Seq<(i32, T)>) -> Seq<(i32, T)>
    decreases s.len(),
{
    if s.len() == 0 {
        Seq::empty()
    } else {
        ranked_in(ranked(s.drop_last()), s.last())
    }
}

pub open spec fn in_rank<T>(s: Seq<(i32, T)>) -> bool {
    forall|i: int, j: int| 0 <= i < j < s.len() ==> (#[trigger] s[i]).0 <= (#[trigger] s[j]).0
}

/// What has one rank, in the order of the list.
pub open spec fn of_rank<T>(s: Seq<(i32, T)>, rank: i32) -> Seq<(i32, T)> {
    s.filter(|x: (i32, T)| x.0 == rank)
}

/// Where a member goes.
proof fn place_of<T>(s: Seq<(i32, T)>, x: (i32, T), at: int)
    requires
        0 <= at <= s.len(),
        at > 0 ==> s[at - 1].0 <= x.0,
        forall|i: int| at <= i < s.len() ==> (#[trigger] s[i]).0 > x.0,
    ensures
        ranked_in(s, x) == s.insert(at, x),
    decreases s.len(),
{
    if s.len() == 0 {
        assert(s.insert(at, x) =~= seq![x]);
    } else if at == s.len() {
        assert(s.last() == s[at - 1]);
        assert(s.insert(at, x) =~= s.push(x));
    } else {
        let rest = s.drop_last();
        assert(s.last() == s[s.len() - 1]);
        assert forall|i: int| at <= i < rest.len() implies (#[trigger] rest[i]).0 > x.0 by {
            assert(rest[i] == s[i]);
        }
        place_of(rest, x, at);
        assert(s.insert(at, x) =~= rest.insert(at, x).push(s.last()));
    }
}

/// Put one more member into a list in rank.
pub fn rank_in<T>(list: &mut Vec<(i32, T)>, rank: i32, item: T)
    ensures
        final(list)@ == ranked_in(old(list)@, (rank, item)),
{
    let ghost s = list@;
    let mut at: usize = list.len();
    while at > 0 && list[at - 1].0 > rank
        invariant
            list@ == s,
            at <= s.len(),
            forall|i: int| at <= i < s.len() ==> (#[trigger] s[i]).0 > rank,
        decreases at,
    {
        at -= 1;
    }
    proof {
        place_of(s, (rank, item), at as int);
    }
    list.insert(at, (rank, item));
}

/// A list with a member put into its place is in rank, and of every rank it holds what was there,
/// with the new member last where it belongs.
proof fn ranked_in_keeps<T>(s: Seq<(i32, T)>, x: (i32, T), rank: i32)
    requires
        in_rank(s),
    ensures
        in_rank(ranked_in(s, x)),
        ranked_in(s, x).len() == s.len() + 1,
        ranked_in(s, x).last().0 == (if s.len() > 0 && s.last().0 > x.0 {
            s.last().0
        } else {
            x.0
        }),
        of_rank(ranked_in(s, x), rank) == (if x.0 == rank {
            of_rank(s, rank).push(x)
        } else {
            of_rank(s, rank)
        }),
    decreases s.len(),
{
    reveal(Seq::filter);
    let r = ranked_in(s, x);
    if s.len() == 0 {
        assert(r.drop_last() =~= Seq::empty());
        assert(s =~= Seq::empty());
    } else if s.last().0 <= x.0 {
        assert(r.drop_last() =~= s);
        assert forall|i: int, j: int| 0 <= i < j < r.len() implies (#[trigger] r[i]).0 <= (
        #[trigger] r[j]).0 by {
            if j == s.len() {
                if i < s.len() - 1 {
                    assert(s[i].0 <= s[s.len() - 1].0);
                }
            }
        }
    } else {
        let rest = s.drop_last();
        assert(in_rank(rest)) by {
            assert forall|i: int, j: int| 0 <= i < j < rest.len() implies (#[trigger] rest[i]).0
                <= (#[trigger] rest[j]).0 by {
                assert(s[i].0 <= s[j].0);
            }
        }
        ranked_in_keeps(rest, x, rank);
        let inner = ranked_in(rest, x);
        assert(r.drop_last() =~= inner);
        assert(r.last() == s.last());
        assert forall|i: int, j: int| 0 <= i < j < r.len() implies (#[trigger] r[i]).0 <= (
        #[trigger] r[j]).0 by {
            if j == inner.len() {
                assert(inner[i].0 <= inner.last().0) by {
                    if i < inner.len() - 1 {
                        assert(inner[i].0 <= inner[inner.len() - 1].0);
                    }
                }
                if rest.len() > 0 {
                    assert(s[rest.len() - 1].0 <= s[s.len() - 1].0);
                    assert(rest.last() == s[rest.len() - 1]);
                }
            } else {
                assert(inner[i].0 <= inner[j].0);
            }
        }
    }
}

proof fn ranked_in_holds<T>(s: Seq<(i32, T)>, x: (i32, T))
    ensures
        ranked_in(s, x).to_multiset() == s.to_multiset().insert(x),
    decreases s.len(),
{
    broadcast use vstd::seq_lib::group_to_multiset_ensures;

    if s.len() == 0 {
        assert(seq![x] =~= s.push(x));
    } else if s.last().0 > x.0 {
        ranked_in_holds(s.drop_last(), x);
        assert(s =~= s.drop_last().push(s.last()));
        assert(ranked_in(s, x).to_multiset() =~= s.to_multiset().insert(x));
    }
}

/// Ranking puts a list in rank, drops nothing and adds nothing, and members of the same rank keep
/// their order.
pub proof fn ranking_is_stable<T>(s: Seq<(i32, T)>, rank: i32)
    ensures
        in_rank(ranked(s)),
        ranked(s).len() == s.len(),
        ranked(s).to_multiset() == s.to_multiset(),
        of_rank(ranked(s), rank) == of_rank(s, rank),
    decreases s.len(),
{
    broadcast use vstd::seq_lib::group_to_multiset_ensures;

    reveal(Seq::filter);
    if s.len() == 0 {
        assert(ranked(s) =~= s);
    } else {
        assert(s =~= s.drop_last().push(s.last()));
        ranked_in_holds(ranked(s.drop_last()), s.last());
        ranking_is_stable(s.drop_last(), rank);
        ranked_in_keeps(ranked(s.drop_last()), s.last(), rank);
    }
}

} // verus!
