//! Which exports of the framework count as features.
//!
//! Some exports are tables of other exports. Demonstrating one demonstrates nothing of its own,
//! so they are left out of the surface, each with the reason why.

use crate::text::{before, lex_irreflexive, lex_lt, lex_total, lex_transitive, same, views};
use vstd::prelude::*;

verus! {

/// The exports that are namespaces, each with the reason for leaving it out.
pub open spec fn namespace_rows() -> Seq<(Seq<char>, Seq<char>)> {
    seq![
        ("Controllers"@, "a table of the controllers, each exported at the top level too"@),
        ("Core"@, "a table of the Layer 1 modules, each exported at the top level too"@),
        ("Engine"@, "a grouping of the behaviour modules, no member of its own"@),
        ("Primitives"@, "a table of the primitives, each exported at the top level too"@),
        ("Assemblies"@, "a grouping of composed primitives, each exported at the top level too"@),
        ("Runtime"@, "a grouping of the reactive primitives, each exported at the top level too"@),
        ("Host"@, "the resolved host record, which the host layer owns rather than a demo"@),
        (
            "Desktop"@,
            "the ceremony a host performs, invoked by the host and never by an application"@,
        ),
    ]
}

/// The views of a list of names with reasons.
pub open spec fn row_views(rows: Seq<(&'static str, &'static str)>) -> Seq<(Seq<char>, Seq<char>)> {
    rows.map_values(|r: (&'static str, &'static str)| (r.0@, r.1@))
}

/// The exports that are namespaces, each with the reason for leaving it out.
pub fn namespaces() -> (r: Vec<(&'static str, &'static str)>)
    ensures
        row_views(r@) == namespace_rows(),
{
    let mut r: Vec<(&'static str, &'static str)> = Vec::new();
    r.push(("Controllers", "a table of the controllers, each exported at the top level too"));
    r.push(("Core", "a table of the Layer 1 modules, each exported at the top level too"));
    r.push(("Engine", "a grouping of the behaviour modules, no member of its own"));
    r.push(("Primitives", "a table of the primitives, each exported at the top level too"));
    r.push(("Assemblies", "a grouping of composed primitives, each exported at the top level too"));
    r.push(("Runtime", "a grouping of the reactive primitives, each exported at the top level too"));
    r.push(("Host", "the resolved host record, which the host layer owns rather than a demo"));
    r.push(
        (
            "Desktop",
            "the ceremony a host performs, invoked by the host and never by an application",
        ),
    );
    assert(row_views(r@) =~= namespace_rows());
    r
}

/// Is this name in the first column of the rows?
pub open spec fn in_rows(rows: Seq<(Seq<char>, Seq<char>)>, name: Seq<char>) -> bool {
    exists|i: int| 0 <= i < rows.len() && (#[trigger] rows[i]).0 == name
}

/// The second column of the first row for this name.
pub(crate) fn find_row(rows: &Vec<(&'static str, &'static str)>, name: &str) -> (r: Option<
    &'static str,
>)
    ensures
        match r {
            Some(why) => exists|i: int|
                0 <= i < rows@.len() && (#[trigger] row_views(rows@)[i]) == (name@, why@) && forall|
                    j: int,
                |
                    0 <= j < i ==> (#[trigger] row_views(rows@)[j]).0 != name@,
            None => !in_rows(row_views(rows@), name@),
        },
{
    let mut i: usize = 0;
    while i < rows.len()
        invariant
            i <= rows.len(),
            forall|j: int| 0 <= j < i ==> (#[trigger] row_views(rows@)[j]).0 != name@,
        decreases rows.len() - i,
    {
        if same(rows[i].0, name) {
            assert(row_views(rows@)[i as int] == (name@, rows@[i as int].1@));
            return Some(rows[i].1);
        }
        i += 1;
    }
    None
}

/// Is this export a namespace?
pub open spec fn namespace(symbol: Seq<char>) -> bool {
    in_rows(namespace_rows(), symbol)
}

/// Is this export a namespace rather than a feature?
pub fn is_namespace(symbol: &str) -> (r: bool)
    ensures
        r == namespace(symbol@),
{
    let rows = namespaces();
    match find_row(&rows, symbol) {
        Some(_) => true,
        None => false,
    }
}

/// Why a symbol is left out, or `None` for a feature.
pub fn exclusion_reason(symbol: &str) -> (r: Option<&'static str>)
    ensures
        r is Some <==> namespace(symbol@),
        r matches Some(why) ==> exists|i: int|
            0 <= i < namespace_rows().len() && (#[trigger] namespace_rows()[i]) == (symbol@, why@)
                && forall|j: int|
                0 <= j < i ==> (#[trigger] namespace_rows()[j]).0 != symbol@,
{
    let rows = namespaces();
    find_row(&rows, symbol)
}

/// Each name at or before the next.
pub open spec fn sorted(s: Seq<Seq<char>>) -> bool {
    forall|i: int, j: int| 0 <= i < j < s.len() ==> !#[trigger] lex_lt(s[j], s[i])
}

/// Put `x` into a sorted list, behind its equals.
fn insert_sorted(list: &mut Vec<String>, x: String)
    requires
        sorted(views(old(list)@)),
    ensures
        sorted(views(final(list)@)),
        views(final(list)@).to_multiset() == views(old(list)@).to_multiset().insert(x@),
{
    let ghost was = views(list@);
    let ghost name = x@;
    let mut at: usize = list.len();
    while at > 0 && before(x.as_str(), list[at - 1].as_str())
        invariant
            list@ == old(list)@,
            was == views(list@),
            name == x@,
            at <= list.len(),
            forall|j: int| at <= j < list.len() ==> lex_lt(name, #[trigger] was[j]),
        decreases at,
    {
        at -= 1;
        assert(was[at as int] == list@[at as int]@);
    }
    list.insert(at, x);
    let ghost now = views(list@);
    assert(now =~= was.insert(at as int, name));
    proof {
        was.to_multiset_ensures();
        vstd::seq_lib::to_multiset_insert(was, at as int, name);
        assert forall|i: int, j: int| 0 <= i < j < now.len() implies !#[trigger] lex_lt(
            now[j],
            now[i],
        ) by {
            if i == at {
                assert(now[j] == was[j - 1]);
                if lex_lt(now[j], name) {
                    lex_transitive(name, was[j - 1], name);
                    lex_irreflexive(name);
                }
            } else if j == at {
                assert(now[i] == was[i]);
                if lex_lt(name, was[i]) {
                    if i < at - 1 {
                        assert(!lex_lt(was[at - 1], was[i]));
                        lex_total(was[i], was[at - 1]);
                        if was[i] != was[at - 1] {
                            lex_transitive(name, was[i], was[at - 1]);
                        }
                    }
                }
            } else {
                let a = if i < at {
                    i
                } else {
                    i - 1
                };
                let b = if j < at {
                    j
                } else {
                    j - 1
                };
                assert(now[i] == was[a]);
                assert(now[j] == was[b]);
                assert(!lex_lt(was[b], was[a]));
            }
        }
    }
}

/// The features among the exports, as a sorted list: every export that is not a namespace, as
/// often as it is exported.
pub fn in_scope(exported: &[String]) -> (r: Vec<String>)
    ensures
        sorted(views(r@)),
        views(r@).to_multiset() == views(exported@).filter(|s: Seq<char>| !namespace(s)).to_multiset(),
{
    let mut r: Vec<String> = Vec::new();
    let ghost keep = |s: Seq<char>| !namespace(s);
    let mut i: usize = 0;
    proof {
        assert(views(exported@.take(0)) =~= Seq::empty());
        reveal(Seq::filter);
        assert(views(r@) =~= Seq::empty());
    }
    while i < exported.len()
        invariant
            i <= exported.len(),
            keep == (|s: Seq<char>| !namespace(s)),
            sorted(views(r@)),
            views(r@).to_multiset() == views(exported@.take(i as int)).filter(keep).to_multiset(),
        decreases exported.len() - i,
    {
        let ghost so_far = views(exported@.take(i as int));
        let ghost next = views(exported@.take(i + 1));
        proof {
            assert(next.drop_last() =~= so_far);
            assert(next.last() == exported@[i as int]@);
            reveal(Seq::filter);
            so_far.filter(keep).to_multiset_ensures();
        }
        if !is_namespace(exported[i].as_str()) {
            insert_sorted(&mut r, exported[i].clone());
            proof {
                assert(next.filter(keep) == so_far.filter(keep).push(exported@[i as int]@));
            }
        }
        i += 1;
    }
    assert(exported@.take(i as int) =~= exported@);
    r
}

/// The surface holds an export if and only if it is exported and no namespace.
pub proof fn scope_is_the_rest(exported: Seq<Seq<char>>, scope: Seq<Seq<char>>, symbol: Seq<char>)
    requires
        scope.to_multiset() == exported.filter(|s: Seq<char>| !namespace(s)).to_multiset(),
    ensures
        scope.contains(symbol) <==> exported.contains(symbol) && !namespace(symbol),
{
    let keep = |s: Seq<char>| !namespace(s);
    let kept = exported.filter(keep);
    scope.to_multiset_ensures();
    kept.to_multiset_ensures();
    assert(scope.to_multiset().count(symbol) == kept.to_multiset().count(symbol));
    if kept.contains(symbol) {
        exported.lemma_filter_contains_rev(keep, symbol);
        let i = choose|i: int| 0 <= i < kept.len() && kept[i] == symbol;
        exported.lemma_filter_pred(keep, i);
    }
    if exported.contains(symbol) && !namespace(symbol) {
        let i = choose|i: int| 0 <= i < exported.len() && exported[i] == symbol;
        exported.lemma_filter_contains(keep, i);
    }
}

} // verus!
