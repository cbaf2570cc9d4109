//! The cascade: which style rules reach an instance, and which of them wins a property.

use crate::dom::Dom;
use crate::number::{
    doubles_are_ordered_as_integers, f32_nan, f32_rank, f64_below, f64_from_i64, f64_nan, f64_rank,
    int_f64, widen, widened, widening_keeps_the_order,
};
use crate::reflection::{Catalog, CatalogView};
use crate::style::{parse, picks, selected};
use crate::table::Table;
use crate::text::same;
use crate::tree::DomView;
use crate::value::{Value, ValueView};
use vstd::prelude::*;

verus! {

/// A style rule that is for the instance: its priority as a double, how many steps up its sheet
/// was found, and where it stands in its sheet.
#[derive(Clone, Copy, Debug, PartialEq, Eq, Structural)]
pub struct Candidate {
    pub rule: usize,
    pub priority: u64,
    pub distance: usize,
    pub order: usize,
}

/// The priority of a rule, as a double.
pub open spec fn rule_priority(v: DomView, catalog: CatalogView, rule: usize) -> int {
    match v.property(catalog, rule, "Priority"@) {
        Some(ValueView::Float32(x)) => widened(x),
        Some(ValueView::Float64(x)) => x as int,
        Some(ValueView::Int32(n)) => int_f64(n as int),
        Some(ValueView::Int64(n)) => int_f64(n as int),
        _ => 0,
    }
}

fn priority_of(dom: &Dom, catalog: &Catalog, rule: usize) -> (r: u64)
    requires
        dom.ok(),
    ensures
        r == rule_priority(dom@, catalog@, rule),
{
    match dom.property(catalog, rule, "Priority") {
        Some(Value::Float32(x)) => widen(x),
        Some(Value::Float64(x)) => x,
        Some(Value::Int32(n)) => f64_from_i64(n as i64),
        Some(Value::Int64(n)) => f64_from_i64(n),
        _ => 0,
    }
}

/// Is a rule one for the instance?
pub open spec fn rule_reaches(v: DomView, catalog: CatalogView, rule: usize, id: usize) -> bool {
    &&& v.alive(rule)
    &&& v.node(rule).class == "StyleRule"@
    &&& match v.property(catalog, rule, "Selector"@) {
        Some(ValueView::Text(s)) => match selected(catalog, s) {
            Ok(selector) => picks(v, catalog, selector)(id),
            Err(_) => false,
        },
        _ => false,
    }
}

fn reaches(dom: &Dom, catalog: &Catalog, rule: usize, id: usize) -> (r: bool)
    requires
        dom.ok(),
    ensures
        r == rule_reaches(dom@, catalog@, rule, id),
{
    match dom.class_of(rule) {
        Some(class) => if !same(class.as_str(), "StyleRule") {
            return false;
        },
        None => return false,
    }
    match dom.property(catalog, rule, "Selector") {
        Some(Value::Text(s)) => match parse(catalog, s.as_str()) {
            Ok(selector) => crate::style::matches(dom, catalog, id, &selector),
            Err(_) => false,
        },
        _ => false,
    }
}

/// The sheet that a child stands for: itself, or the one that a link names.
pub open spec fn sheet_at(v: DomView, child: usize) -> Option<usize> {
    if !v.alive(child) {
        None
    } else if v.node(child).class == "StyleSheet"@ {
        Some(child)
    } else if v.node(child).class == "StyleLink"@ {
        match v.node(child).link {
            Some(target) => if v.alive(target) && v.node(target).class == "StyleSheet"@ {
                Some(target)
            } else {
                None
            },
            None => None,
        }
    } else {
        None
    }
}

fn sheet_of(dom: &Dom, child: usize) -> (r: Option<usize>)
    requires
        dom.ok(),
    ensures
        r == sheet_at(dom@, child),
{
    let class = match dom.class_of(child) {
        Some(c) => c,
        None => return None,
    };
    if same(class.as_str(), "StyleSheet") {
        return Some(child);
    }
    if same(class.as_str(), "StyleLink") {
        if let Some(target) = dom.get_style_link(child) {
            if let Some(c) = dom.class_of(target) {
                if same(c.as_str(), "StyleSheet") {
                    return Some(target);
                }
            }
        }
    }
    None
}

/// The first so many rules of a sheet that are for the instance.
pub open spec fn rules_in(
    v: DomView,
    catalog: CatalogView,
    id: usize,
    sheet: usize,
    distance: usize,
    count: nat,
) -> Seq<Candidate>
    decreases count,
{
    if count == 0 {
        Seq::empty()
    } else {
        let before = rules_in(v, catalog, id, sheet, distance, (count - 1) as nat);
        let rule = v.kids(sheet)[count - 1];
        if rule_reaches(v, catalog, rule, id) {
            before.push(
                Candidate {
                    rule,
                    priority: rule_priority(v, catalog, rule) as u64,
                    distance,
                    order: (count - 1) as usize,
                },
            )
        } else {
            before
        }
    }
}

/// The rules of the sheets among the first so many children of an instance on the way up.
pub open spec fn rules_under(
    v: DomView,
    catalog: CatalogView,
    id: usize,
    at: usize,
    distance: usize,
    count: nat,
) -> Seq<Candidate>
    decreases count,
{
    if count == 0 {
        Seq::empty()
    } else {
        let before = rules_under(v, catalog, id, at, distance, (count - 1) as nat);
        match sheet_at(v, v.kids(at)[count - 1]) {
            Some(sheet) => before + rules_in(
                v,
                catalog,
                id,
                sheet,
                distance,
                v.kids(sheet).len(),
            ),
            None => before,
        }
    }
}

/// The rules that are found within so many steps on the way up.
pub open spec fn rules_along(
    v: DomView,
    catalog: CatalogView,
    id: usize,
    line: Seq<usize>,
    count: nat,
) -> Seq<Candidate>
    decreases count,
{
    if count == 0 {
        Seq::empty()
    } else {
        let at = line[count - 1];
        rules_along(v, catalog, id, line, (count - 1) as nat) + rules_under(
            v,
            catalog,
            id,
            at,
            (count - 1) as usize,
            v.kids(at).len(),
        )
    }
}

/// An instance and its ancestors, closest first.
pub open spec fn line_of(v: DomView, id: usize) -> Seq<usize> {
    seq![id] + v.ancestors(id)
}

/// Every rule that reaches an instance: of the sheets among its own children first, then of those
/// among its parent's, and so on up.
pub open spec fn candidates_for(v: DomView, catalog: CatalogView, id: usize) -> Seq<Candidate> {
    rules_along(v, catalog, id, line_of(v, id), line_of(v, id).len())
}

fn collect_rules(
    dom: &Dom,
    catalog: &Catalog,
    id: usize,
    sheet: usize,
    distance: usize,
    out: &mut Vec<Candidate>,
)
    requires
        dom.ok(),
    ensures
        final(out)@ == old(out)@ + rules_in(
            dom@,
            catalog@,
            id,
            sheet,
            distance,
            dom@.kids(sheet).len(),
        ),
{
    let ghost was = out@;
    let kids = dom.children(sheet);
    let mut k: usize = 0;
    assert(was + rules_in(dom@, catalog@, id, sheet, distance, 0) =~= was);
    while k < kids.len()
        invariant
            dom.ok(),
            kids@ == dom@.kids(sheet),
            k <= kids.len(),
            out@ == was + rules_in(dom@, catalog@, id, sheet, distance, k as nat),
        decreases kids.len() - k,
    {
        let rule: usize = kids[k];
        let ghost before = rules_in(dom@, catalog@, id, sheet, distance, k as nat);
        if reaches(dom, catalog, rule, id) {
            let c = Candidate {
                rule,
                priority: priority_of(dom, catalog, rule),
                distance,
                order: k,
            };
            out.push(c);
            assert(out@ =~= was + before.push(c));
        }
        k += 1;
    }
}

fn collect_under(
    dom: &Dom,
    catalog: &Catalog,
    id: usize,
    at: usize,
    distance: usize,
    out: &mut Vec<Candidate>,
)
    requires
        dom.ok(),
    ensures
        final(out)@ == old(out)@ + rules_under(
            dom@,
            catalog@,
            id,
            at,
            distance,
            dom@.kids(at).len(),
        ),
{
    let ghost was = out@;
    let kids = dom.children(at);
    let mut k: usize = 0;
    assert(was + rules_under(dom@, catalog@, id, at, distance, 0) =~= was);
    while k < kids.len()
        invariant
            dom.ok(),
            kids@ == dom@.kids(at),
            k <= kids.len(),
            out@ == was + rules_under(dom@, catalog@, id, at, distance, k as nat),
        decreases kids.len() - k,
    {
        let ghost before = rules_under(dom@, catalog@, id, at, distance, k as nat);
        if let Some(sheet) = sheet_of(dom, kids[k]) {
            collect_rules(dom, catalog, id, sheet, distance, out);
            proof {
                let more = rules_in(dom@, catalog@, id, sheet, distance, dom@.kids(sheet).len());
                assert(out@ =~= was + (before + more));
            }
        }
        k += 1;
    }
}

/// Every rule that reaches an instance, in the order in which they are found.
pub fn candidates(dom: &Dom, catalog: &Catalog, id: usize) -> (r: Vec<Candidate>)
    requires
        dom.ok(),
    ensures
        r@ == candidates_for(dom@, catalog@, id),
{
    let mut line: Vec<usize> = Vec::new();
    line.push(id);
    let mut up = dom.ancestors(id);
    line.append(&mut up);
    assert(line@ =~= line_of(dom@, id));
    let mut out: Vec<Candidate> = Vec::new();
    let mut k: usize = 0;
    while k < line.len()
        invariant
            dom.ok(),
            line@ == line_of(dom@, id),
            k <= line.len(),
            out@ == rules_along(dom@, catalog@, id, line@, k as nat),
        decreases line.len() - k,
    {
        collect_under(dom, catalog, id, line[k], k, &mut out);
        k += 1;
    }
    out
}

// ---- the contest ----

/// Is one of the candidates weaker than another? Priority decides; then the closer sheet wins,
/// then the later rule of a sheet, then the one that was found later.
pub open spec fn weaker(c: Seq<Candidate>, i: int, j: int) -> bool {
    let a = c[i];
    let b = c[j];
    if f64_rank(a.priority) != f64_rank(b.priority) {
        f64_rank(a.priority) < f64_rank(b.priority)
    } else if a.distance != b.distance {
        a.distance > b.distance
    } else if a.order != b.order {
        a.order < b.order
    } else {
        i < j
    }
}

/// Does a candidate set a property?
pub open spec fn sets(v: DomView, c: Seq<Candidate>, i: int, name: Seq<char>) -> bool {
    v.alive(c[i].rule) && v.node(c[i].rule).style.contains_key(name)
}

/// Is a candidate the strongest of those that set a property?
pub open spec fn wins(v: DomView, c: Seq<Candidate>, i: int, name: Seq<char>) -> bool {
    &&& 0 <= i < c.len()
    &&& sets(v, c, i, name)
    &&& forall|j: int| 0 <= j < c.len() && j != i && #[trigger] sets(v, c, j, name) ==> weaker(c, j, i)
}

/// Does the map hold, for each property that a candidate sets, what the strongest sets it to, and
/// nothing else?
pub open spec fn settles(
    v: DomView,
    c: Seq<Candidate>,
    map: Map<Seq<char>, ValueView>,
) -> bool {
    &&& forall|name: Seq<char>, i: int|
        0 <= i < c.len() && #[trigger] sets(v, c, i, name) ==> map.contains_key(name)
    &&& forall|name: Seq<char>| #[trigger]
        map.contains_key(name) ==> exists|i: int| #[trigger]
            wins(v, c, i, name) && map[name] == v.node(c[i].rule).style[name]
}

/// Can the candidates be held against each other? A priority that is not a number cannot.
pub open spec fn comparable(c: Seq<Candidate>) -> bool {
    c.len() <= 1 || forall|i: int| 0 <= i < c.len() ==> !f64_nan((#[trigger] c[i]).priority)
}

proof fn weaker_is_total(c: Seq<Candidate>, i: int, j: int)
    requires
        i != j,
    ensures
        weaker(c, i, j) || weaker(c, j, i),
{
}

proof fn weaker_is_transitive(c: Seq<Candidate>, i: int, j: int, k: int)
    requires
        weaker(c, i, j),
        weaker(c, j, k),
    ensures
        weaker(c, i, k),
{
}

fn is_weaker(c: &Vec<Candidate>, i: usize, j: usize) -> (r: bool)
    requires
        i < c@.len(),
        j < c@.len(),
    ensures
        r == weaker(c@, i as int, j as int),
{
    let a = c[i];
    let b = c[j];
    if f64_below(a.priority, b.priority) {
        true
    } else if f64_below(b.priority, a.priority) {
        false
    } else if a.distance != b.distance {
        a.distance > b.distance
    } else if a.order != b.order {
        a.order < b.order
    } else {
        i < j
    }
}

/// The weakest of the candidates that are not done.
fn weakest(c: &Vec<Candidate>, done: &Vec<bool>) -> (r: Option<usize>)
    requires
        done@.len() == c@.len(),
    ensures
        match r {
            Some(k) => k < c@.len() && !done@[k as int] && forall|j: int|
                0 <= j < c@.len() && j != k && !#[trigger] done@[j] ==> weaker(c@, k as int, j),
            None => forall|j: int| 0 <= j < c@.len() ==> #[trigger] done@[j],
        },
{
    let mut best: Option<usize> = None;
    let mut i: usize = 0;
    while i < c.len()
        invariant
            done@.len() == c@.len(),
            i <= c.len(),
            match best {
                Some(k) => k < i && !done@[k as int] && forall|j: int|
                    0 <= j < i && j != k && !#[trigger] done@[j] ==> weaker(c@, k as int, j),
                None => forall|j: int| 0 <= j < i ==> #[trigger] done@[j],
            },
        decreases c.len() - i,
    {
        if !done[i] {
            match best {
                None => {
                    best = Some(i);
                },
                Some(k) => {
                    if is_weaker(c, i, k) {
                        proof {
                            assert forall|j: int| 0 <= j < i && !#[trigger] done@[j] implies weaker(
                                c@,
                                i as int,
                                j,
                            ) by {
                                if j != k {
                                    weaker_is_transitive(c@, i as int, k as int, j);
                                }
                            }
                        }
                        best = Some(i);
                    } else {
                        proof {
                            weaker_is_total(c@, i as int, k as int);
                        }
                    }
                },
            }
        }
        i += 1;
    }
    best
}

/// Is the candidate among those that are done, and the strongest of them to set the property?
spec fn leads_done(
    v: DomView,
    c: Seq<Candidate>,
    done: Seq<bool>,
    i: int,
    name: Seq<char>,
) -> bool {
    &&& 0 <= i < c.len()
    &&& done[i]
    &&& sets(v, c, i, name)
    &&& forall|j: int|
        0 <= j < c.len() && j != i && done[j] && #[trigger] sets(v, c, j, name) ==> weaker(c, j, i)
}

spec fn settled(
    v: DomView,
    c: Seq<Candidate>,
    done: Seq<bool>,
    map: Map<Seq<char>, ValueView>,
) -> bool {
    &&& done.len() == c.len()
    &&& forall|name: Seq<char>, i: int|
        0 <= i < c.len() && done[i] && #[trigger] sets(v, c, i, name) ==> map.contains_key(name)
    &&& forall|name: Seq<char>| #[trigger]
        map.contains_key(name) ==> exists|i: int| #[trigger]
            leads_done(v, c, done, i, name) && map[name] == v.node(c[i].rule).style[name]
    &&& forall|i: int, j: int|
        0 <= i < c.len() && 0 <= j < c.len() && #[trigger] done[i] && !#[trigger] done[j]
            ==> weaker(c, i, j)
}

proof fn settled_step(
    v: DomView,
    c: Seq<Candidate>,
    done: Seq<bool>,
    map: Map<Seq<char>, ValueView>,
    k: int,
)
    requires
        settled(v, c, done, map),
        0 <= k < c.len(),
        !done[k],
        forall|j: int|
            0 <= j < c.len() && j != k && !#[trigger] done[j] ==> weaker(c, k, j),
    ensures
        settled(
            v,
            c,
            done.update(k, true),
            map.union_prefer_right(
                if v.alive(c[k].rule) {
                    v.node(c[k].rule).style
                } else {
                    Map::empty()
                },
            ),
        ),
{
    let style = if v.alive(c[k].rule) {
        v.node(c[k].rule).style
    } else {
        Map::empty()
    };
    let next = map.union_prefer_right(style);
    let now = done.update(k, true);
    assert forall|name: Seq<char>, i: int|
        0 <= i < c.len() && now[i] && #[trigger] sets(v, c, i, name) implies next.contains_key(
        name,
    ) by {
        if i != k {
            assert(done[i]);
        }
    }
    assert forall|name: Seq<char>| #[trigger] next.contains_key(name) implies exists|i: int|
        #[trigger] leads_done(v, c, now, i, name) && next[name] == v.node(c[i].rule).style[name] by {
        if style.contains_key(name) {
            assert(sets(v, c, k, name));
            assert(leads_done(v, c, now, k, name));
        } else {
            assert(map.contains_key(name));
            let i = choose|i: int| #[trigger]
                leads_done(v, c, done, i, name) && map[name] == v.node(c[i].rule).style[name];
            assert(!sets(v, c, k, name));
            assert(leads_done(v, c, now, i, name));
        }
    }
    assert forall|i: int, j: int|
        0 <= i < c.len() && 0 <= j < c.len() && #[trigger] now[i] && !#[trigger] now[j] implies weaker(
        c,
        i,
        j,
    ) by {
        assert(!done[j]);
        if i != k {
            assert(done[i]);
        }
    }
}

/// Every property that the cascade sets for an instance, with the value of the strongest rule that
/// sets it.
pub fn resolve(dom: &Dom, catalog: &Catalog, id: usize) -> (r: Table)
    requires
        dom.ok(),
        comparable(candidates_for(dom@, catalog@, id)),
    ensures
        r.wf(),
        settles(dom@, candidates_for(dom@, catalog@, id), r@),
{
    let all = candidates(dom, catalog, id);
    let ghost v = dom@;
    let ghost c = all@;
    let mut done: Vec<bool> = Vec::new();
    let mut i: usize = 0;
    while i < all.len()
        invariant
            i <= all.len(),
            done@.len() == i,
            forall|j: int| 0 <= j < i ==> !#[trigger] done@[j],
        decreases all.len() - i,
    {
        done.push(false);
        i += 1;
    }
    let mut out = Table::new();
    let mut left: usize = all.len();
    proof {
        assert forall|name: Seq<char>, i: int|
            0 <= i < c.len() && done@[i] && #[trigger] sets(v, c, i, name) implies out@.contains_key(
            name,
        ) by {}
        assert(settled(v, c, done@, out@));
        count_all(done@);
    }
    while left > 0
        invariant
            dom.ok(),
            v == dom@,
            c == all@,
            out.wf(),
            settled(v, c, done@, out@),
            left == open_count(done@),
        decreases left,
    {
        match weakest(&all, &done) {
            None => {
                proof {
                    count_none(done@);
                }
                left = 0;
            },
            Some(k) => {
                let ghost was = out@;
                let ghost before = done@;
                let rows = style_table(dom, all[k].rule);
                out.extend(&rows);
                done[k] = true;
                proof {
                    settled_step(v, c, before, was, k as int);
                    count_step(before, k as int);
                }
                left -= 1;
            },
        }
    }
    proof {
        count_zero(done@);
        assert forall|name: Seq<char>, i: int| 0 <= i < c.len() && #[trigger] sets(
            v,
            c,
            i,
            name,
        ) implies out@.contains_key(name) by {
            assert(done@[i]);
        }
        assert forall|name: Seq<char>| #[trigger] out@.contains_key(name) implies exists|i: int|
            #[trigger] wins(v, c, i, name) && out@[name] == v.node(c[i].rule).style[name] by {
            let i = choose|i: int| #[trigger]
                leads_done(v, c, done@, i, name) && out@[name] == v.node(c[i].rule).style[name];
            assert(wins(v, c, i, name));
        }
    }
    out
}

/// What a rule sets, as a table.
fn style_table(dom: &Dom, rule: usize) -> (r: Table)
    requires
        dom.ok(),
    ensures
        r.wf(),
        r@ == (if dom@.alive(rule) {
            dom@.node(rule).style
        } else {
            Map::empty()
        }),
{
    Table::from_rows(dom.get_style_properties(rule))
}

/// How many are not done.
spec fn open_count(done: Seq<bool>) -> nat
    decreases done.len(),
{
    if done.len() == 0 {
        0
    } else {
        open_count(done.drop_last()) + if done.last() {
            0nat
        } else {
            1nat
        }
    }
}

proof fn count_all(done: Seq<bool>)
    requires
        forall|j: int| 0 <= j < done.len() ==> !#[trigger] done[j],
    ensures
        open_count(done) == done.len(),
    decreases done.len(),
{
    if done.len() > 0 {
        count_all(done.drop_last());
    }
}

proof fn count_none(done: Seq<bool>)
    requires
        forall|j: int| 0 <= j < done.len() ==> #[trigger] done[j],
    ensures
        open_count(done) == 0,
    decreases done.len(),
{
    if done.len() > 0 {
        count_none(done.drop_last());
    }
}

proof fn count_zero(done: Seq<bool>)
    requires
        open_count(done) == 0,
    ensures
        forall|j: int| 0 <= j < done.len() ==> #[trigger] done[j],
    decreases done.len(),
{
    if done.len() > 0 {
        count_zero(done.drop_last());
        assert forall|j: int| 0 <= j < done.len() implies #[trigger] done[j] by {
            if j < done.len() - 1 {
                assert(done.drop_last()[j]);
            }
        }
    }
}

proof fn count_step(done: Seq<bool>, k: int)
    requires
        0 <= k < done.len(),
        !done[k],
    ensures
        open_count(done.update(k, true)) == open_count(done) - 1,
        open_count(done) > 0,
    decreases done.len(),
{
    let now = done.update(k, true);
    if k == done.len() - 1 {
        assert(now.drop_last() =~= done.drop_last());
    } else {
        assert(now.drop_last() =~= done.drop_last().update(k, true));
        count_step(done.drop_last(), k);
    }
}

// ---- laws ----

/// Of two rules that set a property, one with a higher priority than every other that sets it
/// wins, wherever its sheet is.
pub proof fn a_higher_priority_wins(
    v: DomView,
    c: Seq<Candidate>,
    map: Map<Seq<char>, ValueView>,
    i: int,
    name: Seq<char>,
)
    requires
        settles(v, c, map),
        0 <= i < c.len(),
        sets(v, c, i, name),
        forall|j: int|
            0 <= j < c.len() && j != i && #[trigger] sets(v, c, j, name) ==> f64_rank(c[j].priority)
                < f64_rank(c[i].priority),
    ensures
        map.contains_key(name),
        map[name] == v.node(c[i].rule).style[name],
{
    assert(map.contains_key(name));
    let k = choose|k: int| #[trigger]
        wins(v, c, k, name) && map[name] == v.node(c[k].rule).style[name];
    if k != i {
        assert(sets(v, c, k, name));
        assert(weaker(c, i, k));
    }
}

/// Of rules of the same priority the one whose sheet is closer wins.
pub proof fn a_closer_sheet_wins_a_tie(
    v: DomView,
    c: Seq<Candidate>,
    map: Map<Seq<char>, ValueView>,
    i: int,
    name: Seq<char>,
)
    requires
        settles(v, c, map),
        0 <= i < c.len(),
        sets(v, c, i, name),
        forall|j: int|
            0 <= j < c.len() && j != i && #[trigger] sets(v, c, j, name) ==> f64_rank(c[j].priority)
                == f64_rank(c[i].priority) && c[j].distance > c[i].distance,
    ensures
        map.contains_key(name),
        map[name] == v.node(c[i].rule).style[name],
{
    assert(map.contains_key(name));
    let k = choose|k: int| #[trigger]
        wins(v, c, k, name) && map[name] == v.node(c[k].rule).style[name];
    if k != i {
        assert(sets(v, c, k, name));
        assert(weaker(c, i, k));
    }
}

/// What no rule for the instance sets is not set.
pub proof fn a_rule_for_others_adds_nothing(
    v: DomView,
    c: Seq<Candidate>,
    map: Map<Seq<char>, ValueView>,
    name: Seq<char>,
)
    requires
        settles(v, c, map),
        forall|i: int| 0 <= i < c.len() ==> !#[trigger] sets(v, c, i, name),
    ensures
        !map.contains_key(name),
{
    if map.contains_key(name) {
        let k = choose|k: int| #[trigger]
            wins(v, c, k, name) && map[name] == v.node(c[k].rule).style[name];
        assert(sets(v, c, k, name));
    }
}

/// A link stands for the sheet that it names: it brings the rules that the sheet itself would
/// bring in its place.
pub proof fn a_link_stands_for_its_sheet(v: DomView, link: usize, sheet: usize)
    requires
        v.alive(link),
        v.node(link).class == "StyleLink"@,
        v.node(link).link == Some(sheet),
        v.alive(sheet),
        v.node(sheet).class == "StyleSheet"@,
    ensures
        sheet_at(v, link) == sheet_at(v, sheet),
        sheet_at(v, link) == Some(sheet),
{
    reveal_strlit("StyleLink");
    reveal_strlit("StyleSheet");
    assert("StyleLink"@.len() != "StyleSheet"@.len());
}

/// There is only one such map: the cascade is decided.
pub proof fn the_cascade_is_decided(
    v: DomView,
    c: Seq<Candidate>,
    a: Map<Seq<char>, ValueView>,
    b: Map<Seq<char>, ValueView>,
)
    requires
        settles(v, c, a),
        settles(v, c, b),
    ensures
        a == b,
{
    assert forall|name: Seq<char>| a.contains_key(name) == b.contains_key(name) by {
        if a.contains_key(name) {
            let i = choose|i: int| #[trigger]
                wins(v, c, i, name) && a[name] == v.node(c[i].rule).style[name];
            assert(sets(v, c, i, name));
        }
        if b.contains_key(name) {
            let i = choose|i: int| #[trigger]
                wins(v, c, i, name) && b[name] == v.node(c[i].rule).style[name];
            assert(sets(v, c, i, name));
        }
    }
    assert forall|name: Seq<char>| a.contains_key(name) implies a[name] == b[name] by {
        let i = choose|i: int| #[trigger]
            wins(v, c, i, name) && a[name] == v.node(c[i].rule).style[name];
        assert(b.contains_key(name));
        let j = choose|j: int| #[trigger]
            wins(v, c, j, name) && b[name] == v.node(c[j].rule).style[name];
        if i != j {
            assert(weaker(c, j, i));
            assert(weaker(c, i, j));
        }
    }
    assert(a =~= b);
}

/// Where a candidate was found: `distance` steps up from the instance there is a child that is or
/// names a sheet, and `order` is the place of the rule in that sheet. Nothing but rules for the
/// instance is found.
pub open spec fn found_at(
    v: DomView,
    catalog: CatalogView,
    id: usize,
    c: Candidate,
    child: usize,
    sheet: usize,
) -> bool {
    &&& v.kids(
        if c.distance == 0 {
            id
        } else {
            v.ancestors(id)[c.distance - 1]
        },
    ).contains(child)
    &&& sheet_at(v, child) == Some(sheet)
    &&& c.distance <= v.ancestors(id).len()
    &&& c.order < v.kids(sheet).len()
    &&& v.kids(sheet)[c.order as int] == c.rule
    &&& rule_reaches(v, catalog, c.rule, id)
}

/// Was a candidate found in some sheet?
pub open spec fn is_found(v: DomView, catalog: CatalogView, id: usize, c: Candidate) -> bool {
    exists|child: usize, sheet: usize| #[trigger] found_at(v, catalog, id, c, child, sheet)
}

proof fn rules_in_are_found(
    v: DomView,
    catalog: CatalogView,
    id: usize,
    sheet: usize,
    distance: usize,
    count: nat,
)
    requires
        count <= v.kids(sheet).len() <= usize::MAX,
    ensures
        forall|i: int|
            0 <= i < rules_in(v, catalog, id, sheet, distance, count).len() ==> {
                let c = #[trigger] rules_in(v, catalog, id, sheet, distance, count)[i];
                c.distance == distance && c.order < count && v.kids(sheet)[c.order as int] == c.rule
                    && rule_reaches(v, catalog, c.rule, id) && c.priority == rule_priority(
                    v,
                    catalog,
                    c.rule,
                ) as u64
            },
        forall|k: int|
            0 <= k < count && rule_reaches(v, catalog, #[trigger] v.kids(sheet)[k], id)
                ==> exists|i: int|
                0 <= i < rules_in(v, catalog, id, sheet, distance, count).len() && (
                #[trigger] rules_in(v, catalog, id, sheet, distance, count)[i]).order == k,
    decreases count,
{
    if count > 0 {
        rules_in_are_found(v, catalog, id, sheet, distance, (count - 1) as nat);
        let before = rules_in(v, catalog, id, sheet, distance, (count - 1) as nat);
        let all = rules_in(v, catalog, id, sheet, distance, count);
        assert forall|k: int|
            0 <= k < count && rule_reaches(
                v,
                catalog,
                #[trigger] v.kids(sheet)[k],
                id,
            ) implies exists|i: int| 0 <= i < all.len() && (#[trigger] all[i]).order == k by {
            if k == count - 1 {
                assert(all[all.len() - 1].order == k);
            } else {
                let i = choose|i: int| 0 <= i < before.len() && (#[trigger] before[i]).order == k;
                assert(all[i] == before[i]);
            }
        }
    }
}

proof fn rules_under_are_found(
    v: DomView,
    catalog: CatalogView,
    id: usize,
    at: usize,
    distance: usize,
    count: nat,
)
    requires
        count <= v.kids(at).len(),
        forall|s: usize| (#[trigger] v.kids(s)).len() <= usize::MAX,
        distance <= v.ancestors(id).len(),
        at == if distance == 0 {
            id
        } else {
            v.ancestors(id)[distance - 1]
        },
    ensures
        forall|i: int|
            0 <= i < rules_under(v, catalog, id, at, distance, count).len() ==> {
                let c = #[trigger] rules_under(v, catalog, id, at, distance, count)[i];
                c.distance == distance && c.priority == rule_priority(v, catalog, c.rule) as u64
                    && is_found(v, catalog, id, c)
            },
        forall|j: int, k: int|
            0 <= j < count && sheet_at(v, v.kids(at)[j]) is Some && 0 <= k < v.kids(
                sheet_at(v, v.kids(at)[j])->0,
            ).len() && rule_reaches(v, catalog, v.kids(sheet_at(v, v.kids(at)[j])->0)[k], id)
                ==> exists|i: int|
                0 <= i < rules_under(v, catalog, id, at, distance, count).len() && (
                #[trigger] rules_under(v, catalog, id, at, distance, count)[i]).order == k
                    && rules_under(v, catalog, id, at, distance, count)[i].rule == #[trigger] v.kids(
                    sheet_at(v, v.kids(at)[j])->0,
                )[k],
    decreases count,
{
    if count > 0 {
        rules_under_are_found(v, catalog, id, at, distance, (count - 1) as nat);
        let before = rules_under(v, catalog, id, at, distance, (count - 1) as nat);
        let all = rules_under(v, catalog, id, at, distance, count);
        let last = v.kids(at)[count - 1];
        assert(v.kids(at).contains(last));
        if let Some(sheet) = sheet_at(v, last) {
            let n = v.kids(sheet).len();
            rules_in_are_found(v, catalog, id, sheet, distance, n);
            let more = rules_in(v, catalog, id, sheet, distance, n);
            assert forall|i: int| 0 <= i < all.len() implies {
                let c = #[trigger] all[i];
                c.distance == distance && c.priority == rule_priority(v, catalog, c.rule) as u64
                    && is_found(v, catalog, id, c)
            } by {
                if i < before.len() {
                    assert(all[i] == before[i]);
                } else {
                    assert(all[i] == more[i - before.len()]);
                    assert(found_at(v, catalog, id, all[i], last, sheet));
                }
            }
        }
        assert forall|j: int, k: int|
            0 <= j < count && sheet_at(v, v.kids(at)[j]) is Some && 0 <= k < v.kids(
                sheet_at(v, v.kids(at)[j])->0,
            ).len() && rule_reaches(
                v,
                catalog,
                #[trigger] v.kids(sheet_at(v, v.kids(at)[j])->0)[k],
                id,
            ) implies exists|i: int|
            0 <= i < all.len() && (#[trigger] all[i]).order == k && all[i].rule == v.kids(
                sheet_at(v, v.kids(at)[j])->0,
            )[k] by {
            let sheet = sheet_at(v, v.kids(at)[j])->0;
            if j == count - 1 {
                let more = rules_in(v, catalog, id, sheet, distance, v.kids(sheet).len());
                let i = choose|i: int| 0 <= i < more.len() && (#[trigger] more[i]).order == k;
                assert(all[before.len() + i] == more[i]);
            } else {
                let i = choose|i: int|
                    0 <= i < before.len() && (#[trigger] before[i]).order == k && before[i].rule
                        == v.kids(sheet)[k];
                assert(all[i] == before[i]);
            }
        }
    }
}

proof fn rules_along_are_found(v: DomView, catalog: CatalogView, id: usize, count: nat)
    requires
        count <= line_of(v, id).len() <= usize::MAX,
        forall|s: usize| (#[trigger] v.kids(s)).len() <= usize::MAX,
    ensures
        forall|i: int|
            0 <= i < rules_along(v, catalog, id, line_of(v, id), count).len() ==> {
                let c = #[trigger] rules_along(v, catalog, id, line_of(v, id), count)[i];
                c.distance < count && c.priority == rule_priority(v, catalog, c.rule) as u64
                    && is_found(v, catalog, id, c)
            },
    decreases count,
{
    if count > 0 {
        rules_along_are_found(v, catalog, id, (count - 1) as nat);
        let line = line_of(v, id);
        let at = line[count - 1];
        let before = rules_along(v, catalog, id, line, (count - 1) as nat);
        let more = rules_under(v, catalog, id, at, (count - 1) as usize, v.kids(at).len());
        let all = rules_along(v, catalog, id, line, count);
        rules_under_are_found(v, catalog, id, at, (count - 1) as usize, v.kids(at).len());
        assert forall|i: int| 0 <= i < all.len() implies {
            let c = #[trigger] all[i];
            c.distance < count && c.priority == rule_priority(v, catalog, c.rule) as u64
                && is_found(v, catalog, id, c)
        } by {
            if i < before.len() {
                assert(all[i] == before[i]);
            } else {
                assert(all[i] == more[i - before.len()]);
            }
        }
    }
}

proof fn rules_along_keep(v: DomView, catalog: CatalogView, id: usize, at: nat, count: nat, k: int)
    requires
        at < count <= line_of(v, id).len(),
        0 <= k < rules_under(
            v,
            catalog,
            id,
            line_of(v, id)[at as int],
            at as usize,
            v.kids(line_of(v, id)[at as int]).len(),
        ).len(),
    ensures
        exists|i: int|
            0 <= i < rules_along(v, catalog, id, line_of(v, id), count).len()
                && #[trigger] rules_along(v, catalog, id, line_of(v, id), count)[i] == rules_under(
                v,
                catalog,
                id,
                line_of(v, id)[at as int],
                at as usize,
                v.kids(line_of(v, id)[at as int]).len(),
            )[k],
    decreases count,
{
    let line = line_of(v, id);
    let here = rules_under(
        v,
        catalog,
        id,
        line[at as int],
        at as usize,
        v.kids(line[at as int]).len(),
    );
    let before = rules_along(v, catalog, id, line, (count - 1) as nat);
    let all = rules_along(v, catalog, id, line, count);
    if at == count - 1 {
        assert(all[before.len() + k] == here[k]);
    } else {
        rules_along_keep(v, catalog, id, at, (count - 1) as nat, k);
        let i = choose|i: int| 0 <= i < before.len() && #[trigger] before[i] == here[k];
        assert(all[i] == here[k]);
    }
}

/// The candidates are the rules for the instance in the sheets that reach it, and no others: each
/// was found where it says, and each such rule is found.
pub proof fn the_candidates_are_what_reaches(v: DomView, catalog: CatalogView, id: usize)
    requires
        v.ancestors(id).len() < usize::MAX,
        forall|s: usize| (#[trigger] v.kids(s)).len() <= usize::MAX,
    ensures
        forall|i: int|
            0 <= i < candidates_for(v, catalog, id).len() ==> is_found(
                v,
                catalog,
                id,
                #[trigger] candidates_for(v, catalog, id)[i],
            ),
        forall|c: Candidate, child: usize, sheet: usize| #[trigger]
            found_at(v, catalog, id, c, child, sheet) ==> exists|i: int|
                0 <= i < candidates_for(v, catalog, id).len() && (#[trigger] candidates_for(
                    v,
                    catalog,
                    id,
                )[i]).rule == c.rule && candidates_for(v, catalog, id)[i].distance == c.distance
                    && candidates_for(v, catalog, id)[i].order == c.order,
{
    let line = line_of(v, id);
    rules_along_are_found(v, catalog, id, line.len());
    let all = candidates_for(v, catalog, id);
    assert forall|c: Candidate, child: usize, sheet: usize| #[trigger]
        found_at(v, catalog, id, c, child, sheet) implies exists|i: int|
        0 <= i < all.len() && (#[trigger] all[i]).rule == c.rule && all[i].distance == c.distance
            && all[i].order == c.order by {
        let at = line[c.distance as int];
        let n = v.kids(at).len();
        rules_under_are_found(v, catalog, id, at, c.distance, n);
        let here = rules_under(v, catalog, id, at, c.distance, n);
        let j = choose|j: int| 0 <= j < v.kids(at).len() && v.kids(at)[j] == child;
        assert(v.kids(sheet_at(v, v.kids(at)[j])->0)[c.order as int] == c.rule);
        let k = choose|k: int|
            0 <= k < here.len() && (#[trigger] here[k]).order == c.order && here[k].rule == c.rule;
        rules_along_keep(v, catalog, id, c.distance as nat, line.len(), k);
        let i = choose|i: int| 0 <= i < all.len() && #[trigger] all[i] == here[k];
        assert(all[i].distance == c.distance);
    }
}

/// The number that the priority property of a rule holds, where it is an integer.
pub open spec fn whole_priority(v: DomView, catalog: CatalogView, rule: usize) -> Option<int> {
    match v.property(catalog, rule, "Priority"@) {
        Some(ValueView::Int32(n)) => Some(n as int),
        Some(ValueView::Int64(n)) => if -0x20_0000_0000_0000 <= n <= 0x20_0000_0000_0000 {
            Some(n as int)
        } else {
            None
        },
        None => Some(0),
        _ => None,
    }
}

/// Rules are ranked as their priority properties are ordered, in each type that a number may be
/// stored in; one that says nothing has the priority zero.
pub proof fn priorities_are_ordered_as_the_property(
    v: DomView,
    catalog: CatalogView,
    first: usize,
    second: usize,
)
    ensures
        whole_priority(v, catalog, first) matches Some(a) ==> whole_priority(
            v,
            catalog,
            second,
        ) matches Some(b) ==> (f64_rank(rule_priority(v, catalog, first) as u64) < f64_rank(
            rule_priority(v, catalog, second) as u64,
        ) <==> a < b),
        v.property(catalog, first, "Priority"@) matches Some(ValueView::Float64(a)) ==> v.property(
            catalog,
            second,
            "Priority"@,
        ) matches Some(ValueView::Float64(b)) ==> (f64_rank(
            rule_priority(v, catalog, first) as u64,
        ) < f64_rank(rule_priority(v, catalog, second) as u64) <==> f64_rank(a) < f64_rank(b)),
        v.property(catalog, first, "Priority"@) matches Some(ValueView::Float32(a)) ==> v.property(
            catalog,
            second,
            "Priority"@,
        ) matches Some(ValueView::Float32(b)) ==> !f32_nan(a) && !f32_nan(b) ==> (f64_rank(
            rule_priority(v, catalog, first) as u64,
        ) < f64_rank(rule_priority(v, catalog, second) as u64) <==> f32_rank(a) < f32_rank(b)),
{
    if let Some(a) = whole_priority(v, catalog, first) {
        if let Some(b) = whole_priority(v, catalog, second) {
            doubles_are_ordered_as_integers(a, b);
            doubles_are_ordered_as_integers(b, a);
        }
    }
    if let Some(ValueView::Float32(a)) = v.property(catalog, first, "Priority"@) {
        if let Some(ValueView::Float32(b)) = v.property(catalog, second, "Priority"@) {
            if !f32_nan(a) && !f32_nan(b) {
                widening_keeps_the_order(a, b);
                widening_keeps_the_order(b, a);
            }
        }
    }
}

/// Of the rules that reach an instance and set a property, the one with the largest priority
/// property wins it, wherever its sheet is.
pub proof fn the_largest_priority_property_wins(
    v: DomView,
    catalog: CatalogView,
    id: usize,
    map: Map<Seq<char>, ValueView>,
    i: int,
    name: Seq<char>,
)
    requires
        v.ancestors(id).len() < usize::MAX,
        forall|s: usize| (#[trigger] v.kids(s)).len() <= usize::MAX,
        settles(v, candidates_for(v, catalog, id), map),
        0 <= i < candidates_for(v, catalog, id).len(),
        sets(v, candidates_for(v, catalog, id), i, name),
        whole_priority(v, catalog, candidates_for(v, catalog, id)[i].rule) is Some,
        forall|j: int|
            0 <= j < candidates_for(v, catalog, id).len() && j != i && #[trigger] sets(
                v,
                candidates_for(v, catalog, id),
                j,
                name,
            ) ==> {
                let other = whole_priority(v, catalog, candidates_for(v, catalog, id)[j].rule);
                other is Some && other->0 < whole_priority(
                    v,
                    catalog,
                    candidates_for(v, catalog, id)[i].rule,
                )->0
            },
    ensures
        map.contains_key(name),
        map[name] == v.node(candidates_for(v, catalog, id)[i].rule).style[name],
{
    let c = candidates_for(v, catalog, id);
    rules_along_are_found(v, catalog, id, line_of(v, id).len());
    assert forall|j: int| 0 <= j < c.len() && j != i && #[trigger] sets(v, c, j, name) implies f64_rank(
        c[j].priority,
    ) < f64_rank(c[i].priority) by {
        priorities_are_ordered_as_the_property(v, catalog, c[j].rule, c[i].rule);
    }
    a_higher_priority_wins(v, c, map, i, name);
}

/// Of rules of the same priority and in the same sheet the later one wins.
pub proof fn a_later_rule_wins_a_tie(
    v: DomView,
    c: Seq<Candidate>,
    map: Map<Seq<char>, ValueView>,
    i: int,
    name: Seq<char>,
)
    requires
        settles(v, c, map),
        0 <= i < c.len(),
        sets(v, c, i, name),
        forall|j: int|
            0 <= j < c.len() && j != i && #[trigger] sets(v, c, j, name) ==> f64_rank(c[j].priority)
                == f64_rank(c[i].priority) && c[j].distance == c[i].distance && c[j].order
                < c[i].order,
    ensures
        map.contains_key(name),
        map[name] == v.node(c[i].rule).style[name],
{
    assert(map.contains_key(name));
    let k = choose|k: int| #[trigger]
        wins(v, c, k, name) && map[name] == v.node(c[k].rule).style[name];
    if k != i {
        assert(sets(v, c, k, name));
        assert(weaker(c, i, k));
    }
}

/// A rule reaches whom its selector is for: behind a dot those that hold the tag, behind a hash
/// those that bear the name, and otherwise those of the class. What is no living rule, or has no
/// selector, reaches nobody.
pub proof fn a_rule_reaches_whom_it_selects(
    v: DomView,
    catalog: CatalogView,
    rule: usize,
    id: usize,
    s: Seq<char>,
)
    requires
        v.property(catalog, rule, "Selector"@) == Some(ValueView::Text(s)),
    ensures
        !v.alive(rule) || v.node(rule).class != "StyleRule"@ || s.len() == 0 ==> !rule_reaches(
            v,
            catalog,
            rule,
            id,
        ),
        rule_reaches(v, catalog, rule, id) ==> {
            &&& s[0] == '.' ==> v.tags.contains((s.subrange(1, s.len() as int), id))
            &&& s[0] == '#' ==> v.alive(id) && v.node(id).name == s.subrange(1, s.len() as int)
            &&& s[0] != '.' && s[0] != '#' ==> v.alive(id) && catalog.is_a(v.node(id).class, s)
        },
        v.alive(rule) && v.node(rule).class == "StyleRule"@ && selected(catalog, s) is Ok && s.len()
            > 0 ==> {
            &&& s[0] == '.' && v.tags.contains((s.subrange(1, s.len() as int), id))
                ==> rule_reaches(v, catalog, rule, id)
            &&& s[0] == '#' && v.alive(id) && v.node(id).name == s.subrange(1, s.len() as int)
                ==> rule_reaches(v, catalog, rule, id)
            &&& s[0] != '.' && s[0] != '#' && v.alive(id) && catalog.is_a(v.node(id).class, s)
                ==> rule_reaches(v, catalog, rule, id)
        },
{
    if s.len() > 0 {
        assert(s.skip(1) =~= s.subrange(1, s.len() as int));
    }
}

/// Rules are looked for in style sheets alone: in a child that is one, or in the living one that a
/// child links to.
pub proof fn rules_are_looked_for_in_sheets(v: DomView, child: usize, sheet: usize)
    ensures
        sheet_at(v, child) == Some(sheet) ==> v.alive(child) && v.alive(sheet) && v.node(sheet).class
            == "StyleSheet"@,
        sheet_at(v, child) == Some(sheet) && sheet != child ==> v.node(child).class == "StyleLink"@
            && v.node(child).link == Some(sheet),
        v.alive(child) && v.node(child).class == "StyleSheet"@ ==> sheet_at(v, child) == Some(child),
        v.alive(child) && v.node(child).class == "StyleLink"@ && v.node(child).link == Some(sheet)
            && v.alive(sheet) && v.node(sheet).class == "StyleSheet"@ ==> sheet_at(v, child) == Some(
            sheet,
        ),
{
    reveal_strlit("StyleSheet");
    reveal_strlit("StyleLink");
    assert("StyleSheet"@.len() != "StyleLink"@.len());
}

/// An instance that no rule reaches is styled with nothing, and one that a single rule reaches with
/// just what the rule sets.
pub proof fn a_single_rule_styles_alone(dom: Dom, catalog: Catalog, id: usize, r: Table)
    requires
        call_ensures(resolve, (&dom, &catalog, id), r),
    ensures
        candidates_for(dom@, catalog@, id).len() == 0 ==> r@ == Map::<Seq<char>, ValueView>::empty(),
        candidates_for(dom@, catalog@, id).len() == 1 && dom@.alive(
            candidates_for(dom@, catalog@, id)[0].rule,
        ) ==> r@ == dom@.node(candidates_for(dom@, catalog@, id)[0].rule).style,
{
    let c = candidates_for(dom@, catalog@, id);
    if c.len() == 0 {
        assert forall|name: Seq<char>| !(#[trigger] r@.contains_key(name)) by {
            if r@.contains_key(name) {
                let i = choose|i: int| #[trigger]
                    wins(dom@, c, i, name) && r@[name] == dom@.node(c[i].rule).style[name];
                assert(wins(dom@, c, i, name));
            }
        }
        assert(r@ =~= Map::<Seq<char>, ValueView>::empty());
    }
    if c.len() == 1 && dom@.alive(c[0].rule) {
        let style = dom@.node(c[0].rule).style;
        assert forall|name: Seq<char>| #[trigger] r@.contains_key(name) implies style.contains_key(name)
            && r@[name] == style[name] by {
            let i = choose|i: int| #[trigger]
                wins(dom@, c, i, name) && r@[name] == dom@.node(c[i].rule).style[name];
            assert(wins(dom@, c, i, name) && i == 0);
        }
        assert forall|name: Seq<char>| #[trigger] style.contains_key(name) implies r@.contains_key(name) by {
            assert(sets(dom@, c, 0, name));
        }
        assert(r@ =~= style);
    }
}

} // verus!
