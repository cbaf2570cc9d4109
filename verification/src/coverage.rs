//! What the scenes of a gallery cover.

use crate::gallery::Scene;
use crate::keyed::Keyed;
use crate::names::{Names, Pairs, pair_views};
use crate::paint::{excused, is_excused};
use crate::text::{ascending, lex_lt, same, views};
use vstd::prelude::*;

verus! {

/// What there is to cover: the properties, and those of each class.
#[derive(Debug)]
pub struct Scope {
    pub properties: Names,
    pub by_class: Keyed<Names>,
}

/// What the scenes cover, of what there is to cover.
#[derive(Debug)]
pub struct Coverage {
    pub in_scope: Names,
    pub demonstrated: Names,
    /// The properties whose change showed.
    pub differential: Names,
    /// The properties that are excused from showing.
    pub excused: Names,
    pub missing: Vec<String>,
    /// The pairs of a class and a property that the scenes set and that are to be covered.
    pub pairs_demonstrated: usize,
    pub pairs_in_scope: usize,
}

/// Does a scene set a property?
pub open spec fn sets_property(scenes: Seq<Scene>, p: Seq<char>) -> bool {
    exists|i: int| 0 <= i < scenes.len() && (#[trigger] scenes[i]).demonstrates@.contains(p)
}

/// Does a scene set a property of a class?
pub open spec fn sets_pair(scenes: Seq<Scene>, c: Seq<char>, p: Seq<char>) -> bool {
    exists|i: int|
        0 <= i < scenes.len() && (#[trigger] scenes[i]).demonstrates_by_class@.contains((c, p))
}

/// Is a property of a class to be covered?
pub open spec fn pair_counts(by_class: Map<Seq<char>, Names>, c: Seq<char>, p: Seq<char>) -> bool {
    by_class.contains_key(c) && by_class[c]@.contains(p)
}

/// How many properties the first so many classes have to be covered.
pub open spec fn pairs_in(rows: Seq<(String, Names)>, count: nat) -> nat
    decreases count,
{
    if count == 0 {
        0
    } else {
        pairs_in(rows, (count - 1) as nat) + rows[count - 1].1@.len()
    }
}

/// How many pairs of a class and a property there are to cover.
pub open spec fn pairs_of(by_class: Keyed<Names>) -> nat {
    pairs_in(by_class.entries(), by_class.entries().len())
}

impl Coverage {
    /// How many properties there are to cover.
    pub fn total(&self) -> (r: usize)
        ensures
            r == self.in_scope@.len(),
    {
        self.in_scope.count()
    }

    /// How many properties are covered.
    pub fn count(&self) -> (r: usize)
        ensures
            r == self.demonstrated@.len(),
    {
        self.demonstrated.count()
    }

    /// Nothing covered of nothing.
    pub fn none() -> (r: Coverage)
        ensures
            r.in_scope@ == Set::<Seq<char>>::empty(),
            r.demonstrated@ == Set::<Seq<char>>::empty(),
            r.differential@ == Set::<Seq<char>>::empty(),
            r.excused@ == Set::<Seq<char>>::empty(),
            r.missing@ == Seq::<String>::empty(),
            r.pairs_demonstrated == 0,
            r.pairs_in_scope == 0,
    {
        Coverage {
            in_scope: Names::new(),
            demonstrated: Names::new(),
            differential: Names::new(),
            excused: Names::new(),
            missing: Vec::new(),
            pairs_demonstrated: 0,
            pairs_in_scope: 0,
        }
    }

    /// Does this tell what the scenes cover of a scope?
    pub open spec fn measures(self, scenes: Seq<Scene>, moved: Set<Seq<char>>, scope: Scope) -> bool {
        let all = scope.properties@;
        &&& self.in_scope@ == all
        &&& forall|p: Seq<char>| #[trigger]
            self.demonstrated@.contains(p) <==> all.contains(p) && sets_property(scenes, p)
        &&& self.differential@ == moved.intersect(all)
        &&& forall|p: Seq<char>| #[trigger]
            self.excused@.contains(p) <==> all.contains(p) && is_excused(p)
        &&& ascending(views(self.missing@))
        &&& views(self.missing@).to_set() == all.difference(self.demonstrated@)
        &&& exists|pairs: Set<(Seq<char>, Seq<char>)>|
            #![trigger pairs.len()]
            pairs.finite() && self.pairs_demonstrated == pairs.len() && forall|
                c: Seq<char>,
                p: Seq<char>,
            | #[trigger]
                pairs.contains((c, p)) <==> pair_counts(scope.by_class@, c, p) && sets_pair(
                    scenes,
                    c,
                    p,
                )
        &&& self.pairs_in_scope == pairs_of(scope.by_class)
    }
}

/// The names of one set that are in another.
fn common(a: &Names, b: &Names) -> (r: Names)
    ensures
        r@ == a@.intersect(b@),
{
    let list = a.list();
    let mut r = Names::new();
    let mut i: usize = 0;
    let ghost all = views(list@);
    while i < list.len()
        invariant
            i <= list.len(),
            all == views(list@),
            forall|x: Seq<char>| #[trigger]
                r@.contains(x) <==> b@.contains(x) && exists|j: int| 0 <= j < i && all[j] == x,
        decreases list.len() - i,
    {
        let ghost before = r@;
        if b.has(list[i].as_str()) {
            r.put(list[i].as_str());
        }
        proof {
            assert(all[i as int] == list@[i as int]@);
            assert forall|x: Seq<char>| #[trigger] r@.contains(x) <==> b@.contains(x) && exists|
                j: int,
            |
                0 <= j < i + 1 && all[j] == x by {
                if r@.contains(x) && !before.contains(x) {
                    assert(all[i as int] == x);
                }
                if b@.contains(x) && exists|j: int| 0 <= j < i + 1 && all[j] == x {
                    let j = choose|j: int| 0 <= j < i + 1 && all[j] == x;
                    if j < i {
                        assert(before.contains(x));
                    }
                }
            }
        }
        i += 1;
    }
    proof {
        assert forall|x: Seq<char>| r@.contains(x) <==> a@.intersect(b@).contains(x) by {
            if r@.contains(x) {
                let j = choose|j: int| 0 <= j < i && all[j] == x;
                assert(all.contains(x));
            }
            if all.contains(x) {
                let j = choose|j: int| 0 <= j < all.len() && all[j] == x;
                assert(all[j] == x);
            }
        }
        assert(r@ =~= a@.intersect(b@));
    }
    r
}

/// The excused names of a set.
fn excused_of(a: &Names) -> (r: Names)
    ensures
        forall|p: Seq<char>| #[trigger] r@.contains(p) <==> a@.contains(p) && is_excused(p),
{
    let list = a.list();
    let mut r = Names::new();
    let mut i: usize = 0;
    let ghost all = views(list@);
    while i < list.len()
        invariant
            i <= list.len(),
            all == views(list@),
            forall|x: Seq<char>| #[trigger]
                r@.contains(x) <==> is_excused(x) && exists|j: int| 0 <= j < i && all[j] == x,
        decreases list.len() - i,
    {
        let ghost before = r@;
        if excused(list[i].as_str()).is_some() {
            r.put(list[i].as_str());
        }
        proof {
            assert(all[i as int] == list@[i as int]@);
            assert forall|x: Seq<char>| #[trigger] r@.contains(x) <==> is_excused(x) && exists|
                j: int,
            |
                0 <= j < i + 1 && all[j] == x by {
                if r@.contains(x) && !before.contains(x) {
                    assert(all[i as int] == x);
                }
                if is_excused(x) && exists|j: int| 0 <= j < i + 1 && all[j] == x {
                    let j = choose|j: int| 0 <= j < i + 1 && all[j] == x;
                    if j < i {
                        assert(before.contains(x));
                    }
                }
            }
        }
        i += 1;
    }
    proof {
        assert forall|x: Seq<char>| r@.contains(x) <==> a@.contains(x) && is_excused(x) by {
            if r@.contains(x) {
                let j = choose|j: int| 0 <= j < i && all[j] == x;
                assert(all.contains(x));
            }
            if all.contains(x) {
                let j = choose|j: int| 0 <= j < all.len() && all[j] == x;
                assert(all[j] == x);
            }
        }
    }
    r
}

/// The names of one set that are not in another, in ascending order.
fn missing_from(all: &Names, have: &Names) -> (r: Vec<String>)
    ensures
        ascending(views(r@)),
        views(r@).to_set() == all@.difference(have@),
{
    let list = all.list();
    let ghost whole = views(list@);
    let mut r: Vec<String> = Vec::new();
    let mut i: usize = 0;
    while i < list.len()
        invariant
            i <= list.len(),
            whole == views(list@),
            ascending(whole),
            ascending(views(r@)),
            forall|k: int|
                0 <= k < r@.len() ==> exists|j: int|
                    0 <= j < i && whole[j] == #[trigger] views(r@)[k],
            forall|x: Seq<char>| #[trigger]
                views(r@).contains(x) <==> !have@.contains(x) && exists|j: int|
                    0 <= j < i && whole[j] == x,
        decreases list.len() - i,
    {
        let ghost before = views(r@);
        assert(whole[i as int] == list@[i as int]@);
        if !have.has(list[i].as_str()) {
            r.push(list[i].clone());
            proof {
                let now = views(r@);
                assert(now =~= before.push(whole[i as int]));
                assert forall|a: int, b: int| 0 <= a < b < now.len() implies #[trigger] lex_lt(
                    now[a],
                    now[b],
                ) by {
                    if b < before.len() {
                        assert(lex_lt(before[a], before[b]));
                    } else {
                        let j = choose|j: int| 0 <= j < i && whole[j] == before[a];
                        assert(lex_lt(whole[j], whole[i as int]));
                    }
                }
            }
        }
        proof {
            let now = views(r@);
            assert forall|k: int| 0 <= k < r@.len() implies exists|j: int|
                0 <= j < i + 1 && whole[j] == #[trigger] now[k] by {
                if k < before.len() {
                    let j = choose|j: int| 0 <= j < i && whole[j] == before[k];
                    assert(whole[j] == now[k]);
                } else {
                    assert(whole[i as int] == now[k]);
                }
            }
            assert forall|x: Seq<char>| #[trigger] now.contains(x) <==> !have@.contains(x)
                && exists|j: int| 0 <= j < i + 1 && whole[j] == x by {
                if now.contains(x) {
                    let k = choose|k: int| 0 <= k < now.len() && now[k] == x;
                    if k < before.len() {
                        assert(before[k] == x);
                        assert(before.contains(x));
                    } else {
                        assert(whole[i as int] == x);
                    }
                }
                if !have@.contains(x) && exists|j: int| 0 <= j < i + 1 && whole[j] == x {
                    let j = choose|j: int| 0 <= j < i + 1 && whole[j] == x;
                    if j < i {
                        assert(before.contains(x));
                        let k = choose|k: int| 0 <= k < before.len() && before[k] == x;
                        assert(now[k] == x);
                    } else {
                        assert(now[before.len() as int] == x);
                    }
                }
            }
        }
        i += 1;
    }
    proof {
        assert forall|x: Seq<char>| views(r@).to_set().contains(x) <==> all@.difference(
            have@,
        ).contains(x) by {
            if views(r@).contains(x) {
                let j = choose|j: int| 0 <= j < i && whole[j] == x;
                assert(whole.contains(x));
            }
            if whole.contains(x) {
                let j = choose|j: int| 0 <= j < whole.len() && whole[j] == x;
                assert(whole[j] == x);
            }
        }
        assert(views(r@).to_set() =~= all@.difference(have@));
    }
    r
}

/// The properties of a scope that the scenes set.
fn demonstrated_by(scenes: &Vec<Scene>, properties: &Names) -> (r: Names)
    ensures
        forall|p: Seq<char>| #[trigger]
            r@.contains(p) <==> properties@.contains(p) && sets_property(scenes@, p),
{
    let list = properties.list();
    let ghost all = views(list@);
    let mut r = Names::new();
    let mut i: usize = 0;
    while i < list.len()
        invariant
            i <= list.len(),
            all == views(list@),
            forall|x: Seq<char>| #[trigger]
                r@.contains(x) <==> sets_property(scenes@, x) && exists|j: int|
                    0 <= j < i && all[j] == x,
        decreases list.len() - i,
    {
        let ghost before = r@;
        assert(all[i as int] == list@[i as int]@);
        let mut set = false;
        let mut k: usize = 0;
        while k < scenes.len()
            invariant
                i < list.len(),
                k <= scenes.len(),
                set == exists|m: int|
                    0 <= m < k && (#[trigger] scenes@[m]).demonstrates@.contains(
                        list@[i as int]@,
                    ),
            decreases scenes.len() - k,
        {
            if scenes[k].demonstrates.has(list[i].as_str()) {
                assert(scenes@[k as int].demonstrates@.contains(list@[i as int]@));
                set = true;
            }
            k += 1;
        }
        if set {
            r.put(list[i].as_str());
        }
        proof {
            assert(set == sets_property(scenes@, all[i as int]));
            assert forall|x: Seq<char>| #[trigger] r@.contains(x) <==> sets_property(scenes@, x)
                && exists|j: int| 0 <= j < i + 1 && all[j] == x by {
                if r@.contains(x) && !before.contains(x) {
                    assert(all[i as int] == x);
                }
                if sets_property(scenes@, x) && exists|j: int| 0 <= j < i + 1 && all[j] == x {
                    let j = choose|j: int| 0 <= j < i + 1 && all[j] == x;
                    if j < i {
                        assert(before.contains(x));
                    }
                }
            }
        }
        i += 1;
    }
    proof {
        assert forall|x: Seq<char>| r@.contains(x) <==> properties@.contains(x) && sets_property(
            scenes@,
            x,
        ) by {
            if r@.contains(x) {
                let j = choose|j: int| 0 <= j < i && all[j] == x;
                assert(all.contains(x));
            }
            if all.contains(x) {
                let j = choose|j: int| 0 <= j < all.len() && all[j] == x;
                assert(all[j] == x);
            }
        }
    }
    r
}

/// The pairs of a scope that the scenes set.
fn pairs_by(scenes: &Vec<Scene>, by_class: &Keyed<Names>) -> (r: Pairs)
    ensures
        forall|c: Seq<char>, p: Seq<char>| #[trigger]
            r@.contains((c, p)) <==> pair_counts(by_class@, c, p) && sets_pair(scenes@, c, p),
{
    let mut r = Pairs::new();
    let mut k: usize = 0;
    while k < scenes.len()
        invariant
            k <= scenes.len(),
            forall|c: Seq<char>, p: Seq<char>| #[trigger]
                r@.contains((c, p)) <==> pair_counts(by_class@, c, p) && sets_pair(
                    scenes@.take(k as int),
                    c,
                    p,
                ),
        decreases scenes.len() - k,
    {
        let ghost before = r@;
        let list = scenes[k].demonstrates_by_class.list();
        let ghost rows = pair_views(list@);
        let mut i: usize = 0;
        while i < list.len()
            invariant
                i <= list.len(),
                rows == pair_views(list@),
                forall|c: Seq<char>, p: Seq<char>| #[trigger]
                    r@.contains((c, p)) <==> before.contains((c, p)) || (pair_counts(
                        by_class@,
                        c,
                        p,
                    ) && exists|j: int| 0 <= j < i && rows[j] == (c, p)),
            decreases list.len() - i,
        {
            let ghost mid = r@;
            assert(rows[i as int] == (list@[i as int].0@, list@[i as int].1@));
            let counts = match by_class.get(list[i].0.as_str()) {
                Some(names) => names.has(list[i].1.as_str()),
                None => false,
            };
            if counts {
                r.put(list[i].0.as_str(), list[i].1.as_str());
            }
            proof {
                assert forall|c: Seq<char>, p: Seq<char>| #[trigger]
                    r@.contains((c, p)) <==> before.contains((c, p)) || (pair_counts(
                        by_class@,
                        c,
                        p,
                    ) && exists|j: int| 0 <= j < i + 1 && rows[j] == (c, p)) by {
                    if r@.contains((c, p)) && !mid.contains((c, p)) {
                        assert(rows[i as int] == (c, p));
                    }
                    if pair_counts(by_class@, c, p) && exists|j: int|
                        0 <= j < i + 1 && rows[j] == (c, p) {
                        let j = choose|j: int| 0 <= j < i + 1 && rows[j] == (c, p);
                        if j < i {
                            assert(mid.contains((c, p)));
                        }
                    }
                }
            }
            i += 1;
        }
        proof {
            let scene = scenes@[k as int];
            let first = scenes@.take(k as int);
            let next = scenes@.take(k + 1);
            assert forall|c: Seq<char>, p: Seq<char>| #[trigger] r@.contains((c, p)) <==> pair_counts(
                by_class@,
                c,
                p,
            ) && sets_pair(next, c, p) by {
                if exists|j: int| 0 <= j < i && rows[j] == (c, p) {
                    let j = choose|j: int| 0 <= j < i && rows[j] == (c, p);
                    assert(rows.contains((c, p)));
                    assert(next[k as int].demonstrates_by_class@.contains((c, p)));
                }
                if sets_pair(first, c, p) {
                    let m = choose|m: int|
                        0 <= m < first.len() && (#[trigger] first[m]).demonstrates_by_class@.contains(
                            (c, p),
                        );
                    assert(next[m].demonstrates_by_class@.contains((c, p)));
                }
                if sets_pair(next, c, p) {
                    let m = choose|m: int|
                        0 <= m < next.len() && (#[trigger] next[m]).demonstrates_by_class@.contains(
                            (c, p),
                        );
                    if m < k {
                        assert(first[m].demonstrates_by_class@.contains((c, p)));
                    } else {
                        assert(rows.contains((c, p)));
                        let j = choose|j: int| 0 <= j < rows.len() && rows[j] == (c, p);
                        assert(rows[j] == (c, p));
                    }
                }
            }
        }
        k += 1;
    }
    assert(scenes@.take(k as int) =~= scenes@);
    r
}

fn count_pairs(by_class: &Keyed<Names>) -> (r: usize)
    requires
        pairs_of(*by_class) <= usize::MAX,
    ensures
        r == pairs_of(*by_class),
{
    let rows = by_class.rows();
    let mut r: usize = 0;
    let mut i: usize = 0;
    while i < rows.len()
        invariant
            i <= rows.len(),
            pairs_in(rows@, rows@.len()) <= usize::MAX,
            r == pairs_in(rows@, i as nat),
        decreases rows.len() - i,
    {
        proof {
            pairs_grow(rows@, (i + 1) as nat, rows@.len());
        }
        r = r + rows[i].1.count();
        i += 1;
    }
    r
}

proof fn pairs_grow(rows: Seq<(String, Names)>, a: nat, b: nat)
    requires
        a <= b,
    ensures
        pairs_in(rows, a) <= pairs_in(rows, b),
    decreases b,
{
    if a < b {
        pairs_grow(rows, a, (b - 1) as nat);
    }
}

fn copied(a: &Names) -> (r: Names)
    ensures
        r@ == a@,
{
    let r = common(a, a);
    assert(r@ =~= a@);
    r
}

/// Measure what scenes cover. Where it is not known what there is to cover, nothing is measured.
pub fn coverage_with_moved(scenes: &Vec<Scene>, moved: &Names, scope: &Option<Scope>) -> (r:
    Coverage)
    requires
        scope matches Some(s) ==> pairs_of(s.by_class) <= usize::MAX,
    ensures
        match scope {
            Some(s) => r.measures(scenes@, moved@, *s),
            None => r.in_scope@ == Set::<Seq<char>>::empty() && r.demonstrated@ == Set::<
                Seq<char>,
            >::empty() && r.differential@ == Set::<Seq<char>>::empty() && r.excused@ == Set::<
                Seq<char>,
            >::empty() && r.missing@.len() == 0 && r.pairs_demonstrated == 0 && r.pairs_in_scope
                == 0,
        },
{
    match scope {
        None => Coverage::none(),
        Some(s) => {
            let demonstrated = demonstrated_by(scenes, &s.properties);
            let pairs = pairs_by(scenes, &s.by_class);
            let missing = missing_from(&s.properties, &demonstrated);
            let pairs_demonstrated: usize = pairs.count();
            let pairs_in_scope: usize = count_pairs(&s.by_class);
            proof {
                assert(pairs@.finite() && pairs_demonstrated == pairs@.len());
            }
            Coverage {
                in_scope: copied(&s.properties),
                demonstrated,
                differential: common(moved, &s.properties),
                excused: excused_of(&s.properties),
                missing,
                pairs_demonstrated,
                pairs_in_scope,
            }
        },
    }
}

/// Measure what scenes cover, with no paint held against another.
pub fn coverage(scenes: &Vec<Scene>, scope: &Option<Scope>) -> (r: Coverage)
    requires
        scope matches Some(s) ==> pairs_of(s.by_class) <= usize::MAX,
    ensures
        match scope {
            Some(s) => r.measures(scenes@, Set::empty(), *s),
            None => r.in_scope@ == Set::<Seq<char>>::empty() && r.demonstrated@ == Set::<
                Seq<char>,
            >::empty() && r.differential@ == Set::<Seq<char>>::empty() && r.excused@ == Set::<
                Seq<char>,
            >::empty() && r.missing@.len() == 0 && r.pairs_demonstrated == 0 && r.pairs_in_scope
                == 0,
        },
{
    coverage_with_moved(scenes, &Names::new(), scope)
}

// ---- counts ----

/// How many of the first so many scenes use a class.
pub open spec fn uses(scenes: Seq<Scene>, class: Seq<char>, count: nat) -> nat
    decreases count,
{
    if count == 0 {
        0
    } else if scenes[count - 1].classes@.contains(class) {
        uses(scenes, class, (count - 1) as nat) + 1
    } else {
        uses(scenes, class, (count - 1) as nat)
    }
}

/// Does any scene use a class?
pub open spec fn is_used(scenes: Seq<Scene>, class: Seq<char>) -> bool {
    exists|i: int| 0 <= i < scenes.len() && (#[trigger] scenes[i]).classes@.contains(class)
}

fn count_uses(scenes: &Vec<Scene>, class: &str) -> (r: usize)
    ensures
        r == uses(scenes@, class@, scenes@.len()),
{
    let mut r: usize = 0;
    let mut i: usize = 0;
    while i < scenes.len()
        invariant
            i <= scenes.len(),
            r <= i,
            r == uses(scenes@, class@, i as nat),
        decreases scenes.len() - i,
    {
        if scenes[i].classes.has(class) {
            r += 1;
        }
        i += 1;
    }
    r
}

/// The classes that the scenes use, each with how many scenes use it.
pub fn classes_used(scenes: &Vec<Scene>) -> (r: Keyed<usize>)
    ensures
        forall|c: Seq<char>| #[trigger] r@.contains_key(c) <==> is_used(scenes@, c),
        forall|c: Seq<char>| #[trigger]
            r@.contains_key(c) ==> r@[c] == uses(scenes@, c, scenes@.len()),
{
    let mut r: Keyed<usize> = Keyed::new();
    let mut i: usize = 0;
    while i < scenes.len()
        invariant
            i <= scenes.len(),
            forall|c: Seq<char>| #[trigger]
                r@.contains_key(c) <==> is_used(scenes@.take(i as int), c),
            forall|c: Seq<char>| #[trigger]
                r@.contains_key(c) ==> r@[c] == uses(scenes@, c, scenes@.len()),
        decreases scenes.len() - i,
    {
        let ghost before = r@;
        let list = scenes[i].classes.list();
        let ghost all = views(list@);
        let mut k: usize = 0;
        while k < list.len()
            invariant
                k <= list.len(),
                all == views(list@),
                forall|c: Seq<char>| #[trigger]
                    r@.contains_key(c) <==> before.contains_key(c) || exists|j: int|
                        0 <= j < k && all[j] == c,
                forall|c: Seq<char>| #[trigger]
                    r@.contains_key(c) ==> r@[c] == uses(scenes@, c, scenes@.len()),
            decreases list.len() - k,
        {
            let ghost mid = r@;
            assert(all[k as int] == list@[k as int]@);
            let n: usize = count_uses(scenes, list[k].as_str());
            r.put(list[k].clone(), n);
            proof {
                assert forall|c: Seq<char>| #[trigger] r@.contains_key(c) <==> before.contains_key(
                    c,
                ) || exists|j: int| 0 <= j < k + 1 && all[j] == c by {
                    if r@.contains_key(c) && !mid.contains_key(c) {
                        assert(all[k as int] == c);
                    }
                    if exists|j: int| 0 <= j < k + 1 && all[j] == c {
                        let j = choose|j: int| 0 <= j < k + 1 && all[j] == c;
                        if j < k {
                            assert(mid.contains_key(c));
                        }
                    }
                }
            }
            k += 1;
        }
        proof {
            let first = scenes@.take(i as int);
            let next = scenes@.take(i + 1);
            assert forall|c: Seq<char>| #[trigger] r@.contains_key(c) <==> is_used(next, c) by {
                if is_used(first, c) {
                    let m = choose|m: int|
                        0 <= m < first.len() && (#[trigger] first[m]).classes@.contains(c);
                    assert(next[m].classes@.contains(c));
                }
                if exists|j: int| 0 <= j < k && all[j] == c {
                    let j = choose|j: int| 0 <= j < k && all[j] == c;
                    assert(all.contains(c));
                    assert(next[i as int].classes@.contains(c));
                }
                if is_used(next, c) {
                    let m = choose|m: int|
                        0 <= m < next.len() && (#[trigger] next[m]).classes@.contains(c);
                    if m < i {
                        assert(first[m].classes@.contains(c));
                    } else {
                        assert(all.contains(c));
                        let j = choose|j: int| 0 <= j < all.len() && all[j] == c;
                        assert(all[j] == c);
                    }
                }
            }
        }
        i += 1;
    }
    assert(scenes@.take(i as int) =~= scenes@);
    r
}

// ---- pillars ----

/// How many of the first so many scenes are of a pillar.
pub open spec fn scenes_of(scenes: Seq<Scene>, pillar: Seq<char>, count: nat) -> nat
    decreases count,
{
    if count == 0 {
        0
    } else if scenes[count - 1].pillar@ == pillar {
        scenes_of(scenes, pillar, (count - 1) as nat) + 1
    } else {
        scenes_of(scenes, pillar, (count - 1) as nat)
    }
}

/// Does a scene of a pillar set a property?
pub open spec fn pillar_sets(scenes: Seq<Scene>, pillar: Seq<char>, p: Seq<char>) -> bool {
    exists|i: int|
        0 <= i < scenes.len() && (#[trigger] scenes[i]).pillar@ == pillar
            && scenes[i].demonstrates@.contains(p)
}

/// Is there a scene of a pillar?
pub open spec fn has_scenes(scenes: Seq<Scene>, pillar: Seq<char>) -> bool {
    exists|i: int| 0 <= i < scenes.len() && (#[trigger] scenes[i]).pillar@ == pillar
}

/// The properties that there are to cover and that the scenes of a pillar set.
pub open spec fn pillar_props(
    scenes: Seq<Scene>,
    pillar: Seq<char>,
    properties: Set<Seq<char>>,
) -> Set<Seq<char>> {
    properties.filter(|p: Seq<char>| pillar_sets(scenes, pillar, p))
}

fn count_scenes(scenes: &Vec<Scene>, pillar: &str) -> (r: usize)
    ensures
        r == scenes_of(scenes@, pillar@, scenes@.len()),
{
    let mut r: usize = 0;
    let mut i: usize = 0;
    while i < scenes.len()
        invariant
            i <= scenes.len(),
            r <= i,
            r == scenes_of(scenes@, pillar@, i as nat),
        decreases scenes.len() - i,
    {
        if same(scenes[i].pillar.as_str(), pillar) {
            r += 1;
        }
        i += 1;
    }
    r
}

fn count_props(scenes: &Vec<Scene>, pillar: &str, properties: &Names) -> (r: usize)
    ensures
        r == pillar_props(scenes@, pillar@, properties@).len(),
{
    let list = properties.list();
    let ghost all = views(list@);
    let mut r = Names::new();
    let mut i: usize = 0;
    while i < list.len()
        invariant
            i <= list.len(),
            all == views(list@),
            forall|x: Seq<char>| #[trigger]
                r@.contains(x) <==> pillar_sets(scenes@, pillar@, x) && exists|j: int|
                    0 <= j < i && all[j] == x,
        decreases list.len() - i,
    {
        let ghost before = r@;
        assert(all[i as int] == list@[i as int]@);
        let mut set = false;
        let mut k: usize = 0;
        while k < scenes.len()
            invariant
                i < list.len(),
                k <= scenes.len(),
                set == exists|m: int|
                    0 <= m < k && (#[trigger] scenes@[m]).pillar@ == pillar@
                        && scenes@[m].demonstrates@.contains(list@[i as int]@),
            decreases scenes.len() - k,
        {
            if same(scenes[k].pillar.as_str(), pillar) && scenes[k].demonstrates.has(
                list[i].as_str(),
            ) {
                assert(scenes@[k as int].pillar@ == pillar@);
                set = true;
            }
            k += 1;
        }
        if set {
            r.put(list[i].as_str());
        }
        proof {
            assert(set == pillar_sets(scenes@, pillar@, all[i as int]));
            assert forall|x: Seq<char>| #[trigger] r@.contains(x) <==> pillar_sets(
                scenes@,
                pillar@,
                x,
            ) && exists|j: int| 0 <= j < i + 1 && all[j] == x by {
                if r@.contains(x) && !before.contains(x) {
                    assert(all[i as int] == x);
                }
                if pillar_sets(scenes@, pillar@, x) && exists|j: int|
                    0 <= j < i + 1 && all[j] == x {
                    let j = choose|j: int| 0 <= j < i + 1 && all[j] == x;
                    if j < i {
                        assert(before.contains(x));
                    }
                }
            }
        }
        i += 1;
    }
    proof {
        let want = pillar_props(scenes@, pillar@, properties@);
        assert forall|x: Seq<char>| r@.contains(x) <==> want.contains(x) by {
            if r@.contains(x) {
                let j = choose|j: int| 0 <= j < i && all[j] == x;
                assert(all.contains(x));
            }
            if all.contains(x) {
                let j = choose|j: int| 0 <= j < all.len() && all[j] == x;
                assert(all[j] == x);
            }
        }
        assert(r@ =~= want);
    }
    r.count()
}

/// The pillars that there are directories or scenes of, each with how many scenes it has and how
/// many properties they cover. Where it is not known what there is to cover, nothing is counted.
pub fn by_pillar(directories: &Vec<String>, scenes: &Vec<Scene>, properties: &Option<Names>) -> (r:
    Keyed<(usize, usize)>)
    ensures
        forall|k: Seq<char>| #[trigger]
            r@.contains_key(k) <==> views(directories@).contains(k) || (properties is Some
                && has_scenes(scenes@, k)),
        forall|k: Seq<char>| #[trigger]
            r@.contains_key(k) ==> match properties {
                None => r@[k] == (0usize, 0usize),
                Some(all) => r@[k].0 == scenes_of(scenes@, k, scenes@.len()) && r@[k].1
                    == pillar_props(scenes@, k, all@).len(),
            },
{
    let ghost dirs = views(directories@);
    let mut r: Keyed<(usize, usize)> = Keyed::new();
    let mut i: usize = 0;
    while i < directories.len()
        invariant
            i <= directories.len(),
            dirs == views(directories@),
            forall|k: Seq<char>| #[trigger]
                r@.contains_key(k) <==> exists|j: int| 0 <= j < i && dirs[j] == k,
            forall|k: Seq<char>| #[trigger]
                r@.contains_key(k) ==> match properties {
                    None => r@[k] == (0usize, 0usize),
                    Some(all) => r@[k].0 == scenes_of(scenes@, k, scenes@.len()) && r@[k].1
                        == pillar_props(scenes@, k, all@).len(),
                },
        decreases directories.len() - i,
    {
        let ghost before = r@;
        assert(dirs[i as int] == directories@[i as int]@);
        let counts: (usize, usize) = match properties {
            None => (0, 0),
            Some(all) => (
                count_scenes(scenes, directories[i].as_str()),
                count_props(scenes, directories[i].as_str(), all),
            ),
        };
        r.put(directories[i].clone(), counts);
        proof {
            assert forall|k: Seq<char>| #[trigger] r@.contains_key(k) <==> exists|j: int|
                0 <= j < i + 1 && dirs[j] == k by {
                if r@.contains_key(k) && !before.contains_key(k) {
                    assert(dirs[i as int] == k);
                }
                if exists|j: int| 0 <= j < i + 1 && dirs[j] == k {
                    let j = choose|j: int| 0 <= j < i + 1 && dirs[j] == k;
                    if j < i {
                        assert(before.contains_key(k));
                    }
                }
            }
        }
        i += 1;
    }
    proof {
        assert forall|k: Seq<char>| #[trigger] r@.contains_key(k) <==> dirs.contains(k) by {
            if r@.contains_key(k) {
                let j = choose|j: int| 0 <= j < i && dirs[j] == k;
                assert(dirs.contains(k));
            }
            if dirs.contains(k) {
                let j = choose|j: int| 0 <= j < dirs.len() && dirs[j] == k;
                assert(dirs[j] == k);
            }
        }
    }
    let all = match properties {
        None => return r,
        Some(all) => all,
    };
    let mut n: usize = 0;
    while n < scenes.len()
        invariant
            n <= scenes.len(),
            forall|k: Seq<char>| #[trigger]
                r@.contains_key(k) <==> dirs.contains(k) || has_scenes(scenes@.take(n as int), k),
            forall|k: Seq<char>| #[trigger]
                r@.contains_key(k) ==> r@[k].0 == scenes_of(scenes@, k, scenes@.len()) && r@[k].1
                    == pillar_props(scenes@, k, all@).len(),
        decreases scenes.len() - n,
    {
        let ghost before = r@;
        let pillar = scenes[n].pillar.clone();
        let ghost key = pillar@;
        let counts: (usize, usize) = (
            count_scenes(scenes, pillar.as_str()),
            count_props(scenes, pillar.as_str(), all),
        );
        r.put(pillar, counts);
        proof {
            let first = scenes@.take(n as int);
            let next = scenes@.take(n + 1);
            assert forall|k: Seq<char>| #[trigger] r@.contains_key(k) <==> dirs.contains(k)
                || has_scenes(next, k) by {
                if has_scenes(first, k) {
                    let m = choose|m: int|
                        0 <= m < first.len() && (#[trigger] first[m]).pillar@ == k;
                    assert(next[m].pillar@ == k);
                }
                if k == key {
                    assert(next[n as int].pillar@ == k);
                }
                if has_scenes(next, k) {
                    let m = choose|m: int| 0 <= m < next.len() && (#[trigger] next[m]).pillar@ == k;
                    if m < n {
                        assert(first[m].pillar@ == k);
                    }
                }
            }
        }
        n += 1;
    }
    assert(scenes@.take(n as int) =~= scenes@);
    r
}

// ---- laws ----

/// Every property that there is to cover is covered or missing, and none is both.
pub proof fn covered_or_missing(
    c: Coverage,
    scenes: Seq<Scene>,
    moved: Set<Seq<char>>,
    scope: Scope,
)
    requires
        c.measures(scenes, moved, scope),
    ensures
        forall|p: Seq<char>| #[trigger]
            scope.properties@.contains(p) ==> (c.demonstrated@.contains(p) != views(
                c.missing@,
            ).to_set().contains(p)),
        forall|p: Seq<char>| #[trigger]
            c.demonstrated@.contains(p) ==> scope.properties@.contains(p),
{
    assert forall|p: Seq<char>| #[trigger] scope.properties@.contains(p) implies (
    c.demonstrated@.contains(p) != views(c.missing@).to_set().contains(p)) by {
        assert(scope.properties@.difference(c.demonstrated@).contains(p) == (
        !c.demonstrated@.contains(p)));
    }
}

/// Without scenes nothing is covered, and everything is missing.
pub proof fn no_scenes_cover_nothing(c: Coverage, moved: Set<Seq<char>>, scope: Scope)
    requires
        c.measures(Seq::empty(), moved, scope),
    ensures
        c.demonstrated@ == Set::<Seq<char>>::empty(),
        views(c.missing@).to_set() == scope.properties@,
{
    assert forall|p: Seq<char>| !c.demonstrated@.contains(p) by {}
    assert(c.demonstrated@ =~= Set::empty());
    assert(scope.properties@.difference(c.demonstrated@) =~= scope.properties@);
}

/// One more scene adds to its own pillar what it demonstrates, and to no other.
pub proof fn a_scene_adds_to_its_pillar(
    scenes: Seq<Scene>,
    s: Scene,
    pillar: Seq<char>,
    p: Seq<char>,
)
    ensures
        pillar_sets(scenes.push(s), pillar, p) <==> pillar_sets(scenes, pillar, p) || s.pillar@
            == pillar && s.demonstrates@.contains(p),
        !pillar_sets(Seq::empty(), pillar, p),
{
    let all = scenes.push(s);
    assert(all[scenes.len() as int] == s);
    if pillar_sets(all, pillar, p) {
        let i = choose|i: int|
            0 <= i < all.len() && (#[trigger] all[i]).pillar@ == pillar
                && all[i].demonstrates@.contains(p);
        if i < scenes.len() {
            assert(scenes[i] == all[i]);
        }
    }
    if pillar_sets(scenes, pillar, p) {
        let i = choose|i: int|
            0 <= i < scenes.len() && (#[trigger] scenes[i]).pillar@ == pillar
                && scenes[i].demonstrates@.contains(p);
        assert(all[i] == scenes[i]);
    }
}

} // verus!
