//! The instance tree as a mathematical object, and what holds of it.
//!
//! An instance is a number, and numbers are never used twice. Parents and children point at each
//! other, and no instance is above itself: there is a rank that grows on the way down, and one
//! that grows on the way up.

use crate::signal::KindView;
use crate::value::ValueView;
use vstd::prelude::*;

verus! {

/// One instance.
pub struct NodeView {
    pub class: Seq<char>,
    pub name: Seq<char>,
    pub parent: Option<usize>,
    pub children: Seq<usize>,
    /// What has been assigned; everything else reads its default.
    pub props: Map<Seq<char>, ValueView>,
    pub attributes: Map<Seq<char>, ValueView>,
    /// Connection numbers, in the order of connecting.
    pub connections: Seq<usize>,
    /// The properties that a style rule sets.
    pub style: Map<Seq<char>, ValueView>,
    /// The sheet that a style link names.
    pub link: Option<usize>,
}

/// One connected handler: on which instance, for which event, and which guest function.
pub struct HandlerView {
    pub instance: usize,
    pub kind: KindView,
    pub function: u64,
}

/// Every instance and every connection. A number whose slot is empty is that of a destroyed
/// instance.
pub struct DomView {
    pub slots: Seq<Option<NodeView>>,
    pub handlers: Seq<Option<HandlerView>>,
    /// Has anything that a guest can see changed since the last frame?
    pub dirty: bool,
    /// The destroyed instances whose handles can be forgotten.
    pub released: Set<usize>,
    /// Which tag is on which instance.
    pub tags: Set<(Seq<char>, usize)>,
    /// The instance that stands for the tag service, once there is one.
    pub service: Option<usize>,
}

impl DomView {
    pub open spec fn alive(self, id: usize) -> bool {
        id < self.slots.len() && self.slots[id as int] is Some
    }

    pub open spec fn node(self, id: usize) -> NodeView {
        self.slots[id as int]->0
    }

    pub open spec fn parent(self, id: usize) -> Option<usize> {
        if self.alive(id) {
            self.node(id).parent
        } else {
            None
        }
    }

    pub open spec fn kids(self, id: usize) -> Seq<usize> {
        if self.alive(id) {
            self.node(id).children
        } else {
            Seq::empty()
        }
    }

    /// Parents and children point at each other, at living instances only, and each child once.
    pub open spec fn linked(self) -> bool {
        &&& forall|id: usize| #[trigger]
            self.alive(id) && self.parent(id) is Some ==> self.alive(self.parent(id)->0)
                && self.kids(self.parent(id)->0).contains(id)
        &&& forall|id: usize, i: int|
            self.alive(id) && 0 <= i < self.kids(id).len() ==> self.alive(
                #[trigger] self.kids(id)[i],
            ) && self.parent(self.kids(id)[i]) == Some(id)
        &&& forall|id: usize| #[trigger] self.alive(id) ==> self.kids(id).no_duplicates()
    }

    /// A rank that grows from parent to child.
    pub open spec fn is_depth(self, rank: spec_fn(usize) -> nat) -> bool {
        forall|id: usize| #[trigger]
            self.alive(id) && self.parent(id) is Some ==> rank(self.parent(id)->0) < rank(id)
    }

    /// A rank that grows from child to parent.
    pub open spec fn is_height(self, rank: spec_fn(usize) -> nat) -> bool {
        forall|id: usize| #[trigger]
            self.alive(id) && self.parent(id) is Some ==> rank(id) < rank(self.parent(id)->0)
    }

    /// The slots form a forest.
    pub open spec fn forest_ok(self) -> bool {
        &&& self.linked()
        &&& exists|rank: spec_fn(usize) -> nat| self.is_depth(rank)
        &&& exists|rank: spec_fn(usize) -> nat| self.is_height(rank)
    }

    pub open spec fn depth(self) -> spec_fn(usize) -> nat {
        choose|rank: spec_fn(usize) -> nat| self.is_depth(rank)
    }

    pub open spec fn height(self) -> spec_fn(usize) -> nat {
        choose|rank: spec_fn(usize) -> nat| self.is_height(rank)
    }

    /// The parents above `id`, closest first, at most so many.
    pub open spec fn chain(self, id: usize, steps: nat) -> Seq<usize>
        decreases steps,
    {
        if steps == 0 || self.parent(id) is None {
            Seq::empty()
        } else {
            seq![self.parent(id)->0] + self.chain(self.parent(id)->0, (steps - 1) as nat)
        }
    }

    /// The ancestors of an instance, closest first.
    pub open spec fn ancestors(self, id: usize) -> Seq<usize> {
        self.chain(id, (self.depth())(id))
    }

    /// Is `above` at or above `id`?
    pub open spec fn at_or_above(self, above: usize, id: usize) -> bool {
        above == id || self.ancestors(id).contains(above)
    }

    /// The instances of a list with all that is under them, each before its children, at most so
    /// many levels down.
    pub open spec fn spread(self, list: Seq<usize>, levels: nat) -> Seq<usize>
        decreases levels, list.len(),
    {
        if levels == 0 || list.len() == 0 {
            Seq::empty()
        } else {
            seq![list[0]] + self.spread(self.kids(list[0]), (levels - 1) as nat) + self.spread(
                list.skip(1),
                levels,
            )
        }
    }

    /// Everything under `id`, each instance before its children, children in their order.
    pub open spec fn descendants(self, id: usize) -> Seq<usize> {
        self.spread(self.kids(id), (self.height())(id))
    }

    /// `id` and everything under it, each instance before its children.
    pub open spec fn subtree(self, id: usize) -> Seq<usize> {
        seq![id] + self.descendants(id)
    }
}

// ---- ranks ----

pub proof fn depth_holds(v: DomView)
    requires
        v.forest_ok(),
    ensures
        v.is_depth(v.depth()),
{
}

pub proof fn height_holds(v: DomView)
    requires
        v.forest_ok(),
    ensures
        v.is_height(v.height()),
{
}

// ---- upwards ----

/// With at least as many steps as the depth, a chain is complete: more steps change nothing.
pub proof fn chain_stable(v: DomView, id: usize, a: nat, b: nat)
    requires
        v.forest_ok(),
        (v.depth())(id) <= a,
        (v.depth())(id) <= b,
    ensures
        v.chain(id, a) == v.chain(id, b),
    decreases (v.depth())(id),
{
    depth_holds(v);
    if v.parent(id) is Some {
        let p = v.parent(id)->0;
        assert(v.alive(id));
        assert((v.depth())(p) < (v.depth())(id));
        chain_stable(v, p, (a - 1) as nat, (b - 1) as nat);
    }
}

/// The ancestors of an instance are its parent and the ancestors of that.
pub proof fn ancestors_unfold(v: DomView, id: usize)
    requires
        v.forest_ok(),
    ensures
        v.parent(id) is None ==> v.ancestors(id) == Seq::<usize>::empty(),
        v.parent(id) is Some ==> v.ancestors(id) == seq![v.parent(id)->0] + v.ancestors(
            v.parent(id)->0,
        ),
{
    depth_holds(v);
    if v.parent(id) is Some {
        let p = v.parent(id)->0;
        assert(v.alive(id));
        chain_stable(v, p, ((v.depth())(id) - 1) as nat, (v.depth())(p));
    }
}

/// What is at or above the parent is at or above the child, and what is above the child is at or
/// above the parent.
pub proof fn at_or_above_parent(v: DomView, above: usize, id: usize)
    requires
        v.forest_ok(),
    ensures
        v.at_or_above(above, id) <==> above == id || (v.parent(id) is Some && v.at_or_above(
            above,
            v.parent(id)->0,
        )),
{
    ancestors_unfold(v, id);
    if v.parent(id) is Some {
        let p = v.parent(id)->0;
        let rest = v.ancestors(p);
        let all = v.ancestors(id);
        assert(all =~= seq![p] + rest);
        if all.contains(above) {
            let i = choose|i: int| 0 <= i < all.len() && all[i] == above;
            if i > 0 {
                assert(rest[i - 1] == above);
            }
        }
        if above == p {
            assert(all[0] == above);
        }
        if rest.contains(above) {
            let i = choose|i: int| 0 <= i < rest.len() && rest[i] == above;
            assert(all[i + 1] == above);
        }
    }
}

/// The parent of what is at or above an instance is above it too.
pub proof fn parent_of_above(v: DomView, x: usize, id: usize)
    requires
        v.forest_ok(),
        v.at_or_above(x, id),
        v.parent(x) is Some,
    ensures
        v.at_or_above(v.parent(x)->0, id),
    decreases (v.depth())(id),
{
    depth_holds(v);
    at_or_above_parent(v, x, id);
    at_or_above_parent(v, v.parent(x)->0, id);
    if x == id {
        assert(v.at_or_above(v.parent(x)->0, v.parent(id)->0));
    } else {
        let p = v.parent(id)->0;
        assert(v.alive(id));
        parent_of_above(v, x, p);
    }
}

/// To be at or above is transitive.
pub proof fn above_transitive(v: DomView, a: usize, b: usize, c: usize)
    requires
        v.forest_ok(),
        v.at_or_above(a, b),
        v.at_or_above(b, c),
    ensures
        v.at_or_above(a, c),
    decreases (v.depth())(c),
{
    depth_holds(v);
    at_or_above_parent(v, b, c);
    at_or_above_parent(v, a, c);
    if b != c {
        let p = v.parent(c)->0;
        assert(v.alive(c));
        above_transitive(v, a, b, p);
    }
}

/// What is above an instance lies less deep.
pub proof fn above_is_shallower(v: DomView, a: usize, id: usize)
    requires
        v.forest_ok(),
        v.at_or_above(a, id),
    ensures
        a != id ==> (v.depth())(a) < (v.depth())(id),
    decreases (v.depth())(id),
{
    depth_holds(v);
    at_or_above_parent(v, a, id);
    if a != id {
        let p = v.parent(id)->0;
        assert(v.alive(id));
        above_is_shallower(v, a, p);
    }
}

/// No instance is above itself: of two different instances at most one is above the other.
pub proof fn no_cycle(v: DomView, a: usize, b: usize)
    requires
        v.forest_ok(),
        v.at_or_above(a, b),
        v.at_or_above(b, a),
    ensures
        a == b,
{
    above_is_shallower(v, a, b);
    above_is_shallower(v, b, a);
}

/// Of two instances above one instance, one is at or above the other.
pub proof fn ancestors_are_a_line(v: DomView, a: usize, b: usize, id: usize)
    requires
        v.forest_ok(),
        v.at_or_above(a, id),
        v.at_or_above(b, id),
    ensures
        v.at_or_above(a, b) || v.at_or_above(b, a),
    decreases (v.depth())(id),
{
    depth_holds(v);
    at_or_above_parent(v, a, id);
    at_or_above_parent(v, b, id);
    if a != id && b != id {
        assert(v.alive(id));
        ancestors_are_a_line(v, a, b, v.parent(id)->0);
    }
}

// ---- downwards ----

/// Is every instance of the list below this height?
pub open spec fn below(v: DomView, list: Seq<usize>, levels: nat) -> bool {
    forall|i: int| 0 <= i < list.len() ==> (v.height())(#[trigger] list[i]) < levels
}

pub proof fn kids_below(v: DomView, id: usize)
    requires
        v.forest_ok(),
    ensures
        below(v, v.kids(id), (v.height())(id)),
{
    height_holds(v);
    assert forall|i: int| 0 <= i < v.kids(id).len() implies (v.height())(
        #[trigger] v.kids(id)[i],
    ) < (v.height())(id) by {
        assert(v.alive(id));
        assert(v.alive(v.kids(id)[i]));
    }
}

/// With more levels than the list is high, a spread is complete.
pub proof fn spread_stable(v: DomView, list: Seq<usize>, a: nat, b: nat)
    requires
        v.forest_ok(),
        below(v, list, a),
        below(v, list, b),
    ensures
        v.spread(list, a) == v.spread(list, b),
    decreases a, list.len(),
{
    if list.len() > 0 {
        kids_below(v, list[0]);
        assert((v.height())(list[0]) < a);
        assert(below(v, v.kids(list[0]), (a - 1) as nat));
        assert(below(v, v.kids(list[0]), (b - 1) as nat));
        spread_stable(v, v.kids(list[0]), (a - 1) as nat, (b - 1) as nat);
        assert(below(v, list.skip(1), a));
        assert(below(v, list.skip(1), b));
        spread_stable(v, list.skip(1), a, b);
    }
}

/// A spread of two lists is the spread of one and then of the other.
pub proof fn spread_concat(v: DomView, a: Seq<usize>, b: Seq<usize>, levels: nat)
    ensures
        v.spread(a + b, levels) == v.spread(a, levels) + v.spread(b, levels),
    decreases a.len(),
{
    if a.len() == 0 {
        assert(a + b =~= b);
    } else if levels > 0 {
        assert((a + b).skip(1) =~= a.skip(1) + b);
        spread_concat(v, a.skip(1), b, levels);
        let head = seq![a[0]] + v.spread(v.kids(a[0]), (levels - 1) as nat);
        assert(head + (v.spread(a.skip(1), levels) + v.spread(b, levels)) =~= head + v.spread(
            a.skip(1),
            levels,
        ) + v.spread(b, levels));
    }
}

/// The first of a list, what is under it, and the rest: with levels to spare.
pub proof fn spread_first(v: DomView, list: Seq<usize>, levels: nat)
    requires
        v.forest_ok(),
        list.len() > 0,
        below(v, list, levels),
    ensures
        v.spread(list, levels) == v.subtree(list[0]) + v.spread(list.skip(1), levels),
        v.spread(list, levels) == seq![list[0]] + v.spread(v.kids(list[0]) + list.skip(1), levels),
        below(v, v.kids(list[0]) + list.skip(1), levels),
{
    let x = list[0];
    kids_below(v, x);
    assert((v.height())(x) < levels);
    assert(below(v, v.kids(x), (levels - 1) as nat));
    assert(below(v, v.kids(x), levels));
    spread_stable(v, v.kids(x), (levels - 1) as nat, (v.height())(x));
    spread_stable(v, v.kids(x), (levels - 1) as nat, levels);
    spread_concat(v, v.kids(x), list.skip(1), levels);
    assert(seq![x] + (v.spread(v.kids(x), levels) + v.spread(list.skip(1), levels)) =~= seq![x]
        + v.spread(v.kids(x), levels) + v.spread(list.skip(1), levels));
    assert forall|i: int| 0 <= i < (v.kids(x) + list.skip(1)).len() implies (v.height())(
        #[trigger] (v.kids(x) + list.skip(1))[i],
    ) < levels by {
        if i >= v.kids(x).len() {
            assert((v.kids(x) + list.skip(1))[i] == list[i - v.kids(x).len() + 1]);
        } else {
            assert((v.kids(x) + list.skip(1))[i] == v.kids(x)[i]);
        }
    }
}

/// What a spread holds: every instance at or under one of the list.
pub proof fn spread_members(v: DomView, list: Seq<usize>, levels: nat, x: usize)
    requires
        v.forest_ok(),
        below(v, list, levels),
        forall|i: int| 0 <= i < list.len() ==> v.alive(#[trigger] list[i]),
    ensures
        v.spread(list, levels).contains(x) <==> v.alive(x) && exists|i: int|
            0 <= i < list.len() && v.at_or_above(#[trigger] list[i], x),
    decreases levels, list.len(),
{
    height_holds(v);
    let all = v.spread(list, levels);
    if list.len() > 0 {
        let head = list[0];
        let under = v.spread(v.kids(head), (levels - 1) as nat);
        let rest = v.spread(list.skip(1), levels);
        kids_below(v, head);
        assert(below(v, v.kids(head), (levels - 1) as nat));
        assert forall|i: int| 0 <= i < v.kids(head).len() implies v.alive(
            #[trigger] v.kids(head)[i],
        ) by {}
        spread_members(v, v.kids(head), (levels - 1) as nat, x);
        assert(below(v, list.skip(1), levels));
        spread_members(v, list.skip(1), levels, x);
        assert(all =~= seq![head] + under + rest);
        assert(all.contains(x) <==> x == head || under.contains(x) || rest.contains(x)) by {
            if x == head {
                assert(all[0] == x);
            }
            if under.contains(x) {
                let i = choose|i: int| 0 <= i < under.len() && under[i] == x;
                assert(all[i + 1] == x);
            }
            if rest.contains(x) {
                let i = choose|i: int| 0 <= i < rest.len() && rest[i] == x;
                assert(all[i + 1 + under.len()] == x);
            }
            if all.contains(x) {
                let i = choose|i: int| 0 <= i < all.len() && all[i] == x;
                if i > under.len() {
                    assert(rest[i - 1 - under.len()] == x);
                } else if i > 0 {
                    assert(under[i - 1] == x);
                }
            }
        }
        // An instance under `head` other than itself is under one of its children, and back.
        if v.alive(x) && v.at_or_above(head, x) && x != head {
            let c = child_towards(v, head, x);
            let k = choose|k: int| 0 <= k < v.kids(head).len() && v.kids(head)[k] == c;
            assert(v.at_or_above(v.kids(head)[k], x));
        }
        if under.contains(x) {
            let k = choose|k: int|
                0 <= k < v.kids(head).len() && v.at_or_above(#[trigger] v.kids(head)[k], x);
            parent_of_above(v, v.kids(head)[k], x);
            assert(v.at_or_above(list[0], x));
        }
        if rest.contains(x) {
            let k = choose|k: int|
                0 <= k < list.skip(1).len() && v.at_or_above(#[trigger] list.skip(1)[k], x);
            assert(v.at_or_above(list[k + 1], x));
        }
        if v.alive(x) && exists|i: int| 0 <= i < list.len() && v.at_or_above(#[trigger] list[i], x) {
            let k = choose|k: int| 0 <= k < list.len() && v.at_or_above(#[trigger] list[k], x);
            if k > 0 {
                assert(list.skip(1)[k - 1] == list[k]);
            }
        }
    }
}

/// The child of `top` on the way down to `x`.
pub proof fn child_towards(v: DomView, top: usize, x: usize) -> (c: usize)
    requires
        v.forest_ok(),
        v.alive(x),
        v.at_or_above(top, x),
        top != x,
    ensures
        v.kids(top).contains(c),
        v.at_or_above(c, x),
    decreases (v.depth())(x),
{
    depth_holds(v);
    at_or_above_parent(v, top, x);
    let p = v.parent(x)->0;
    if p == top {
        x
    } else {
        let c = child_towards(v, top, p);
        at_or_above_parent(v, p, x);
        above_transitive(v, c, p, x);
        c
    }
}

/// The subtree of a living instance: what is alive and at or under it.
pub proof fn subtree_members(v: DomView, id: usize, x: usize)
    requires
        v.forest_ok(),
        v.alive(id),
    ensures
        v.subtree(id).contains(x) <==> v.alive(x) && v.at_or_above(id, x),
        v.descendants(id).contains(x) <==> v.alive(x) && x != id && v.at_or_above(id, x),
{
    kids_below(v, id);
    let h = (v.height())(id);
    assert forall|i: int| 0 <= i < v.kids(id).len() implies v.alive(#[trigger] v.kids(id)[i]) by {}
    spread_members(v, v.kids(id), h, x);
    let all = v.subtree(id);
    let under = v.descendants(id);
    if under.contains(x) {
        let i = choose|i: int| 0 <= i < under.len() && under[i] == x;
        assert(all[i + 1] == x);
        let k = choose|k: int| 0 <= k < v.kids(id).len() && v.at_or_above(#[trigger] v.kids(id)[k], x);
        let c = v.kids(id)[k];
        assert(v.parent(c) == Some(id));
        parent_of_above(v, c, x);
        if x == id {
            at_or_above_parent(v, id, c);
            at_or_above_parent(v, id, id);
            no_cycle(v, c, id);
            depth_holds(v);
            assert((v.depth())(id) < (v.depth())(c));
        }
    }
    if x == id {
        assert(all[0] == x);
    }
    if all.contains(x) {
        let i = choose|i: int| 0 <= i < all.len() && all[i] == x;
        if i > 0 {
            assert(under[i - 1] == x);
        }
    }
    if v.alive(x) && v.at_or_above(id, x) && x != id {
        let c = child_towards(v, id, x);
        let k = choose|k: int| 0 <= k < v.kids(id).len() && v.kids(id)[k] == c;
        assert(v.at_or_above(v.kids(id)[k], x));
    }
}

/// Do no two of the list lie one above the other, or twice in it?
pub open spec fn apart(v: DomView, list: Seq<usize>) -> bool {
    forall|i: int, j: int|
        0 <= i < list.len() && 0 <= j < list.len() && i != j ==> !v.at_or_above(
            #[trigger] list[i],
            #[trigger] list[j],
        )
}

/// The children of an instance lie apart.
pub proof fn kids_apart(v: DomView, id: usize)
    requires
        v.forest_ok(),
        v.alive(id),
    ensures
        apart(v, v.kids(id)),
{
    depth_holds(v);
    let kids = v.kids(id);
    assert forall|i: int, j: int|
        0 <= i < kids.len() && 0 <= j < kids.len() && i != j implies !v.at_or_above(
        #[trigger] kids[i],
        #[trigger] kids[j],
    ) by {
        if v.at_or_above(kids[i], kids[j]) {
            assert(v.alive(kids[i]) && v.parent(kids[i]) == Some(id));
            assert(v.alive(kids[j]) && v.parent(kids[j]) == Some(id));
            assert(kids[i] != kids[j]);
            at_or_above_parent(v, kids[i], kids[j]);
            assert(v.at_or_above(kids[i], id));
            above_is_shallower(v, kids[i], id);
            assert((v.depth())(id) < (v.depth())(kids[i]));
        }
    }
}

/// A spread of instances that lie apart holds nothing twice.
pub proof fn spread_distinct(v: DomView, list: Seq<usize>, levels: nat)
    requires
        v.forest_ok(),
        below(v, list, levels),
        apart(v, list),
        forall|i: int| 0 <= i < list.len() ==> v.alive(#[trigger] list[i]),
    ensures
        v.spread(list, levels).no_duplicates(),
    decreases levels, list.len(),
{
    if list.len() > 0 {
        let head = list[0];
        let under = v.spread(v.kids(head), (levels - 1) as nat);
        let tail = list.skip(1);
        let rest = v.spread(tail, levels);
        kids_below(v, head);
        assert((v.height())(head) < levels);
        assert(below(v, v.kids(head), (levels - 1) as nat));
        kids_apart(v, head);
        assert forall|i: int| 0 <= i < v.kids(head).len() implies v.alive(
            #[trigger] v.kids(head)[i],
        ) by {}
        spread_distinct(v, v.kids(head), (levels - 1) as nat);
        assert(below(v, tail, levels));
        assert(apart(v, tail)) by {
            assert forall|i: int, j: int|
                0 <= i < tail.len() && 0 <= j < tail.len() && i != j implies !v.at_or_above(
                #[trigger] tail[i],
                #[trigger] tail[j],
            ) by {
                assert(!v.at_or_above(list[i + 1], list[j + 1]));
            }
        }
        assert forall|i: int| 0 <= i < tail.len() implies v.alive(#[trigger] tail[i]) by {
            assert(tail[i] == list[i + 1]);
        }
        spread_distinct(v, tail, levels);
        let all = v.spread(list, levels);
        assert(all =~= seq![head] + under + rest);
        assert forall|x: usize| under.contains(x) implies x != head && v.at_or_above(head, x) by {
            spread_stable(v, v.kids(head), (levels - 1) as nat, (v.height())(head));
            subtree_members(v, head, x);
        }
        assert forall|x: usize| rest.contains(x) implies !v.at_or_above(head, x) by {
            spread_members(v, tail, levels, x);
            let k = choose|k: int| 0 <= k < tail.len() && v.at_or_above(#[trigger] tail[k], x);
            if v.at_or_above(head, x) {
                ancestors_are_a_line(v, head, tail[k], x);
                assert(tail[k] == list[k + 1]);
                assert(!v.at_or_above(list[0], list[k + 1]));
                assert(!v.at_or_above(list[k + 1], list[0]));
            }
        }
        assert forall|i: int, j: int| 0 <= i < all.len() && 0 <= j < all.len() && i != j implies all[i]
            != all[j] by {
            let n = under.len() as int;
            let xi = all[i];
            let xj = all[j];
            if 0 < i <= n {
                assert(under[i - 1] == xi);
                assert(under.contains(xi));
            }
            if 0 < j <= n {
                assert(under[j - 1] == xj);
                assert(under.contains(xj));
            }
            if i > n {
                assert(rest[i - 1 - n] == xi);
                assert(rest.contains(xi));
            }
            if j > n {
                assert(rest[j - 1 - n] == xj);
                assert(rest.contains(xj));
            }
        }
    }
}

/// A subtree holds nothing twice.
pub proof fn subtree_distinct(v: DomView, id: usize)
    requires
        v.forest_ok(),
        v.alive(id),
    ensures
        v.subtree(id).no_duplicates(),
        v.descendants(id).no_duplicates(),
{
    let h = (v.height())(id);
    kids_below(v, id);
    kids_apart(v, id);
    assert forall|i: int| 0 <= i < v.kids(id).len() implies v.alive(#[trigger] v.kids(id)[i]) by {}
    spread_distinct(v, v.kids(id), h);
    let under = v.descendants(id);
    let all = v.subtree(id);
    assert forall|i: int, j: int| 0 <= i < all.len() && 0 <= j < all.len() && i != j implies all[i]
        != all[j] by {
        if i > 0 {
            assert(under[i - 1] == all[i]);
            assert(under.contains(all[i]));
            subtree_members(v, id, all[i]);
        }
        if j > 0 {
            assert(under[j - 1] == all[j]);
            assert(under.contains(all[j]));
            subtree_members(v, id, all[j]);
        }
    }
}

// ---- changes ----

/// A list without one of its members.
pub open spec fn without(s: Seq<usize>, id: usize) -> Seq<usize> {
    s.filter(other_than(id))
}

pub open spec fn other_than(id: usize) -> spec_fn(usize) -> bool {
    |c: usize| c != id
}

pub proof fn without_members(s: Seq<usize>, id: usize, x: usize)
    ensures
        without(s, id).contains(x) <==> s.contains(x) && x != id,
{
    let keep = other_than(id);
    if without(s, id).contains(x) {
        s.lemma_filter_contains_rev(keep, x);
        let i = choose|i: int| 0 <= i < without(s, id).len() && without(s, id)[i] == x;
        s.lemma_filter_pred(keep, i);
    }
    if s.contains(x) && x != id {
        let i = choose|i: int| 0 <= i < s.len() && s[i] == x;
        s.lemma_filter_contains(keep, i);
    }
}

pub proof fn without_distinct(s: Seq<usize>, id: usize)
    requires
        s.no_duplicates(),
    ensures
        without(s, id).no_duplicates(),
    decreases s.len(),
{
    reveal(Seq::filter);
    if s.len() > 0 {
        let rest = s.drop_last();
        without_distinct(rest, id);
        without_members(rest, id, s.last());
        let w = without(rest, id);
        if s.last() != id {
            let all = without(s, id);
            assert(all =~= w.push(s.last()));
            assert forall|i: int, j: int|
                0 <= i < all.len() && 0 <= j < all.len() && i != j implies all[i] != all[j] by {
                if i == w.len() {
                    assert(w.contains(all[j]));
                    assert(rest.contains(s.last()) ==> false) by {
                        if rest.contains(s.last()) {
                            let k = choose|k: int| 0 <= k < rest.len() && rest[k] == s.last();
                            assert(s[k] == s[s.len() - 1]);
                        }
                    }
                } else if j == w.len() {
                    assert(w.contains(all[i]));
                    if rest.contains(s.last()) {
                        let k = choose|k: int| 0 <= k < rest.len() && rest[k] == s.last();
                        assert(s[k] == s[s.len() - 1]);
                    }
                }
            }
        }
    }
}

pub open spec fn strictly_ascending(s: Seq<usize>) -> bool {
    forall|i: int, j: int| 0 <= i < j < s.len() ==> #[trigger] s[i] < #[trigger] s[j]
}

pub proof fn without_ascending(s: Seq<usize>, id: usize)
    requires
        strictly_ascending(s),
    ensures
        strictly_ascending(without(s, id)),
    decreases s.len(),
{
    reveal(Seq::filter);
    if s.len() > 0 {
        let rest = s.drop_last();
        without_ascending(rest, id);
        let w = without(rest, id);
        if s.last() != id {
            let all = without(s, id);
            assert(all =~= w.push(s.last()));
            assert forall|i: int, j: int| 0 <= i < j < all.len() implies #[trigger] all[i]
                < #[trigger] all[j] by {
                if j == w.len() {
                    assert(w.contains(all[i]));
                    without_members(rest, id, all[i]);
                    let k = choose|k: int| 0 <= k < rest.len() && rest[k] == all[i];
                    assert(s[k] < s[s.len() - 1]);
                }
            }
        }
    }
}

impl DomView {
    /// Another node in a slot.
    pub open spec fn put(self, id: usize, n: NodeView) -> DomView {
        DomView { slots: self.slots.update(id as int, Some(n)), ..self }
    }

    /// A new instance, of its own, at the next number.
    pub open spec fn inserted(self, class: Seq<char>, name: Seq<char>) -> DomView {
        DomView {
            slots: self.slots.push(
                Some(
                    NodeView {
                        class,
                        name,
                        parent: None,
                        children: Seq::empty(),
                        props: Map::empty(),
                        attributes: Map::empty(),
                        connections: Seq::empty(),
                        style: Map::empty(),
                        link: None,
                    },
                ),
            ),
            dirty: true,
            ..self
        }
    }

    /// `id` taken out of its parent's children.
    pub open spec fn unparented(self, id: usize) -> DomView {
        match self.parent(id) {
            None => self,
            Some(p) => self.put(
                p,
                NodeView { children: without(self.node(p).children, id), ..self.node(p) },
            ).put(id, NodeView { parent: None, ..self.node(id) }),
        }
    }

    /// A parentless `id` made the last child of `p`.
    pub open spec fn parented(self, id: usize, p: usize) -> DomView {
        self.put(p, NodeView { children: self.node(p).children.push(id), ..self.node(p) }).put(
            id,
            NodeView { parent: Some(p), ..self.node(id) },
        )
    }

    /// `id` and all that is under it gone, with their connections.
    pub open spec fn destroyed(self, id: usize) -> DomView {
        let gone = self.subtree(id);
        let loose = self.unparented(id);
        DomView {
            slots: Seq::new(
                self.slots.len(),
                |i: int|
                    if gone.contains(i as usize) {
                        None
                    } else {
                        loose.slots[i]
                    },
            ),
            handlers: Seq::new(
                self.handlers.len(),
                |c: int|
                    match self.handlers[c] {
                        Some(h) => if gone.contains(h.instance) {
                            None
                        } else {
                            Some(h)
                        },
                        None => None,
                    },
            ),
            dirty: true,
            released: self.released.union(gone.to_set()),
            ..self
        }
    }

    /// Each connection of a living instance is in use and its own, in the order of connecting;
    /// and each handler in use is a connection of a living instance.
    pub open spec fn wired(self) -> bool {
        &&& forall|id: usize, i: int|
            self.alive(id) && 0 <= i < self.node(id).connections.len() ==> {
                let c = #[trigger] self.node(id).connections[i];
                &&& c < self.handlers.len()
                &&& self.handlers[c as int] is Some
                &&& self.handlers[c as int]->0.instance == id
            }
        &&& forall|id: usize| #[trigger]
            self.alive(id) ==> strictly_ascending(self.node(id).connections)
        &&& forall|c: usize|
            c < self.handlers.len() && (#[trigger] self.handlers[c as int]) is Some ==> {
                let id = self.handlers[c as int]->0.instance;
                self.alive(id) && self.node(id).connections.contains(c)
            }
    }

    /// What every operation keeps: the slots form a forest, connections and handlers agree, and
    /// every number that is noted somewhere is one that was handed out.
    pub open spec fn sound(self) -> bool {
        &&& self.forest_ok()
        &&& self.wired()
        &&& self.service is Some ==> self.service->0 < self.slots.len()
        &&& forall|t: Seq<char>, id: usize| #[trigger]
            self.tags.contains((t, id)) ==> id < self.slots.len()
    }
}

/// Have the two the same living instances, with the same parents and children?
pub open spec fn same_shape(v: DomView, w: DomView) -> bool {
    &&& forall|id: usize| #[trigger] v.alive(id) == w.alive(id)
    &&& forall|id: usize| #[trigger] v.parent(id) == w.parent(id)
    &&& forall|id: usize| #[trigger] v.kids(id) == w.kids(id)
}

pub proof fn shape_keeps_forest(v: DomView, w: DomView)
    requires
        v.forest_ok(),
        same_shape(v, w),
    ensures
        w.forest_ok(),
{
    depth_holds(v);
    height_holds(v);
    assert(w.is_depth(v.depth())) by {
        assert forall|id: usize| #[trigger] w.alive(id) && w.parent(id) is Some implies (v.depth())(
            w.parent(id)->0,
        ) < (v.depth())(id) by {
            assert(v.alive(id));
            assert(v.parent(id) == w.parent(id));
        }
    }
    assert(w.is_height(v.height())) by {
        assert forall|id: usize| #[trigger] w.alive(id) && w.parent(id) is Some implies (
        v.height())(id) < (v.height())(w.parent(id)->0) by {
            assert(v.alive(id));
            assert(v.parent(id) == w.parent(id));
        }
    }
    assert forall|id: usize| #[trigger]
        w.alive(id) && w.parent(id) is Some implies w.alive(w.parent(id)->0) && w.kids(
        w.parent(id)->0,
    ).contains(id) by {
        assert(v.alive(id));
        assert(v.parent(id) == w.parent(id));
        assert(v.alive(v.parent(id)->0));
        assert(v.kids(v.parent(id)->0) == w.kids(v.parent(id)->0));
    }
    assert forall|id: usize, i: int| w.alive(id) && 0 <= i < w.kids(id).len() implies w.alive(
        #[trigger] w.kids(id)[i],
    ) && w.parent(w.kids(id)[i]) == Some(id) by {
        assert(v.alive(id));
        assert(v.kids(id) == w.kids(id));
        assert(v.alive(v.kids(id)[i]));
        assert(v.parent(v.kids(id)[i]) == w.parent(v.kids(id)[i]));
    }
    assert forall|id: usize| #[trigger] w.alive(id) implies w.kids(id).no_duplicates() by {
        assert(v.alive(id));
        assert(v.kids(id) == w.kids(id));
    }
}

/// Trees of one shape have the same ancestors.
pub proof fn shape_keeps_ancestors(v: DomView, w: DomView, id: usize)
    requires
        v.forest_ok(),
        same_shape(v, w),
    ensures
        v.ancestors(id) == w.ancestors(id),
    decreases (v.depth())(id),
{
    shape_keeps_forest(v, w);
    depth_holds(v);
    ancestors_unfold(v, id);
    ancestors_unfold(w, id);
    assert(v.parent(id) == w.parent(id));
    if v.parent(id) is Some {
        assert(v.alive(id));
        shape_keeps_ancestors(v, w, v.parent(id)->0);
    }
}

// ---- what the changes keep ----

/// A node that keeps its place in the tree and its connections may change in every other way.
pub proof fn put_keeps(v: DomView, id: usize, n: NodeView)
    requires
        v.sound(),
        v.alive(id),
        n.parent == v.node(id).parent,
        n.children == v.node(id).children,
        n.connections == v.node(id).connections,
    ensures
        v.put(id, n).sound(),
        same_shape(v, v.put(id, n)),
{
    let w = v.put(id, n);
    assert forall|x: usize| #[trigger] v.alive(x) == w.alive(x) by {}
    assert forall|x: usize| #[trigger] v.parent(x) == w.parent(x) by {
        assert(v.alive(x) == w.alive(x));
    }
    assert forall|x: usize| #[trigger] v.kids(x) == w.kids(x) by {
        assert(v.alive(x) == w.alive(x));
    }
    shape_keeps_forest(v, w);
    assert(w.wired()) by {
        assert forall|x: usize, i: int|
            w.alive(x) && 0 <= i < w.node(x).connections.len() implies {
            let c = #[trigger] w.node(x).connections[i];
            &&& c < w.handlers.len()
            &&& w.handlers[c as int] is Some
            &&& w.handlers[c as int]->0.instance == x
        } by {
            assert(v.alive(x));
            assert(v.node(x).connections[i] == w.node(x).connections[i]);
        }
        assert forall|x: usize| #[trigger] w.alive(x) implies strictly_ascending(
            w.node(x).connections,
        ) by {
            assert(v.alive(x));
        }
        assert forall|c: usize|
            c < w.handlers.len() && (#[trigger] w.handlers[c as int]) is Some implies {
            let x = w.handlers[c as int]->0.instance;
            w.alive(x) && w.node(x).connections.contains(c)
        } by {
            assert(v.handlers[c as int] is Some);
            assert(v.alive(v.handlers[c as int]->0.instance));
        }
    }
}

/// A new instance keeps everything, and stands alone.
pub proof fn inserted_keeps(v: DomView, class: Seq<char>, name: Seq<char>)
    requires
        v.sound(),
        v.slots.len() < usize::MAX,
    ensures
        v.inserted(class, name).sound(),
{
    let w = v.inserted(class, name);
    let fresh = v.slots.len() as usize;
    depth_holds(v);
    height_holds(v);
    assert forall|x: usize| x != fresh implies #[trigger] w.alive(x) == v.alive(x) by {}
    assert forall|x: usize| x != fresh && #[trigger] w.alive(x) implies w.parent(x) == v.parent(x)
        && w.kids(x) == v.kids(x) && w.node(x) == v.node(x) by {}
    assert(w.alive(fresh) && w.parent(fresh) is None && w.kids(fresh).len() == 0);
    assert(w.is_depth(v.depth()));
    assert(w.is_height(v.height()));
    assert(w.linked()) by {
        assert forall|id: usize| #[trigger]
            w.alive(id) && w.parent(id) is Some implies w.alive(w.parent(id)->0) && w.kids(
            w.parent(id)->0,
        ).contains(id) by {
            assert(v.alive(id));
            assert(v.alive(v.parent(id)->0));
        }
        assert forall|id: usize, i: int| w.alive(id) && 0 <= i < w.kids(id).len() implies w.alive(
            #[trigger] w.kids(id)[i],
        ) && w.parent(w.kids(id)[i]) == Some(id) by {
            assert(v.alive(id));
            assert(v.alive(v.kids(id)[i]));
        }
        assert forall|id: usize| #[trigger] w.alive(id) implies w.kids(id).no_duplicates() by {
            if id != fresh {
                assert(v.alive(id));
            }
        }
    }
    assert(w.wired()) by {
        assert forall|x: usize, i: int|
            w.alive(x) && 0 <= i < w.node(x).connections.len() implies {
            let c = #[trigger] w.node(x).connections[i];
            &&& c < w.handlers.len()
            &&& w.handlers[c as int] is Some
            &&& w.handlers[c as int]->0.instance == x
        } by {
            assert(x != fresh);
            assert(v.alive(x));
            assert(v.node(x).connections[i] == w.node(x).connections[i]);
        }
        assert forall|x: usize| #[trigger] w.alive(x) implies strictly_ascending(
            w.node(x).connections,
        ) by {
            if x != fresh {
                assert(v.alive(x));
            }
        }
        assert forall|c: usize|
            c < w.handlers.len() && (#[trigger] w.handlers[c as int]) is Some implies {
            let x = w.handlers[c as int]->0.instance;
            w.alive(x) && w.node(x).connections.contains(c)
        } by {
            assert(v.handlers[c as int] is Some);
            assert(v.alive(v.handlers[c as int]->0.instance));
        }
    }
    assert forall|t: Seq<char>, id: usize| #[trigger] w.tags.contains((t, id)) implies id
        < w.slots.len() by {
        assert(v.tags.contains((t, id)));
    }
}

proof fn wired_by_nodes(v: DomView, w: DomView)
    requires
        v.wired(),
        w.handlers == v.handlers,
        forall|x: usize| #[trigger] w.alive(x) == v.alive(x),
        forall|x: usize| #[trigger] v.alive(x) ==> w.node(x).connections == v.node(x).connections,
    ensures
        w.wired(),
{
    assert forall|x: usize, i: int| w.alive(x) && 0 <= i < w.node(x).connections.len() implies {
        let c = #[trigger] w.node(x).connections[i];
        &&& c < w.handlers.len()
        &&& w.handlers[c as int] is Some
        &&& w.handlers[c as int]->0.instance == x
    } by {
        assert(v.alive(x));
        assert(v.node(x).connections[i] == w.node(x).connections[i]);
    }
    assert forall|x: usize| #[trigger] w.alive(x) implies strictly_ascending(
        w.node(x).connections,
    ) by {
        assert(v.alive(x));
    }
    assert forall|c: usize|
        c < w.handlers.len() && (#[trigger] w.handlers[c as int]) is Some implies {
        let x = w.handlers[c as int]->0.instance;
        w.alive(x) && w.node(x).connections.contains(c)
    } by {
        assert(v.handlers[c as int] is Some);
        assert(v.alive(v.handlers[c as int]->0.instance));
    }
}

/// Taking an instance out of its parent keeps everything, and leaves it without a parent.
pub proof fn unparented_keeps(v: DomView, id: usize)
    requires
        v.sound(),
        v.alive(id),
    ensures
        v.unparented(id).sound(),
        v.unparented(id).parent(id) is None,
        forall|x: usize| #[trigger] v.unparented(id).alive(x) == v.alive(x),
        forall|x: usize|
            x != id ==> #[trigger] v.unparented(id).parent(x) == v.parent(x),
        forall|x: usize|
            v.parent(id) != Some(x) ==> #[trigger] v.unparented(id).kids(x) == v.kids(x),
        v.parent(id) matches Some(p) ==> v.unparented(id).kids(p) == without(v.kids(p), id),
{
    if v.parent(id) is Some {
        let p = v.parent(id)->0;
        let w = v.unparented(id);
        depth_holds(v);
        height_holds(v);
        assert((v.depth())(p) < (v.depth())(id));
        assert(p != id);
        assert forall|x: usize| #[trigger] w.alive(x) == v.alive(x) by {}
        assert forall|x: usize| x != id implies #[trigger] w.parent(x) == v.parent(x) by {
            assert(w.alive(x) == v.alive(x));
        }
        assert forall|x: usize| x != p implies #[trigger] w.kids(x) == v.kids(x) by {
            assert(w.alive(x) == v.alive(x));
        }
        assert(w.alive(p) && w.alive(id));
        assert(w.kids(p) == without(v.kids(p), id));
        assert(w.is_depth(v.depth())) by {
            assert forall|x: usize| #[trigger] w.alive(x) && w.parent(x) is Some implies (
            v.depth())(w.parent(x)->0) < (v.depth())(x) by {
                assert(v.alive(x));
                assert(x != id);
            }
        }
        assert(w.is_height(v.height())) by {
            assert forall|x: usize| #[trigger] w.alive(x) && w.parent(x) is Some implies (
            v.height())(x) < (v.height())(w.parent(x)->0) by {
                assert(v.alive(x));
                assert(x != id);
            }
        }
        assert(w.linked()) by {
            assert forall|x: usize| #[trigger]
                w.alive(x) && w.parent(x) is Some implies w.alive(w.parent(x)->0) && w.kids(
                w.parent(x)->0,
            ).contains(x) by {
                assert(x != id);
                assert(v.alive(x));
                let q = v.parent(x)->0;
                assert(v.alive(q));
                without_members(v.kids(p), id, x);
            }
            assert forall|x: usize, i: int|
                w.alive(x) && 0 <= i < w.kids(x).len() implies w.alive(#[trigger] w.kids(x)[i])
                && w.parent(w.kids(x)[i]) == Some(x) by {
                let c = w.kids(x)[i];
                assert(v.alive(x));
                if x == p {
                    assert(without(v.kids(p), id).contains(c));
                    without_members(v.kids(p), id, c);
                    let k = choose|k: int| 0 <= k < v.kids(p).len() && v.kids(p)[k] == c;
                    assert(v.alive(v.kids(p)[k]));
                } else {
                    assert(v.kids(x)[i] == c);
                    assert(v.alive(v.kids(x)[i]));
                    assert(v.parent(c) == Some(x));
                    assert(c != id);
                }
            }
            assert forall|x: usize| #[trigger] w.alive(x) implies w.kids(x).no_duplicates() by {
                assert(v.alive(x));
                if x == p {
                    without_distinct(v.kids(p), id);
                }
            }
        }
        wired_by_nodes(v, w);
    }
}

/// What is at or above an instance that is not under `id` does not change when `id` is taken out
/// of its parent; nor do the ancestors of anything outside the subtree of `id`.
pub proof fn unparented_above(v: DomView, id: usize, x: usize)
    requires
        v.sound(),
        v.alive(id),
        !v.at_or_above(id, x),
    ensures
        v.unparented(id).ancestors(x) == v.ancestors(x),
        !v.unparented(id).at_or_above(id, x),
    decreases (v.depth())(x),
{
    let w = v.unparented(id);
    unparented_keeps(v, id);
    depth_holds(v);
    ancestors_unfold(v, x);
    ancestors_unfold(w, x);
    at_or_above_parent(v, id, x);
    at_or_above_parent(w, id, x);
    assert(w.parent(x) == v.parent(x));
    if v.parent(x) is Some {
        assert(v.alive(x));
        unparented_above(v, id, v.parent(x)->0);
    }
}

/// What is under `id` stays under it when `id` is taken out of its parent.
pub proof fn unparented_below(v: DomView, id: usize, x: usize)
    requires
        v.sound(),
        v.alive(id),
    ensures
        v.unparented(id).at_or_above(id, x) == v.at_or_above(id, x),
    decreases (v.depth())(x),
{
    let w = v.unparented(id);
    unparented_keeps(v, id);
    depth_holds(v);
    at_or_above_parent(v, id, x);
    at_or_above_parent(w, id, x);
    if x != id {
        assert(w.parent(x) == v.parent(x));
        if v.parent(x) is Some {
            assert(v.alive(x));
            unparented_below(v, id, v.parent(x)->0);
        }
    }
}

/// Giving a parentless instance a parent keeps everything, unless the parent is at or under it.
pub proof fn parented_keeps(v: DomView, id: usize, p: usize)
    requires
        v.sound(),
        v.alive(id),
        v.alive(p),
        v.parent(id) is None,
        !v.at_or_above(id, p),
    ensures
        v.parented(id, p).sound(),
        v.parented(id, p).parent(id) == Some(p),
        forall|x: usize| #[trigger] v.parented(id, p).alive(x) == v.alive(x),
        forall|x: usize| x != id ==> #[trigger] v.parented(id, p).parent(x) == v.parent(x),
        forall|x: usize| x != p ==> #[trigger] v.parented(id, p).kids(x) == v.kids(x),
        v.parented(id, p).kids(p) == v.kids(p).push(id),
{
    let w = v.parented(id, p);
    depth_holds(v);
    height_holds(v);
    at_or_above_parent(v, id, id);
    assert(p != id);
    assert forall|x: usize| #[trigger] w.alive(x) == v.alive(x) by {}
    assert forall|x: usize| x != id implies #[trigger] w.parent(x) == v.parent(x) by {
        assert(w.alive(x) == v.alive(x));
    }
    assert forall|x: usize| x != p implies #[trigger] w.kids(x) == v.kids(x) by {
        assert(w.alive(x) == v.alive(x));
    }
    assert(w.alive(p) && w.alive(id));
    assert(w.kids(p) =~= v.kids(p).push(id));
    let d = v.depth();
    let h = v.height();
    let deeper = |x: usize|
        if v.at_or_above(id, x) {
            d(x) + d(p) + 1
        } else {
            d(x)
        };
    let higher = |x: usize|
        if v.at_or_above(x, p) {
            h(x) + h(id) + 1
        } else {
            h(x)
        };
    assert(w.is_depth(deeper)) by {
        assert forall|x: usize| #[trigger] w.alive(x) && w.parent(x) is Some implies deeper(
            w.parent(x)->0,
        ) < deeper(x) by {
            assert(v.alive(x));
            if x != id {
                at_or_above_parent(v, id, x);
                assert(d(v.parent(x)->0) < d(x));
            }
        }
    }
    assert(w.is_height(higher)) by {
        assert forall|x: usize| #[trigger] w.alive(x) && w.parent(x) is Some implies higher(x)
            < higher(w.parent(x)->0) by {
            assert(v.alive(x));
            if x != id {
                assert(h(x) < h(v.parent(x)->0));
                if v.at_or_above(x, p) {
                    parent_of_above(v, x, p);
                }
            } else {
                at_or_above_parent(v, p, p);
            }
        }
    }
    assert(w.linked()) by {
        assert forall|x: usize| #[trigger]
            w.alive(x) && w.parent(x) is Some implies w.alive(w.parent(x)->0) && w.kids(
            w.parent(x)->0,
        ).contains(x) by {
            if x == id {
                assert(w.kids(p)[v.kids(p).len() as int] == id);
            } else {
                assert(v.alive(x));
                let q = v.parent(x)->0;
                assert(v.alive(q));
                if q == p {
                    let k = choose|k: int| 0 <= k < v.kids(p).len() && v.kids(p)[k] == x;
                    assert(w.kids(p)[k] == x);
                }
            }
        }
        assert forall|x: usize, i: int| w.alive(x) && 0 <= i < w.kids(x).len() implies w.alive(
            #[trigger] w.kids(x)[i],
        ) && w.parent(w.kids(x)[i]) == Some(x) by {
            assert(v.alive(x));
            if x == p && i == v.kids(p).len() {
            } else {
                assert(v.kids(x)[i] == w.kids(x)[i]);
                assert(v.alive(v.kids(x)[i]));
                assert(v.parent(v.kids(x)[i]) == Some(x));
            }
        }
        assert forall|x: usize| #[trigger] w.alive(x) implies w.kids(x).no_duplicates() by {
            assert(v.alive(x));
            if x == p {
                assert(!v.kids(p).contains(id)) by {
                    if v.kids(p).contains(id) {
                        let k = choose|k: int| 0 <= k < v.kids(p).len() && v.kids(p)[k] == id;
                        assert(v.parent(v.kids(p)[k]) == Some(p));
                    }
                }
                assert forall|i: int, j: int|
                    0 <= i < w.kids(p).len() && 0 <= j < w.kids(p).len() && i != j implies w.kids(
                    p,
                )[i] != w.kids(p)[j] by {
                    if i < v.kids(p).len() {
                        assert(v.kids(p).contains(v.kids(p)[i]));
                    }
                    if j < v.kids(p).len() {
                        assert(v.kids(p).contains(v.kids(p)[j]));
                    }
                }
            }
        }
    }
    wired_by_nodes(v, w);
}

/// Destroying keeps everything that every operation keeps; what was at or under the instance is
/// gone, and nothing else is.
pub proof fn destroyed_keeps(v: DomView, id: usize)
    requires
        v.sound(),
        v.alive(id),
    ensures
        v.destroyed(id).sound(),
        forall|x: usize| #[trigger]
            v.destroyed(id).alive(x) == (v.alive(x) && !v.at_or_above(id, x)),
{
    let gone = v.subtree(id);
    let u = v.unparented(id);
    let w = v.destroyed(id);
    unparented_keeps(v, id);
    depth_holds(u);
    height_holds(u);
    at_or_above_parent(v, id, id);
    assert forall|x: usize| gone.contains(x) <==> v.alive(x) && v.at_or_above(id, x) by {
        subtree_members(v, id, x);
    }
    assert forall|x: usize| #[trigger] w.alive(x) == (v.alive(x) && !v.at_or_above(id, x)) by {
        assert(u.alive(x) == v.alive(x));
    }
    assert forall|x: usize| #[trigger] w.alive(x) implies u.alive(x) && w.parent(x) == u.parent(x)
        && w.kids(x) == u.kids(x) && w.node(x) == u.node(x) && !gone.contains(x) by {
        assert(u.alive(x) == v.alive(x));
    }
    // No survivor has a parent or a child among the gone.
    assert forall|x: usize| #[trigger] w.alive(x) && w.parent(x) is Some implies w.alive(
        w.parent(x)->0,
    ) by {
        let q = u.parent(x)->0;
        assert(u.alive(x));
        assert(u.alive(q));
        assert(v.alive(q));
        if v.at_or_above(id, q) {
            assert(x != id);
            assert(v.parent(x) == u.parent(x));
            at_or_above_parent(v, id, x);
        }
    }
    assert forall|x: usize, i: int| w.alive(x) && 0 <= i < w.kids(x).len() implies w.alive(
        #[trigger] w.kids(x)[i],
    ) && w.parent(w.kids(x)[i]) == Some(x) by {
        let c = w.kids(x)[i];
        assert(u.alive(x));
        assert(u.kids(x)[i] == c);
        assert(u.alive(u.kids(x)[i]) && u.parent(c) == Some(x));
        assert(c != id);
        assert(v.parent(c) == Some(x));
        at_or_above_parent(v, id, c);
        assert(v.alive(c));
    }
    assert(w.linked()) by {
        assert forall|x: usize| #[trigger]
            w.alive(x) && w.parent(x) is Some implies w.alive(w.parent(x)->0) && w.kids(
            w.parent(x)->0,
        ).contains(x) by {
            assert(u.alive(x));
            assert(w.alive(w.parent(x)->0));
        }
        assert forall|x: usize| #[trigger] w.alive(x) implies w.kids(x).no_duplicates() by {
            assert(u.alive(x));
        }
    }
    assert(w.is_depth(u.depth()));
    assert(w.is_height(u.height()));
    assert(w.wired()) by {
        assert forall|x: usize, i: int|
            w.alive(x) && 0 <= i < w.node(x).connections.len() implies {
            let c = #[trigger] w.node(x).connections[i];
            &&& c < w.handlers.len()
            &&& w.handlers[c as int] is Some
            &&& w.handlers[c as int]->0.instance == x
        } by {
            assert(u.alive(x));
            let c = u.node(x).connections[i];
            assert(u.handlers[c as int] is Some && u.handlers[c as int]->0.instance == x);
            assert(!gone.contains(x));
        }
        assert forall|x: usize| #[trigger] w.alive(x) implies strictly_ascending(
            w.node(x).connections,
        ) by {
            assert(u.alive(x));
        }
        assert forall|c: usize|
            c < w.handlers.len() && (#[trigger] w.handlers[c as int]) is Some implies {
            let x = w.handlers[c as int]->0.instance;
            w.alive(x) && w.node(x).connections.contains(c)
        } by {
            assert(u.handlers[c as int] is Some);
            let x = u.handlers[c as int]->0.instance;
            assert(u.alive(x));
            assert(!gone.contains(x));
            assert(v.alive(x));
            assert(w.alive(x));
        }
    }
    assert forall|t: Seq<char>, x: usize| #[trigger] w.tags.contains((t, x)) implies x
        < w.slots.len() by {
        assert(v.tags.contains((t, x)));
    }
}

proof fn sound_by_parts(v: DomView, w: DomView)
    requires
        v.sound(),
        w.slots == v.slots,
        w.handlers == v.handlers,
        w.service is Some ==> w.service->0 < w.slots.len(),
        forall|t: Seq<char>, id: usize| #[trigger]
            w.tags.contains((t, id)) ==> id < w.slots.len(),
    ensures
        w.sound(),
{
    assert forall|id: usize| #[trigger] v.alive(id) == w.alive(id) by {}
    assert forall|id: usize| #[trigger] v.parent(id) == w.parent(id) by {}
    assert forall|id: usize| #[trigger] v.kids(id) == w.kids(id) by {}
    shape_keeps_forest(v, w);
    wired_by_nodes(v, w);
}

impl DomView {
    pub proof fn dirty_keeps(self, dirty: bool)
        requires
            self.sound(),
        ensures
            (DomView { dirty, ..self }).sound(),
    {
        let w = DomView { dirty, ..self };
        assert forall|t: Seq<char>, id: usize| #[trigger] w.tags.contains((t, id)) implies id
            < w.slots.len() by {
            assert(self.tags.contains((t, id)));
        }
        sound_by_parts(self, w);
    }

    pub proof fn touched_keeps(self)
        requires
            self.sound(),
        ensures
            self.touched().sound(),
    {
        self.dirty_keeps(true);
    }

    pub proof fn released_keeps(self, released: Set<usize>)
        requires
            self.sound(),
        ensures
            (DomView { released, ..self }).sound(),
    {
        let w = DomView { released, ..self };
        assert forall|t: Seq<char>, id: usize| #[trigger] w.tags.contains((t, id)) implies id
            < w.slots.len() by {
            assert(self.tags.contains((t, id)));
        }
        sound_by_parts(self, w);
    }

    pub proof fn tags_keep(self, tags: Set<(Seq<char>, usize)>)
        requires
            self.sound(),
            forall|t: Seq<char>, id: usize| #[trigger]
                tags.contains((t, id)) ==> id < self.slots.len(),
        ensures
            (DomView { tags, ..self }).sound(),
    {
        sound_by_parts(self, DomView { tags, ..self });
    }

    pub proof fn service_keeps(self, id: usize)
        requires
            self.sound(),
            id < self.slots.len(),
        ensures
            (DomView { service: Some(id), ..self }).sound(),
    {
        let w = DomView { service: Some(id), ..self };
        assert forall|t: Seq<char>, x: usize| #[trigger] w.tags.contains((t, x)) implies x
            < w.slots.len() by {
            assert(self.tags.contains((t, x)));
        }
        sound_by_parts(self, w);
    }
}

// ---- connections ----

impl DomView {
    /// A handler connected to an event on an instance.
    pub open spec fn connected(self, id: usize, kind: KindView, function: u64) -> DomView {
        let conn = self.handlers.len() as usize;
        let w = self.put(
            id,
            NodeView { connections: self.node(id).connections.push(conn), ..self.node(id) },
        );
        DomView {
            handlers: self.handlers.push(Some(HandlerView { instance: id, kind, function })),
            ..w
        }
    }

    /// A connection given up, if it is in use.
    pub open spec fn disconnected(self, conn: usize) -> DomView {
        if conn < self.handlers.len() && self.handlers[conn as int] is Some {
            let id = self.handlers[conn as int]->0.instance;
            let w = self.put(
                id,
                NodeView {
                    connections: without(self.node(id).connections, conn),
                    ..self.node(id)
                },
            );
            DomView { handlers: self.handlers.update(conn as int, None), ..w }
        } else {
            self
        }
    }
}

proof fn rewired_shape(v: DomView, w: DomView, id: usize, connections: Seq<usize>)
    requires
        v.alive(id),
        w.slots == v.put(id, NodeView { connections, ..v.node(id) }).slots,
    ensures
        same_shape(v, w),
        forall|x: usize| #[trigger] w.alive(x) && x != id ==> w.node(x) == v.node(x),
        w.node(id).connections == connections,
{
    assert forall|x: usize| #[trigger] v.alive(x) == w.alive(x) by {}
    assert forall|x: usize| #[trigger] v.parent(x) == w.parent(x) by {
        assert(v.alive(x) == w.alive(x));
    }
    assert forall|x: usize| #[trigger] v.kids(x) == w.kids(x) by {
        assert(v.alive(x) == w.alive(x));
    }
}

/// Connecting keeps everything.
pub proof fn connected_keeps(v: DomView, id: usize, kind: KindView, function: u64)
    requires
        v.sound(),
        v.alive(id),
        v.handlers.len() < usize::MAX,
    ensures
        v.connected(id, kind, function).sound(),
{
    let w = v.connected(id, kind, function);
    let conn = v.handlers.len() as usize;
    let before = v.node(id).connections;
    rewired_shape(v, w, id, before.push(conn));
    shape_keeps_forest(v, w);
    assert(w.wired()) by {
        assert forall|x: usize, i: int| w.alive(x) && 0 <= i < w.node(x).connections.len() implies {
            let c = #[trigger] w.node(x).connections[i];
            &&& c < w.handlers.len()
            &&& w.handlers[c as int] is Some
            &&& w.handlers[c as int]->0.instance == x
        } by {
            assert(v.alive(x) == w.alive(x));
            if x == id && i == before.len() {
            } else {
                assert(v.node(x).connections[i] == w.node(x).connections[i]);
            }
        }
        assert forall|x: usize| #[trigger] w.alive(x) implies strictly_ascending(
            w.node(x).connections,
        ) by {
            assert(v.alive(x) == w.alive(x));
            if x == id {
                let all = before.push(conn);
                assert forall|i: int, j: int| 0 <= i < j < all.len() implies #[trigger] all[i]
                    < #[trigger] all[j] by {
                    assert(all[i] == v.node(id).connections[i]);
                    if j < before.len() {
                        assert(all[j] == v.node(id).connections[j]);
                    }
                }
            }
        }
        assert forall|c: usize|
            c < w.handlers.len() && (#[trigger] w.handlers[c as int]) is Some implies {
            let x = w.handlers[c as int]->0.instance;
            w.alive(x) && w.node(x).connections.contains(c)
        } by {
            if c == conn {
                assert(w.node(id).connections[before.len() as int] == c);
            } else {
                assert(v.handlers[c as int] is Some);
                let x = v.handlers[c as int]->0.instance;
                assert(v.alive(x));
                if x == id {
                    let k = choose|k: int| 0 <= k < before.len() && before[k] == c;
                    assert(w.node(id).connections[k] == c);
                }
            }
        }
    }
    assert forall|t: Seq<char>, x: usize| #[trigger] w.tags.contains((t, x)) implies x
        < w.slots.len() by {
        assert(v.tags.contains((t, x)));
    }
}

/// Disconnecting keeps everything.
pub proof fn disconnected_keeps(v: DomView, conn: usize)
    requires
        v.sound(),
    ensures
        v.disconnected(conn).sound(),
{
    if conn < v.handlers.len() && v.handlers[conn as int] is Some {
        let w = v.disconnected(conn);
        let id = v.handlers[conn as int]->0.instance;
        assert(v.alive(id));
        let before = v.node(id).connections;
        rewired_shape(v, w, id, without(before, conn));
        shape_keeps_forest(v, w);
        assert(w.wired()) by {
            assert forall|x: usize, i: int|
                w.alive(x) && 0 <= i < w.node(x).connections.len() implies {
                let c = #[trigger] w.node(x).connections[i];
                &&& c < w.handlers.len()
                &&& w.handlers[c as int] is Some
                &&& w.handlers[c as int]->0.instance == x
            } by {
                assert(v.alive(x) == w.alive(x));
                let c = w.node(x).connections[i];
                if x == id {
                    assert(without(before, conn).contains(c));
                    without_members(before, conn, c);
                    let k = choose|k: int| 0 <= k < before.len() && before[k] == c;
                    assert(v.node(id).connections[k] == c);
                } else {
                    assert(v.node(x).connections[i] == c);
                }
            }
            assert forall|x: usize| #[trigger] w.alive(x) implies strictly_ascending(
                w.node(x).connections,
            ) by {
                assert(v.alive(x) == w.alive(x));
                if x == id {
                    without_ascending(before, conn);
                }
            }
            assert forall|c: usize|
                c < w.handlers.len() && (#[trigger] w.handlers[c as int]) is Some implies {
                let x = w.handlers[c as int]->0.instance;
                w.alive(x) && w.node(x).connections.contains(c)
            } by {
                assert(v.handlers[c as int] is Some);
                let x = v.handlers[c as int]->0.instance;
                assert(v.alive(x));
                if x == id {
                    without_members(before, conn, c);
                }
            }
        }
        assert forall|t: Seq<char>, x: usize| #[trigger] w.tags.contains((t, x)) implies x
            < w.slots.len() by {
            assert(v.tags.contains((t, x)));
        }
    }
}

// ---- how deep a tree can be ----

/// Different numbers below a bound are at most as many as the bound.
proof fn distinct_below(s: Seq<usize>, bound: nat)
    requires
        s.no_duplicates(),
        bound <= usize::MAX,
        forall|i: int| 0 <= i < s.len() ==> (#[trigger] s[i]) < bound,
    ensures
        s.len() <= bound,
    decreases bound,
{
    if s.len() > 0 {
        assert(s[0] < bound);
        let top = (bound - 1) as usize;
        let rest = without(s, top);
        without_distinct(s, top);
        assert forall|i: int| 0 <= i < rest.len() implies (#[trigger] rest[i]) < bound - 1 by {
            assert(rest.contains(rest[i]));
            without_members(s, top, rest[i]);
            let k = choose|k: int| 0 <= k < s.len() && s[k] == rest[i];
            assert(s[k] < bound);
        }
        distinct_below(rest, (bound - 1) as nat);
        one_less(s, top);
    }
}

/// Taking out a member of a list without repeats makes it shorter by at most one.
proof fn one_less(s: Seq<usize>, x: usize)
    requires
        s.no_duplicates(),
    ensures
        s.len() <= without(s, x).len() + 1,
        !s.contains(x) ==> without(s, x).len() == s.len(),
    decreases s.len(),
{
    reveal(Seq::filter);
    if s.len() > 0 {
        let rest = s.drop_last();
        one_less(rest, x);
        if s.last() == x && rest.contains(x) {
            let k = choose|k: int| 0 <= k < rest.len() && rest[k] == x;
            assert(s[k] == s[s.len() - 1]);
        }
        if !s.contains(x) {
            assert(s[s.len() - 1] != x);
            if rest.contains(x) {
                let k = choose|k: int| 0 <= k < rest.len() && rest[k] == x;
                assert(s[k] == x);
            }
        }
    }
}

/// An instance and its ancestors are different, and alive.
proof fn line_is_distinct(v: DomView, id: usize)
    requires
        v.forest_ok(),
        v.alive(id),
    ensures
        (seq![id] + v.ancestors(id)).no_duplicates(),
        forall|i: int|
            0 <= i < v.ancestors(id).len() ==> v.alive(#[trigger] v.ancestors(id)[i]) && (
            v.depth())(v.ancestors(id)[i]) < (v.depth())(id),
    decreases (v.depth())(id),
{
    depth_holds(v);
    ancestors_unfold(v, id);
    if v.parent(id) is Some {
        let p = v.parent(id)->0;
        line_is_distinct(v, p);
        let up = v.ancestors(id);
        assert(up =~= seq![p] + v.ancestors(p));
        assert forall|i: int| 0 <= i < up.len() implies v.alive(#[trigger] up[i]) && (v.depth())(
            up[i],
        ) < (v.depth())(id) by {
            if i > 0 {
                assert(up[i] == v.ancestors(p)[i - 1]);
            }
        }
        let line = seq![id] + up;
        let above = seq![p] + v.ancestors(p);
        assert forall|i: int, j: int|
            0 <= i < line.len() && 0 <= j < line.len() && i != j implies line[i] != line[j] by {
            if i > 0 {
                assert(line[i] == up[i - 1]);
                assert(line[i] == above[i - 1]);
            }
            if j > 0 {
                assert(line[j] == up[j - 1]);
                assert(line[j] == above[j - 1]);
            }
        }
    }
}

/// A living instance has fewer ancestors than there are slots.
pub proof fn ancestors_bounded(v: DomView, id: usize)
    requires
        v.forest_ok(),
        v.alive(id),
        v.slots.len() <= usize::MAX,
    ensures
        v.ancestors(id).len() < v.slots.len(),
{
    line_is_distinct(v, id);
    let line = seq![id] + v.ancestors(id);
    assert forall|i: int| 0 <= i < line.len() implies (#[trigger] line[i]) < v.slots.len() by {
        if i > 0 {
            assert(line[i] == v.ancestors(id)[i - 1]);
            assert(v.alive(v.ancestors(id)[i - 1]));
        }
    }
    distinct_below(line, v.slots.len());
}

} // verus!
