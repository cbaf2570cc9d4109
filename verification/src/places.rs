//! What can be said of where things lie, whatever the solver does to get them there.

use crate::layout::{
    aligned, bool_at, canvas, canvas_box, content, depends, each_in, entry_of, flow_of, grown,
    grows_by, inner_clip, item_at, laid_out_kids, listed_in, modifier, moved_back, number_at,
    ordered_kids, pair_at, placed_in, property_at, scrolls, slot, solved_rect, span2_at,
    spread_in, visited, zero, Box2, Clip, CrossAlign, Flow, Pair, Ruler, SolvedItem, Stage,
};
use crate::scalar::{Fixed, Scalar};
use crate::value::ValueView;
use vstd::prelude::*;

verus! {

// ---- lists ----

/// Where a box starts along one axis, in steps.
pub open spec fn starts_at(rect: Box2<Fixed>, across: bool) -> int {
    if across {
        rect.x.steps as int
    } else {
        rect.y.steps as int
    }
}

/// How long a box is along one axis, in steps.
pub open spec fn long(rect: Box2<Fixed>, across: bool) -> int {
    if across {
        rect.w.steps as int
    } else {
        rect.h.steps as int
    }
}

/// An element that is as far under the root as `depth` says.
pub open spec fn level(items: Seq<SolvedItem<Fixed>>, i: int, depth: nat) -> bool {
    0 <= i < items.len() && items[i].depth == depth
}

/// Is there none as deep as `depth` from one place on up to another?
#[verifier::opaque]
pub open spec fn none_between(
    items: Seq<SolvedItem<Fixed>>,
    from: int,
    to: int,
    depth: nat,
) -> bool {
    forall|k: int| from <= k < to ==> !#[trigger] level(items, k, depth)
}

/// A box whose numbers are far from the ends of their range.
pub open spec fn roomy(rect: Box2<Fixed>) -> bool {
    &&& -0x100_0000_0000 <= rect.x.steps <= 0x100_0000_0000
    &&& -0x100_0000_0000 <= rect.y.steps <= 0x100_0000_0000
    &&& 0 <= rect.w.steps <= 0x100_0000_0000
    &&& 0 <= rect.h.steps <= 0x100_0000_0000
}

/// Are all elements of one depth of a length that is far from the ends of its range?
spec fn short(items: Seq<SolvedItem<Fixed>>, depth: nat) -> bool {
    forall|k: int|
        #[trigger] level(items, k, depth) ==> 0 <= items[k].rect.w.steps <= 0x100_0000_0000 && 0
            <= items[k].rect.h.steps <= 0x100_0000_0000
}

/// Are all elements deeper than `depth`?
spec fn all_deeper<S>(items: Seq<SolvedItem<S>>, depth: nat) -> bool {
    forall|i: int| 0 <= i < items.len() ==> (#[trigger] items[i]).depth > depth
}

/// Everything in an element is deeper than it.
proof fn deeper<S: Scalar, R: Ruler<S>>(
    st: Stage<R>,
    id: usize,
    parent: Box2<S>,
    clip: Clip<S>,
    depth: nat,
    laid_out: bool,
    offered: Box2<S>,
)
    requires
        st.dom.slots.len() <= usize::MAX,
    ensures
        ({
            let all = visited(st, id, parent, clip, depth, laid_out, offered);
            &&& all.len() > 0 ==> all[0].depth == depth && all[0].id == id
            &&& all.len() > 0 ==> all_deeper(all.skip(1), depth)
        }),
    decreases (st.dom.slots.len() + 1 - depth) as nat, 2nat, 0nat,
{
    if depth <= st.dom.slots.len() && bool_at(st, id, "Visible"@) != Some(false) {
        let rect = solved_rect(st, id, parent, laid_out);
        let inner = inner_clip(st, id, rect, clip);
        let own = content(st, id, rect);
        let has = canvas::<S, R>(st, id, own);
        placed_deeper(st, id, own, inner, depth);
        placed_deeper(st, id, canvas_box(own, has), inner, depth);
        let spread = spread_in(st, id, own, inner, depth);
        placed_deeper(st, id, canvas_box(own, spread.canvas), inner, depth);
        let all = visited(st, id, parent, clip, depth, laid_out, offered);
        let last = all[0].rect;
        placed_deeper(st, id, content(st, id, last), inner, depth);
        assert(all_deeper(spread.items, depth));
        let more = all.skip(1);
        assert forall|i: int| 0 <= i < more.len() implies (#[trigger] more[i]).depth > depth by {
            let again = placed_in(st, id, content(st, id, last), inner, depth);
            assert(more[i] == all[i + 1]);
            assert(more[i].depth == spread.items[i].depth || more[i].depth == again[i].depth);
        }
    }
}

proof fn placed_deeper<S: Scalar, R: Ruler<S>>(
    st: Stage<R>,
    id: usize,
    room: Box2<S>,
    inner: Clip<S>,
    depth: nat,
)
    requires
        st.dom.slots.len() <= usize::MAX,
    ensures
        all_deeper(placed_in(st, id, room, inner, depth), depth),
    decreases (st.dom.slots.len() + 1 - depth) as nat, 1nat, 0nat,
{
    match modifier(st, id, "UIListLayout"@) {
        Some(layout) => listed_deeper(
            st,
            ordered_kids::<S, R>(st, id),
            flow_of::<S, R>(st, layout),
            room,
            inner,
            depth,
            zero(),
        ),
        None => each_deeper(st, laid_out_kids(st, id), room, inner, depth),
    }
}

proof fn each_deeper<S: Scalar, R: Ruler<S>>(
    st: Stage<R>,
    kids: Seq<usize>,
    room: Box2<S>,
    inner: Clip<S>,
    depth: nat,
)
    requires
        st.dom.slots.len() <= usize::MAX,
    ensures
        all_deeper(each_in(st, kids, room, inner, depth), depth),
    decreases (st.dom.slots.len() + 1 - depth) as nat, 0nat, kids.len(),
{
    if kids.len() > 0 && depth <= st.dom.slots.len() {
        deeper(st, kids[0], room, inner, depth + 1, false, room);
        let items = visited(st, kids[0], room, inner, depth + 1, false, room);
        assert forall|i: int| 0 <= i < items.len() implies (#[trigger] items[i]).depth > depth by {
            if i > 0 {
                assert(items[i] == items.skip(1)[i - 1]);
            }
        }
        each_deeper(st, kids.skip(1), room, inner, depth);
    }
}

proof fn listed_deeper<S: Scalar, R: Ruler<S>>(
    st: Stage<R>,
    kids: Seq<usize>,
    flow: Flow<S>,
    room: Box2<S>,
    inner: Clip<S>,
    depth: nat,
    cursor: S,
)
    requires
        st.dom.slots.len() <= usize::MAX,
    ensures
        all_deeper(listed_in(st, kids, flow, room, inner, depth, cursor), depth),
    decreases (st.dom.slots.len() + 1 - depth) as nat, 0nat, kids.len(),
{
    if kids.len() > 0 && depth <= st.dom.slots.len() {
        let here = slot(room, flow.across, cursor);
        deeper(st, kids[0], here, inner, depth + 1, true, room);
        let items = visited(st, kids[0], here, inner, depth + 1, true, room);
        if items.len() == 0 {
            listed_deeper(st, kids.skip(1), flow, room, inner, depth, cursor);
        } else {
            let there = aligned(items, flow, room);
            assert forall|i: int| 0 <= i < there.len() implies (#[trigger] there[i]).depth
                > depth by {
                assert(there[i].depth == items[i].depth);
                if i > 0 {
                    assert(items[i] == items.skip(1)[i - 1]);
                }
            }
            let next = cursor.sum(
                crate::layout::length(there[0].rect, flow.across).sum(flow.gap),
            );
            listed_deeper(st, kids.skip(1), flow, room, inner, depth, next);
        }
    }
}

/// An element of a list that has no anchor starts where its slot does.
proof fn starts_in_its_slot<R: Ruler<Fixed>>(
    st: Stage<R>,
    id: usize,
    parent: Box2<Fixed>,
    clip: Clip<Fixed>,
    depth: nat,
    offered: Box2<Fixed>,
)
    requires
        pair_at::<Fixed, R>(st, id, "AnchorPoint"@).x.steps == 0,
        pair_at::<Fixed, R>(st, id, "AnchorPoint"@).y.steps == 0,
        visited(st, id, parent, clip, depth, true, offered).len() > 0,
    ensures
        visited(st, id, parent, clip, depth, true, offered)[0].rect.x == parent.x,
        visited(st, id, parent, clip, depth, true, offered)[0].rect.y == parent.y,
{
    let rect = solved_rect(st, id, parent, true);
    let anchor = pair_at::<Fixed, R>(st, id, "AnchorPoint"@);
    assert(forall|a: Fixed| (#[trigger] a.product(anchor.x)).steps == 0);
    assert(forall|a: Fixed| (#[trigger] a.product(anchor.y)).steps == 0);
    assert(forall|a: Fixed| (#[trigger] anchor.x.product(a)).steps == 0);
    assert(forall|a: Fixed| (#[trigger] anchor.y.product(a)).steps == 0);
    assert(forall|a: Fixed| (#[trigger] zero::<Fixed>().product(a)).steps == 0);
    assert(rect.x == parent.x);
    assert(rect.y == parent.y);
}

/// What holds of children one after the other from a place on.
spec fn in_line(
    items: Seq<SolvedItem<Fixed>>,
    flow: Flow<Fixed>,
    room: Box2<Fixed>,
    depth: nat,
    from: int,
) -> bool {
    &&& forall|j: int| #[trigger]
        level(items, j, depth) && none_between(items, 0, j, depth) ==> starts_at(
            items[j].rect,
            flow.across,
        ) == from
    &&& forall|i: int, j: int| #[trigger]
        level(items, i, depth) && #[trigger] level(items, j, depth) && i < j && none_between(
            items,
            i + 1,
            j,
            depth,
        ) ==> starts_at(items[j].rect, flow.across) == starts_at(items[i].rect, flow.across) + long(
            items[i].rect,
            flow.across,
        ) + flow.gap.steps
    &&& forall|j: int| #[trigger] level(items, j, depth) ==> well_across(items[j], flow, room)
}

/// Does an element of a list stand on the other axis where the list wants it?
spec fn well_across(item: SolvedItem<Fixed>, flow: Flow<Fixed>, room: Box2<Fixed>) -> bool {
    let at = starts_at(item.rect, !flow.across);
    let has = long(item.rect, !flow.across);
    let from = starts_at(room, !flow.across);
    let whole = long(room, !flow.across);
    match flow.align {
        CrossAlign::Start => at == from,
        CrossAlign::Center => at == from + (whole - has) / 2,
        CrossAlign::End => at + has == from + whole,
    }
}

/// A child of a list starts in its slot on the axis that the list fills, and stands where the list
/// wants it on the other.
proof fn head_in_line<R: Ruler<Fixed>>(
    st: Stage<R>,
    id: usize,
    flow: Flow<Fixed>,
    room: Box2<Fixed>,
    inner: Clip<Fixed>,
    depth: nat,
    cursor: Fixed,
)
    requires
        roomy(room),
        -0x2000_0000_0000_0000 <= cursor.steps <= 0x2000_0000_0000_0000,
        pair_at::<Fixed, R>(st, id, "AnchorPoint"@).x.steps == 0,
        pair_at::<Fixed, R>(st, id, "AnchorPoint"@).y.steps == 0,
        ({
            let items = visited(
                st,
                id,
                slot(room, flow.across, cursor),
                inner,
                depth,
                true,
                room,
            );
            &&& items.len() > 0
            &&& 0 <= items[0].rect.w.steps <= 0x100_0000_0000
            &&& 0 <= items[0].rect.h.steps <= 0x100_0000_0000
        }),
    ensures
        ({
            let items = visited(
                st,
                id,
                slot(room, flow.across, cursor),
                inner,
                depth,
                true,
                room,
            );
            let there = aligned(items, flow, room);
            &&& starts_at(there[0].rect, flow.across) == starts_at(room, flow.across)
                + cursor.steps
            &&& well_across(there[0], flow, room)
        }),
{
    let here = slot(room, flow.across, cursor);
    let items = visited(st, id, here, inner, depth, true, room);
    starts_in_its_slot(st, id, here, inner, depth, room);
    assert(items[0].rect.x == here.x && items[0].rect.y == here.y);
    settled(items, flow, room);
}

/// Moving a child along the other axis puts it where the list wants it.
proof fn settled(items: Seq<SolvedItem<Fixed>>, flow: Flow<Fixed>, room: Box2<Fixed>)
    requires
        roomy(room),
        items.len() > 0,
        starts_at(items[0].rect, !flow.across) == starts_at(room, !flow.across),
        0 <= items[0].rect.w.steps <= 0x100_0000_0000,
        0 <= items[0].rect.h.steps <= 0x100_0000_0000,
    ensures
        starts_at(aligned(items, flow, room)[0].rect, flow.across) == starts_at(
            items[0].rect,
            flow.across,
        ),
        well_across(aligned(items, flow, room)[0], flow, room),
{
}

/// Moving children along the other axis keeps their number, their depths and their extents.
proof fn settling_keeps(items: Seq<SolvedItem<Fixed>>, flow: Flow<Fixed>, room: Box2<Fixed>)
    ensures
        aligned(items, flow, room).len() == items.len(),
        forall|k: int|
            0 <= k < items.len() ==> (#[trigger] aligned(items, flow, room)[k]).depth
                == items[k].depth && aligned(items, flow, room)[k].rect.w == items[k].rect.w
                && aligned(items, flow, room)[k].rect.h == items[k].rect.h,
{
}

/// One child before others that stand in line stands in line with them.
proof fn joined_in_line(
    there: Seq<SolvedItem<Fixed>>,
    more: Seq<SolvedItem<Fixed>>,
    flow: Flow<Fixed>,
    room: Box2<Fixed>,
    depth: nat,
    from: int,
)
    requires
        there.len() > 0,
        there[0].depth == depth,
        forall|k: int| 0 < k < there.len() ==> (#[trigger] there[k]).depth != depth,
        starts_at(there[0].rect, flow.across) == from,
        well_across(there[0], flow, room),
        in_line(
            more,
            flow,
            room,
            depth,
            from + long(there[0].rect, flow.across) + flow.gap.steps,
        ),
    ensures
        in_line(there + more, flow, room, depth, from),
{
    let out = there + more;
    let n = there.len() as int;
    assert(out[0] == there[0]);
    assert(level(out, 0, depth));
    assert forall|k: int| 0 < k < n implies !#[trigger] level(out, k, depth) by {
        assert(out[k] == there[k]);
    }
    assert forall|i: int, j: int| #[trigger]
        level(out, i, depth) && #[trigger] level(out, j, depth) && i < j && none_between(
            out,
            i + 1,
            j,
            depth,
        ) implies starts_at(out[j].rect, flow.across) == starts_at(out[i].rect, flow.across) + long(
        out[i].rect,
        flow.across,
    ) + flow.gap.steps by {
        assert(j >= n);
        behind(there, more, depth, j);
        if i == 0 {
            none_behind(there, more, depth, 0, j - n, 1);
        } else {
            none_behind(there, more, depth, i - n + 1, j - n, i + 1);
            behind(there, more, depth, i);
        }
    }
    assert forall|j: int| #[trigger]
        level(out, j, depth) && none_between(out, 0, j, depth) implies starts_at(
        out[j].rect,
        flow.across,
    ) == from by {
        if j > 0 {
            reveal(none_between);
            assert(!level(out, 0, depth));
        }
    }
    assert forall|j: int| #[trigger] level(out, j, depth) implies well_across(
        out[j],
        flow,
        room,
    ) by {
        if j > 0 {
            behind(there, more, depth, j);
        }
    }
}

proof fn none_behind(
    there: Seq<SolvedItem<Fixed>>,
    more: Seq<SolvedItem<Fixed>>,
    depth: nat,
    from: int,
    to: int,
    start: int,
)
    requires
        0 <= from,
        start <= from + there.len(),
        none_between(there + more, start, to + there.len(), depth),
    ensures
        none_between(more, from, to, depth),
{
    reveal(none_between);
    assert forall|k: int| from <= k < to implies !#[trigger] level(more, k, depth) by {
        behind(there, more, depth, k + there.len());
        assert(!level(there + more, k + there.len(), depth));
    }
}

proof fn behind(
    there: Seq<SolvedItem<Fixed>>,
    more: Seq<SolvedItem<Fixed>>,
    depth: nat,
    k: int,
)
    requires
        k >= there.len(),
    ensures
        level(there + more, k, depth) == level(more, k - there.len(), depth),
        level(there + more, k, depth) ==> (there + more)[k] == more[k - there.len()],
{
}

proof fn listed_in_line<R: Ruler<Fixed>>(
    st: Stage<R>,
    kids: Seq<usize>,
    flow: Flow<Fixed>,
    room: Box2<Fixed>,
    inner: Clip<Fixed>,
    depth: nat,
    cursor: Fixed,
)
    requires
        st.dom.slots.len() <= usize::MAX,
        roomy(room),
        -0x100_0000_0000 <= flow.gap.steps <= 0x100_0000_0000,
        kids.len() * 0x400_0000_0000 <= 0x2000_0000_0000_0000 - (if cursor.steps < 0 {
            -cursor.steps
        } else {
            cursor.steps as int
        }),
        forall|k: int|
            0 <= k < kids.len() ==> pair_at::<Fixed, R>(
                st,
                #[trigger] kids[k],
                "AnchorPoint"@,
            ).x.steps == 0 && pair_at::<Fixed, R>(st, kids[k], "AnchorPoint"@).y.steps == 0,
        short(listed_in(st, kids, flow, room, inner, depth, cursor), depth + 1),
    ensures
        in_line(
            listed_in(st, kids, flow, room, inner, depth, cursor),
            flow,
            room,
            depth + 1,
            starts_at(room, flow.across) + cursor.steps,
        ),
    decreases kids.len(),
{
    let out = listed_in(st, kids, flow, room, inner, depth, cursor);
    if kids.len() > 0 && depth <= st.dom.slots.len() {
        let here = slot(room, flow.across, cursor);
        let items = visited(st, kids[0], here, inner, depth + 1, true, room);
        deeper(st, kids[0], here, inner, depth + 1, true, room);
        let rest = kids.skip(1);
        assert forall|k: int| 0 <= k < rest.len() implies pair_at::<Fixed, R>(
            st,
            #[trigger] rest[k],
            "AnchorPoint"@,
        ).x.steps == 0 && pair_at::<Fixed, R>(st, rest[k], "AnchorPoint"@).y.steps == 0 by {
            assert(rest[k] == kids[k + 1]);
        }
        if items.len() == 0 {
            listed_in_line(st, rest, flow, room, inner, depth, cursor);
        } else {
            let there = aligned(items, flow, room);
            settling_keeps(items, flow, room);
            let size = crate::layout::length(there[0].rect, flow.across);
            let next = cursor.sum(size.sum(flow.gap));
            let more = listed_in(st, rest, flow, room, inner, depth, next);
            let n = there.len() as int;
            assert(out == there + more);
            assert(out[0] == there[0]);
            assert(level(out, 0, depth + 1));
            assert(0 <= there[0].rect.w.steps <= 0x100_0000_0000);
            assert(0 <= there[0].rect.h.steps <= 0x100_0000_0000);
            assert(size.steps == long(there[0].rect, flow.across));
            assert(next.steps == cursor.steps + size.steps + flow.gap.steps);
            assert(short(more, depth + 1)) by {
                assert forall|k: int| #[trigger] level(more, k, depth + 1) implies 0
                    <= more[k].rect.w.steps <= 0x100_0000_0000 && 0 <= more[k].rect.h.steps
                    <= 0x100_0000_0000 by {
                    assert(out[k + n] == more[k]);
                    assert(level(out, k + n, depth + 1));
                }
            }
            listed_in_line(st, rest, flow, room, inner, depth, next);
            head_in_line(st, kids[0], flow, room, inner, depth + 1, cursor);
            assert forall|k: int| 0 < k < there.len() implies (#[trigger] there[k]).depth != depth
                + 1 by {
                assert(there[k].depth == items[k].depth);
                assert(items[k] == items.skip(1)[k - 1]);
            }
            joined_in_line(
                there,
                more,
                flow,
                room,
                depth + 1,
                starts_at(room, flow.across) + cursor.steps,
            );
        }
    }
}

/// The children of a list stand one after the other in its fill direction, across where the list
/// says horizontal and down otherwise: the first starts where the room does, and each of the
/// others starts behind the end of the one before it by the padding of the list. On the other axis
/// each is at the start of the room, at its end or in its middle, as the list says.
pub proof fn a_list_goes_one_after_the_other<R: Ruler<Fixed>>(
    st: Stage<R>,
    id: usize,
    layout: usize,
    room: Box2<Fixed>,
    inner: Clip<Fixed>,
    depth: nat,
    across: bool,
    gap: i32,
    i: int,
    j: int,
)
    requires
        st.dom.slots.len() <= usize::MAX,
        modifier(st, id, "UIListLayout"@) == Some(layout),
        across == (property_at(st, layout, "FillDirection"@) matches Some(ValueView::Enum(raw))
            && st.catalog.category("FillDirection"@) is Some && st.catalog.enum_map(
            "FillDirection"@,
        ).contains_pair("Horizontal"@, raw)),
        property_at(st, layout, "Padding"@) matches Some(ValueView::UDim(v)) && v.offset == gap,
        -0x100_0000 <= gap <= 0x100_0000,
        roomy(room),
        ordered_kids::<Fixed, R>(st, id).len() <= 0x1_0000,
        forall|c: usize| #[trigger]
            ordered_kids::<Fixed, R>(st, id).contains(c) ==> pair_at::<Fixed, R>(
                st,
                c,
                "AnchorPoint"@,
            ).x.steps == 0 && pair_at::<Fixed, R>(st, c, "AnchorPoint"@).y.steps == 0,
        forall|k: int| #[trigger]
            level(placed_in(st, id, room, inner, depth), k, depth + 1) ==> roomy(
                (Box2 {
                    x: Fixed { steps: 0 },
                    y: Fixed { steps: 0 },
                    ..placed_in(st, id, room, inner, depth)[k].rect
                }),
            ),
        level(placed_in(st, id, room, inner, depth), i, depth + 1),
        level(placed_in(st, id, room, inner, depth), j, depth + 1),
        i < j,
        none_between(placed_in(st, id, room, inner, depth), i + 1, j, depth + 1),
    ensures
        ({
            let before = placed_in(st, id, room, inner, depth)[i].rect;
            let after = placed_in(st, id, room, inner, depth)[j].rect;
            &&& across ==> after.x.steps == before.x.steps + before.w.steps + gap * 65536
            &&& !across ==> after.y.steps == before.y.steps + before.h.steps + gap * 65536
            &&& none_between(placed_in(st, id, room, inner, depth), 0, i, depth + 1) ==> (if across {
                before.x == room.x
            } else {
                before.y == room.y
            })
        }),
{
    listed_facts(st, id, layout, room, inner, depth);
}

proof fn listed_facts<R: Ruler<Fixed>>(
    st: Stage<R>,
    id: usize,
    layout: usize,
    room: Box2<Fixed>,
    inner: Clip<Fixed>,
    depth: nat,
)
    requires
        st.dom.slots.len() <= usize::MAX,
        modifier(st, id, "UIListLayout"@) == Some(layout),
        -0x100_0000_0000 <= flow_of::<Fixed, R>(st, layout).gap.steps <= 0x100_0000_0000,
        roomy(room),
        ordered_kids::<Fixed, R>(st, id).len() <= 0x1_0000,
        forall|c: usize| #[trigger]
            ordered_kids::<Fixed, R>(st, id).contains(c) ==> pair_at::<Fixed, R>(
                st,
                c,
                "AnchorPoint"@,
            ).x.steps == 0 && pair_at::<Fixed, R>(st, c, "AnchorPoint"@).y.steps == 0,
        forall|k: int| #[trigger]
            level(placed_in(st, id, room, inner, depth), k, depth + 1) ==> roomy(
                (Box2 {
                    x: Fixed { steps: 0 },
                    y: Fixed { steps: 0 },
                    ..placed_in(st, id, room, inner, depth)[k].rect
                }),
            ),
    ensures
        in_line(
            placed_in(st, id, room, inner, depth),
            flow_of::<Fixed, R>(st, layout),
            room,
            depth + 1,
            starts_at(room, flow_of::<Fixed, R>(st, layout).across),
        ),
{
    let kids = ordered_kids::<Fixed, R>(st, id);
    let flow = flow_of::<Fixed, R>(st, layout);
    let out = placed_in(st, id, room, inner, depth);
    assert(zero::<Fixed>().steps == 0);
    assert forall|k: int| 0 <= k < kids.len() implies pair_at::<Fixed, R>(
        st,
        #[trigger] kids[k],
        "AnchorPoint"@,
    ).x.steps == 0 && pair_at::<Fixed, R>(st, kids[k], "AnchorPoint"@).y.steps == 0 by {
        assert(kids.contains(kids[k]));
    }
    assert(short(out, depth + 1)) by {
        assert forall|k: int| #[trigger] level(out, k, depth + 1) implies 0
            <= out[k].rect.w.steps <= 0x100_0000_0000 && 0 <= out[k].rect.h.steps
            <= 0x100_0000_0000 by {}
    }
    listed_in_line(st, kids, flow, room, inner, depth, zero());
}

/// On the axis that a list does not fill, each of its children is where the alignment of that axis
/// puts it: right or bottom at the far edge of the room, centred in its middle, and otherwise at
/// its near edge.
pub proof fn a_list_aligns_on_the_other_axis<R: Ruler<Fixed>>(
    st: Stage<R>,
    id: usize,
    layout: usize,
    room: Box2<Fixed>,
    inner: Clip<Fixed>,
    depth: nat,
    across: bool,
    gap: i32,
    i: int,
)
    requires
        st.dom.slots.len() <= usize::MAX,
        modifier(st, id, "UIListLayout"@) == Some(layout),
        across == item_at(st, layout, "FillDirection"@, "FillDirection"@, "Horizontal"@),
        property_at(st, layout, "Padding"@) matches Some(ValueView::UDim(v)) && v.offset == gap,
        -0x100_0000 <= gap <= 0x100_0000,
        roomy(room),
        ordered_kids::<Fixed, R>(st, id).len() <= 0x1_0000,
        forall|c: usize| #[trigger]
            ordered_kids::<Fixed, R>(st, id).contains(c) ==> pair_at::<Fixed, R>(
                st,
                c,
                "AnchorPoint"@,
            ).x.steps == 0 && pair_at::<Fixed, R>(st, c, "AnchorPoint"@).y.steps == 0,
        forall|k: int| #[trigger]
            level(placed_in(st, id, room, inner, depth), k, depth + 1) ==> roomy(
                (Box2 {
                    x: Fixed { steps: 0 },
                    y: Fixed { steps: 0 },
                    ..placed_in(st, id, room, inner, depth)[k].rect
                }),
            ),
        level(placed_in(st, id, room, inner, depth), i, depth + 1),
    ensures
        ({
            let r = placed_in(st, id, room, inner, depth)[i].rect;
            let key = if across {
                "VerticalAlignment"@
            } else {
                "HorizontalAlignment"@
            };
            let says = |name: Seq<char>| item_at(st, layout, key, key, name);
            let at = if across {
                r.y.steps
            } else {
                r.x.steps
            };
            let has = if across {
                r.h.steps
            } else {
                r.w.steps
            };
            let from = if across {
                room.y.steps
            } else {
                room.x.steps
            };
            let whole = if across {
                room.h.steps
            } else {
                room.w.steps
            };
            &&& says("Center"@) ==> at == from + (whole - has) / 2
            &&& !says("Center"@) && (says("Right"@) || says("Bottom"@)) ==> at + has == from
                + whole
            &&& !says("Center"@) && !says("Right"@) && !says("Bottom"@) ==> at == from
        }),
{
    listed_facts(st, id, layout, room, inner, depth);
}

// ---- one element ----

/// What a span takes of a length, in steps.
pub open spec fn taken(scale: u32, offset: i32, of: int) -> int {
    (Fixed::of_single(scale).steps * of) / 65536 + offset * 65536
}

/// A scale of which no length in reach overflows.
pub open spec fn mild(scale: u32) -> bool {
    -0x40_0000 <= Fixed::of_single(scale).steps <= 0x40_0000
}

proof fn mild_product(a: int, b: int)
    requires
        -0x40_0000 <= a <= 0x40_0000,
        -0x10_0000_0000_0000 <= b <= 0x10_0000_0000_0000,
    ensures
        -0x400_0000_0000_0000 <= (a * b) / 65536 <= 0x400_0000_0000_0000,
{
    assert(-0x400_0000_0000_0000 * 65536 <= a * b <= 0x400_0000_0000_0000 * 65536) by (nonlinear_arith)
        requires
            -0x40_0000 <= a <= 0x40_0000,
            -0x10_0000_0000_0000 <= b <= 0x10_0000_0000_0000,
    ;
}

proof fn small_product(a: int, b: int)
    requires
        -0x40_0000 <= a <= 0x40_0000,
        0 <= b <= 0x100_0000_0000,
    ensures
        -0x4000_0000_0000 <= (a * b) / 65536 <= 0x4000_0000_0000,
{
    assert(-0x4000_0000_0000 * 65536 <= a * b <= 0x4000_0000_0000 * 65536) by (nonlinear_arith)
        requires
            -0x40_0000 <= a <= 0x40_0000,
            0 <= b <= 0x100_0000_0000,
    ;
}

/// An element that does not grow is as wide and as high as its size takes of what is on offer, and
/// never less than nothing. The point of it that its anchor names is where its position puts it.
pub proof fn an_element_is_where_it_asks<R: Ruler<Fixed>>(
    st: Stage<R>,
    id: usize,
    parent: Box2<Fixed>,
    clip: Clip<Fixed>,
    depth: nat,
    offered: Box2<Fixed>,
)
    requires
        roomy(parent),
        property_at(st, id, "Size"@) is Some,
        property_at(st, id, "Position"@) is Some,
        property_at(st, id, "AnchorPoint"@) is Some,
        property_at(st, id, "Size"@)->0 is UDim2,
        property_at(st, id, "Position"@)->0 is UDim2,
        property_at(st, id, "AnchorPoint"@)->0 is Vector2,
        mild(property_at(st, id, "Size"@)->0->UDim2_0.x.scale),
        mild(property_at(st, id, "Size"@)->0->UDim2_0.y.scale),
        mild(property_at(st, id, "Position"@)->0->UDim2_0.x.scale),
        mild(property_at(st, id, "Position"@)->0->UDim2_0.y.scale),
        mild(property_at(st, id, "AnchorPoint"@)->0->Vector2_0.x),
        mild(property_at(st, id, "AnchorPoint"@)->0->Vector2_0.y),
        !item_at(st, id, "AutomaticSize"@, "AutomaticSize"@, "X"@),
        !item_at(st, id, "AutomaticSize"@, "AutomaticSize"@, "Y"@),
        !item_at(st, id, "AutomaticSize"@, "AutomaticSize"@, "XY"@),
        visited(st, id, parent, clip, depth, false, offered).len() > 0,
    ensures
        ({
            let size = property_at(st, id, "Size"@)->0->UDim2_0;
            let place = property_at(st, id, "Position"@)->0->UDim2_0;
            let anchor = property_at(st, id, "AnchorPoint"@)->0->Vector2_0;
            let r = visited(st, id, parent, clip, depth, false, offered)[0].rect;
            let w = taken(size.x.scale, size.x.offset, parent.w.steps as int);
            let h = taken(size.y.scale, size.y.offset, parent.h.steps as int);
            &&& r.w.steps == (if w < 0 {
                0
            } else {
                w
            })
            &&& r.h.steps == (if h < 0 {
                0
            } else {
                h
            })
            &&& r.x.steps + (Fixed::of_single(anchor.x).steps * w) / 65536 == parent.x.steps
                + taken(place.x.scale, place.x.offset, parent.w.steps as int)
            &&& r.y.steps + (Fixed::of_single(anchor.y).steps * h) / 65536 == parent.y.steps
                + taken(place.y.scale, place.y.offset, parent.h.steps as int)
        }),
{
    let size = property_at(st, id, "Size"@)->0->UDim2_0;
    let place = property_at(st, id, "Position"@)->0->UDim2_0;
    let anchor = property_at(st, id, "AnchorPoint"@)->0->Vector2_0;
    let w = taken(size.x.scale, size.x.offset, parent.w.steps as int);
    let h = taken(size.y.scale, size.y.offset, parent.h.steps as int);
    small_product(Fixed::of_single(size.x.scale).steps as int, parent.w.steps as int);
    small_product(Fixed::of_single(size.y.scale).steps as int, parent.h.steps as int);
    small_product(Fixed::of_single(place.x.scale).steps as int, parent.w.steps as int);
    small_product(Fixed::of_single(place.y.scale).steps as int, parent.h.steps as int);
    mild_product(Fixed::of_single(anchor.x).steps as int, w);
    mild_product(Fixed::of_single(anchor.y).steps as int, h);
    let rect = solved_rect(st, id, parent, false);
    let a = pair_at::<Fixed, R>(st, id, "AnchorPoint"@);
    assert(a.x == Fixed::of_single(anchor.x) && a.y == Fixed::of_single(anchor.y));
    let sx = span2_at::<Fixed, R>(st, id, "Size"@, true);
    assert(sx.scale.product(parent.w).sum(sx.offset).steps == w);
    let sy = span2_at::<Fixed, R>(st, id, "Size"@, false);
    assert(sy.scale.product(parent.h).sum(sy.offset).steps == h);
    let axes = grows_by(st, id, "AutomaticSize"@);
    assert(!axes.x && !axes.y);
    assert(visited(st, id, parent, clip, depth, false, offered)[0].rect == rect);
}

/// An element that stands in the window of its container is cut where the container says, is as
/// far under the root as its place in the tree, and is drawn in the order that it asks for, which
/// is one where it asks for none.
pub proof fn an_element_carries_its_place<S: Scalar, R: Ruler<S>>(
    st: Stage<R>,
    id: usize,
    parent: Box2<S>,
    clip: Clip<S>,
    depth: nat,
    laid_out: bool,
    offered: Box2<S>,
)
    requires
        depth <= usize::MAX,
        visited(st, id, parent, clip, depth, laid_out, offered).len() > 0,
    ensures
        ({
            let item = visited(st, id, parent, clip, depth, laid_out, offered)[0];
            &&& item.id == id
            &&& item.clip == clip.area
            &&& item.clip_radius == clip.radius
            &&& item.depth == depth
            &&& property_at(st, id, "ZIndex"@) is None ==> item.z_index == S::of_int(1).whole()
            &&& property_at(st, id, "ZIndex"@) matches Some(ValueView::Int32(z))
                ==> item.z_index == S::of_int(z as i128).whole()
        }),
{
}

/// A whole number that is kept in steps is that number again.
pub proof fn a_whole_number_stays_whole(n: i32)
    ensures
        Fixed::of_int(n as i128).whole() == n,
{
    if n < 0 {
        assert((-(n * 65536)) / 65536 == -n) by (nonlinear_arith);
    } else {
        assert((n * 65536) / 65536 == n as int) by (nonlinear_arith);
    }
}

/// Only a child whose class begins with the two letters of a modifier is not laid out, and every
/// other child is.
pub proof fn modifiers_are_not_laid_out<R>(st: Stage<R>, id: usize, c: usize)
    requires
        st.dom.alive(c),
    ensures
        ({
            let class = st.dom.node(c).class;
            let modifies = class.len() >= 2 && class[0] == 'U' && class[1] == 'I';
            laid_out_kids(st, id).contains(c) == (st.dom.kids(id).contains(c) && !modifies)
        }),
{
    let kids = st.dom.kids(id);
    let class = st.dom.node(c).class;
    reveal_strlit("UI");
    assert(crate::text::begins(class, "UI"@) == (class.len() >= 2 && class[0] == 'U' && class[1]
        == 'I')) by {
        if class.len() >= 2 {
            let head = class.subrange(0, 2);
            if class[0] == 'U' && class[1] == 'I' {
                assert(head =~= "UI"@);
            } else {
                assert(head[0] == class[0] && head[1] == class[1]);
            }
        }
    }
    let wanted = crate::layout::is_laid_out(st);
    if laid_out_kids(st, id).contains(c) {
        kids.lemma_filter_contains_rev(wanted, c);
        let k = choose|k: int| 0 <= k < laid_out_kids(st, id).len() && laid_out_kids(st, id)[k] == c;
        kids.lemma_filter_pred(wanted, k);
    }
    if kids.contains(c) && wanted(c) {
        let k = choose|k: int| 0 <= k < kids.len() && kids[k] == c;
        kids.lemma_filter_contains(wanted, k);
    }
}

/// The modifier of a class is a child of that class, and no child before it is one; where there is
/// no modifier of a class, no child is one.
pub proof fn the_first_modifier_counts<R>(st: Stage<R>, id: usize, class: Seq<char>)
    ensures
        match modifier(st, id, class) {
            Some(m) => exists|k: int|
                #![trigger st.dom.kids(id)[k]]
                0 <= k < st.dom.kids(id).len() && st.dom.kids(id)[k] == m && st.dom.alive(m)
                    && st.dom.node(m).class == class && forall|j: int|
                    0 <= j < k ==> !(st.dom.alive(#[trigger] st.dom.kids(id)[j]) && st.dom.node(
                        st.dom.kids(id)[j],
                    ).class == class),
            None => forall|j: int|
                0 <= j < st.dom.kids(id).len() ==> !(st.dom.alive(#[trigger] st.dom.kids(id)[j])
                    && st.dom.node(st.dom.kids(id)[j]).class == class),
        },
{
    let wanted = |c: usize| crate::layout::is_class(st, c, class);
    let kids = st.dom.kids(id);
    crate::members::first_is_first(kids, wanted);
    match modifier(st, id, class) {
        Some(m) => {
            let k = choose|k: int|
                0 <= k < kids.len() && #[trigger] kids[k] == m && forall|j: int|
                    0 <= j < k ==> !wanted(#[trigger] kids[j]);
            assert(wanted(m));
            assert forall|j: int| 0 <= j < k implies !(st.dom.alive(#[trigger] kids[j])
                && st.dom.node(kids[j]).class == class) by {
                assert(!wanted(kids[j]));
            }
            assert(st.dom.kids(id)[k] == m);
        },
        None => {
            assert forall|j: int| 0 <= j < kids.len() implies !(st.dom.alive(#[trigger] kids[j])
                && st.dom.node(kids[j]).class == class) by {
                assert(!wanted(kids[j]));
            }
        },
    }
}

// ---- boxes ----

/// The room that a container offers lies inside it: each edge is set in by what the padding
/// modifier says for that edge.
pub proof fn padding_sets_each_edge_in<R>(
    st: Stage<R>,
    id: usize,
    own: Box2<Fixed>,
    p: usize,
    left: i32,
    top: i32,
    right: i32,
    bottom: i32,
)
    requires
        roomy(own),
        modifier(st, id, "UIPadding"@) == Some(p),
        property_at(st, p, "PaddingLeft"@) matches Some(ValueView::UDim(v)) && v.offset == left,
        property_at(st, p, "PaddingTop"@) matches Some(ValueView::UDim(v)) && v.offset == top,
        property_at(st, p, "PaddingRight"@) matches Some(ValueView::UDim(v)) && v.offset == right,
        property_at(st, p, "PaddingBottom"@) matches Some(ValueView::UDim(v)) && v.offset == bottom,
    ensures
        ({
            let room = content(st, id, own);
            &&& room.x.steps == own.x.steps + left * 65536
            &&& room.y.steps == own.y.steps + top * 65536
            &&& own.w.steps >= (left + right) * 65536 ==> room.x.steps + room.w.steps + right
                * 65536 == own.x.steps + own.w.steps
            &&& own.h.steps >= (top + bottom) * 65536 ==> room.y.steps + room.h.steps + bottom
                * 65536 == own.y.steps + own.h.steps
            &&& own.w.steps < (left + right) * 65536 ==> room.w.steps == 0
            &&& own.h.steps < (top + bottom) * 65536 ==> room.h.steps == 0
        }),
{
}

/// Is a point in a box? The near edges are, the far ones are not.
pub open spec fn holds(rect: Box2<Fixed>, x: int, y: int) -> bool {
    &&& rect.x.steps <= x < rect.x.steps + rect.w.steps
    &&& rect.y.steps <= y < rect.y.steps + rect.h.steps
}

/// What cuts twice leaves the points that are in both boxes.
pub proof fn two_cuts_leave_what_is_in_both(clip: Box2<Fixed>, rect: Box2<Fixed>, x: int, y: int)
    requires
        roomy(clip),
        roomy(rect),
    ensures
        holds(crate::layout::intersected(Some(clip), rect), x, y) == (holds(clip, x, y) && holds(
            rect,
            x,
            y,
        )),
        crate::layout::intersected(None, rect) == rect,
{
}

/// A scrolling element cuts what is in it at its own box, and so does one that clips; no other
/// element cuts anything.
pub proof fn who_cuts_what_is_in_it<S: Scalar, R>(
    st: Stage<R>,
    id: usize,
    rect: Box2<S>,
    clip: Clip<S>,
)
    requires
        st.dom.alive(id),
    ensures
        ({
            let cuts = st.dom.node(id).class == "ScrollingFrame"@ || property_at(
                st,
                id,
                "ClipsDescendants"@,
            ) == Some(ValueView::Bool(true));
            let inner = inner_clip(st, id, rect, clip);
            &&& !cuts ==> inner == clip
            &&& cuts && clip.area is None ==> inner.area == Some(rect)
            &&& cuts ==> inner.area is Some && inner.radius == crate::layout::corner_radius::<
                S,
                R,
            >(st, id).larger(clip.radius)
        }),
{
}

/// The corners are as round as the first corner modifier with a radius says, and square where
/// there is none.
pub proof fn the_first_corner_rounds<R>(st: Stage<R>, id: usize, k: int, radius: i32)
    requires
        0 <= k < st.dom.kids(id).len(),
        st.dom.alive(st.dom.kids(id)[k]),
        st.dom.node(st.dom.kids(id)[k]).class == "UICorner"@,
        property_at(st, st.dom.kids(id)[k], "CornerRadius"@) matches Some(ValueView::UDim(v))
            && v.offset == radius,
        forall|j: int|
            0 <= j < k ==> !(st.dom.alive(#[trigger] st.dom.kids(id)[j]) && st.dom.node(
                st.dom.kids(id)[j],
            ).class == "UICorner"@),
    ensures
        crate::layout::corner_radius::<Fixed, R>(st, id).steps == radius * 65536,
{
    let wanted = |c: usize| crate::layout::rounds(st, c);
    let kids = st.dom.kids(id);
    crate::members::first_is_first(kids, wanted);
    assert(wanted(kids[k]));
    match crate::members::first_of(kids, wanted) {
        Some(m) => {
            let i = choose|i: int|
                0 <= i < kids.len() && #[trigger] kids[i] == m && forall|j: int|
                    0 <= j < i ==> !wanted(#[trigger] kids[j]);
            assert(wanted(kids[i]));
            if i < k {
                assert(st.dom.kids(id)[i] == kids[i]);
            }
            if k < i {
                assert(!wanted(kids[k]));
            }
            assert(i == k);
        },
        None => {},
    }
}

// ---- growing ----

/// An element grows along the axes that its automatic size names, and along no other.
pub proof fn an_element_grows_along_named_axes<S: Scalar, R: Ruler<S>>(
    st: Stage<R>,
    id: usize,
    rect: Box2<S>,
    items: Seq<SolvedItem<S>>,
    own: Box2<S>,
    offered: Box2<S>,
)
    requires
        !item_at(st, id, "AutomaticSize"@, "AutomaticSize"@, "XY"@),
    ensures
        ({
            let full = grown(st, id, rect, items, own, offered);
            let across = item_at(st, id, "AutomaticSize"@, "AutomaticSize"@, "X"@);
            let down = item_at(st, id, "AutomaticSize"@, "AutomaticSize"@, "Y"@);
            &&& full.x == rect.x
            &&& full.y == rect.y
            &&& !across ==> full.w == rect.w
            &&& across || !down ==> full.h == rect.h
        }),
{
}

/// Growing never makes an element smaller.
pub proof fn growing_never_shrinks<R: Ruler<Fixed>>(
    st: Stage<R>,
    id: usize,
    rect: Box2<Fixed>,
    items: Seq<SolvedItem<Fixed>>,
    own: Box2<Fixed>,
    offered: Box2<Fixed>,
)
    ensures
        grown(st, id, rect, items, own, offered).w.steps >= rect.w.steps,
        grown(st, id, rect, items, own, offered).h.steps >= rect.h.steps,
{
}

/// What the size of an element says of one axis, where it says a length and no share.
pub open spec fn fixed_along<R>(st: Stage<R>, id: usize, across: bool) -> bool {
    property_at(st, id, "Size"@) matches Some(ValueView::UDim2(v)) && (if across {
        Fixed::of_single(v.x.scale).steps == 0
    } else {
        Fixed::of_single(v.y.scale).steps == 0
    })
}

/// The content of an element of fixed lengths reaches as far as the farthest child does, and no
/// farther.
proof fn reach_of_fixed<R>(
    st: Stage<R>,
    items: Seq<SolvedItem<Fixed>>,
    count: nat,
    base: Option<Fixed>,
    across: bool,
    listed: bool,
)
    requires
        count <= items.len(),
        forall|k: int|
            0 <= k < items.len() ==> (#[trigger] items[k]).depth == items[0].depth && fixed_along(
                st,
                items[k].id,
                across,
            ) && roomy(items[k].rect),
        items.len() > 0 ==> items[0].depth < usize::MAX,
    ensures
        ({
            let r = crate::layout::reach(st, items, count, base, across, listed);
            &&& items.len() > 0 ==> r.added.contains_key(items[0].depth)
                && r.added[items[0].depth].steps == 0
            &&& forall|k: int|
                0 <= k < count ==> r.edge.steps >= starts_at((#[trigger] items[k]).rect, across)
                    + long(items[k].rect, across)
            &&& count > 0 ==> exists|k: int|
                #![trigger items[k]]
                0 <= k < count && r.edge.steps == starts_at(items[k].rect, across) + long(
                    items[k].rect,
                    across,
                )
            &&& count == 0 ==> r.edge.steps == i64::MIN
        }),
    decreases count,
{
    if count > 0 {
        reach_of_fixed(st, items, (count - 1) as nat, base, across, listed);
        let before = crate::layout::reach(st, items, (count - 1) as nat, base, across, listed);
        let r = crate::layout::reach(st, items, count, base, across, listed);
        let last = items[count - 1];
        assert(last.depth == items[0].depth && fixed_along(st, last.id, across) && roomy(
            last.rect,
        ));
        let far = starts_at(last.rect, across) + long(last.rect, across);
        assert(zero::<Fixed>().steps == 0);
        assert(r.edge.steps == (if before.edge.steps < far {
            far
        } else {
            before.edge.steps as int
        }));
        if count > 1 {
            let k = choose|k: int|
                #![trigger items[k]]
                0 <= k < count - 1 && before.edge.steps == starts_at(items[k].rect, across) + long(
                    items[k].rect,
                    across,
                );
            assert(items[k] == items[k]);
        }
    }
}

/// An element that grows across around children of fixed lengths has room for every one of them
/// and for its padding behind it, and grows to no more than one of them needs.
pub proof fn growth_makes_room_for_the_content<R: Ruler<Fixed>>(
    st: Stage<R>,
    id: usize,
    rect: Box2<Fixed>,
    items: Seq<SolvedItem<Fixed>>,
    own: Box2<Fixed>,
    offered: Box2<Fixed>,
    k: int,
)
    requires
        0 <= k < items.len(),
        forall|j: int|
            0 <= j < items.len() ==> (#[trigger] items[j]).depth == items[0].depth && fixed_along(
                st,
                items[j].id,
                true,
            ) && fixed_along(st, items[j].id, false) && roomy(items[j].rect),
        items[0].depth < usize::MAX,
        roomy(own),
        item_at(st, id, "AutomaticSize"@, "AutomaticSize"@, "XY"@),
        !item_at(st, id, "AutomaticSize"@, "AutomaticSize"@, "X"@),
        !item_at(st, id, "AutomaticSize"@, "AutomaticSize"@, "Y"@),
        !crate::layout::draws_text(crate::layout::class_at(st, id)),
    ensures
        ({
            let full = grown(st, id, rect, items, own, offered);
            let pad = crate::layout::padding::<Fixed, R>(st, id);
            &&& full.w.steps >= items[k].rect.x.steps + items[k].rect.w.steps - own.x.steps
                + pad.left.steps + pad.right.steps
            &&& full.h.steps >= items[k].rect.y.steps + items[k].rect.h.steps - own.y.steps
                + pad.top.steps + pad.bottom.steps
            &&& full.w.steps == rect.w.steps || exists|j: int|
                #![trigger items[j]]
                0 <= j < items.len() && full.w.steps == items[j].rect.x.steps
                    + items[j].rect.w.steps - own.x.steps + pad.left.steps + pad.right.steps
            &&& full.h.steps == rect.h.steps || exists|j: int|
                #![trigger items[j]]
                0 <= j < items.len() && full.h.steps == items[j].rect.y.steps
                    + items[j].rect.h.steps - own.y.steps + pad.top.steps + pad.bottom.steps
        }),
{
    let listed = modifier(st, id, "UIListLayout"@) is Some;
    let pad = crate::layout::padding::<Fixed, R>(st, id);
    padding_is_small(st, id);
    let n = items.len();
    let full = grown(st, id, rect, items, own, offered);
    let across = true;
    let fx = crate::layout::reach::<Fixed, R>(st, items, n, None, true, listed).edge;
    let fy = crate::layout::reach::<Fixed, R>(st, items, n, None, false, listed).edge;
    let bx = if listed {
        offered.w
    } else if fx.equal(Fixed::bottom()) {
        zero()
    } else {
        fx.difference(own.x).larger(zero())
    };
    let by = if listed {
        offered.h
    } else if fy.equal(Fixed::bottom()) {
        zero()
    } else {
        fy.difference(own.y).larger(zero())
    };
    reach_of_fixed(st, items, n, Some(bx), true, listed);
    reach_of_fixed(st, items, n, Some(by), false, listed);
    let ex = crate::layout::far_edge(st, items, own, offered, true, listed);
    let ey = crate::layout::far_edge(st, items, own, offered, false, listed);
    assert(ex == crate::layout::reach(st, items, n, Some(bx), true, listed).edge);
    assert(ey == crate::layout::reach(st, items, n, Some(by), false, listed).edge);
    let i = choose|i: int|
        #![trigger items[i]]
        0 <= i < n && ex.steps == starts_at(items[i].rect, true) + long(items[i].rect, true);
    let j = choose|j: int|
        #![trigger items[j]]
        0 <= j < n && ey.steps == starts_at(items[j].rect, false) + long(items[j].rect, false);
    assert(roomy(items[i].rect) && roomy(items[j].rect) && roomy(items[k].rect));
}

pub proof fn padding_is_small<R>(st: Stage<R>, id: usize)
    ensures
        ({
            let pad = crate::layout::padding::<Fixed, R>(st, id);
            &&& -0x8000_0000_0000 <= pad.left.steps <= 0x8000_0000_0000
            &&& -0x8000_0000_0000 <= pad.right.steps <= 0x8000_0000_0000
            &&& -0x8000_0000_0000 <= pad.top.steps <= 0x8000_0000_0000
            &&& -0x8000_0000_0000 <= pad.bottom.steps <= 0x8000_0000_0000
        }),
{
}

/// An element that draws text and grows has room for the text between its paddings.
pub proof fn growth_makes_room_for_the_text<R: Ruler<Fixed>>(
    st: Stage<R>,
    id: usize,
    rect: Box2<Fixed>,
    items: Seq<SolvedItem<Fixed>>,
    own: Box2<Fixed>,
    offered: Box2<Fixed>,
    tw: Fixed,
    th: Fixed,
)
    requires
        st.dom.alive(id),
        st.dom.node(id).class == "TextLabel"@ || st.dom.node(id).class == "TextButton"@
            || st.dom.node(id).class == "TextBox"@ || st.dom.node(id).class
            == "InputActionLabel"@,
        crate::layout::text_extent(
            st,
            id,
            crate::layout::filled(st, id, rect, items, own, offered).w,
            offered,
        ) == Some((tw, th)),
        0 <= tw.steps <= 0x100_0000_0000,
        0 <= th.steps <= 0x100_0000_0000,
    ensures
        ({
            let full = grown(st, id, rect, items, own, offered);
            let pad = crate::layout::padding::<Fixed, R>(st, id);
            let both = item_at(st, id, "AutomaticSize"@, "AutomaticSize"@, "XY"@);
            let across = item_at(st, id, "AutomaticSize"@, "AutomaticSize"@, "X"@);
            let down = item_at(st, id, "AutomaticSize"@, "AutomaticSize"@, "Y"@);
            &&& across || (both && !down) ==> full.w.steps >= tw.steps + pad.left.steps
                + pad.right.steps
            &&& !across && (both || down) ==> full.h.steps >= th.steps + pad.top.steps
                + pad.bottom.steps
        }),
{
    padding_is_small(st, id);
}

/// A text is measured in the size that its element names, or in fourteen, and wrapped only where
/// the element says so and has a width: then to what the paddings leave of it.
pub proof fn a_text_wraps_to_its_element<R: Ruler<Fixed>>(
    st: Stage<R>,
    id: usize,
    width: Fixed,
    offered: Box2<Fixed>,
    text: Seq<char>,
)
    requires
        st.dom.alive(id),
        st.dom.node(id).class == "TextLabel"@,
        property_at(st, id, "Text"@) == Some(ValueView::Text(text)),
        text.len() > 0,
        0 <= width.steps <= 0x100_0000_0000,
    ensures
        ({
            let pad = crate::layout::padding::<Fixed, R>(st, id);
            let left = width.steps - pad.left.steps - pad.right.steps;
            let said = property_at(st, id, "TextSize"@);
            let size = match said {
                Some(ValueView::Float32(v)) => Fixed::of_single(v),
                Some(ValueView::Float64(v)) => Fixed::of_double(v),
                Some(ValueView::Int32(v)) => Fixed::of_int(v as i128),
                Some(ValueView::Int64(v)) => Fixed::of_int(v as i128),
                _ => Fixed { steps: 917504 },
            };
            let wraps = property_at(st, id, "TextWrapped"@) == Some(ValueView::Bool(true));
            let all = crate::text::text_holding(text);
            &&& !wraps ==> crate::layout::text_extent(st, id, width, offered) == st.ruler.extent(
                all,
                size,
                None,
            )
            &&& wraps && width.steps > 0 && left > 0 ==> crate::layout::text_extent(
                st,
                id,
                width,
                offered,
            ) == st.ruler.extent(all, size, Some(Fixed { steps: left as i64 }))
            &&& wraps && width.steps > 0 && left <= 0 ==> crate::layout::text_extent(
                st,
                id,
                width,
                offered,
            ) == st.ruler.extent(all, size, None)
        }),
{
    padding_is_small(st, id);
    reveal_strlit("TextLabel");
    reveal_strlit("InputActionLabel");
    assert("TextLabel"@.len() != "InputActionLabel"@.len());
}

/// A label of an input action shows the action where it names one, and its own text otherwise;
/// every other class shows its own text.
pub proof fn an_action_is_shown_before_a_text<R>(st: Stage<R>, id: usize, action: Seq<char>, text: Seq<char>)
    requires
        property_at(st, id, "InputAction"@) == Some(ValueView::Text(action)),
        property_at(st, id, "Text"@) == Some(ValueView::Text(text)),
        text.len() > 0,
    ensures
        action.len() > 0 ==> crate::layout::text_for(st, id, "InputActionLabel"@) == Some(action),
        action.len() == 0 ==> crate::layout::text_for(st, id, "InputActionLabel"@) == Some(text),
        crate::layout::text_for(st, id, "TextLabel"@) == Some(text),
        crate::layout::text_for(st, id, "TextButton"@) == Some(text),
        crate::layout::text_for(st, id, "TextBox"@) == Some(text),
{
    reveal_strlit("TextLabel");
    reveal_strlit("TextButton");
    reveal_strlit("TextBox");
    reveal_strlit("InputActionLabel");
    assert("TextLabel"@.len() < "InputActionLabel"@.len());
    assert("TextButton"@.len() < "InputActionLabel"@.len());
    assert("TextBox"@.len() < "InputActionLabel"@.len());
}

// ---- scrolling ----

/// What is in a scrolling element is moved back by how far it is scrolled, which is never less than
/// nothing and never so far that the window leaves a canvas that is larger than it. What is in any
/// other element is not moved.
pub proof fn scrolling_moves_the_content_back<R>(
    st: Stage<R>,
    id: usize,
    items: Seq<SolvedItem<Fixed>>,
    size: Pair<Fixed>,
    window: Box2<Fixed>,
    k: int,
)
    requires
        st.dom.alive(id),
        0 <= k < items.len(),
        roomy(items[k].rect),
        roomy(window),
        0 <= size.x.steps <= 0x100_0000_0000,
        0 <= size.y.steps <= 0x100_0000_0000,
        property_at(st, id, "CanvasPosition"@) is Some,
        property_at(st, id, "CanvasPosition"@)->0 is Vector2,
    ensures
        ({
            let out = crate::layout::unscrolled(st, id, items, size, window);
            let at = property_at(st, id, "CanvasPosition"@)->0->Vector2_0;
            let wants = Fixed::of_single(at.x).steps;
            let wants_down = Fixed::of_single(at.y).steps;
            let most = size.x.steps - window.w.steps;
            let most_down = size.y.steps - window.h.steps;
            let by = items[k].rect.x.steps - out[k].rect.x.steps;
            let down = items[k].rect.y.steps - out[k].rect.y.steps;
            &&& out.len() == items.len()
            &&& out[k].rect.w == items[k].rect.w && out[k].rect.h == items[k].rect.h
            &&& out[k].id == items[k].id && out[k].clip == items[k].clip
            &&& st.dom.node(id).class != "ScrollingFrame"@ ==> by == 0 && down == 0
            &&& st.dom.node(id).class == "ScrollingFrame"@ ==> {
                &&& by >= 0 && down >= 0
                &&& most >= 0 ==> by <= most
                &&& most < 0 ==> by == 0
                &&& most_down >= 0 ==> down <= most_down
                &&& most_down < 0 ==> down == 0
                &&& 0 <= wants <= most ==> by == wants
                &&& 0 <= wants_down <= most_down ==> down == wants_down
            }
        }),
{
}

/// A canvas is as large as its size takes of the window, and never less than nothing.
pub proof fn a_canvas_is_as_large_as_it_says<R>(st: Stage<R>, id: usize, own: Box2<Fixed>)
    requires
        roomy(own),
        property_at(st, id, "CanvasSize"@) is Some,
        property_at(st, id, "CanvasSize"@)->0 is UDim2,
        mild(property_at(st, id, "CanvasSize"@)->0->UDim2_0.x.scale),
        mild(property_at(st, id, "CanvasSize"@)->0->UDim2_0.y.scale),
    ensures
        ({
            let v = property_at(st, id, "CanvasSize"@)->0->UDim2_0;
            let w = taken(v.x.scale, v.x.offset, own.w.steps as int);
            let h = taken(v.y.scale, v.y.offset, own.h.steps as int);
            let c = canvas::<Fixed, R>(st, id, own);
            &&& w >= 0 ==> c.x.steps == w
            &&& w < 0 ==> c.x.steps == 0
            &&& h >= 0 ==> c.y.steps == h
            &&& h < 0 ==> c.y.steps == 0
        }),
{
    let v = property_at(st, id, "CanvasSize"@)->0->UDim2_0;
    small_product(Fixed::of_single(v.x.scale).steps as int, own.w.steps as int);
    small_product(Fixed::of_single(v.y.scale).steps as int, own.h.steps as int);
}

/// A canvas that grows has room for what reaches farthest on it and for the padding behind that;
/// it never shrinks, and one that does not grow keeps its extent.
pub proof fn a_growing_canvas_has_room(has: Fixed, grows: bool, edge: Fixed, from: Fixed, after: Fixed)
    requires
        -0x10_0000_0000_0000 <= edge.steps <= 0x10_0000_0000_0000,
        -0x10_0000_0000_0000 <= from.steps <= 0x10_0000_0000_0000,
        -0x10_0000_0000_0000 <= after.steps <= 0x10_0000_0000_0000,
    ensures
        ({
            let size = crate::layout::canvas_along(has, grows, edge, from, after);
            let needs = edge.steps - from.steps + after.steps;
            &&& size.steps >= has.steps
            &&& grows ==> size.steps >= needs
            &&& size.steps == has.steps || size.steps == needs
            &&& !grows ==> size == has
            &&& crate::layout::canvas_grows(has, grows, edge, from, after) == (size.steps
                > has.steps)
        }),
{
}

/// The far edge of the elements of one depth is the far edge of one of them, and none of them
/// reaches farther.
pub proof fn the_outer_edge_is_the_farthest(
    items: Seq<SolvedItem<Fixed>>,
    count: nat,
    depth: nat,
    across: bool,
    k: int,
)
    requires
        count <= items.len(),
        forall|j: int| 0 <= j < items.len() ==> roomy((#[trigger] items[j]).rect),
        0 <= k < count,
        items[k].depth == depth,
    ensures
        ({
            let edge = crate::layout::outer_edge(items, count, depth, across);
            &&& edge.steps >= starts_at(items[k].rect, across) + long(items[k].rect, across)
            &&& exists|j: int|
                #![trigger items[j]]
                0 <= j < count && items[j].depth == depth && edge.steps == starts_at(
                    items[j].rect,
                    across,
                ) + long(items[j].rect, across)
        }),
    decreases count,
{
    let last = items[count - 1];
    assert(roomy(last.rect));
    assert(roomy(items[k].rect));
    let before = crate::layout::outer_edge(items, (count - 1) as nat, depth, across);
    if k < count - 1 {
        the_outer_edge_is_the_farthest(items, (count - 1) as nat, depth, across, k);
        let j = choose|j: int|
            #![trigger items[j]]
            0 <= j < count - 1 && items[j].depth == depth && before.steps == starts_at(
                items[j].rect,
                across,
            ) + long(items[j].rect, across);
        assert(items[j].depth == depth);
    } else if exists|m: int| 0 <= m < count - 1 && (#[trigger] items[m]).depth == depth {
        let m = choose|m: int| 0 <= m < count - 1 && (#[trigger] items[m]).depth == depth;
        the_outer_edge_is_the_farthest(items, (count - 1) as nat, depth, across, m);
        let j = choose|j: int|
            #![trigger items[j]]
            0 <= j < count - 1 && items[j].depth == depth && before.steps == starts_at(
                items[j].rect,
                across,
            ) + long(items[j].rect, across);
        assert(items[j].depth == depth);
    } else {
        no_edge(items, (count - 1) as nat, depth, across);
        assert(items[k].depth == depth);
    }
}

proof fn no_edge(items: Seq<SolvedItem<Fixed>>, count: nat, depth: nat, across: bool)
    requires
        count <= items.len(),
        forall|m: int| 0 <= m < count ==> (#[trigger] items[m]).depth != depth,
    ensures
        crate::layout::outer_edge(items, count, depth, across).steps == i64::MIN,
    decreases count,
{
    if count > 0 {
        no_edge(items, (count - 1) as nat, depth, across);
    }
}

/// The canvas that a scrolling element is given never shrinks from child to child, and where it
/// grows it takes in each child that is laid out, with the padding behind it.
pub proof fn the_scrolled_bounds_take_in_each_child<R>(
    st: Stage<R>,
    id: usize,
    own: Box2<Fixed>,
    count: nat,
)
    requires
        0 < count <= st.dom.kids(id).len(),
        st.dom.alive(st.dom.kids(id)[count - 1]),
        property_at(st, st.dom.kids(id)[count - 1], "Size"@) is Some,
        property_at(st, st.dom.kids(id)[count - 1], "Size"@)->0 is UDim2,
        property_at(st, st.dom.kids(id)[count - 1], "Position"@) is Some,
        property_at(st, st.dom.kids(id)[count - 1], "Position"@)->0 is UDim2,
        mild(property_at(st, st.dom.kids(id)[count - 1], "Size"@)->0->UDim2_0.x.scale),
        mild(property_at(st, st.dom.kids(id)[count - 1], "Size"@)->0->UDim2_0.y.scale),
        mild(property_at(st, st.dom.kids(id)[count - 1], "Position"@)->0->UDim2_0.x.scale),
        mild(property_at(st, st.dom.kids(id)[count - 1], "Position"@)->0->UDim2_0.y.scale),
        0 <= crate::layout::bounds_over(st, id, own, (count - 1) as nat).x.steps
            <= 0x100_0000_0000,
        0 <= crate::layout::bounds_over(st, id, own, (count - 1) as nat).y.steps
            <= 0x100_0000_0000,
    ensures
        ({
            let was = crate::layout::bounds_over(st, id, own, (count - 1) as nat);
            let now = crate::layout::bounds_over(st, id, own, count);
            let c = st.dom.kids(id)[count - 1];
            let size = property_at(st, c, "Size"@)->0->UDim2_0;
            let place = property_at(st, c, "Position"@)->0->UDim2_0;
            let pad = crate::layout::padding::<Fixed, R>(st, id);
            let key = "AutomaticCanvasSize"@;
            let says = |name: Seq<char>| item_at(st, id, key, "AutomaticSize"@, name);
            let wide = says("X"@) || (says("XY"@) && !says("Y"@));
            let high = !says("X"@) && (says("Y"@) || says("XY"@));
            let class = st.dom.node(c).class;
            let shown = !crate::text::begins(class, "UI"@);
            let far = taken(place.x.scale, place.x.offset, was.x.steps as int) + taken(
                size.x.scale,
                size.x.offset,
                was.x.steps as int,
            ) + pad.right.steps;
            let deep = taken(place.y.scale, place.y.offset, was.y.steps as int) + taken(
                size.y.scale,
                size.y.offset,
                was.y.steps as int,
            ) + pad.bottom.steps;
            &&& now.x.steps == (if wide && shown && far > was.x.steps {
                far
            } else {
                was.x.steps as int
            })
            &&& now.y.steps == (if high && shown && deep > was.y.steps {
                deep
            } else {
                was.y.steps as int
            })
        }),
{
    let was = crate::layout::bounds_over(st, id, own, (count - 1) as nat);
    let c = st.dom.kids(id)[count - 1];
    let size = property_at(st, c, "Size"@)->0->UDim2_0;
    let place = property_at(st, c, "Position"@)->0->UDim2_0;
    padding_is_small(st, id);
    small_product(Fixed::of_single(size.x.scale).steps as int, was.x.steps as int);
    small_product(Fixed::of_single(size.y.scale).steps as int, was.y.steps as int);
    small_product(Fixed::of_single(place.x.scale).steps as int, was.x.steps as int);
    small_product(Fixed::of_single(place.y.scale).steps as int, was.y.steps as int);
}

// ---- who is laid out ----

/// Is a child shown?
pub open spec fn shown<R>(st: Stage<R>) -> spec_fn(usize) -> bool {
    |c: usize| property_at(st, c, "Visible"@) != Some(ValueView::Bool(false))
}

/// The elements of one depth, by their numbers.
pub open spec fn ids_at<S>(items: Seq<SolvedItem<S>>, depth: nat) -> Seq<usize> {
    items.filter(|i: SolvedItem<S>| i.depth == depth).map_values(|i: SolvedItem<S>| i.id)
}

proof fn ids_join<S>(a: Seq<SolvedItem<S>>, b: Seq<SolvedItem<S>>, depth: nat)
    ensures
        ids_at(a + b, depth) == ids_at(a, depth) + ids_at(b, depth),
{
    Seq::filter_distributes_over_add(a, b, |i: SolvedItem<S>| i.depth == depth);
    assert(ids_at(a + b, depth) =~= ids_at(a, depth) + ids_at(b, depth));
}

proof fn no_ids<S>(items: Seq<SolvedItem<S>>, depth: nat)
    requires
        all_deeper(items, depth),
    ensures
        ids_at(items, depth) == Seq::<usize>::empty(),
    decreases items.len(),
{
    reveal(Seq::filter);
    if items.len() > 0 {
        assert(items.last() == items[items.len() - 1]);
        assert forall|i: int| 0 <= i < items.drop_last().len() implies (
        #[trigger] items.drop_last()[i]).depth > depth by {
            assert(items.drop_last()[i] == items[i]);
        }
        no_ids(items.drop_last(), depth);
        let pred = |i: SolvedItem<S>| i.depth == depth;
        assert(items.filter(pred) == items.drop_last().filter(pred));
    }
    assert(ids_at(items, depth) =~= Seq::<usize>::empty());
}

proof fn one_id<S>(items: Seq<SolvedItem<S>>, depth: nat, id: usize)
    requires
        items.len() > 0,
        items[0].depth == depth,
        items[0].id == id,
        all_deeper(items.skip(1), depth),
    ensures
        ids_at(items, depth) == seq![id],
{
    reveal(Seq::filter);
    let head = seq![items[0]];
    assert(items =~= head + items.skip(1));
    ids_join(head, items.skip(1), depth);
    no_ids(items.skip(1), depth);
    let pred = |i: SolvedItem<S>| i.depth == depth;
    assert(head.drop_last() =~= Seq::empty());
    assert(head.filter(pred) =~= head);
    assert(ids_at(head, depth) =~= seq![id]);
    assert(ids_at(items, depth) =~= seq![id]);
}

proof fn visited_id<S: Scalar, R: Ruler<S>>(
    st: Stage<R>,
    id: usize,
    parent: Box2<S>,
    clip: Clip<S>,
    depth: nat,
    laid_out: bool,
    offered: Box2<S>,
)
    requires
        depth <= st.dom.slots.len() <= usize::MAX,
    ensures
        ids_at(visited(st, id, parent, clip, depth, laid_out, offered), depth) == (if shown(st)(id) {
            seq![id]
        } else {
            Seq::empty()
        }),
        (visited(st, id, parent, clip, depth, laid_out, offered).len() > 0) == shown(st)(id),
{
    let all = visited(st, id, parent, clip, depth, laid_out, offered);
    deeper(st, id, parent, clip, depth, laid_out, offered);
    if all.len() > 0 {
        one_id(all, depth, id);
    } else {
        assert(all =~= Seq::empty());
        no_ids(all, depth);
    }
    assert((bool_at(st, id, "Visible"@) == Some(false)) == !shown(st)(id));
}

proof fn shown_first<R>(st: Stage<R>, kids: Seq<usize>)
    requires
        kids.len() > 0,
    ensures
        kids.filter(shown(st)) == (if shown(st)(kids[0]) {
            seq![kids[0]] + kids.skip(1).filter(shown(st))
        } else {
            kids.skip(1).filter(shown(st))
        }),
{
    reveal(Seq::filter);
    let head = seq![kids[0]];
    assert(kids =~= head + kids.skip(1));
    Seq::filter_distributes_over_add(head, kids.skip(1), shown(st));
    assert(head.drop_last() =~= Seq::empty());
    assert(Seq::<usize>::empty().filter(shown(st)) =~= Seq::empty());
    assert(head.filter(shown(st)) =~= (if shown(st)(kids[0]) {
        head
    } else {
        Seq::empty()
    }));
    assert(kids.filter(shown(st)) =~= head.filter(shown(st)) + kids.skip(1).filter(shown(st)));
    assert(Seq::<usize>::empty() + kids.skip(1).filter(shown(st)) =~= kids.skip(1).filter(
        shown(st),
    ));
}

proof fn each_id<S: Scalar, R: Ruler<S>>(
    st: Stage<R>,
    kids: Seq<usize>,
    room: Box2<S>,
    inner: Clip<S>,
    depth: nat,
)
    requires
        depth < st.dom.slots.len() <= usize::MAX,
    ensures
        ids_at(each_in(st, kids, room, inner, depth), depth + 1) == kids.filter(shown(st)),
    decreases kids.len(),
{
    reveal(Seq::filter);
    if kids.len() > 0 {
        let items = visited(st, kids[0], room, inner, depth + 1, false, room);
        visited_id(st, kids[0], room, inner, depth + 1, false, room);
        each_id(st, kids.skip(1), room, inner, depth);
        ids_join(items, each_in(st, kids.skip(1), room, inner, depth), depth + 1);
        shown_first(st, kids);
        assert(ids_at(each_in(st, kids, room, inner, depth), depth + 1) =~= kids.filter(shown(st)));
    } else {
        assert(ids_at(each_in(st, kids, room, inner, depth), depth + 1) =~= kids.filter(shown(st)));
    }
}

proof fn listed_id<S: Scalar, R: Ruler<S>>(
    st: Stage<R>,
    kids: Seq<usize>,
    flow: Flow<S>,
    room: Box2<S>,
    inner: Clip<S>,
    depth: nat,
    cursor: S,
)
    requires
        depth < st.dom.slots.len() <= usize::MAX,
    ensures
        ids_at(listed_in(st, kids, flow, room, inner, depth, cursor), depth + 1) == kids.filter(
            shown(st),
        ),
    decreases kids.len(),
{
    reveal(Seq::filter);
    let out = listed_in(st, kids, flow, room, inner, depth, cursor);
    if kids.len() > 0 {
        let here = slot(room, flow.across, cursor);
        let items = visited(st, kids[0], here, inner, depth + 1, true, room);
        visited_id(st, kids[0], here, inner, depth + 1, true, room);
        shown_first(st, kids);
        if items.len() == 0 {
            listed_id(st, kids.skip(1), flow, room, inner, depth, cursor);
        } else {
            deeper(st, kids[0], here, inner, depth + 1, true, room);
            let there = aligned(items, flow, room);
            assert forall|i: int| 0 <= i < there.skip(1).len() implies (
            #[trigger] there.skip(1)[i]).depth > depth + 1 by {
                assert(there.skip(1)[i].depth == items.skip(1)[i].depth);
            }
            one_id(there, depth + 1, kids[0]);
            let next = cursor.sum(crate::layout::length(there[0].rect, flow.across).sum(flow.gap));
            let more = listed_in(st, kids.skip(1), flow, room, inner, depth, next);
            listed_id(st, kids.skip(1), flow, room, inner, depth, next);
            ids_join(there, more, depth + 1);
            assert(out == there + more);
            assert(ids_at(out, depth + 1) =~= kids.filter(shown(st)));
        }
    } else {
        assert(ids_at(out, depth + 1) =~= kids.filter(shown(st)));
    }
}

/// The children of an element are laid out once each, but for modifiers and those that are not
/// visible: in the order that they ask for in a list, and in their own order otherwise.
pub proof fn the_visible_children_are_laid_out<S: Scalar, R: Ruler<S>>(
    st: Stage<R>,
    id: usize,
    room: Box2<S>,
    inner: Clip<S>,
    depth: nat,
)
    requires
        depth < st.dom.slots.len() <= usize::MAX,
    ensures
        modifier(st, id, "UIListLayout"@) is None ==> ids_at(
            placed_in(st, id, room, inner, depth),
            depth + 1,
        ) == laid_out_kids(st, id).filter(shown(st)),
        modifier(st, id, "UIListLayout"@) is Some ==> ids_at(
            placed_in(st, id, room, inner, depth),
            depth + 1,
        ) == ordered_kids::<S, R>(st, id).filter(shown(st)),
{
    match modifier(st, id, "UIListLayout"@) {
        Some(layout) => listed_id(
            st,
            ordered_kids::<S, R>(st, id),
            flow_of::<S, R>(st, layout),
            room,
            inner,
            depth,
            zero(),
        ),
        None => each_id(st, laid_out_kids(st, id), room, inner, depth),
    }
}

/// What a child asks for as its place in a list: the whole number of its property, or nothing.
pub open spec fn asks_for<R>(st: Stage<R>, c: usize) -> int {
    match property_at(st, c, "LayoutOrder"@) {
        Some(ValueView::Int32(n)) => n as int,
        _ => 0,
    }
}

/// A list orders its children by what they ask for, smallest first, and loses none and adds none.
pub proof fn a_list_orders_its_children<R>(st: Stage<R>, id: usize, i: int, j: int)
    requires
        forall|c: usize|
            #![trigger property_at(st, c, "LayoutOrder"@)]
            property_at(st, c, "LayoutOrder"@) is None || property_at(st, c, "LayoutOrder"@)->0 is Int32,
        0 <= i < j < ordered_kids::<Fixed, R>(st, id).len(),
    ensures
        asks_for(st, ordered_kids::<Fixed, R>(st, id)[i]) <= asks_for(
            st,
            ordered_kids::<Fixed, R>(st, id)[j],
        ),
        ordered_kids::<Fixed, R>(st, id).len() == laid_out_kids(st, id).len(),
        laid_out_kids(st, id).contains(ordered_kids::<Fixed, R>(st, id)[i]),
{
    broadcast use vstd::seq_lib::group_to_multiset_ensures;

    let kids = laid_out_kids(st, id);
    let keyed = kids.map_values(|c: usize| (crate::layout::layout_order::<Fixed, R>(st, c), c));
    let rows = crate::ranked::ranked(keyed);
    crate::ranked::ranking_is_stable(keyed, 0);
    assert(rows[i].0 <= rows[j].0);
    assert(rows.to_multiset().contains(rows[i]));
    assert(rows.to_multiset().contains(rows[j]));
    let a = choose|a: int| 0 <= a < keyed.len() && keyed[a] == rows[i];
    let b = choose|b: int| 0 <= b < keyed.len() && keyed[b] == rows[j];
    assert(keyed[a] == (crate::layout::layout_order::<Fixed, R>(st, kids[a]), kids[a]));
    assert(keyed[b] == (crate::layout::layout_order::<Fixed, R>(st, kids[b]), kids[b]));
    order_is_asked_for(st, kids[a]);
    order_is_asked_for(st, kids[b]);
}

proof fn order_is_asked_for<R>(st: Stage<R>, c: usize)
    requires
        property_at(st, c, "LayoutOrder"@) is None || property_at(st, c, "LayoutOrder"@)->0 is Int32,
    ensures
        crate::layout::layout_order::<Fixed, R>(st, c) == asks_for(st, c),
{
    a_whole_number_stays_whole(0);
    if let Some(ValueView::Int32(n)) = property_at(st, c, "LayoutOrder"@) {
        a_whole_number_stays_whole(n);
        assert(number_at::<Fixed, R>(st, c, "LayoutOrder"@) == Some(Fixed::of_int(n as i128)));
    }
}

// ---- growing about an anchor ----

/// An element that grows stays where it was at the point of it that its anchor names: at its near
/// edge without an anchor, and at its far edge with one of one.
pub proof fn growth_keeps_the_anchored_edge<R: Ruler<Fixed>>(
    st: Stage<R>,
    id: usize,
    parent: Box2<Fixed>,
    clip: Clip<Fixed>,
    depth: nat,
    laid_out: bool,
    offered: Box2<Fixed>,
)
    requires
        visited(st, id, parent, clip, depth, laid_out, offered).len() > 0,
        ({
            let r = visited(st, id, parent, clip, depth, laid_out, offered)[0].rect;
            let was = solved_rect(st, id, parent, laid_out);
            &&& 0 <= r.w.steps <= 0x100_0000_0000
            &&& 0 <= r.h.steps <= 0x100_0000_0000
            &&& roomy(was)
        }),
    ensures
        ({
            let r = visited(st, id, parent, clip, depth, laid_out, offered)[0].rect;
            let was = solved_rect(st, id, parent, laid_out);
            let a = pair_at::<Fixed, R>(st, id, "AnchorPoint"@);
            &&& r.w.steps >= was.w.steps && r.h.steps >= was.h.steps
            &&& a.x.steps == 0 && a.y.steps == 0 ==> r.x == was.x && r.y == was.y
            &&& a.x.steps == 65536 ==> r.x.steps + r.w.steps == was.x.steps + was.w.steps
            &&& a.y.steps == 65536 ==> r.y.steps + r.h.steps == was.y.steps + was.h.steps
        }),
{
    let was = solved_rect(st, id, parent, laid_out);
    let own = content(st, id, was);
    let spread = spread_in(st, id, own, inner_clip(st, id, was, clip), depth);
    let full = grown(st, id, was, spread.items, own, offered);
    growing_never_shrinks(st, id, was, spread.items, own, offered);
    let a = pair_at::<Fixed, R>(st, id, "AnchorPoint"@);
    head_is_regrown(st, id, parent, clip, depth, laid_out, offered);
    regrown_about(was, full, a);
}

/// A box that grew, moved back by what its anchor takes of the growth.
spec fn regrown<S: Scalar>(was: Box2<S>, full: Box2<S>, anchor: Pair<S>) -> Box2<S> {
    let wider = was.w.less(full.w);
    let higher = was.h.less(full.h);
    let dx = if wider {
        full.w.difference(was.w).product(anchor.x)
    } else {
        zero()
    };
    let dy = if higher {
        full.h.difference(was.h).product(anchor.y)
    } else {
        zero()
    };
    if (wider || higher) && (!dx.equal(zero()) || !dy.equal(zero())) {
        Box2 { x: was.x.difference(dx), y: was.y.difference(dy), w: full.w, h: full.h }
    } else {
        Box2 { x: was.x, y: was.y, w: full.w, h: full.h }
    }
}

proof fn head_is_regrown<S: Scalar, R: Ruler<S>>(
    st: Stage<R>,
    id: usize,
    parent: Box2<S>,
    clip: Clip<S>,
    depth: nat,
    laid_out: bool,
    offered: Box2<S>,
)
    requires
        visited(st, id, parent, clip, depth, laid_out, offered).len() > 0,
    ensures
        ({
            let was = solved_rect(st, id, parent, laid_out);
            let own = content(st, id, was);
            let spread = spread_in(st, id, own, inner_clip(st, id, was, clip), depth);
            let full = grown(st, id, was, spread.items, own, offered);
            visited(st, id, parent, clip, depth, laid_out, offered)[0].rect == regrown(
                was,
                full,
                pair_at::<S, R>(st, id, "AnchorPoint"@),
            )
        }),
{
}

proof fn regrown_about(was: Box2<Fixed>, full: Box2<Fixed>, a: Pair<Fixed>)
    requires
        roomy(was),
        was.w.steps <= full.w.steps <= 0x100_0000_0000,
        was.h.steps <= full.h.steps <= 0x100_0000_0000,
    ensures
        ({
            let r = regrown(was, full, a);
            &&& r.w == full.w && r.h == full.h
            &&& a.x.steps == 0 && a.y.steps == 0 ==> r.x == was.x && r.y == was.y
            &&& a.x.steps == 65536 ==> r.x.steps + r.w.steps == was.x.steps + was.w.steps
            &&& a.y.steps == 65536 ==> r.y.steps + r.h.steps == was.y.steps + was.h.steps
        }),
{
    let gw = full.w.difference(was.w);
    let gh = full.h.difference(was.h);
    let ws = gw.steps as int;
    let hs = gh.steps as int;
    assert(ws == full.w.steps - was.w.steps);
    assert(hs == full.h.steps - was.h.steps);
    assert((ws * 65536) / 65536 == ws) by (nonlinear_arith);
    assert((hs * 65536) / 65536 == hs) by (nonlinear_arith);
    assert(zero::<Fixed>().steps == 0);
    if a.x.steps == 65536 {
        assert(gw.product(a.x).steps == ws);
    }
    if a.y.steps == 65536 {
        assert(gh.product(a.y).steps == hs);
    }
    if a.x.steps == 0 {
        assert(gw.product(a.x).steps == 0);
    }
    if a.y.steps == 0 {
        assert(gh.product(a.y).steps == 0);
    }
}

// ---- the root ----

/// Everything under a root is placed in the whole surface, where the root has no padding: nothing
/// is cut off of the first level, and the first of a list starts in the corner.
pub proof fn the_root_offers_the_surface<R: Ruler<Fixed>>(
    st: Stage<R>,
    root: usize,
    surface: Box2<Fixed>,
)
    requires
        roomy(surface),
        modifier(st, root, "UIPadding"@) is None,
    ensures
        crate::layout::solution(st, root, surface) == placed_in(
            st,
            root,
            surface,
            Clip { area: None, radius: Fixed { steps: 0 } },
            0,
        ),
{
    let c = content(st, root, surface);
    assert(c.x == surface.x && c.y == surface.y && c.w == surface.w && c.h == surface.h);
    assert(zero::<Fixed>() == Fixed { steps: 0 });
}

// ---- shares ----

/// Is an element as long as some share of what it lies in, along one axis?
pub open spec fn takes_share<R>(st: Stage<R>, id: usize, across: bool) -> bool {
    property_at(st, id, "Size"@) matches Some(ValueView::UDim2(v)) && (if across {
        Fixed::of_single(v.x.scale).steps != 0
    } else {
        Fixed::of_single(v.y.scale).steps != 0
    })
}

/// Elements depend on an axis that changed where one of them takes a share of that axis.
pub proof fn who_depends_on_an_axis<R>(
    st: Stage<R>,
    items: Seq<SolvedItem<Fixed>>,
    x: bool,
    y: bool,
)
    ensures
        depends(st, items, x, y) <==> exists|i: int|
            #![trigger items[i]]
            0 <= i < items.len() && (x && takes_share(st, items[i].id, true) || y && takes_share(
                st,
                items[i].id,
                false,
            )),
{
    assert forall|i: int| 0 <= i < items.len() implies #[trigger] crate::layout::shares(
        st,
        items[i],
        x,
        y,
    ) == (x && takes_share(st, items[i].id, true) || y && takes_share(st, items[i].id, false)) by {
        assert(zero::<Fixed>().steps == 0);
    }
    if depends(st, items, x, y) {
        let i = choose|i: int|
            0 <= i < items.len() && #[trigger] crate::layout::shares(st, items[i], x, y);
        assert(x && takes_share(st, items[i].id, true) || y && takes_share(st, items[i].id, false));
    }
    if exists|i: int|
        #![trigger items[i]]
        0 <= i < items.len() && (x && takes_share(st, items[i].id, true) || y && takes_share(
            st,
            items[i].id,
            false,
        )) {
        let i = choose|i: int|
            #![trigger items[i]]
            0 <= i < items.len() && (x && takes_share(st, items[i].id, true) || y && takes_share(
                st,
                items[i].id,
                false,
            ));
        assert(crate::layout::shares(st, items[i], x, y));
    }
}

/// How far an element moves by its anchor as it grows along one axis.
spec fn drawn_back<S: Scalar>(was: S, is: S, anchor: S) -> S {
    if was.less(is) {
        is.difference(was).product(anchor)
    } else {
        zero()
    }
}

/// An element is as wide and as high as it has grown.
proof fn head_has_grown<S: Scalar, R: Ruler<S>>(
    st: Stage<R>,
    id: usize,
    parent: Box2<S>,
    clip: Clip<S>,
    depth: nat,
    laid_out: bool,
    offered: Box2<S>,
    rect: Box2<S>,
    own: Box2<S>,
    first: Seq<SolvedItem<S>>,
    full: Box2<S>,
)
    requires
        depth <= st.dom.slots.len(),
        bool_at(st, id, "Visible"@) != Some(false),
        !scrolls(st, id),
        rect == solved_rect(st, id, parent, laid_out),
        own == content(st, id, rect),
        first == placed_in(st, id, own, inner_clip(st, id, rect, clip), depth),
        full == grown(st, id, rect, first, own, offered),
    ensures
        visited(st, id, parent, clip, depth, laid_out, offered)[0].rect.w == full.w,
        visited(st, id, parent, clip, depth, laid_out, offered)[0].rect.h == full.h,
{
    assert(spread_in(st, id, own, inner_clip(st, id, rect, clip), depth).items == first);
}

/// What depends on an axis that grew is placed anew.
proof fn placed_again<S: Scalar, R: Ruler<S>>(
    st: Stage<R>,
    id: usize,
    parent: Box2<S>,
    clip: Clip<S>,
    depth: nat,
    laid_out: bool,
    offered: Box2<S>,
    rect: Box2<S>,
    own: Box2<S>,
    first: Seq<SolvedItem<S>>,
    full: Box2<S>,
)
    requires
        depth <= st.dom.slots.len(),
        bool_at(st, id, "Visible"@) != Some(false),
        !scrolls(st, id),
        rect == solved_rect(st, id, parent, laid_out),
        own == content(st, id, rect),
        first == placed_in(st, id, own, inner_clip(st, id, rect, clip), depth),
        full == grown(st, id, rect, first, own, offered),
        rect.w.less(full.w) || rect.h.less(full.h),
        depends(st, first, rect.w.less(full.w), rect.h.less(full.h)),
        depends(
            st,
            moved_back(
                first,
                drawn_back(rect.w, full.w, pair_at::<S, R>(st, id, "AnchorPoint"@).x),
                drawn_back(rect.h, full.h, pair_at::<S, R>(st, id, "AnchorPoint"@).y),
            ),
            rect.w.less(full.w),
            rect.h.less(full.h),
        ),
    ensures
        ({
            let all = visited(st, id, parent, clip, depth, laid_out, offered);
            all.skip(1) == placed_in(
                st,
                id,
                content(st, id, all[0].rect),
                inner_clip(st, id, rect, clip),
                depth,
            )
        }),
{
    assert(spread_in(st, id, own, inner_clip(st, id, rect, clip), depth).items == first);
    let all = visited(st, id, parent, clip, depth, laid_out, offered);
    let again = placed_in(
        st,
        id,
        content(st, id, all[0].rect),
        inner_clip(st, id, rect, clip),
        depth,
    );
    assert(all == seq![all[0]] + again);
    assert(all.skip(1) =~= again);
}

/// Where an element grew along an axis of which something in it takes a share, what is in it lies
/// where it would in an element that had been of that size from the start.
#[verifier::spinoff_prover]
pub proof fn a_share_is_of_what_has_grown<R: Ruler<Fixed>>(
    st: Stage<R>,
    id: usize,
    parent: Box2<Fixed>,
    clip: Clip<Fixed>,
    depth: nat,
    laid_out: bool,
    offered: Box2<Fixed>,
    i: int,
)
    requires
        depth <= st.dom.slots.len(),
        bool_at(st, id, "Visible"@) != Some(false),
        !scrolls(st, id),
        ({
            let rect = solved_rect(st, id, parent, laid_out);
            let first = placed_in(
                st,
                id,
                content(st, id, rect),
                inner_clip(st, id, rect, clip),
                depth,
            );
            let last = visited(st, id, parent, clip, depth, laid_out, offered)[0].rect;
            &&& 0 <= i < first.len()
            &&& rect.w.steps < last.w.steps && takes_share(st, first[i].id, true) || rect.h.steps
                < last.h.steps && takes_share(st, first[i].id, false)
        }),
    ensures
        ({
            let all = visited(st, id, parent, clip, depth, laid_out, offered);
            all.skip(1) == placed_in(
                st,
                id,
                content(st, id, all[0].rect),
                inner_clip(st, id, solved_rect(st, id, parent, laid_out), clip),
                depth,
            )
        }),
{
    let rect = solved_rect(st, id, parent, laid_out);
    let own = content(st, id, rect);
    let first = placed_in(st, id, own, inner_clip(st, id, rect, clip), depth);
    let full = grown(st, id, rect, first, own, offered);
    head_has_grown(st, id, parent, clip, depth, laid_out, offered, rect, own, first, full);
    let anchor = pair_at::<Fixed, R>(st, id, "AnchorPoint"@);
    let moved = moved_back(
        first,
        drawn_back(rect.w, full.w, anchor.x),
        drawn_back(rect.h, full.h, anchor.y),
    );
    assert(moved[i].id == first[i].id);
    shares_make_it_depend(st, first, i, rect.w.less(full.w), rect.h.less(full.h));
    shares_make_it_depend(st, moved, i, rect.w.less(full.w), rect.h.less(full.h));
    placed_again(st, id, parent, clip, depth, laid_out, offered, rect, own, first, full);
}

proof fn shares_make_it_depend<R>(
    st: Stage<R>,
    items: Seq<SolvedItem<Fixed>>,
    i: int,
    x: bool,
    y: bool,
)
    requires
        0 <= i < items.len(),
        x && takes_share(st, items[i].id, true) || y && takes_share(st, items[i].id, false),
    ensures
        depends(st, items, x, y),
{
    who_depends_on_an_axis(st, items, x, y);
}

/// Content that takes a share of its element, and less than all of it, reaches as far as its share
/// does, whether it is listed or not, where nothing is in it. What holds something and is not
/// listed reaches as far as that does, and its padding.
pub proof fn a_share_reaches_as_far_as_it_takes<R>(
    st: Stage<R>,
    item: SolvedItem<Fixed>,
    child: SolvedItem<Fixed>,
    base: Fixed,
    across: bool,
    listed: bool,
    scale: u32,
    offset: i32,
)
    requires
        property_at(st, item.id, "Size"@) matches Some(ValueView::UDim2(v)) && (if across {
            v.x.scale == scale && v.x.offset == offset
        } else {
            v.y.scale == scale && v.y.offset == offset
        }),
        0 < Fixed::of_single(scale).steps < 65536,
        roomy(item.rect),
        roomy(child.rect),
        0 <= base.steps <= 0x100_0000_0000,
        item.depth < usize::MAX,
        child.depth == item.depth + 1,
        fixed_along(st, child.id, across),
    ensures
        crate::layout::reach(st, seq![item], 1, Some(base), across, listed).edge.steps == starts_at(
            item.rect,
            across,
        ) + (base.steps * Fixed::of_single(scale).steps) / 65536 + offset * 65536,
        crate::layout::reach(st, seq![item], 1, None, across, listed).edge.steps == starts_at(
            item.rect,
            across,
        ) + offset * 65536,
        crate::layout::reach(st, seq![item, child], 2, Some(base), across, false).edge == {
            let pad = crate::layout::padding::<Fixed, R>(st, item.id);
            child.rect.x.sum(child.rect.w).sum(zero::<Fixed>().sum(pad.right))
        } || !across,
        crate::layout::reach(st, seq![item, child], 2, Some(base), across, false).edge == {
            let pad = crate::layout::padding::<Fixed, R>(st, item.id);
            child.rect.y.sum(child.rect.h).sum(zero::<Fixed>().sum(pad.bottom))
        } || across,
{
    reveal_with_fuel(crate::layout::reach, 3);
    let share = Fixed::of_single(scale);
    assert(zero::<Fixed>().steps == 0);
    assert(crate::layout::one::<Fixed>().steps == 65536);
    assert(Fixed::of_int(offset as i128).steps == offset * 65536);
    small_product(share.steps as int, base.steps as int);
    assert(base.steps * share.steps == share.steps * base.steps) by (nonlinear_arith);
    assert(base.product(share).steps == (base.steps * share.steps) / 65536);
    let alone = seq![item];
    assert(alone[0] == item);
    let both = seq![item, child];
    assert(both[0] == item && both[1] == child);
}

} // verus!
