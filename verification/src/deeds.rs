//! What can be said of what is told to whom when something happens, whatever steps it takes.

use crate::agenda::{turn, Agenda, ArgView, CallView, InputObject, InputState, InputType, StepView};
use crate::collection::{get_service, get_tagged, get_tags, has_tag, stripped, tagged, Service};
use crate::connection::{connection, Signal};
use crate::dom::Dom;
use crate::fault::Fault;
use crate::operations::{
    arrived, capture_focus, clear_all_children, destroy, leaving, on_destroy, property_changed,
    release_focus,
};
use crate::signal::KindView;
use crate::text::views;
use crate::tree::DomView;
use crate::world::WorldView;
use vstd::prelude::*;

verus! {

// ---- telling ----

/// A fired event is a call for each who listens to it, in the order of connecting, with what it was
/// fired with; and a call is of the function that was connected, as long as it is.
pub proof fn a_listener_is_called_with_what_was_fired(
    w: WorldView,
    to: usize,
    kind: KindView,
    arg: ArgView,
    i: int,
    conn: usize,
)
    requires
        0 <= i < w.dom.listeners(to, kind).len(),
    ensures
        ({
            let t = turn(w, StepView::Fire { to, kind, arg });
            &&& t.world == w && t.call is None && t.fault is None
            &&& t.steps.len() == w.dom.listeners(to, kind).len()
            &&& t.steps[i] == (StepView::Call { conn: w.dom.listeners(to, kind)[i], kind, arg })
        }),
        ({
            let t = turn(w, StepView::Call { conn, kind, arg });
            &&& t.world == w && t.steps.len() == 0 && t.fault is None
            &&& w.dom.handler(conn) matches Some(f) ==> t.call == Some(
                CallView { function: f, kind, arg },
            )
            &&& w.dom.handler(conn) is None ==> t.call is None
        }),
{
}

/// Who listens to an event of an instance are the connections of that instance to that event, in
/// the order in which they were connected.
pub proof fn who_listens(v: DomView, id: usize, kind: KindView, conn: usize)
    requires
        v.sound(),
        v.alive(id),
    ensures
        v.listeners(id, kind).contains(conn) == (conn < v.handlers.len() && v.handlers[conn as int] is Some
            && v.handlers[conn as int]->0.instance == id && v.handlers[conn as int]->0.kind
            == kind),
{
    let all = v.node(id).connections;
    let hears = v.hears(kind);
    if v.listeners(id, kind).contains(conn) {
        all.lemma_filter_contains_rev(hears, conn);
        let k = choose|k: int|
            0 <= k < v.listeners(id, kind).len() && v.listeners(id, kind)[k] == conn;
        all.lemma_filter_pred(hears, k);
        let m = choose|m: int| 0 <= m < all.len() && all[m] == conn;
        assert(v.node(id).connections[m] == conn);
    }
    if conn < v.handlers.len() && v.handlers[conn as int] is Some
        && v.handlers[conn as int]->0.instance == id && v.handlers[conn as int]->0.kind == kind {
        assert(v.node(id).connections.contains(conn));
        let m = choose|m: int| 0 <= m < all.len() && all[m] == conn;
        assert(hears(conn));
        all.lemma_filter_contains(hears, m);
    }
}

/// A function that is connected listens last to that event of that instance, and to no other event.
pub proof fn a_new_listener_comes_last(v: DomView, id: usize, kind: KindView, function: u64)
    requires
        v.sound(),
        v.alive(id),
        v.handlers.len() < usize::MAX,
    ensures
        connection(v, id, kind, function) is Ok,
        ({
            let (w, conn) = connection(v, id, kind, function)->Ok_0;
            &&& conn == v.handlers.len()
            &&& w.handlers.len() == v.handlers.len() + 1
            &&& w.handlers[conn as int] is Some
            &&& w.handlers[conn as int]->0.instance == id
            &&& w.handlers[conn as int]->0.kind == kind
            &&& w.handlers[conn as int]->0.function == function
            &&& w.node(id).connections == v.node(id).connections.push(conn as usize)
        }),
{
}

/// Nothing is connected to an instance that is gone.
pub proof fn what_is_gone_has_no_listeners(v: DomView, id: usize, kind: KindView, function: u64)
    requires
        !v.alive(id),
    ensures
        connection(v, id, kind, function) is Err,
        v.listeners(id, kind).len() == 0,
{
}

/// Two descriptions of an event are the same exactly if they are of one instance and one event.
pub proof fn events_are_the_same_by_what_they_describe(a: Signal, b: Signal, arena: bool, r: bool)
    requires
        call_ensures(Signal::is_same, (&a, &b, arena), r),
    ensures
        r == (arena && a.id == b.id && a.kind@ == b.kind@),
{
}

// ---- changes of the tree ----

/// An instance that is about to leave is told of to everyone above it, it and everything under it,
/// as a descendant that goes, and at last to its parent as a child that was removed; one without a
/// parent is told of to nobody.
pub proof fn leaving_is_told_upwards(w: WorldView, id: usize, p: usize, i: int)
    requires
        w.dom.parent(id) == Some(p),
        0 <= i < w.dom.subtree(id).len(),
    ensures
        ({
            let t = turn(w, StepView::Leaving { id });
            let n = w.dom.subtree(id).len() as int;
            &&& t.world == w && t.call is None && t.fault is None
            &&& t.steps.len() == n + 1
            &&& t.steps[i] == (StepView::Tell {
                node: w.dom.subtree(id)[i],
                uphill: w.dom.ancestors(id),
                kind: KindView::DescendantRemoving,
            })
            &&& t.steps[n] == (StepView::Notice {
                parent: p,
                child: id,
                kind: KindView::ChildRemoved,
            })
        }),
{
}

/// An instance that got a parent is told of to that parent as a child that was added, and after that
/// to everyone above it, it and everything under it, as a descendant that was added.
pub proof fn arriving_is_told_upwards(w: WorldView, id: usize, p: usize, i: int)
    requires
        w.dom.parent(id) == Some(p),
        0 <= i < w.dom.subtree(id).len(),
    ensures
        turn(w, StepView::Arrived { id }).steps == seq![
            StepView::Notice { parent: p, child: id, kind: KindView::ChildAdded },
            StepView::Uphill { id },
        ],
        turn(w, StepView::Uphill { id }).steps.len() == w.dom.subtree(id).len(),
        turn(w, StepView::Uphill { id }).steps[i] == (StepView::Tell {
            node: w.dom.subtree(id)[i],
            uphill: w.dom.ancestors(id),
            kind: KindView::DescendantAdded,
        }),
{
}

/// Nothing is told of an instance that has no parent, neither when it leaves nor when it arrives.
pub proof fn nobody_is_told_of_what_stands_alone(w: WorldView, id: usize)
    requires
        w.dom.parent(id) is None,
    ensures
        turn(w, StepView::Leaving { id }).steps.len() == 0,
        turn(w, StepView::Arrived { id }).steps.len() == 0,
{
}

/// Everyone of a list is told of an instance by that event, the closest first, as long as the
/// instance is there; and a parent is told of a child as long as both are.
pub proof fn ancestors_are_told_closest_first(
    w: WorldView,
    node: usize,
    uphill: Seq<usize>,
    kind: KindView,
    i: int,
    p: usize,
    c: usize,
)
    requires
        0 <= i < uphill.len(),
    ensures
        w.dom.alive(node) ==> turn(w, StepView::Tell { node, uphill, kind }).steps.len()
            == uphill.len(),
        w.dom.alive(node) ==> turn(w, StepView::Tell { node, uphill, kind }).steps[i] == (
        StepView::FireAlive { to: uphill[i], kind, arg: ArgView::Instance(node) }),
        !w.dom.alive(node) ==> turn(w, StepView::Tell { node, uphill, kind }).steps.len() == 0,
        w.dom.alive(p) && w.dom.alive(c) ==> turn(
            w,
            StepView::Notice { parent: p, child: c, kind },
        ).steps == seq![StepView::Fire { to: p, kind, arg: ArgView::Instance(c) }],
        !w.dom.alive(p) || !w.dom.alive(c) ==> turn(
            w,
            StepView::Notice { parent: p, child: c, kind },
        ).steps.len() == 0,
{
}

/// A move puts the instance under its new parent and then tells of its arrival and of the change;
/// one that the tree does not allow changes nothing and is refused.
pub proof fn a_move_is_told(w: WorldView, id: usize, p: usize)
    requires
        w.dom.sound(),
        w.dom.alive(id),
    ensures
        ({
            let t = turn(w, StepView::Move { id, under: Some(p) });
            let allowed = w.dom.alive(p) && !w.dom.at_or_above(id, p);
            &&& t.fault is None == allowed
            &&& !allowed ==> t.world == w && t.steps.len() == 0
            &&& allowed ==> t.steps == seq![
                StepView::Arrived { id },
                StepView::Changed { id, name: "Parent"@ },
            ]
            &&& allowed ==> t.world.dom.parent(id) == Some(p)
            &&& allowed ==> t.world.dom.kids(p).len() > 0 && t.world.dom.kids(p).last() == id
        }),
{
    crate::tree::unparented_keeps(w.dom, id);
}

/// A changed property is told of first by its own event, and then by the event of any change with
/// its name.
pub proof fn a_change_is_told_twice(w: WorldView, id: usize, name: Seq<char>)
    ensures
        turn(w, StepView::Changed { id, name }).steps == seq![
            StepView::Fire {
                to: id,
                kind: KindView::PropertyChanged(name),
                arg: ArgView::Nothing,
            },
            StepView::Fire { to: id, kind: KindView::Changed, arg: ArgView::Name(name) },
        ],
        turn(w, StepView::Changed { id, name }).world == w,
{
}

/// What is destroyed is told of it, with everything under it, each before what is under it, before
/// anything is freed; then it leaves, and then it is freed.
pub proof fn a_destruction_is_told_first(w: WorldView, id: usize, i: int)
    requires
        0 <= i < w.dom.subtree(id).len(),
    ensures
        ({
            let t = turn(w, StepView::Destroy { id });
            let n = w.dom.subtree(id).len() as int;
            &&& t.world == w
            &&& t.steps.len() == n + 1
            &&& t.steps[i] == (StepView::Destroying { id: w.dom.subtree(id)[i] })
            &&& t.steps[n] == (StepView::Rest { id })
        }),
        w.dom.alive(id) ==> turn(w, StepView::Destroying { id }).steps == seq![
            StepView::Fire { to: id, kind: KindView::Destroying, arg: ArgView::Nothing },
            StepView::Forget { id },
        ],
        w.dom.alive(id) ==> turn(w, StepView::Rest { id }).steps == seq![
            StepView::Leaving { id },
            StepView::Free { id },
        ],
        !w.dom.alive(id) ==> turn(w, StepView::Rest { id }).steps.len() == 0,
        !w.dom.alive(id) ==> turn(w, StepView::Clear { id }).steps.len() == 0,
        w.dom.alive(id) ==> turn(w, StepView::Clear { id }).steps == seq![StepView::Destroy { id }],
{
}

/// Whatever is forgotten of an instance, what is kept of every other stays.
pub proof fn only_the_one_is_forgotten(w: WorldView, id: usize, other: usize, tag: Seq<char>)
    requires
        other != id,
    ensures
        ({
            let t = turn(w, StepView::Forget { id }).world;
            &&& t.focus != Some(id)
            &&& w.focus == Some(other) ==> t.focus == Some(other)
            &&& !t.impulses.contains_key(id)
            &&& t.impulses.contains_key(other) == w.impulses.contains_key(other)
            &&& w.impulses.contains_key(other) ==> t.impulses[other] == w.impulses[other]
            &&& !t.dom.tags.contains((tag, id))
            &&& t.dom.tags.contains((tag, other)) == w.dom.tags.contains((tag, other))
        }),
{
}

// ---- the focus ----

/// The focus that is given up is nobody's, and who had it is told whether by the enter key; who has
/// not got it gives nothing up.
pub proof fn giving_the_focus_up_is_told(w: WorldView, id: usize, entered: bool)
    ensures
        w.focus == Some(id) ==> turn(w, StepView::Release { id, entered }).steps == seq![
            StepView::Lose { id, entered },
        ],
        w.focus != Some(id) ==> turn(w, StepView::Release { id, entered }).steps.len() == 0,
        turn(w, StepView::Lose { id, entered }).world.focus is None,
        turn(w, StepView::Lose { id, entered }).steps == seq![
            StepView::Fire { to: id, kind: KindView::FocusLost, arg: ArgView::Bool(entered) },
        ],
        turn(w, StepView::Take { id }).world.focus == Some(id),
        turn(w, StepView::Take { id }).steps == seq![
            StepView::Fire { to: id, kind: KindView::Focused, arg: ArgView::Nothing },
        ],
        turn(w, StepView::TakeAlive { id }).steps.len() > 0 <==> w.dom.alive(id),
{
}

// ---- operations ----

/// Each operation begins with its own step.
pub proof fn operations_begin_with_their_step(
    id: usize,
    entered: bool,
    property: &str,
    a: Agenda,
    b: Agenda,
    c: Agenda,
    d: Agenda,
    e: Agenda,
    f: Agenda,
    g: Agenda,
)
    requires
        call_ensures(leaving, (id,), a),
        call_ensures(arrived, (id,), b),
        call_ensures(destroy, (id,), c),
        call_ensures(capture_focus, (id,), d),
        call_ensures(release_focus, (id, entered), e),
        call_ensures(on_destroy, (id,), f),
        call_ensures(property_changed, (id, property), g),
    ensures
        a@ == seq![StepView::Leaving { id }],
        b@ == seq![StepView::Arrived { id }],
        c@ == seq![StepView::Destroy { id }],
        d@ == seq![StepView::Capture { id }],
        e@ == seq![StepView::Release { id, entered }],
        f@ == seq![StepView::Forget { id }],
        g@ == seq![StepView::Changed { id, name: property@ }],
{
}

/// Clearing an instance destroys each of its children, in their order.
pub proof fn clearing_destroys_each_child(dom: Dom, id: usize, r: Result<Agenda, Fault>, i: int)
    requires
        call_ensures(clear_all_children, (&dom, id), r),
        dom@.alive(id),
        0 <= i < dom@.kids(id).len(),
    ensures
        r is Ok,
        r->Ok_0@.len() == dom@.kids(id).len(),
        r->Ok_0@[i] == (StepView::Clear { id: dom@.kids(id)[i] }),
{
}

// ---- tags ----

/// A tag that is new on an instance is there then and is told of by the event of that tag; nothing
/// else of the instances changes but that a repaint is owed and that the service is there.
pub proof fn a_new_tag_is_told(v: DomView, id: usize, tag: Seq<char>, s: usize)
    requires
        !v.tags.contains((tag, id)),
        v.service == Some(s),
    ensures
        ({
            let (w, steps) = tagged(v, id, tag);
            &&& w.tags == v.tags.insert((tag, id))
            &&& w.slots == v.slots && w.handlers == v.handlers && w.dirty
            &&& steps == seq![
                StepView::Fire { to: s, kind: KindView::TagAdded(tag), arg: ArgView::Instance(id) },
            ]
        }),
{
}

/// A tag that was there is gone then and is told of by the event of that tag.
pub proof fn a_lost_tag_is_told(v: DomView, id: usize, tag: Seq<char>, s: usize)
    requires
        v.tags.contains((tag, id)),
        v.service == Some(s),
    ensures
        ({
            let (w, steps) = stripped(v, id, tag);
            &&& w.tags == v.tags.remove((tag, id))
            &&& w.slots == v.slots && w.handlers == v.handlers && w.dirty
            &&& steps == seq![
                StepView::Fire {
                    to: s,
                    kind: KindView::TagRemoved(tag),
                    arg: ArgView::Instance(id),
                },
            ]
        }),
{
}

/// Asked for an instance or for a tag, the service tells the same: an instance holds a tag exactly
/// if the tag lists the instance and the instance lists the tag.
pub proof fn tags_and_instances_agree(
    dom: Dom,
    id: usize,
    tag: &str,
    has: Result<bool, Fault>,
    with: Vec<usize>,
    of: Result<Vec<String>, Fault>,
)
    requires
        dom@.alive(id),
        call_ensures(has_tag, (&dom, id, tag), has),
        call_ensures(get_tagged, (&dom, tag), with),
        call_ensures(get_tags, (&dom, id), of),
    ensures
        has is Ok && of is Ok,
        has->Ok_0 == with@.contains(id),
        has->Ok_0 == views(of->Ok_0@).contains(tag@),
        has->Ok_0 == dom@.tags.contains((tag@, id)),
{
}

/// There is one service.
pub proof fn there_is_one_service(name: &str, r: Result<Service, Fault>)
    requires
        call_ensures(get_service, (name,), r),
    ensures
        r is Ok == (name@ == "CollectionService"@),
{
}

// ---- input events ----

/// Input types and states print by their own names.
pub proof fn input_events_print_by_name(o: InputObject, r: String)
    requires
        call_ensures(InputObject::text, (&o,), r),
    ensures
        ({
            let kind = match o.user_input_type {
                InputType::MouseButton1 => "MouseButton1"@,
                InputType::MouseButton2 => "MouseButton2"@,
                InputType::MouseButton3 => "MouseButton3"@,
                InputType::MouseMovement => "MouseMovement"@,
                InputType::MouseWheel => "MouseWheel"@,
            };
            let state = match o.user_input_state {
                InputState::Begin => "Begin"@,
                InputState::Change => "Change"@,
                InputState::End => "End"@,
            };
            r@ == "InputObject "@ + kind + " "@ + state
        }),
{
}

} // verus!
