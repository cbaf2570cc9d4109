//! The course of a whole operation, where the handlers that it calls leave everything alone.

use crate::agenda::{
    call_step, destroying_step, forgotten, freed, tag_list, tell_step, turn, untag_step, with_dom,
    with_focus, ArgView, CallView, StepView,
};
use crate::dom::parent_refusal;
use crate::signal::KindView;
use crate::tree::{
    destroyed_keeps, same_shape, shape_keeps_ancestors, subtree_members, DomView,
};
use crate::world::WorldView;
use vstd::prelude::*;

verus! {

/// The call of a turn, as a list.
pub open spec fn call_list(call: Option<CallView>) -> Seq<CallView> {
    match call {
        Some(c) => seq![c],
        None => Seq::empty(),
    }
}

/// The world after all steps, and the calls on the way, where no call changes anything; nothing
/// where a step is refused or the turns do not suffice.
pub open spec fn run(w: WorldView, steps: Seq<StepView>, turns: nat) -> Option<
    (WorldView, Seq<CallView>),
>
    decreases turns,
{
    if steps.len() == 0 {
        Some((w, Seq::empty()))
    } else if turns == 0 {
        None
    } else {
        let t = turn(w, steps[0]);
        if t.fault is Some {
            None
        } else {
            match run(t.world, t.steps + steps.skip(1), (turns - 1) as nat) {
                None => None,
                Some((end, calls)) => Some((end, call_list(t.call) + calls)),
            }
        }
    }
}

/// Do the steps lead from one world to another, with these calls on the way?
pub open spec fn leads(
    w: WorldView,
    steps: Seq<StepView>,
    end: WorldView,
    calls: Seq<CallView>,
) -> bool {
    exists|turns: nat| #[trigger] run(w, steps, turns) == Some((end, calls))
}

/// One list of steps and then another.
proof fn run_on(
    w: WorldView,
    a: Seq<StepView>,
    b: Seq<StepView>,
    mid: WorldView,
    end: WorldView,
    c1: Seq<CallView>,
    c2: Seq<CallView>,
    n: nat,
    m: nat,
)
    requires
        run(w, a, n) == Some((mid, c1)),
        run(mid, b, m) == Some((end, c2)),
    ensures
        run(w, a + b, n + m) == Some((end, c1 + c2)),
    decreases n,
{
    if a.len() == 0 {
        assert(a + b =~= b);
        assert(c1 + c2 =~= c2);
        run_longer(w, b, m, n);
    } else {
        let t = turn(w, a[0]);
        let rest = t.steps + a.skip(1);
        let (mid2, c3) = run(t.world, rest, (n - 1) as nat)->0;
        run_on(t.world, rest, b, mid, end, c3, c2, (n - 1) as nat, m);
        assert((a + b)[0] == a[0]);
        assert((a + b).skip(1) =~= a.skip(1) + b);
        assert(t.steps + (a + b).skip(1) =~= rest + b);
        assert(call_list(t.call) + (c3 + c2) =~= call_list(t.call) + c3 + c2);
    }
}

proof fn run_longer(w: WorldView, steps: Seq<StepView>, n: nat, more: nat)
    requires
        run(w, steps, n) is Some,
    ensures
        run(w, steps, n + more) == run(w, steps, n),
    decreases n,
{
    if steps.len() > 0 {
        let t = turn(w, steps[0]);
        run_longer(t.world, t.steps + steps.skip(1), (n - 1) as nat, more);
    }
}

/// One course after another is a course.
pub proof fn leads_on(
    w: WorldView,
    a: Seq<StepView>,
    mid: WorldView,
    c1: Seq<CallView>,
    b: Seq<StepView>,
    end: WorldView,
    c2: Seq<CallView>,
)
    requires
        leads(w, a, mid, c1),
        leads(mid, b, end, c2),
    ensures
        leads(w, a + b, end, c1 + c2),
{
    let n = choose|n: nat| #[trigger] run(w, a, n) == Some((mid, c1));
    let m = choose|m: nat| #[trigger] run(mid, b, m) == Some((end, c2));
    run_on(w, a, b, mid, end, c1, c2, n, m);
}

/// A step leads where the steps in its place lead.
proof fn leads_by(w: WorldView, step: StepView, end: WorldView, calls: Seq<CallView>)
    requires
        turn(w, step).fault is None,
        leads(turn(w, step).world, turn(w, step).steps, end, calls),
    ensures
        leads(w, seq![step], end, call_list(turn(w, step).call) + calls),
{
    let t = turn(w, step);
    let n = choose|n: nat| #[trigger] run(t.world, t.steps, n) == Some((end, calls));
    assert(seq![step].skip(1) =~= Seq::empty());
    assert(t.steps + seq![step].skip(1) =~= t.steps);
    assert(run(w, seq![step], n + 1) == Some((end, call_list(t.call) + calls)));
}

proof fn leads_nowhere(w: WorldView)
    ensures
        leads(w, Seq::empty(), w, Seq::empty()),
{
    assert(run(w, Seq::empty(), 0) == Some((w, Seq::<CallView>::empty())));
}

/// The calls of the listeners to an event.
pub open spec fn calls_to(v: DomView, conns: Seq<usize>, kind: KindView, arg: ArgView) -> Seq<
    CallView,
> {
    conns.map_values(|c: usize| CallView { function: v.handler(c)->0, kind, arg })
}

proof fn call_all(w: WorldView, conns: Seq<usize>, kind: KindView, arg: ArgView)
    requires
        forall|i: int| 0 <= i < conns.len() ==> w.dom.handler(#[trigger] conns[i]) is Some,
    ensures
        leads(
            w,
            conns.map_values(call_step(kind, arg)),
            w,
            calls_to(w.dom, conns, kind, arg),
        ),
    decreases conns.len(),
{
    let steps = conns.map_values(call_step(kind, arg));
    if conns.len() == 0 {
        leads_nowhere(w);
        assert(steps =~= Seq::empty());
        assert(calls_to(w.dom, conns, kind, arg) =~= Seq::empty());
    } else {
        let rest = conns.skip(1);
        assert forall|i: int| 0 <= i < rest.len() implies w.dom.handler(#[trigger] rest[i]) is Some by {
            assert(rest[i] == conns[i + 1]);
        }
        call_all(w, rest, kind, arg);
        let first = StepView::Call { conn: conns[0], kind, arg };
        leads_nowhere(w);
        leads_by(w, first, w, Seq::empty());
        assert(steps =~= seq![first] + rest.map_values(call_step(kind, arg)));
        let c = call_list(turn(w, first).call) + Seq::<CallView>::empty();
        leads_on(
            w,
            seq![first],
            w,
            c,
            rest.map_values(call_step(kind, arg)),
            w,
            calls_to(w.dom, rest, kind, arg),
        );
        assert(c + calls_to(w.dom, rest, kind, arg) =~= calls_to(w.dom, conns, kind, arg));
    }
}

/// A fired event calls everyone who listens to it on that instance, once, in the order of
/// connecting, and nothing else.
pub proof fn an_event_calls_its_listeners(
    w: WorldView,
    to: usize,
    kind: KindView,
    arg: ArgView,
)
    ensures
        leads(
            w,
            seq![StepView::Fire { to, kind, arg }],
            w,
            calls_to(w.dom, w.dom.listeners(to, kind), kind, arg),
        ),
{
    let conns = w.dom.listeners(to, kind);
    let step = StepView::Fire { to, kind, arg };
    assert forall|i: int| 0 <= i < conns.len() implies w.dom.handler(#[trigger] conns[i]) is Some by {
        w.dom.node(to).connections.lemma_filter_pred(w.dom.hears(kind), i);
    }
    call_all(w, conns, kind, arg);
    leads_by(w, step, w, calls_to(w.dom, conns, kind, arg));
    assert(call_list(turn(w, step).call) + calls_to(w.dom, conns, kind, arg) =~= calls_to(
        w.dom,
        conns,
        kind,
        arg,
    ));
}

/// A changed property is told to those who listen to it, and then to those who listen to any
/// change, with its name.
pub proof fn the_narrow_event_comes_first(w: WorldView, id: usize, name: Seq<char>)
    ensures
        leads(
            w,
            seq![StepView::Changed { id, name }],
            w,
            calls_to(
                w.dom,
                w.dom.listeners(id, KindView::PropertyChanged(name)),
                KindView::PropertyChanged(name),
                ArgView::Nothing,
            ) + calls_to(
                w.dom,
                w.dom.listeners(id, KindView::Changed),
                KindView::Changed,
                ArgView::Name(name),
            ),
        ),
{
    let narrow = KindView::PropertyChanged(name);
    let a = StepView::Fire { to: id, kind: narrow, arg: ArgView::Nothing };
    let b = StepView::Fire { to: id, kind: KindView::Changed, arg: ArgView::Name(name) };
    let ca = calls_to(w.dom, w.dom.listeners(id, narrow), narrow, ArgView::Nothing);
    let cb = calls_to(
        w.dom,
        w.dom.listeners(id, KindView::Changed),
        KindView::Changed,
        ArgView::Name(name),
    );
    an_event_calls_its_listeners(w, id, narrow, ArgView::Nothing);
    an_event_calls_its_listeners(w, id, KindView::Changed, ArgView::Name(name));
    leads_on(w, seq![a], w, ca, seq![b], w, cb);
    assert(seq![a] + seq![b] =~= seq![a, b]);
    let step = StepView::Changed { id, name };
    leads_by(w, step, w, ca + cb);
    assert(call_list(turn(w, step).call) + (ca + cb) =~= ca + cb);
}

/// Do the steps lead back to the same world, whatever is called on the way?
pub open spec fn quiet(w: WorldView, steps: Seq<StepView>) -> bool {
    exists|calls: Seq<CallView>| leads(w, steps, w, calls)
}

proof fn quiet_on(w: WorldView, a: Seq<StepView>, b: Seq<StepView>)
    requires
        quiet(w, a),
        quiet(w, b),
    ensures
        quiet(w, a + b),
{
    let c1 = choose|c: Seq<CallView>| leads(w, a, w, c);
    let c2 = choose|c: Seq<CallView>| leads(w, b, w, c);
    leads_on(w, a, w, c1, b, w, c2);
    assert(leads(w, a + b, w, c1 + c2));
}

proof fn quiet_by(w: WorldView, step: StepView)
    requires
        turn(w, step).fault is None,
        turn(w, step).world == w,
        quiet(w, turn(w, step).steps),
    ensures
        quiet(w, seq![step]),
{
    let c = choose|c: Seq<CallView>| leads(w, turn(w, step).steps, w, c);
    leads_by(w, step, w, c);
}

proof fn quiet_nothing(w: WorldView)
    ensures
        quiet(w, Seq::empty()),
{
    leads_nowhere(w);
}

proof fn quiet_fire(w: WorldView, to: usize, kind: KindView, arg: ArgView)
    ensures
        quiet(w, seq![StepView::Fire { to, kind, arg }]),
        quiet(w, seq![StepView::FireAlive { to, kind, arg }]),
{
    an_event_calls_its_listeners(w, to, kind, arg);
    assert(leads(
        w,
        seq![StepView::Fire { to, kind, arg }],
        w,
        calls_to(w.dom, w.dom.listeners(to, kind), kind, arg),
    ));
    quiet_nothing(w);
    quiet_by(w, StepView::FireAlive { to, kind, arg });
}

/// A list of steps each of which is quiet.
proof fn quiet_all(w: WorldView, steps: Seq<StepView>)
    requires
        forall|i: int| 0 <= i < steps.len() ==> quiet(w, seq![#[trigger] steps[i]]),
    ensures
        quiet(w, steps),
    decreases steps.len(),
{
    if steps.len() == 0 {
        assert(steps =~= Seq::empty());
        quiet_nothing(w);
    } else {
        let rest = steps.skip(1);
        assert forall|i: int| 0 <= i < rest.len() implies quiet(w, seq![#[trigger] rest[i]]) by {
            assert(rest[i] == steps[i + 1]);
        }
        quiet_all(w, rest);
        assert(quiet(w, seq![steps[0]]));
        quiet_on(w, seq![steps[0]], rest);
        assert(seq![steps[0]] + rest =~= steps);
    }
}

proof fn quiet_tell(w: WorldView, node: usize, uphill: Seq<usize>, kind: KindView)
    ensures
        quiet(w, seq![StepView::Tell { node, uphill, kind }]),
{
    let step = StepView::Tell { node, uphill, kind };
    let steps = turn(w, step).steps;
    assert forall|i: int| 0 <= i < steps.len() implies quiet(w, seq![#[trigger] steps[i]]) by {
        quiet_fire(w, uphill[i], kind, ArgView::Instance(node));
    }
    quiet_all(w, steps);
    quiet_by(w, step);
}

proof fn quiet_notice(w: WorldView, parent: usize, child: usize, kind: KindView)
    ensures
        quiet(w, seq![StepView::Notice { parent, child, kind }]),
{
    quiet_fire(w, parent, kind, ArgView::Instance(child));
    quiet_nothing(w);
    quiet_by(w, StepView::Notice { parent, child, kind });
}

/// To tell of a departure or of an arrival changes nothing by itself.
pub proof fn notices_change_nothing(w: WorldView, id: usize)
    ensures
        quiet(w, seq![StepView::Leaving { id }]),
        quiet(w, seq![StepView::Arrived { id }]),
{
    let up = w.dom.ancestors(id);
    let leaving = turn(w, StepView::Leaving { id }).steps;
    assert forall|i: int| 0 <= i < leaving.len() implies quiet(w, seq![#[trigger] leaving[i]]) by {
        let under = w.dom.subtree(id);
        if i < under.len() {
            assert(leaving[i] == tell_step(up, KindView::DescendantRemoving)(under[i]));
            quiet_tell(w, under[i], up, KindView::DescendantRemoving);
        } else {
            quiet_notice(w, w.dom.parent(id)->0, id, KindView::ChildRemoved);
        }
    }
    quiet_all(w, leaving);
    quiet_by(w, StepView::Leaving { id });

    let uphill = turn(w, StepView::Uphill { id }).steps;
    assert forall|i: int| 0 <= i < uphill.len() implies quiet(w, seq![#[trigger] uphill[i]]) by {
        let under = w.dom.subtree(id);
        assert(uphill[i] == tell_step(up, KindView::DescendantAdded)(under[i]));
        quiet_tell(w, under[i], up, KindView::DescendantAdded);
    }
    quiet_all(w, uphill);
    quiet_by(w, StepView::Uphill { id });
    quiet_nothing(w);
    if w.dom.parent(id) is Some {
        let p = w.dom.parent(id)->0;
        quiet_notice(w, p, id, KindView::ChildAdded);
        let a = StepView::Notice { parent: p, child: id, kind: KindView::ChildAdded };
        quiet_on(w, seq![a], seq![StepView::Uphill { id }]);
        assert(seq![a] + seq![StepView::Uphill { id }] =~= seq![a, StepView::Uphill { id }]);
    }
    quiet_by(w, StepView::Arrived { id });
}

/// A move that is not refused puts the instance where it was to go, and tells before and after.
pub proof fn a_move_arrives(w: WorldView, id: usize, parent: Option<usize>)
    requires
        parent_refusal(w.dom, id, parent) is None,
    ensures
        exists|calls: Seq<CallView>|
            leads(
                w,
                seq![StepView::Leaving { id }, StepView::Move { id, under: parent }],
                with_dom(w, w.dom.reparented(id, parent)),
                calls,
            ),
{
    let end = with_dom(w, w.dom.reparented(id, parent));
    notices_change_nothing(w, id);
    notices_change_nothing(end, id);
    the_narrow_event_comes_first(end, id, "Parent"@);
    let told = StepView::Changed { id, name: "Parent"@ };
    let arrived = StepView::Arrived { id };
    assert(quiet(end, seq![told]));
    quiet_on(end, seq![arrived], seq![told]);
    assert(seq![arrived] + seq![told] =~= seq![arrived, told]);
    let c2 = choose|c: Seq<CallView>| leads(end, seq![arrived, told], end, c);
    let step = StepView::Move { id, under: parent };
    leads_by(w, step, end, c2);
    let c3 = call_list(turn(w, step).call) + c2;
    let c1 = choose|c: Seq<CallView>| leads(w, seq![StepView::Leaving { id }], w, c);
    leads_on(w, seq![StepView::Leaving { id }], w, c1, seq![step], end, c3);
    assert(seq![StepView::Leaving { id }] + seq![step] =~= seq![StepView::Leaving { id }, step]);
    assert(leads(w, seq![StepView::Leaving { id }, step], end, c1 + c3));
}

// ---- destruction ----

/// The world without the focus, the impulses and the tags of every instance of a list.
pub open spec fn forgotten_all(w: WorldView, list: Seq<usize>) -> WorldView
    decreases list.len(),
{
    if list.len() == 0 {
        w
    } else {
        forgotten_all(forgotten(w, list[0]), list.skip(1))
    }
}

/// What forgetting leaves alone, and what it takes.
proof fn forgetting(w: WorldView, list: Seq<usize>)
    requires
        w.dom.sound(),
    ensures
        forgotten_all(w, list).dom.sound(),
        forgotten_all(w, list).dom.slots == w.dom.slots,
        forgotten_all(w, list).dom.handlers == w.dom.handlers,
        forgotten_all(w, list).dom.service == w.dom.service,
        forgotten_all(w, list).dom.released == w.dom.released,
        forgotten_all(w, list).dom.dirty == w.dom.dirty,
        forall|t: Seq<char>, x: usize| #[trigger]
            forgotten_all(w, list).dom.tags.contains((t, x)) <==> w.dom.tags.contains((t, x))
                && !list.contains(x),
        forall|x: usize| #[trigger]
            forgotten_all(w, list).impulses.contains_key(x) <==> w.impulses.contains_key(x)
                && !list.contains(x),
        forgotten_all(w, list).focus == (match w.focus {
            Some(f) => if list.contains(f) {
                None
            } else {
                Some(f)
            },
            None => None,
        }),
    decreases list.len(),
{
    if list.len() > 0 {
        let x = list[0];
        let next = forgotten(w, x);
        assert forall|t: Seq<char>, y: usize| #[trigger] next.dom.tags.contains((t, y)) implies y
            < w.dom.slots.len() by {
            assert(w.dom.tags.contains((t, y)));
        }
        w.dom.tags_keep(next.dom.tags);
        forgetting(next, list.skip(1));
        assert forall|y: usize| list.contains(y) <==> y == x || list.skip(1).contains(y) by {
            if list.contains(y) {
                let k = choose|k: int| 0 <= k < list.len() && list[k] == y;
                if k > 0 {
                    assert(list.skip(1)[k - 1] == y);
                }
            }
            if list.skip(1).contains(y) {
                let k = choose|k: int| 0 <= k < list.skip(1).len() && list.skip(1)[k] == y;
                assert(list[k + 1] == y);
            }
            assert(list[0] == x);
        }
    }
}

proof fn quiet_untag(w: WorldView, tags: Seq<Seq<char>>, service: usize, id: usize)
    ensures
        quiet(w, tags.map_values(untag_step(service, id))),
{
    let steps = tags.map_values(untag_step(service, id));
    assert forall|i: int| 0 <= i < steps.len() implies quiet(w, seq![#[trigger] steps[i]]) by {
        quiet_fire(w, service, KindView::TagRemoved(tags[i]), ArgView::Instance(id));
    }
    quiet_all(w, steps);
}

/// Each instance of a list told that it is being destroyed, and forgotten.
proof fn all_forgotten(w: WorldView, list: Seq<usize>)
    requires
        w.dom.sound(),
        forall|i: int| 0 <= i < list.len() ==> w.dom.alive(#[trigger] list[i]),
    ensures
        exists|calls: Seq<CallView>|
            leads(w, list.map_values(destroying_step()), forgotten_all(w, list), calls),
    decreases list.len(),
{
    let steps = list.map_values(destroying_step());
    if list.len() == 0 {
        assert(steps =~= Seq::empty());
        leads_nowhere(w);
    } else {
        let x = list[0];
        let next = forgotten(w, x);
        let rest = list.skip(1);
        assert forall|t: Seq<char>, y: usize| #[trigger] next.dom.tags.contains((t, y)) implies y
            < w.dom.slots.len() by {
            assert(w.dom.tags.contains((t, y)));
        }
        w.dom.tags_keep(next.dom.tags);
        assert(w.dom.alive(list[0]));
        assert forall|i: int| 0 <= i < rest.len() implies next.dom.alive(#[trigger] rest[i]) by {
            assert(w.dom.alive(list[i + 1]));
        }
        all_forgotten(next, rest);
        let cr = choose|c: Seq<CallView>|
            leads(next, rest.map_values(destroying_step()), forgotten_all(next, rest), c);
        // One instance: told, then forgotten, then its tags told.
        let fire = StepView::Fire { to: x, kind: KindView::Destroying, arg: ArgView::Nothing };
        let forget = StepView::Forget { id: x };
        quiet_fire(w, x, KindView::Destroying, ArgView::Nothing);
        let c1 = choose|c: Seq<CallView>| leads(w, seq![fire], w, c);
        let after = turn(w, forget).steps;
        quiet_nothing(next);
        if w.dom.service is Some {
            quiet_untag(next, tag_list(w.dom, x), w.dom.service->0, x);
        }
        let c2 = choose|c: Seq<CallView>| leads(next, after, next, c);
        assert(leads(next, after, next, c2));
        leads_by(w, forget, next, c2);
        let c3 = call_list(turn(w, forget).call) + c2;
        leads_on(w, seq![fire], w, c1, seq![forget], next, c3);
        assert(seq![fire] + seq![forget] =~= seq![fire, forget]);
        let one = StepView::Destroying { id: x };
        leads_by(w, one, next, c1 + c3);
        let c4 = call_list(turn(w, one).call) + (c1 + c3);
        leads_on(
            w,
            seq![one],
            next,
            c4,
            rest.map_values(destroying_step()),
            forgotten_all(next, rest),
            cr,
        );
        assert(steps =~= seq![one] + rest.map_values(destroying_step()));
    }
}

/// Where a destruction leads.
pub open spec fn destruction(w: WorldView, id: usize) -> WorldView {
    let mid = forgotten_all(w, w.dom.subtree(id));
    with_dom(mid, freed(mid.dom, id))
}

proof fn rest_of_destruction(mid: WorldView, id: usize)
    requires
        mid.dom.alive(id),
    ensures
        exists|calls: Seq<CallView>|
            leads(mid, seq![StepView::Rest { id }], with_dom(mid, freed(mid.dom, id)), calls),
{
    let end = with_dom(mid, freed(mid.dom, id));
    let leave = StepView::Leaving { id };
    let free = StepView::Free { id };
    let rest = StepView::Rest { id };
    notices_change_nothing(mid, id);
    let c2 = choose|c: Seq<CallView>| leads(mid, seq![leave], mid, c);
    leads_nowhere(end);
    leads_by(mid, free, end, Seq::empty());
    let c3 = call_list(turn(mid, free).call) + Seq::<CallView>::empty();
    leads_on(mid, seq![leave], mid, c2, seq![free], end, c3);
    assert(seq![leave] + seq![free] =~= seq![leave, free]);
    leads_by(mid, rest, end, c2 + c3);
    assert(leads(mid, seq![rest], end, call_list(turn(mid, rest).call) + (c2 + c3)));
}

/// Every instance at or under the one that is destroyed is told and forgotten, its ancestors are
/// told, and then it is freed.
pub proof fn a_destruction_takes_its_course(w: WorldView, id: usize)
    requires
        w.dom.sound(),
        w.dom.alive(id),
    ensures
        exists|calls: Seq<CallView>|
            leads(w, seq![StepView::Destroy { id }], destruction(w, id), calls),
{
    let list = w.dom.subtree(id);
    let mid = forgotten_all(w, list);
    let end = destruction(w, id);
    forgetting(w, list);
    assert forall|i: int| 0 <= i < list.len() implies w.dom.alive(#[trigger] list[i]) by {
        assert(list.contains(list[i]));
        subtree_members(w.dom, id, list[i]);
    }
    all_forgotten(w, list);
    let told = list.map_values(destroying_step());
    let c1 = choose|c: Seq<CallView>| leads(w, told, mid, c);
    let rest = StepView::Rest { id };
    assert(mid.dom.alive(id));
    rest_of_destruction(mid, id);
    let c4 = choose|c: Seq<CallView>| leads(mid, seq![rest], end, c);
    leads_on(w, told, mid, c1, seq![rest], end, c4);
    let step = StepView::Destroy { id };
    assert(told + seq![rest] =~= told.push(rest));
    leads_by(w, step, end, c1 + c4);
    assert(leads(w, seq![step], end, call_list(turn(w, step).call) + (c1 + c4)));
}

/// A destruction frees the instance and everything under it, and nothing else; and nothing that
/// is gone keeps a tag, an impulse or the focus.
pub proof fn a_destruction_frees_the_subtree(w: WorldView, id: usize)
    requires
        w.dom.sound(),
        w.dom.alive(id),
    ensures
        destruction(w, id).dom.sound(),
        destruction(w, id).dom.dirty,
        forall|x: usize| #[trigger]
            destruction(w, id).dom.alive(x) <==> w.dom.alive(x) && !w.dom.at_or_above(id, x),
        forall|t: Seq<char>, x: usize| #[trigger]
            destruction(w, id).dom.tags.contains((t, x)) <==> w.dom.tags.contains((t, x)) && !(
            w.dom.alive(x) && w.dom.at_or_above(id, x)),
        forall|x: usize| #[trigger]
            w.dom.alive(x) && w.dom.at_or_above(id, x) ==> destruction(w, id).focus != Some(x)
                && !destruction(w, id).impulses.contains_key(x),
{
    let list = w.dom.subtree(id);
    let mid = forgotten_all(w, list);
    let end = destruction(w, id);
    forgetting(w, list);
    assert(mid.dom.alive(id));
    destroyed_keeps(mid.dom, id);
    mid.dom.destroyed(id).touched_keeps();
    assert(same_shape(mid.dom, w.dom)) by {
        assert forall|x: usize| #[trigger] mid.dom.alive(x) == w.dom.alive(x) by {}
        assert forall|x: usize| #[trigger] mid.dom.parent(x) == w.dom.parent(x) by {}
        assert forall|x: usize| #[trigger] mid.dom.kids(x) == w.dom.kids(x) by {}
    }
    assert forall|x: usize| #[trigger]
        end.dom.alive(x) <==> w.dom.alive(x) && !w.dom.at_or_above(id, x) by {
        shape_keeps_ancestors(mid.dom, w.dom, x);
        assert(mid.dom.destroyed(id).alive(x) == (mid.dom.alive(x) && !mid.dom.at_or_above(id, x)));
    }
    assert forall|t: Seq<char>, x: usize| #[trigger]
        end.dom.tags.contains((t, x)) <==> w.dom.tags.contains((t, x)) && !(w.dom.alive(x)
            && w.dom.at_or_above(id, x)) by {
        subtree_members(w.dom, id, x);
        assert(mid.dom.tags.contains((t, x)) <==> w.dom.tags.contains((t, x)) && !list.contains(x));
    }
    assert forall|x: usize| #[trigger] w.dom.alive(x) && w.dom.at_or_above(id, x) implies end.focus
        != Some(x) && !end.impulses.contains_key(x) by {
        subtree_members(w.dom, id, x);
        assert(list.contains(x));
        assert(mid.impulses.contains_key(x) <==> w.impulses.contains_key(x) && !list.contains(x));
    }
}

// ---- the focus ----

/// Whoever asks for the focus and is there gets it, and is told once; the last owner is told
/// first. Who has it already is told nothing.
pub proof fn the_focus_is_captured(w: WorldView, id: usize)
    requires
        w.dom.alive(id),
    ensures
        w.focus == Some(id) ==> leads(w, seq![StepView::Capture { id }], w, Seq::empty()),
        w.focus != Some(id) ==> leads(
            w,
            seq![StepView::Capture { id }],
            with_focus(w, Some(id)),
            (match w.focus {
                Some(old) => calls_to(
                    w.dom,
                    w.dom.listeners(old, KindView::FocusLost),
                    KindView::FocusLost,
                    ArgView::Bool(false),
                ),
                None => Seq::empty(),
            }) + calls_to(
                w.dom,
                w.dom.listeners(id, KindView::Focused),
                KindView::Focused,
                ArgView::Nothing,
            ),
        ),
{
    let capture = StepView::Capture { id };
    if w.focus == Some(id) {
        leads_nowhere(w);
        leads_by(w, capture, w, Seq::empty());
        assert(call_list(turn(w, capture).call) + Seq::<CallView>::empty() =~= Seq::empty());
    } else {
        let free = with_focus(w, None);
        let end = with_focus(w, Some(id));
        let cf = calls_to(
            w.dom,
            w.dom.listeners(id, KindView::Focused),
            KindView::Focused,
            ArgView::Nothing,
        );
        let take = StepView::Take { id };
        let settle = StepView::Settle { id };
        assert(turn(free, take).world == end);
        an_event_calls_its_listeners(end, id, KindView::Focused, ArgView::Nothing);
        leads_by(free, take, end, cf);
        assert(call_list(turn(free, take).call) + cf =~= cf);
        leads_by(free, settle, end, cf);
        assert(call_list(turn(free, settle).call) + cf =~= cf);
        match w.focus {
            None => {
                assert(free == w);
                leads_by(w, capture, end, cf);
                assert(call_list(turn(w, capture).call) + cf =~= Seq::empty() + cf);
            },
            Some(old) => {
                let lost = StepView::Fire {
                    to: old,
                    kind: KindView::FocusLost,
                    arg: ArgView::Bool(false),
                };
                let cl = calls_to(
                    w.dom,
                    w.dom.listeners(old, KindView::FocusLost),
                    KindView::FocusLost,
                    ArgView::Bool(false),
                );
                an_event_calls_its_listeners(free, old, KindView::FocusLost, ArgView::Bool(false));
                leads_on(free, seq![lost], free, cl, seq![settle], end, cf);
                assert(seq![lost] + seq![settle] =~= seq![lost, settle]);
                leads_by(w, capture, end, cl + cf);
                assert(call_list(turn(w, capture).call) + (cl + cf) =~= cl + cf);
            },
        }
    }
}

} // verus!
