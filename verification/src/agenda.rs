//! What happens when something happens: who is told, in which order, and what changes between.
//!
//! Telling a guest runs guest code, and guest code may do anything, so nothing is told from
//! inside an operation. An operation is a list of steps; each turn takes the first one, which may
//! change the world, put further steps in its place, or ask for one call of a guest function. What
//! a step needs to know it reads when its turn comes: a handler that an earlier one disconnected
//! is not called, and nothing is told to an instance that an earlier handler destroyed.

use crate::dom::parent_refusal;
use crate::fault::Fault;
use crate::signal::{Kind, KindView};
use crate::text::{ascending, ascending_unique, glue, views};
use crate::tree::DomView;
use crate::value::Vector2;
use crate::world::{World, WorldView};
use vstd::prelude::*;

verus! {

/// What caused an input event.
#[derive(Clone, Copy, Debug, PartialEq, Eq, Structural)]
pub enum InputType {
    MouseButton1,
    MouseButton2,
    MouseButton3,
    MouseMovement,
    MouseWheel,
}

impl InputType {
    /// The name of the item of the enumeration of input types.
    pub open spec fn spelled(self) -> Seq<char> {
        match self {
            InputType::MouseButton1 => "MouseButton1"@,
            InputType::MouseButton2 => "MouseButton2"@,
            InputType::MouseButton3 => "MouseButton3"@,
            InputType::MouseMovement => "MouseMovement"@,
            InputType::MouseWheel => "MouseWheel"@,
        }
    }

    pub fn name(self) -> (r: &'static str)
        ensures
            r@ == self.spelled(),
    {
        match self {
            InputType::MouseButton1 => "MouseButton1",
            InputType::MouseButton2 => "MouseButton2",
            InputType::MouseButton3 => "MouseButton3",
            InputType::MouseMovement => "MouseMovement",
            InputType::MouseWheel => "MouseWheel",
        }
    }
}

/// How far an input has come.
#[derive(Clone, Copy, Debug, PartialEq, Eq, Structural)]
pub enum InputState {
    Begin,
    Change,
    End,
}

impl InputState {
    /// The name of the item of the enumeration of input states.
    pub open spec fn spelled(self) -> Seq<char> {
        match self {
            InputState::Begin => "Begin"@,
            InputState::Change => "Change"@,
            InputState::End => "End"@,
        }
    }

    pub fn name(self) -> (r: &'static str)
        ensures
            r@ == self.spelled(),
    {
        match self {
            InputState::Begin => "Begin",
            InputState::Change => "Change",
            InputState::End => "End",
        }
    }
}

/// One input event, as a handler reads it.
#[derive(Clone, Copy, Debug, PartialEq, Eq, Structural)]
pub struct InputObject {
    pub user_input_type: InputType,
    pub user_input_state: InputState,
    pub position: Vector2,
    pub delta: Vector2,
}

impl InputObject {
    /// How an input event prints.
    pub fn text(&self) -> (r: String)
        ensures
            r@ == "InputObject "@ + self.user_input_type.spelled() + " "@
                + self.user_input_state.spelled(),
    {
        glue(
            glue(
                glue("InputObject ".to_owned(), self.user_input_type.name()),
                " ",
            ),
            self.user_input_state.name(),
        )
    }
}

/// What a handler is called with. `Activation` is an input event and a click count of one.
#[derive(Debug)]
pub enum Arg {
    Nothing,
    Name(String),
    Instance(usize),
    Bool(bool),
    Position(u32, u32),
    Input(InputObject),
    Activation(InputObject),
}

pub enum ArgView {
    Nothing,
    Name(Seq<char>),
    Instance(usize),
    Bool(bool),
    Position(u32, u32),
    Input(InputObject),
    Activation(InputObject),
}

impl View for Arg {
    type V = ArgView;

    open spec fn view(&self) -> ArgView {
        match self {
            Arg::Nothing => ArgView::Nothing,
            Arg::Name(n) => ArgView::Name(n@),
            Arg::Instance(id) => ArgView::Instance(*id),
            Arg::Bool(b) => ArgView::Bool(*b),
            Arg::Position(x, y) => ArgView::Position(*x, *y),
            Arg::Input(o) => ArgView::Input(*o),
            Arg::Activation(o) => ArgView::Activation(*o),
        }
    }
}

impl Arg {
    pub fn dup(&self) -> (r: Arg)
        ensures
            r@ == self@,
    {
        match self {
            Arg::Nothing => Arg::Nothing,
            Arg::Name(n) => Arg::Name(n.clone()),
            Arg::Instance(id) => Arg::Instance(*id),
            Arg::Bool(b) => Arg::Bool(*b),
            Arg::Position(x, y) => Arg::Position(*x, *y),
            Arg::Input(o) => Arg::Input(*o),
            Arg::Activation(o) => Arg::Activation(*o),
        }
    }
}

/// A call of a guest function that is due.
#[derive(Debug)]
pub struct Call {
    pub function: u64,
    pub kind: Kind,
    pub arg: Arg,
}

pub struct CallView {
    pub function: u64,
    pub kind: KindView,
    pub arg: ArgView,
}

impl View for Call {
    type V = CallView;

    open spec fn view(&self) -> CallView {
        CallView { function: self.function, kind: self.kind@, arg: self.arg@ }
    }
}

/// One step of an operation.
#[derive(Debug)]
pub enum Step {
    /// Tell everyone who listens to an event on an instance.
    Fire { to: usize, kind: Kind, arg: Arg },
    /// The same, if the instance is still there.
    FireAlive { to: usize, kind: Kind, arg: Arg },
    /// Tell one listener, if it is still connected.
    Call { conn: usize, kind: Kind, arg: Arg },
    /// A property changed.
    Changed { id: usize, name: String },
    /// An instance is about to leave its parent.
    Leaving { id: usize },
    /// An instance has got a parent.
    Arrived { id: usize },
    /// Tell the ancestors of an instance of everything at or under it.
    Uphill { id: usize },
    /// Tell the listed ancestors of one instance.
    Tell { node: usize, uphill: Vec<usize>, kind: Kind },
    /// Tell a parent of a child, if both are still there.
    Notice { parent: usize, child: usize, kind: Kind },
    /// Destroy an instance and everything under it.
    Destroy { id: usize },
    /// Tell one instance that it is being destroyed.
    Destroying { id: usize },
    /// Take the focus, the impulse and the tags from one that is being destroyed.
    Forget { id: usize },
    /// The rest of a destruction, unless a handler was faster.
    Rest { id: usize },
    /// Free the slots of an instance and everything under it.
    Free { id: usize },
    /// Destroy an instance, if it is still there.
    Clear { id: usize },
    /// Give an instance another parent.
    Move { id: usize, under: Option<usize> },
    /// Give the focus to an instance.
    Capture { id: usize },
    /// The same, once the last owner has been told.
    Settle { id: usize },
    /// The same, without asking.
    Take { id: usize },
    /// The same, if the instance is still there.
    TakeAlive { id: usize },
    /// Take the focus from an instance that has it, and tell it.
    Release { id: usize, entered: bool },
    /// Leave nobody with the focus, and tell the last owner.
    Lose { id: usize, entered: bool },
}

pub enum StepView {
    Fire { to: usize, kind: KindView, arg: ArgView },
    FireAlive { to: usize, kind: KindView, arg: ArgView },
    Call { conn: usize, kind: KindView, arg: ArgView },
    Changed { id: usize, name: Seq<char> },
    Leaving { id: usize },
    Arrived { id: usize },
    Uphill { id: usize },
    Tell { node: usize, uphill: Seq<usize>, kind: KindView },
    Notice { parent: usize, child: usize, kind: KindView },
    Destroy { id: usize },
    Destroying { id: usize },
    Forget { id: usize },
    Rest { id: usize },
    Free { id: usize },
    Clear { id: usize },
    Move { id: usize, under: Option<usize> },
    Capture { id: usize },
    Settle { id: usize },
    Take { id: usize },
    TakeAlive { id: usize },
    Release { id: usize, entered: bool },
    Lose { id: usize, entered: bool },
}

impl View for Step {
    type V = StepView;

    open spec fn view(&self) -> StepView {
        match self {
            Step::Fire { to, kind, arg } => StepView::Fire { to: *to, kind: kind@, arg: arg@ },
            Step::FireAlive { to, kind, arg } => StepView::FireAlive {
                to: *to,
                kind: kind@,
                arg: arg@,
            },
            Step::Call { conn, kind, arg } => StepView::Call {
                conn: *conn,
                kind: kind@,
                arg: arg@,
            },
            Step::Changed { id, name } => StepView::Changed { id: *id, name: name@ },
            Step::Leaving { id } => StepView::Leaving { id: *id },
            Step::Arrived { id } => StepView::Arrived { id: *id },
            Step::Uphill { id } => StepView::Uphill { id: *id },
            Step::Tell { node, uphill, kind } => StepView::Tell {
                node: *node,
                uphill: uphill@,
                kind: kind@,
            },
            Step::Notice { parent, child, kind } => StepView::Notice {
                parent: *parent,
                child: *child,
                kind: kind@,
            },
            Step::Destroy { id } => StepView::Destroy { id: *id },
            Step::Destroying { id } => StepView::Destroying { id: *id },
            Step::Forget { id } => StepView::Forget { id: *id },
            Step::Rest { id } => StepView::Rest { id: *id },
            Step::Free { id } => StepView::Free { id: *id },
            Step::Clear { id } => StepView::Clear { id: *id },
            Step::Move { id, under } => StepView::Move { id: *id, under: *under },
            Step::Capture { id } => StepView::Capture { id: *id },
            Step::Settle { id } => StepView::Settle { id: *id },
            Step::Take { id } => StepView::Take { id: *id },
            Step::TakeAlive { id } => StepView::TakeAlive { id: *id },
            Step::Release { id, entered } => StepView::Release { id: *id, entered: *entered },
            Step::Lose { id, entered } => StepView::Lose { id: *id, entered: *entered },
        }
    }
}

// ---- one turn ----

/// What a turn comes to: the world after it, the steps in place of the one that was taken, and
/// the call that is due or the reason to stop.
pub struct Turn {
    pub world: WorldView,
    pub steps: Seq<StepView>,
    pub call: Option<CallView>,
    pub fault: Option<Seq<char>>,
}

/// A turn that only changes the world and the steps.
pub open spec fn plain(world: WorldView, steps: Seq<StepView>) -> Turn {
    Turn { world, steps, call: None, fault: None }
}

pub open spec fn with_dom(w: WorldView, dom: DomView) -> WorldView {
    WorldView { dom, ..w }
}

pub open spec fn with_focus(w: WorldView, focus: Option<usize>) -> WorldView {
    WorldView { focus, ..w }
}

pub open spec fn call_step(kind: KindView, arg: ArgView) -> spec_fn(usize) -> StepView {
    |conn: usize| StepView::Call { conn, kind, arg }
}

pub open spec fn tell_step(uphill: Seq<usize>, kind: KindView) -> spec_fn(usize) -> StepView {
    |node: usize| StepView::Tell { node, uphill, kind }
}

pub open spec fn fire_step(kind: KindView, node: usize) -> spec_fn(usize) -> StepView {
    |to: usize| StepView::FireAlive { to, kind, arg: ArgView::Instance(node) }
}

pub open spec fn destroying_step() -> spec_fn(usize) -> StepView {
    |id: usize| StepView::Destroying { id }
}

pub open spec fn untag_step(service: usize, id: usize) -> spec_fn(Seq<char>) -> StepView {
    |tag: Seq<char>|
        StepView::Fire {
            to: service,
            kind: KindView::TagRemoved(tag),
            arg: ArgView::Instance(id),
        }
}

/// Does this list hold the tags of an instance, each once and in order?
pub open spec fn lists_tags(v: DomView, id: usize, tags: Seq<Seq<char>>) -> bool {
    ascending(tags) && forall|t: Seq<char>| #[trigger]
        tags.contains(t) <==> v.tags.contains((t, id))
}

/// The tags of an instance, in order.
pub open spec fn tag_list(v: DomView, id: usize) -> Seq<Seq<char>> {
    choose|tags: Seq<Seq<char>>| lists_tags(v, id, tags)
}

/// One step, taken.
pub open spec fn turn(w: WorldView, step: StepView) -> Turn {
    let d = w.dom;
    match step {
        StepView::Fire { to, kind, arg } => plain(
            w,
            d.listeners(to, kind).map_values(call_step(kind, arg)),
        ),
        StepView::FireAlive { to, kind, arg } => plain(
            w,
            if d.alive(to) {
                seq![StepView::Fire { to, kind, arg }]
            } else {
                Seq::empty()
            },
        ),
        StepView::Call { conn, kind, arg } => Turn {
            world: w,
            steps: Seq::empty(),
            call: match d.handler(conn) {
                Some(function) => Some(CallView { function, kind, arg }),
                None => None,
            },
            fault: None,
        },
        StepView::Changed { id, name } => plain(
            w,
            seq![
                StepView::Fire {
                    to: id,
                    kind: KindView::PropertyChanged(name),
                    arg: ArgView::Nothing,
                },
                StepView::Fire { to: id, kind: KindView::Changed, arg: ArgView::Name(name) },
            ],
        ),
        StepView::Leaving { id } => plain(
            w,
            match d.parent(id) {
                None => Seq::empty(),
                Some(parent) => d.subtree(id).map_values(
                    tell_step(d.ancestors(id), KindView::DescendantRemoving),
                ).push(StepView::Notice { parent, child: id, kind: KindView::ChildRemoved }),
            },
        ),
        StepView::Arrived { id } => plain(
            w,
            match d.parent(id) {
                None => Seq::empty(),
                Some(parent) => seq![
                    StepView::Notice { parent, child: id, kind: KindView::ChildAdded },
                    StepView::Uphill { id },
                ],
            },
        ),
        StepView::Uphill { id } => plain(
            w,
            d.subtree(id).map_values(tell_step(d.ancestors(id), KindView::DescendantAdded)),
        ),
        StepView::Tell { node, uphill, kind } => plain(
            w,
            if d.alive(node) {
                uphill.map_values(fire_step(kind, node))
            } else {
                Seq::empty()
            },
        ),
        StepView::Notice { parent, child, kind } => plain(
            w,
            if d.alive(parent) && d.alive(child) {
                seq![StepView::Fire { to: parent, kind, arg: ArgView::Instance(child) }]
            } else {
                Seq::empty()
            },
        ),
        StepView::Destroy { id } => plain(
            w,
            d.subtree(id).map_values(destroying_step()).push(StepView::Rest { id }),
        ),
        StepView::Destroying { id } => plain(
            w,
            if d.alive(id) {
                seq![
                    StepView::Fire { to: id, kind: KindView::Destroying, arg: ArgView::Nothing },
                    StepView::Forget { id },
                ]
            } else {
                Seq::empty()
            },
        ),
        StepView::Forget { id } => plain(
            forgotten(w, id),
            match d.service {
                None => Seq::empty(),
                Some(service) => tag_list(d, id).map_values(untag_step(service, id)),
            },
        ),
        StepView::Rest { id } => plain(
            w,
            if d.alive(id) {
                seq![StepView::Leaving { id }, StepView::Free { id }]
            } else {
                Seq::empty()
            },
        ),
        StepView::Free { id } => plain(with_dom(w, freed(d, id)), Seq::empty()),
        StepView::Clear { id } => plain(
            w,
            if d.alive(id) {
                seq![StepView::Destroy { id }]
            } else {
                Seq::empty()
            },
        ),
        StepView::Move { id, under } => match parent_refusal(d, id, under) {
            Some(message) => Turn {
                world: w,
                steps: Seq::empty(),
                call: None,
                fault: Some(message),
            },
            None => plain(
                with_dom(w, d.reparented(id, under)),
                seq![StepView::Arrived { id }, StepView::Changed { id, name: "Parent"@ }],
            ),
        },
        StepView::Capture { id } => if w.focus == Some(id) {
            plain(w, Seq::empty())
        } else {
            match w.focus {
                None => plain(w, seq![StepView::Settle { id }]),
                Some(old) => plain(
                    with_focus(w, None),
                    seq![
                        StepView::Fire {
                            to: old,
                            kind: KindView::FocusLost,
                            arg: ArgView::Bool(false),
                        },
                        StepView::Settle { id },
                    ],
                ),
            }
        },
        StepView::Settle { id } => if !d.alive(id) || w.focus == Some(id) {
            plain(w, Seq::empty())
        } else {
            match w.focus {
                None => plain(w, seq![StepView::Take { id }]),
                Some(other) => plain(
                    with_focus(w, None),
                    seq![
                        StepView::Fire {
                            to: other,
                            kind: KindView::FocusLost,
                            arg: ArgView::Bool(false),
                        },
                        StepView::Take { id },
                    ],
                ),
            }
        },
        StepView::Take { id } => plain(
            with_focus(w, Some(id)),
            seq![StepView::Fire { to: id, kind: KindView::Focused, arg: ArgView::Nothing }],
        ),
        StepView::TakeAlive { id } => plain(
            w,
            if d.alive(id) {
                seq![StepView::Take { id }]
            } else {
                Seq::empty()
            },
        ),
        StepView::Release { id, entered } => plain(
            w,
            if w.focus == Some(id) {
                seq![StepView::Lose { id, entered }]
            } else {
                Seq::empty()
            },
        ),
        StepView::Lose { id, entered } => plain(
            with_focus(w, None),
            seq![
                StepView::Fire { to: id, kind: KindView::FocusLost, arg: ArgView::Bool(entered) },
            ],
        ),
    }
}

/// The world without the focus, the impulse and the tags of an instance.
pub open spec fn forgotten(w: WorldView, id: usize) -> WorldView {
    WorldView {
        dom: w.dom.untagged(id),
        focus: if w.focus == Some(id) {
            None
        } else {
            w.focus
        },
        impulses: w.impulses.remove(id),
    }
}

/// An instance and everything under it gone, and a repaint owed in any case.
pub open spec fn freed(d: DomView, id: usize) -> DomView {
    if d.alive(id) {
        d.destroyed(id)
    } else {
        d
    }.touched()
}

// ---- the list of steps ----

/// What is left to do of an operation.
#[derive(Debug)]
pub struct Agenda {
    /// The next step is the last.
    stack: Vec<Step>,
}

pub open spec fn step_views(s: Seq<Step>) -> Seq<StepView> {
    s.map_values(|x: Step| x@)
}

impl View for Agenda {
    type V = Seq<StepView>;

    closed spec fn view(&self) -> Seq<StepView> {
        step_views(self.stack@).reverse()
    }
}

/// What comes of a turn.
#[derive(Debug)]
pub enum Progress {
    /// There was nothing left to do.
    Done,
    /// Nothing for the guest to do.
    Quiet,
    /// This call is due.
    Call(Call),
    /// The operation cannot go on.
    Refused(Fault),
}

/// Does the outcome tell what the turn came to?
pub open spec fn tells(p: Progress, t: Turn) -> bool {
    match p {
        Progress::Done => false,
        Progress::Quiet => t.call is None && t.fault is None,
        Progress::Call(c) => t.call == Some(c@) && t.fault is None,
        Progress::Refused(f) => t.fault == Some(f@),
    }
}

impl Agenda {
    pub fn new() -> (r: Agenda)
        ensures
            r@ == Seq::<StepView>::empty(),
    {
        let r = Agenda { stack: Vec::new() };
        assert(r@ =~= Seq::empty());
        r
    }

    /// One step to do.
    pub fn of(step: Step) -> (r: Agenda)
        ensures
            r@ == seq![step@],
    {
        let mut r = Agenda::new();
        let ghost s = step@;
        r.put(step);
        assert(r@ =~= seq![s]);
        r
    }

    /// Put a step before all others.
    pub fn put(&mut self, step: Step)
        ensures
            final(self)@ == seq![step@] + old(self)@,
    {
        let ghost s = step@;
        let ghost was = self@;
        self.stack.push(step);
        assert(self@ =~= seq![s] + was);
    }

    /// Put a list of steps before all others.
    pub fn put_all(&mut self, list: Vec<Step>)
        ensures
            final(self)@ == step_views(list@) + old(self)@,
    {
        let ghost all = step_views(list@);
        let ghost was = self@;
        let mut list = list;
        assert(all.skip(all.len() as int) + was =~= was);
        assert(all.take(all.len() as int) =~= all);
        while list.len() > 0
            invariant
                list@.len() <= all.len(),
                step_views(list@) == all.take(list@.len() as int),
                self@ == all.skip(list@.len() as int) + was,
            decreases list.len(),
        {
            let ghost n = list@.len();
            let ghost before = list@;
            if let Some(step) = list.pop() {
                proof {
                    assert(step_views(before)[n - 1] == step@);
                    assert(step@ == all[n - 1]);
                    assert(step_views(list@) =~= all.take(n - 1));
                }
                self.put(step);
                assert(self@ =~= all.skip(n - 1) + was);
            }
        }
        assert(all.skip(0) =~= all);
    }

    /// Put a list of steps behind all others.
    pub fn then_all(&mut self, list: Vec<Step>)
        ensures
            final(self)@ == old(self)@ + step_views(list@),
    {
        let ghost was = self@;
        let ghost all = step_views(list@);
        let mut rest = Agenda::new();
        std::mem::swap(&mut rest.stack, &mut self.stack);
        self.put_all(list);
        assert(self@ =~= all);
        let ghost bottom = self.stack@;
        let ghost top = rest.stack@;
        self.stack.append(&mut rest.stack);
        proof {
            assert(step_views(self.stack@) =~= step_views(bottom) + step_views(top));
            assert(self@ =~= was + all);
        }
    }

    pub fn is_done(&self) -> (r: bool)
        ensures
            r == (self@.len() == 0),
    {
        self.stack.len() == 0
    }
}

// ---- lists of steps ----

fn calls(conns: &Vec<usize>, kind: &Kind, arg: &Arg) -> (r: Vec<Step>)
    ensures
        step_views(r@) == conns@.map_values(call_step(kind@, arg@)),
{
    let mut r: Vec<Step> = Vec::new();
    let mut i: usize = 0;
    while i < conns.len()
        invariant
            i <= conns.len(),
            r@.len() == i,
            forall|j: int|
                0 <= j < i ==> (#[trigger] r@[j])@ == (StepView::Call {
                    conn: conns@[j],
                    kind: kind@,
                    arg: arg@,
                }),
        decreases conns.len() - i,
    {
        r.push(Step::Call { conn: conns[i], kind: kind.dup(), arg: arg.dup() });
        i += 1;
    }
    assert(step_views(r@) =~= conns@.map_values(call_step(kind@, arg@)));
    r
}

fn tells_of(nodes: &Vec<usize>, uphill: &Vec<usize>, kind: &Kind) -> (r: Vec<Step>)
    ensures
        step_views(r@) == nodes@.map_values(tell_step(uphill@, kind@)),
{
    let mut r: Vec<Step> = Vec::new();
    let mut i: usize = 0;
    while i < nodes.len()
        invariant
            i <= nodes.len(),
            r@.len() == i,
            forall|j: int|
                0 <= j < i ==> (#[trigger] r@[j])@ == (StepView::Tell {
                    node: nodes@[j],
                    uphill: uphill@,
                    kind: kind@,
                }),
        decreases nodes.len() - i,
    {
        r.push(Step::Tell { node: nodes[i], uphill: uphill.clone(), kind: kind.dup() });
        i += 1;
    }
    assert(step_views(r@) =~= nodes@.map_values(tell_step(uphill@, kind@)));
    r
}

fn fires(uphill: &Vec<usize>, kind: &Kind, node: usize) -> (r: Vec<Step>)
    ensures
        step_views(r@) == uphill@.map_values(fire_step(kind@, node)),
{
    let mut r: Vec<Step> = Vec::new();
    let mut i: usize = 0;
    while i < uphill.len()
        invariant
            i <= uphill.len(),
            r@.len() == i,
            forall|j: int|
                0 <= j < i ==> (#[trigger] r@[j])@ == (StepView::FireAlive {
                    to: uphill@[j],
                    kind: kind@,
                    arg: ArgView::Instance(node),
                }),
        decreases uphill.len() - i,
    {
        r.push(Step::FireAlive { to: uphill[i], kind: kind.dup(), arg: Arg::Instance(node) });
        i += 1;
    }
    assert(step_views(r@) =~= uphill@.map_values(fire_step(kind@, node)));
    r
}

fn destroyings(nodes: &Vec<usize>) -> (r: Vec<Step>)
    ensures
        step_views(r@) == nodes@.map_values(destroying_step()),
{
    let mut r: Vec<Step> = Vec::new();
    let mut i: usize = 0;
    while i < nodes.len()
        invariant
            i <= nodes.len(),
            r@.len() == i,
            forall|j: int|
                0 <= j < i ==> (#[trigger] r@[j])@ == (StepView::Destroying { id: nodes@[j] }),
        decreases nodes.len() - i,
    {
        r.push(Step::Destroying { id: nodes[i] });
        i += 1;
    }
    assert(step_views(r@) =~= nodes@.map_values(destroying_step()));
    r
}

fn untags(tags: &Vec<String>, service: usize, id: usize) -> (r: Vec<Step>)
    ensures
        step_views(r@) == views(tags@).map_values(untag_step(service, id)),
{
    let mut r: Vec<Step> = Vec::new();
    let mut i: usize = 0;
    while i < tags.len()
        invariant
            i <= tags.len(),
            r@.len() == i,
            forall|j: int|
                0 <= j < i ==> (#[trigger] r@[j])@ == (StepView::Fire {
                    to: service,
                    kind: KindView::TagRemoved(tags@[j]@),
                    arg: ArgView::Instance(id),
                }),
        decreases tags.len() - i,
    {
        r.push(
            Step::Fire {
                to: service,
                kind: Kind::TagRemoved(tags[i].clone()),
                arg: Arg::Instance(id),
            },
        );
        i += 1;
    }
    assert(step_views(r@) =~= views(tags@).map_values(untag_step(service, id)));
    r
}

/// A list of one step or two.
fn list(first: Step, second: Option<Step>) -> (r: Vec<Step>)
    ensures
        step_views(r@) == match second {
            None => seq![first@],
            Some(s) => seq![first@, s@],
        },
{
    let ghost a = first@;
    let mut r: Vec<Step> = Vec::new();
    r.push(first);
    match second {
        None => {
            assert(step_views(r@) =~= seq![a]);
        },
        Some(s) => {
            let ghost b = s@;
            r.push(s);
            assert(step_views(r@) =~= seq![a, b]);
        },
    }
    r
}

/// No steps.
fn nothing() -> (r: Vec<Step>)
    ensures
        step_views(r@) == Seq::<StepView>::empty(),
{
    let r: Vec<Step> = Vec::new();
    assert(step_views(r@) =~= Seq::empty());
    r
}

fn one(step: Step, when: bool) -> (r: Vec<Step>)
    ensures
        step_views(r@) == (if when {
            seq![step@]
        } else {
            Seq::empty()
        }),
{
    if when {
        list(step, None)
    } else {
        nothing()
    }
}

/// Take one step: what is to be done in its place, or the call or the refusal that it comes to.
fn take(world: &mut World, step: Step) -> (r: Result<(Vec<Step>, Option<Call>), Fault>)
    requires
        old(world).ok(),
    ensures
        final(world).ok(),
        final(world)@ == turn(old(world)@, step@).world,
        match r {
            Ok((steps, call)) => turn(old(world)@, step@).fault is None && step_views(steps@)
                == turn(old(world)@, step@).steps && turn(old(world)@, step@).call == (
            match call {
                Some(c) => Some(c@),
                None => None,
            }),
            Err(f) => turn(old(world)@, step@).fault == Some(f@),
        },
{
    let ghost w = world@;
    let steps: Vec<Step> = match step {
        Step::Fire { to, kind, arg } => calls(&world.dom.listeners(to, &kind), &kind, &arg),
        Step::FireAlive { to, kind, arg } => {
            let there = world.dom.is_alive(to);
            one(Step::Fire { to, kind, arg }, there)
        },
        Step::Call { conn, kind, arg } => {
            let call = match world.dom.handler(conn) {
                Some(function) => Some(Call { function, kind, arg }),
                None => None,
            };
            return Ok((nothing(), call));
        },
        Step::Changed { id, name } => list(
            Step::Fire { to: id, kind: Kind::PropertyChanged(name.clone()), arg: Arg::Nothing },
            Some(Step::Fire { to: id, kind: Kind::Changed, arg: Arg::Name(name) }),
        ),
        Step::Leaving { id } => match world.dom.parent_of(id) {
            None => nothing(),
            Some(parent) => {
                let uphill = world.dom.ancestors(id);
                let mut all = tells_of(
                    &world.dom.subtree(id),
                    &uphill,
                    &Kind::DescendantRemoving,
                );
                let ghost before = step_views(all@);
                all.push(Step::Notice { parent, child: id, kind: Kind::ChildRemoved });
                proof {
                    let last = StepView::Notice { parent, child: id, kind: KindView::ChildRemoved };
                    assert(step_views(all@) =~= before.push(last));
                }
                all
            },
        },
        Step::Arrived { id } => match world.dom.parent_of(id) {
            None => nothing(),
            Some(parent) => list(
                Step::Notice { parent, child: id, kind: Kind::ChildAdded },
                Some(Step::Uphill { id }),
            ),
        },
        Step::Uphill { id } => tells_of(
            &world.dom.subtree(id),
            &world.dom.ancestors(id),
            &Kind::DescendantAdded,
        ),
        Step::Tell { node, uphill, kind } => if world.dom.is_alive(node) {
            fires(&uphill, &kind, node)
        } else {
            nothing()
        },
        Step::Notice { parent, child, kind } => {
            let there = world.dom.is_alive(parent) && world.dom.is_alive(child);
            one(Step::Fire { to: parent, kind, arg: Arg::Instance(child) }, there)
        },
        Step::Destroy { id } => {
            let mut all = destroyings(&world.dom.subtree(id));
            let ghost before = step_views(all@);
            all.push(Step::Rest { id });
            assert(step_views(all@) =~= before.push(StepView::Rest { id }));
            all
        },
        Step::Destroying { id } => if world.dom.is_alive(id) {
            list(
                Step::Fire { to: id, kind: Kind::Destroying, arg: Arg::Nothing },
                Some(Step::Forget { id }),
            )
        } else {
            nothing()
        },
        Step::Forget { id } => {
            if world.is_focused(id) {
                world.focus = None;
            }
            world.impulses.remove(id);
            let service = world.dom.service();
            let tags = world.dom.untag_all(id);
            proof {
                assert(lists_tags(w.dom, id, views(tags@)));
                ascending_unique(views(tags@), tag_list(w.dom, id));
            }
            match service {
                None => nothing(),
                Some(service) => untags(&tags, service, id),
            }
        },
        Step::Rest { id } => if world.dom.is_alive(id) {
            list(Step::Leaving { id }, Some(Step::Free { id }))
        } else {
            nothing()
        },
        Step::Free { id } => {
            world.dom.destroy(id);
            world.dom.touch();
            nothing()
        },
        Step::Clear { id } => one(Step::Destroy { id }, world.dom.is_alive(id)),
        Step::Move { id, under } => {
            match world.dom.set_parent(id, under) {
                Err(f) => return Err(f),
                Ok(_) => {},
            }
            list(
                Step::Arrived { id },
                Some(Step::Changed { id, name: "Parent".to_owned() }),
            )
        },
        Step::Capture { id } => if world.is_focused(id) {
            nothing()
        } else {
            match world.focus {
                None => list(Step::Settle { id }, None),
                Some(old) => {
                    world.focus = None;
                    list(
                        Step::Fire { to: old, kind: Kind::FocusLost, arg: Arg::Bool(false) },
                        Some(Step::Settle { id }),
                    )
                },
            }
        },
        Step::Settle { id } => if !world.dom.is_alive(id) || world.is_focused(id) {
            nothing()
        } else {
            match world.focus {
                None => list(Step::Take { id }, None),
                Some(other) => {
                    world.focus = None;
                    list(
                        Step::Fire { to: other, kind: Kind::FocusLost, arg: Arg::Bool(false) },
                        Some(Step::Take { id }),
                    )
                },
            }
        },
        Step::Take { id } => {
            world.focus = Some(id);
            list(Step::Fire { to: id, kind: Kind::Focused, arg: Arg::Nothing }, None)
        },
        Step::TakeAlive { id } => one(Step::Take { id }, world.dom.is_alive(id)),
        Step::Release { id, entered } => one(Step::Lose { id, entered }, world.is_focused(id)),
        Step::Lose { id, entered } => {
            world.focus = None;
            list(Step::Fire { to: id, kind: Kind::FocusLost, arg: Arg::Bool(entered) }, None)
        },
    };
    Ok((steps, None))
}

impl Agenda {
    /// Take the first step. After a refusal nothing is left to do.
    pub fn step(&mut self, world: &mut World) -> (r: Progress)
        requires
            old(world).ok(),
        ensures
            final(world).ok(),
            old(self)@.len() == 0 ==> r is Done && final(self)@ == old(self)@ && final(world)@
                == old(world)@,
            old(self)@.len() > 0 ==> {
                let t = turn(old(world)@, old(self)@[0]);
                &&& tells(r, t)
                &&& final(world)@ == t.world
                &&& final(self)@ == (if t.fault is Some {
                    Seq::empty()
                } else {
                    t.steps + old(self)@.skip(1)
                })
            },
    {
        let ghost before = self.stack@;
        let ghost was = self@;
        match self.stack.pop() {
            None => Progress::Done,
            Some(step) => {
                proof {
                    assert(step@ == was[0]) by {
                        assert(step_views(before).reverse()[0] == step_views(before)[before.len()
                            - 1]);
                    }
                    assert(self@ =~= was.skip(1));
                }
                match take(world, step) {
                    Err(f) => {
                        self.stack = Vec::new();
                        assert(self@ =~= Seq::empty());
                        Progress::Refused(f)
                    },
                    Ok((steps, call)) => {
                        self.put_all(steps);
                        match call {
                            Some(c) => Progress::Call(c),
                            None => Progress::Quiet,
                        }
                    },
                }
            },
        }
    }
}

/// Once something is freed, what is drawn is out of date.
pub proof fn freeing_asks_for_a_repaint(d: DomView, id: usize)
    ensures
        freed(d, id).dirty,
{
}

} // verus!
