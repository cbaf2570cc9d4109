//! The pointer: what it is over, and who is told of what it does.
//!
//! There is no geometry here. What is hit is read off the paint order, back to front, so what is
//! hit is what is seen.

use crate::agenda::{
    step_views, Agenda, Arg, ArgView, InputObject, InputState, InputType, Step, StepView,
};
use crate::layout::{
    bool_at, bounds_over, content, is_class, item_at, pair_at, zero, Box2, Layout, Pair, Ruler,
    Stage,
};
use crate::reflection::{Catalog, CatalogView};
use crate::render::{paint_order, Placed};
use crate::scalar::{between, clamp, Fixed, Scalar};
use crate::signal::{Kind, KindView};
use crate::text::same;
use crate::value::{Value, ValueView, Vector2};
use crate::world::{Impulse, World, WorldView};
use vstd::prelude::*;

verus! {

/// The buttons of a mouse.
#[derive(Clone, Copy, Debug, PartialEq, Eq, Structural)]
pub enum Button {
    Left,
    Right,
    Middle,
}

/// The events of a button: down, up and click.
pub struct ButtonEvents {
    pub down: Kind,
    pub up: Kind,
    pub click: Kind,
    pub activation: Kind,
}

impl Button {
    pub open spec fn reported(self) -> InputType {
        match self {
            Button::Left => InputType::MouseButton1,
            Button::Right => InputType::MouseButton2,
            Button::Middle => InputType::MouseButton3,
        }
    }

    /// What the button reports as.
    pub fn user_input_type(self) -> (r: InputType)
        ensures
            r == self.reported(),
    {
        match self {
            Button::Left => InputType::MouseButton1,
            Button::Right => InputType::MouseButton2,
            Button::Middle => InputType::MouseButton3,
        }
    }

    /// Has the button events of its own? The middle one has none.
    pub open spec fn has_events(self) -> bool {
        self != Button::Middle
    }

    pub open spec fn down_kind(self) -> KindView {
        if self == Button::Left {
            KindView::MouseButton1Down
        } else {
            KindView::MouseButton2Down
        }
    }

    pub open spec fn up_kind(self) -> KindView {
        if self == Button::Left {
            KindView::MouseButton1Up
        } else {
            KindView::MouseButton2Up
        }
    }

    pub open spec fn click_kind(self) -> KindView {
        if self == Button::Left {
            KindView::MouseButton1Click
        } else {
            KindView::MouseButton2Click
        }
    }

    pub open spec fn activation_kind(self) -> KindView {
        if self == Button::Left {
            KindView::Activated
        } else {
            KindView::SecondaryActivated
        }
    }

    fn events(self) -> (r: Option<ButtonEvents>)
        ensures
            match r {
                None => !self.has_events(),
                Some(e) => self.has_events() && e.down@ == self.down_kind() && e.up@
                    == self.up_kind() && e.click@ == self.click_kind() && e.activation@
                    == self.activation_kind(),
            },
    {
        match self {
            Button::Left => Some(
                ButtonEvents {
                    down: Kind::MouseButton1Down,
                    up: Kind::MouseButton1Up,
                    click: Kind::MouseButton1Click,
                    activation: Kind::Activated,
                },
            ),
            Button::Right => Some(
                ButtonEvents {
                    down: Kind::MouseButton2Down,
                    up: Kind::MouseButton2Up,
                    click: Kind::MouseButton2Click,
                    activation: Kind::SecondaryActivated,
                },
            ),
            Button::Middle => None,
        }
    }
}

/// What the pointer is over: what is under a root, laid out in a size.
#[derive(Clone, Copy, Debug)]
pub struct Surface<S> {
    pub root: usize,
    pub width: S,
    pub height: S,
}

/// A point of a surface.
#[derive(Clone, Copy, Debug)]
pub struct Point<S> {
    pub x: S,
    pub y: S,
}

// ---- what is hit ----

/// Is a point in a box? The near edges belong to it and the far edges do not, so that of two
/// boxes that touch only one has the edge.
pub open spec fn inside<S: Scalar>(b: Box2<S>, at: Point<S>) -> bool {
    b.x.less_or_equal(at.x) && at.x.less(b.x.sum(b.w)) && b.y.less_or_equal(at.y) && at.y.less(
        b.y.sum(b.h),
    )
}

/// Does an element stop the pointer? What does not lets it through to what is behind.
pub open spec fn sinks<R>(st: Stage<R>, id: usize) -> bool {
    bool_at(st, id, "Active"@) == Some(true) || is_class(st, id, "TextBox"@) || is_class(
        st,
        id,
        "ScrollingFrame"@,
    )
}

/// Are the events of an element told? One of which they are not still stops the pointer.
pub open spec fn interactable<R>(st: Stage<R>, id: usize) -> bool {
    bool_at(st, id, "Interactable"@) == Some(true)
}

/// Does the pointer meet an element that stops it, in what is seen of it?
pub open spec fn catches<S: Scalar, R>(st: Stage<R>, p: Placed<S>, at: Point<S>) -> bool {
    inside(p.rect, at) && (p.clip is Some ==> inside(p.clip->0, at)) && sinks(st, p.id)
}

/// The topmost element of a list, back to front, that catches the pointer.
pub open spec fn topmost<S: Scalar, R>(
    st: Stage<R>,
    list: Seq<Placed<S>>,
    at: Point<S>,
) -> Option<usize>
    decreases list.len(),
{
    if list.len() == 0 {
        None
    } else if catches(st, list.last(), at) {
        Some(list.last().id)
    } else {
        topmost(st, list.drop_last(), at)
    }
}

/// What the pointer hits: of everything that is drawn, the topmost that catches it.
pub open spec fn hit_at<S: Scalar, R: Ruler<S>>(
    st: Stage<R>,
    on: Surface<S>,
    at: Point<S>,
) -> Option<usize> {
    topmost(st, paint_order(st, on.root, on.width, on.height), at)
}

/// Who is told: what is hit, unless its events are not told.
pub open spec fn aimed_at<S: Scalar, R: Ruler<S>>(
    st: Stage<R>,
    on: Surface<S>,
    at: Point<S>,
) -> Option<usize> {
    match hit_at(st, on, at) {
        Some(id) => if interactable(st, id) {
            Some(id)
        } else {
            None
        },
        None => None,
    }
}

fn contains<S: Scalar>(b: Box2<S>, at: Point<S>) -> (r: bool)
    ensures
        r == inside(b, at),
{
    b.x.at_most(at.x) && at.x.below(b.x.plus(b.w)) && b.y.at_most(at.y) && at.y.below(b.y.plus(b.h))
}

impl<'a, R> Layout<'a, R> {
    fn does_sink(&self, id: usize) -> (r: bool)
        requires
            self.ok(),
        ensures
            r == sinks(self@, id),
    {
        self.is_set(id, "Active", true) || self.has_class(id, "TextBox") || self.has_class(
            id,
            "ScrollingFrame",
        )
    }

    /// What the pointer hits.
    pub fn hit<S: Scalar>(&self, on: Surface<S>, at: Point<S>) -> (r: Option<usize>)
        where R: Ruler<S>
        requires
            self.ok(),
        ensures
            r == hit_at(self@, on, at),
    {
        let list = self.display_list(on.root, on.width, on.height);
        let mut i: usize = list.len();
        assert(list@.take(i as int) =~= list@);
        while i > 0
            invariant
                self.ok(),
                i <= list.len(),
                list@ == paint_order(self@, on.root, on.width, on.height),
                hit_at(self@, on, at) == topmost(self@, list@.take(i as int), at),
            decreases i,
        {
            i -= 1;
            let placed = list[i];
            assert(list@.take(i + 1).drop_last() =~= list@.take(i as int));
            assert(list@.take(i + 1).last() == placed);
            let seen = match placed.clip {
                Some(c) => contains(c, at),
                None => true,
            };
            if contains(placed.rect, at) && seen && self.does_sink(placed.id) {
                return Some(placed.id);
            }
        }
        None
    }

    fn aim<S: Scalar>(&self, on: Surface<S>, at: Point<S>) -> (r: Option<usize>)
        where R: Ruler<S>
        requires
            self.ok(),
        ensures
            r == aimed_at(self@, on, at),
    {
        match self.hit(on, at) {
            Some(id) => if self.is_set(id, "Interactable", true) {
                Some(id)
            } else {
                None
            },
            None => None,
        }
    }
}

// ---- the pointer ----

/// What is remembered from one event of the pointer to the next.
#[derive(Clone, Copy, Debug)]
pub struct Pointer<S> {
    /// The element that was told last that the pointer entered it.
    pub hover: Option<usize>,
    /// Where each button was pressed, while it is down.
    pub left: Option<usize>,
    pub right: Option<usize>,
    pub middle: Option<usize>,
    /// Where the pointer was seen last.
    pub at: Option<Point<S>>,
}

impl<S: Scalar> Pointer<S> {
    /// Where a button was pressed.
    pub open spec fn held(self, button: Button) -> Option<usize> {
        match button {
            Button::Left => self.left,
            Button::Right => self.right,
            Button::Middle => self.middle,
        }
    }

    pub open spec fn holding(self, button: Button, id: Option<usize>) -> Pointer<S> {
        match button {
            Button::Left => Pointer { left: id, ..self },
            Button::Right => Pointer { right: id, ..self },
            Button::Middle => Pointer { middle: id, ..self },
        }
    }

    pub open spec fn over(self, id: Option<usize>) -> Pointer<S> {
        Pointer { hover: id, ..self }
    }

    pub open spec fn seen(self, at: Point<S>) -> Pointer<S> {
        Pointer { at: Some(at), ..self }
    }
}

/// Where the pointer is, as a handler gets it.
pub open spec fn position<S: Scalar>(at: Point<S>) -> ArgView {
    ArgView::Position(at.x.single(), at.y.single())
}

pub open spec fn vector<S: Scalar>(x: S, y: S) -> Vector2 {
    Vector2 { x: x.single(), y: y.single() }
}

/// An event of the pointer, to one that is still there by then.
pub open spec fn aimed(to: usize, kind: KindView, arg: ArgView) -> StepView {
    StepView::FireAlive { to, kind, arg }
}

/// Who is told when the pointer goes from one element to another: the one that it leaves, and
/// then the one that it enters.
pub open spec fn hover_steps<S: Scalar>(
    from: Option<usize>,
    to: Option<usize>,
    at: Point<S>,
) -> Seq<StepView> {
    if from == to {
        Seq::empty()
    } else {
        (match from {
            Some(id) => seq![aimed(id, KindView::MouseLeave, position(at))],
            None => Seq::empty(),
        }) + (match to {
            Some(id) => seq![aimed(id, KindView::MouseEnter, position(at))],
            None => Seq::empty(),
        })
    }
}

/// A press or a release of a button as an input event.
pub open spec fn button_input<S: Scalar>(
    button: Button,
    state: InputState,
    at: Point<S>,
) -> InputObject {
    InputObject {
        user_input_type: button.reported(),
        user_input_state: state,
        position: vector(at.x, at.y),
        delta: vector(zero::<S>(), zero::<S>()),
    }
}

/// A movement as an input event.
pub open spec fn movement<S: Scalar>(was: Option<Point<S>>, at: Point<S>) -> InputObject {
    InputObject {
        user_input_type: InputType::MouseMovement,
        user_input_state: InputState::Change,
        position: vector(at.x, at.y),
        delta: match was {
            Some(p) => vector(at.x.difference(p.x), at.y.difference(p.y)),
            None => vector(zero::<S>(), zero::<S>()),
        },
    }
}

/// Who is told of a movement.
pub open spec fn moved_steps<S: Scalar>(
    p: Pointer<S>,
    target: Option<usize>,
    at: Point<S>,
) -> Seq<StepView> {
    hover_steps(p.hover, target, at) + match target {
        Some(id) => seq![
            aimed(id, KindView::MouseMoved, position(at)),
            aimed(id, KindView::InputChanged, ArgView::Input(movement(p.at, at))),
        ],
        None => Seq::empty(),
    }
}

/// What a press does to the focus. The left button takes it from who has it, and gives it to a
/// text box; one that has it already keeps it.
pub open spec fn focus_steps<R>(
    st: Stage<R>,
    button: Button,
    target: Option<usize>,
    focus: Option<usize>,
) -> Seq<StepView> {
    if button != Button::Left {
        Seq::empty()
    } else {
        let boxed = target is Some && is_class(st, target->0, "TextBox"@);
        if boxed && focus == target {
            Seq::empty()
        } else {
            (match focus {
                Some(id) => seq![StepView::Lose { id, entered: false }],
                None => Seq::empty(),
            }) + if boxed {
                seq![StepView::TakeAlive { id: target->0 }]
            } else {
                Seq::empty()
            }
        }
    }
}

/// Who is told of a press.
pub open spec fn press_steps<S: Scalar>(
    button: Button,
    target: Option<usize>,
    at: Point<S>,
) -> Seq<StepView> {
    match target {
        None => Seq::empty(),
        Some(id) => (if button.has_events() {
            seq![aimed(id, button.down_kind(), position(at))]
        } else {
            Seq::empty()
        }).push(
            aimed(
                id,
                KindView::InputBegan,
                ArgView::Input(button_input(button, InputState::Begin, at)),
            ),
        ),
    }
}

/// Who is told of a release over an element: it is up, and if the press was on the same element
/// that was a click, which activates it.
pub open spec fn release_steps<S: Scalar>(
    button: Button,
    pressed: Option<usize>,
    target: Option<usize>,
    at: Point<S>,
) -> Seq<StepView> {
    match target {
        None => Seq::empty(),
        Some(id) => if !button.has_events() {
            Seq::empty()
        } else if pressed != Some(id) {
            seq![aimed(id, button.up_kind(), position(at))]
        } else {
            seq![
                aimed(id, button.up_kind(), position(at)),
                aimed(id, button.click_kind(), ArgView::Nothing),
                aimed(
                    id,
                    button.activation_kind(),
                    ArgView::Activation(button_input(button, InputState::End, at)),
                ),
            ]
        },
    }
}

/// Who is told that the input ended: where the press was, or what is hit where there was none.
pub open spec fn ended_steps<S: Scalar, R>(
    st: Stage<R>,
    button: Button,
    pressed: Option<usize>,
    target: Option<usize>,
    at: Point<S>,
) -> Seq<StepView> {
    let ended = if pressed is Some {
        pressed
    } else {
        target
    };
    match ended {
        Some(id) => if interactable(st, id) {
            seq![
                aimed(
                    id,
                    KindView::InputEnded,
                    ArgView::Input(button_input(button, InputState::End, at)),
                ),
            ]
        } else {
            Seq::empty()
        },
        None => Seq::empty(),
    }
}

/// An element, if it is there.
pub open spec fn living<R>(st: Stage<R>, id: Option<usize>) -> Option<usize> {
    if id is Some && st.dom.alive(id->0) {
        id
    } else {
        None
    }
}

/// The pointer, without what is there no more.
pub open spec fn pruned<S: Scalar, R>(st: Stage<R>, p: Pointer<S>) -> Pointer<S> {
    Pointer {
        hover: living(st, p.hover),
        left: living(st, p.left),
        right: living(st, p.right),
        middle: living(st, p.middle),
        at: p.at,
    }
}

fn arg_at<S: Scalar>(at: Point<S>) -> (r: Arg)
    ensures
        r@ == position(at),
{
    Arg::Position(at.x.to_single(), at.y.to_single())
}

fn vector_of<S: Scalar>(x: S, y: S) -> (r: Vector2)
    ensures
        r == vector(x, y),
{
    Vector2 { x: x.to_single(), y: y.to_single() }
}

fn input_of<S: Scalar>(button: Button, state: InputState, at: Point<S>) -> (r: InputObject)
    ensures
        r == button_input(button, state, at),
{
    InputObject {
        user_input_type: button.user_input_type(),
        user_input_state: state,
        position: vector_of(at.x, at.y),
        delta: vector_of(S::from_int(0), S::from_int(0)),
    }
}

/// Append one step to a list.
fn also(list: &mut Vec<Step>, step: Step)
    ensures
        step_views(final(list)@) == step_views(old(list)@).push(step@),
{
    let ghost before = list@;
    let ghost s = step@;
    list.push(step);
    assert(step_views(list@) =~= step_views(before).push(s));
}

/// Append one event to a list.
fn event(list: &mut Vec<Step>, to: usize, kind: Kind, arg: Arg)
    ensures
        step_views(final(list)@) == step_views(old(list)@).push(aimed(to, kind@, arg@)),
{
    also(list, Step::FireAlive { to, kind, arg });
}

fn as_agenda(list: Vec<Step>) -> (r: Agenda)
    ensures
        r@ == step_views(list@),
{
    let ghost all = step_views(list@);
    let mut r = Agenda::new();
    r.put_all(list);
    assert(r@ =~= all);
    r
}

fn no_steps() -> (r: Vec<Step>)
    ensures
        step_views(r@) == Seq::<StepView>::empty(),
{
    let r: Vec<Step> = Vec::new();
    assert(step_views(r@) =~= Seq::empty());
    r
}

fn is_same(a: Option<usize>, b: Option<usize>) -> (r: bool)
    ensures
        r == (a == b),
{
    match (a, b) {
        (Some(x), Some(y)) => x == y,
        (None, None) => true,
        _ => false,
    }
}

impl<S: Scalar> Pointer<S> {
    /// A pointer that was never seen.
    pub fn new() -> (r: Pointer<S>)
        ensures
            r == (Pointer::<S> { hover: None, left: None, right: None, middle: None, at: None }),
    {
        Pointer { hover: None, left: None, right: None, middle: None, at: None }
    }

    fn hover_to(&mut self, next: Option<usize>, at: Point<S>, list: &mut Vec<Step>)
        ensures
            *final(self) == old(self).over(next),
            step_views(final(list)@) == step_views(old(list)@) + hover_steps(
                old(self).hover,
                next,
                at,
            ),
    {
        let ghost before = step_views(list@);
        let ghost from = self.hover;
        if is_same(self.hover, next) {
            assert(step_views(list@) =~= before + hover_steps(from, next, at));
            return;
        }
        if let Some(id) = self.hover {
            event(list, id, Kind::MouseLeave, arg_at(at));
        }
        if let Some(id) = next {
            event(list, id, Kind::MouseEnter, arg_at(at));
        }
        self.hover = next;
        assert(step_views(list@) =~= before + hover_steps(from, next, at));
    }

    /// The pointer moved.
    pub fn moved<R: Ruler<S>>(&mut self, scene: &Layout<R>, on: Surface<S>, at: Point<S>) -> (r:
        Agenda)
        requires
            scene.ok(),
        ensures
            ({
                let target = aimed_at(scene@, on, at);
                &&& *final(self) == old(self).seen(at).over(target)
                &&& r@ == moved_steps(*old(self), target, at)
            }),
    {
        let ghost was = *self;
        let nothing = S::from_int(0);
        let delta = match self.at {
            Some(p) => vector_of(at.x.minus(p.x), at.y.minus(p.y)),
            None => vector_of(nothing, nothing),
        };
        self.at = Some(at);
        let mut list = no_steps();
        let target = scene.aim(on, at);
        self.hover_to(target, at, &mut list);
        let ghost hovered = hover_steps(was.hover, target, at);
        assert(step_views(list@) =~= hovered);
        if let Some(id) = target {
            event(&mut list, id, Kind::MouseMoved, arg_at(at));
            let o = InputObject {
                user_input_type: InputType::MouseMovement,
                user_input_state: InputState::Change,
                position: vector_of(at.x, at.y),
                delta,
            };
            event(&mut list, id, Kind::InputChanged, Arg::Input(o));
        }
        assert(step_views(list@) =~= moved_steps(was, target, at));
        as_agenda(list)
    }

    fn hold(&mut self, button: Button, id: Option<usize>)
        ensures
            *final(self) == old(self).holding(button, id),
    {
        match button {
            Button::Left => {
                self.left = id;
            },
            Button::Right => {
                self.right = id;
            },
            Button::Middle => {
                self.middle = id;
            },
        }
    }

    /// A button went down. The press is noted where it hit, whether or not its events are told.
    pub fn down<R: Ruler<S>>(
        &mut self,
        scene: &Layout<R>,
        focus: Option<usize>,
        on: Surface<S>,
        button: Button,
        at: Point<S>,
    ) -> (r: Agenda)
        requires
            scene.ok(),
        ensures
            ({
                let target = aimed_at(scene@, on, at);
                &&& *final(self) == old(self).seen(at).holding(
                    button,
                    hit_at(scene@, on, at),
                ).over(target)
                &&& r@ == focus_steps(scene@, button, target, focus) + hover_steps(
                    old(self).hover,
                    target,
                    at,
                ) + press_steps(button, target, at)
            }),
    {
        let ghost was = *self;
        self.at = Some(at);
        let pressed = scene.hit(on, at);
        self.hold(button, pressed);
        let target = scene.aim(on, at);
        let mut list = no_steps();
        if let Button::Left = button {
            let boxed = match target {
                Some(id) => scene.has_class(id, "TextBox"),
                None => false,
            };
            if !(boxed && is_same(focus, target)) {
                if let Some(id) = focus {
                    also(&mut list, Step::Lose { id, entered: false });
                }
                if let Some(id) = target {
                    if boxed {
                        also(&mut list, Step::TakeAlive { id });
                    }
                }
            }
        }
        let ghost focused = focus_steps(scene@, button, target, focus);
        assert(step_views(list@) =~= focused);
        self.hover_to(target, at, &mut list);
        let ghost hovered = focused + hover_steps(was.hover, target, at);
        if let Some(id) = target {
            if let Some(e) = button.events() {
                event(&mut list, id, e.down, arg_at(at));
            }
            event(
                &mut list,
                id,
                Kind::InputBegan,
                Arg::Input(input_of(button, InputState::Begin, at)),
            );
        }
        assert(step_views(list@) =~= hovered + press_steps(button, target, at));
        as_agenda(list)
    }

    /// A key was pressed, by its name. The return key takes the focus from who has it.
    pub fn key(&mut self, focus: Option<usize>, name: &str) -> (r: Agenda)
        ensures
            *final(self) == *old(self),
            r@ == (match focus {
                Some(id) => if name@ == "Return"@ {
                    seq![StepView::Release { id, entered: true }]
                } else {
                    Seq::empty()
                },
                None => Seq::empty(),
            }),
    {
        match focus {
            Some(id) => if same(name, "Return") {
                Agenda::of(Step::Release { id, entered: true })
            } else {
                Agenda::new()
            },
            None => Agenda::new(),
        }
    }

    /// A button came up.
    pub fn up<R: Ruler<S>>(
        &mut self,
        scene: &Layout<R>,
        on: Surface<S>,
        button: Button,
        at: Point<S>,
    ) -> (r: Agenda)
        requires
            scene.ok(),
        ensures
            ({
                let target = aimed_at(scene@, on, at);
                let pressed = old(self).held(button);
                &&& *final(self) == old(self).seen(at).holding(button, None).over(target)
                &&& r@ == hover_steps(old(self).hover, target, at) + release_steps(
                    button,
                    pressed,
                    target,
                    at,
                ) + ended_steps(scene@, button, pressed, target, at)
            }),
    {
        let ghost was = *self;
        self.at = Some(at);
        let pressed: Option<usize> = match button {
            Button::Left => self.left,
            Button::Right => self.right,
            Button::Middle => self.middle,
        };
        self.hold(button, None);
        let target = scene.aim(on, at);
        let mut list = no_steps();
        self.hover_to(target, at, &mut list);
        let ghost hovered = hover_steps(was.hover, target, at);
        assert(step_views(list@) =~= hovered);
        if let Some(id) = target {
            if let Some(e) = button.events() {
                event(&mut list, id, e.up, arg_at(at));
                if is_same(pressed, target) {
                    event(&mut list, id, e.click, Arg::Nothing);
                    event(
                        &mut list,
                        id,
                        e.activation,
                        Arg::Activation(input_of(button, InputState::End, at)),
                    );
                }
            }
        }
        let ghost released = hovered + release_steps(button, pressed, target, at);
        assert(step_views(list@) =~= released);
        let ended = match pressed {
            Some(id) => Some(id),
            None => target,
        };
        if let Some(id) = ended {
            if scene.is_set(id, "Interactable", true) {
                event(
                    &mut list,
                    id,
                    Kind::InputEnded,
                    Arg::Input(input_of(button, InputState::End, at)),
                );
            }
        }
        assert(step_views(list@) =~= released + ended_steps(scene@, button, pressed, target, at));
        as_agenda(list)
    }

    /// What is under the pointer may have changed without a movement: see what it is over now.
    /// One that is there no more is not told.
    pub fn refresh<R: Ruler<S>>(&mut self, scene: &Layout<R>, on: Surface<S>) -> (r: Agenda)
        requires
            scene.ok(),
        ensures
            match old(self).at {
                None => *final(self) == *old(self) && r@ == Seq::<StepView>::empty(),
                Some(at) => {
                    let target = aimed_at(scene@, on, at);
                    let kept = pruned(scene@, *old(self));
                    &&& *final(self) == kept.over(target)
                    &&& r@ == hover_steps(kept.hover, target, at)
                },
            },
    {
        let at = match self.at {
            Some(p) => p,
            None => return Agenda::new(),
        };
        let ghost was = *self;
        self.hover = if_alive(scene, self.hover);
        self.left = if_alive(scene, self.left);
        self.right = if_alive(scene, self.right);
        self.middle = if_alive(scene, self.middle);
        let mut list = no_steps();
        let target = scene.aim(on, at);
        self.hover_to(target, at, &mut list);
        assert(step_views(list@) =~= hover_steps(pruned(scene@, was).hover, target, at));
        as_agenda(list)
    }
}

fn if_alive<R>(scene: &Layout<R>, id: Option<usize>) -> (r: Option<usize>)
    ensures
        r == living(scene@, id),
{
    match id {
        Some(x) => if scene.dom.is_alive(x) {
            id
        } else {
            None
        },
        None => None,
    }
}

// ---- the wheel ----

/// Does an element scroll when the wheel turns over it?
pub open spec fn takes_wheel<R>(st: Stage<R>, id: usize) -> bool {
    is_class(st, id, "ScrollingFrame"@) && bool_at(st, id, "ScrollingEnabled"@) != Some(false)
        && bool_at(st, id, "ScrollWheelInputEnabled"@) != Some(false)
}

/// The closest element that scrolls, of an element and what it is in.
pub open spec fn scroller<R>(st: Stage<R>, id: usize) -> Option<usize> {
    if takes_wheel(st, id) {
        Some(id)
    } else {
        crate::members::first_of(st.dom.ancestors(id), |a: usize| takes_wheel(st, a))
    }
}

/// How far one turn of the wheel scrolls.
pub open spec fn stride<S: Scalar, R>(st: Stage<R>, id: usize, delta: S) -> Pair<S> {
    let by = zero::<S>().difference(delta).product(S::of_int(40));
    if item_at(st, id, "ScrollingDirection"@, "ScrollingDirection"@, "X"@) {
        Pair { x: by, y: zero() }
    } else {
        Pair { x: zero(), y: by }
    }
}

/// The first place of an element in a list.
pub open spec fn place_of<S>(list: Seq<Placed<S>>, id: usize) -> Option<Placed<S>>
    decreases list.len(),
{
    if list.len() == 0 {
        None
    } else if list[0].id == id {
        Some(list[0])
    } else {
        place_of(list.skip(1), id)
    }
}

/// Where a scrolling element is scrolled to by a turn of the wheel: from no further back than
/// the start of its content to no further than the end. Nowhere, where it is not drawn.
pub open spec fn scrolled_to<S: Scalar, R: Ruler<S>>(
    st: Stage<R>,
    on: Surface<S>,
    id: usize,
    delta: S,
) -> Option<Pair<S>> {
    let by = stride::<S, R>(st, id, delta);
    let from = pair_at::<S, R>(st, id, "CanvasPosition"@);
    match place_of(paint_order(st, on.root, on.width, on.height), id) {
        None => None,
        Some(placed) => {
            let own = content(st, id, placed.rect);
            let whole = bounds_over(st, id, own, st.dom.kids(id).len());
            let to = Pair {
                x: between(
                    from.x.sum(by.x),
                    zero(),
                    whole.x.difference(own.w).larger(zero()),
                ),
                y: between(
                    from.y.sum(by.y),
                    zero(),
                    whole.y.difference(own.h).larger(zero()),
                ),
            };
            if to.x.equal(from.x) && to.y.equal(from.y) {
                None
            } else {
                Some(to)
            }
        },
    }
}

/// A turn of the wheel as an input event.
pub open spec fn wheel_input<S: Scalar>(at: Point<S>, delta: S) -> InputObject {
    InputObject {
        user_input_type: InputType::MouseWheel,
        user_input_state: InputState::Change,
        position: vector(at.x, at.y),
        delta: vector(zero::<S>(), delta),
    }
}

/// Who is told of a turn of the wheel.
pub open spec fn wheel_steps<S: Scalar>(id: usize, at: Point<S>, delta: S) -> Seq<StepView> {
    seq![
        aimed(
            id,
            if zero::<S>().less(delta) {
                KindView::MouseWheelForward
            } else {
                KindView::MouseWheelBackward
            },
            position(at),
        ),
        aimed(id, KindView::InputChanged, ArgView::Input(wheel_input(at, delta))),
    ]
}

/// The world after an element was scrolled: its position, and an impulse of a tenth of a second.
pub open spec fn scrolled_world<S: Scalar>(
    w: WorldView,
    id: usize,
    to: Pair<S>,
    by: Pair<S>,
    now: u64,
) -> WorldView {
    WorldView {
        dom: w.dom.assigned(id, "CanvasPosition"@, ValueView::Vector2(vector(to.x, to.y))).touched(),
        impulses: w.impulses.insert(
            id,
            Impulse {
                x: by.x.product(S::of_int(10)).single(),
                y: by.y.product(S::of_int(10)).single(),
                at: now,
            },
        ),
        ..w
    }
}

/// The stage that a world and what it is read with make.
pub open spec fn stage_of<R>(w: WorldView, catalog: CatalogView, ruler: R) -> Stage<R> {
    Stage { dom: w.dom, catalog, ruler }
}

fn find_place<S: Scalar>(list: &Vec<Placed<S>>, id: usize) -> (r: Option<Placed<S>>)
    ensures
        r == place_of(list@, id),
{
    let mut i: usize = 0;
    assert(list@.skip(0) =~= list@);
    while i < list.len()
        invariant
            i <= list.len(),
            place_of(list@, id) == place_of(list@.skip(i as int), id),
        decreases list.len() - i,
    {
        assert(list@.skip(i as int)[0] == list@[i as int]);
        if list[i].id == id {
            return Some(list[i]);
        }
        assert(list@.skip(i as int).skip(1) =~= list@.skip(i + 1));
        i += 1;
    }
    None
}

impl<'a, R> Layout<'a, R> {
    fn does_take_wheel(&self, id: usize) -> (r: bool)
        requires
            self.ok(),
        ensures
            r == takes_wheel(self@, id),
    {
        self.has_class(id, "ScrollingFrame") && !self.is_set(id, "ScrollingEnabled", false)
            && !self.is_set(id, "ScrollWheelInputEnabled", false)
    }

    fn find_scroller(&self, id: usize) -> (r: Option<usize>)
        requires
            self.ok(),
        ensures
            r == scroller(self@, id),
    {
        if self.does_take_wheel(id) {
            return Some(id);
        }
        let up = self.dom.ancestors(id);
        let ghost wanted = |a: usize| takes_wheel(self@, a);
        let mut i: usize = 0;
        assert(up@.skip(0) =~= up@);
        while i < up.len()
            invariant
                self.ok(),
                i <= up.len(),
                up@ == self@.dom.ancestors(id),
                !takes_wheel(self@, id),
                wanted == (|a: usize| takes_wheel(self@, a)),
                crate::members::first_of(up@, wanted) == crate::members::first_of(
                    up@.skip(i as int),
                    wanted,
                ),
            decreases up.len() - i,
        {
            assert(up@.skip(i as int)[0] == up@[i as int]);
            if self.does_take_wheel(up[i]) {
                return Some(up[i]);
            }
            assert(up@.skip(i as int).skip(1) =~= up@.skip(i + 1));
            i += 1;
        }
        None
    }

    fn stride_of<S: Scalar>(&self, id: usize, delta: S) -> (r: Pair<S>)
        requires
            self.ok(),
        ensures
            r == stride::<S, R>(self@, id, delta),
    {
        let nothing = S::from_int(0);
        let by = nothing.minus(delta).times(S::from_int(40));
        if self.item(id, "ScrollingDirection", "ScrollingDirection", "X") {
            Pair { x: by, y: nothing }
        } else {
            Pair { x: nothing, y: by }
        }
    }

    fn scroll_target<S: Scalar>(&self, on: Surface<S>, id: usize, delta: S) -> (r: Option<Pair<S>>)
        where R: Ruler<S>
        requires
            self.ok(),
        ensures
            r == scrolled_to(self@, on, id, delta),
    {
        let nothing = S::from_int(0);
        let by = self.stride_of(id, delta);
        let from = self.pair::<S>(id, "CanvasPosition");
        let list = self.display_list(on.root, on.width, on.height);
        match find_place(&list, id) {
            None => None,
            Some(placed) => {
                let own = self.content_box(id, placed.rect);
                let whole = self.scrolling_frame_bounds(id, own);
                let x = clamp(from.x.plus(by.x), nothing, whole.x.minus(own.w).most(nothing));
                let y = clamp(from.y.plus(by.y), nothing, whole.y.minus(own.h).most(nothing));
                if x.same(from.x) && y.same(from.y) {
                    None
                } else {
                    Some(Pair { x, y })
                }
            },
        }
    }
}

/// What comes of a turn of the wheel: the world after it, and who is told.
pub open spec fn wheeled<S: Scalar, R: Ruler<S>>(
    w: WorldView,
    st: Stage<R>,
    on: Surface<S>,
    at: Point<S>,
    delta: S,
    now: u64,
) -> (WorldView, Seq<StepView>) {
    match aimed_at(st, on, at) {
        None => (w, Seq::empty()),
        Some(id) => {
            let told = wheel_steps(id, at, delta);
            match scroller(st, id) {
                None => (w, told),
                Some(c) => match scrolled_to(st, on, c, delta) {
                    None => (w, told),
                    Some(to) => (
                        scrolled_world(w, c, to, stride::<S, R>(st, c, delta), now),
                        seq![StepView::Changed { id: c, name: "CanvasPosition"@ }] + told,
                    ),
                },
            }
        },
    }
}

impl<S: Scalar> Pointer<S> {
    /// The wheel turned at a time, up for a delta above zero. Nothing comes of a delta of zero.
    pub fn wheel<R: Ruler<S>>(
        &mut self,
        world: &mut World,
        catalog: &Catalog,
        ruler: &R,
        on: Surface<S>,
        at: Point<S>,
        delta: S,
        now: u64,
    ) -> (r: Agenda)
        requires
            old(world).ok(),
        ensures
            final(world).ok(),
            delta.equal(zero()) ==> *final(self) == *old(self) && final(world)@ == old(world)@
                && r@ == Seq::<StepView>::empty(),
            !delta.equal(zero()) ==> *final(self) == old(self).seen(at) && (
            final(world)@,
            r@,
            ) == wheeled(
                old(world)@,
                stage_of(old(world)@, catalog@, *ruler),
                on,
                at,
                delta,
                now,
            ),
    {
        let ghost w = world@;
        let ghost st = stage_of(world@, catalog@, *ruler);
        let nothing = S::from_int(0);
        if delta.same(nothing) {
            return Agenda::new();
        }
        self.at = Some(at);
        let mut list = no_steps();
        let scene = Layout { dom: &world.dom, catalog, ruler };
        let id: usize = match scene.aim(on, at) {
            Some(id) => id,
            None => return Agenda::new(),
        };
        let ghost told = wheel_steps(id, at, delta);
        let mut scrolled: Option<(usize, Pair<S>, Pair<S>)> = None;
        if let Some(c) = scene.find_scroller(id) {
            proof {
                if !takes_wheel(st, id) {
                    crate::members::first_is_first(
                        st.dom.ancestors(id),
                        |a: usize| takes_wheel(st, a),
                    );
                }
                assert(takes_wheel(st, c));
            }
            if let Some(to) = scene.scroll_target(on, c, delta) {
                scrolled = Some((c, to, scene.stride_of(c, delta)));
            }
        }
        if let Some((c, to, by)) = scrolled {
            world.dom.set_internal(c, "CanvasPosition", Value::Vector2(vector_of(to.x, to.y)));
            world.dom.touch();
            let ten = S::from_int(10);
            world.set_scroll_velocity(
                c,
                Impulse {
                    x: by.x.times(ten).to_single(),
                    y: by.y.times(ten).to_single(),
                    at: now,
                },
            );
            also(&mut list, Step::Changed { id: c, name: "CanvasPosition".to_owned() });
            assert(world@ == scrolled_world(w, c, to, by, now));
        }
        let ghost before = step_views(list@);
        let kind = if nothing.below(delta) {
            Kind::MouseWheelForward
        } else {
            Kind::MouseWheelBackward
        };
        event(&mut list, id, kind, arg_at(at));
        let o = InputObject {
            user_input_type: InputType::MouseWheel,
            user_input_state: InputState::Change,
            position: vector_of(at.x, at.y),
            delta: vector_of(nothing, delta),
        };
        event(&mut list, id, Kind::InputChanged, Arg::Input(o));
        assert(step_views(list@) =~= before + told);
        assert(step_views(list@) =~= wheeled(w, st, on, at, delta, now).1);
        as_agenda(list)
    }
}

// ---- scroll velocity ----

/// The length of time between two moments in nanoseconds, in seconds: none, where the second is
/// not later.
pub open spec fn seconds_between<S: Scalar>(from: u64, to: u64) -> S {
    let passed: int = if to > from {
        to - from
    } else {
        0
    };
    S::of_int((passed / 1_000_000_000) as i128).sum(
        S::of_int((passed % 1_000_000_000) as i128).quotient(S::of_int(1_000_000_000)),
    )
}

/// How fast an element scrolls: as its last impulse, fading to nothing over a quarter of a second.
pub open spec fn velocity_of<S: Scalar>(w: WorldView, id: usize, now: u64) -> Pair<S> {
    let still = Pair { x: zero::<S>(), y: zero::<S>() };
    if !w.impulses.contains_key(id) {
        still
    } else {
        let impulse = w.impulses[id];
        let passed = seconds_between::<S>(impulse.at, now);
        let quarter = S::of_int(1).quotient(S::of_int(4));
        if quarter.less_or_equal(passed) {
            still
        } else {
            let left = S::of_int(1).difference(passed.quotient(quarter));
            Pair {
                x: S::of_single(impulse.x).product(left),
                y: S::of_single(impulse.y).product(left),
            }
        }
    }
}

/// How fast an element scrolls at a time, in pixels per second.
pub fn get_scroll_velocity<S: Scalar>(world: &World, id: usize, now: u64) -> (r: Pair<S>)
    ensures
        r == velocity_of::<S>(world@, id, now),
{
    let nothing = S::from_int(0);
    match world.impulses.get(id) {
        None => Pair { x: nothing, y: nothing },
        Some(impulse) => {
            let passed: u64 = if now > impulse.at {
                now - impulse.at
            } else {
                0
            };
            let whole: u64 = passed / 1_000_000_000;
            let rest: u64 = passed % 1_000_000_000;
            let elapsed = S::from_int(whole as i128).plus(
                S::from_int(rest as i128).over(S::from_int(1_000_000_000)),
            );
            let quarter = S::from_int(1).over(S::from_int(4));
            if quarter.at_most(elapsed) {
                Pair { x: nothing, y: nothing }
            } else {
                let left = S::from_int(1).minus(elapsed.over(quarter));
                Pair {
                    x: S::from_single(impulse.x).times(left),
                    y: S::from_single(impulse.y).times(left),
                }
            }
        },
    }
}

// ---- laws ----

/// What is hit is drawn, catches the pointer, and nothing that is drawn over it does. Where
/// nothing is hit, nothing that is drawn catches it.
pub proof fn the_topmost_is_hit<S: Scalar, R>(st: Stage<R>, list: Seq<Placed<S>>, at: Point<S>)
    ensures
        match topmost(st, list, at) {
            Some(id) => exists|i: int|
                0 <= i < list.len() && (#[trigger] list[i]).id == id && catches(st, list[i], at)
                    && forall|j: int|
                    i < j < list.len() ==> !catches(st, #[trigger] list[j], at),
            None => forall|j: int| 0 <= j < list.len() ==> !catches(st, #[trigger] list[j], at),
        },
    decreases list.len(),
{
    if list.len() > 0 && !catches(st, list.last(), at) {
        let rest = list.drop_last();
        the_topmost_is_hit(st, rest, at);
        match topmost(st, rest, at) {
            Some(id) => {
                let i = choose|i: int|
                    0 <= i < rest.len() && (#[trigger] rest[i]).id == id && catches(st, rest[i], at)
                        && forall|j: int|
                        i < j < rest.len() ==> !catches(st, #[trigger] rest[j], at);
                assert(list[i] == rest[i]);
                assert forall|j: int| i < j < list.len() implies !catches(
                    st,
                    #[trigger] list[j],
                    at,
                ) by {
                    if j < rest.len() {
                        assert(rest[j] == list[j]);
                    }
                }
            },
            None => {
                assert forall|j: int| 0 <= j < list.len() implies !catches(
                    st,
                    #[trigger] list[j],
                    at,
                ) by {
                    if j < rest.len() {
                        assert(rest[j] == list[j]);
                    }
                }
            },
        }
    } else if list.len() > 0 {
        assert(list[list.len() - 1] == list.last());
    }
}

/// What lies outside its clip is never hit.
pub proof fn what_is_cut_off_is_not_hit<S: Scalar, R>(st: Stage<R>, p: Placed<S>, at: Point<S>)
    requires
        p.clip is Some,
        !inside(p.clip->0, at),
    ensures
        !catches(st, p, at),
{
}

/// A click takes a press and a release on the same element.
pub proof fn a_click_is_a_press_and_a_release<S: Scalar>(
    button: Button,
    pressed: Option<usize>,
    target: Option<usize>,
    at: Point<S>,
    id: usize,
)
    requires
        button.has_events(),
    ensures
        release_steps(button, pressed, target, at).contains(
            aimed(id, button.click_kind(), ArgView::Nothing),
        ) <==> pressed == Some(id) && target == Some(id),
{
    let steps = release_steps(button, pressed, target, at);
    let click = aimed(id, button.click_kind(), ArgView::Nothing);
    if pressed == Some(id) && target == Some(id) {
        assert(steps[1] == click);
    }
}

/// A hover that is settled stays settled: to look again changes nothing and tells nobody.
pub proof fn looking_again_tells_nobody<S: Scalar, R: Ruler<S>>(
    st: Stage<R>,
    on: Surface<S>,
    p: Pointer<S>,
    at: Point<S>,
)
    requires
        p.at == Some(at),
    ensures
        ({
            let target = aimed_at(st, on, at);
            let once = pruned(st, p).over(target);
            &&& pruned(st, once).over(target) == once
            &&& hover_steps(pruned(st, once).hover, target, at) == Seq::<StepView>::empty()
        }),
{
    let target = aimed_at(st, on, at);
    if target is Some {
        the_topmost_is_hit(st, paint_order(st, on.root, on.width, on.height), at);
        assert(bool_at(st, target->0, "Interactable"@) is Some);
        assert(st.dom.alive(target->0));
    }
}

/// One that is there no more is not told that the pointer left it.
pub proof fn the_gone_are_not_left<S: Scalar, R: Ruler<S>>(
    st: Stage<R>,
    p: Pointer<S>,
    target: Option<usize>,
    at: Point<S>,
    id: usize,
)
    requires
        !st.dom.alive(id),
    ensures
        !hover_steps(pruned(st, p).hover, target, at).contains(
            aimed(id, KindView::MouseLeave, position(at)),
        ),
{
}

/// The wheel owes a repaint only where something scrolled.
pub proof fn the_wheel_repaints_what_it_scrolls<S: Scalar, R: Ruler<S>>(
    w: WorldView,
    st: Stage<R>,
    on: Surface<S>,
    at: Point<S>,
    delta: S,
    now: u64,
)
    requires
        !w.dom.dirty,
    ensures
        wheeled(w, st, on, at, delta, now).0.dom.dirty <==> wheeled(w, st, on, at, delta, now).0
            != w,
{
}

/// Does the pointer roll this element? It is a scrolling frame of which neither scrolling nor the
/// wheel was switched off.
pub open spec fn rolls<R>(st: Stage<R>, id: usize) -> bool {
    &&& st.dom.alive(id)
    &&& st.dom.node(id).class == "ScrollingFrame"@
    &&& st.dom.property(st.catalog, id, "ScrollingEnabled"@) != Some(ValueView::Bool(false))
    &&& st.dom.property(st.catalog, id, "ScrollWheelInputEnabled"@) != Some(ValueView::Bool(false))
}

/// An element, or what it is in so many steps up.
pub open spec fn up_from<R>(st: Stage<R>, id: usize, steps: int) -> usize {
    if steps == 0 {
        id
    } else {
        st.dom.ancestors(id)[steps - 1]
    }
}

/// What scrolls when the wheel turns over an element is the closest scrolling frame that takes the
/// wheel, of the element and all that it is in; nothing does only where there is none.
pub proof fn the_closest_takes_the_wheel<R>(st: Stage<R>, id: usize)
    ensures
        match scroller(st, id) {
            Some(s) => exists|k: int|
                0 <= k <= st.dom.ancestors(id).len() && s == #[trigger] up_from(st, id, k) && rolls(
                    st,
                    s,
                ) && forall|j: int| 0 <= j < k ==> !rolls(st, #[trigger] up_from(st, id, j)),
            None => forall|k: int|
                0 <= k <= st.dom.ancestors(id).len() ==> !rolls(st, #[trigger] up_from(st, id, k)),
        },
{
    let up = st.dom.ancestors(id);
    let wanted = |a: usize| takes_wheel(st, a);
    crate::members::first_is_first(up, wanted);
    assert forall|a: usize| takes_wheel(st, a) == #[trigger] rolls(st, a) by {}
    assert(up_from(st, id, 0) == id);
    if !takes_wheel(st, id) {
        match scroller(st, id) {
            Some(s) => {
                let i = choose|i: int|
                    0 <= i < up.len() && up[i] == s && wanted(up[i]) && forall|j: int|
                        0 <= j < i ==> !wanted(#[trigger] up[j]);
                assert(up_from(st, id, i + 1) == s);
                assert forall|j: int| 0 <= j < i + 1 implies !rolls(
                    st,
                    #[trigger] up_from(st, id, j),
                ) by {
                    if j > 0 {
                        assert(!wanted(up[j - 1]));
                    }
                }
            },
            None => {
                assert forall|k: int| 0 <= k <= up.len() implies !rolls(
                    st,
                    #[trigger] up_from(st, id, k),
                ) by {
                    if k > 0 {
                        assert(!wanted(up[k - 1]));
                    }
                }
            },
        }
    }
}

/// A turn of the wheel moves nothing but the canvas position of what scrolls, and tells of that
/// before it tells of the turn. Forward is a turn above zero.
pub proof fn a_turn_moves_one_canvas<S: Scalar, R: Ruler<S>>(
    w: WorldView,
    st: Stage<R>,
    on: Surface<S>,
    at: Point<S>,
    delta: S,
    now: u64,
    id: usize,
)
    requires
        st.dom == w.dom,
        aimed_at(st, on, at) == Some(id),
    ensures
        ({
            let (after, told) = wheeled(w, st, on, at, delta, now);
            let n = told.len();
            &&& after.focus == w.focus
            &&& n == 2 || n == 3
            &&& told[n - 2] == (StepView::FireAlive {
                to: id,
                kind: if S::of_int(0).less(delta) {
                    KindView::MouseWheelForward
                } else {
                    KindView::MouseWheelBackward
                },
                arg: ArgView::Position(at.x.single(), at.y.single()),
            })
            &&& told[n - 1] matches StepView::FireAlive { to, kind, arg: ArgView::Input(o) } && to
                == id && kind == KindView::InputChanged && o.user_input_type
                == InputType::MouseWheel && o.user_input_state == InputState::Change
                && o.position.x == at.x.single() && o.position.y == at.y.single() && o.delta.x
                == S::of_int(0).single() && o.delta.y == delta.single()
            &&& n == 2 ==> after == w
            &&& n == 3 ==> exists|c: usize|
                #![trigger rolls(st, c)]
                {
                    &&& scroller(st, id) == Some(c)
                    &&& rolls(st, c)
                    &&& told[0] == (StepView::Changed { id: c, name: "CanvasPosition"@ })
                    &&& after.dom.dirty
                    &&& forall|other: usize| other != c ==> (#[trigger] after.dom.alive(other)
                        == w.dom.alive(other)) && (w.dom.alive(other) ==> after.dom.node(other)
                        == w.dom.node(other))
                    &&& forall|key: Seq<char>|
                        key != "CanvasPosition"@ && w.dom.node(c).props.contains_key(key)
                            ==> after.dom.node(c).props.contains_key(key)
                            && #[trigger] after.dom.node(c).props[key] == w.dom.node(c).props[key]
                    &&& after.impulses.contains_key(c)
                    &&& after.impulses[c].at == now
                    &&& forall|other: usize|
                        other != c ==> #[trigger] after.impulses.contains_key(other)
                            == w.impulses.contains_key(other)
                }
        }),
{
    the_closest_takes_the_wheel(st, id);
    if let Some(c) = scroller(st, id) {
        assert(rolls(st, c));
    }
}

/// The steps of a fixed-point number within which sums and small multiples of a few of them are
/// exact.
pub open spec fn modest(x: Fixed) -> bool {
    -0x10_0000_0000_0000 <= x.steps <= 0x10_0000_0000_0000
}

/// A turn scrolls by forty for each unit against the turn, down unless the direction is across,
/// and never past either end: not before the start, and not so far that the content ends before
/// the window does.
pub proof fn a_turn_scrolls_by_forty<R: Ruler<Fixed>>(
    st: Stage<R>,
    on: Surface<Fixed>,
    id: usize,
    delta: Fixed,
    placed: Placed<Fixed>,
)
    requires
        place_of(paint_order(st, on.root, on.width, on.height), id) == Some(placed),
        modest(delta),
        modest(pair_at::<Fixed, R>(st, id, "CanvasPosition"@).x),
        modest(pair_at::<Fixed, R>(st, id, "CanvasPosition"@).y),
        modest(content(st, id, placed.rect).w),
        modest(content(st, id, placed.rect).h),
        modest(bounds_over(st, id, content(st, id, placed.rect), st.dom.kids(id).len()).x),
        modest(bounds_over(st, id, content(st, id, placed.rect), st.dom.kids(id).len()).y),
    ensures
        ({
            let from = pair_at::<Fixed, R>(st, id, "CanvasPosition"@);
            let window = content(st, id, placed.rect);
            let whole = bounds_over(st, id, window, st.dom.kids(id).len());
            let across = item_at(st, id, "ScrollingDirection"@, "ScrollingDirection"@, "X"@);
            let to = match scrolled_to(st, on, id, delta) {
                Some(p) => p,
                None => from,
            };
            let end_x = whole.x.steps - window.w.steps;
            let end_y = whole.y.steps - window.h.steps;
            let asked_x = from.x.steps - if across {
                40 * delta.steps
            } else {
                0
            };
            let asked_y = from.y.steps - if across {
                0
            } else {
                40 * delta.steps
            };
            &&& 0 <= to.x.steps && (to.x.steps <= end_x || to.x.steps == 0)
            &&& 0 <= to.y.steps && (to.y.steps <= end_y || to.y.steps == 0)
            &&& 0 <= asked_x <= end_x ==> to.x.steps == asked_x
            &&& 0 <= asked_y <= end_y ==> to.y.steps == asked_y
            &&& asked_x > end_x && end_x >= 0 ==> to.x.steps == end_x
            &&& asked_y > end_y && end_y >= 0 ==> to.y.steps == end_y
            &&& asked_x < 0 ==> to.x.steps == 0
            &&& asked_y < 0 ==> to.y.steps == 0
        }),
{
    let by = Fixed { steps: 0 }.difference(delta);
    assert(by.steps == -delta.steps);
    assert(Fixed::of_int(40).steps == 40 * 65536);
    assert(by.product(Fixed::of_int(40)).steps == -40 * delta.steps) by {
        assert((by.steps * (40 * 65536)) / 65536 == -40 * delta.steps) by (nonlinear_arith)
            requires
                by.steps == -delta.steps,
        ;
    }
}

/// The impulse of a turn is ten times its stride, in the direction in which the canvas moved.
pub proof fn a_turn_gives_an_impulse<R: Ruler<Fixed>>(
    w: WorldView,
    st: Stage<R>,
    on: Surface<Fixed>,
    at: Point<Fixed>,
    delta: Fixed,
    now: u64,
    id: usize,
    c: usize,
)
    requires
        modest(delta),
        aimed_at(st, on, at) == Some(id),
        scroller(st, id) == Some(c),
        scrolled_to(st, on, c, delta) is Some,
    ensures
        ({
            let impulse = wheeled(w, st, on, at, delta, now).0.impulses[c];
            let long = (Fixed { steps: (-400 * delta.steps) as i64 }).single();
            let none = (Fixed { steps: 0 }).single();
            if item_at(st, c, "ScrollingDirection"@, "ScrollingDirection"@, "X"@) {
                impulse.x == long && impulse.y == none
            } else {
                impulse.x == none && impulse.y == long
            }
        }),
{
    let by = Fixed { steps: 0 }.difference(delta);
    let long = by.product(Fixed::of_int(40));
    assert(by.steps == -delta.steps);
    assert(Fixed::of_int(40).steps == 40 * 65536);
    assert(Fixed::of_int(10).steps == 10 * 65536);
    assert(long.steps == -40 * delta.steps) by {
        assert((by.steps * (40 * 65536)) / 65536 == -40 * delta.steps) by (nonlinear_arith)
            requires
                by.steps == -delta.steps,
        ;
    }
    assert(long.product(Fixed::of_int(10)).steps == -400 * delta.steps) by {
        assert((long.steps * (10 * 65536)) / 65536 == -400 * delta.steps) by (nonlinear_arith)
            requires
                long.steps == -40 * delta.steps,
        ;
    }
    let zero = Fixed { steps: 0 };
    assert(zero.product(Fixed::of_int(10)).steps == 0);
    assert(Fixed::of_int(0) == zero);
}

/// An impulse lasts a quarter of a second: whole at its own time, gone from a quarter of a second
/// on, and never the other way round in between.
pub proof fn an_impulse_fades(w: WorldView, id: usize, now: u64)
    requires
        w.impulses.contains_key(id),
        modest(Fixed::of_single(w.impulses[id].x)),
        modest(Fixed::of_single(w.impulses[id].y)),
    ensures
        now <= w.impulses[id].at ==> velocity_of::<Fixed>(w, id, now).x == Fixed::of_single(
            w.impulses[id].x,
        ) && velocity_of::<Fixed>(w, id, now).y == Fixed::of_single(w.impulses[id].y),
        now >= w.impulses[id].at + 250_000_000 ==> velocity_of::<Fixed>(w, id, now).x.steps == 0
            && velocity_of::<Fixed>(w, id, now).y.steps == 0,
        now == w.impulses[id].at + 125_000_000 ==> velocity_of::<Fixed>(w, id, now).x.steps
            == Fixed::of_single(w.impulses[id].x).steps as int / 2 && velocity_of::<Fixed>(
            w,
            id,
            now,
        ).y.steps == Fixed::of_single(w.impulses[id].y).steps as int / 2,
{
    let impulse = w.impulses[id];
    let passed: int = if now > impulse.at {
        now - impulse.at
    } else {
        0
    };
    let whole = passed / 1_000_000_000;
    let rest = passed % 1_000_000_000;
    assert(Fixed::of_int(1_000_000_000).steps == 1_000_000_000 * 65536);
    assert(Fixed::of_int(1).steps == 65536);
    assert(Fixed::of_int(4).steps == 4 * 65536);
    let quarter = Fixed::of_int(1).quotient(Fixed::of_int(4));
    assert(quarter.steps == 16384);
    let part = Fixed::of_int(rest as i128).quotient(Fixed::of_int(1_000_000_000));
    assert(Fixed::of_int(rest as i128).steps == rest * 65536);
    assert(part.steps == (rest * 65536 * 65536) / (1_000_000_000int * 65536));
    let elapsed = seconds_between::<Fixed>(impulse.at, now);
    assert(0 <= whole <= 18446744073);
    assert(Fixed::of_int(whole as i128).steps == whole * 65536);
    assert(0 <= part.steps <= 65536);
    assert(elapsed.steps == whole * 65536 + part.steps);
    if now >= impulse.at + 250_000_000 {
        if whole == 0 {
            assert(rest >= 250_000_000);
            assert(part.steps >= 16384);
        }
    }
    let x = Fixed::of_single(impulse.x);
    let y = Fixed::of_single(impulse.y);
    if now <= impulse.at {
        assert(elapsed.steps == 0);
        let left = Fixed::of_int(1).difference(elapsed.quotient(quarter));
        assert(left.steps == 65536);
        assert(x.product(left) == x);
        assert(y.product(left) == y);
    }
    if now == impulse.at + 125_000_000 {
        assert(whole == 0 && rest == 125_000_000);
        assert(part.steps == 8192);
        let left = Fixed::of_int(1).difference(elapsed.quotient(quarter));
        assert(elapsed.quotient(quarter).steps == 32768);
        assert(left.steps == 32768);
        assert((x.steps * 32768) / 65536 == x.steps as int / 2);
        assert((y.steps * 32768) / 65536 == y.steps as int / 2);
    }
}

/// Within its quarter of a second what is left of an impulse is in proportion to the time that is
/// left: after `spent` of the 16384 steps of a quarter, so many of them are missing.
pub proof fn an_impulse_fades_evenly(w: WorldView, id: usize, now: u64, spent: int)
    requires
        w.impulses.contains_key(id),
        modest(Fixed::of_single(w.impulses[id].x)),
        modest(Fixed::of_single(w.impulses[id].y)),
        w.impulses[id].at <= now < w.impulses[id].at + 250_000_000,
        spent * 1_000_000_000 <= (now - w.impulses[id].at) * 65536 < (spent + 1) * 1_000_000_000,
    ensures
        velocity_of::<Fixed>(w, id, now).x.steps * 16384 <= Fixed::of_single(
            w.impulses[id].x,
        ).steps * (16384 - spent) < (velocity_of::<Fixed>(w, id, now).x.steps + 1) * 16384,
        velocity_of::<Fixed>(w, id, now).y.steps * 16384 <= Fixed::of_single(
            w.impulses[id].y,
        ).steps * (16384 - spent) < (velocity_of::<Fixed>(w, id, now).y.steps + 1) * 16384,
{
    let impulse = w.impulses[id];
    let passed: int = now - impulse.at;
    assert(passed / 1_000_000_000 == 0 && passed % 1_000_000_000 == passed);
    assert(Fixed::of_int(1_000_000_000).steps == 1_000_000_000 * 65536);
    assert(Fixed::of_int(1).steps == 65536);
    assert(Fixed::of_int(4).steps == 4 * 65536);
    assert(Fixed::of_int(0).steps == 0);
    let quarter = Fixed::of_int(1).quotient(Fixed::of_int(4));
    assert(quarter.steps == 16384);
    let part = Fixed::of_int(passed as i128).quotient(Fixed::of_int(1_000_000_000));
    assert(Fixed::of_int(passed as i128).steps == passed * 65536);
    assert(part.steps == (passed * 65536 * 65536) / (1_000_000_000int * 65536));
    assert(part.steps == spent);
    assert(0 <= spent < 16384);
    let elapsed = seconds_between::<Fixed>(impulse.at, now);
    assert(elapsed.steps == spent);
    let left = Fixed::of_int(1).difference(elapsed.quotient(quarter));
    assert(left.steps == 65536 - 4 * spent);
    faded(Fixed::of_single(impulse.x), left, spent);
    faded(Fixed::of_single(impulse.y), left, spent);
}

proof fn faded(x: Fixed, left: Fixed, spent: int)
    requires
        modest(x),
        0 <= spent < 16384,
        left.steps == 65536 - 4 * spent,
    ensures
        x.product(left).steps * 16384 <= x.steps * (16384 - spent) < (x.product(left).steps + 1)
            * 16384,
{
    let whole = x.steps * left.steps;
    let part = x.steps * (16384 - spent);
    assert(whole == 4 * part) by (nonlinear_arith)
        requires
            whole == x.steps * left.steps,
            part == x.steps * (16384 - spent),
            left.steps == 65536 - 4 * spent,
    ;
    let size: int = if x.steps < 0 { -x.steps } else { x.steps as int };
    assert(-(size * 65536) <= whole <= size * 65536) by (nonlinear_arith)
        requires
            whole == x.steps * left.steps,
            0 <= left.steps <= 65536,
            -size <= x.steps <= size,
            size >= 0,
    ;
    assert(-size <= whole / 65536 <= size);
    assert(x.product(left).steps == whole / 65536);
}

/// What is hit is alive and drawn, the point lies in it and in what is seen of it, and it stops the
/// pointer: it is active, or a text box, or a scrolling frame.
pub proof fn what_is_hit_is_under_the_pointer<R: Ruler<Fixed>>(
    st: Stage<R>,
    on: Surface<Fixed>,
    at: Point<Fixed>,
    id: usize,
)
    requires
        hit_at(st, on, at) == Some(id),
        forall|i: int|
            0 <= i < paint_order(st, on.root, on.width, on.height).len() ==> tidy(
                #[trigger] paint_order(st, on.root, on.width, on.height)[i],
            ),
    ensures
        st.dom.property(st.catalog, id, "Active"@) == Some(ValueView::Bool(true)) || (st.dom.alive(
            id,
        ) && (st.dom.node(id).class == "TextBox"@ || st.dom.node(id).class == "ScrollingFrame"@)),
        exists|i: int|
            {
                let p = #[trigger] paint_order(st, on.root, on.width, on.height)[i];
                &&& 0 <= i < paint_order(st, on.root, on.width, on.height).len()
                &&& p.id == id
                &&& p.rect.x.steps <= at.x.steps < p.rect.x.steps + p.rect.w.steps
                &&& p.rect.y.steps <= at.y.steps < p.rect.y.steps + p.rect.h.steps
                &&& p.clip matches Some(c) ==> c.x.steps <= at.x.steps < c.x.steps + c.w.steps
                    && c.y.steps <= at.y.steps < c.y.steps + c.h.steps
            },
{
    the_topmost_is_hit(st, paint_order(st, on.root, on.width, on.height), at);
}

/// Are the coordinates of an element and of its clip modest?
pub open spec fn tidy(p: Placed<Fixed>) -> bool {
    &&& modest(p.rect.x) && modest(p.rect.y) && modest(p.rect.w) && modest(p.rect.h)
    &&& p.clip matches Some(c) ==> modest(c.x) && modest(c.y) && modest(c.w) && modest(c.h)
}

/// An element that stops the pointer, with the point in it and in what is seen of it, is never
/// looked through: something is hit there, and it is drawn no earlier.
pub proof fn the_pointer_is_stopped<R: Ruler<Fixed>>(
    st: Stage<R>,
    on: Surface<Fixed>,
    at: Point<Fixed>,
    i: int,
)
    requires
        0 <= i < paint_order(st, on.root, on.width, on.height).len(),
        tidy(paint_order(st, on.root, on.width, on.height)[i]),
        ({
            let p = paint_order(st, on.root, on.width, on.height)[i];
            &&& st.dom.property(st.catalog, p.id, "Active"@) == Some(ValueView::Bool(true)) || (
            st.dom.alive(p.id) && (st.dom.node(p.id).class == "TextBox"@ || st.dom.node(p.id).class
                == "ScrollingFrame"@))
            &&& p.rect.x.steps <= at.x.steps < p.rect.x.steps + p.rect.w.steps
            &&& p.rect.y.steps <= at.y.steps < p.rect.y.steps + p.rect.h.steps
            &&& p.clip matches Some(c) ==> c.x.steps <= at.x.steps < c.x.steps + c.w.steps
                && c.y.steps <= at.y.steps < c.y.steps + c.h.steps
        }),
    ensures
        hit_at(st, on, at) is Some,
        exists|j: int|
            i <= j < paint_order(st, on.root, on.width, on.height).len() && (
            #[trigger] paint_order(st, on.root, on.width, on.height)[j]).id == hit_at(
                st,
                on,
                at,
            )->0,
{
    let list = paint_order(st, on.root, on.width, on.height);
    the_topmost_is_hit(st, list, at);
    assert(catches(st, list[i], at));
}

/// Of what is hit only what is interactable is told, and what is not still stops the pointer: what
/// is behind it is not told in its place.
pub proof fn only_the_interactable_is_told<S: Scalar, R: Ruler<S>>(
    st: Stage<R>,
    on: Surface<S>,
    at: Point<S>,
)
    ensures
        aimed_at(st, on, at) matches Some(id) ==> hit_at(st, on, at) == Some(id) && st.dom.property(
            st.catalog,
            id,
            "Interactable"@,
        ) == Some(ValueView::Bool(true)),
        hit_at(st, on, at) matches Some(id) ==> st.dom.property(st.catalog, id, "Interactable"@)
            == Some(ValueView::Bool(true)) ==> aimed_at(st, on, at) == Some(id),
{
}

/// An element that was told that a press began on it is told once that it ended, wherever the
/// button comes up, as long as its events are told; and nobody else is.
pub proof fn a_press_is_ended_where_it_began<S: Scalar, R>(
    st: Stage<R>,
    button: Button,
    pressed: usize,
    target: Option<usize>,
    at: Point<S>,
)
    ensures
        ({
            let told = ended_steps(st, button, Some(pressed), target, at);
            &&& st.dom.property(st.catalog, pressed, "Interactable"@) == Some(ValueView::Bool(true))
                ==> told.len() == 1 && (told[0] matches StepView::FireAlive {
                to,
                kind,
                arg: ArgView::Input(o),
            } && to == pressed && kind == KindView::InputEnded && o.user_input_state
                == InputState::End && o.position.x == at.x.single() && o.position.y
                == at.y.single())
            &&& st.dom.property(st.catalog, pressed, "Interactable"@) != Some(ValueView::Bool(true))
                ==> told.len() == 0
        }),
        ({
            let told = ended_steps(st, button, None, target, at);
            target is None ==> told.len() == 0
        }),
{
}

/// What the buttons are called, and that no two share an event.
pub proof fn buttons_have_their_own_events(a: Button, b: Button)
    requires
        a != b,
        a.has_events(),
        b.has_events(),
    ensures
        a.down_kind() != b.down_kind(),
        a.up_kind() != b.up_kind(),
        a.click_kind() != b.click_kind(),
        a.activation_kind() != b.activation_kind(),
        Button::Left.down_kind() == KindView::MouseButton1Down,
        Button::Left.up_kind() == KindView::MouseButton1Up,
        Button::Left.click_kind() == KindView::MouseButton1Click,
        Button::Left.activation_kind() == KindView::Activated,
        Button::Left.reported() == InputType::MouseButton1,
        Button::Right.down_kind() == KindView::MouseButton2Down,
        Button::Right.up_kind() == KindView::MouseButton2Up,
        Button::Right.click_kind() == KindView::MouseButton2Click,
        Button::Right.activation_kind() == KindView::SecondaryActivated,
        Button::Right.reported() == InputType::MouseButton2,
        Button::Middle.reported() == InputType::MouseButton3,
        !Button::Middle.has_events(),
{
}

/// A press tells the element under the pointer, and nobody else, that its input began; a button
/// with events of its own says so first.
pub proof fn a_press_tells_its_target<S: Scalar>(button: Button, id: usize, at: Point<S>)
    ensures
        press_steps(button, None, at).len() == 0,
        ({
            let told = press_steps(button, Some(id), at);
            let n = told.len();
            &&& n == if button == Button::Middle {
                1nat
            } else {
                2
            }
            &&& told[n - 1] matches StepView::FireAlive { to, kind, arg: ArgView::Input(o) } && to
                == id && kind == KindView::InputBegan && o.user_input_state == InputState::Begin
                && o.user_input_type == button.reported() && o.position.x == at.x.single()
                && o.position.y == at.y.single() && o.delta.x == S::of_int(0).single() && o.delta.y
                == S::of_int(0).single()
            &&& n == 2 ==> (told[0] matches StepView::FireAlive { to, kind, arg } && to == id
                && kind == button.down_kind() && arg == ArgView::Position(
                at.x.single(),
                at.y.single(),
            ))
        }),
{
}

/// To go from one element to another tells the first that it was left and then the second that it
/// was entered; to stay tells nobody.
pub proof fn leaving_comes_before_entering<S: Scalar>(
    from: Option<usize>,
    to: Option<usize>,
    at: Point<S>,
)
    ensures
        from == to ==> hover_steps(from, to, at).len() == 0,
        from != to ==> ({
            let told = hover_steps(from, to, at);
            let where_ = ArgView::Position(at.x.single(), at.y.single());
            &&& from matches Some(a) ==> told.len() > 0 && told[0] == (StepView::FireAlive {
                to: a,
                kind: KindView::MouseLeave,
                arg: where_,
            })
            &&& to matches Some(b) ==> told.len() > 0 && told.last() == (StepView::FireAlive {
                to: b,
                kind: KindView::MouseEnter,
                arg: where_,
            })
            &&& told.len() == (if from is Some {
                1nat
            } else {
                0
            }) + (if to is Some {
                1nat
            } else {
                0
            })
        }),
{
}

/// A movement is told to what is under the pointer, with how far it went since it was seen last.
pub proof fn a_movement_says_how_far(
    p: Pointer<Fixed>,
    id: usize,
    at: Point<Fixed>,
)
    requires
        modest(at.x),
        modest(at.y),
        p.at matches Some(q) ==> modest(q.x) && modest(q.y),
    ensures
        moved_steps(p, None::<usize>, at) == hover_steps(p.hover, None, at),
        ({
            let told = moved_steps(p, Some(id), at);
            let n = told.len();
            &&& n == hover_steps(p.hover, Some(id), at).len() + 2
            &&& told[n - 2] == (StepView::FireAlive {
                to: id,
                kind: KindView::MouseMoved,
                arg: ArgView::Position(at.x.single(), at.y.single()),
            })
            &&& told[n - 1] matches StepView::FireAlive { to, kind, arg: ArgView::Input(o) } && to
                == id && kind == KindView::InputChanged && o.user_input_type
                == InputType::MouseMovement && o.user_input_state == InputState::Change
                && o.position.x == at.x.single() && o.position.y == at.y.single() && (match p.at {
                Some(q) => o.delta.x == (Fixed { steps: (at.x.steps - q.x.steps) as i64 }).single()
                    && o.delta.y == (Fixed { steps: (at.y.steps - q.y.steps) as i64 }).single(),
                None => o.delta.x == (Fixed { steps: 0 }).single() && o.delta.y == (Fixed {
                    steps: 0,
                }).single(),
            })
        }),
{
    assert(moved_steps(p, None::<usize>, at) =~= hover_steps(p.hover, None, at));
    assert(Fixed::of_int(0).steps == 0);
}

/// Only the left button moves the focus. It takes it from who has it, unless it is pressed on just
/// that text box, and gives it to the text box that it is pressed on and to nothing else.
pub proof fn the_left_button_moves_the_focus<R>(
    st: Stage<R>,
    button: Button,
    target: Option<usize>,
    focus: Option<usize>,
)
    ensures
        ({
            let told = focus_steps(st, button, target, focus);
            let on_box = target is Some && st.dom.alive(target->0) && st.dom.node(target->0).class
                == "TextBox"@;
            let stays = button != Button::Left || (on_box && focus == target);
            &&& stays ==> told.len() == 0
            &&& !stays && focus is Some ==> told.len() > 0 && told[0] == (StepView::Lose {
                id: focus->0,
                entered: false,
            })
            &&& !stays && on_box ==> told.len() > 0 && told.last() == (StepView::TakeAlive {
                id: target->0,
            })
            &&& !stays ==> told.len() == (if focus is Some {
                1nat
            } else {
                0
            }) + (if on_box {
                1nat
            } else {
                0
            })
        }),
{
}

} // verus!
