//! What can be said of pointing, pressing and turning, whatever the pointer remembers.

use crate::agenda::{Agenda, ArgView, InputObject, InputState, InputType, StepView};
use crate::input::{aimed_at, hit_at, Button, Point, Pointer, Surface};
use crate::layout::{Layout, Ruler, Stage};
use crate::reflection::Catalog;
use crate::scalar::Scalar;
use crate::signal::KindView;
use crate::value::{ValueView, Vector2};
use crate::world::{Impulse, World};
use vstd::prelude::*;

verus! {

/// A pointer is over nothing and has nothing pressed before it was seen.
pub proof fn a_new_pointer_has_seen_nothing<S: Scalar>(r: Pointer<S>)
    requires
        call_ensures(Pointer::<S>::new, (), r),
    ensures
        r.hover is None && r.left is None && r.right is None && r.middle is None && r.at is None,
{
}

/// A pointer that moved was seen where it moved to and is over what it is aimed at; the buttons stay
/// as they were. What it left is told first, then what it entered, then what it moved on.
pub proof fn a_movement_is_noted<S: Scalar, R: Ruler<S>>(
    p: &mut Pointer<S>,
    scene: &Layout<R>,
    on: Surface<S>,
    at: Point<S>,
    r: Agenda,
    id: usize,
)
    requires
        call_ensures(Pointer::<S>::moved::<R>, (p, scene, on, at), r),
        aimed_at(scene@, on, at) == Some(id),
    ensures
        final(p).at == Some(at),
        final(p).hover == Some(id),
        final(p).left == old(p).left && final(p).right == old(p).right && final(p).middle
            == old(p).middle,
        r@.len() >= 2,
        r@[r@.len() - 2] == (StepView::FireAlive {
            to: id,
            kind: KindView::MouseMoved,
            arg: ArgView::Position(at.x.single(), at.y.single()),
        }),
        r@.last() matches StepView::FireAlive { to, kind, arg: ArgView::Input(o) } && to == id
            && kind == KindView::InputChanged && o.user_input_type == InputType::MouseMovement
            && o.user_input_state == InputState::Change && o.position == (Vector2 {
            x: at.x.single(),
            y: at.y.single(),
        }),
        old(p).hover == Some(id) ==> r@.len() == 2,
        old(p).hover is None ==> r@.len() == 3 && r@[0] == (StepView::FireAlive {
            to: id,
            kind: KindView::MouseEnter,
            arg: ArgView::Position(at.x.single(), at.y.single()),
        }),
        old(p).hover matches Some(was) && was != id ==> r@.len() == 4 && r@[0] == (
        StepView::FireAlive {
            to: old(p).hover->0,
            kind: KindView::MouseLeave,
            arg: ArgView::Position(at.x.single(), at.y.single()),
        }),
{
}

/// A pointer that moves where nothing is to be aimed at is over nothing, and only what it left is
/// told.
pub proof fn moving_away_is_told_to_what_was_left<S: Scalar, R: Ruler<S>>(
    p: &mut Pointer<S>,
    scene: &Layout<R>,
    on: Surface<S>,
    at: Point<S>,
    r: Agenda,
)
    requires
        call_ensures(Pointer::<S>::moved::<R>, (p, scene, on, at), r),
        aimed_at(scene@, on, at) is None,
    ensures
        final(p).hover is None && final(p).at == Some(at),
        old(p).hover is None ==> r@.len() == 0,
        old(p).hover matches Some(was) ==> r@ == seq![
            StepView::FireAlive {
                to: was,
                kind: KindView::MouseLeave,
                arg: ArgView::Position(at.x.single(), at.y.single()),
            },
        ],
{
}

/// A button that went down is held where it hit, and the other buttons stay as they were. Its own
/// event is told before the event of the input, at last of all.
pub proof fn a_press_is_noted<S: Scalar, R: Ruler<S>>(
    p: &mut Pointer<S>,
    scene: &Layout<R>,
    focus: Option<usize>,
    on: Surface<S>,
    button: Button,
    at: Point<S>,
    r: Agenda,
    id: usize,
)
    requires
        call_ensures(Pointer::<S>::down::<R>, (p, scene, focus, on, button, at), r),
        aimed_at(scene@, on, at) == Some(id),
    ensures
        final(p).at == Some(at) && final(p).hover == Some(id),
        button == Button::Left ==> final(p).left == hit_at(scene@, on, at) && final(p).right
            == old(p).right && final(p).middle == old(p).middle,
        button == Button::Right ==> final(p).right == hit_at(scene@, on, at) && final(p).left
            == old(p).left && final(p).middle == old(p).middle,
        button == Button::Middle ==> final(p).middle == hit_at(scene@, on, at) && final(p).left
            == old(p).left && final(p).right == old(p).right,
        r@.len() >= 1,
        r@.last() matches StepView::FireAlive { to, kind, arg: ArgView::Input(o) } && to == id
            && kind == KindView::InputBegan && o.user_input_state == InputState::Begin
            && o.user_input_type == (match button {
            Button::Left => InputType::MouseButton1,
            Button::Right => InputType::MouseButton2,
            Button::Middle => InputType::MouseButton3,
        }) && o.position == (Vector2 { x: at.x.single(), y: at.y.single() }),
        button != Button::Middle ==> r@.len() >= 2 && r@[r@.len() - 2] == (StepView::FireAlive {
            to: id,
            kind: if button == Button::Left {
                KindView::MouseButton1Down
            } else {
                KindView::MouseButton2Down
            },
            arg: ArgView::Position(at.x.single(), at.y.single()),
        }),
        button == Button::Left && focus is Some && !(scene@.dom.alive(id) && scene@.dom.node(
            id,
        ).class == "TextBox"@) ==> r@[0] == (StepView::Lose { id: focus->0, entered: false }),
        button != Button::Left ==> r@.len() <= 4,
{
}

/// A button that came up is held no more, and the other buttons stay as they were. Where it comes up
/// on what it went down on, that was clicked; elsewhere only its coming up is told; and the input
/// ends where it began.
pub proof fn a_release_is_noted<S: Scalar, R: Ruler<S>>(
    p: &mut Pointer<S>,
    scene: &Layout<R>,
    on: Surface<S>,
    button: Button,
    at: Point<S>,
    r: Agenda,
    id: usize,
)
    requires
        call_ensures(Pointer::<S>::up::<R>, (p, scene, on, button, at), r),
        aimed_at(scene@, on, at) == Some(id),
        old(p).hover == Some(id),
        button != Button::Middle,
    ensures
        final(p).at == Some(at) && final(p).hover == Some(id),
        button == Button::Left ==> final(p).left is None && final(p).right == old(p).right
            && final(p).middle == old(p).middle,
        button == Button::Right ==> final(p).right is None && final(p).left == old(p).left
            && final(p).middle == old(p).middle,
        ({
            let pressed = if button == Button::Left {
                old(p).left
            } else {
                old(p).right
            };
            let ended = if pressed is Some {
                pressed->0
            } else {
                id
            };
            let tell = scene@.dom.property(scene@.catalog, ended, "Interactable"@) == Some(
                ValueView::Bool(true),
            );
            let n: int = if pressed == Some(id) {
                3
            } else {
                1
            };
            &&& r@.len() == n + (if tell {
                1int
            } else {
                0
            })
            &&& r@[0] == (StepView::FireAlive {
                to: id,
                kind: if button == Button::Left {
                    KindView::MouseButton1Up
                } else {
                    KindView::MouseButton2Up
                },
                arg: ArgView::Position(at.x.single(), at.y.single()),
            })
            &&& pressed == Some(id) ==> r@[1] == (StepView::FireAlive {
                to: id,
                kind: if button == Button::Left {
                    KindView::MouseButton1Click
                } else {
                    KindView::MouseButton2Click
                },
                arg: ArgView::Nothing,
            })
            &&& pressed == Some(id) ==> (r@[2] matches StepView::FireAlive {
                to,
                kind,
                arg: ArgView::Activation(o),
            } && to == id && kind == (if button == Button::Left {
                KindView::Activated
            } else {
                KindView::SecondaryActivated
            }) && o.user_input_state == InputState::End)
            &&& tell ==> (r@.last() matches StepView::FireAlive {
                to,
                kind,
                arg: ArgView::Input(o),
            } && to == ended && kind == KindView::InputEnded && o.user_input_state
                == InputState::End)
        }),
{
}

/// The return key takes the focus from who has it and says that it was by the key; no other key
/// does anything.
pub proof fn the_return_key_ends_the_focus<S: Scalar>(
    p: &mut Pointer<S>,
    focus: Option<usize>,
    name: &str,
    r: Agenda,
)
    requires
        call_ensures(Pointer::<S>::key, (p, focus, name), r),
    ensures
        *final(p) == *old(p),
        name@ == "Return"@ && focus is Some ==> r@ == seq![
            StepView::Release { id: focus->0, entered: true },
        ],
        name@ != "Return"@ || focus is None ==> r@.len() == 0,
{
}

/// Looking again forgets what is gone: it is neither hovered over nor pressed any more, and is not
/// told; what is there stays pressed.
pub proof fn looking_again_forgets_the_gone<S: Scalar, R: Ruler<S>>(
    p: &mut Pointer<S>,
    scene: &Layout<R>,
    on: Surface<S>,
    r: Agenda,
    at: Point<S>,
)
    requires
        call_ensures(Pointer::<S>::refresh::<R>, (p, scene, on), r),
        old(p).at == Some(at),
    ensures
        final(p).at == old(p).at,
        final(p).hover == aimed_at(scene@, on, at),
        old(p).left matches Some(x) ==> final(p).left == (if scene@.dom.alive(x) {
            Some(x)
        } else {
            None
        }),
        old(p).right matches Some(x) ==> final(p).right == (if scene@.dom.alive(x) {
            Some(x)
        } else {
            None
        }),
        old(p).middle matches Some(x) ==> final(p).middle == (if scene@.dom.alive(x) {
            Some(x)
        } else {
            None
        }),
        old(p).left is None ==> final(p).left is None,
        old(p).hover matches Some(x) && !scene@.dom.alive(x) ==> forall|i: int|
            0 <= i < r@.len() ==> ((#[trigger] r@[i]) matches StepView::FireAlive { kind, .. }
                && kind == KindView::MouseEnter),
{
}

/// A wheel that turns tells what it turned over, forward for a turn up and backward for a turn down,
/// with how far; a wheel that does not turn tells nobody.
pub proof fn a_turn_is_told<S: Scalar, R: Ruler<S>>(
    p: &mut Pointer<S>,
    world: &mut World,
    catalog: &Catalog,
    ruler: &R,
    on: Surface<S>,
    at: Point<S>,
    delta: S,
    now: u64,
    r: Agenda,
    id: usize,
)
    requires
        call_ensures(
            Pointer::<S>::wheel::<R>,
            (p, world, catalog, ruler, on, at, delta, now),
            r,
        ),
        aimed_at(
            Stage { dom: old(world)@.dom, catalog: catalog@, ruler: *ruler },
            on,
            at,
        ) == Some(id),
    ensures
        delta.equal(S::of_int(0)) ==> r@.len() == 0 && *final(p) == *old(p) && final(world)@ == old(world)@,
        !delta.equal(S::of_int(0)) ==> {
            &&& final(p).at == Some(at) && final(p).hover == old(p).hover && final(p).left
                == old(p).left
            &&& r@.len() >= 2
            &&& r@[r@.len() - 2] == (StepView::FireAlive {
                to: id,
                kind: if S::of_int(0).less(delta) {
                    KindView::MouseWheelForward
                } else {
                    KindView::MouseWheelBackward
                },
                arg: ArgView::Position(at.x.single(), at.y.single()),
            })
            &&& r@.last() matches StepView::FireAlive { to, kind, arg: ArgView::Input(o) }
            &&& to == id && kind == KindView::InputChanged && o.user_input_type
                == InputType::MouseWheel && o.delta.y == delta.single() && o.position == (Vector2 {
                x: at.x.single(),
                y: at.y.single(),
            })
        },
        final(world)@.focus == old(world)@.focus,
{
}

/// A scroll impulse is noted for one instance in place of its last, and forgetting it leaves every
/// other; neither touches the instances or the focus.
pub proof fn impulses_are_kept_apart(
    w: &mut World,
    v: &mut World,
    id: usize,
    impulse: Impulse,
    other: usize,
)
    requires
        call_ensures(World::set_scroll_velocity, (w, id, impulse), ()),
        call_ensures(World::reset_scroll_velocity, (v, id), ()),
        other != id,
    ensures
        final(w)@.impulses.contains_key(id) && final(w)@.impulses[id] == impulse,
        final(w)@.impulses.contains_key(other) == old(w)@.impulses.contains_key(other),
        final(w)@.dom == old(w)@.dom && final(w)@.focus == old(w)@.focus,
        !final(v)@.impulses.contains_key(id),
        final(v)@.impulses.contains_key(other) == old(v)@.impulses.contains_key(other),
        final(v)@.dom == old(v)@.dom && final(v)@.focus == old(v)@.focus,
{
}

} // verus!
