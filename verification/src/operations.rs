//! The operations that tell a guest of something, each as what is to be done.

use crate::agenda::{step_views, Agenda, Arg, Step, StepView};
use crate::dom::Dom;
use crate::fault::{dead_instance, dead_message, Fault};
use crate::signal::Kind;
use vstd::prelude::*;

verus! {

/// Tell everyone who listens to an event of an instance.
pub fn fire(id: usize, kind: Kind, arg: Arg) -> (r: Agenda)
    ensures
        r@ == seq![StepView::Fire { to: id, kind: kind@, arg: arg@ }],
{
    Agenda::of(Step::Fire { to: id, kind, arg })
}

/// Tell everyone who listens to a change of a property, and then to any change.
pub fn property_changed(id: usize, property: &str) -> (r: Agenda)
    ensures
        r@ == seq![StepView::Changed { id, name: property@ }],
{
    Agenda::of(Step::Changed { id, name: property.to_owned() })
}

/// Tell everyone above an instance that it is about to leave.
pub fn leaving(id: usize) -> (r: Agenda)
    ensures
        r@ == seq![StepView::Leaving { id }],
{
    Agenda::of(Step::Leaving { id })
}

/// Tell everyone above an instance that it has arrived.
pub fn arrived(id: usize) -> (r: Agenda)
    ensures
        r@ == seq![StepView::Arrived { id }],
{
    Agenda::of(Step::Arrived { id })
}

/// Destroy an instance and everything under it.
pub fn destroy(id: usize) -> (r: Agenda)
    ensures
        r@ == seq![StepView::Destroy { id }],
{
    Agenda::of(Step::Destroy { id })
}

pub open spec fn clear_step() -> spec_fn(usize) -> StepView {
    |id: usize| StepView::Clear { id }
}

/// Destroy each child of an instance that is still there when its turn comes.
pub fn clear_all_children(dom: &Dom, id: usize) -> (r: Result<Agenda, Fault>)
    requires
        dom.ok(),
    ensures
        match r {
            Ok(a) => dom@.alive(id) && a@ == dom@.kids(id).map_values(clear_step()),
            Err(f) => !dom@.alive(id) && f@ == dead_message(),
        },
{
    if !dom.is_alive(id) {
        return Err(dead_instance());
    }
    let kids = dom.children(id);
    let mut list: Vec<Step> = Vec::new();
    let mut i: usize = 0;
    while i < kids.len()
        invariant
            i <= kids.len(),
            list@.len() == i,
            forall|j: int|
                0 <= j < i ==> (#[trigger] list@[j])@ == (StepView::Clear { id: kids@[j] }),
        decreases kids.len() - i,
    {
        list.push(Step::Clear { id: kids[i] });
        i += 1;
    }
    let ghost all = step_views(list@);
    assert(all =~= kids@.map_values(clear_step()));
    let mut r = Agenda::new();
    r.put_all(list);
    assert(r@ =~= all);
    Ok(r)
}

/// Give the focus to an instance, and tell who had it and who has it.
pub fn capture_focus(id: usize) -> (r: Agenda)
    ensures
        r@ == seq![StepView::Capture { id }],
{
    Agenda::of(Step::Capture { id })
}

/// Take the focus from an instance, if it has it, and tell it.
pub fn release_focus(id: usize, enter_pressed: bool) -> (r: Agenda)
    ensures
        r@ == seq![StepView::Release { id, entered: enter_pressed }],
{
    Agenda::of(Step::Release { id, entered: enter_pressed })
}

/// Forget what is kept of an instance that is being destroyed: the focus, its impulse and its tags.
pub fn on_destroy(id: usize) -> (r: Agenda)
    ensures
        r@ == seq![StepView::Forget { id }],
{
    Agenda::of(Step::Forget { id })
}

} // verus!
