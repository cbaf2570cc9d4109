//! What a guest has besides its instances: the focus, and how fast things scroll.

use crate::dom::Dom;
use crate::numbered::Numbered;
use crate::tree::DomView;
use vstd::prelude::*;

verus! {

/// A scroll impulse: pixels per second as singles, and the time that it was given at.
#[derive(Clone, Copy, Debug, PartialEq, Eq, Structural)]
pub struct Impulse {
    pub x: u32,
    pub y: u32,
    pub at: u64,
}

/// The instances of a guest, the one of them that has the focus, and the scroll impulses.
#[derive(Debug)]
pub struct World {
    pub dom: Dom,
    pub focus: Option<usize>,
    /// The last scroll impulse of each instance that had one.
    pub impulses: Numbered<Impulse>,
}

pub struct WorldView {
    pub dom: DomView,
    pub focus: Option<usize>,
    pub impulses: Map<usize, Impulse>,
}

impl View for World {
    type V = WorldView;

    open spec fn view(&self) -> WorldView {
        WorldView { dom: self.dom@, focus: self.focus, impulses: self.impulses@ }
    }
}

impl World {
    pub open spec fn ok(self) -> bool {
        self.dom.ok()
    }

    /// A world without instances.
    pub fn new() -> (r: World)
        ensures
            r.ok(),
            r@ == (WorldView {
                dom: DomView {
                    slots: Seq::empty(),
                    handlers: Seq::empty(),
                    dirty: true,
                    released: Set::empty(),
                    tags: Set::empty(),
                    service: None,
                },
                focus: None,
                impulses: Map::empty(),
            }),
    {
        World { dom: Dom::new(), focus: None, impulses: Numbered::new() }
    }

    /// Is this the instance that has the focus?
    pub fn is_focused(&self, id: usize) -> (r: bool)
        ensures
            r == (self@.focus == Some(id)),
    {
        match self.focus {
            Some(f) => f == id,
            None => false,
        }
    }

    /// Note a scroll impulse of an instance, in place of its last one.
    pub fn set_scroll_velocity(&mut self, id: usize, impulse: Impulse)
        ensures
            final(self).dom == old(self).dom,
            final(self)@ == (WorldView {
                impulses: old(self)@.impulses.insert(id, impulse),
                ..old(self)@
            }),
    {
        self.impulses.insert(id, impulse);
    }

    /// Forget the scroll impulse of an instance: it stands still at once.
    pub fn reset_scroll_velocity(&mut self, id: usize)
        ensures
            final(self).dom == old(self).dom,
            final(self)@ == (WorldView { impulses: old(self)@.impulses.remove(id), ..old(self)@ }),
    {
        self.impulses.remove(id);
    }
}

} // verus!
