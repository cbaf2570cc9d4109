//! Events.

use crate::text::{glue3, same};
use vstd::prelude::*;

verus! {

/// Which event on an instance. One value per signal that a guest can reach.
#[derive(Debug)]
pub enum Kind {
    Changed,
    PropertyChanged(String),
    ChildAdded,
    ChildRemoved,
    DescendantAdded,
    DescendantRemoving,
    Destroying,
    Activated,
    SecondaryActivated,
    MouseButton1Click,
    MouseButton1Down,
    MouseButton1Up,
    MouseButton2Click,
    MouseButton2Down,
    MouseButton2Up,
    MouseEnter,
    MouseLeave,
    MouseMoved,
    MouseWheelForward,
    MouseWheelBackward,
    InputBegan,
    InputChanged,
    InputEnded,
    Focused,
    FocusLost,
    TagAdded(String),
    TagRemoved(String),
}

pub enum KindView {
    Changed,
    PropertyChanged(Seq<char>),
    ChildAdded,
    ChildRemoved,
    DescendantAdded,
    DescendantRemoving,
    Destroying,
    Activated,
    SecondaryActivated,
    MouseButton1Click,
    MouseButton1Down,
    MouseButton1Up,
    MouseButton2Click,
    MouseButton2Down,
    MouseButton2Up,
    MouseEnter,
    MouseLeave,
    MouseMoved,
    MouseWheelForward,
    MouseWheelBackward,
    InputBegan,
    InputChanged,
    InputEnded,
    Focused,
    FocusLost,
    TagAdded(Seq<char>),
    TagRemoved(Seq<char>),
}

impl View for Kind {
    type V = KindView;

    open spec fn view(&self) -> KindView {
        match self {
            Kind::Changed => KindView::Changed,
            Kind::PropertyChanged(p) => KindView::PropertyChanged(p@),
            Kind::ChildAdded => KindView::ChildAdded,
            Kind::ChildRemoved => KindView::ChildRemoved,
            Kind::DescendantAdded => KindView::DescendantAdded,
            Kind::DescendantRemoving => KindView::DescendantRemoving,
            Kind::Destroying => KindView::Destroying,
            Kind::Activated => KindView::Activated,
            Kind::SecondaryActivated => KindView::SecondaryActivated,
            Kind::MouseButton1Click => KindView::MouseButton1Click,
            Kind::MouseButton1Down => KindView::MouseButton1Down,
            Kind::MouseButton1Up => KindView::MouseButton1Up,
            Kind::MouseButton2Click => KindView::MouseButton2Click,
            Kind::MouseButton2Down => KindView::MouseButton2Down,
            Kind::MouseButton2Up => KindView::MouseButton2Up,
            Kind::MouseEnter => KindView::MouseEnter,
            Kind::MouseLeave => KindView::MouseLeave,
            Kind::MouseMoved => KindView::MouseMoved,
            Kind::MouseWheelForward => KindView::MouseWheelForward,
            Kind::MouseWheelBackward => KindView::MouseWheelBackward,
            Kind::InputBegan => KindView::InputBegan,
            Kind::InputChanged => KindView::InputChanged,
            Kind::InputEnded => KindView::InputEnded,
            Kind::Focused => KindView::Focused,
            Kind::FocusLost => KindView::FocusLost,
            Kind::TagAdded(t) => KindView::TagAdded(t@),
            Kind::TagRemoved(t) => KindView::TagRemoved(t@),
        }
    }
}

impl KindView {
    /// What to call an event in a message.
    pub open spec fn label(self) -> Seq<char> {
        match self {
            KindView::Changed => "Changed"@,
            KindView::PropertyChanged(p) => "GetPropertyChangedSignal("@ + p + ")"@,
            KindView::ChildAdded => "ChildAdded"@,
            KindView::ChildRemoved => "ChildRemoved"@,
            KindView::DescendantAdded => "DescendantAdded"@,
            KindView::DescendantRemoving => "DescendantRemoving"@,
            KindView::Destroying => "Destroying"@,
            KindView::Activated => "Activated"@,
            KindView::SecondaryActivated => "SecondaryActivated"@,
            KindView::MouseButton1Click => "MouseButton1Click"@,
            KindView::MouseButton1Down => "MouseButton1Down"@,
            KindView::MouseButton1Up => "MouseButton1Up"@,
            KindView::MouseButton2Click => "MouseButton2Click"@,
            KindView::MouseButton2Down => "MouseButton2Down"@,
            KindView::MouseButton2Up => "MouseButton2Up"@,
            KindView::MouseEnter => "MouseEnter"@,
            KindView::MouseLeave => "MouseLeave"@,
            KindView::MouseMoved => "MouseMoved"@,
            KindView::MouseWheelForward => "MouseWheelForward"@,
            KindView::MouseWheelBackward => "MouseWheelBackward"@,
            KindView::InputBegan => "InputBegan"@,
            KindView::InputChanged => "InputChanged"@,
            KindView::InputEnded => "InputEnded"@,
            KindView::Focused => "Focused"@,
            KindView::FocusLost => "FocusLost"@,
            KindView::TagAdded(t) => "GetInstanceAddedSignal("@ + t + ")"@,
            KindView::TagRemoved(t) => "GetInstanceRemovedSignal("@ + t + ")"@,
        }
    }
}

impl Kind {
    /// What to call this in a message. Not a value that a guest sees.
    pub fn label(&self) -> (r: String)
        ensures
            r@ == self@.label(),
    {
        match self {
            Kind::Changed => "Changed".to_owned(),
            Kind::PropertyChanged(p) => glue3("GetPropertyChangedSignal(", p.as_str(), ")"),
            Kind::ChildAdded => "ChildAdded".to_owned(),
            Kind::ChildRemoved => "ChildRemoved".to_owned(),
            Kind::DescendantAdded => "DescendantAdded".to_owned(),
            Kind::DescendantRemoving => "DescendantRemoving".to_owned(),
            Kind::Destroying => "Destroying".to_owned(),
            Kind::Activated => "Activated".to_owned(),
            Kind::SecondaryActivated => "SecondaryActivated".to_owned(),
            Kind::MouseButton1Click => "MouseButton1Click".to_owned(),
            Kind::MouseButton1Down => "MouseButton1Down".to_owned(),
            Kind::MouseButton1Up => "MouseButton1Up".to_owned(),
            Kind::MouseButton2Click => "MouseButton2Click".to_owned(),
            Kind::MouseButton2Down => "MouseButton2Down".to_owned(),
            Kind::MouseButton2Up => "MouseButton2Up".to_owned(),
            Kind::MouseEnter => "MouseEnter".to_owned(),
            Kind::MouseLeave => "MouseLeave".to_owned(),
            Kind::MouseMoved => "MouseMoved".to_owned(),
            Kind::MouseWheelForward => "MouseWheelForward".to_owned(),
            Kind::MouseWheelBackward => "MouseWheelBackward".to_owned(),
            Kind::InputBegan => "InputBegan".to_owned(),
            Kind::InputChanged => "InputChanged".to_owned(),
            Kind::InputEnded => "InputEnded".to_owned(),
            Kind::Focused => "Focused".to_owned(),
            Kind::FocusLost => "FocusLost".to_owned(),
            Kind::TagAdded(t) => glue3("GetInstanceAddedSignal(", t.as_str(), ")"),
            Kind::TagRemoved(t) => glue3("GetInstanceRemovedSignal(", t.as_str(), ")"),
        }
    }

    /// Do the two name the same event?
    pub fn matches(&self, other: &Kind) -> (r: bool)
        ensures
            r == (self@ == other@),
    {
        match (self, other) {
            (Kind::Changed, Kind::Changed) => true,
            (Kind::PropertyChanged(a), Kind::PropertyChanged(b)) => same(a.as_str(), b.as_str()),
            (Kind::ChildAdded, Kind::ChildAdded) => true,
            (Kind::ChildRemoved, Kind::ChildRemoved) => true,
            (Kind::DescendantAdded, Kind::DescendantAdded) => true,
            (Kind::DescendantRemoving, Kind::DescendantRemoving) => true,
            (Kind::Destroying, Kind::Destroying) => true,
            (Kind::Activated, Kind::Activated) => true,
            (Kind::SecondaryActivated, Kind::SecondaryActivated) => true,
            (Kind::MouseButton1Click, Kind::MouseButton1Click) => true,
            (Kind::MouseButton1Down, Kind::MouseButton1Down) => true,
            (Kind::MouseButton1Up, Kind::MouseButton1Up) => true,
            (Kind::MouseButton2Click, Kind::MouseButton2Click) => true,
            (Kind::MouseButton2Down, Kind::MouseButton2Down) => true,
            (Kind::MouseButton2Up, Kind::MouseButton2Up) => true,
            (Kind::MouseEnter, Kind::MouseEnter) => true,
            (Kind::MouseLeave, Kind::MouseLeave) => true,
            (Kind::MouseMoved, Kind::MouseMoved) => true,
            (Kind::MouseWheelForward, Kind::MouseWheelForward) => true,
            (Kind::MouseWheelBackward, Kind::MouseWheelBackward) => true,
            (Kind::InputBegan, Kind::InputBegan) => true,
            (Kind::InputChanged, Kind::InputChanged) => true,
            (Kind::InputEnded, Kind::InputEnded) => true,
            (Kind::Focused, Kind::Focused) => true,
            (Kind::FocusLost, Kind::FocusLost) => true,
            (Kind::TagAdded(a), Kind::TagAdded(b)) => same(a.as_str(), b.as_str()),
            (Kind::TagRemoved(a), Kind::TagRemoved(b)) => same(a.as_str(), b.as_str()),
            _ => false,
        }
    }

    pub fn dup(&self) -> (r: Kind)
        ensures
            r@ == self@,
    {
        match self {
            Kind::Changed => Kind::Changed,
            Kind::PropertyChanged(p) => Kind::PropertyChanged(p.clone()),
            Kind::ChildAdded => Kind::ChildAdded,
            Kind::ChildRemoved => Kind::ChildRemoved,
            Kind::DescendantAdded => Kind::DescendantAdded,
            Kind::DescendantRemoving => Kind::DescendantRemoving,
            Kind::Destroying => Kind::Destroying,
            Kind::Activated => Kind::Activated,
            Kind::SecondaryActivated => Kind::SecondaryActivated,
            Kind::MouseButton1Click => Kind::MouseButton1Click,
            Kind::MouseButton1Down => Kind::MouseButton1Down,
            Kind::MouseButton1Up => Kind::MouseButton1Up,
            Kind::MouseButton2Click => Kind::MouseButton2Click,
            Kind::MouseButton2Down => Kind::MouseButton2Down,
            Kind::MouseButton2Up => Kind::MouseButton2Up,
            Kind::MouseEnter => Kind::MouseEnter,
            Kind::MouseLeave => Kind::MouseLeave,
            Kind::MouseMoved => Kind::MouseMoved,
            Kind::MouseWheelForward => Kind::MouseWheelForward,
            Kind::MouseWheelBackward => Kind::MouseWheelBackward,
            Kind::InputBegan => Kind::InputBegan,
            Kind::InputChanged => Kind::InputChanged,
            Kind::InputEnded => Kind::InputEnded,
            Kind::Focused => Kind::Focused,
            Kind::FocusLost => Kind::FocusLost,
            Kind::TagAdded(t) => Kind::TagAdded(t.clone()),
            Kind::TagRemoved(t) => Kind::TagRemoved(t.clone()),
        }
    }
}

} // verus!
