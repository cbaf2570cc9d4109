//! The members of an instance that are not properties: its events and its methods.

use crate::dom::Dom;
use crate::fault::{dead_instance, dead_message, Fault};
use crate::guest::{Guest, GuestView};
use crate::reflection::{is_a_is_transitive, Catalog, CatalogView};
use crate::signal::{Kind, KindView};
use crate::text::{glue, same};
use crate::tree::DomView;
use vstd::prelude::*;

verus! {

/// A method of an instance.
#[derive(Clone, Copy, Debug, PartialEq, Eq, Structural)]
pub enum Method {
    ClearAllChildren,
    Destroy,
    FindFirstAncestor,
    FindFirstAncestorOfClass,
    FindFirstAncestorWhichIsA,
    FindFirstChild,
    FindFirstChildOfClass,
    FindFirstChildWhichIsA,
    FindFirstDescendant,
    GetChildren,
    GetDescendants,
    GetPropertyChangedSignal,
    IsA,
    IsAncestorOf,
    IsDescendantOf,
    CaptureFocus,
    ReleaseFocus,
    IsFocused,
    GetScrollVelocity,
    ResetScrollVelocity,
}

/// What a guest reads a member as: an event is read, a method is called.
#[derive(Debug)]
pub enum Member {
    Event(Kind),
    Method(Method),
}

pub enum MemberView {
    Event(KindView),
    Method(Method),
}

impl View for Member {
    type V = MemberView;

    open spec fn view(&self) -> MemberView {
        match self {
            Member::Event(k) => MemberView::Event(k@),
            Member::Method(m) => MemberView::Method(*m),
        }
    }
}

/// The events of a button.
pub open spec fn button_event(name: Seq<char>) -> Option<KindView> {
    if name == "Activated"@ {
        Some(KindView::Activated)
    } else if name == "SecondaryActivated"@ {
        Some(KindView::SecondaryActivated)
    } else if name == "MouseButton1Click"@ {
        Some(KindView::MouseButton1Click)
    } else if name == "MouseButton1Down"@ {
        Some(KindView::MouseButton1Down)
    } else if name == "MouseButton1Up"@ {
        Some(KindView::MouseButton1Up)
    } else if name == "MouseButton2Click"@ {
        Some(KindView::MouseButton2Click)
    } else if name == "MouseButton2Down"@ {
        Some(KindView::MouseButton2Down)
    } else if name == "MouseButton2Up"@ {
        Some(KindView::MouseButton2Up)
    } else {
        None
    }
}

/// The events of an object on the screen.
pub open spec fn object_event(name: Seq<char>) -> Option<KindView> {
    if name == "MouseEnter"@ {
        Some(KindView::MouseEnter)
    } else if name == "MouseLeave"@ {
        Some(KindView::MouseLeave)
    } else if name == "MouseMoved"@ {
        Some(KindView::MouseMoved)
    } else if name == "MouseWheelForward"@ {
        Some(KindView::MouseWheelForward)
    } else if name == "MouseWheelBackward"@ {
        Some(KindView::MouseWheelBackward)
    } else if name == "InputBegan"@ {
        Some(KindView::InputBegan)
    } else if name == "InputChanged"@ {
        Some(KindView::InputChanged)
    } else if name == "InputEnded"@ {
        Some(KindView::InputEnded)
    } else {
        None
    }
}

/// The events of any instance.
pub open spec fn instance_event(name: Seq<char>) -> Option<KindView> {
    if name == "Changed"@ {
        Some(KindView::Changed)
    } else if name == "ChildAdded"@ {
        Some(KindView::ChildAdded)
    } else if name == "ChildRemoved"@ {
        Some(KindView::ChildRemoved)
    } else if name == "DescendantAdded"@ {
        Some(KindView::DescendantAdded)
    } else if name == "DescendantRemoving"@ {
        Some(KindView::DescendantRemoving)
    } else if name == "Destroying"@ {
        Some(KindView::Destroying)
    } else {
        None
    }
}

/// The methods of any instance.
pub open spec fn method_named(name: Seq<char>) -> Option<Method> {
    if name == "ClearAllChildren"@ {
        Some(Method::ClearAllChildren)
    } else if name == "Destroy"@ {
        Some(Method::Destroy)
    } else if name == "FindFirstAncestor"@ {
        Some(Method::FindFirstAncestor)
    } else if name == "FindFirstAncestorOfClass"@ {
        Some(Method::FindFirstAncestorOfClass)
    } else if name == "FindFirstAncestorWhichIsA"@ {
        Some(Method::FindFirstAncestorWhichIsA)
    } else if name == "FindFirstChild"@ {
        Some(Method::FindFirstChild)
    } else if name == "FindFirstChildOfClass"@ {
        Some(Method::FindFirstChildOfClass)
    } else if name == "FindFirstChildWhichIsA"@ {
        Some(Method::FindFirstChildWhichIsA)
    } else if name == "FindFirstDescendant"@ {
        Some(Method::FindFirstDescendant)
    } else if name == "GetChildren"@ {
        Some(Method::GetChildren)
    } else if name == "GetDescendants"@ {
        Some(Method::GetDescendants)
    } else if name == "GetPropertyChangedSignal"@ {
        Some(Method::GetPropertyChangedSignal)
    } else if name == "IsA"@ {
        Some(Method::IsA)
    } else if name == "IsAncestorOf"@ {
        Some(Method::IsAncestorOf)
    } else if name == "IsDescendantOf"@ {
        Some(Method::IsDescendantOf)
    } else {
        None
    }
}

/// A member of this name, and the class that introduces it. A receiver has to be of that class,
/// or of one that descends from it.
pub open spec fn member_named(name: Seq<char>) -> Option<(MemberView, Seq<char>)> {
    match button_event(name) {
        Some(k) => Some((MemberView::Event(k), "GuiButton"@)),
        None => match object_event(name) {
            Some(k) => Some((MemberView::Event(k), "GuiObject"@)),
            None => match instance_event(name) {
                Some(k) => Some((MemberView::Event(k), "Instance"@)),
                None => match method_named(name) {
                    Some(m) => Some((MemberView::Method(m), "Instance"@)),
                    None => None,
                },
            },
        },
    }
}

/// The member that an instance of a class answers to a name with, if it answers.
pub open spec fn member_of(catalog: CatalogView, class: Seq<char>, name: Seq<char>) -> Option<
    MemberView,
> {
    match member_named(name) {
        Some((m, introduced_on)) => if catalog.is_a(class, introduced_on) {
            Some(m)
        } else {
            None
        },
        None => None,
    }
}

fn button(name: &str) -> (r: Option<Kind>)
    ensures
        match r {
            Some(k) => button_event(name@) == Some(k@),
            None => button_event(name@) is None,
        },
{
    if same(name, "Activated") {
        Some(Kind::Activated)
    } else if same(name, "SecondaryActivated") {
        Some(Kind::SecondaryActivated)
    } else if same(name, "MouseButton1Click") {
        Some(Kind::MouseButton1Click)
    } else if same(name, "MouseButton1Down") {
        Some(Kind::MouseButton1Down)
    } else if same(name, "MouseButton1Up") {
        Some(Kind::MouseButton1Up)
    } else if same(name, "MouseButton2Click") {
        Some(Kind::MouseButton2Click)
    } else if same(name, "MouseButton2Down") {
        Some(Kind::MouseButton2Down)
    } else if same(name, "MouseButton2Up") {
        Some(Kind::MouseButton2Up)
    } else {
        None
    }
}

fn object(name: &str) -> (r: Option<Kind>)
    ensures
        match r {
            Some(k) => object_event(name@) == Some(k@),
            None => object_event(name@) is None,
        },
{
    if same(name, "MouseEnter") {
        Some(Kind::MouseEnter)
    } else if same(name, "MouseLeave") {
        Some(Kind::MouseLeave)
    } else if same(name, "MouseMoved") {
        Some(Kind::MouseMoved)
    } else if same(name, "MouseWheelForward") {
        Some(Kind::MouseWheelForward)
    } else if same(name, "MouseWheelBackward") {
        Some(Kind::MouseWheelBackward)
    } else if same(name, "InputBegan") {
        Some(Kind::InputBegan)
    } else if same(name, "InputChanged") {
        Some(Kind::InputChanged)
    } else if same(name, "InputEnded") {
        Some(Kind::InputEnded)
    } else {
        None
    }
}

fn event(name: &str) -> (r: Option<Kind>)
    ensures
        match r {
            Some(k) => instance_event(name@) == Some(k@),
            None => instance_event(name@) is None,
        },
{
    if same(name, "Changed") {
        Some(Kind::Changed)
    } else if same(name, "ChildAdded") {
        Some(Kind::ChildAdded)
    } else if same(name, "ChildRemoved") {
        Some(Kind::ChildRemoved)
    } else if same(name, "DescendantAdded") {
        Some(Kind::DescendantAdded)
    } else if same(name, "DescendantRemoving") {
        Some(Kind::DescendantRemoving)
    } else if same(name, "Destroying") {
        Some(Kind::Destroying)
    } else {
        None
    }
}

fn method(name: &str) -> (r: Option<Method>)
    ensures
        r == method_named(name@),
{
    if same(name, "ClearAllChildren") {
        Some(Method::ClearAllChildren)
    } else if same(name, "Destroy") {
        Some(Method::Destroy)
    } else if same(name, "FindFirstAncestor") {
        Some(Method::FindFirstAncestor)
    } else if same(name, "FindFirstAncestorOfClass") {
        Some(Method::FindFirstAncestorOfClass)
    } else if same(name, "FindFirstAncestorWhichIsA") {
        Some(Method::FindFirstAncestorWhichIsA)
    } else if same(name, "FindFirstChild") {
        Some(Method::FindFirstChild)
    } else if same(name, "FindFirstChildOfClass") {
        Some(Method::FindFirstChildOfClass)
    } else if same(name, "FindFirstChildWhichIsA") {
        Some(Method::FindFirstChildWhichIsA)
    } else if same(name, "FindFirstDescendant") {
        Some(Method::FindFirstDescendant)
    } else if same(name, "GetChildren") {
        Some(Method::GetChildren)
    } else if same(name, "GetDescendants") {
        Some(Method::GetDescendants)
    } else if same(name, "GetPropertyChangedSignal") {
        Some(Method::GetPropertyChangedSignal)
    } else if same(name, "IsA") {
        Some(Method::IsA)
    } else if same(name, "IsAncestorOf") {
        Some(Method::IsAncestorOf)
    } else if same(name, "IsDescendantOf") {
        Some(Method::IsDescendantOf)
    } else {
        None
    }
}

/// The member that an instance of a class answers to a name with, if it answers.
pub fn lookup(catalog: &Catalog, class: &str, key: &str) -> (r: Option<Member>)
    ensures
        match r {
            Some(m) => member_of(catalog@, class@, key@) == Some(m@),
            None => member_of(catalog@, class@, key@) is None,
        },
{
    let (member, introduced_on) = match button(key) {
        Some(k) => (Member::Event(k), "GuiButton"),
        None => match object(key) {
            Some(k) => (Member::Event(k), "GuiObject"),
            None => match event(key) {
                Some(k) => (Member::Event(k), "Instance"),
                None => match method(key) {
                    Some(m) => (Member::Method(m), "Instance"),
                    None => return None,
                },
            },
        },
    };
    if catalog.class_is_a(class, introduced_on) {
        Some(member)
    } else {
        None
    }
}

/// Does an instance of a class answer to a member?
pub fn implements(catalog: &Catalog, class: &str, member: &str) -> (r: bool)
    ensures
        r == (member_of(catalog@, class@, member@) is Some),
{
    lookup(catalog, class, member).is_some()
}

// ---- attention ----

/// The events and the methods that have to do with the focus and with scrolling, each with the
/// class that introduces it. They are not counted among the members that are implemented.
pub open spec fn attention_named(name: Seq<char>) -> Option<(MemberView, Seq<char>)> {
    if name == "Focused"@ {
        Some((MemberView::Event(KindView::Focused), "TextBox"@))
    } else if name == "FocusLost"@ {
        Some((MemberView::Event(KindView::FocusLost), "TextBox"@))
    } else if name == "CaptureFocus"@ {
        Some((MemberView::Method(Method::CaptureFocus), "TextBox"@))
    } else if name == "ReleaseFocus"@ {
        Some((MemberView::Method(Method::ReleaseFocus), "TextBox"@))
    } else if name == "IsFocused"@ {
        Some((MemberView::Method(Method::IsFocused), "TextBox"@))
    } else if name == "GetScrollVelocity"@ {
        Some((MemberView::Method(Method::GetScrollVelocity), "ScrollingFrame"@))
    } else if name == "ResetScrollVelocity"@ {
        Some((MemberView::Method(Method::ResetScrollVelocity), "ScrollingFrame"@))
    } else {
        None
    }
}

/// What an instance of a class answers to a name that has to do with the focus or with scrolling.
pub open spec fn attention_of(catalog: CatalogView, class: Seq<char>, name: Seq<char>) -> Option<
    MemberView,
> {
    match attention_named(name) {
        Some((m, introduced_on)) => if catalog.is_a(class, introduced_on) {
            Some(m)
        } else {
            None
        },
        None => None,
    }
}

/// What an instance of a class answers to a name that has to do with the focus or with scrolling.
pub fn lookup_attention(catalog: &Catalog, class: &str, key: &str) -> (r: Option<Member>)
    ensures
        match r {
            Some(m) => attention_of(catalog@, class@, key@) == Some(m@),
            None => attention_of(catalog@, class@, key@) is None,
        },
{
    let (member, introduced_on) = if same(key, "Focused") {
        (Member::Event(Kind::Focused), "TextBox")
    } else if same(key, "FocusLost") {
        (Member::Event(Kind::FocusLost), "TextBox")
    } else if same(key, "CaptureFocus") {
        (Member::Method(Method::CaptureFocus), "TextBox")
    } else if same(key, "ReleaseFocus") {
        (Member::Method(Method::ReleaseFocus), "TextBox")
    } else if same(key, "IsFocused") {
        (Member::Method(Method::IsFocused), "TextBox")
    } else if same(key, "GetScrollVelocity") {
        (Member::Method(Method::GetScrollVelocity), "ScrollingFrame")
    } else if same(key, "ResetScrollVelocity") {
        (Member::Method(Method::ResetScrollVelocity), "ScrollingFrame")
    } else {
        return None;
    };
    if catalog.class_is_a(class, introduced_on) {
        Some(member)
    } else {
        None
    }
}

// ---- making and finding ----

/// Make an instance of a class, named for its class, or say why not.
pub fn create(dom: &mut Dom, catalog: &Catalog, class: &str) -> (r: Result<usize, Fault>)
    requires
        old(dom).ok(),
    ensures
        final(dom).ok(),
        match r {
            Ok(id) => catalog@.has_class(class@) && id == old(dom)@.slots.len() && final(dom)@
                == old(dom)@.inserted(class@, class@),
            Err(f) => !catalog@.has_class(class@) && f@ == class@ + " is not a valid class name"@
                && final(dom)@ == old(dom)@,
        },
{
    if !catalog.class_exists(class) {
        return Err(Fault { message: glue(class.to_owned(), " is not a valid class name") });
    }
    Ok(dom.insert(class.to_owned(), class.to_owned()))
}

/// What is looked for: an instance of a name, of a class, or of a class or what descends from it.
#[derive(Clone, Copy, Debug)]
pub enum Query<'a> {
    Named(&'a str),
    OfClass(&'a str),
    WhichIsA(&'a str),
}

/// Is this the instance that is looked for?
pub open spec fn sought<'a>(v: DomView, catalog: CatalogView, query: Query<'a>) -> spec_fn(
    usize,
) -> bool {
    |id: usize|
        v.alive(id) && match query {
            Query::Named(name) => v.node(id).name == name@,
            Query::OfClass(class) => v.node(id).class == class@,
            Query::WhichIsA(class) => catalog.is_a(v.node(id).class, class@),
        }
}

/// The first of a list that is wanted.
pub open spec fn first_of(list: Seq<usize>, wanted: spec_fn(usize) -> bool) -> Option<usize>
    decreases list.len(),
{
    if list.len() == 0 {
        None
    } else if wanted(list[0]) {
        Some(list[0])
    } else {
        first_of(list.skip(1), wanted)
    }
}

fn first(dom: &Dom, catalog: &Catalog, list: &Vec<usize>, query: Query) -> (r: Option<usize>)
    requires
        dom.ok(),
    ensures
        r == first_of(list@, sought(dom@, catalog@, query)),
{
    let ghost wanted = sought(dom@, catalog@, query);
    let mut i: usize = 0;
    assert(list@.skip(0) =~= list@);
    while i < list.len()
        invariant
            dom.ok(),
            i <= list.len(),
            wanted == sought(dom@, catalog@, query),
            first_of(list@, wanted) == first_of(list@.skip(i as int), wanted),
        decreases list.len() - i,
    {
        let id: usize = list[i];
        let hit = match query {
            Query::Named(name) => match dom.name_of(id) {
                Some(n) => same(n.as_str(), name),
                None => false,
            },
            Query::OfClass(class) => match dom.class_of(id) {
                Some(c) => same(c.as_str(), class),
                None => false,
            },
            Query::WhichIsA(class) => match dom.class_of(id) {
                Some(c) => catalog.class_is_a(c.as_str(), class),
                None => false,
            },
        };
        assert(list@.skip(i as int)[0] == id);
        assert(hit == wanted(id));
        if hit {
            return Some(id);
        }
        assert(list@.skip(i as int).skip(1) =~= list@.skip(i + 1));
        i += 1;
    }
    None
}

/// The children of an instance.
pub fn get_children(dom: &Dom, id: usize) -> (r: Result<Vec<usize>, Fault>)
    requires
        dom.ok(),
    ensures
        match r {
            Ok(list) => dom@.alive(id) && list@ == dom@.kids(id),
            Err(f) => !dom@.alive(id) && f@ == dead_message(),
        },
{
    if !dom.is_alive(id) {
        return Err(dead_instance());
    }
    Ok(dom.children(id))
}

/// Everything under an instance, each instance before its children.
pub fn get_descendants(dom: &Dom, id: usize) -> (r: Result<Vec<usize>, Fault>)
    requires
        dom.ok(),
    ensures
        match r {
            Ok(list) => dom@.alive(id) && list@ == dom@.descendants(id),
            Err(f) => !dom@.alive(id) && f@ == dead_message(),
        },
{
    if !dom.is_alive(id) {
        return Err(dead_instance());
    }
    Ok(dom.descendants(id))
}

/// The first child that is looked for or, with `recursive`, the first descendant.
pub fn find_child(dom: &Dom, catalog: &Catalog, id: usize, query: Query, recursive: bool) -> (r:
    Result<Option<usize>, Fault>)
    requires
        dom.ok(),
    ensures
        match r {
            Ok(hit) => dom@.alive(id) && hit == first_of(
                if recursive {
                    dom@.descendants(id)
                } else {
                    dom@.kids(id)
                },
                sought(dom@, catalog@, query),
            ),
            Err(f) => !dom@.alive(id) && f@ == dead_message(),
        },
{
    if !dom.is_alive(id) {
        return Err(dead_instance());
    }
    let pool = if recursive {
        dom.descendants(id)
    } else {
        dom.children(id)
    };
    Ok(first(dom, catalog, &pool, query))
}

/// The closest ancestor that is looked for.
pub fn find_ancestor(dom: &Dom, catalog: &Catalog, id: usize, query: Query) -> (r: Result<
    Option<usize>,
    Fault,
>)
    requires
        dom.ok(),
    ensures
        match r {
            Ok(hit) => dom@.alive(id) && hit == first_of(
                dom@.ancestors(id),
                sought(dom@, catalog@, query),
            ),
            Err(f) => !dom@.alive(id) && f@ == dead_message(),
        },
{
    if !dom.is_alive(id) {
        return Err(dead_instance());
    }
    Ok(first(dom, catalog, &dom.ancestors(id), query))
}

/// Is an instance of a class, or of one that descends from it?
pub fn is_a(dom: &Dom, catalog: &Catalog, id: usize, class: &str) -> (r: Result<bool, Fault>)
    requires
        dom.ok(),
    ensures
        match r {
            Ok(yes) => dom@.alive(id) && yes == catalog@.is_a(dom@.node(id).class, class@),
            Err(f) => !dom@.alive(id) && f@ == dead_message(),
        },
{
    match dom.class_of(id) {
        Some(own) => Ok(catalog.class_is_a(own.as_str(), class)),
        None => Err(dead_instance()),
    }
}

/// The instance behind an argument that has to be one.
pub fn instance_arg(value: &Guest, method: &str) -> (r: Result<usize, Fault>)
    ensures
        match r {
            Ok(id) => value@ == GuestView::Instance(id),
            Err(f) => !(value@ is Instance) && f@ == method@ + " expects an Instance, got "@
                + value@.word(),
        },
{
    match value {
        Guest::Instance(id) => Ok(*id),
        _ => Err(
            Fault {
                message: glue(
                    glue(method.to_owned(), " expects an Instance, got "),
                    value.word(),
                ),
            },
        ),
    }
}

/// Is an instance above another? No instance is above itself, and none is above one of another
/// arena.
pub fn is_ancestor_of(dom: &Dom, id: usize, other: usize, same_arena: bool) -> (r: Result<
    bool,
    Fault,
>)
    requires
        dom.ok(),
    ensures
        match r {
            Ok(yes) => dom@.alive(id) && yes == (same_arena && id != other && dom@.at_or_above(
                id,
                other,
            )),
            Err(f) => !dom@.alive(id) && f@ == dead_message(),
        },
{
    if !dom.is_alive(id) {
        return Err(dead_instance());
    }
    Ok(same_arena && id != other && dom.is_ancestor_of(id, other))
}

/// Is an instance under another? No instance is under itself, and none is under one of another
/// arena.
pub fn is_descendant_of(dom: &Dom, id: usize, other: usize, same_arena: bool) -> (r: Result<
    bool,
    Fault,
>)
    requires
        dom.ok(),
    ensures
        match r {
            Ok(yes) => dom@.alive(id) && yes == (same_arena && id != other && dom@.at_or_above(
                other,
                id,
            )),
            Err(f) => !dom@.alive(id) && f@ == dead_message(),
        },
{
    if !dom.is_alive(id) {
        return Err(dead_instance());
    }
    Ok(same_arena && id != other && dom.is_ancestor_of(other, id))
}

/// What is said of a name that is neither a property nor anything else of a class.
pub open spec fn no_such_member(key: Seq<char>, class: Seq<char>) -> Seq<char> {
    key + " is not a valid member of "@ + class
}

pub(crate) fn not_a_member(key: &str, class: &str) -> (r: Fault)
    ensures
        r@ == no_such_member(key@, class@),
{
    Fault { message: glue(glue(key.to_owned(), " is not a valid member of "), class) }
}

/// The event that a property of an instance changed. The property has to exist.
pub fn property_signal(dom: &Dom, catalog: &Catalog, id: usize, property: &str) -> (r: Result<
    Kind,
    Fault,
>)
    requires
        dom.ok(),
    ensures
        match r {
            Ok(k) => dom@.alive(id) && catalog@.property(dom@.node(id).class, property@) is Some
                && k@ == KindView::PropertyChanged(property@),
            Err(f) => if dom@.alive(id) {
                catalog@.property(dom@.node(id).class, property@) is None && f@ == no_such_member(
                    property@,
                    dom@.node(id).class,
                )
            } else {
                f@ == dead_message()
            },
        },
{
    match dom.class_of(id) {
        None => Err(dead_instance()),
        Some(class) => {
            if catalog.describe(class.as_str(), property).is_none() {
                return Err(not_a_member(property, class.as_str()));
            }
            Ok(Kind::PropertyChanged(property.to_owned()))
        },
    }
}

// ---- laws ----

/// What is found first is wanted, is in the list, and nothing before it is wanted; and where
/// nothing is found, nothing is wanted.
pub proof fn first_is_first(list: Seq<usize>, wanted: spec_fn(usize) -> bool)
    ensures
        match first_of(list, wanted) {
            Some(id) => wanted(id) && exists|k: int|
                0 <= k < list.len() && #[trigger] list[k] == id && forall|j: int|
                    0 <= j < k ==> !wanted(#[trigger] list[j]),
            None => forall|j: int| 0 <= j < list.len() ==> !wanted(#[trigger] list[j]),
        },
    decreases list.len(),
{
    if list.len() > 0 {
        if wanted(list[0]) {
            assert(list[0] == first_of(list, wanted)->0);
        } else {
            let rest = list.skip(1);
            first_is_first(rest, wanted);
            match first_of(rest, wanted) {
                Some(id) => {
                    let k = choose|k: int|
                        0 <= k < rest.len() && #[trigger] rest[k] == id && forall|j: int|
                            0 <= j < k ==> !wanted(#[trigger] rest[j]);
                    assert(list[k + 1] == id);
                    assert forall|j: int| 0 <= j < k + 1 implies !wanted(#[trigger] list[j]) by {
                        if j > 0 {
                            assert(rest[j - 1] == list[j]);
                        }
                    }
                },
                None => {
                    assert forall|j: int| 0 <= j < list.len() implies !wanted(#[trigger] list[j]) by {
                        if j > 0 {
                            assert(rest[j - 1] == list[j]);
                        }
                    }
                },
            }
        }
    }
}

/// A member of a class is a member of every class that descends from it.
pub proof fn members_are_inherited(
    catalog: CatalogView,
    class: Seq<char>,
    above: Seq<char>,
    name: Seq<char>,
)
    requires
        catalog.classes.dom().finite(),
        catalog.named_by_key(),
        catalog.is_a(class, above),
        member_of(catalog, above, name) is Some,
    ensures
        member_of(catalog, class, name) == member_of(catalog, above, name),
{
    let (_, introduced_on) = member_named(name)->Some_0;
    is_a_is_transitive(catalog, class, above, introduced_on);
}

/// Of two instances that both say of each other that it is above, one says so wrongly: to be
/// above is not symmetric.
pub proof fn ancestry_is_one_way(v: DomView, a: usize, b: usize)
    requires
        v.sound(),
        a != b,
        v.at_or_above(a, b),
    ensures
        !v.at_or_above(b, a),
{
    if v.at_or_above(b, a) {
        crate::tree::no_cycle(v, a, b);
    }
}

} // verus!
