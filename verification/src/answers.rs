//! What can be said of what instances answer, whatever they are asked through.

use crate::agenda::StepView;
use crate::dom::Dom;
use crate::fault::Fault;
use crate::guest::{Guest, GuestView, Shown};
use crate::instance::{assignment, index, text_of, Reading};
use crate::members::{
    attention_named, find_ancestor, find_child, first_is_first, get_children, get_descendants,
    instance_arg, is_a, is_ancestor_of, is_descendant_of, lookup, member_named, property_signal,
    sought, Member, MemberView, Method, Query,
};
use crate::reflection::{Catalog, CatalogView};
use crate::signal::{Kind, KindView};
use crate::style::{parse, Selector, SelectorView};
use crate::tree::DomView;
use crate::value::{DataTypeView, DescriptorView, TypeView, ValueView};
use crate::world::WorldView;
use vstd::prelude::*;

verus! {

// ---- reading ----

/// Whatever else is there, an instance answers to these three with its class, its name and its
/// parent; one that is gone answers to nothing.
pub proof fn every_instance_answers_to_three_names(
    dom: Dom,
    catalog: Catalog,
    id: usize,
    class: Result<Reading, Fault>,
    name: Result<Reading, Fault>,
    parent: Result<Reading, Fault>,
    text: String,
)
    requires
        call_ensures(index, (&dom, &catalog, id, "ClassName"), class),
        call_ensures(index, (&dom, &catalog, id, "Name"), name),
        call_ensures(index, (&dom, &catalog, id, "Parent"), parent),
        call_ensures(text_of, (&dom, id), text),
    ensures
        dom@.alive(id) ==> {
            &&& class matches Ok(Reading::Text(t)) && t@ == dom@.node(id).class
            &&& name matches Ok(Reading::Text(t)) && t@ == dom@.node(id).name
            &&& dom@.node(id).parent matches Some(p) ==> (parent matches Ok(Reading::Instance(x))
                && x == p)
            &&& dom@.node(id).parent is None ==> (parent matches Ok(Reading::Nil))
            &&& text@ == dom@.node(id).name
        },
        !dom@.alive(id) ==> class is Err && name is Err && parent is Err && text@ == "<destroyed>"@,
{
    reveal_strlit("ClassName");
    reveal_strlit("Name");
    reveal_strlit("Parent");
    assert("ClassName"@.len() == 9 && "Name"@.len() == 4 && "Parent"@.len() == 6);
}

/// A property answers with what was assigned to it, and a child of the same name does not stand in
/// its way; where there is neither property nor member of a name, the first child of that name
/// answers.
pub proof fn a_property_comes_before_a_child(
    dom: Dom,
    catalog: Catalog,
    id: usize,
    key: &str,
    d: DescriptorView,
    v: ValueView,
    r: Result<Reading, Fault>,
)
    requires
        call_ensures(index, (&dom, &catalog, id, key), r),
        dom@.alive(id),
        key@ != "ClassName"@ && key@ != "Name"@ && key@ != "Parent"@,
        member_named(key@) is None,
        attention_named(key@) is None,
    ensures
        catalog@.property(dom@.node(id).class, key@) == Some(d) && d.data_type is Value
            && dom@.property(catalog@, id, key@) == Some(v) && !(v is Enum) && !(v is Other) ==> (
        r matches Ok(Reading::Shown(Shown::Value(x))) && x@ == v),
        catalog@.property(dom@.node(id).class, key@) is None ==> match r {
            Ok(Reading::Instance(c)) => dom@.kids(id).contains(c) && dom@.alive(c) && dom@.node(
                c,
            ).name == key@,
            Ok(_) => false,
            Err(_) => forall|j: int|
                0 <= j < dom@.kids(id).len() ==> !(dom@.alive(#[trigger] dom@.kids(id)[j])
                    && dom@.node(dom@.kids(id)[j]).name == key@),
        },
{
    let wanted = |c: usize| dom@.alive(c) && dom@.node(c).name == key@;
    let kids = dom@.kids(id);
    first_is_first(kids, wanted);
    match crate::members::first_of(kids, wanted) {
        Some(c) => {
            assert(wanted(c));
        },
        None => {
            assert forall|j: int| 0 <= j < kids.len() implies !(dom@.alive(#[trigger] kids[j])
                && dom@.node(kids[j]).name == key@) by {
                assert(!wanted(kids[j]));
            }
        },
    }
}

/// What was assigned to an instance counts before a default, and a default before nothing.
pub proof fn an_assigned_value_counts_before_a_default(
    v: DomView,
    catalog: CatalogView,
    id: usize,
    key: Seq<char>,
)
    requires
        v.alive(id),
    ensures
        v.node(id).props.contains_key(key) ==> v.property(catalog, id, key) == Some(
            v.node(id).props[key],
        ),
        !v.node(id).props.contains_key(key) ==> v.property(catalog, id, key) == catalog.default(
            v.node(id).class,
            key,
        ),
{
}

// ---- assigning ----

/// A name is assigned as a text and nothing else: the instance bears it then, everything else
/// stays, and its change is told; a name that it bears already changes nothing.
pub proof fn a_name_is_assigned(
    w: WorldView,
    catalog: CatalogView,
    id: usize,
    g: GuestView,
    other: usize,
)
    requires
        w.dom.alive(id),
    ensures
        ({
            let r = assignment(w, catalog, id, "Name"@, g);
            &&& r is Ok == g is Text
            &&& g matches GuestView::Text(t) ==> {
                let (next, steps) = r->Ok_0;
                &&& next.dom.alive(id)
                &&& next.dom.node(id).name == t
                &&& next.dom.node(id).class == w.dom.node(id).class
                &&& next.dom.node(id).parent == w.dom.node(id).parent
                &&& next.dom.node(id).children == w.dom.node(id).children
                &&& other != id && w.dom.alive(other) ==> next.dom.node(other) == w.dom.node(other)
                &&& t == w.dom.node(id).name ==> next == w && steps.len() == 0
                &&& t != w.dom.node(id).name ==> steps == seq![
                    StepView::Changed { id, name: "Name"@ },
                ] && next.dom.dirty
            }
        }),
{
    reveal_strlit("ClassName");
    reveal_strlit("Name");
    assert("ClassName"@.len() != "Name"@.len());
}

/// A parent is assigned as an instance or as nothing. One that is gone and one that is the instance
/// itself or under it are refused; the parent that it has already changes nothing; and otherwise
/// the instance leaves before it moves.
pub proof fn a_parent_is_assigned(
    w: WorldView,
    catalog: CatalogView,
    id: usize,
    g: GuestView,
)
    requires
        w.dom.alive(id),
    ensures
        ({
            let r = assignment(w, catalog, id, "Parent"@, g);
            let none = Seq::<StepView>::empty();
            match g {
                GuestView::Nil => r is Ok && (r->Ok_0).0 == w && (r->Ok_0).1 == (if w.dom.node(
                    id,
                ).parent is None {
                    none
                } else {
                    seq![StepView::Leaving { id }, StepView::Move { id, under: None }]
                }),
                GuestView::Instance(p) => {
                    &&& r is Ok == (w.dom.alive(p) && !w.dom.at_or_above(id, p))
                    &&& r is Ok ==> (r->Ok_0).0 == w && (r->Ok_0).1 == (if w.dom.node(id).parent
                        == Some(p) {
                        none
                    } else {
                        seq![StepView::Leaving { id }, StepView::Move { id, under: Some(p) }]
                    })
                },
                _ => r is Err,
            }
        }),
{
    reveal_strlit("ClassName");
    reveal_strlit("Name");
    reveal_strlit("Parent");
    assert("ClassName"@.len() == 9 && "Name"@.len() == 4 && "Parent"@.len() == 6);
}

/// The class of an instance is never assigned, and nothing of an instance that is gone is.
pub proof fn a_class_is_never_assigned(
    w: WorldView,
    catalog: CatalogView,
    id: usize,
    key: Seq<char>,
    g: GuestView,
)
    ensures
        assignment(w, catalog, id, "ClassName"@, g) is Err,
        !w.dom.alive(id) ==> assignment(w, catalog, id, key, g) is Err,
{
}

/// A property that can be assigned holds the value of its type then, and its change is told and
/// asks for a repaint, unless it read that value already; one that is read-only or not there is
/// refused.
pub proof fn a_property_is_assigned(
    w: WorldView,
    catalog: CatalogView,
    id: usize,
    key: Seq<char>,
    on: bool,
)
    requires
        w.dom.alive(id),
        key != "ClassName"@ && key != "Name"@ && key != "Parent"@,
    ensures
        ({
            let r = assignment(w, catalog, id, key, GuestView::Bool(on));
            match catalog.property(w.dom.node(id).class, key) {
                None => r is Err,
                Some(d) => {
                    &&& !d.writable ==> r is Err
                    &&& d.writable && d.data_type == DataTypeView::Value(TypeView::Bool) ==> {
                        &&& r is Ok
                        &&& w.dom.property(catalog, id, key) == Some(ValueView::Bool(on))
                            ==> (r->Ok_0).0 == w && (r->Ok_0).1.len() == 0
                        &&& w.dom.property(catalog, id, key) != Some(ValueView::Bool(on)) ==> (
                        r->Ok_0).0.dom.node(id).props == w.dom.node(id).props.insert(
                            key,
                            ValueView::Bool(on),
                        ) && (r->Ok_0).1 == seq![StepView::Changed { id, name: key }] && (
                        r->Ok_0).0.dom.dirty
                    }
                    &&& d.data_type is Enum ==> r is Err
                },
            }
        }),
{
}

// ---- events and methods ----

/// Every event is read under its own name, from the class on that has it.
pub proof fn an_event_bears_its_own_name(name: Seq<char>, k: KindView, from: Seq<char>)
    requires
        member_named(name) == Some((MemberView::Event(k), from)) || attention_named(name) == Some(
            (MemberView::Event(k), from),
        ),
    ensures
        match k {
            KindView::Activated => name == "Activated"@ && from == "GuiButton"@,
            KindView::SecondaryActivated => name == "SecondaryActivated"@ && from == "GuiButton"@,
            KindView::MouseButton1Click => name == "MouseButton1Click"@ && from == "GuiButton"@,
            KindView::MouseButton1Down => name == "MouseButton1Down"@ && from == "GuiButton"@,
            KindView::MouseButton1Up => name == "MouseButton1Up"@ && from == "GuiButton"@,
            KindView::MouseButton2Click => name == "MouseButton2Click"@ && from == "GuiButton"@,
            KindView::MouseButton2Down => name == "MouseButton2Down"@ && from == "GuiButton"@,
            KindView::MouseButton2Up => name == "MouseButton2Up"@ && from == "GuiButton"@,
            KindView::MouseEnter => name == "MouseEnter"@ && from == "GuiObject"@,
            KindView::MouseLeave => name == "MouseLeave"@ && from == "GuiObject"@,
            KindView::MouseMoved => name == "MouseMoved"@ && from == "GuiObject"@,
            KindView::MouseWheelForward => name == "MouseWheelForward"@ && from == "GuiObject"@,
            KindView::MouseWheelBackward => name == "MouseWheelBackward"@ && from == "GuiObject"@,
            KindView::InputBegan => name == "InputBegan"@ && from == "GuiObject"@,
            KindView::InputChanged => name == "InputChanged"@ && from == "GuiObject"@,
            KindView::InputEnded => name == "InputEnded"@ && from == "GuiObject"@,
            KindView::Changed => name == "Changed"@ && from == "Instance"@,
            KindView::ChildAdded => name == "ChildAdded"@ && from == "Instance"@,
            KindView::ChildRemoved => name == "ChildRemoved"@ && from == "Instance"@,
            KindView::DescendantAdded => name == "DescendantAdded"@ && from == "Instance"@,
            KindView::DescendantRemoving => name == "DescendantRemoving"@ && from == "Instance"@,
            KindView::Destroying => name == "Destroying"@ && from == "Instance"@,
            KindView::Focused => name == "Focused"@ && from == "TextBox"@,
            KindView::FocusLost => name == "FocusLost"@ && from == "TextBox"@,
            KindView::PropertyChanged(_) | KindView::TagAdded(_) | KindView::TagRemoved(_) => false,
        },
{
}

/// Every method is called by its own name, from the class on that has it.
pub proof fn a_method_bears_its_own_name(name: Seq<char>, m: Method, from: Seq<char>)
    requires
        member_named(name) == Some((MemberView::Method(m), from)) || attention_named(name) == Some(
            (MemberView::Method(m), from),
        ),
    ensures
        match m {
            Method::ClearAllChildren => name == "ClearAllChildren"@ && from == "Instance"@,
            Method::Destroy => name == "Destroy"@ && from == "Instance"@,
            Method::FindFirstAncestor => name == "FindFirstAncestor"@ && from == "Instance"@,
            Method::FindFirstAncestorOfClass => name == "FindFirstAncestorOfClass"@ && from
                == "Instance"@,
            Method::FindFirstAncestorWhichIsA => name == "FindFirstAncestorWhichIsA"@ && from
                == "Instance"@,
            Method::FindFirstChild => name == "FindFirstChild"@ && from == "Instance"@,
            Method::FindFirstChildOfClass => name == "FindFirstChildOfClass"@ && from
                == "Instance"@,
            Method::FindFirstChildWhichIsA => name == "FindFirstChildWhichIsA"@ && from
                == "Instance"@,
            Method::FindFirstDescendant => name == "FindFirstDescendant"@ && from == "Instance"@,
            Method::GetChildren => name == "GetChildren"@ && from == "Instance"@,
            Method::GetDescendants => name == "GetDescendants"@ && from == "Instance"@,
            Method::GetPropertyChangedSignal => name == "GetPropertyChangedSignal"@ && from
                == "Instance"@,
            Method::IsA => name == "IsA"@ && from == "Instance"@,
            Method::IsAncestorOf => name == "IsAncestorOf"@ && from == "Instance"@,
            Method::IsDescendantOf => name == "IsDescendantOf"@ && from == "Instance"@,
            Method::CaptureFocus => name == "CaptureFocus"@ && from == "TextBox"@,
            Method::ReleaseFocus => name == "ReleaseFocus"@ && from == "TextBox"@,
            Method::IsFocused => name == "IsFocused"@ && from == "TextBox"@,
            Method::GetScrollVelocity => name == "GetScrollVelocity"@ && from == "ScrollingFrame"@,
            Method::ResetScrollVelocity => name == "ResetScrollVelocity"@ && from
                == "ScrollingFrame"@,
        },
{
}

/// A name of the table is answered by an instance of the class that introduces it, or of one that
/// descends from that, and by no other.
pub proof fn a_member_is_for_its_class(
    catalog: Catalog,
    class: &str,
    key: &str,
    m: MemberView,
    from: Seq<char>,
    r: Option<Member>,
)
    requires
        call_ensures(lookup, (&catalog, class, key), r),
        member_named(key@) == Some((m, from)),
    ensures
        r is Some == catalog@.is_a(class@, from),
        r is Some ==> r->0@ == m,
{
}

/// The event of a property is there exactly for a property that there is, and is of that property.
pub proof fn the_event_of_a_property(
    dom: Dom,
    catalog: Catalog,
    id: usize,
    property: &str,
    r: Result<Kind, Fault>,
)
    requires
        call_ensures(property_signal, (&dom, &catalog, id, property), r),
    ensures
        r is Ok == (dom@.alive(id) && catalog@.property(dom@.node(id).class, property@) is Some),
        r is Ok ==> r->Ok_0@ == KindView::PropertyChanged(property@),
{
}

// ---- finding ----

/// What is found among the children of an instance is one of them and is what was asked for, and no
/// child before it is; where nothing is found, no child is.
pub proof fn the_first_child_is_found(
    dom: Dom,
    catalog: Catalog,
    id: usize,
    name: &str,
    class: &str,
    a: Result<Option<usize>, Fault>,
    b: Result<Option<usize>, Fault>,
    c: Result<Option<usize>, Fault>,
)
    requires
        dom@.alive(id),
        dom@.sound(),
        call_ensures(find_child, (&dom, &catalog, id, Query::Named(name), false), a),
        call_ensures(find_child, (&dom, &catalog, id, Query::OfClass(class), false), b),
        call_ensures(find_child, (&dom, &catalog, id, Query::WhichIsA(class), true), c),
    ensures
        a is Ok && b is Ok && c is Ok,
        a matches Ok(Some(x)) ==> dom@.parent(x) == Some(id) && dom@.node(x).name == name@,
        a matches Ok(None) ==> forall|j: int|
            0 <= j < dom@.kids(id).len() ==> dom@.node(#[trigger] dom@.kids(id)[j]).name != name@,
        b matches Ok(Some(x)) ==> dom@.parent(x) == Some(id) && dom@.node(x).class == class@,
        b matches Ok(None) ==> forall|j: int|
            0 <= j < dom@.kids(id).len() ==> dom@.node(#[trigger] dom@.kids(id)[j]).class
                != class@,
        c matches Ok(Some(x)) ==> dom@.descendants(id).contains(x) && catalog@.is_a(
            dom@.node(x).class,
            class@,
        ),
{
    let kids = dom@.kids(id);
    let all = dom@.descendants(id);
    let p = sought(dom@, catalog@, Query::Named(name));
    let q = sought(dom@, catalog@, Query::OfClass(class));
    let s = sought(dom@, catalog@, Query::WhichIsA(class));
    first_is_first(kids, p);
    first_is_first(kids, q);
    first_is_first(all, s);
    assert forall|j: int| 0 <= j < kids.len() implies dom@.alive(#[trigger] kids[j])
        && dom@.parent(kids[j]) == Some(id) by {}
    if let Ok(Some(x)) = a {
        assert(p(x));
        let k = choose|k: int| 0 <= k < kids.len() && #[trigger] kids[k] == x;
        assert(dom@.parent(kids[k]) == Some(id));
    }
    if let Ok(None) = a {
        assert forall|j: int| 0 <= j < kids.len() implies dom@.node(#[trigger] kids[j]).name
            != name@ by {
            assert(!p(kids[j]));
        }
    }
    if let Ok(Some(x)) = b {
        assert(q(x));
        let k = choose|k: int| 0 <= k < kids.len() && #[trigger] kids[k] == x;
        assert(dom@.parent(kids[k]) == Some(id));
    }
    if let Ok(None) = b {
        assert forall|j: int| 0 <= j < kids.len() implies dom@.node(#[trigger] kids[j]).class
            != class@ by {
            assert(!q(kids[j]));
        }
    }
    if let Ok(Some(x)) = c {
        assert(s(x));
    }
}

/// What is found above an instance is above it and is what was asked for, and is the closest such:
/// where its parent is what was asked for, that is found.
pub proof fn the_closest_ancestor_is_found(
    dom: Dom,
    catalog: Catalog,
    id: usize,
    name: &str,
    p: usize,
    r: Result<Option<usize>, Fault>,
)
    requires
        dom@.alive(id),
        dom@.sound(),
        call_ensures(find_ancestor, (&dom, &catalog, id, Query::Named(name)), r),
    ensures
        r is Ok,
        r matches Ok(Some(x)) ==> dom@.ancestors(id).contains(x) && dom@.node(x).name == name@,
        dom@.parent(id) == Some(p) && dom@.node(p).name == name@ ==> r == Ok::<
            Option<usize>,
            Fault,
        >(Some(p)),
        dom@.parent(id) is None ==> r == Ok::<Option<usize>, Fault>(None),
{
    let wanted = sought(dom@, catalog@, Query::Named(name));
    let all = dom@.ancestors(id);
    first_is_first(all, wanted);
    crate::tree::ancestors_unfold(dom@, id);
    if let Ok(Some(x)) = r {
        assert(wanted(x));
    }
    if dom@.parent(id) == Some(p) && dom@.node(p).name == name@ {
        assert(dom@.alive(p));
        assert(all[0] == p);
        assert(wanted(p));
    }
}

/// The children of an instance are those whose parent it is; what is under it are its children and
/// what is under those.
pub proof fn children_have_their_parent(
    dom: Dom,
    id: usize,
    x: usize,
    r: Result<Vec<usize>, Fault>,
    d: Result<Vec<usize>, Fault>,
)
    requires
        dom@.sound(),
        dom@.alive(id),
        dom@.alive(x),
        call_ensures(get_children, (&dom, id), r),
        call_ensures(get_descendants, (&dom, id), d),
    ensures
        r is Ok && d is Ok,
        r->Ok_0@.contains(x) == (dom@.parent(x) == Some(id)),
        r->Ok_0@.no_duplicates(),
        d->Ok_0@ == dom@.descendants(id),
{
    let kids = dom@.kids(id);
    if kids.contains(x) {
        let k = choose|k: int| 0 <= k < kids.len() && kids[k] == x;
        assert(dom@.parent(kids[k]) == Some(id));
    }
    if dom@.parent(x) == Some(id) {
        assert(dom@.kids(dom@.parent(x)->0).contains(x));
    }
}

/// One instance is above another exactly if that one is under it, and none is above itself or above
/// one that is not of its own kin.
pub proof fn above_and_under_agree(
    dom: Dom,
    a: usize,
    b: usize,
    kin: bool,
    above: Result<bool, Fault>,
    under: Result<bool, Fault>,
    own: Result<bool, Fault>,
)
    requires
        dom@.alive(a),
        dom@.alive(b),
        call_ensures(is_ancestor_of, (&dom, a, b, kin), above),
        call_ensures(is_descendant_of, (&dom, b, a, kin), under),
        call_ensures(is_ancestor_of, (&dom, a, a, true), own),
    ensures
        above is Ok && under is Ok && above == under,
        own == Ok::<bool, Fault>(false),
        !kin ==> above == Ok::<bool, Fault>(false),
        kin ==> above == Ok::<bool, Fault>(a != b && dom@.ancestors(b).contains(a)),
{
}

/// The child of an instance is under it.
pub proof fn a_child_is_under_its_parent(
    dom: Dom,
    p: usize,
    c: usize,
    r: Result<bool, Fault>,
    back: Result<bool, Fault>,
)
    requires
        dom@.sound(),
        dom@.alive(c),
        dom@.parent(c) == Some(p),
        call_ensures(is_ancestor_of, (&dom, p, c, true), r),
        call_ensures(is_ancestor_of, (&dom, c, p, true), back),
    ensures
        r == Ok::<bool, Fault>(true),
        back == Ok::<bool, Fault>(false),
{
    assert(dom@.alive(p));
    crate::tree::ancestors_unfold(dom@, c);
    assert(dom@.ancestors(c)[0] == p);
    assert(dom@.ancestors(c).contains(p));
    if p == c {
        crate::tree::depth_holds(dom@);
        assert(dom@.alive(c) && dom@.parent(c) is Some);
    } else {
        crate::members::ancestry_is_one_way(dom@, p, c);
    }
}

/// An argument that has to be an instance is that instance, and nothing else is taken.
pub proof fn an_instance_is_an_instance(value: Guest, method: &str, r: Result<usize, Fault>)
    requires
        call_ensures(instance_arg, (&value, method), r),
    ensures
        value@ matches GuestView::Instance(id) ==> r == Ok::<usize, Fault>(id),
        !(value@ is Instance) ==> r is Err,
{
}

/// An instance is of its own class and of every class above it, and of no other.
pub proof fn an_instance_is_of_the_classes_above(
    dom: Dom,
    catalog: Catalog,
    id: usize,
    class: &str,
    r: Result<bool, Fault>,
)
    requires
        call_ensures(is_a, (&dom, &catalog, id, class), r),
        dom@.alive(id),
        catalog@.named_by_key(),
        catalog@.classes.contains_key(dom@.node(id).class),
    ensures
        r is Ok,
        class@ == dom@.node(id).class ==> r->Ok_0,
        catalog@.classes[dom@.node(id).class].1 is None && class@ != dom@.node(id).class
            ==> !r->Ok_0,
        catalog@.classes[dom@.node(id).class].1 == Some(class@) && catalog@.classes.contains_key(
            class@,
        ) ==> r->Ok_0,
{
    let c = catalog@;
    let own = dom@.node(id).class;
    assert(c.classes[own].0 == own);
    let n = c.reach();
    assert(c.walk_is_a(own, class@, n) == (c.classes[own].0 == class@ || match c.classes[own].1 {
        Some(s) => c.walk_is_a(s, class@, (n - 1) as nat),
        None => false,
    }));
    if c.classes.contains_key(class@) {
        assert(c.classes[class@].0 == class@);
        assert(c.walk_is_a(class@, class@, (n - 1) as nat));
    }
}

// ---- the tree ----

/// A new instance is of its class and bears its name, stands alone, and holds nothing; every other
/// instance stays as it was.
pub proof fn a_new_instance_stands_alone(v: DomView, class: Seq<char>, name: Seq<char>, other: usize)
    requires
        v.slots.len() < usize::MAX,
        v.alive(other),
    ensures
        ({
            let w = v.inserted(class, name);
            let id = v.slots.len() as usize;
            &&& !v.alive(id) && w.alive(id)
            &&& w.node(id).class == class && w.node(id).name == name
            &&& w.parent(id) is None && w.kids(id).len() == 0
            &&& w.node(id).props == Map::<Seq<char>, ValueView>::empty()
            &&& w.node(other) == v.node(other) && w.alive(other)
            &&& w.dirty
        }),
{
}

/// An instance that is put under another is its last child and has it for a parent; the children
/// that were there stay before it, in their order.
pub proof fn a_child_comes_last(v: DomView, id: usize, p: usize)
    requires
        v.alive(id),
        v.alive(p),
        id != p,
    ensures
        v.parented(id, p).parent(id) == Some(p),
        v.parented(id, p).kids(p) == v.kids(p).push(id),
        v.parented(id, p).kids(id) == v.kids(id),
        v.parented(id, p).parent(p) == v.parent(p),
        v.parented(id, p).node(id).name == v.node(id).name,
{
}

/// An instance that is taken out has no parent, its parent has every other child still, and its own
/// children stay with it.
pub proof fn what_is_taken_out_has_no_parent(v: DomView, id: usize, p: usize, other: usize)
    requires
        v.sound(),
        v.alive(id),
        v.parent(id) == Some(p),
        other != id,
    ensures
        v.unparented(id).parent(id) is None,
        !v.unparented(id).kids(p).contains(id),
        v.unparented(id).kids(p).contains(other) == v.kids(p).contains(other),
        v.unparented(id).kids(id) == v.kids(id),
{
    crate::tree::depth_holds(v);
    assert(v.alive(p));
    assert(p != id);
    crate::tree::without_members(v.node(p).children, id, id);
    crate::tree::without_members(v.node(p).children, id, other);
}

/// What is destroyed is gone, and with it everything under it and nothing else.
pub proof fn what_is_destroyed_is_gone(v: DomView, id: usize, x: usize)
    requires
        v.sound(),
        v.slots.len() <= usize::MAX,
        v.alive(id),
        v.alive(x),
    ensures
        v.destroyed(id).alive(x) == !v.at_or_above(id, x),
        v.destroyed(id).released.contains(x) == (v.released.contains(x) || v.at_or_above(id, x)),
        v.destroyed(id).dirty,
        v.destroyed(id).tags == v.tags,
{
    crate::tree::subtree_members(v, id, x);
}

// ---- styles ----

/// A selector that begins with a dot is for a tag, one that begins with a hash for a name, and any
/// other for a class, in each case for what is written behind it.
pub proof fn a_selector_says_what_it_is_for(catalog: Catalog, s: &str, r: Result<Selector, String>)
    requires
        call_ensures(parse, (&catalog, s), r),
        s@.len() > 0,
    ensures
        r matches Ok(x) ==> match x@ {
            SelectorView::Tag(t) => s@[0] == '.' && t == s@.subrange(1, s@.len() as int),
            SelectorView::Name(n) => s@[0] == '#' && n == s@.subrange(1, s@.len() as int),
            SelectorView::ClassName(c) => c == s@ && s@[0] != '.' && s@[0] != '#'
                && catalog@.has_class(c),
        },
        s@.len() == 1 && (s@[0] == '.' || s@[0] == '#') ==> r is Err,
        (exists|i: int| 0 < i < s@.len() && (#[trigger] s@[i] == ' ' || s@[i] == '.' || s@[i] == '#'))
            ==> r is Err,
{
    assert(s@.skip(1) =~= s@.subrange(1, s@.len() as int));
    if exists|i: int| 0 < i < s@.len() && (#[trigger] s@[i] == ' ' || s@[i] == '.' || s@[i] == '#') {
        let i = choose|i: int|
            0 < i < s@.len() && (#[trigger] s@[i] == ' ' || s@[i] == '.' || s@[i] == '#');
        assert(crate::style::joins(s@[i]));
        assert(s@.skip(1)[i - 1] == s@[i]);
        assert(crate::style::compound(s@));
        assert(crate::style::compound(s@.skip(1)));
    }
}

/// A selector is for the instances that hold its tag, bear its name, or are of its class.
pub proof fn a_selector_is_for_what_it_says(
    dom: Dom,
    catalog: Catalog,
    id: usize,
    t: String,
    n: String,
    c: String,
    by_tag: bool,
    by_name: bool,
    by_class: bool,
)
    requires
        dom@.alive(id),
        call_ensures(crate::style::matches, (&dom, &catalog, id, &Selector::Tag(t)), by_tag),
        call_ensures(crate::style::matches, (&dom, &catalog, id, &Selector::Name(n)), by_name),
        call_ensures(crate::style::matches, (&dom, &catalog, id, &Selector::ClassName(c)), by_class),
    ensures
        by_tag == dom@.tags.contains((t@, id)),
        by_name == (dom@.node(id).name == n@),
        by_class == catalog@.is_a(dom@.node(id).class, c@),
{
}

// ---- the catalog ----

/// A class answers for a property with what it introduces itself, and otherwise with what the class
/// above it answers. It may be assigned where its access is to write or to read and write.
pub proof fn a_class_answers_before_the_one_above(
    v: CatalogView,
    class: Seq<char>,
    property: Seq<char>,
    ty: Seq<char>,
    access: Seq<char>,
    is_enum: bool,
)
    requires
        v.available,
        v.classes.contains_key(class),
        crate::extensions::described(v.enabled, class, property) is None,
        v.properties.contains_key((class, property)),
        v.properties[(class, property)] == (access, is_enum, ty),
    ensures
        v.property(class, property) is Some,
        v.property(class, property)->0.writable == (access == "ReadWrite"@ || access == "Write"@),
        is_enum ==> v.property(class, property)->0.data_type == DataTypeView::Enum(ty),
        !is_enum ==> v.property(class, property)->0.data_type is Value,
{
}

/// A property can be assigned where there is one, it may be written, and its type can be stored; a
/// name and a parent always can.
pub proof fn what_can_be_assigned(v: CatalogView, class: Seq<char>, property: Seq<char>)
    ensures
        v.property(class, property) is None ==> !v.accepts(class, property),
        v.property(class, property) matches Some(d) ==> {
            &&& property == "Name"@ || property == "Parent"@ ==> v.accepts(class, property)
            &&& property != "Name"@ && property != "Parent"@ && !d.writable ==> !v.accepts(
                class,
                property,
            )
            &&& d.writable && d.data_type is Enum ==> v.accepts(class, property)
            &&& d.writable && d.data_type == DataTypeView::Value(TypeView::Text) ==> v.accepts(
                class,
                property,
            )
        },
{
}

/// A class has the default that it gives a property itself, before the one of the class above; a
/// class of an extension has that of a text label, and failing that of an image label.
pub proof fn a_default_is_the_closest(v: CatalogView, class: Seq<char>, property: Seq<char>)
    requires
        v.available,
        crate::extensions::defaulted(v.enabled, class, property) is None,
    ensures
        v.classes.contains_key(class) && v.defaults.contains_key((class, property)) ==> v.default(
            class,
            property,
        ) == Some(v.defaults[(class, property)]),
        v.classes.contains_key(class) && !v.defaults.contains_key((class, property))
            && v.classes[class].1 is None ==> v.default(class, property) is None,
        !v.classes.contains_key(class) && crate::extensions::extension_class(class) ==> {
            &&& v.defaults.contains_key(("TextLabel"@, property)) ==> v.default(class, property)
                == Some(v.defaults[("TextLabel"@, property)])
            &&& !v.defaults.contains_key(("TextLabel"@, property)) && v.defaults.contains_key(
                ("ImageLabel"@, property),
            ) ==> v.default(class, property) == Some(v.defaults[("ImageLabel"@, property)])
        },
        !v.classes.contains_key(class) && !crate::extensions::extension_class(class) ==> v.default(
            class,
            property,
        ) is None,
{
}

/// In a message an event that has a member of its own goes by the name of the member.
pub proof fn an_event_is_told_by_its_name(name: Seq<char>, k: KindView, from: Seq<char>)
    requires
        member_named(name) == Some((MemberView::Event(k), from)) || attention_named(name) == Some(
            (MemberView::Event(k), from),
        ),
    ensures
        k.label() == name,
{
}

/// A declared type goes by its own name, and by no other.
pub proof fn a_type_bears_its_own_name(name: Seq<char>)
    ensures
        match crate::value::type_named(name) {
            TypeView::Bool => name == "Bool"@,
            TypeView::Text => name == "String"@,
            TypeView::Float32 => name == "Float32"@,
            TypeView::Float64 => name == "Float64"@,
            TypeView::Int32 => name == "Int32"@,
            TypeView::Int64 => name == "Int64"@,
            TypeView::UDim => name == "UDim"@,
            TypeView::UDim2 => name == "UDim2"@,
            TypeView::Vector2 => name == "Vector2"@,
            TypeView::Color3 => name == "Color3"@,
            TypeView::Rect => name == "Rect"@,
            TypeView::Content => name == "Content"@,
            TypeView::ContentId => name == "ContentId"@,
            TypeView::Font => name == "Font"@,
            TypeView::ColorSequence => name == "ColorSequence"@,
            TypeView::NumberSequence => name == "NumberSequence"@,
            TypeView::Other(n) => n == name,
        },
{
}

/// What has neither been assigned nor has a default reads as nothing of its type, and as nothing at
/// all where that is an enumeration.
pub proof fn an_unassigned_property_reads_as_nothing(
    v: DomView,
    catalog: CatalogView,
    id: usize,
    key: Seq<char>,
    data_type: DataTypeView,
)
    requires
        v.property(catalog, id, key) is None,
    ensures
        ({
            let x = crate::instance::effective(v, catalog, id, key, data_type);
            &&& data_type is Enum ==> x is None
            &&& data_type == DataTypeView::Value(TypeView::Bool) ==> x == Some(ValueView::Bool(false))
            &&& data_type == DataTypeView::Value(TypeView::Int32) ==> x == Some(ValueView::Int32(0))
            &&& data_type == DataTypeView::Value(TypeView::Int64) ==> x == Some(ValueView::Int64(0))
            &&& data_type == DataTypeView::Value(TypeView::Float32) ==> x == Some(
                ValueView::Float32(0),
            )
            &&& data_type == DataTypeView::Value(TypeView::Float64) ==> x == Some(
                ValueView::Float64(0),
            )
            &&& data_type == DataTypeView::Value(TypeView::Text) ==> (x matches Some(
                ValueView::Text(s),
            ) && s.len() == 0)
        }),
{
}

} // verus!
