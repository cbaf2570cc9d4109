//! Reading a member of an instance, and assigning one.

use crate::agenda::{Agenda, Step, StepView};
use crate::dom::{parent_refusal, Dom};
use crate::fault::{dead_instance, dead_message, refuse, Fault};
use crate::guest::{
    coerce, coerce_enum, coerced, coerced_enum, dotted, dotted_text, show, shows, Guest, GuestView,
    Shown,
};
use crate::members::{
    attention_of, find_child, first_of, lookup, lookup_attention, member_named, member_of,
    no_such_member, not_a_member, sought, Member, Query,
};
use crate::reflection::{Catalog, CatalogView};
use crate::text::{glue, same};
use crate::tree::DomView;
use crate::value::{
    is_supported, value_eq, zero_for, zero_of, DataType, DataTypeView, Value, ValueView,
};
use crate::world::{World, WorldView};
use vstd::prelude::*;

verus! {

/// What a guest reads.
#[derive(Debug)]
pub enum Reading {
    Nil,
    Text(String),
    Instance(usize),
    Member(Member),
    Shown(Shown),
}

/// How an instance prints: by its name, while it is there.
pub fn text_of(dom: &Dom, id: usize) -> (r: String)
    requires
        dom.ok(),
    ensures
        r@ == (if dom@.alive(id) {
            dom@.node(id).name
        } else {
            "<destroyed>"@
        }),
{
    match dom.name_of(id) {
        Some(n) => n,
        None => "<destroyed>".to_owned(),
    }
}

/// The value that a property reads: what was assigned, or the default, or the zero of its type.
pub open spec fn effective(
    v: DomView,
    catalog: CatalogView,
    id: usize,
    key: Seq<char>,
    data_type: DataTypeView,
) -> Option<ValueView> {
    match v.property(catalog, id, key) {
        Some(x) => Some(x),
        None => match data_type {
            DataTypeView::Value(ty) => zero_of(ty),
            DataTypeView::Enum(_) => None,
        },
    }
}

/// What may come of reading a member: class name, name and parent first, then events and methods,
/// those of the focus and of scrolling behind the others, then properties, then children by name.
/// Nothing else is there, and to read it is a mistake.
pub open spec fn reads(
    v: DomView,
    catalog: CatalogView,
    id: usize,
    key: Seq<char>,
    r: Result<Reading, Fault>,
) -> bool {
    let n = v.node(id);
    if !v.alive(id) {
        r matches Err(f) && f@ == dead_message()
    } else if key == "ClassName"@ {
        r matches Ok(Reading::Text(t)) && t@ == n.class
    } else if key == "Name"@ {
        r matches Ok(Reading::Text(t)) && t@ == n.name
    } else if key == "Parent"@ {
        match n.parent {
            Some(p) => r matches Ok(Reading::Instance(x)) && x == p,
            None => r matches Ok(Reading::Nil),
        }
    } else if member_of(catalog, n.class, key) is Some {
        r matches Ok(Reading::Member(x)) && Some(x@) == member_of(catalog, n.class, key)
    } else if attention_of(catalog, n.class, key) is Some {
        r matches Ok(Reading::Member(x)) && Some(x@) == attention_of(catalog, n.class, key)
    } else {
        match catalog.property(n.class, key) {
            None => match first_child_named(v, catalog, id, key) {
                Some(c) => r matches Ok(Reading::Instance(x)) && x == c,
                None => r matches Err(f) && f@ == no_such_member(key, n.class),
            },
            Some(d) => match effective(v, catalog, id, key, d.data_type) {
                None => r matches Ok(Reading::Nil),
                Some(x) => reads_value(
                    catalog,
                    x,
                    match d.data_type {
                        DataTypeView::Enum(ty) => Some(ty),
                        DataTypeView::Value(_) => None,
                    },
                    r,
                ),
            },
        }
    }
}

/// The first child of this name.
pub open spec fn first_child_named(
    v: DomView,
    catalog: CatalogView,
    id: usize,
    key: Seq<char>,
) -> Option<usize> {
    first_of(v.kids(id), |c: usize| v.alive(c) && v.node(c).name == key)
}

/// What may come of reading a value.
pub open spec fn reads_value(
    catalog: CatalogView,
    x: ValueView,
    enum_type: Option<Seq<char>>,
    r: Result<Reading, Fault>,
) -> bool {
    match r {
        Ok(Reading::Shown(s)) => shows(catalog, x, enum_type, Ok(s)),
        Ok(_) => false,
        Err(f) => shows(catalog, x, enum_type, Err(f)),
    }
}

fn show_value(catalog: &Catalog, value: &Value, enum_type: Option<&str>) -> (r: Result<
    Reading,
    Fault,
>)
    ensures
        reads_value(
            catalog@,
            value@,
            match enum_type {
                Some(ty) => Some(ty@),
                None => None,
            },
            r,
        ),
{
    match show(catalog, value, enum_type) {
        Ok(s) => Ok(Reading::Shown(s)),
        Err(f) => Err(f),
    }
}

/// Read a member of an instance.
pub fn index(dom: &Dom, catalog: &Catalog, id: usize, key: &str) -> (r: Result<Reading, Fault>)
    requires
        dom.ok(),
    ensures
        reads(dom@, catalog@, id, key@, r),
{
    let class = match dom.class_of(id) {
        Some(c) => c,
        None => return Err(dead_instance()),
    };
    if same(key, "ClassName") {
        return Ok(Reading::Text(class));
    }
    if same(key, "Name") {
        return Ok(Reading::Text(text_of(dom, id)));
    }
    if same(key, "Parent") {
        return match dom.parent_of(id) {
            Some(p) => Ok(Reading::Instance(p)),
            None => Ok(Reading::Nil),
        };
    }
    if let Some(m) = lookup(catalog, class.as_str(), key) {
        return Ok(Reading::Member(m));
    }
    if let Some(m) = lookup_attention(catalog, class.as_str(), key) {
        return Ok(Reading::Member(m));
    }
    let d = match catalog.describe(class.as_str(), key) {
        Some(d) => d,
        None => {
            let child = match find_child(dom, catalog, id, Query::Named(key), false) {
                Ok(c) => c,
                Err(f) => return Err(f),
            };
            proof {
                let a = sought(dom@, catalog@, Query::Named(key));
                let b = |c: usize| dom@.alive(c) && dom@.node(c).name == key@;
                assert(a =~= b);
            }
            return match child {
                Some(c) => Ok(Reading::Instance(c)),
                None => Err(not_a_member(key, class.as_str())),
            };
        },
    };
    let enum_type = match &d.data_type {
        DataType::Enum(ty) => Some(ty.as_str()),
        DataType::Value(_) => None,
    };
    if let Some(v) = dom.property(catalog, id, key) {
        return show_value(catalog, &v, enum_type);
    }
    match &d.data_type {
        DataType::Value(ty) => match zero_for(ty) {
            Some(v) => show_value(catalog, &v, enum_type),
            None => Ok(Reading::Nil),
        },
        DataType::Enum(_) => Ok(Reading::Nil),
    }
}

// ---- assignment ----

/// The parent that a guest's value names.
pub open spec fn parent_named(g: GuestView) -> Result<Option<usize>, Seq<char>> {
    match g {
        GuestView::Nil => Ok(None),
        GuestView::Instance(p) => Ok(Some(p)),
        _ => if g.word() == "userdata"@ {
            Err("userdata is not expected type"@)
        } else {
            Err("Parent expects an Instance or nil, got "@ + g.word())
        },
    }
}

fn parent_value(value: &Guest) -> (r: Result<Option<usize>, Fault>)
    ensures
        match r {
            Ok(p) => parent_named(value@) == Ok::<Option<usize>, Seq<char>>(p),
            Err(f) => parent_named(value@) == Err::<Option<usize>, Seq<char>>(f@),
        },
{
    match value {
        Guest::Nil => Ok(None),
        Guest::Instance(p) => Ok(Some(*p)),
        _ => {
            let word = value.word();
            if same(word, "userdata") {
                Err(refuse("userdata is not expected type"))
            } else {
                Err(
                    Fault {
                        message: glue("Parent expects an Instance or nil, got ".to_owned(), word),
                    },
                )
            }
        },
    }
}

/// The value that an assignment stores, or why it is refused.
pub open spec fn stored_value(
    catalog: CatalogView,
    class: Seq<char>,
    key: Seq<char>,
    g: GuestView,
) -> Result<ValueView, Seq<char>> {
    match catalog.property(class, key) {
        None => Err(no_such_member(key, class)),
        Some(d) => if !d.writable {
            Err(dotted(class, key) + " is read-only"@)
        } else {
            match d.data_type {
                DataTypeView::Value(ty) => coerced(g, ty, class, key),
                DataTypeView::Enum(ty) => match coerced_enum(catalog, g, ty, class, key) {
                    Ok(raw) => Ok(ValueView::Enum(raw)),
                    Err(m) => Err(m),
                },
            }
        },
    }
}

/// What an assignment changes at once, and what is then to be done; or why it is refused.
/// Assigning what a member reads already changes nothing and tells nobody.
pub open spec fn assignment(
    w: WorldView,
    catalog: CatalogView,
    id: usize,
    key: Seq<char>,
    g: GuestView,
) -> Result<(WorldView, Seq<StepView>), Seq<char>> {
    let d = w.dom;
    let n = d.node(id);
    let told = seq![StepView::Changed { id, name: key }];
    if !d.alive(id) {
        Err(dead_message())
    } else if key == "ClassName"@ {
        Err("ClassName is read-only; it is what the instance IS"@)
    } else if key == "Name"@ {
        match g {
            GuestView::Text(name) => if name == n.name {
                Ok((w, Seq::empty()))
            } else {
                Ok((crate::agenda::with_dom(w, renamed(d, id, name)), told))
            },
            _ => Err("Name expects a string, got "@ + g.word()),
        }
    } else if key == "Parent"@ {
        match parent_named(g) {
            Err(m) => Err(m),
            Ok(parent) => match parent_refusal(d, id, parent) {
                Some(m) => Err(m),
                None => if n.parent == parent {
                    Ok((w, Seq::empty()))
                } else {
                    Ok((w, seq![StepView::Leaving { id }, StepView::Move { id, under: parent }]))
                },
            },
        }
    } else {
        match stored_value(catalog, n.class, key, g) {
            Err(m) => Err(m),
            Ok(v) => if same_as(d.property(catalog, id, key), v) {
                Ok((w, Seq::empty()))
            } else {
                Ok((crate::agenda::with_dom(w, d.assigned(id, key, v).touched()), told))
            },
        }
    }
}

/// An instance with another name.
pub open spec fn renamed(d: DomView, id: usize, name: Seq<char>) -> DomView {
    d.put(id, crate::tree::NodeView { name, ..d.node(id) }).touched()
}

/// Is the value there, and equal?
pub open spec fn same_as(x: Option<ValueView>, v: ValueView) -> bool {
    match x {
        Some(x) => value_eq(x, v),
        None => false,
    }
}

fn stored(catalog: &Catalog, class: &str, key: &str, value: &Guest) -> (r: Result<Value, Fault>)
    ensures
        match r {
            Ok(v) => stored_value(catalog@, class@, key@, value@) == Ok::<ValueView, Seq<char>>(v@),
            Err(f) => stored_value(catalog@, class@, key@, value@) == Err::<ValueView, Seq<char>>(
                f@,
            ),
        },
{
    let d = match catalog.describe(class, key) {
        Some(d) => d,
        None => return Err(not_a_member(key, class)),
    };
    if !d.writable {
        return Err(Fault { message: glue(dotted_text(class, key), " is read-only") });
    }
    match &d.data_type {
        DataType::Value(ty) => coerce(value, ty, class, key),
        DataType::Enum(ty) => match coerce_enum(catalog, value, ty.as_str(), class, key) {
            Ok(raw) => Ok(Value::Enum(raw)),
            Err(f) => Err(f),
        },
    }
}

fn changed(id: usize, name: &str) -> (r: Agenda)
    ensures
        r@ == seq![StepView::Changed { id, name: name@ }],
{
    Agenda::of(Step::Changed { id, name: name.to_owned() })
}

/// Assign a member of an instance. What it changes at once is changed; what is then to be done is
/// handed back.
pub fn assign(
    world: &mut World,
    catalog: &Catalog,
    id: usize,
    key: &str,
    value: &Guest,
) -> (r: Result<Agenda, Fault>)
    requires
        old(world).ok(),
    ensures
        final(world).ok(),
        match r {
            Ok(agenda) => assignment(old(world)@, catalog@, id, key@, value@) == Ok::<
                (WorldView, Seq<StepView>),
                Seq<char>,
            >((final(world)@, agenda@)),
            Err(f) => assignment(old(world)@, catalog@, id, key@, value@) == Err::<
                (WorldView, Seq<StepView>),
                Seq<char>,
            >(f@) && final(world)@ == old(world)@,
        },
{
    let class = match world.dom.class_of(id) {
        Some(c) => c,
        None => return Err(dead_instance()),
    };
    if same(key, "ClassName") {
        return Err(refuse("ClassName is read-only; it is what the instance IS"));
    }
    if same(key, "Name") {
        let name = match value {
            Guest::Text(t) => t.clone(),
            _ => return Err(
                Fault { message: glue("Name expects a string, got ".to_owned(), value.word()) },
            ),
        };
        if same(name.as_str(), text_of(&world.dom, id).as_str()) {
            return Ok(Agenda::new());
        }
        world.dom.set_name(id, name);
        return Ok(changed(id, key));
    }
    if same(key, "Parent") {
        let parent = match parent_value(value) {
            Ok(p) => p,
            Err(f) => return Err(f),
        };
        if let Some(p) = parent {
            if !world.dom.is_alive(p) {
                return Err(refuse("the new Parent has been destroyed"));
            }
            if world.dom.is_ancestor_of(id, p) {
                return Err(refuse("that would make an instance its own ancestor"));
            }
        }
        if same_parent(world.dom.parent_of(id), parent) {
            return Ok(Agenda::new());
        }
        let mut agenda = Agenda::of(Step::Move { id, under: parent });
        agenda.put(Step::Leaving { id });
        assert(agenda@ =~= seq![StepView::Leaving { id }, StepView::Move { id, under: parent }]);
        return Ok(agenda);
    }
    let v = match stored(catalog, class.as_str(), key, value) {
        Ok(v) => v,
        Err(f) => return Err(f),
    };
    if let Some(now) = world.dom.property(catalog, id, key) {
        if now.matches(&v) {
            return Ok(Agenda::new());
        }
    }
    world.dom.assign(id, key, v);
    Ok(changed(id, key))
}

fn same_parent(a: Option<usize>, b: Option<usize>) -> (r: bool)
    ensures
        r == (a == b),
{
    match (a, b) {
        (None, None) => true,
        (Some(x), Some(y)) => x == y,
        _ => false,
    }
}

// ---- laws ----

/// A property reads what was assigned to it last.
pub proof fn a_property_reads_what_was_assigned(
    w: WorldView,
    catalog: CatalogView,
    id: usize,
    key: Seq<char>,
    g: GuestView,
    next: WorldView,
    steps: Seq<StepView>,
)
    requires
        assignment(w, catalog, id, key, g) == Ok::<(WorldView, Seq<StepView>), Seq<char>>(
            (next, steps),
        ),
        key != "Name"@,
        key != "Parent"@,
    ensures
        stored_value(catalog, w.dom.node(id).class, key, g) is Ok,
        same_as(
            next.dom.property(catalog, id, key),
            stored_value(catalog, w.dom.node(id).class, key, g)->Ok_0,
        ) || next.dom.property(catalog, id, key) == Some(
            stored_value(catalog, w.dom.node(id).class, key, g)->Ok_0,
        ),
{
}

/// An assignment to one property leaves every other property of every instance as it was.
pub proof fn other_properties_stay(
    w: WorldView,
    catalog: CatalogView,
    id: usize,
    key: Seq<char>,
    g: GuestView,
    next: WorldView,
    steps: Seq<StepView>,
    x: usize,
    other: Seq<char>,
)
    requires
        assignment(w, catalog, id, key, g) == Ok::<(WorldView, Seq<StepView>), Seq<char>>(
            (next, steps),
        ),
        x != id || other != key,
    ensures
        next.dom.property(catalog, x, other) == w.dom.property(catalog, x, other),
{
}

/// A value that is equal to itself, assigned twice, changes something at most once: the second
/// assignment changes nothing and tells nobody.
pub proof fn assigning_again_does_nothing(
    w: WorldView,
    catalog: CatalogView,
    id: usize,
    key: Seq<char>,
    g: GuestView,
    next: WorldView,
    steps: Seq<StepView>,
)
    requires
        assignment(w, catalog, id, key, g) == Ok::<(WorldView, Seq<StepView>), Seq<char>>(
            (next, steps),
        ),
        key != "Parent"@,
        key != "Name"@ ==> value_eq(
            stored_value(catalog, w.dom.node(id).class, key, g)->Ok_0,
            stored_value(catalog, w.dom.node(id).class, key, g)->Ok_0,
        ),
    ensures
        assignment(next, catalog, id, key, g) == Ok::<(WorldView, Seq<StepView>), Seq<char>>(
            (next, Seq::empty()),
        ),
{
}

/// What a guest may not assign it may not change either: a refused assignment is refused whatever
/// the instances hold.
pub proof fn a_read_only_property_is_always_refused(
    w: WorldView,
    catalog: CatalogView,
    id: usize,
    key: Seq<char>,
    g: GuestView,
)
    requires
        w.dom.alive(id),
        key != "Name"@,
        key != "Parent"@,
        key != "ClassName"@,
        !catalog.accepts(w.dom.node(id).class, key),
    ensures
        assignment(w, catalog, id, key, g) is Err,
{
}

/// Neither the class name nor the name nor the parent is a member by another name.
proof fn fixed_names_are_no_members()
    ensures
        member_named("ClassName"@) is None,
        member_named("Name"@) is None,
        member_named("Parent"@) is None,
{
    reveal_strlit("ClassName");
    reveal_strlit("Name");
    reveal_strlit("Parent");
    reveal_strlit("Activated");
    reveal_strlit("SecondaryActivated");
    reveal_strlit("MouseButton1Click");
    reveal_strlit("MouseButton1Down");
    reveal_strlit("MouseButton1Up");
    reveal_strlit("MouseButton2Click");
    reveal_strlit("MouseButton2Down");
    reveal_strlit("MouseButton2Up");
    reveal_strlit("MouseEnter");
    reveal_strlit("MouseLeave");
    reveal_strlit("MouseMoved");
    reveal_strlit("MouseWheelForward");
    reveal_strlit("MouseWheelBackward");
    reveal_strlit("InputBegan");
    reveal_strlit("InputChanged");
    reveal_strlit("InputEnded");
    reveal_strlit("Changed");
    reveal_strlit("ChildAdded");
    reveal_strlit("ChildRemoved");
    reveal_strlit("DescendantAdded");
    reveal_strlit("DescendantRemoving");
    reveal_strlit("Destroying");
    reveal_strlit("ClearAllChildren");
    reveal_strlit("Destroy");
    reveal_strlit("FindFirstAncestor");
    reveal_strlit("FindFirstAncestorOfClass");
    reveal_strlit("FindFirstAncestorWhichIsA");
    reveal_strlit("FindFirstChild");
    reveal_strlit("FindFirstChildOfClass");
    reveal_strlit("FindFirstChildWhichIsA");
    reveal_strlit("FindFirstDescendant");
    reveal_strlit("GetChildren");
    reveal_strlit("GetDescendants");
    reveal_strlit("GetPropertyChangedSignal");
    reveal_strlit("IsA");
    reveal_strlit("IsAncestorOf");
    reveal_strlit("IsDescendantOf");
    assert("ClassName"@.len() == 9);
    assert("Name"@.len() == 4);
    assert("Parent"@.len() == 6);
    assert("Activated"@.len() == 9);
    assert("SecondaryActivated"@.len() == 18);
    assert("MouseButton1Click"@.len() == 17);
    assert("MouseButton1Down"@.len() == 16);
    assert("MouseButton1Up"@.len() == 14);
    assert("MouseButton2Click"@.len() == 17);
    assert("MouseButton2Down"@.len() == 16);
    assert("MouseButton2Up"@.len() == 14);
    assert("MouseEnter"@.len() == 10);
    assert("MouseLeave"@.len() == 10);
    assert("MouseMoved"@.len() == 10);
    assert("MouseWheelForward"@.len() == 17);
    assert("MouseWheelBackward"@.len() == 18);
    assert("InputBegan"@.len() == 10);
    assert("InputChanged"@.len() == 12);
    assert("InputEnded"@.len() == 10);
    assert("Changed"@.len() == 7);
    assert("ChildAdded"@.len() == 10);
    assert("ChildRemoved"@.len() == 12);
    assert("DescendantAdded"@.len() == 15);
    assert("DescendantRemoving"@.len() == 18);
    assert("Destroying"@.len() == 10);
    assert("ClearAllChildren"@.len() == 16);
    assert("Destroy"@.len() == 7);
    assert("FindFirstAncestor"@.len() == 17);
    assert("FindFirstAncestorOfClass"@.len() == 24);
    assert("FindFirstAncestorWhichIsA"@.len() == 25);
    assert("FindFirstChild"@.len() == 14);
    assert("FindFirstChildOfClass"@.len() == 21);
    assert("FindFirstChildWhichIsA"@.len() == 22);
    assert("FindFirstDescendant"@.len() == 19);
    assert("GetChildren"@.len() == 11);
    assert("GetDescendants"@.len() == 14);
    assert("GetPropertyChangedSignal"@.len() == 24);
    assert("IsA"@.len() == 3);
    assert("IsAncestorOf"@.len() == 12);
    assert("IsDescendantOf"@.len() == 14);
    assert("Activated"@[0] == 'A' && "ClassName"@[0] == 'C');
}

/// What is said to be implemented can be read: an instance of the class hands out that very
/// member.
pub proof fn what_is_implemented_is_handed_out(
    v: DomView,
    catalog: CatalogView,
    id: usize,
    key: Seq<char>,
    r: Result<Reading, Fault>,
)
    requires
        v.alive(id),
        member_of(catalog, v.node(id).class, key) is Some,
        reads(v, catalog, id, key, r),
    ensures
        r matches Ok(Reading::Member(x)) && Some(x@) == member_of(catalog, v.node(id).class, key),
{
    fixed_names_are_no_members();
}

/// What a guest may assign is refused for no reason but the value: of a property that is accepted,
/// the value alone decides.
pub proof fn of_what_is_accepted_the_value_decides(
    catalog: CatalogView,
    class: Seq<char>,
    key: Seq<char>,
    g: GuestView,
)
    requires
        catalog.accepts(class, key),
        key != "Name"@,
        key != "Parent"@,
    ensures
        match catalog.property(class, key)->0.data_type {
            DataTypeView::Value(ty) => is_supported(ty) && stored_value(catalog, class, key, g)
                == coerced(g, ty, class, key),
            DataTypeView::Enum(ty) => match coerced_enum(catalog, g, ty, class, key) {
                Ok(raw) => stored_value(catalog, class, key, g) == Ok::<ValueView, Seq<char>>(
                    ValueView::Enum(raw),
                ),
                Err(m) => stored_value(catalog, class, key, g) == Err::<ValueView, Seq<char>>(m),
            },
        },
{
}

} // verus!
