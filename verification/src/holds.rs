//! What can be said of what is held and handed back, whatever it is held in.

use crate::agenda::Agenda;
use crate::bindings::HostState;
use crate::collection::{add_tag, instance_added_signal, instance_removed_signal, remove_tag};
use crate::connection::Signal;
use crate::dom::Dom;
use crate::fault::Fault;
use crate::guest::Guest;
use crate::handles::Handles;
use crate::instance::assign;
use crate::library::Library;
use crate::members::create;
use crate::names::Names;
use crate::notes::{note_once_layout, Note};
use crate::reflection::Catalog;
use crate::signal::{Kind, KindView};
use crate::text::views;
use crate::value::Value;
use crate::world::World;
use vstd::prelude::*;

verus! {

// ---- instances ----

/// A new arena has no instance, and a first frame is owed.
pub proof fn a_new_arena_is_empty(d: Dom, id: usize)
    requires
        call_ensures(Dom::new, (), d),
    ensures
        !d@.alive(id),
        d@.dirty,
        d@.slots.len() == 0 && d@.handlers.len() == 0,
{
}

/// An instance that is put in is of its class, bears its name and stands alone, under a number that
/// was never used; every other instance stays.
pub proof fn what_is_put_in_is_there(
    d: &mut Dom,
    class: String,
    name: String,
    id: usize,
    other: usize,
)
    requires
        call_ensures(Dom::insert, (d, class, name), id),
        old(d)@.alive(other),
    ensures
        !old(d)@.alive(id) && final(d)@.alive(id),
        final(d)@.node(id).class == class@,
        final(d)@.node(id).name == name@,
        final(d)@.parent(id) is None,
        final(d)@.kids(id).len() == 0,
        final(d)@.alive(other) && final(d)@.node(other) == old(d)@.node(other),
        final(d)@.dirty,
{
}

/// An instance is made only of a class that there is, and is named for it.
pub proof fn an_instance_is_named_for_its_class(
    d: &mut Dom,
    catalog: &Catalog,
    class: &str,
    r: Result<usize, Fault>,
)
    requires
        call_ensures(create, (d, catalog, class), r),
        old(d)@.slots.len() < usize::MAX,
    ensures
        r is Ok == catalog@.has_class(class@),
        r matches Ok(id) ==> final(d)@.alive(id) && final(d)@.node(id).class == class@
            && final(d)@.node(id).name == class@,
        r is Err ==> final(d)@ == old(d)@,
{
}

/// A name that is given is borne, and nothing else of the instance changes.
pub proof fn a_given_name_is_borne(d: &mut Dom, id: usize, name: String)
    requires
        call_ensures(Dom::set_name, (d, id, name), ()),
        old(d)@.alive(id),
    ensures
        final(d)@.alive(id),
        final(d)@.node(id).name == name@,
        final(d)@.node(id).class == old(d)@.node(id).class,
        final(d)@.node(id).props == old(d)@.node(id).props,
        final(d)@.kids(id) == old(d)@.kids(id) && final(d)@.parent(id) == old(d)@.parent(id),
        final(d)@.dirty,
{
}

/// A property that is assigned holds the value, every other property stays, and a repaint is owed;
/// one that the host writes itself owes none.
pub proof fn an_assigned_property_is_held(
    d: &mut Dom,
    e: &mut Dom,
    id: usize,
    key: &str,
    value: Value,
    other: Seq<char>,
)
    requires
        call_ensures(Dom::assign, (d, id, key, value), ()),
        call_ensures(Dom::set_internal, (e, id, key, value), ()),
        old(d)@.alive(id),
        old(e)@.alive(id),
        other != key@,
    ensures
        final(d)@.node(id).props.contains_key(key@) && final(d)@.node(id).props[key@] == value@,
        final(d)@.node(id).props.contains_key(other) == old(d)@.node(id).props.contains_key(other),
        old(d)@.node(id).props.contains_key(other) ==> final(d)@.node(id).props[other] == old(
            d,
        )@.node(id).props[other],
        final(d)@.dirty,
        final(e)@.node(id).props.contains_key(key@) && final(e)@.node(id).props[key@] == value@,
        final(e)@.dirty == old(e)@.dirty,
{
}

/// An attribute that is set is read back, one that is taken away reads as nothing, and neither
/// touches any other attribute or any property.
pub proof fn an_attribute_is_read_back(
    d: &mut Dom,
    e: &mut Dom,
    id: usize,
    name: &str,
    value: Value,
    other: &str,
    after: Dom,
    gone: Dom,
    r: Option<Value>,
    none: Option<Value>,
    s: Option<Value>,
    was: Option<Value>,
)
    requires
        call_ensures(Dom::set_attribute, (d, id, name, Some(value)), ()),
        call_ensures(Dom::set_attribute, (e, id, name, None::<Value>), ()),
        old(d)@.alive(id),
        old(e)@.alive(id),
        other@ != name@,
        after == *final(d),
        gone == *final(e),
        call_ensures(Dom::get_attribute, (&after, id, name), r),
        call_ensures(Dom::get_attribute, (&gone, id, name), none),
        call_ensures(Dom::get_attribute, (&after, id, other), s),
        call_ensures(Dom::get_attribute, (&*old(d), id, other), was),
    ensures
        r is Some && r->0@ == value@,
        none is None,
        s is Some == was is Some,
        s is Some ==> s->0@ == was->0@,
        final(d)@.node(id).props == old(d)@.node(id).props,
        final(d)@.dirty && final(e)@.dirty,
{
}

/// What a style rule sets is held for that property, and a link names the sheet that it was given.
pub proof fn a_style_is_held(
    d: &mut Dom,
    e: &mut Dom,
    id: usize,
    name: &str,
    value: Value,
    sheet: Option<usize>,
    linked: Dom,
    r: Option<usize>,
)
    requires
        call_ensures(Dom::set_style_property, (d, id, name, Some(value)), ()),
        call_ensures(Dom::set_style_link, (e, id, sheet), ()),
        old(d)@.alive(id),
        old(e)@.alive(id),
        linked == *final(e),
        call_ensures(Dom::get_style_link, (&linked, id), r),
    ensures
        final(d)@.node(id).style.contains_key(name@) && final(d)@.node(id).style[name@] == value@,
        final(d)@.node(id).props == old(d)@.node(id).props,
        final(d)@.node(id).attributes == old(d)@.node(id).attributes,
        r == sheet,
        final(e)@.node(id).style == old(e)@.node(id).style,
{
}

/// A repaint is owed once something was touched, and the debt is paid by asking; what was released
/// is handed out once.
pub proof fn a_debt_is_paid_once(
    d: &mut Dom,
    e: &mut Dom,
    f: &mut Dom,
    owed: bool,
    released: Vec<usize>,
)
    requires
        call_ensures(Dom::touch, (d,), ()),
        call_ensures(Dom::take_dirty, (e,), owed),
        call_ensures(Dom::take_released, (f,), released),
    ensures
        final(d)@.dirty,
        final(d)@.slots == old(d)@.slots,
        owed == old(e)@.dirty && !final(e)@.dirty,
        final(e)@.slots == old(e)@.slots,
        released@.to_set() == old(f)@.released,
        final(f)@.released == Set::<usize>::empty(),
        final(f)@.dirty == old(f)@.dirty,
{
}

/// A parent that is given is the parent then, with the instance for its last child; what the tree
/// does not allow is refused and changes nothing.
pub proof fn a_given_parent_is_the_parent(
    d: &mut Dom,
    id: usize,
    p: usize,
    r: Result<(), Fault>,
)
    requires
        call_ensures(Dom::set_parent, (d, id, Some(p)), r),
        old(d)@.sound(),
        old(d)@.alive(id),
    ensures
        r is Ok == (old(d)@.alive(p) && !old(d)@.at_or_above(id, p)),
        r is Ok && old(d)@.parent(id) != Some(p) ==> final(d)@.parent(id) == Some(p)
            && final(d)@.kids(p).contains(id),
        r is Err ==> final(d)@ == old(d)@,
{
    crate::tree::unparented_keeps(old(d)@, id);
    let v = old(d)@;
    if r is Ok && v.parent(id) != Some(p) {
        let w = v.unparented(id).parented(id, p);
        assert(w.kids(p).last() == id);
        assert(w.kids(p).contains(id));
    }
}

/// What is destroyed is not there any more.
pub proof fn what_was_destroyed_is_not_there(d: &mut Dom, id: usize)
    requires
        call_ensures(Dom::destroy, (d, id), ()),
        old(d)@.sound(),
        old(d)@.alive(id),
    ensures
        !final(d)@.alive(id),
        final(d)@.dirty,
{
    crate::tree::subtree_members(old(d)@, id, id);
    crate::tree::at_or_above_parent(old(d)@, id, id);
}

/// A handler that is connected is called by its own number until it is disconnected, and no other
/// is disconnected with it.
pub proof fn a_connection_lasts_until_it_is_given_up(
    d: &mut Dom,
    e: &mut Dom,
    id: usize,
    kind: Kind,
    function: u64,
    conn: Option<usize>,
    c: usize,
    other: usize,
)
    requires
        call_ensures(Dom::connect, (d, id, kind, function), conn),
        call_ensures(Dom::disconnect, (e, c), ()),
        old(d)@.handlers.len() < usize::MAX,
        other != c,
    ensures
        conn is Some == old(d)@.alive(id),
        conn matches Some(n) ==> final(d)@.handler(n) == Some(function) && old(d)@.handler(n) is None,
        final(e)@.handler(c) is None,
        final(e)@.handler(other) == old(e)@.handler(other),
{
}

// ---- assigning through a world ----

/// A refused assignment changes nothing at all.
pub proof fn a_refused_assignment_changes_nothing(
    w: &mut World,
    catalog: &Catalog,
    id: usize,
    key: &str,
    value: &Guest,
    r: Result<Agenda, Fault>,
)
    requires
        call_ensures(assign, (w, catalog, id, key, value), r),
    ensures
        r is Err ==> final(w)@ == old(w)@,
        key@ == "ClassName"@ ==> r is Err,
        !old(w)@.dom.alive(id) ==> r is Err,
        r is Ok ==> final(w)@.focus == old(w)@.focus && final(w)@.impulses == old(w)@.impulses,
{
}

// ---- tags ----

/// A tag that is put on is there, a tag that is taken off is not, and every other tag stays.
pub proof fn tags_go_on_and_off(
    w: &mut World,
    v: &mut World,
    id: usize,
    tag: &str,
    on: Result<Agenda, Fault>,
    off: Result<Agenda, Fault>,
    word: Seq<char>,
    other: usize,
)
    requires
        call_ensures(add_tag, (w, id, tag), on),
        call_ensures(remove_tag, (v, id, tag), off),
        old(w)@.dom.alive(id),
        old(v)@.dom.alive(id),
        (word, other) != (tag@, id),
    ensures
        on is Ok && off is Ok,
        final(w)@.dom.tags.contains((tag@, id)),
        !final(v)@.dom.tags.contains((tag@, id)),
        final(w)@.dom.tags.contains((word, other)) == old(w)@.dom.tags.contains((word, other)),
        final(v)@.dom.tags.contains((word, other)) == old(v)@.dom.tags.contains((word, other)),
        (on->Ok_0@.len() > 0) == !old(w)@.dom.tags.contains((tag@, id)),
{
}

/// The two events of a tag are of the one service and of that tag, one for getting it and the other
/// for losing it.
pub proof fn a_tag_has_two_events(d: &mut Dom, e: &mut Dom, tag: &str, a: Signal, b: Signal)
    requires
        call_ensures(instance_added_signal, (d, tag), a),
        call_ensures(instance_removed_signal, (e, tag), b),
    ensures
        a.kind@ == KindView::TagAdded(tag@),
        b.kind@ == KindView::TagRemoved(tag@),
        final(d)@.service == Some(a.id),
        final(e)@.service == Some(b.id),
        old(d)@.service is Some ==> final(d)@ == old(d)@,
{
}

// ---- the small interface ----

/// The clipboard holds what was written last, and storage holds what was stored last under each key.
pub proof fn what_was_written_is_read(
    h: &mut HostState,
    g: &mut HostState,
    text: String,
    key: String,
    value: String,
    other: &str,
    written: HostState,
    kept: HostState,
    read: String,
    got: Option<String>,
    rest: Option<String>,
    before: Option<String>,
    name: &str,
)
    requires
        call_ensures(HostState::write_text, (h, text), ()),
        written == *final(h),
        call_ensures(HostState::read_text, (&written,), read),
        call_ensures(HostState::storage_set, (g, key, value), ()),
        kept == *final(g),
        name@ == key@,
        other@ != key@,
        call_ensures(HostState::storage_get, (&kept, name), got),
        call_ensures(HostState::storage_get, (&kept, other), rest),
        call_ensures(HostState::storage_get, (&*old(g), other), before),
    ensures
        read@ == text@,
        final(h)@.storage == old(h)@.storage && final(h)@.components == old(h)@.components,
        got is Some && got->0@ == value@,
        rest is Some == before is Some,
        rest is Some ==> rest->0@ == before->0@,
        final(g)@.clipboard_text == old(g)@.clipboard_text,
{
}

/// A component that is registered is clicked by its own function from then on.
pub proof fn a_registered_component_is_clicked(
    h: &mut HostState,
    id: String,
    render: u64,
    click: Option<u64>,
    after: HostState,
    name: &str,
    r: Option<u64>,
)
    requires
        call_ensures(HostState::register_component, (h, id, render, click), ()),
        after == *final(h),
        name@ == id@,
        call_ensures(HostState::handle_click, (&after, name), r),
    ensures
        r == click,
        final(h)@.components.last().render_fn == render,
        final(h)@.clipboard_text == old(h)@.clipboard_text,
{
    crate::bindings::a_component_replaces_its_namesakes(
        old(h)@.components,
        crate::bindings::ComponentView { id: id@, render_fn: render, click_fn: click },
    );
}

/// What was asked for is handed out once, what to load apart from what to unload.
pub proof fn requests_are_handed_out_once(
    l: &mut Library,
    m: &mut Library,
    load: Vec<String>,
    unload: Vec<String>,
)
    requires
        call_ensures(Library::take_load_requests, (l,), load),
        call_ensures(Library::take_unload_requests, (m,), unload),
    ensures
        views(load@) == old(l)@.load,
        final(l)@.load.len() == 0 && final(l)@.unload == old(l)@.unload,
        views(unload@) == old(m)@.unload,
        final(m)@.unload.len() == 0 && final(m)@.load == old(m)@.load,
{
}

/// A handle that is remembered for an instance is found for it, and no other is disturbed.
pub proof fn a_remembered_handle_is_found(
    h: &mut Handles,
    id: usize,
    handle: u64,
    after: Handles,
    r: Option<u64>,
    other: usize,
    s: Option<u64>,
    was: Option<u64>,
)
    requires
        call_ensures(Handles::remember, (h, id, handle), ()),
        after == *final(h),
        other != id,
        call_ensures(Handles::look, (&after, id), r),
        call_ensures(Handles::look, (&after, other), s),
        call_ensures(Handles::look, (&*old(h), other), was),
    ensures
        r == Some(handle),
        s == was,
{
}

/// A note is said the first time and never again.
pub proof fn a_note_is_said_the_first_time(
    said: &mut Names,
    note: &Note,
    r: Option<String>,
)
    requires
        call_ensures(note_once_layout, (said, note), r),
    ensures
        r is Some == !old(said)@.contains(note@.key),
        final(said)@.contains(note@.key),
        r is Some ==> r->0@ == "[dew] "@ + note@.message,
{
}

} // verus!
