//! The arena: every instance of one guest, its tree, properties, tags and connections.

use crate::fault::{dead_instance, dead_message, refuse, Fault};
use crate::reflection::{Catalog, CatalogView};
use crate::signal::{Kind, KindView};
use crate::table::{ordered_rows, Table};
use crate::text::{ascending, insert_text, same, views};
use crate::tree::{
    ancestors_unfold, at_or_above_parent, below, connected_keeps, depth_holds, destroyed_keeps,
    disconnected_keeps, inserted_keeps, kids_below, parented_keeps, put_keeps, spread_first,
    strictly_ascending, subtree_distinct, subtree_members, unparented_above, unparented_keeps,
    without, DomView, HandlerView, NodeView,
};
use crate::value::{Value, ValueView};
use vstd::prelude::*;

verus! {

/// One instance.
#[derive(Debug)]
struct Node {
    class: String,
    name: String,
    parent: Option<usize>,
    children: Vec<usize>,
    props: Table,
    attributes: Table,
    connections: Vec<usize>,
    style: Table,
    link: Option<usize>,
}

impl View for Node {
    type V = NodeView;

    closed spec fn view(&self) -> NodeView {
        NodeView {
            class: self.class@,
            name: self.name@,
            parent: self.parent,
            children: self.children@,
            props: self.props@,
            attributes: self.attributes@,
            connections: self.connections@,
            style: self.style@,
            link: self.link,
        }
    }
}

impl Node {
    spec fn wf(self) -> bool {
        self.props.wf() && self.attributes.wf() && self.style.wf()
    }
}

/// One connected handler.
#[derive(Debug)]
struct Handler {
    instance: usize,
    kind: Kind,
    function: u64,
}

impl View for Handler {
    type V = HandlerView;

    closed spec fn view(&self) -> HandlerView {
        HandlerView { instance: self.instance, kind: self.kind@, function: self.function }
    }
}

/// Every instance of one guest. Numbers are never used twice, neither those of instances nor
/// those of connections, so that a stale one stays stale.
#[derive(Debug)]
pub struct Dom {
    slots: Vec<Option<Node>>,
    handlers: Vec<Option<Handler>>,
    dirty: bool,
    released: Vec<usize>,
    tags: Vec<(String, usize)>,
    service: Option<usize>,
}

spec fn slot_view(s: Option<Node>) -> Option<NodeView> {
    match s {
        Some(n) => Some(n@),
        None => None,
    }
}

spec fn slot_views(s: Seq<Option<Node>>) -> Seq<Option<NodeView>> {
    s.map_values(|x: Option<Node>| slot_view(x))
}

spec fn handler_view(h: Option<Handler>) -> Option<HandlerView> {
    match h {
        Some(h) => Some(h@),
        None => None,
    }
}

spec fn handler_views(s: Seq<Option<Handler>>) -> Seq<Option<HandlerView>> {
    s.map_values(|x: Option<Handler>| handler_view(x))
}

spec fn tag_views(rows: Seq<(String, usize)>) -> Seq<(Seq<char>, usize)> {
    rows.map_values(|r: (String, usize)| (r.0@, r.1))
}

impl View for Dom {
    type V = DomView;

    closed spec fn view(&self) -> DomView {
        DomView {
            slots: slot_views(self.slots@),
            handlers: handler_views(self.handlers@),
            dirty: self.dirty,
            released: self.released@.to_set(),
            tags: tag_views(self.tags@).to_set(),
            service: self.service,
        }
    }
}

/// A table of a node that may be gone.
pub open spec fn value_in(map: Map<Seq<char>, ValueView>, name: Seq<char>) -> Option<ValueView> {
    if map.contains_key(name) {
        Some(map[name])
    } else {
        None
    }
}

/// The view of an optional value.
pub open spec fn value_view(v: Option<Value>) -> Option<ValueView> {
    match v {
        Some(x) => Some(x@),
        None => None,
    }
}

/// The view of an optional string.
pub open spec fn text_view(v: Option<String>) -> Option<Seq<char>> {
    match v {
        Some(x) => Some(x@),
        None => None,
    }
}

/// A table with a value under a name, or with none there.
pub open spec fn with_entry(
    map: Map<Seq<char>, ValueView>,
    name: Seq<char>,
    value: Option<ValueView>,
) -> Map<Seq<char>, ValueView> {
    match value {
        Some(v) => map.insert(name, v),
        None => map.remove(name),
    }
}

impl DomView {
    /// A property as it was assigned, or else its default.
    pub open spec fn property(self, catalog: CatalogView, id: usize, key: Seq<char>) -> Option<
        ValueView,
    > {
        if !self.alive(id) {
            None
        } else if self.node(id).props.contains_key(key) {
            Some(self.node(id).props[key])
        } else {
            catalog.default(self.node(id).class, key)
        }
    }

    /// Is this connection in use, and for this event?
    pub open spec fn hears(self, kind: KindView) -> spec_fn(usize) -> bool {
        |c: usize|
            c < self.handlers.len() && self.handlers[c as int] is Some
                && self.handlers[c as int]->0.kind == kind
    }

    /// The connections to an event on an instance, in the order of connecting.
    pub open spec fn listeners(self, id: usize, kind: KindView) -> Seq<usize> {
        if self.alive(id) {
            self.node(id).connections.filter(self.hears(kind))
        } else {
            Seq::empty()
        }
    }

    /// The guest function behind a connection, while it is in use.
    pub open spec fn handler(self, conn: usize) -> Option<u64> {
        if conn < self.handlers.len() && self.handlers[conn as int] is Some {
            Some(self.handlers[conn as int]->0.function)
        } else {
            None
        }
    }

    pub open spec fn touched(self) -> DomView {
        DomView { dirty: true, ..self }
    }

    /// The tags that are on an instance taken off it.
    pub open spec fn untagged(self, id: usize) -> DomView {
        DomView { tags: self.tags.filter(|p: (Seq<char>, usize)| p.1 != id), ..self }
    }
}

impl Dom {
    /// The tables are in order.
    pub closed spec fn kept(self) -> bool {
        forall|i: int|
            0 <= i < self.slots@.len() && (#[trigger] self.slots@[i]) is Some ==> (
            self.slots@[i]->0).wf()
    }

    /// What every operation keeps.
    pub open spec fn ok(self) -> bool {
        self.kept() && self@.sound()
    }

    /// An arena without instances, with a first frame to draw.
    pub fn new() -> (r: Dom)
        ensures
            r.ok(),
            r@ == (DomView {
                slots: Seq::empty(),
                handlers: Seq::empty(),
                dirty: true,
                released: Set::empty(),
                tags: Set::empty(),
                service: None,
            }),
    {
        let r = Dom {
            slots: Vec::new(),
            handlers: Vec::new(),
            dirty: true,
            released: Vec::new(),
            tags: Vec::new(),
            service: None,
        };
        proof {
            let v = r@;
            assert(v.slots =~= Seq::empty());
            assert(v.handlers =~= Seq::empty());
            assert(v.released =~= Set::empty());
            assert(v.tags =~= Set::empty());
            let zero = |x: usize| 0nat;
            assert(v.is_depth(zero));
            assert(v.is_height(zero));
        }
        r
    }

    /// A new instance of a class, without a parent. Its number has never been used.
    pub fn insert(&mut self, class: String, name: String) -> (r: usize)
        requires
            old(self).ok(),
        ensures
            final(self).ok(),
            r == old(self)@.slots.len(),
            final(self)@ == old(self)@.inserted(class@, name@),
    {
        let ghost was = self@;
        let id: usize = self.slots.len();
        let ghost c = class@;
        let ghost n = name@;
        self.slots.push(
            Some(
                Node {
                    class,
                    name,
                    parent: None,
                    children: Vec::new(),
                    props: Table::new(),
                    attributes: Table::new(),
                    connections: Vec::new(),
                    style: Table::new(),
                    link: None,
                },
            ),
        );
        self.dirty = true;
        let more: usize = self.slots.len();
        proof {
            assert(more == id + 1);
            inserted_keeps(was, c, n);
            assert(self@.slots =~= was.inserted(c, n).slots);
        }
        id
    }

    /// How many numbers have been used.
    pub fn count(&self) -> (r: usize)
        ensures
            r == self@.slots.len(),
    {
        self.slots.len()
    }

    /// Is there a living instance of this number?
    pub fn is_alive(&self, id: usize) -> (r: bool)
        ensures
            r == self@.alive(id),
    {
        id < self.slots.len() && self.slots[id].is_some()
    }

    fn node(&self, id: usize) -> (r: Option<&Node>)
        requires
            self.kept(),
        ensures
            match r {
                Some(n) => self@.alive(id) && n@ == self@.node(id) && n.wf(),
                None => !self@.alive(id),
            },
    {
        if id < self.slots.len() {
            match &self.slots[id] {
                Some(n) => Some(n),
                None => None,
            }
        } else {
            None
        }
    }

    /// A property as it was assigned, or else its default.
    pub fn property(&self, catalog: &Catalog, id: usize, key: &str) -> (r: Option<Value>)
        requires
            self.ok(),
        ensures
            value_view(r) == self@.property(catalog@, id, key@),
    {
        match self.node(id) {
            None => None,
            Some(n) => match n.props.get(key) {
                Some(v) => Some(v.dup()),
                None => catalog.default_for(n.class.as_str(), key),
            },
        }
    }

    /// What was assigned to a property, if anything.
    pub fn assigned(&self, id: usize, key: &str) -> (r: Option<Value>)
        requires
            self.ok(),
        ensures
            value_view(r) == (if self@.alive(id) {
                value_in(self@.node(id).props, key@)
            } else {
                None
            }),
    {
        match self.node(id) {
            None => None,
            Some(n) => match n.props.get(key) {
                Some(v) => Some(v.dup()),
                None => None,
            },
        }
    }

    /// The children of an instance, in their order.
    pub fn children(&self, id: usize) -> (r: Vec<usize>)
        requires
            self.ok(),
        ensures
            r@ == self@.kids(id),
    {
        match self.node(id) {
            Some(n) => n.children.clone(),
            None => Vec::new(),
        }
    }

    pub fn class_of(&self, id: usize) -> (r: Option<String>)
        requires
            self.ok(),
        ensures
            text_view(r) == (if self@.alive(id) {
                Some(self@.node(id).class)
            } else {
                None
            }),
    {
        match self.node(id) {
            Some(n) => Some(n.class.clone()),
            None => None,
        }
    }

    pub fn name_of(&self, id: usize) -> (r: Option<String>)
        requires
            self.ok(),
        ensures
            text_view(r) == (if self@.alive(id) {
                Some(self@.node(id).name)
            } else {
                None
            }),
    {
        match self.node(id) {
            Some(n) => Some(n.name.clone()),
            None => None,
        }
    }

    pub fn parent_of(&self, id: usize) -> (r: Option<usize>)
        requires
            self.ok(),
        ensures
            r == self@.parent(id),
    {
        match self.node(id) {
            Some(n) => n.parent,
            None => None,
        }
    }

    /// Rename an instance. One that is gone stays gone.
    pub fn set_name(&mut self, id: usize, name: String)
        requires
            old(self).ok(),
        ensures
            final(self).ok(),
            final(self)@ == (if old(self)@.alive(id) {
                old(self)@.put(id, NodeView { name: name@, ..old(self)@.node(id) }).touched()
            } else {
                old(self)@
            }),
    {
        let ghost was = self@;
        let ghost node = NodeView { name: name@, ..was.node(id) };
        if self.is_alive(id) {
            if let Some(n) = &mut self.slots[id] {
                n.name = name;
            }
            self.dirty = true;
            proof {
                put_keeps(was, id, node);
                assert(self@.slots =~= was.put(id, node).slots);
                was.put(id, node).touched_keeps();
            }
        }
    }

    /// Assign a property, and owe a repaint. No rule is checked here.
    pub fn assign(&mut self, id: usize, key: &str, value: Value)
        requires
            old(self).ok(),
        ensures
            final(self).ok(),
            final(self)@ == (if old(self)@.alive(id) {
                old(self)@.assigned(id, key@, value@).touched()
            } else {
                old(self)@
            }),
    {
        self.set_internal(id, key, value);
        if self.is_alive(id) {
            self.touch();
        }
    }

    /// Write a property that the host computed, which no guest may assign. This owes no repaint:
    /// drawing a frame writes such properties.
    pub fn set_internal(&mut self, id: usize, key: &str, value: Value)
        requires
            old(self).ok(),
        ensures
            final(self).ok(),
            final(self)@ == (if old(self)@.alive(id) {
                old(self)@.assigned(id, key@, value@)
            } else {
                old(self)@
            }),
    {
        let ghost was = self@;
        let ghost node = NodeView {
            props: was.node(id).props.insert(key@, value@),
            ..was.node(id)
        };
        if self.is_alive(id) {
            if let Some(n) = &mut self.slots[id] {
                n.props.set(key, value);
            }
            proof {
                put_keeps(was, id, node);
                assert(self@.slots =~= was.put(id, node).slots);
            }
        }
    }

    pub fn get_attribute(&self, id: usize, name: &str) -> (r: Option<Value>)
        requires
            self.ok(),
        ensures
            value_view(r) == (if self@.alive(id) {
                value_in(self@.node(id).attributes, name@)
            } else {
                None
            }),
    {
        match self.node(id) {
            None => None,
            Some(n) => match n.attributes.get(name) {
                Some(v) => Some(v.dup()),
                None => None,
            },
        }
    }

    /// Set an attribute, or take it away.
    pub fn set_attribute(&mut self, id: usize, name: &str, val: Option<Value>)
        requires
            old(self).ok(),
        ensures
            final(self).ok(),
            final(self)@ == (if old(self)@.alive(id) {
                old(self)@.put(
                    id,
                    NodeView {
                        attributes: with_entry(
                            old(self)@.node(id).attributes,
                            name@,
                            value_view(val),
                        ),
                        ..old(self)@.node(id)
                    },
                ).touched()
            } else {
                old(self)@
            }),
    {
        let ghost was = self@;
        let ghost node = NodeView {
            attributes: with_entry(was.node(id).attributes, name@, value_view(val)),
            ..was.node(id)
        };
        if self.is_alive(id) {
            if let Some(n) = &mut self.slots[id] {
                match val {
                    Some(v) => {
                        n.attributes.set(name, v);
                    },
                    None => {
                        n.attributes.remove(name);
                    },
                }
            }
            self.dirty = true;
            proof {
                put_keeps(was, id, node);
                assert(self@.slots =~= was.put(id, node).slots);
                was.put(id, node).touched_keeps();
            }
        }
    }

    /// Every attribute, in the order of the names.
    pub fn get_attributes(&self, id: usize) -> (r: Vec<(String, Value)>)
        requires
            self.ok(),
        ensures
            ordered_rows(
                r@,
                if self@.alive(id) {
                    self@.node(id).attributes
                } else {
                    Map::empty()
                },
            ),
    {
        match self.node(id) {
            Some(n) => n.attributes.rows(),
            None => Table::new().rows(),
        }
    }

    /// The properties that a style rule sets, in the order of the names.
    pub fn get_style_properties(&self, id: usize) -> (r: Vec<(String, Value)>)
        requires
            self.ok(),
        ensures
            ordered_rows(
                r@,
                if self@.alive(id) {
                    self@.node(id).style
                } else {
                    Map::empty()
                },
            ),
    {
        match self.node(id) {
            Some(n) => n.style.rows(),
            None => Table::new().rows(),
        }
    }

    /// Set what a style rule sets a property to, or take it away.
    pub fn set_style_property(&mut self, id: usize, name: &str, val: Option<Value>)
        requires
            old(self).ok(),
        ensures
            final(self).ok(),
            final(self)@ == (if old(self)@.alive(id) {
                old(self)@.put(
                    id,
                    NodeView {
                        style: with_entry(old(self)@.node(id).style, name@, value_view(val)),
                        ..old(self)@.node(id)
                    },
                ).touched()
            } else {
                old(self)@
            }),
    {
        let ghost was = self@;
        let ghost node = NodeView {
            style: with_entry(was.node(id).style, name@, value_view(val)),
            ..was.node(id)
        };
        if self.is_alive(id) {
            if let Some(n) = &mut self.slots[id] {
                match val {
                    Some(v) => {
                        n.style.set(name, v);
                    },
                    None => {
                        n.style.remove(name);
                    },
                }
            }
            self.dirty = true;
            proof {
                put_keeps(was, id, node);
                assert(self@.slots =~= was.put(id, node).slots);
                was.put(id, node).touched_keeps();
            }
        }
    }

    /// The sheet that a style link names.
    pub fn get_style_link(&self, id: usize) -> (r: Option<usize>)
        requires
            self.ok(),
        ensures
            r == (if self@.alive(id) {
                self@.node(id).link
            } else {
                None
            }),
    {
        match self.node(id) {
            Some(n) => n.link,
            None => None,
        }
    }

    /// Let a style link name a sheet, or none.
    pub fn set_style_link(&mut self, id: usize, sheet: Option<usize>)
        requires
            old(self).ok(),
        ensures
            final(self).ok(),
            final(self)@ == (if old(self)@.alive(id) {
                old(self)@.put(id, NodeView { link: sheet, ..old(self)@.node(id) }).touched()
            } else {
                old(self)@
            }),
    {
        let ghost was = self@;
        let ghost node = NodeView { link: sheet, ..was.node(id) };
        if self.is_alive(id) {
            if let Some(n) = &mut self.slots[id] {
                n.link = sheet;
            }
            self.dirty = true;
            proof {
                put_keeps(was, id, node);
                assert(self@.slots =~= was.put(id, node).slots);
                was.put(id, node).touched_keeps();
            }
        }
    }

    /// Something changed: the next frame has to be drawn.
    pub fn touch(&mut self)
        requires
            old(self).ok(),
        ensures
            final(self).ok(),
            final(self)@ == old(self)@.touched(),
    {
        proof {
            self@.touched_keeps();
        }
        self.dirty = true;
    }

    /// Is a repaint owed? The debt is paid by asking.
    pub fn take_dirty(&mut self) -> (r: bool)
        requires
            old(self).ok(),
        ensures
            final(self).ok(),
            r == old(self)@.dirty,
            final(self)@ == (DomView { dirty: false, ..old(self)@ }),
    {
        let r = self.dirty;
        self.dirty = false;
        proof {
            old(self)@.dirty_keeps(false);
        }
        r
    }

    /// The destroyed instances whose handles can be forgotten, each handed out once.
    pub fn take_released(&mut self) -> (r: Vec<usize>)
        requires
            old(self).ok(),
        ensures
            final(self).ok(),
            r@.to_set() == old(self)@.released,
            final(self)@ == (DomView { released: Set::empty(), ..old(self)@ }),
    {
        let mut r: Vec<usize> = Vec::new();
        std::mem::swap(&mut r, &mut self.released);
        proof {
            assert(self.released@.to_set() =~= Set::empty());
            old(self)@.released_keeps(Set::empty());
        }
        r
    }
}

impl Default for Dom {
    fn default() -> (r: Dom)
        ensures
            r.ok(),
            r@ == (DomView {
                slots: Seq::empty(),
                handlers: Seq::empty(),
                dirty: true,
                released: Set::empty(),
                tags: Set::empty(),
                service: None,
            }),
    {
        Dom::new()
    }
}

/// Add a number to an ascending list, where it is not in it yet.
fn insert_id(list: &mut Vec<usize>, x: usize)
    requires
        strictly_ascending(old(list)@),
    ensures
        strictly_ascending(final(list)@),
        forall|y: usize| final(list)@.contains(y) <==> y == x || old(list)@.contains(y),
{
    let ghost was = list@;
    let mut at: usize = 0;
    while at < list.len() && list[at] < x
        invariant
            list@ == was,
            at <= list.len(),
            forall|j: int| 0 <= j < at ==> #[trigger] was[j] < x,
        decreases list.len() - at,
    {
        at += 1;
    }
    if at < list.len() && list[at] == x {
        assert(was[at as int] == x);
        return;
    }
    list.insert(at, x);
    proof {
        let now = list@;
        assert(now =~= was.insert(at as int, x));
        assert forall|j: int| at <= j < was.len() implies x < #[trigger] was[j] by {
            if j > at {
                assert(was[at as int] < was[j]);
            }
        }
        assert forall|i: int, j: int| 0 <= i < j < now.len() implies #[trigger] now[i]
            < #[trigger] now[j] by {
            let a = if i < at { i } else { i - 1 };
            let b = if j < at { j } else { j - 1 };
            if i == at {
                assert(now[j] == was[b]);
            } else if j == at {
                assert(now[i] == was[a]);
            } else {
                assert(now[i] == was[a] && now[j] == was[b]);
                assert(was[a] < was[b]);
            }
        }
        assert forall|y: usize| now.contains(y) <==> y == x || was.contains(y) by {
            if was.contains(y) {
                let k = choose|k: int| 0 <= k < was.len() && was[k] == y;
                assert(now[if k < at { k } else { k + 1 }] == y);
            }
            if y == x {
                assert(now[at as int] == x);
            }
            if now.contains(y) {
                let k = choose|k: int| 0 <= k < now.len() && now[k] == y;
                if k != at {
                    assert(was[if k < at { k } else { k - 1 }] == y);
                }
            }
        }
    }
}

/// A list without one of its members.
fn others(list: &Vec<usize>, id: usize) -> (r: Vec<usize>)
    ensures
        r@ == without(list@, id),
{
    let mut r: Vec<usize> = Vec::new();
    let mut i: usize = 0;
    proof {
        reveal(Seq::filter);
        assert(list@.take(0) =~= Seq::empty());
    }
    while i < list.len()
        invariant
            i <= list.len(),
            r@ == without(list@.take(i as int), id),
        decreases list.len() - i,
    {
        proof {
            reveal(Seq::filter);
            assert(list@.take(i + 1).drop_last() =~= list@.take(i as int));
        }
        if list[i] != id {
            r.push(list[i]);
        }
        i += 1;
    }
    assert(list@.take(i as int) =~= list@);
    r
}

// ---- tags ----

impl Dom {
    /// The number of the instance that stands for the tag service, which the first call makes.
    pub fn collection_service_id(&mut self) -> (r: usize)
        requires
            old(self).ok(),
        ensures
            final(self).ok(),
            match old(self)@.service {
                Some(id) => r == id && final(self)@ == old(self)@,
                None => r == old(self)@.slots.len() && final(self)@ == (DomView {
                    service: Some(r),
                    ..old(self)@.inserted("CollectionService"@, "CollectionService"@)
                }),
            },
    {
        if let Some(id) = self.service {
            return id;
        }
        let id: usize = self.insert("CollectionService".to_owned(), "CollectionService".to_owned());
        let ghost v = self@;
        self.service = Some(id);
        proof {
            v.service_keeps(id);
        }
        id
    }

    /// The number of the instance that stands for the tag service, where there is one.
    pub fn service(&self) -> (r: Option<usize>)
        ensures
            r == self@.service,
    {
        self.service
    }

    /// Is this tag on this instance?
    pub fn has_tag(&self, id: usize, tag: &str) -> (r: bool)
        ensures
            r == self@.tags.contains((tag@, id)),
    {
        let ghost rows = tag_views(self.tags@);
        let mut i: usize = 0;
        while i < self.tags.len()
            invariant
                i <= self.tags.len(),
                rows == tag_views(self.tags@),
                forall|j: int| 0 <= j < i ==> #[trigger] rows[j] != (tag@, id),
            decreases self.tags.len() - i,
        {
            if self.tags[i].1 == id && same(self.tags[i].0.as_str(), tag) {
                assert(rows[i as int] == (tag@, id));
                assert(rows.contains((tag@, id)));
                return true;
            }
            i += 1;
        }
        false
    }

    /// Put a tag on an instance. Answers whether it is new there.
    pub fn add_tag(&mut self, id: usize, tag: &str) -> (r: bool)
        requires
            old(self).ok(),
        ensures
            final(self).ok(),
            r == (old(self)@.alive(id) && !old(self)@.tags.contains((tag@, id))),
            final(self)@ == (if r {
                DomView { tags: old(self)@.tags.insert((tag@, id)), ..old(self)@ }.touched()
            } else {
                old(self)@
            }),
    {
        let ghost was = self@;
        if !self.is_alive(id) || self.has_tag(id, tag) {
            return false;
        }
        let ghost rows = tag_views(self.tags@);
        self.tags.push((tag.to_owned(), id));
        self.dirty = true;
        proof {
            let now = tag_views(self.tags@);
            assert(now =~= rows.push((tag@, id)));
            let want = was.tags.insert((tag@, id));
            assert forall|p: (Seq<char>, usize)| now.to_set().contains(p) <==> want.contains(p) by {
                if rows.contains(p) {
                    let k = choose|k: int| 0 <= k < rows.len() && rows[k] == p;
                    assert(now[k] == p);
                }
                assert(now[rows.len() as int] == (tag@, id));
                if now.contains(p) {
                    let k = choose|k: int| 0 <= k < now.len() && now[k] == p;
                    if k < rows.len() {
                        assert(rows[k] == p);
                    }
                }
            }
            assert(now.to_set() =~= want);
            was.tags_keep(want);
            DomView { tags: want, ..was }.touched_keeps();
        }
        true
    }

    /// Take the rows out that hold this tag on this instance or, without a tag, any tag on it.
    fn drop_tags(&mut self, id: usize, tag: Option<&str>)
        requires
            old(self).ok(),
        ensures
            final(self).ok(),
            final(self)@ == (match tag {
                Some(t) => DomView { tags: old(self)@.tags.remove((t@, id)), ..old(self)@ },
                None => old(self)@.untagged(id),
            }),
    {
        let ghost was = self@;
        let ghost rows = tag_views(self.tags@);
        let ghost want = match tag {
            Some(t) => was.tags.remove((t@, id)),
            None => was.untagged(id).tags,
        };
        let mut left: Vec<(String, usize)> = Vec::new();
        let mut i: usize = 0;
        while i < self.tags.len()
            invariant
                self@ == was,
                rows == tag_views(self.tags@),
                was.tags == rows.to_set(),
                want == (match tag {
                    Some(t) => was.tags.remove((t@, id)),
                    None => was.untagged(id).tags,
                }),
                i <= self.tags.len(),
                forall|p: (Seq<char>, usize)|
                    #![trigger tag_views(left@).contains(p)]
                    tag_views(left@).contains(p) <==> want.contains(p) && exists|j: int|
                        0 <= j < i && #[trigger] rows[j] == p,
            decreases self.tags.len() - i,
        {
            let keep = match tag {
                Some(t) => self.tags[i].1 != id || !same(self.tags[i].0.as_str(), t),
                None => self.tags[i].1 != id,
            };
            let ghost row = rows[i as int];
            let ghost before = tag_views(left@);
            assert(rows.contains(row));
            assert(keep == want.contains(row));
            if keep {
                left.push((self.tags[i].0.clone(), self.tags[i].1));
                assert(tag_views(left@) =~= before.push(row));
            }
            proof {
                let now = tag_views(left@);
                assert forall|p: (Seq<char>, usize)|
                    #![trigger now.contains(p)]
                    now.contains(p) <==> want.contains(p) && exists|j: int|
                        0 <= j < i + 1 && #[trigger] rows[j] == p by {
                    if now.contains(p) {
                        let k = choose|k: int| 0 <= k < now.len() && now[k] == p;
                        if k < before.len() {
                            assert(before[k] == p);
                            assert(before.contains(p));
                        } else {
                            assert(rows[i as int] == p);
                        }
                    }
                    if want.contains(p) && exists|j: int| 0 <= j < i + 1 && #[trigger] rows[j] == p {
                        let j = choose|j: int| 0 <= j < i + 1 && #[trigger] rows[j] == p;
                        if j < i {
                            assert(before.contains(p));
                            let k = choose|k: int| 0 <= k < before.len() && before[k] == p;
                            assert(now[k] == p);
                        } else {
                            assert(now[before.len() as int] == p);
                        }
                    }
                }
            }
            i += 1;
        }
        self.tags = left;
        proof {
            let now = tag_views(self.tags@);
            assert forall|p: (Seq<char>, usize)| now.to_set().contains(p) <==> want.contains(p) by {
                if want.contains(p) {
                    assert(was.tags.contains(p));
                    assert(rows.contains(p));
                    let j = choose|j: int| 0 <= j < rows.len() && rows[j] == p;
                    assert(rows[j] == p);
                }
                assert(now.contains(p) == now.to_set().contains(p));
            }
            assert(now.to_set() =~= want);
            assert forall|t: Seq<char>, x: usize| #[trigger] want.contains((t, x)) implies x
                < was.slots.len() by {
                assert(was.tags.contains((t, x)));
            }
            was.tags_keep(want);
        }
    }

    /// Take a tag off an instance. Answers whether it was there.
    pub fn remove_tag(&mut self, id: usize, tag: &str) -> (r: bool)
        requires
            old(self).ok(),
        ensures
            final(self).ok(),
            r == old(self)@.tags.contains((tag@, id)),
            final(self)@ == (if r {
                DomView { tags: old(self)@.tags.remove((tag@, id)), ..old(self)@ }.touched()
            } else {
                old(self)@
            }),
    {
        if !self.has_tag(id, tag) {
            return false;
        }
        self.drop_tags(id, Some(tag));
        self.touch();
        true
    }

    /// Every instance that holds a tag, in ascending order.
    pub fn get_tagged(&self, tag: &str) -> (r: Vec<usize>)
        ensures
            strictly_ascending(r@),
            forall|id: usize| r@.contains(id) <==> self@.tags.contains((tag@, id)),
    {
        let ghost rows = tag_views(self.tags@);
        let mut r: Vec<usize> = Vec::new();
        let mut i: usize = 0;
        while i < self.tags.len()
            invariant
                i <= self.tags.len(),
                rows == tag_views(self.tags@),
                strictly_ascending(r@),
                forall|id: usize| #[trigger]
                    r@.contains(id) <==> exists|j: int|
                        0 <= j < i && #[trigger] rows[j] == (tag@, id),
            decreases self.tags.len() - i,
        {
            let ghost was = r@;
            let ghost row = rows[i as int];
            if same(self.tags[i].0.as_str(), tag) {
                insert_id(&mut r, self.tags[i].1);
            }
            proof {
                assert forall|id: usize| #[trigger]
                    r@.contains(id) <==> exists|j: int|
                        0 <= j < i + 1 && #[trigger] rows[j] == (tag@, id) by {
                    if r@.contains(id) {
                        if was.contains(id) {
                            let j = choose|j: int| 0 <= j < i && #[trigger] rows[j] == (tag@, id);
                            assert(rows[j] == (tag@, id));
                        } else {
                            assert(rows[i as int] == (tag@, id));
                        }
                    }
                    if exists|j: int| 0 <= j < i + 1 && #[trigger] rows[j] == (tag@, id) {
                        let j = choose|j: int| 0 <= j < i + 1 && #[trigger] rows[j] == (tag@, id);
                        if j < i {
                            assert(was.contains(id));
                        }
                    }
                }
            }
            i += 1;
        }
        proof {
            assert forall|id: usize| r@.contains(id) <==> self@.tags.contains((tag@, id)) by {
                if r@.contains(id) {
                    let j = choose|j: int| 0 <= j < i && #[trigger] rows[j] == (tag@, id);
                    assert(rows.contains((tag@, id)));
                }
                if rows.contains((tag@, id)) {
                    let j = choose|j: int| 0 <= j < rows.len() && rows[j] == (tag@, id);
                    assert(rows[j] == (tag@, id));
                }
            }
        }
        r
    }

    /// Every tag on an instance, in ascending order.
    pub fn get_tags(&self, id: usize) -> (r: Vec<String>)
        ensures
            ascending(views(r@)),
            forall|tag: Seq<char>| views(r@).contains(tag) <==> self@.tags.contains((tag, id)),
    {
        let ghost rows = tag_views(self.tags@);
        let mut r: Vec<String> = Vec::new();
        let mut i: usize = 0;
        while i < self.tags.len()
            invariant
                i <= self.tags.len(),
                rows == tag_views(self.tags@),
                ascending(views(r@)),
                forall|tag: Seq<char>| #[trigger]
                    views(r@).contains(tag) <==> exists|j: int|
                        0 <= j < i && #[trigger] rows[j] == (tag, id),
            decreases self.tags.len() - i,
        {
            let ghost was = views(r@);
            let ghost row = rows[i as int];
            if self.tags[i].1 == id {
                insert_text(&mut r, self.tags[i].0.as_str());
            }
            proof {
                assert forall|tag: Seq<char>| #[trigger]
                    views(r@).contains(tag) <==> exists|j: int|
                        0 <= j < i + 1 && #[trigger] rows[j] == (tag, id) by {
                    if views(r@).contains(tag) {
                        if was.contains(tag) {
                            let j = choose|j: int| 0 <= j < i && #[trigger] rows[j] == (tag, id);
                            assert(rows[j] == (tag, id));
                        } else {
                            assert(rows[i as int] == (tag, id));
                        }
                    }
                    if exists|j: int| 0 <= j < i + 1 && #[trigger] rows[j] == (tag, id) {
                        let j = choose|j: int| 0 <= j < i + 1 && #[trigger] rows[j] == (tag, id);
                        if j < i {
                            assert(was.contains(tag));
                        }
                    }
                }
            }
            i += 1;
        }
        proof {
            assert forall|tag: Seq<char>| views(r@).contains(tag) <==> self@.tags.contains(
                (tag, id),
            ) by {
                if views(r@).contains(tag) {
                    let j = choose|j: int| 0 <= j < i && #[trigger] rows[j] == (tag, id);
                    assert(rows.contains((tag, id)));
                }
                if rows.contains((tag, id)) {
                    let j = choose|j: int| 0 <= j < rows.len() && rows[j] == (tag, id);
                    assert(rows[j] == (tag, id));
                }
            }
        }
        r
    }

    /// Take every tag off an instance, and answer which they were, in ascending order.
    pub fn untag_all(&mut self, id: usize) -> (r: Vec<String>)
        requires
            old(self).ok(),
        ensures
            final(self).ok(),
            ascending(views(r@)),
            forall|tag: Seq<char>|
                views(r@).contains(tag) <==> old(self)@.tags.contains((tag, id)),
            final(self)@ == old(self)@.untagged(id),
    {
        let r = self.get_tags(id);
        self.drop_tags(id, None);
        r
    }
}

// ---- connections ----

impl Dom {
    /// Connect a guest function to an event on an instance. There is no connection to one that
    /// is gone.
    pub fn connect(&mut self, id: usize, kind: Kind, function: u64) -> (r: Option<usize>)
        requires
            old(self).ok(),
        ensures
            final(self).ok(),
            match r {
                Some(conn) => old(self)@.alive(id) && conn == old(self)@.handlers.len()
                    && final(self)@ == old(self)@.connected(id, kind@, function),
                None => !old(self)@.alive(id) && final(self)@ == old(self)@,
            },
    {
        if !self.is_alive(id) {
            return None;
        }
        let ghost was = self@;
        let ghost k = kind@;
        let conn: usize = self.handlers.len();
        self.handlers.push(Some(Handler { instance: id, kind, function }));
        let more: usize = self.handlers.len();
        if let Some(n) = &mut self.slots[id] {
            n.connections.push(conn);
        }
        proof {
            assert(more == conn + 1);
            connected_keeps(was, id, k, function);
            assert(self@.slots =~= was.connected(id, k, function).slots);
            assert(self@.handlers =~= was.connected(id, k, function).handlers);
        }
        Some(conn)
    }

    /// Give a connection up. One that is gone already stays gone.
    pub fn disconnect(&mut self, conn: usize)
        requires
            old(self).ok(),
        ensures
            final(self).ok(),
            final(self)@ == old(self)@.disconnected(conn),
    {
        let ghost was = self@;
        if conn >= self.handlers.len() {
            return;
        }
        let id: usize = match &self.handlers[conn] {
            Some(h) => h.instance,
            None => return,
        };
        proof {
            assert(was.handlers[conn as int] is Some);
            assert(was.alive(id));
        }
        self.handlers[conn] = None;
        if let Some(n) = &mut self.slots[id] {
            n.connections = others(&n.connections, conn);
        }
        proof {
            disconnected_keeps(was, conn);
            assert(self@.slots =~= was.disconnected(conn).slots);
            assert(self@.handlers =~= was.disconnected(conn).handlers);
        }
    }

    pub fn is_connected(&self, conn: usize) -> (r: bool)
        ensures
            r == (self@.handler(conn) is Some),
    {
        conn < self.handlers.len() && self.handlers[conn].is_some()
    }

    /// The connections to an event on an instance, in the order of connecting.
    pub fn listeners(&self, id: usize, kind: &Kind) -> (r: Vec<usize>)
        requires
            self.ok(),
        ensures
            r@ == self@.listeners(id, kind@),
    {
        let mut r: Vec<usize> = Vec::new();
        if let Some(n) = self.node(id) {
            let ghost all = n.connections@;
            let ghost hears = self@.hears(kind@);
            let mut i: usize = 0;
            proof {
                reveal(Seq::filter);
                assert(all.take(0) =~= Seq::empty());
            }
            while i < n.connections.len()
                invariant
                    self.ok(),
                    self@.alive(id),
                    all == n.connections@,
                    all == self@.node(id).connections,
                    hears == self@.hears(kind@),
                    i <= all.len(),
                    r@ == all.take(i as int).filter(hears),
                decreases all.len() - i,
            {
                proof {
                    reveal(Seq::filter);
                    assert(all.take(i + 1).drop_last() =~= all.take(i as int));
                    assert(self@.node(id).connections[i as int] == all[i as int]);
                }
                let conn: usize = n.connections[i];
                assert(conn < self.handlers@.len());
                if let Some(h) = &self.handlers[conn] {
                    assert(self@.handlers[conn as int] == Some(h@));
                    if h.kind.matches(kind) {
                        r.push(conn);
                    }
                }
                i += 1;
            }
            assert(all.take(i as int) =~= all);
        }
        r
    }

    /// The guest function behind a connection, while it is in use.
    pub fn handler(&self, conn: usize) -> (r: Option<u64>)
        ensures
            r == self@.handler(conn),
    {
        if conn < self.handlers.len() {
            match &self.handlers[conn] {
                Some(h) => Some(h.function),
                None => None,
            }
        } else {
            None
        }
    }
}

// ---- the tree ----

/// A list from its last member to its first, behind another list.
fn push_reversed(list: &mut Vec<usize>, more: &Vec<usize>)
    ensures
        final(list)@ == old(list)@ + more@.reverse(),
{
    let ghost was = list@;
    let mut k: usize = more.len();
    while k > 0
        invariant
            k <= more.len(),
            list@ == was + more@.skip(k as int).reverse(),
        decreases k,
    {
        k -= 1;
        list.push(more[k]);
        assert(list@ =~= was + more@.skip(k as int).reverse());
    }
    assert(more@.skip(0) =~= more@);
}

impl Dom {
    /// Everything under an instance, each instance before its children, children in their order.
    pub fn descendants(&self, id: usize) -> (r: Vec<usize>)
        requires
            self.ok(),
        ensures
            r@ == self@.descendants(id),
    {
        let ghost v = self@;
        let ghost levels = (v.height())(id);
        let mut out: Vec<usize> = Vec::new();
        let mut stack: Vec<usize> = Vec::new();
        push_reversed(&mut stack, &self.children(id));
        proof {
            kids_below(v, id);
            assert(stack@.reverse() =~= v.kids(id));
        }
        while stack.len() > 0
            invariant
                self.ok(),
                v == self@,
                below(v, stack@.reverse(), levels),
                out@ + v.spread(stack@.reverse(), levels) == v.descendants(id),
            decreases v.spread(stack@.reverse(), levels).len(),
        {
            let ghost rest = stack@.reverse();
            let ghost done = out@;
            match stack.pop() {
                None => {},
                Some(current) => {
                    let ghost left = stack@;
                    proof {
                        assert(rest[0] == current);
                        spread_first(v, rest, levels);
                        assert(left.reverse() =~= rest.skip(1));
                    }
                    out.push(current);
                    push_reversed(&mut stack, &self.children(current));
                    proof {
                        assert(stack@.reverse() =~= v.kids(current) + rest.skip(1));
                        assert(out@ + v.spread(stack@.reverse(), levels) =~= done + (seq![current]
                            + v.spread(stack@.reverse(), levels)));
                    }
                },
            }
        }
        proof {
            assert(stack@.reverse() =~= Seq::empty());
            assert(out@ + v.spread(stack@.reverse(), levels) =~= out@);
        }
        out
    }

    /// An instance and everything under it, each instance before its children.
    pub fn subtree(&self, id: usize) -> (r: Vec<usize>)
        requires
            self.ok(),
        ensures
            r@ == self@.subtree(id),
    {
        let mut r: Vec<usize> = Vec::new();
        r.push(id);
        let mut under = self.descendants(id);
        r.append(&mut under);
        assert(r@ =~= self@.subtree(id));
        r
    }

    /// The ancestors of an instance, closest first.
    pub fn ancestors(&self, id: usize) -> (r: Vec<usize>)
        requires
            self.ok(),
        ensures
            r@ == self@.ancestors(id),
    {
        let ghost v = self@;
        let mut out: Vec<usize> = Vec::new();
        let mut cursor: usize = id;
        let mut next = self.parent_of(id);
        proof {
            depth_holds(v);
            assert(out@ + v.ancestors(cursor) =~= v.ancestors(id));
        }
        while next.is_some()
            invariant
                self.ok(),
                v == self@,
                v.is_depth(v.depth()),
                next == v.parent(cursor),
                out@ + v.ancestors(cursor) == v.ancestors(id),
            ensures
                next is None,
            decreases (v.depth())(cursor),
        {
            match next {
                None => {},
                Some(p) => {
                    let ghost done = out@;
                    proof {
                        ancestors_unfold(v, cursor);
                        assert(v.alive(cursor));
                    }
                    out.push(p);
                    proof {
                        assert(out@ + v.ancestors(p) =~= done + (seq![p] + v.ancestors(p)));
                    }
                    cursor = p;
                    next = self.parent_of(p);
                },
            }
        }
        proof {
            ancestors_unfold(v, cursor);
            assert(out@ + v.ancestors(cursor) =~= out@);
        }
        out
    }

    /// Is one instance at or above another?
    pub fn is_ancestor_of(&self, maybe_ancestor: usize, id: usize) -> (r: bool)
        requires
            self.ok(),
        ensures
            r == self@.at_or_above(maybe_ancestor, id),
    {
        let ghost v = self@;
        let mut current: usize = id;
        proof {
            depth_holds(v);
        }
        while current != maybe_ancestor
            invariant
                self.ok(),
                v == self@,
                v.is_depth(v.depth()),
                v.at_or_above(maybe_ancestor, id) == v.at_or_above(maybe_ancestor, current),
            decreases (v.depth())(current),
        {
            proof {
                at_or_above_parent(v, maybe_ancestor, current);
                if v.parent(current) is Some {
                    assert(v.alive(current));
                }
            }
            match self.parent_of(current) {
                None => return false,
                Some(p) => {
                    current = p;
                },
            }
        }
        true
    }

    /// Take an instance out of its parent's children.
    fn unparent(&mut self, id: usize)
        requires
            old(self).ok(),
        ensures
            final(self).ok(),
            final(self)@ == old(self)@.unparented(id),
    {
        let ghost v = self@;
        let p: usize = match self.parent_of(id) {
            Some(p) => p,
            None => return,
        };
        proof {
            assert(v.alive(id));
            assert(v.alive(p));
            depth_holds(v);
            assert((v.depth())(p) < (v.depth())(id));
        }
        if let Some(n) = &mut self.slots[p] {
            n.children = others(&n.children, id);
        }
        if let Some(n) = &mut self.slots[id] {
            n.parent = None;
        }
        proof {
            unparented_keeps(v, id);
            assert(self@.slots =~= v.unparented(id).slots);
        }
    }

    /// Move an instance to the end of another's children, or to nowhere.
    ///
    /// An instance that is gone cannot be moved, nothing can be moved under one that is gone, and
    /// nothing can be moved under itself.
    pub fn set_parent(&mut self, id: usize, parent: Option<usize>) -> (r: Result<(), Fault>)
        requires
            old(self).ok(),
        ensures
            final(self).ok(),
            match r {
                Ok(_) => parent_refusal(old(self)@, id, parent) is None && final(self)@
                    == old(self)@.reparented(id, parent),
                Err(f) => parent_refusal(old(self)@, id, parent) == Some(f@) && final(self)@
                    == old(self)@,
            },
    {
        if !self.is_alive(id) {
            return Err(dead_instance());
        }
        if let Some(p) = parent {
            if !self.is_alive(p) {
                return Err(refuse("the new Parent has been destroyed"));
            }
            if self.is_ancestor_of(id, p) {
                return Err(refuse("that would make an instance its own ancestor"));
            }
        }
        let ghost v = self@;
        self.unparent(id);
        let ghost u = self@;
        proof {
            unparented_keeps(v, id);
        }
        if let Some(p) = parent {
            proof {
                unparented_above(v, id, p);
                at_or_above_parent(v, id, id);
                parented_keeps(u, id, p);
                assert(u.alive(p) == v.alive(p));
                assert(u.alive(id) == v.alive(id));
            }
            if let Some(n) = &mut self.slots[p] {
                n.children.push(id);
            }
            if let Some(n) = &mut self.slots[id] {
                n.parent = Some(p);
            }
            assert(self@.slots =~= u.parented(id, p).slots);
        }
        self.touch();
        Ok(())
    }

    /// Free an instance and everything under it, and take it out of its parent's children. Their
    /// connections go with them.
    pub fn destroy(&mut self, id: usize)
        requires
            old(self).ok(),
        ensures
            final(self).ok(),
            final(self)@ == (if old(self)@.alive(id) {
                old(self)@.destroyed(id)
            } else {
                old(self)@
            }),
    {
        if !self.is_alive(id) {
            return;
        }
        let ghost v = self@;
        let gone = self.subtree(id);
        self.unparent(id);
        let ghost u = self@;
        proof {
            unparented_keeps(v, id);
            destroyed_keeps(v, id);
            subtree_distinct(v, id);
            assert forall|k: int| 0 <= k < gone@.len() implies v.alive(#[trigger] gone@[k]) by {
                assert(gone@.contains(gone@[k]));
                subtree_members(v, id, gone@[k]);
            }
            assert(gone@.take(0) =~= Seq::empty());
            assert(u.released =~= v.released.union(gone@.take(0).to_set()));
        }
        let slot_count: usize = self.slots.len();
        let handler_count: usize = self.handlers.len();
        let mut k: usize = 0;
        while k < gone.len()
            invariant
                k <= gone.len(),
                slot_count == u.slots.len(),
                handler_count == u.handlers.len(),
                u.sound(),
                gone@.no_duplicates(),
                forall|x: usize| #[trigger] u.alive(x) == v.alive(x),
                u.handlers == v.handlers,
                forall|j: int| 0 <= j < gone@.len() ==> v.alive(#[trigger] gone@[j]),
                self.kept(),
                self@.slots.len() == u.slots.len(),
                self@.handlers.len() == u.handlers.len(),
                forall|i: int|
                    0 <= i < u.slots.len() ==> #[trigger] self@.slots[i] == (if gone@.take(
                        k as int,
                    ).contains(i as usize) {
                        None
                    } else {
                        u.slots[i]
                    }),
                forall|c: int|
                    0 <= c < u.handlers.len() ==> #[trigger] self@.handlers[c] == cut(
                        u.handlers[c],
                        gone@.take(k as int),
                    ),
                self@.released == v.released.union(gone@.take(k as int).to_set()),
                self@.tags == v.tags,
                self@.service == v.service,
            decreases gone.len() - k,
        {
            let current: usize = gone[k];
            let ghost done = gone@.take(k as int);
            let ghost next = gone@.take(k + 1);
            let ghost here = self@;
            proof {
                assert(next =~= done.push(current));
                assert(v.alive(gone@[k as int]));
                assert(!done.contains(current)) by {
                    if done.contains(current) {
                        let j = choose|j: int| 0 <= j < done.len() && done[j] == current;
                        assert(gone@[j] == gone@[k as int]);
                    }
                }
                assert(u.alive(current) == v.alive(current));
                assert(here.slots[current as int] == u.slots[current as int]);
                assert forall|x: usize| next.contains(x) <==> done.contains(x) || x == current by {
                    if done.contains(x) {
                        let j = choose|j: int| 0 <= j < done.len() && done[j] == x;
                        assert(next[j] == x);
                    }
                    assert(next[k as int] == current);
                    if next.contains(x) {
                        let j = choose|j: int| 0 <= j < next.len() && next[j] == x;
                        if j < k {
                            assert(done[j] == x);
                        }
                    }
                }
            }
            let conns: Vec<usize> = match &self.slots[current] {
                Some(n) => n.connections.clone(),
                None => Vec::new(),
            };
            assert(conns@ == u.node(current).connections);
            self.slots[current] = None;
            self.cut_all(&conns);
            let ghost freed = self.released@;
            self.released.push(current);
            proof {
                assert(self@.slots =~= here.slots.update(current as int, None));
                assert forall|i: int| 0 <= i < u.slots.len() implies #[trigger] self@.slots[i] == (
                if next.contains(i as usize) {
                    None
                } else {
                    u.slots[i]
                }) by {
                    assert(here.slots[i] == (if done.contains(i as usize) {
                        None
                    } else {
                        u.slots[i]
                    }));
                    assert(next.contains(i as usize) <==> done.contains(i as usize) || i as usize
                        == current);
                }
                assert forall|c: int| 0 <= c < u.handlers.len() implies #[trigger] self@.handlers[c]
                    == cut(u.handlers[c], next) by {
                    assert(here.handlers[c] == cut(u.handlers[c], done));
                    if u.handlers[c] is Some {
                        let h = u.handlers[c]->0;
                        assert(u.handlers[c as usize as int] is Some);
                        assert(u.alive(h.instance) && u.node(h.instance).connections.contains(
                            c as usize,
                        ));
                        assert(next.contains(h.instance) <==> done.contains(h.instance)
                            || h.instance == current);
                        if conns@.contains(c as usize) {
                            let m = choose|m: int| 0 <= m < conns@.len() && conns@[m] == c as usize;
                            assert(u.node(current).connections[m] == c as usize);
                        }
                    }
                }
                let was = here.released;
                assert(self.released@.to_set() =~= was.insert(current)) by {
                    let list = self.released@;
                    assert forall|x: usize| list.contains(x) <==> freed.contains(x) || x == current by {
                        if freed.contains(x) {
                            let j = choose|j: int| 0 <= j < freed.len() && freed[j] == x;
                            assert(list[j] == x);
                        }
                        assert(list[freed.len() as int] == current);
                        if list.contains(x) {
                            let j = choose|j: int| 0 <= j < list.len() && list[j] == x;
                            if j < freed.len() {
                                assert(freed[j] == x);
                            }
                        }
                    }
                    assert(was == freed.to_set());
                }
                assert(v.released.union(next.to_set()) =~= was.insert(current)) by {
                    assert forall|x: usize| next.to_set().contains(x) <==> done.to_set().contains(x)
                        || x == current by {
                        assert(next.contains(x) <==> done.contains(x) || x == current);
                    }
                }
            }
            k += 1;
        }
        self.dirty = true;
        proof {
            assert(gone@.take(k as int) =~= gone@);
            let w = v.destroyed(id);
            assert(self@.slots =~= w.slots) by {
                assert forall|i: int| 0 <= i < u.slots.len() implies #[trigger] self@.slots[i]
                    == w.slots[i] by {}
            }
            assert(self@.handlers =~= w.handlers) by {
                assert forall|c: int| 0 <= c < u.handlers.len() implies #[trigger] self@.handlers[c]
                    == w.handlers[c] by {
                    assert(self@.handlers[c] == cut(u.handlers[c], gone@));
                }
            }
            assert(self@ == w);
        }
    }

    /// Give up the listed connections, of an instance that is gone.
    fn cut_all(&mut self, conns: &Vec<usize>)
        ensures
            final(self).slots == old(self).slots,
            final(self).dirty == old(self).dirty,
            final(self).released == old(self).released,
            final(self).tags == old(self).tags,
            final(self).service == old(self).service,
            final(self)@.handlers.len() == old(self)@.handlers.len(),
            forall|c: int|
                0 <= c < old(self)@.handlers.len() ==> #[trigger] final(self)@.handlers[c] == (
                if conns@.contains(c as usize) {
                    None
                } else {
                    old(self)@.handlers[c]
                }),
    {
        let ghost was = *self;
        let count: usize = self.handlers.len();
        let mut i: usize = 0;
        while i < conns.len()
            invariant
                i <= conns.len(),
                count == was@.handlers.len(),
                self.slots == was.slots,
                self.dirty == was.dirty,
                self.released == was.released,
                self.tags == was.tags,
                self.service == was.service,
                self@.handlers.len() == was@.handlers.len(),
                forall|c: int|
                    0 <= c < was@.handlers.len() ==> #[trigger] self@.handlers[c] == (
                    if exists|j: int| 0 <= j < i && #[trigger] conns@[j] == c {
                        None
                    } else {
                        was@.handlers[c]
                    }),
            decreases conns.len() - i,
        {
            let conn: usize = conns[i];
            let ghost here = self@.handlers;
            if conn < self.handlers.len() {
                self.handlers[conn] = None;
                assert(self@.handlers =~= here.update(conn as int, None));
            }
            proof {
                assert forall|c: int| 0 <= c < was@.handlers.len() implies #[trigger] self@.handlers[c]
                    == (if exists|j: int| 0 <= j < i + 1 && #[trigger] conns@[j] == c {
                    None
                } else {
                    was@.handlers[c]
                }) by {
                    assert(here[c] == (if exists|j: int| 0 <= j < i && #[trigger] conns@[j] == c {
                        None
                    } else {
                        was@.handlers[c]
                    }));
                    if c == conn {
                        assert(conns@[i as int] == c);
                    } else if exists|j: int| 0 <= j < i + 1 && #[trigger] conns@[j] == c {
                        let j = choose|j: int| 0 <= j < i + 1 && #[trigger] conns@[j] == c;
                        assert(j < i);
                    }
                }
            }
            i += 1;
        }
        proof {
            assert forall|c: int| 0 <= c < was@.handlers.len() implies #[trigger] self@.handlers[c]
                == (if conns@.contains(c as usize) {
                None
            } else {
                was@.handlers[c]
            }) by {
                if conns@.contains(c as usize) {
                    let j = choose|j: int| 0 <= j < conns@.len() && conns@[j] == c as usize;
                    assert(conns@[j] == c);
                }
            }
        }
    }
}

/// A handler, unless its instance is among the gone.
spec fn cut(h: Option<HandlerView>, gone: Seq<usize>) -> Option<HandlerView> {
    match h {
        Some(h) => if gone.contains(h.instance) {
            None
        } else {
            Some(h)
        },
        None => None,
    }
}

/// Why an instance cannot get this parent.
pub open spec fn parent_refusal(v: DomView, id: usize, parent: Option<usize>) -> Option<Seq<char>> {
    if !v.alive(id) {
        Some(dead_message())
    } else {
        match parent {
            None => None,
            Some(p) => if !v.alive(p) {
                Some("the new Parent has been destroyed"@)
            } else if v.at_or_above(id, p) {
                Some("that would make an instance its own ancestor"@)
            } else {
                None
            },
        }
    }
}

impl DomView {
    /// An instance moved to the end of another's children, or to nowhere.
    pub open spec fn reparented(self, id: usize, parent: Option<usize>) -> DomView {
        let loose = self.unparented(id);
        match parent {
            None => loose,
            Some(p) => loose.parented(id, p),
        }.touched()
    }
}

impl DomView {
    /// A property with another value.
    pub open spec fn assigned(self, id: usize, key: Seq<char>, value: ValueView) -> DomView {
        self.put(
            id,
            NodeView { props: self.node(id).props.insert(key, value), ..self.node(id) },
        )
    }
}

} // verus!
