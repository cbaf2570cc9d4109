//! Tags on instances, and the service that tells of them.

use crate::agenda::{with_dom, Agenda, Arg, ArgView, Step, StepView};
use crate::connection::Signal;
use crate::dom::Dom;
use crate::fault::{dead_instance, dead_message, Fault};
use crate::signal::{Kind, KindView};
use crate::text::{ascending, glue, same, views};
use crate::tree::{strictly_ascending, DomView};
use crate::world::World;
use vstd::prelude::*;

verus! {

/// The services that can be asked for.
#[derive(Clone, Copy, Debug, PartialEq, Eq, Structural)]
pub enum Service {
    CollectionService,
}

/// What is said of a service that there is none of.
pub open spec fn no_service_message(name: Seq<char>) -> Seq<char> {
    name + " is not a service this host provides yet"@
}

/// A service by its name.
pub fn get_service(name: &str) -> (r: Result<Service, Fault>)
    ensures
        match r {
            Ok(s) => name@ == "CollectionService"@ && s == Service::CollectionService,
            Err(f) => name@ != "CollectionService"@ && f@ == no_service_message(name@),
        },
{
    if same(name, "CollectionService") {
        Ok(Service::CollectionService)
    } else {
        Err(Fault { message: glue(name.to_owned(), " is not a service this host provides yet") })
    }
}

/// The instances with the one that stands for the tag service, and its number.
pub open spec fn with_service(v: DomView) -> (DomView, usize) {
    match v.service {
        Some(id) => (v, id),
        None => {
            let id = v.slots.len() as usize;
            (
                DomView {
                    service: Some(id),
                    ..v.inserted("CollectionService"@, "CollectionService"@)
                },
                id,
            )
        },
    }
}

/// What comes of tagging an instance that is there: nothing, where it has the tag already.
pub open spec fn tagged(v: DomView, id: usize, tag: Seq<char>) -> (DomView, Seq<StepView>) {
    if v.tags.contains((tag, id)) {
        (v, Seq::empty())
    } else {
        let (after, service) = with_service(
            (DomView { tags: v.tags.insert((tag, id)), ..v }).touched(),
        );
        (
            after,
            seq![
                StepView::Fire {
                    to: service,
                    kind: KindView::TagAdded(tag),
                    arg: ArgView::Instance(id),
                },
            ],
        )
    }
}

/// What comes of taking a tag off an instance that is there: nothing, where it has none such.
pub open spec fn stripped(v: DomView, id: usize, tag: Seq<char>) -> (DomView, Seq<StepView>) {
    if !v.tags.contains((tag, id)) {
        (v, Seq::empty())
    } else {
        (
            (DomView { tags: v.tags.remove((tag, id)), ..v }).touched(),
            match v.service {
                Some(service) => seq![
                    StepView::Fire {
                        to: service,
                        kind: KindView::TagRemoved(tag),
                        arg: ArgView::Instance(id),
                    },
                ],
                None => Seq::empty(),
            },
        )
    }
}

/// Put a tag on an instance, and tell who listens if it is new there.
pub fn add_tag(world: &mut World, id: usize, tag: &str) -> (r: Result<Agenda, Fault>)
    requires
        old(world).ok(),
    ensures
        final(world).ok(),
        match r {
            Ok(a) => old(world)@.dom.alive(id) && final(world)@ == with_dom(
                old(world)@,
                tagged(old(world)@.dom, id, tag@).0,
            ) && a@ == tagged(old(world)@.dom, id, tag@).1,
            Err(f) => !old(world)@.dom.alive(id) && f@ == dead_message() && final(world)@ == old(
                world,
            )@,
        },
{
    if !world.dom.is_alive(id) {
        return Err(dead_instance());
    }
    if world.dom.add_tag(id, tag) {
        let service = world.dom.collection_service_id();
        Ok(
            Agenda::of(
                Step::Fire {
                    to: service,
                    kind: Kind::TagAdded(tag.to_owned()),
                    arg: Arg::Instance(id),
                },
            ),
        )
    } else {
        Ok(Agenda::new())
    }
}

/// Take a tag off an instance, and tell who listens if it was there.
pub fn remove_tag(world: &mut World, id: usize, tag: &str) -> (r: Result<Agenda, Fault>)
    requires
        old(world).ok(),
    ensures
        final(world).ok(),
        match r {
            Ok(a) => old(world)@.dom.alive(id) && final(world)@ == with_dom(
                old(world)@,
                stripped(old(world)@.dom, id, tag@).0,
            ) && a@ == stripped(old(world)@.dom, id, tag@).1,
            Err(f) => !old(world)@.dom.alive(id) && f@ == dead_message() && final(world)@ == old(
                world,
            )@,
        },
{
    if !world.dom.is_alive(id) {
        return Err(dead_instance());
    }
    if world.dom.remove_tag(id, tag) {
        match world.dom.service() {
            Some(service) => Ok(
                Agenda::of(
                    Step::Fire {
                        to: service,
                        kind: Kind::TagRemoved(tag.to_owned()),
                        arg: Arg::Instance(id),
                    },
                ),
            ),
            None => Ok(Agenda::new()),
        }
    } else {
        Ok(Agenda::new())
    }
}

/// Is a tag on an instance?
pub fn has_tag(dom: &Dom, id: usize, tag: &str) -> (r: Result<bool, Fault>)
    requires
        dom.ok(),
    ensures
        match r {
            Ok(b) => dom@.alive(id) && b == dom@.tags.contains((tag@, id)),
            Err(f) => !dom@.alive(id) && f@ == dead_message(),
        },
{
    if dom.is_alive(id) {
        Ok(dom.has_tag(id, tag))
    } else {
        Err(dead_instance())
    }
}

/// Every instance that holds a tag, in ascending order; none, for a tag that nothing holds.
pub fn get_tagged(dom: &Dom, tag: &str) -> (r: Vec<usize>)
    ensures
        strictly_ascending(r@),
        forall|id: usize| r@.contains(id) <==> dom@.tags.contains((tag@, id)),
{
    dom.get_tagged(tag)
}

/// Every tag on an instance, in ascending order.
pub fn get_tags(dom: &Dom, id: usize) -> (r: Result<Vec<String>, Fault>)
    requires
        dom.ok(),
    ensures
        match r {
            Ok(tags) => dom@.alive(id) && ascending(views(tags@)) && forall|tag: Seq<char>|
                views(tags@).contains(tag) <==> dom@.tags.contains((tag, id)),
            Err(f) => !dom@.alive(id) && f@ == dead_message(),
        },
{
    if dom.is_alive(id) {
        Ok(dom.get_tags(id))
    } else {
        Err(dead_instance())
    }
}

/// The event that an instance got a tag.
pub fn instance_added_signal(dom: &mut Dom, tag: &str) -> (r: Signal)
    requires
        old(dom).ok(),
    ensures
        final(dom).ok(),
        final(dom)@ == with_service(old(dom)@).0,
        r.id == with_service(old(dom)@).1,
        r.kind@ == KindView::TagAdded(tag@),
{
    let id = dom.collection_service_id();
    Signal { id, kind: Kind::TagAdded(tag.to_owned()) }
}

/// The event that an instance lost a tag.
pub fn instance_removed_signal(dom: &mut Dom, tag: &str) -> (r: Signal)
    requires
        old(dom).ok(),
    ensures
        final(dom).ok(),
        final(dom)@ == with_service(old(dom)@).0,
        r.id == with_service(old(dom)@).1,
        r.kind@ == KindView::TagRemoved(tag@),
{
    let id = dom.collection_service_id();
    Signal { id, kind: Kind::TagRemoved(tag.to_owned()) }
}

// ---- laws ----

/// Tagging twice is tagging once: the second time changes nothing and tells nobody.
pub proof fn tagging_twice_is_tagging_once(v: DomView, id: usize, tag: Seq<char>)
    ensures
        ({
            let once = tagged(v, id, tag).0;
            &&& once.tags.contains((tag, id))
            &&& tagged(once, id, tag) == (once, Seq::<StepView>::empty())
        }),
{
}

/// A tag that was taken off is not there, and taking it off again changes nothing and tells
/// nobody.
pub proof fn a_stripped_tag_is_gone(v: DomView, id: usize, tag: Seq<char>)
    ensures
        ({
            let once = stripped(v, id, tag).0;
            &&& !once.tags.contains((tag, id))
            &&& stripped(once, id, tag) == (once, Seq::<StepView>::empty())
        }),
{
}

/// A tag on one instance says nothing of any other tag or instance.
pub proof fn tags_are_independent(
    v: DomView,
    id: usize,
    tag: Seq<char>,
    other: usize,
    word: Seq<char>,
)
    requires
        (word, other) != (tag, id),
    ensures
        tagged(v, id, tag).0.tags.contains((word, other)) == v.tags.contains((word, other)),
        stripped(v, id, tag).0.tags.contains((word, other)) == v.tags.contains((word, other)),
{
}

/// The service is made once: under its own name and class where there is none, and then it is what
/// is found.
pub proof fn the_service_is_made_once(v: DomView)
    requires
        v.slots.len() < usize::MAX,
    ensures
        with_service(v).0.service == Some(with_service(v).1),
        with_service(with_service(v).0) == with_service(v),
        v.service is Some ==> with_service(v).0 == v,
        v.service is None ==> {
            let (made, id) = with_service(v);
            &&& made.alive(id)
            &&& !v.alive(id)
            &&& made.node(id).class == "CollectionService"@
            &&& made.node(id).name == "CollectionService"@
        },
{
}

} // verus!
