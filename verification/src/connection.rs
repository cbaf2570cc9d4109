//! Events as a guest holds them, and the connections to them.

use crate::dom::Dom;
use crate::fault::{dead_instance, dead_message, Fault};
use crate::signal::{Kind, KindView};
use crate::text::glue;
use crate::tree::DomView;
use vstd::prelude::*;

verus! {

/// An event of an instance. It describes what can be connected to, and is stored nowhere.
#[derive(Debug)]
pub struct Signal {
    pub id: usize,
    pub kind: Kind,
}

/// What is said of waiting for an event.
pub open spec fn wait_message(kind: KindView) -> Seq<char> {
    kind.label()
        + ":Wait() yields, and this host has no task scheduler yet. Connect a handler instead. See docs/datamodel_scope.md."@
}

/// The instances and the number of the connection after a guest function was connected; nothing
/// is connected to one that is gone.
pub open spec fn connection(v: DomView, id: usize, kind: KindView, function: u64) -> Result<
    (DomView, nat),
    Seq<char>,
> {
    if v.alive(id) {
        Ok((v.connected(id, kind, function), v.handlers.len()))
    } else {
        Err(dead_message())
    }
}

impl Signal {
    /// How an event prints.
    pub fn text(&self) -> (r: String)
        ensures
            r@ == "Signal "@ + self.kind@.label(),
    {
        glue("Signal ".to_owned(), self.kind.label().as_str())
    }

    /// Is this the same event? Two descriptions of one event are.
    pub fn is_same(&self, other: &Signal, same_arena: bool) -> (r: bool)
        ensures
            r == (same_arena && self.id == other.id && self.kind@ == other.kind@),
    {
        same_arena && self.id == other.id && self.kind.matches(&other.kind)
    }

    /// Connect a guest function.
    pub fn connect(&self, dom: &mut Dom, function: u64) -> (r: Result<usize, Fault>)
        requires
            old(dom).ok(),
        ensures
            final(dom).ok(),
            match connection(old(dom)@, self.id, self.kind@, function) {
                Ok((v, conn)) => r is Ok && r->Ok_0 == conn && final(dom)@ == v,
                Err(m) => r is Err && r->Err_0@ == m && final(dom)@ == old(dom)@,
            },
    {
        match dom.connect(self.id, self.kind.dup(), function) {
            Some(conn) => Ok(conn),
            None => Err(dead_instance()),
        }
    }

    /// Nothing can wait for an event.
    pub fn wait(&self) -> (r: Fault)
        ensures
            r@ == wait_message(self.kind@),
    {
        Fault {
            message: glue(
                self.kind.label(),
                ":Wait() yields, and this host has no task scheduler yet. Connect a handler instead. See docs/datamodel_scope.md.",
            ),
        }
    }
}

// ---- laws ----

/// A connection is connected, and no later connection is taken for it.
pub proof fn a_connection_is_its_own(v: DomView, id: usize, kind: KindView, function: u64)
    requires
        v.alive(id),
        v.handlers.len() < usize::MAX,
    ensures
        v.connected(id, kind, function).handler(v.handlers.len() as usize) == Some(function),
        forall|conn: usize|
            conn < v.handlers.len() ==> #[trigger] v.connected(id, kind, function).handler(conn)
                == v.handler(conn),
{
}

} // verus!
