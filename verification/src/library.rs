//! Launching, removing and switching installed applets while the host runs.

use crate::installed::{not_installed_message, Entry as Applet, EntryView};
use crate::text::{glue, same, views};
use vstd::prelude::*;

verus! {

/// What a guest has asked the host to load and to unload since it was last asked: directories,
/// and ids.
#[derive(Debug)]
pub struct Library {
    pub load: Vec<String>,
    pub unload: Vec<String>,
}

pub struct LibraryView {
    pub load: Seq<Seq<char>>,
    pub unload: Seq<Seq<char>>,
}

impl View for Library {
    type V = LibraryView;

    open spec fn view(&self) -> LibraryView {
        LibraryView { load: views(self.load@), unload: views(self.unload@) }
    }
}

/// The directory of the first applet of an id.
pub open spec fn home_of(applets: Seq<Applet>, id: Seq<char>, from: nat) -> Option<Seq<char>>
    decreases applets.len() - from,
{
    if from >= applets.len() {
        None
    } else if applets[from as int].id@ == id {
        Some(applets[from as int].dir@)
    } else {
        home_of(applets, id, from + 1)
    }
}

fn find_home(applets: &Vec<Applet>, id: &str) -> (r: Result<String, String>)
    ensures
        match r {
            Ok(dir) => home_of(applets@, id@, 0) == Some(dir@),
            Err(e) => home_of(applets@, id@, 0) is None && e@ == not_installed_message(id@),
        },
{
    let mut i: usize = 0;
    while i < applets.len()
        invariant
            i <= applets.len(),
            home_of(applets@, id@, 0) == home_of(applets@, id@, i as nat),
        decreases applets.len() - i,
    {
        if same(applets[i].id.as_str(), id) {
            return Ok(applets[i].dir.clone());
        }
        i += 1;
    }
    Err(glue(glue("no applet installed with id '".to_owned(), id), "'"))
}

/// What comes of asking to load an applet.
pub open spec fn queued(v: LibraryView, applets: Seq<Applet>, id: Seq<char>) -> Result<
    LibraryView,
    Seq<char>,
> {
    match home_of(applets, id, 0) {
        Some(dir) => Ok(LibraryView { load: v.load.push(dir), ..v }),
        None => Err(not_installed_message(id)),
    }
}

/// What comes of launching an applet: nothing, where it runs.
pub open spec fn launched(
    v: LibraryView,
    running: Result<bool, String>,
    applets: Seq<Applet>,
    id: Seq<char>,
) -> Result<LibraryView, Seq<char>> {
    match running {
        Err(e) => Err(e@),
        Ok(true) => Ok(v),
        Ok(false) => queued(v, applets, id),
    }
}

/// What comes of switching an applet, once that is stored: one that is switched on and does not
/// run is loaded, and one that is switched off and runs is unloaded.
pub open spec fn switched(
    v: LibraryView,
    running: Result<bool, String>,
    stored: Result<(), String>,
    applets: Seq<Applet>,
    id: Seq<char>,
    enabled: bool,
) -> Result<LibraryView, Seq<char>> {
    match (running, stored) {
        (Err(e), _) => Err(e@),
        (_, Err(e)) => Err(e@),
        (Ok(runs), Ok(_)) => if enabled && !runs {
            queued(v, applets, id)
        } else if !enabled && runs {
            Ok(LibraryView { unload: v.unload.push(id), ..v })
        } else {
            Ok(v)
        },
    }
}

/// Is this the outcome? A refusal changes nothing.
pub open spec fn came(
    before: LibraryView,
    after: LibraryView,
    r: Result<(), String>,
    want: Result<LibraryView, Seq<char>>,
) -> bool {
    match r {
        Ok(_) => want == Ok::<LibraryView, Seq<char>>(after),
        Err(e) => want == Err::<LibraryView, Seq<char>>(e@) && after == before,
    }
}

impl Library {
    pub fn new() -> (r: Library)
        ensures
            r@ == (LibraryView { load: Seq::empty(), unload: Seq::empty() }),
    {
        let r = Library { load: Vec::new(), unload: Vec::new() };
        assert(r@.load =~= Seq::empty());
        assert(r@.unload =~= Seq::empty());
        r
    }

    /// What to load, each asked for once.
    pub fn take_load_requests(&mut self) -> (r: Vec<String>)
        ensures
            views(r@) == old(self)@.load,
            final(self)@ == (LibraryView { load: Seq::empty(), ..old(self)@ }),
    {
        let mut r: Vec<String> = Vec::new();
        std::mem::swap(&mut r, &mut self.load);
        assert(views(self.load@) =~= Seq::empty());
        r
    }

    /// What to unload, each asked for once.
    pub fn take_unload_requests(&mut self) -> (r: Vec<String>)
        ensures
            views(r@) == old(self)@.unload,
            final(self)@ == (LibraryView { unload: Seq::empty(), ..old(self)@ }),
    {
        let mut r: Vec<String> = Vec::new();
        std::mem::swap(&mut r, &mut self.unload);
        assert(views(self.unload@) =~= Seq::empty());
        r
    }

    fn queue(&mut self, applets: &Vec<Applet>, id: &str) -> (r: Result<(), String>)
        ensures
            came(old(self)@, final(self)@, r, queued(old(self)@, applets@, id@)),
    {
        let ghost before = self@.load;
        match find_home(applets, id) {
            Err(e) => Err(e),
            Ok(dir) => {
                let ghost d = dir@;
                self.load.push(dir);
                assert(views(self.load@) =~= before.push(d));
                Ok(())
            },
        }
    }

    /// Launch an applet, unless it runs. `running` is what came of asking whether it does.
    pub fn launch(&mut self, running: Result<bool, String>, applets: &Vec<Applet>, id: &str) -> (r:
        Result<(), String>)
        ensures
            came(old(self)@, final(self)@, r, launched(old(self)@, running, applets@, id@)),
    {
        match running {
            Err(e) => Err(e),
            Ok(runs) => if runs {
                Ok(())
            } else {
                self.queue(applets, id)
            },
        }
    }

    /// Switch an applet. `stored` is what came of storing that it is enabled or not.
    pub fn set_enabled(
        &mut self,
        running: Result<bool, String>,
        stored: Result<(), String>,
        applets: &Vec<Applet>,
        id: &str,
        enabled: bool,
    ) -> (r: Result<(), String>)
        ensures
            came(
                old(self)@,
                final(self)@,
                r,
                switched(old(self)@, running, stored, applets@, id@, enabled),
            ),
    {
        let runs = match running {
            Err(e) => return Err(e),
            Ok(runs) => runs,
        };
        match stored {
            Err(e) => return Err(e),
            Ok(_) => {},
        }
        if enabled && !runs {
            return self.queue(applets, id);
        }
        if !enabled && runs {
            let ghost before = self@.unload;
            self.unload.push(id.to_owned());
            assert(views(self.unload@) =~= before.push(id@));
        }
        Ok(())
    }
}

pub open spec fn running_message(id: Seq<char>) -> Seq<char> {
    "'"@ + id + "' is currently running; exit it before uninstalling"@
}

/// May an applet be removed? Not while it runs.
pub fn uninstall(running: Result<bool, String>, id: &str) -> (r: Result<(), String>)
    ensures
        match running {
            Err(e) => r is Err && r->Err_0@ == e@,
            Ok(true) => r is Err && r->Err_0@ == running_message(id@),
            Ok(false) => r is Ok,
        },
{
    match running {
        Err(e) => Err(e),
        Ok(runs) => if runs {
            Err(
                glue(
                    glue("'".to_owned(), id),
                    "' is currently running; exit it before uninstalling",
                ),
            )
        } else {
            Ok(())
        },
    }
}

// ---- rows ----

/// What a manifest says of an applet.
#[derive(Debug)]
pub struct Label {
    pub name: String,
    pub description: String,
}

/// One row of the list that a guest gets.
#[derive(Debug)]
pub struct Entry {
    pub id: String,
    pub name: String,
    pub description: String,
    pub enabled: bool,
}

/// Is this the row of an applet? Where its manifest cannot be read, its id stands for its name.
pub open spec fn tells_of(row: Entry, applet: EntryView, label: Option<Label>) -> bool {
    &&& row.id@ == applet.id
    &&& row.enabled == applet.enabled
    &&& match label {
        Some(l) => row.name@ == l.name@ && row.description@ == l.description@,
        None => row.name@ == applet.id && row.description@ == ""@,
    }
}

fn row(applet: &Applet, label: &Option<Label>) -> (r: Entry)
    ensures
        tells_of(r, applet@, *label),
{
    match label {
        Some(l) => Entry {
            id: applet.id.clone(),
            name: l.name.clone(),
            description: l.description.clone(),
            enabled: applet.enabled,
        },
        None => Entry {
            id: applet.id.clone(),
            name: applet.id.clone(),
            description: "".to_owned(),
            enabled: applet.enabled,
        },
    }
}

/// Every installed applet with what its manifest says, in the same order. No row is dropped for
/// a manifest that cannot be read.
pub fn list(applets: &Vec<Applet>, labels: &Vec<Option<Label>>) -> (r: Vec<Entry>)
    requires
        applets@.len() == labels@.len(),
    ensures
        r@.len() == applets@.len(),
        forall|i: int|
            0 <= i < r@.len() ==> tells_of(#[trigger] r@[i], applets@[i]@, labels@[i]),
{
    let mut r: Vec<Entry> = Vec::new();
    let mut i: usize = 0;
    while i < applets.len()
        invariant
            i <= applets.len(),
            applets@.len() == labels@.len(),
            r@.len() == i,
            forall|j: int|
                0 <= j < i ==> tells_of(#[trigger] r@[j], applets@[j]@, labels@[j]),
        decreases applets.len() - i,
    {
        r.push(row(&applets[i], &labels[i]));
        i += 1;
    }
    r
}

// ---- laws ----

/// Launching what runs, and switching to what already holds, asks for nothing.
pub proof fn what_already_holds_asks_for_nothing(
    v: LibraryView,
    applets: Seq<Applet>,
    id: Seq<char>,
    on: bool,
)
    ensures
        launched(v, Ok(true), applets, id) == Ok::<LibraryView, Seq<char>>(v),
        switched(v, Ok(on), Ok(()), applets, id, on) == Ok::<LibraryView, Seq<char>>(v),
{
}

} // verus!
