//! Which applets are installed, and which of those are enabled.
//!
//! What is installed is what lies in the directory of applets, one directory for each. Whether it
//! is enabled is kept beside, as a JSON object from ids to booleans.

use crate::extensions::{quoted, quoted_form};
use crate::flags::{read_switches, switch, switch_map, switches_in, write_switches};
use crate::text::{before, find_char, glue, lex_irreflexive, lex_lt, lex_total, lex_transitive, same};
use vstd::prelude::*;
use vstd::string::*;

verus! {

broadcast use vstd::string::group_string_axioms;

/// Can an id stand for a directory of its own? It names no other directory, and none within one.
pub open spec fn names_a_directory(id: Seq<char>) -> bool {
    id.len() > 0 && id != "."@ && id != ".."@ && !id.contains('/') && !id.contains('\\')
        && !id.contains(':')
}

pub fn valid_id(id: &str) -> (r: bool)
    ensures
        r == names_a_directory(id@),
{
    id.unicode_len() > 0 && !same(id, ".") && !same(id, "..") && find_char(id, '/').is_none()
        && find_char(id, '\\').is_none() && find_char(id, ':').is_none()
}

// ---- copying ----

/// The directories that are left behind when an applet is copied.
pub open spec fn left_behind(name: Seq<char>) -> bool {
    name == "roblox_packages"@ || name == "luau_packages"@ || name == ".pesde"@
}

/// What becomes of something in the directory of an applet.
#[derive(Clone, Copy, Debug, PartialEq, Eq, Structural)]
pub enum CopyStep {
    /// Copy what is in it.
    Descend,
    /// Copy it.
    Copy,
    /// Leave it behind.
    Skip,
}

/// What becomes of something in the directory of an applet, by its name and by what it is. What
/// is neither a directory nor a file is not followed.
pub fn copy_step(name: &str, is_dir: bool, is_file: bool) -> (r: CopyStep)
    ensures
        r == (if is_dir {
            if left_behind(name@) {
                CopyStep::Skip
            } else {
                CopyStep::Descend
            }
        } else if is_file {
            CopyStep::Copy
        } else {
            CopyStep::Skip
        }),
{
    if is_dir {
        if same(name, "roblox_packages") || same(name, "luau_packages") || same(name, ".pesde") {
            CopyStep::Skip
        } else {
            CopyStep::Descend
        }
    } else if is_file {
        CopyStep::Copy
    } else {
        CopyStep::Skip
    }
}

// ---- what is enabled ----

/// What the text of the state file says of each id. Without a file, and where its text is no such
/// object, it says nothing.
pub open spec fn state_in(text: Option<Seq<char>>) -> Map<Seq<char>, bool> {
    match text {
        None => Map::empty(),
        Some(t) => match switches_in(t) {
            Some(m) => m,
            None => Map::empty(),
        },
    }
}

pub open spec fn text_of(text: Option<&str>) -> Option<Seq<char>> {
    match text {
        Some(t) => Some(t@),
        None => None,
    }
}

fn read_state(text: Option<&str>) -> (r: Vec<(String, bool)>)
    ensures
        switch_map(r@) == state_in(text_of(text)),
{
    match text {
        None => Vec::new(),
        Some(t) => match read_switches(t) {
            Some(rows) => rows,
            None => Vec::new(),
        },
    }
}

/// The text of the state file with one id said to be enabled or not.
pub fn with_enabled(text: Option<&str>, id: &str, enabled: bool) -> (r: Option<String>)
    ensures
        r matches Some(t) && switches_in(t@) == Some(
            state_in(text_of(text)).insert(id@, enabled),
        ),
{
    let mut rows = read_state(text);
    let ghost before = rows@;
    rows.push((id.to_owned(), enabled));
    assert(rows@.drop_last() =~= before);
    write_switches(&rows)
}

/// The text of the state file with one id forgotten.
pub fn without(text: Option<&str>, id: &str) -> (r: Option<String>)
    ensures
        r matches Some(t) && switches_in(t@) == Some(state_in(text_of(text)).remove(id@)),
{
    let rows = read_state(text);
    let mut left: Vec<(String, bool)> = Vec::new();
    let mut i: usize = 0;
    assert(rows@.take(0) =~= Seq::empty());
    assert(switch_map(left@) =~= switch_map(rows@.take(0)).remove(id@));
    while i < rows.len()
        invariant
            i <= rows.len(),
            switch_map(left@) == switch_map(rows@.take(i as int)).remove(id@),
        decreases rows.len() - i,
    {
        let ghost before = left@;
        assert(rows@.take(i + 1).drop_last() =~= rows@.take(i as int));
        if !same(rows[i].0.as_str(), id) {
            left.push((rows[i].0.clone(), rows[i].1));
            assert(left@.drop_last() =~= before);
        }
        assert(switch_map(left@) =~= switch_map(rows@.take(i + 1)).remove(id@));
        i += 1;
    }
    assert(rows@.take(i as int) =~= rows@);
    write_switches(&left)
}

// ---- what is installed ----

/// One applet that is installed.
#[derive(Debug)]
pub struct Entry {
    pub id: String,
    pub dir: String,
    pub enabled: bool,
}

pub struct EntryView {
    pub id: Seq<char>,
    pub dir: Seq<char>,
    pub enabled: bool,
}

impl View for Entry {
    type V = EntryView;

    open spec fn view(&self) -> EntryView {
        EntryView { id: self.id@, dir: self.dir@, enabled: self.enabled }
    }
}

pub open spec fn entry_views(s: Seq<Entry>) -> Seq<EntryView> {
    s.map_values(|e: Entry| e@)
}

/// A list with an entry put behind all that do not come after it.
pub open spec fn sorted_in(s: Seq<EntryView>, x: EntryView) -> Seq<EntryView>
    decreases s.len(),
{
    if s.len() == 0 {
        seq![x]
    } else if lex_lt(x.id, s.last().id) {
        sorted_in(s.drop_last(), x).push(s.last())
    } else {
        s.push(x)
    }
}

/// What is installed, by what the state file says of it: enabled, where it says nothing.
pub open spec fn entry_of(id: Seq<char>, dir: Seq<char>, state: Map<Seq<char>, bool>) -> EntryView {
    EntryView {
        id,
        dir,
        enabled: if state.contains_key(id) {
            state[id]
        } else {
            true
        },
    }
}

/// The applets in the first so many directories, in the order of their ids.
pub open spec fn listing(
    found: Seq<(String, String)>,
    count: nat,
    state: Map<Seq<char>, bool>,
) -> Seq<EntryView>
    decreases count,
{
    if count == 0 {
        Seq::empty()
    } else {
        sorted_in(
            listing(found, (count - 1) as nat, state),
            entry_of(found[count - 1].0@, found[count - 1].1@, state),
        )
    }
}

fn sort_in(list: &mut Vec<Entry>, entry: Entry)
    ensures
        entry_views(final(list)@) == sorted_in(entry_views(old(list)@), entry@),
{
    let ghost was = entry_views(list@);
    let ghost x = entry@;
    let mut at: usize = list.len();
    assert(was.skip(at as int) =~= Seq::empty());
    assert(was.take(at as int) =~= was);
    assert(sorted_in(was, x) =~= sorted_in(was.take(at as int), x) + was.skip(at as int));
    while at > 0 && before(entry.id.as_str(), list[at - 1].id.as_str())
        invariant
            at <= list.len(),
            was == entry_views(list@),
            x == entry@,
            sorted_in(was, x) == sorted_in(was.take(at as int), x) + was.skip(at as int),
        decreases at,
    {
        proof {
            let here = was.take(at as int);
            assert(here.last() == was[at - 1]);
            assert(was[at - 1] == list@[at - 1]@);
            assert(here.drop_last() =~= was.take(at - 1));
            assert(sorted_in(here, x) == sorted_in(here.drop_last(), x).push(here.last()));
            assert(sorted_in(was, x) =~= sorted_in(was.take(at - 1), x) + was.skip(at - 1));
        }
        at -= 1;
    }
    proof {
        let here = was.take(at as int);
        if at > 0 {
            assert(here.last() == was[at - 1]);
            assert(was[at - 1] == list@[at - 1]@);
        }
        assert(sorted_in(here, x) =~= here.push(x));
    }
    list.insert(at, entry);
    assert(entry_views(list@) =~= sorted_in(was, x));
}

/// Every installed applet, enabled or not, in the order of the ids: the names and the paths of
/// the directories that were found, with what the state file says.
pub fn list(found: &Vec<(String, String)>, state: Option<&str>) -> (r: Vec<Entry>)
    ensures
        entry_views(r@) == listing(found@, found@.len(), state_in(text_of(state))),
{
    let rows = read_state(state);
    let mut r: Vec<Entry> = Vec::new();
    let mut i: usize = 0;
    assert(entry_views(r@) =~= Seq::empty());
    while i < found.len()
        invariant
            i <= found.len(),
            switch_map(rows@) == state_in(text_of(state)),
            entry_views(r@) == listing(found@, i as nat, state_in(text_of(state))),
        decreases found.len() - i,
    {
        let enabled = match switch(&rows, found[i].0.as_str()) {
            Some(b) => b,
            None => true,
        };
        sort_in(&mut r, Entry { id: found[i].0.clone(), dir: found[i].1.clone(), enabled });
        i += 1;
    }
    r
}

/// Is an entry enabled?
pub open spec fn is_on() -> spec_fn(EntryView) -> bool {
    |e: EntryView| e.enabled
}

pub open spec fn places(s: Seq<(String, String)>) -> Seq<(Seq<char>, Seq<char>)> {
    s.map_values(|p: (String, String)| (p.0@, p.1@))
}

/// The ids and the directories of the applets that are enabled.
pub fn enabled(entries: &Vec<Entry>) -> (r: Vec<(String, String)>)
    ensures
        places(r@) == entry_views(entries@).filter(is_on()).map_values(
            |e: EntryView| (e.id, e.dir),
        ),
{
    let ghost all = entry_views(entries@);
    let mut r: Vec<(String, String)> = Vec::new();
    let mut i: usize = 0;
    proof {
        reveal(Seq::filter);
        assert(all.take(0) =~= Seq::empty());
        assert(places(r@) =~= all.take(0).filter(is_on()).map_values(
            |e: EntryView| (e.id, e.dir),
        ));
    }
    while i < entries.len()
        invariant
            i <= entries.len(),
            all == entry_views(entries@),
            places(r@) == all.take(i as int).filter(is_on()).map_values(
                |e: EntryView| (e.id, e.dir),
            ),
        decreases entries.len() - i,
    {
        let ghost before = places(r@);
        proof {
            reveal(Seq::filter);
            assert(all.take(i + 1).drop_last() =~= all.take(i as int));
            assert(all[i as int] == entries@[i as int]@);
        }
        if entries[i].enabled {
            r.push((entries[i].id.clone(), entries[i].dir.clone()));
            assert(places(r@) =~= before.push((all[i as int].id, all[i as int].dir)));
        }
        assert(places(r@) =~= all.take(i + 1).filter(is_on()).map_values(
            |e: EntryView| (e.id, e.dir),
        ));
        i += 1;
    }
    assert(all.take(i as int) =~= all);
    r
}

// ---- installing ----

/// How an applet comes into the store.
#[derive(Clone, Copy, Debug, PartialEq, Eq, Structural)]
pub enum Placing {
    /// Nothing is there.
    Fresh,
    /// What is there goes first.
    Replace,
}

pub open spec fn bad_id_message(source: Seq<char>, id: Seq<char>) -> Seq<char> {
    source + ": manifest id "@ + quoted_form(id) + " cannot be used as a directory name"@
}

pub open spec fn already_message(id: Seq<char>) -> Seq<char> {
    "'"@ + id + "' is already installed; run `dew uninstall "@ + id + "` first, or pass --force"@
}

pub open spec fn not_installed_message(id: Seq<char>) -> Seq<char> {
    "no applet installed with id '"@ + id + "'"@
}

fn not_installed(id: &str) -> (r: String)
    ensures
        r@ == not_installed_message(id@),
{
    glue(glue("no applet installed with id '".to_owned(), id), "'")
}

/// May an applet of this id be installed from a source? `has_store` tells whether there is a
/// directory to install into, and `there` whether one of the id is in it.
pub open spec fn placed(
    source: Seq<char>,
    id: Seq<char>,
    has_store: bool,
    there: bool,
    force: bool,
) -> Result<Placing, Seq<char>> {
    if !names_a_directory(id) {
        Err(bad_id_message(source, id))
    } else if !has_store {
        Err("could not find a per-user data directory to install into"@)
    } else if !there {
        Ok(Placing::Fresh)
    } else if force {
        Ok(Placing::Replace)
    } else {
        Err(already_message(id))
    }
}

pub fn install(source: &str, id: &str, has_store: bool, there: bool, force: bool) -> (r: Result<
    Placing,
    String,
>)
    ensures
        match r {
            Ok(p) => placed(source@, id@, has_store, there, force) == Ok::<Placing, Seq<char>>(p),
            Err(e) => placed(source@, id@, has_store, there, force) == Err::<Placing, Seq<char>>(
                e@,
            ),
        },
{
    if !valid_id(id) {
        return Err(
            glue(
                glue(glue(source.to_owned(), ": manifest id "), quoted(id).as_str()),
                " cannot be used as a directory name",
            ),
        );
    }
    if !has_store {
        return Err("could not find a per-user data directory to install into".to_owned());
    }
    if !there {
        Ok(Placing::Fresh)
    } else if force {
        Ok(Placing::Replace)
    } else {
        Err(
            glue(
                glue(
                    glue(
                        glue("'".to_owned(), id),
                        "' is already installed; run `dew uninstall ",
                    ),
                    id,
                ),
                "` first, or pass --force",
            ),
        )
    }
}

/// Say that an applet is enabled or not: the text of the state file after it.
pub fn set_enabled(id: &str, enabled: bool, has_store: bool, there: bool, state: Option<&str>) -> (r:
    Result<Option<String>, String>)
    ensures
        match r {
            Ok(text) => has_store && there && (text matches Some(t) && switches_in(t@) == Some(
                state_in(text_of(state)).insert(id@, enabled),
            )),
            Err(e) => if !has_store {
                e@ == "could not find a per-user data directory"@
            } else {
                !there && e@ == not_installed_message(id@)
            },
        },
{
    if !has_store {
        return Err("could not find a per-user data directory".to_owned());
    }
    if !there {
        return Err(not_installed(id));
    }
    Ok(with_enabled(state, id, enabled))
}

/// May an applet be taken out of the store?
pub fn uninstall(id: &str, has_store: bool, there: bool) -> (r: Result<(), String>)
    ensures
        match r {
            Ok(_) => has_store && there,
            Err(e) => if !has_store {
                e@ == "could not find a per-user data directory to uninstall from"@
            } else {
                !there && e@ == not_installed_message(id@)
            },
        },
{
    if !has_store {
        return Err("could not find a per-user data directory to uninstall from".to_owned());
    }
    if !there {
        return Err(not_installed(id));
    }
    Ok(())
}

// ---- laws ----

/// Each id of the list not after the next.
pub open spec fn in_order(s: Seq<EntryView>) -> bool {
    forall|i: int, j: int| 0 <= i < j < s.len() ==> !lex_lt(#[trigger] s[j].id, #[trigger] s[i].id)
}

proof fn not_after(a: Seq<char>, b: Seq<char>, c: Seq<char>)
    requires
        !lex_lt(b, a),
        !lex_lt(c, b),
    ensures
        !lex_lt(c, a),
{
    if lex_lt(c, a) {
        lex_total(a, b);
        lex_total(b, c);
        if a != b {
            lex_transitive(c, a, b);
        }
    }
}

proof fn sorted_in_keeps(s: Seq<EntryView>, x: EntryView)
    requires
        in_order(s),
    ensures
        in_order(sorted_in(s, x)),
        sorted_in(s, x).len() == s.len() + 1,
        sorted_in(s, x).to_multiset() == s.to_multiset().insert(x),
    decreases s.len(),
{
    broadcast use vstd::seq_lib::group_to_multiset_ensures;

    if s.len() == 0 {
        assert(seq![x] =~= s.push(x));
    } else if lex_lt(x.id, s.last().id) {
        let rest = s.drop_last();
        sorted_in_keeps(rest, x);
        let head = sorted_in(rest, x);
        assert(s =~= rest.push(s.last()));
        assert(head.push(s.last()).to_multiset() =~= s.to_multiset().insert(x));
        assert forall|i: int, j: int| 0 <= i < j < head.len() + 1 implies !lex_lt(
            #[trigger] head.push(s.last())[j].id,
            #[trigger] head.push(s.last())[i].id,
        ) by {
            if j == head.len() {
                assert(head.to_multiset().contains(head[i]));
                if head[i] != x {
                    assert(rest.to_multiset().contains(head[i]));
                    let k = choose|k: int| 0 <= k < rest.len() && rest[k] == head[i];
                    assert(s[k] == rest[k]);
                    assert(!lex_lt(s[s.len() - 1].id, s[k].id));
                } else {
                    if lex_lt(s.last().id, x.id) {
                        lex_transitive(x.id, s.last().id, x.id);
                        lex_irreflexive(x.id);
                    }
                }
            }
        }
    } else {
        assert forall|i: int, j: int| 0 <= i < j < s.len() + 1 implies !lex_lt(
            #[trigger] s.push(x)[j].id,
            #[trigger] s.push(x)[i].id,
        ) by {
            if j == s.len() && i < s.len() - 1 {
                assert(!lex_lt(s[s.len() - 1].id, s[i].id));
                not_after(s[i].id, s.last().id, x.id);
            }
        }
    }
}

/// An entry for every directory that was found, in the order in which they were found.
pub open spec fn entries_of(found: Seq<(String, String)>, state: Map<Seq<char>, bool>) -> Seq<
    EntryView,
> {
    found.map_values(|f: (String, String)| entry_of(f.0@, f.1@, state))
}

/// A listing is in the order of the ids and holds every directory that was found, once each.
pub proof fn a_listing_is_in_order(
    found: Seq<(String, String)>,
    count: nat,
    state: Map<Seq<char>, bool>,
)
    requires
        count <= found.len(),
    ensures
        in_order(listing(found, count, state)),
        listing(found, count, state).len() == count,
        listing(found, count, state).to_multiset() == entries_of(
            found.take(count as int),
            state,
        ).to_multiset(),
    decreases count,
{
    broadcast use vstd::seq_lib::group_to_multiset_ensures;

    let all = entries_of(found.take(count as int), state);
    if count == 0 {
        assert(all =~= listing(found, count, state));
    } else {
        let last = found[count - 1];
        assert(all =~= entries_of(found.take(count - 1), state).push(
            entry_of(last.0@, last.1@, state),
        ));
        a_listing_is_in_order(found, (count - 1) as nat, state);
        sorted_in_keeps(
            listing(found, (count - 1) as nat, state),
            entry_of(found[count - 1].0@, found[count - 1].1@, state),
        );
    }
}

/// What the state file says of one id is not changed by saying something of another.
pub proof fn ids_are_independent(
    state: Map<Seq<char>, bool>,
    id: Seq<char>,
    other: Seq<char>,
    dir: Seq<char>,
    on: bool,
)
    requires
        other != id,
    ensures
        entry_of(other, dir, state.insert(id, on)) == entry_of(other, dir, state),
        entry_of(other, dir, state.remove(id)) == entry_of(other, dir, state),
        entry_of(id, dir, state.insert(id, on)).enabled == on,
        entry_of(id, dir, state.remove(id)).enabled,
{
}

/// What is installed is on until it is switched off, and as it was last switched.
pub proof fn what_is_installed_is_on(id: Seq<char>, dir: Seq<char>, state: Map<Seq<char>, bool>)
    ensures
        entry_of(id, dir, state).id == id,
        entry_of(id, dir, state).dir == dir,
        entry_of(id, dir, state).enabled <==> !(state.contains_key(id) && !state[id]),
{
}

} // verus!
