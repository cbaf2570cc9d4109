//! Feature flags: which are on for a run, and which a run ends up with.
//!
//! A flag is a name and the revision of the shape that it gates. Nothing here knows what a flag
//! stands for; the caller brings its own list of known ones.

use crate::text::{decimal, decimal_text, glue, listed, same, views};
use vstd::prelude::*;

verus! {

/// A flag name, with the revision of the shape it currently gates.
pub type Flag = (&'static str, u32);

pub open spec fn flag_view(f: Flag) -> (Seq<char>, u32) {
    (f.0@, f.1)
}

pub open spec fn flag_views(s: Seq<Flag>) -> Seq<(Seq<char>, u32)> {
    s.map_values(|f: Flag| flag_view(f))
}

/// Does a list of flags hold one of this name?
pub open spec fn names_flag(s: Seq<(Seq<char>, u32)>, name: Seq<char>) -> bool {
    exists|i: int| 0 <= i < s.len() && (#[trigger] s[i]).0 == name
}

/// The flags that are on for whatever runs with this set. Every flag is off in a new set.
#[derive(Debug)]
pub struct Enabled {
    names: Vec<String>,
}

impl View for Enabled {
    type V = Set<Seq<char>>;

    closed spec fn view(&self) -> Set<Seq<char>> {
        views(self.names@).to_set()
    }
}

impl Enabled {
    /// No flag on.
    pub fn new() -> (r: Enabled)
        ensures
            r@ == Set::<Seq<char>>::empty(),
    {
        let r = Enabled { names: Vec::new() };
        assert(r@ =~= Set::<Seq<char>>::empty());
        r
    }
}

/// Turn on exactly these flags, and turn every other one off.
pub fn set_enabled_flags(enabled: &mut Enabled, flags: &[Flag])
    ensures
        forall|name: Seq<char>| #[trigger]
            final(enabled)@.contains(name) <==> names_flag(flag_views(flags@), name),
{
    let mut names: Vec<String> = Vec::new();
    let mut i: usize = 0;
    while i < flags.len()
        invariant
            i <= flags.len(),
            names.len() == i,
            forall|j: int| 0 <= j < i ==> (#[trigger] names@[j])@ == flags@[j].0@,
        decreases flags.len() - i,
    {
        names.push(flags[i].0.to_owned());
        i += 1;
    }
    enabled.names = names;
    assert forall|name: Seq<char>| #[trigger]
        enabled@.contains(name) <==> names_flag(flag_views(flags@), name) by {
        if enabled@.contains(name) {
            let j = choose|j: int| 0 <= j < views(names@).len() && views(names@)[j] == name;
            assert(names@[j]@ == name);
            assert(flag_views(flags@)[j].0 == name);
        }
        if names_flag(flag_views(flags@), name) {
            let j = choose|j: int|
                0 <= j < flag_views(flags@).len() && (#[trigger] flag_views(flags@)[j]).0 == name;
            assert(views(names@)[j] == names@[j]@);
            assert(views(names@).contains(name));
        }
    }
}

/// Is this exact flag on?
pub fn is_enabled(enabled: &Enabled, flag: &str) -> (r: bool)
    ensures
        r == enabled@.contains(flag@),
{
    listed(&enabled.names, flag)
}

/// Which names a settings file turns on or off, as its text holds them: `None` where the text is
/// not a JSON object from strings to booleans.
pub uninterp spec fn switches_in(text: Seq<char>) -> Option<Map<Seq<char>, bool>>;

/// The map that a list of names with booleans stands for; of two entries for one name the later
/// one counts.
pub open spec fn switch_map(rows: Seq<(String, bool)>) -> Map<Seq<char>, bool>
    decreases rows.len(),
{
    if rows.len() == 0 {
        Map::empty()
    } else {
        switch_map(rows.drop_last()).insert(rows.last().0@, rows.last().1)
    }
}

/// `serde_json::from_str` into a map from strings to booleans. What it answers is named
/// [`switches_in`]; the rows are the entries of that map, in some order.
#[verifier::external_body]
pub(crate) fn read_switches(text: &str) -> (r: Option<Vec<(String, bool)>>)
    ensures
        match r {
            Some(rows) => switches_in(text@) == Some(switch_map(rows@)),
            None => switches_in(text@) is None,
        },
{
    let parsed: Result<std::collections::BTreeMap<String, bool>, _> = serde_json::from_str(text);
    parsed.ok().map(|m| m.into_iter().collect())
}

/// `serde_json::to_string_pretty` of a map from strings to booleans, which it documents to fail
/// only for values that refuse or for keys that are not strings. Reading the text back gives the
/// map that was written.
#[verifier::external_body]
pub(crate) fn write_switches(rows: &Vec<(String, bool)>) -> (r: Option<String>)
    ensures
        r is Some,
        switches_in(r->Some_0@) == Some(switch_map(rows@)),
{
    let map: std::collections::BTreeMap<String, bool> = rows.iter().cloned().collect();
    serde_json::to_string_pretty(&map).ok()
}

/// What the rows say of `name`: the last entry for it.
pub(crate) fn switch(rows: &Vec<(String, bool)>, name: &str) -> (r: Option<bool>)
    ensures
        match r {
            Some(b) => switch_map(rows@).contains_key(name@) && switch_map(rows@)[name@] == b,
            None => !switch_map(rows@).contains_key(name@),
        },
{
    let mut i: usize = rows.len();
    assert(rows@.take(i as int) =~= rows@);
    while i > 0
        invariant
            i <= rows.len(),
            switch_map(rows@).contains_key(name@) == switch_map(rows@.take(i as int)).contains_key(
                name@,
            ),
            switch_map(rows@).contains_key(name@) ==> switch_map(rows@)[name@] == switch_map(
                rows@.take(i as int),
            )[name@],
        decreases i,
    {
        let ghost here = rows@.take(i as int);
        assert(here.drop_last() =~= rows@.take(i - 1));
        i -= 1;
        assert(here.last() == rows@[i as int]);
        if same(rows[i].0.as_str(), name) {
            return Some(rows[i].1);
        }
    }
    None
}

/// The flags of a run: those it declares, and after them each known flag that the settings turn
/// on and that is not there yet, in the order in which the known ones are listed.
pub open spec fn effective(
    declared: Seq<(Seq<char>, u32)>,
    known: Seq<(Seq<char>, u32)>,
    settings: Map<Seq<char>, bool>,
) -> Seq<(Seq<char>, u32)>
    decreases known.len(),
{
    if known.len() == 0 {
        declared
    } else {
        let so_far = effective(declared, known.drop_last(), settings);
        let (name, revision) = known.last();
        if settings.contains_key(name) && settings[name] && !names_flag(so_far, name) {
            so_far.push((name, revision))
        } else {
            so_far
        }
    }
}

/// [`effective`], for settings that have been read.
pub fn union_flags(declared: &[Flag], known: &[Flag], settings: &Vec<(String, bool)>) -> (r: Vec<
    Flag,
>)
    ensures
        flag_views(r@) == effective(
            flag_views(declared@),
            flag_views(known@),
            switch_map(settings@),
        ),
{
    let mut r: Vec<Flag> = Vec::new();
    let mut i: usize = 0;
    while i < declared.len()
        invariant
            i <= declared.len(),
            r@ == declared@.take(i as int),
        decreases declared.len() - i,
    {
        r.push(declared[i]);
        i += 1;
        assert(r@ =~= declared@.take(i as int));
    }
    assert(r@ =~= declared@);
    let ghost d = flag_views(declared@);
    let ghost s = switch_map(settings@);
    let mut k: usize = 0;
    assert(flag_views(known@.take(0)) =~= Seq::empty());
    while k < known.len()
        invariant
            k <= known.len(),
            s == switch_map(settings@),
            flag_views(r@) == effective(d, flag_views(known@.take(k as int)), s),
        decreases known.len() - k,
    {
        let flag = known[k].0;
        let revision: u32 = known[k].1;
        let on = match switch(settings, flag) {
            Some(b) => b,
            None => false,
        };
        let mut present = false;
        let mut j: usize = 0;
        while j < r.len()
            invariant
                j <= r.len(),
                present == (exists|m: int| 0 <= m < j && (#[trigger] flag_views(r@)[m]).0 == flag@),
            decreases r.len() - j,
        {
            if same(r[j].0, flag) {
                assert(flag_views(r@)[j as int].0 == flag@);
                present = true;
            }
            j += 1;
        }
        assert(present == names_flag(flag_views(r@), flag@));
        let ghost before = flag_views(r@);
        proof {
            let t = flag_views(known@.take(k + 1));
            assert(t.drop_last() =~= flag_views(known@.take(k as int)));
            assert(t.last() == (flag@, revision));
        }
        if on && !present {
            r.push((flag, revision));
            assert(flag_views(r@) =~= before.push((flag@, revision)));
        }
        k += 1;
    }
    assert(known@.take(k as int) =~= known@);
    r
}

/// The flags of a run: [`effective`], with the settings read from the text of the local settings
/// file. No file, or one that does not parse, turns nothing on.
pub fn effective_flags(declared: &[Flag], known: &[Flag], settings: Option<&str>) -> (r: Vec<Flag>)
    ensures
        flag_views(r@) == effective(
            flag_views(declared@),
            flag_views(known@),
            match settings {
                Some(text) => match switches_in(text@) {
                    Some(m) => m,
                    None => Map::empty(),
                },
                None => Map::empty(),
            },
        ),
{
    let rows = match settings {
        Some(text) => match read_switches(text) {
            Some(rows) => rows,
            None => Vec::new(),
        },
        None => Vec::new(),
    };
    union_flags(declared, known, &rows)
}

/// Every declared flag is in the effective set, at its own place: the local settings add to what
/// a run declares and never take from it.
pub proof fn declared_flags_stay(
    declared: Seq<(Seq<char>, u32)>,
    known: Seq<(Seq<char>, u32)>,
    settings: Map<Seq<char>, bool>,
)
    ensures
        declared.len() <= effective(declared, known, settings).len(),
        effective(declared, known, settings).take(declared.len() as int) == declared,
    decreases known.len(),
{
    if known.len() > 0 {
        declared_flags_stay(declared, known.drop_last(), settings);
        let e = effective(declared, known.drop_last(), settings);
        assert(e.push(known.last()).take(declared.len() as int) =~= e.take(declared.len() as int));
    }
    assert(declared.take(declared.len() as int) =~= declared);
}

/// Whatever the effective set holds beyond the declared flags is known and turned on locally.
pub proof fn added_flags_are_known_and_on(
    declared: Seq<(Seq<char>, u32)>,
    known: Seq<(Seq<char>, u32)>,
    settings: Map<Seq<char>, bool>,
    i: int,
)
    requires
        declared.len() <= i < effective(declared, known, settings).len(),
    ensures
        ({
            let flag = effective(declared, known, settings)[i];
            known.contains(flag) && settings.contains_key(flag.0) && settings[flag.0]
        }),
    decreases known.len(),
{
    declared_flags_stay(declared, known, settings);
    if known.len() > 0 {
        let e = effective(declared, known.drop_last(), settings);
        if i < e.len() {
            added_flags_are_known_and_on(declared, known.drop_last(), settings, i);
            let flag = e[i];
            let j = choose|j: int| 0 <= j < known.drop_last().len() && known.drop_last()[j] == flag;
            assert(known[j] == flag);
        } else {
            assert(known[known.len() - 1] == known.last());
        }
    }
}

/// A known flag that is turned on locally is in the effective set.
pub proof fn known_and_on_is_effective(
    declared: Seq<(Seq<char>, u32)>,
    known: Seq<(Seq<char>, u32)>,
    settings: Map<Seq<char>, bool>,
    k: int,
)
    requires
        0 <= k < known.len(),
        settings.contains_key(known[k].0),
        settings[known[k].0],
    ensures
        names_flag(effective(declared, known, settings), known[k].0),
    decreases known.len(),
{
    let e = effective(declared, known.drop_last(), settings);
    let full = effective(declared, known, settings);
    let name = known[k].0;
    if k < known.len() - 1 {
        known_and_on_is_effective(declared, known.drop_last(), settings, k);
    }
    if names_flag(e, name) {
        let i = choose|i: int| 0 <= i < e.len() && (#[trigger] e[i]).0 == name;
        assert(full[i] == e[i]);
    } else {
        assert(full[e.len() as int].0 == name);
    }
}

/// What is said of a flag that is on.
pub open spec fn flag_line(f: (Seq<char>, u32)) -> Seq<char> {
    "[dew] experimental: "@ + f.0 + " (revision "@ + decimal(f.1 as nat) + ")"@
}

/// What is said of the flags that are on, a line for each; nothing, where there are none.
pub fn effective_lines(flags: &[Flag]) -> (r: Vec<String>)
    ensures
        views(r@) == flag_views(flags@).map_values(|f: (Seq<char>, u32)| flag_line(f)),
{
    let mut r: Vec<String> = Vec::new();
    let mut i: usize = 0;
    while i < flags.len()
        invariant
            i <= flags.len(),
            r@.len() == i,
            forall|j: int|
                0 <= j < i ==> (#[trigger] r@[j])@ == flag_line((flags@[j].0@, flags@[j].1)),
        decreases flags.len() - i,
    {
        r.push(
            glue(
                glue(
                    glue(
                        glue("[dew] experimental: ".to_owned(), flags[i].0),
                        " (revision ",
                    ),
                    decimal_text(flags[i].1 as u64).as_str(),
                ),
                ")",
            ),
        );
        i += 1;
    }
    assert(views(r@) =~= flag_views(flags@).map_values(|f: (Seq<char>, u32)| flag_line(f)));
    r
}

/// A flag that is on was declared, or is known and was switched on.
pub proof fn only_what_was_asked_for_is_on(
    declared: Seq<(Seq<char>, u32)>,
    known: Seq<(Seq<char>, u32)>,
    settings: Map<Seq<char>, bool>,
    f: (Seq<char>, u32),
)
    ensures
        effective(declared, known, settings).contains(f) ==> declared.contains(f) || known.contains(f)
            && settings.contains_key(f.0) && settings[f.0],
        declared.contains(f) ==> effective(declared, known, settings).contains(f),
    decreases known.len(),
{
    if known.len() > 0 {
        let before = known.drop_last();
        only_what_was_asked_for_is_on(declared, before, settings, f);
        let so_far = effective(declared, before, settings);
        let all = effective(declared, known, settings);
        if before.contains(f) {
            let i = choose|i: int| 0 <= i < before.len() && before[i] == f;
            assert(known[i] == f);
        }
        assert(known[known.len() - 1] == known.last());
        if so_far.contains(f) {
            let i = choose|i: int| 0 <= i < so_far.len() && so_far[i] == f;
            assert(all[i] == f);
        }
        if all.contains(f) && !so_far.contains(f) {
            let i = choose|i: int| 0 <= i < all.len() && all[i] == f;
            if i < so_far.len() {
                assert(so_far[i] == f);
            }
            assert(f == known.last());
        }
    }
}

} // verus!
