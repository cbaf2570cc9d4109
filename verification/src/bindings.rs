//! What a guest of the small interface reaches: components, storage, the clipboard and times.

use crate::keyed::Keyed;
use crate::number::{f64_to_int, to_u64};
use crate::text::{decimal, decimal_text, glue, same};
use vstd::prelude::*;
use vstd::string::*;

verus! {

broadcast use vstd::string::group_string_axioms;

/// A component: its id, the function that renders it, and the one that a click calls.
#[derive(Debug)]
pub struct ComponentDef {
    pub id: String,
    pub render_fn: u64,
    pub click_fn: Option<u64>,
}

pub struct ComponentView {
    pub id: Seq<char>,
    pub render_fn: u64,
    pub click_fn: Option<u64>,
}

impl View for ComponentDef {
    type V = ComponentView;

    open spec fn view(&self) -> ComponentView {
        ComponentView { id: self.id@, render_fn: self.render_fn, click_fn: self.click_fn }
    }
}

pub open spec fn component_views(s: Seq<ComponentDef>) -> Seq<ComponentView> {
    s.map_values(|c: ComponentDef| c@)
}

/// Is this a component of another id?
pub open spec fn of_other_id(id: Seq<char>) -> spec_fn(ComponentView) -> bool {
    |c: ComponentView| c.id != id
}

/// What a guest has left with the host.
#[derive(Debug)]
pub struct HostState {
    pub components: Vec<ComponentDef>,
    pub storage: Keyed<String>,
    pub clipboard_text: String,
}

pub struct HostView {
    pub components: Seq<ComponentView>,
    pub storage: Map<Seq<char>, String>,
    pub clipboard_text: Seq<char>,
}

impl View for HostState {
    type V = HostView;

    open spec fn view(&self) -> HostView {
        HostView {
            components: component_views(self.components@),
            storage: self.storage@,
            clipboard_text: self.clipboard_text@,
        }
    }
}

/// The components after one was registered: it stands last, in place of any of the same id.
pub open spec fn registered(s: Seq<ComponentView>, c: ComponentView) -> Seq<ComponentView> {
    s.filter(of_other_id(c.id)).push(c)
}

/// What a click on the first component of an id calls.
pub open spec fn clicked(s: Seq<ComponentView>, id: Seq<char>, from: nat) -> Option<u64>
    decreases s.len() - from,
{
    if from >= s.len() {
        None
    } else if s[from as int].id == id {
        s[from as int].click_fn
    } else {
        clicked(s, id, from + 1)
    }
}

/// What is stored under a key.
pub open spec fn stored(storage: Map<Seq<char>, String>, key: Seq<char>) -> Option<Seq<char>> {
    if storage.contains_key(key) {
        Some(storage[key]@)
    } else {
        None
    }
}

impl HostState {
    pub fn new() -> (r: HostState)
        ensures
            r@.components == Seq::<ComponentView>::empty(),
            r@.storage == Map::<Seq<char>, String>::empty(),
            r@.clipboard_text == ""@,
    {
        let r = HostState {
            components: Vec::new(),
            storage: Keyed::new(),
            clipboard_text: "".to_owned(),
        };
        assert(r@.components =~= Seq::empty());
        r
    }

    /// Register a component.
    pub fn register_component(&mut self, id: String, render_fn: u64, click_fn: Option<u64>)
        ensures
            final(self)@ == (HostView {
                components: registered(
                    old(self)@.components,
                    ComponentView { id: id@, render_fn, click_fn },
                ),
                ..old(self)@
            }),
    {
        let ghost was = self@.components;
        let ghost fresh = ComponentView { id: id@, render_fn, click_fn };
        let mut left: Vec<ComponentDef> = Vec::new();
        let mut i: usize = 0;
        proof {
            reveal(Seq::filter);
            assert(was.take(0) =~= Seq::empty());
            assert(component_views(left@) =~= was.take(0).filter(of_other_id(id@)));
        }
        while i < self.components.len()
            invariant
                i <= self.components.len(),
                was == component_views(self.components@),
                component_views(left@) == was.take(i as int).filter(of_other_id(id@)),
            decreases self.components.len() - i,
        {
            let ghost before = component_views(left@);
            let c = &self.components[i];
            proof {
                reveal(Seq::filter);
                assert(was.take(i + 1).drop_last() =~= was.take(i as int));
                assert(was[i as int] == c@);
            }
            if !same(c.id.as_str(), id.as_str()) {
                left.push(
                    ComponentDef {
                        id: c.id.clone(),
                        render_fn: c.render_fn,
                        click_fn: c.click_fn,
                    },
                );
                assert(component_views(left@) =~= before.push(was[i as int]));
            }
            i += 1;
        }
        assert(was.take(i as int) =~= was);
        let ghost before = component_views(left@);
        left.push(ComponentDef { id, render_fn, click_fn });
        assert(component_views(left@) =~= before.push(fresh));
        self.components = left;
    }

    /// The function that a click on a component calls, where there is one.
    pub fn handle_click(&self, id: &str) -> (r: Option<u64>)
        ensures
            r == clicked(self@.components, id@, 0),
    {
        let ghost all = self@.components;
        let mut i: usize = 0;
        while i < self.components.len()
            invariant
                i <= self.components.len(),
                all == component_views(self.components@),
                clicked(all, id@, 0) == clicked(all, id@, i as nat),
            decreases self.components.len() - i,
        {
            assert(all[i as int] == self.components@[i as int]@);
            if same(self.components[i].id.as_str(), id) {
                return self.components[i].click_fn;
            }
            i += 1;
        }
        None
    }

    /// What is stored under a key.
    pub fn storage_get(&self, key: &str) -> (r: Option<String>)
        ensures
            crate::dom::text_view(r) == stored(self@.storage, key@),
    {
        match self.storage.get(key) {
            Some(v) => Some(v.clone()),
            None => None,
        }
    }

    /// Store a text under a key.
    pub fn storage_set(&mut self, key: String, value: String)
        ensures
            final(self)@ == (HostView {
                storage: old(self)@.storage.insert(key@, value),
                ..old(self)@
            }),
    {
        self.storage.put(key, value);
    }

    /// The text on the clipboard.
    pub fn read_text(&self) -> (r: String)
        ensures
            r@ == self@.clipboard_text,
    {
        self.clipboard_text.clone()
    }

    /// Put a text on the clipboard.
    pub fn write_text(&mut self, text: String)
        ensures
            final(self)@ == (HostView { clipboard_text: text@, ..old(self)@ }),
    {
        self.clipboard_text = text;
    }
}

impl Default for HostState {
    fn default() -> (r: HostState)
        ensures
            r@.components == Seq::<ComponentView>::empty(),
            r@.storage == Map::<Seq<char>, String>::empty(),
            r@.clipboard_text == ""@,
    {
        HostState::new()
    }
}

// ---- times ----

/// A number in at least two digits.
pub open spec fn padded(n: nat) -> Seq<char> {
    if n < 10 {
        "0"@ + decimal(n)
    } else {
        decimal(n)
    }
}

fn pad(n: u64) -> (r: String)
    ensures
        r@ == padded(n as nat),
{
    if n < 10 {
        glue("0".to_owned(), decimal_text(n).as_str())
    } else {
        decimal_text(n)
    }
}

/// A length of time in whole seconds, as a clock shows it: without hours, where there are none.
pub open spec fn clock(seconds: nat) -> Seq<char> {
    let h = seconds / 3600;
    let m = (seconds % 3600) / 60;
    let s = seconds % 60;
    if h > 0 {
        padded(h) + ":"@ + padded(m) + ":"@ + padded(s)
    } else {
        padded(m) + ":"@ + padded(s)
    }
}

/// A length of time in seconds, a double, as a clock shows it. A fraction is dropped, and nothing
/// is below zero.
pub fn format_duration(seconds: u64) -> (r: String)
    ensures
        r@ == clock(f64_to_int(seconds, 0, u64::MAX as int) as nat),
{
    let total: u64 = to_u64(seconds);
    let h: u64 = total / 3600;
    let m: u64 = (total % 3600) / 60;
    let s: u64 = total % 60;
    if h > 0 {
        glue(
            glue(glue(glue(pad(h), ":"), pad(m).as_str()), ":"),
            pad(s).as_str(),
        )
    } else {
        glue(glue(pad(m), ":"), pad(s).as_str())
    }
}

// ---- scripts ----

/// A text without the mark that may stand before it.
pub open spec fn unmarked(text: Seq<char>) -> Seq<char> {
    if text.len() > 0 && text[0] == '\u{feff}' {
        text.skip(1)
    } else {
        text
    }
}

/// The source of a script, without a byte order mark.
pub fn clean_source(source: &str) -> (r: &str)
    ensures
        r@ == unmarked(source@),
{
    let n: usize = source.unicode_len();
    if n > 0 && source.get_char(0) == '\u{feff}' {
        let rest = source.substring_char(1, n);
        assert(rest@ =~= source@.skip(1));
        rest
    } else {
        source
    }
}

/// The script of a directory: the one of the same name, where there is one.
pub fn script_of(directory: &str, has_own: bool) -> (r: String)
    ensures
        r@ == (if has_own {
            directory@ + ".luau"@
        } else {
            "main.luau"@
        }),
{
    if has_own {
        glue(directory.to_owned(), ".luau")
    } else {
        "main.luau".to_owned()
    }
}

// ---- drawing ----

/// A drawing command as it is read. Lengths are singles.
#[derive(Debug)]
pub struct RawCommand {
    pub kind: Option<String>,
    pub x: Option<u32>,
    pub y: Option<u32>,
    pub w: Option<u32>,
    pub h: Option<u32>,
    pub radius: Option<u32>,
    pub stroke_width: Option<u32>,
    pub r: Option<u8>,
    pub g: Option<u8>,
    pub b: Option<u8>,
    pub a: Option<u8>,
    pub text: Option<String>,
}

/// A drawing command.
#[derive(Debug)]
pub struct DrawCommand {
    pub kind: String,
    pub x: u32,
    pub y: u32,
    pub w: u32,
    pub h: u32,
    pub radius: u32,
    pub stroke_width: u32,
    pub color_r: u8,
    pub color_g: u8,
    pub color_b: u8,
    pub color_a: u8,
    pub text: Option<String>,
}

pub open spec fn length_or_zero(x: Option<u32>) -> u32 {
    match x {
        Some(v) => v,
        None => 0,
    }
}

pub open spec fn channel_or_full(x: Option<u8>) -> u8 {
    match x {
        Some(v) => v,
        None => 255,
    }
}

fn or_zero(x: Option<u32>) -> (r: u32)
    ensures
        r == length_or_zero(x),
{
    match x {
        Some(v) => v,
        None => 0,
    }
}

fn or_full(x: Option<u8>) -> (r: u8)
    ensures
        r == channel_or_full(x),
{
    match x {
        Some(v) => v,
        None => 255,
    }
}

/// The command that was read: a rectangle, of no extent, white and solid, as far as it says
/// nothing else.
pub fn draw_command(raw: RawCommand) -> (r: DrawCommand)
    ensures
        r.kind@ == (match raw.kind {
            Some(k) => k@,
            None => "rect"@,
        }),
        r.x == length_or_zero(raw.x),
        r.y == length_or_zero(raw.y),
        r.w == length_or_zero(raw.w),
        r.h == length_or_zero(raw.h),
        r.radius == length_or_zero(raw.radius),
        r.stroke_width == length_or_zero(raw.stroke_width),
        r.color_r == channel_or_full(raw.r),
        r.color_g == channel_or_full(raw.g),
        r.color_b == channel_or_full(raw.b),
        r.color_a == channel_or_full(raw.a),
        r.text == raw.text,
{
    let kind = match raw.kind {
        Some(k) => k,
        None => "rect".to_owned(),
    };
    DrawCommand {
        kind,
        x: or_zero(raw.x),
        y: or_zero(raw.y),
        w: or_zero(raw.w),
        h: or_zero(raw.h),
        radius: or_zero(raw.radius),
        stroke_width: or_zero(raw.stroke_width),
        color_r: or_full(raw.r),
        color_g: or_full(raw.g),
        color_b: or_full(raw.b),
        color_a: or_full(raw.a),
        text: raw.text,
    }
}

// ---- laws ----

/// A component that was registered is the only one of its id, and a click on it calls its own
/// function.
pub proof fn a_component_replaces_its_namesakes(s: Seq<ComponentView>, c: ComponentView)
    ensures
        registered(s, c).last() == c,
        forall|i: int|
            0 <= i < registered(s, c).len() - 1 ==> (#[trigger] registered(s, c)[i]).id != c.id,
        clicked(registered(s, c), c.id, 0) == c.click_fn,
{
    let all = registered(s, c);
    let head = s.filter(of_other_id(c.id));
    assert forall|i: int| 0 <= i < head.len() implies (#[trigger] head[i]).id != c.id by {
        s.filter_lemma(of_other_id(c.id));
        assert(of_other_id(c.id)(head[i]));
    }
    assert forall|i: int| 0 <= i < all.len() - 1 implies (#[trigger] all[i]).id != c.id by {
        assert(all[i] == head[i]);
    }
    click_passes(all, c.id, 0, (all.len() - 1) as nat);
}

proof fn click_passes(s: Seq<ComponentView>, id: Seq<char>, from: nat, to: nat)
    requires
        from <= to < s.len(),
        forall|i: int| from <= i < to ==> (#[trigger] s[i]).id != id,
    ensures
        clicked(s, id, from) == clicked(s, id, to),
    decreases to - from,
{
    if from < to {
        click_passes(s, id, from + 1, to);
    }
}

/// What is stored under a key is read back, and nothing else changes.
pub proof fn storage_reads_what_was_written(
    storage: Map<Seq<char>, String>,
    key: Seq<char>,
    value: String,
    other: Seq<char>,
)
    ensures
        stored(storage.insert(key, value), key) == Some(value@),
        other != key ==> stored(storage.insert(key, value), other) == stored(storage, other),
{
}

} // verus!
