//! What is drawn: the elements in paint order, and what each of them looks like.

use crate::dom::{text_view, Dom};
use crate::layout::{
    bool_at, class_at, corner_radius, draws_text, is_class, is_empty, is_text_class, item_at,
    number_at, one, pair_at, property_at, solution, text_for, zero, Box2, Layout, Ruler, SolvedItem,
    Stage,
};
use crate::members::first_of;
use crate::ranked::{rank_in, ranked};
use crate::reflection::{Catalog, CatalogView};
use crate::scalar::{between, clamp, Scalar};
use crate::text::{same, text_holding};
use crate::tree::DomView;
use crate::value::{Color3, ColorKey, Content, ContentView, NumberKey, Value, ValueView, Vector2};
use vstd::prelude::*;
use vstd::string::*;

verus! {

broadcast use vstd::string::group_string_axioms;

// ---- paint order ----

/// One element, in paint order: its instance, its box, and what is cut off of it. Drawing and hit
/// testing both read these.
#[derive(Clone, Copy, Debug)]
pub struct Placed<S> {
    pub id: usize,
    pub rect: Box2<S>,
    /// The corner radius of `clip`.
    pub clip_radius: S,
    pub clip: Option<Box2<S>>,
}

/// Has an element an area?
pub open spec fn has_area<S: Scalar>() -> spec_fn(SolvedItem<S>) -> bool {
    |i: SolvedItem<S>| zero::<S>().less(i.rect.w) && zero::<S>().less(i.rect.h)
}

pub open spec fn placed_of<S>(i: SolvedItem<S>) -> Placed<S> {
    Placed { id: i.id, rect: i.rect, clip_radius: i.clip_radius, clip: i.clip }
}

/// The surface of a size.
pub open spec fn surface_of<S: Scalar>(width: S, height: S) -> Box2<S> {
    Box2 { x: zero(), y: zero(), w: width, h: height }
}

/// Elements with their layers.
pub open spec fn layers<S: Scalar>(items: Seq<SolvedItem<S>>) -> Seq<(i32, Placed<S>)> {
    items.filter(has_area()).map_values(|i: SolvedItem<S>| (i.z_index, placed_of(i)))
}

/// Everything under a root that has an area, back to front: by layer, and within a layer in the
/// order of the tree, each element before what is in it.
pub open spec fn paint_order<S: Scalar, R: Ruler<S>>(
    st: Stage<R>,
    root: usize,
    width: S,
    height: S,
) -> Seq<Placed<S>> {
    ranked(layers(solution(st, root, surface_of(width, height)))).map_values(
        |x: (i32, Placed<S>)| x.1,
    )
}

impl<'a, R> Layout<'a, R> {
    /// Everything under a root, back to front.
    pub fn display_list<S: Scalar>(&self, root: usize, width: S, height: S) -> (r: Vec<Placed<S>>)
        where R: Ruler<S>
        requires
            self.ok(),
        ensures
            r@ == paint_order(self@, root, width, height),
    {
        let nothing = S::from_int(0);
        let items = self.solve_layout(root, Box2 { x: nothing, y: nothing, w: width, h: height });
        let ghost wanted = has_area::<S>();
        let mut rows: Vec<(i32, Placed<S>)> = Vec::new();
        let mut i: usize = 0;
        proof {
            reveal(Seq::filter);
            assert(items@.take(0) =~= Seq::empty());
            assert(layers(items@.take(0)) =~= Seq::empty());
        }
        while i < items.len()
            invariant
                i <= items.len(),
                wanted == has_area::<S>(),
                nothing == zero::<S>(),
                rows@ == ranked(layers(items@.take(i as int))),
            decreases items.len() - i,
        {
            let item = items[i];
            proof {
                reveal(Seq::filter);
                let before = items@.take(i as int);
                let next = items@.take(i + 1);
                assert(next.drop_last() =~= before);
                if wanted(item) {
                    assert(layers(next) =~= layers(before).push((item.z_index, placed_of(item))));
                    assert(layers(next).drop_last() =~= layers(before));
                } else {
                    assert(layers(next) =~= layers(before));
                }
            }
            if nothing.below(item.rect.w) && nothing.below(item.rect.h) {
                rank_in(
                    &mut rows,
                    item.z_index,
                    Placed {
                        id: item.id,
                        rect: item.rect,
                        clip_radius: item.clip_radius,
                        clip: item.clip,
                    },
                );
            }
            i += 1;
        }
        assert(items@.take(i as int) =~= items@);
        let mut r: Vec<Placed<S>> = Vec::new();
        let mut k: usize = 0;
        while k < rows.len()
            invariant
                k <= rows.len(),
                r@.len() == k,
                forall|j: int| 0 <= j < k ==> #[trigger] r@[j] == rows@[j].1,
            decreases rows.len() - k,
        {
            r.push(rows[k].1);
            k += 1;
        }
        assert(r@ =~= paint_order(self@, root, width, height));
        r
    }
}

// ---- colours ----

/// A colour in bytes.
#[derive(Clone, Copy, Debug, PartialEq, Eq, Structural)]
pub struct Rgb(pub u8, pub u8, pub u8);

/// A channel from zero to one, as a byte.
pub open spec fn channel<S: Scalar>(bits: u32) -> u8 {
    between(S::of_single(bits), zero(), one()).product(S::of_int(255)).byte()
}

pub open spec fn rgb_of<S: Scalar>(c: Color3) -> Rgb {
    Rgb(channel::<S>(c.r), channel::<S>(c.g), channel::<S>(c.b))
}

fn channel_byte<S: Scalar>(bits: u32) -> (r: u8)
    ensures
        r == channel::<S>(bits),
{
    clamp(S::from_single(bits), S::from_int(0), S::from_int(1)).times(S::from_int(255)).to_byte()
}

fn rgb<S: Scalar>(c: Color3) -> (r: Rgb)
    ensures
        r == rgb_of::<S>(c),
{
    Rgb(channel_byte::<S>(c.r), channel_byte::<S>(c.g), channel_byte::<S>(c.b))
}

/// The colour of a property.
pub open spec fn colour_at<S: Scalar, R>(st: Stage<R>, id: usize, key: Seq<char>) -> Option<Rgb> {
    match property_at(st, id, key) {
        Some(ValueView::Color3(c)) => Some(rgb_of::<S>(c)),
        _ => None,
    }
}

/// How solid something is, where the property says how transparent.
pub open spec fn alpha_at<S: Scalar, R>(st: Stage<R>, id: usize, key: Seq<char>) -> S {
    let transparency = match number_at::<S, R>(st, id, key) {
        Some(n) => n,
        None => zero(),
    };
    one::<S>().difference(between(transparency, zero(), one()))
}

impl<'a, R> Layout<'a, R> {
    fn colour<S: Scalar>(&self, id: usize, key: &str) -> (r: Option<Rgb>)
        requires
            self.ok(),
        ensures
            r == colour_at::<S, R>(self@, id, key@),
    {
        match self.property(id, key) {
            Some(Value::Color3(c)) => Some(rgb::<S>(c)),
            _ => None,
        }
    }

    fn alpha<S: Scalar>(&self, id: usize, key: &str) -> (r: S)
        requires
            self.ok(),
        ensures
            r == alpha_at::<S, R>(self@, id, key@),
    {
        let transparency = match self.number::<S>(id, key) {
            Some(n) => n,
            None => S::from_int(0),
        };
        S::from_int(1).minus(clamp(transparency, S::from_int(0), S::from_int(1)))
    }
}

// ---- text ----

/// Which end something is aligned to.
#[derive(Clone, Copy, Debug, PartialEq, Eq, Structural)]
pub enum Align {
    Start,
    Center,
    End,
}

/// The alignment of a property, whose enumeration has the same name.
pub open spec fn align_at<R>(st: Stage<R>, id: usize, key: Seq<char>) -> Option<Align> {
    match property_at(st, id, key) {
        Some(ValueView::Enum(raw)) => if !st.catalog.enum_has(key, raw) {
            None
        } else if item_at(st, id, key, key, "Left"@) || item_at(st, id, key, key, "Top"@) {
            Some(Align::Start)
        } else if item_at(st, id, key, key, "Right"@) || item_at(st, id, key, key, "Bottom"@) {
            Some(Align::End)
        } else {
            Some(Align::Center)
        },
        _ => None,
    }
}

/// How many lines a text has.
pub open spec fn line_count(text: Seq<char>) -> nat
    decreases text.len(),
{
    if text.len() == 0 {
        1
    } else if text.last() == '\n' {
        line_count(text.drop_last()) + 1
    } else {
        line_count(text.drop_last())
    }
}

/// One and a half, the height of a line in units of the text size.
pub open spec fn line_height<S: Scalar>() -> S {
    S::of_int(3).quotient(S::of_int(2))
}

/// The largest size, to sixteen halvings, at which a wrapped text fits.
pub open spec fn search_size<S: Scalar, R: Ruler<S>>(
    st: Stage<R>,
    text: Seq<char>,
    room: Box2<S>,
    low: S,
    high: S,
    tries: nat,
) -> S
    decreases tries,
{
    if tries == 0 {
        low
    } else {
        let mid = low.sum(high).quotient(S::of_int(2));
        match st.ruler.extent(text_holding(text), mid, Some(room.w)) {
            None => low,
            Some((w, h)) => if w.less_or_equal(room.w) && h.less_or_equal(room.h) {
                search_size(st, text, room, mid, high, (tries - 1) as nat)
            } else {
                search_size(st, text, room, low, mid, (tries - 1) as nat)
            },
        }
    }
}

/// The size that a text takes in a box: as it was asked for, or as large as fits where it scales.
pub open spec fn text_size_at<S: Scalar, R: Ruler<S>>(
    st: Stage<R>,
    id: usize,
    rect: Box2<S>,
) -> S {
    let asked = match number_at::<S, R>(st, id, "TextSize"@) {
        Some(n) => n,
        None => S::of_int(14),
    };
    let pad = crate::layout::padding::<S, R>(st, id);
    let room = Box2::<S> {
        w: rect.w.difference(pad.left).difference(pad.right).larger(zero()),
        h: rect.h.difference(pad.top).difference(pad.bottom).larger(zero()),
        ..rect
    };
    match text_for(st, id, class_at(st, id)) {
        None => asked,
        Some(text) => if bool_at(st, id, "TextScaled"@) != Some(true) {
            asked
        } else if room.w.less_or_equal(zero()) || room.h.less_or_equal(zero()) {
            asked
        } else if bool_at(st, id, "TextWrapped"@) == Some(true) {
            search_size(
                st,
                text,
                room,
                one(),
                room.h.quotient(line_height()).larger(one()),
                16,
            )
        } else {
            match st.ruler.extent(text_holding(text), one(), None) {
                None => asked,
                Some((w, _)) => {
                    let h = S::of_int(line_count(text) as i128).product(one()).product(
                        line_height(),
                    );
                    let by_width = if zero::<S>().less(w) {
                        room.w.quotient(w)
                    } else {
                        S::top()
                    };
                    let by_height = if zero::<S>().less(h) {
                        room.h.quotient(h)
                    } else {
                        S::top()
                    };
                    by_width.smaller(by_height)
                },
            }
        },
    }
}

fn count_lines(text: &str) -> (r: u128)
    ensures
        r == line_count(text@),
        r <= 0x1_0000_0000_0000_0000,
{
    let n: usize = text.unicode_len();
    let mut r: u128 = 1;
    let mut i: usize = 0;
    assert(text@.take(0) =~= Seq::empty());
    while i < n
        invariant
            n == text@.len(),
            i <= n,
            r <= i + 1,
            r == line_count(text@.take(i as int)),
        decreases n - i,
    {
        assert(text@.take(i + 1).drop_last() =~= text@.take(i as int));
        if text.get_char(i) == '\n' {
            r += 1;
        }
        i += 1;
    }
    assert(text@.take(i as int) =~= text@);
    r
}

impl<'a, R> Layout<'a, R> {
    fn align(&self, id: usize, key: &str) -> (r: Option<Align>)
        requires
            self.ok(),
        ensures
            r == align_at(self@, id, key@),
    {
        match self.property(id, key) {
            Some(Value::Enum(raw)) => if !self.catalog.value_is_valid(key, raw) {
                None
            } else if self.item(id, key, key, "Left") || self.item(id, key, key, "Top") {
                Some(Align::Start)
            } else if self.item(id, key, key, "Right") || self.item(id, key, key, "Bottom") {
                Some(Align::End)
            } else {
                Some(Align::Center)
            },
            _ => None,
        }
    }

    fn fit_wrapped<S: Scalar>(&self, text: &str, room: Box2<S>) -> (r: S)
        where R: Ruler<S>
        requires
            self.ok(),
        ensures
            r == search_size(
                self@,
                text@,
                room,
                one(),
                room.h.quotient(line_height()).larger(one()),
                16,
            ),
    {
        let half_more = S::from_int(3).over(S::from_int(2));
        let mut low = S::from_int(1);
        let mut high = room.h.over(half_more).most(S::from_int(1));
        let ghost whole = search_size(self@, text@, room, low, high, 16);
        let mut tries: usize = 16;
        while tries > 0
            invariant
                self.ok(),
                whole == search_size(self@, text@, room, low, high, tries as nat),
                whole == search_size(
                    self@,
                    text@,
                    room,
                    one(),
                    room.h.quotient(line_height()).larger(one()),
                    16,
                ),
            decreases tries,
        {
            let mid = low.plus(high).over(S::from_int(2));
            match self.ruler.measure(text, mid, Some(room.w)) {
                None => return low,
                Some((w, h)) => {
                    if w.at_most(room.w) && h.at_most(room.h) {
                        low = mid;
                    } else {
                        high = mid;
                    }
                },
            }
            tries -= 1;
        }
        low
    }

    fn resolved_text_size<S: Scalar>(&self, id: usize, rect: Box2<S>) -> (r: S)
        where R: Ruler<S>
        requires
            self.ok(),
        ensures
            r == text_size_at(self@, id, rect),
    {
        let asked = match self.number::<S>(id, "TextSize") {
            Some(n) => n,
            None => S::from_int(14),
        };
        if !self.is_set(id, "TextScaled", true) {
            return asked;
        }
        let text = match self.text_of(id, self.class(id).as_str()) {
            Some(t) => t,
            None => return asked,
        };
        let nothing = S::from_int(0);
        let pad = self.padding_of::<S>(id);
        let room = Box2 {
            x: rect.x,
            y: rect.y,
            w: rect.w.minus(pad.left).minus(pad.right).most(nothing),
            h: rect.h.minus(pad.top).minus(pad.bottom).most(nothing),
        };
        if room.w.at_most(nothing) || room.h.at_most(nothing) {
            return asked;
        }
        if self.is_set(id, "TextWrapped", true) {
            return self.fit_wrapped(text.as_str(), room);
        }
        match self.ruler.measure(text.as_str(), S::from_int(1), None) {
            None => asked,
            Some((w, _)) => {
                let lines: u128 = count_lines(text.as_str());
                let half_more = S::from_int(3).over(S::from_int(2));
                let h = S::from_int(lines as i128).times(S::from_int(1)).times(half_more);
                let by_width = if nothing.below(w) {
                    room.w.over(w)
                } else {
                    S::highest()
                };
                let by_height = if nothing.below(h) {
                    room.h.over(h)
                } else {
                    S::highest()
                };
                by_width.least(by_height)
            },
        }
    }
}

// ---- strokes and gradients ----

/// The line around an element.
#[derive(Clone, Copy, Debug)]
pub struct Stroke<S> {
    pub colour: Option<Rgb>,
    pub thickness: S,
    pub alpha: S,
}

pub open spec fn stroke_at<S: Scalar, R>(st: Stage<R>, id: usize) -> Option<Stroke<S>> {
    match crate::layout::modifier(st, id, "UIStroke"@) {
        Some(c) => Some(
            Stroke {
                colour: colour_at::<S, R>(st, c, "Color"@),
                thickness: match number_at::<S, R>(st, c, "Thickness"@) {
                    Some(n) => n,
                    None => one(),
                },
                alpha: alpha_at::<S, R>(st, c, "Transparency"@),
            },
        ),
        None => None,
    }
}

#[derive(Clone, Copy, Debug, PartialEq, Eq, Structural)]
pub enum GradientKind {
    Linear,
    Radial,
}

/// A colour along a gradient.
#[derive(Clone, Copy, Debug)]
pub struct Stop<S> {
    pub at: S,
    pub colour: Rgb,
}

/// How solid a gradient is along it.
#[derive(Clone, Copy, Debug)]
pub struct AlphaStop<S> {
    pub at: S,
    pub alpha: S,
}

#[derive(Debug)]
pub struct Gradient<S> {
    pub kind: GradientKind,
    pub stops: Vec<Stop<S>>,
    pub alpha_stops: Vec<AlphaStop<S>>,
    pub rotation: S,
}

pub struct GradientView<S> {
    pub kind: GradientKind,
    pub stops: Seq<Stop<S>>,
    pub alpha_stops: Seq<AlphaStop<S>>,
    pub rotation: S,
}

impl<S> View for Gradient<S> {
    type V = GradientView<S>;

    open spec fn view(&self) -> GradientView<S> {
        GradientView {
            kind: self.kind,
            stops: self.stops@,
            alpha_stops: self.alpha_stops@,
            rotation: self.rotation,
        }
    }
}

/// A letter of the alphabet in lower case; any other character as it is.
pub open spec fn lower(c: char) -> char {
    if 'A' <= c <= 'Z' {
        ((c as u32) + 32) as char
    } else {
        c
    }
}

/// Is this the word "radial", whatever the case of its letters?
pub open spec fn says_radial(s: Seq<char>) -> bool {
    s.len() == 6 && lower(s[0]) == 'r' && lower(s[1]) == 'a' && lower(s[2]) == 'd' && lower(s[3])
        == 'i' && lower(s[4]) == 'a' && lower(s[5]) == 'l'
}

fn either(c: char, small: char, large: char) -> (r: bool)
    ensures
        r == (c == small || c == large),
{
    c == small || c == large
}

fn is_radial(s: &str) -> (r: bool)
    ensures
        r == says_radial(s@),
{
    if s.unicode_len() != 6 {
        return false;
    }
    either(s.get_char(0), 'r', 'R') && either(s.get_char(1), 'a', 'A') && either(
        s.get_char(2),
        'd',
        'D',
    ) && either(s.get_char(3), 'i', 'I') && either(s.get_char(4), 'a', 'A') && either(
        s.get_char(5),
        'l',
        'L',
    )
}

/// Does an enumeration call one of its members of this number radial?
pub open spec fn radial_item(catalog: CatalogView, raw: u32) -> bool {
    catalog.category("GradientType"@) is Some && exists|name: Seq<char>| #[trigger]
        catalog.enum_map("GradientType"@).contains_pair(name, raw) && says_radial(name)
}

/// The kind of a gradient: radial where its type or its shape says so.
pub open spec fn gradient_kind<R>(st: Stage<R>, id: usize) -> GradientKind {
    let by_type = match property_at(st, id, "Type"@) {
        Some(ValueView::Enum(raw)) => radial_item(st.catalog, raw) || raw == 1,
        Some(ValueView::Text(s)) => says_radial(s),
        _ => false,
    };
    let by_shape = match property_at(st, id, "Shape"@) {
        Some(ValueView::Text(s)) => says_radial(s),
        _ => false,
    };
    if by_type || by_shape {
        GradientKind::Radial
    } else {
        GradientKind::Linear
    }
}

pub open spec fn stop_of<S: Scalar>() -> spec_fn(ColorKey) -> Stop<S> {
    |k: ColorKey| Stop { at: S::of_single(k.time), colour: rgb_of::<S>(k.color) }
}

pub open spec fn alpha_stop_of<S: Scalar>() -> spec_fn(NumberKey) -> AlphaStop<S> {
    |k: NumberKey|
        AlphaStop {
            at: S::of_single(k.time),
            alpha: one::<S>().difference(between(S::of_single(k.value), zero(), one())),
        }
}

/// Is this a gradient modifier that is on?
pub open spec fn shades<R>(st: Stage<R>, c: usize) -> bool {
    is_class(st, c, "UIGradient"@) && bool_at(st, c, "Enabled"@) != Some(false)
}

/// The gradient of an element: that of the first gradient modifier that is on, unless it has no
/// stops at all.
pub open spec fn gradient_at<S: Scalar, R>(st: Stage<R>, id: usize) -> Option<GradientView<S>> {
    match first_of(st.dom.kids(id), |c: usize| shades(st, c)) {
        None => None,
        Some(c) => {
            let stops = match property_at(st, c, "Color"@) {
                Some(ValueView::ColorSequence(k)) => k.map_values(stop_of::<S>()),
                _ => Seq::empty(),
            };
            let alpha_stops = match property_at(st, c, "Transparency"@) {
                Some(ValueView::NumberSequence(k)) => k.map_values(alpha_stop_of::<S>()),
                _ => Seq::empty(),
            };
            if stops.len() == 0 && alpha_stops.len() == 0 {
                None
            } else {
                Some(
                    GradientView {
                        kind: gradient_kind(st, c),
                        stops,
                        alpha_stops,
                        rotation: match number_at::<S, R>(st, c, "Rotation"@) {
                            Some(n) => n,
                            None => zero(),
                        },
                    },
                )
            }
        },
    }
}

fn colour_stops<S: Scalar>(keys: &Vec<ColorKey>) -> (r: Vec<Stop<S>>)
    ensures
        r@ == keys@.map_values(stop_of::<S>()),
{
    let mut r: Vec<Stop<S>> = Vec::new();
    let mut i: usize = 0;
    while i < keys.len()
        invariant
            i <= keys.len(),
            r@.len() == i,
            forall|j: int| 0 <= j < i ==> #[trigger] r@[j] == stop_of::<S>()(keys@[j]),
        decreases keys.len() - i,
    {
        r.push(Stop { at: S::from_single(keys[i].time), colour: rgb::<S>(keys[i].color) });
        i += 1;
    }
    assert(r@ =~= keys@.map_values(stop_of::<S>()));
    r
}

fn alpha_stops<S: Scalar>(keys: &Vec<NumberKey>) -> (r: Vec<AlphaStop<S>>)
    ensures
        r@ == keys@.map_values(alpha_stop_of::<S>()),
{
    let mut r: Vec<AlphaStop<S>> = Vec::new();
    let mut i: usize = 0;
    while i < keys.len()
        invariant
            i <= keys.len(),
            r@.len() == i,
            forall|j: int| 0 <= j < i ==> #[trigger] r@[j] == alpha_stop_of::<S>()(keys@[j]),
        decreases keys.len() - i,
    {
        let value = clamp(S::from_single(keys[i].value), S::from_int(0), S::from_int(1));
        r.push(AlphaStop { at: S::from_single(keys[i].time), alpha: S::from_int(1).minus(value) });
        i += 1;
    }
    assert(r@ =~= keys@.map_values(alpha_stop_of::<S>()));
    r
}

fn has_radial_item(catalog: &Catalog, raw: u32) -> (r: bool)
    ensures
        r == radial_item(catalog@, raw),
{
    let (_own, rows) = match catalog.category("GradientType") {
        Some(c) => c,
        None => return false,
    };
    let ghost map = catalog@.enum_map("GradientType"@);
    let mut i: usize = 0;
    while i < rows.len()
        invariant
            i <= rows.len(),
            catalog@.category("GradientType"@) is Some,
            map == catalog@.enum_map("GradientType"@),
            crate::reflection::lists(rows@, map),
            forall|j: int|
                0 <= j < i ==> !((#[trigger] rows@[j]).1 == raw && says_radial(rows@[j].0@)),
        decreases rows.len() - i,
    {
        if rows[i].1 == raw && is_radial(rows[i].0.as_str()) {
            assert(map.contains_pair(rows@[i as int].0@, raw));
            return true;
        }
        i += 1;
    }
    proof {
        assert forall|name: Seq<char>| #[trigger] map.contains_pair(name, raw) implies !says_radial(
            name,
        ) by {
            assert(map.contains_key(name));
        }
    }
    false
}

impl<'a, R> Layout<'a, R> {
    fn stroke_of<S: Scalar>(&self, id: usize) -> (r: Option<Stroke<S>>)
        requires
            self.ok(),
        ensures
            r == stroke_at::<S, R>(self@, id),
    {
        match self.modifier_of(id, "UIStroke") {
            Some(c) => Some(
                Stroke {
                    colour: self.colour::<S>(c, "Color"),
                    thickness: match self.number::<S>(c, "Thickness") {
                        Some(n) => n,
                        None => S::from_int(1),
                    },
                    alpha: self.alpha::<S>(c, "Transparency"),
                },
            ),
            None => None,
        }
    }

    fn kind_of_gradient(&self, id: usize) -> (r: GradientKind)
        requires
            self.ok(),
        ensures
            r == gradient_kind(self@, id),
    {
        let by_type = match self.property(id, "Type") {
            Some(Value::Enum(raw)) => has_radial_item(self.catalog, raw) || raw == 1,
            Some(Value::Text(s)) => is_radial(s.as_str()),
            _ => false,
        };
        let by_shape = match self.property(id, "Shape") {
            Some(Value::Text(s)) => is_radial(s.as_str()),
            _ => false,
        };
        if by_type || by_shape {
            GradientKind::Radial
        } else {
            GradientKind::Linear
        }
    }

    fn shading_kid(&self, id: usize) -> (r: Option<usize>)
        requires
            self.ok(),
        ensures
            r == first_of(self@.dom.kids(id), |c: usize| shades(self@, c)),
    {
        let kids = self.dom.children(id);
        let ghost wanted = |c: usize| shades(self@, c);
        let mut i: usize = 0;
        assert(kids@.skip(0) =~= kids@);
        while i < kids.len()
            invariant
                self.ok(),
                kids@ == self@.dom.kids(id),
                i <= kids.len(),
                wanted == (|c: usize| shades(self@, c)),
                first_of(kids@, wanted) == first_of(kids@.skip(i as int), wanted),
            decreases kids.len() - i,
        {
            assert(kids@.skip(i as int)[0] == kids@[i as int]);
            if self.has_class(kids[i], "UIGradient") && !self.is_set(kids[i], "Enabled", false) {
                return Some(kids[i]);
            }
            assert(kids@.skip(i as int).skip(1) =~= kids@.skip(i + 1));
            i += 1;
        }
        None
    }

    fn gradient_of<S: Scalar>(&self, id: usize) -> (r: Option<Gradient<S>>)
        requires
            self.ok(),
        ensures
            match r {
                Some(g) => gradient_at::<S, R>(self@, id) == Some(g@),
                None => gradient_at::<S, R>(self@, id) is None,
            },
    {
        let c: usize = match self.shading_kid(id) {
            Some(c) => c,
            None => return None,
        };
        let stops: Vec<Stop<S>> = match self.property(c, "Color") {
            Some(Value::ColorSequence(k)) => colour_stops(&k),
            _ => Vec::new(),
        };
        let fades: Vec<AlphaStop<S>> = match self.property(c, "Transparency") {
            Some(Value::NumberSequence(k)) => alpha_stops(&k),
            _ => Vec::new(),
        };
        if stops.len() == 0 && fades.len() == 0 {
            return None;
        }
        let rotation = match self.number::<S>(c, "Rotation") {
            Some(n) => n,
            None => S::from_int(0),
        };
        Some(Gradient { kind: self.kind_of_gradient(c), stops, alpha_stops: fades, rotation })
    }
}

// ---- images ----

/// How an image fills its box.
#[derive(Clone, Copy, Debug, PartialEq, Eq, Structural)]
pub enum Scale {
    Stretch,
    Fit,
    Crop,
}

/// The image of an element, by its address.
#[derive(Debug)]
pub struct Image<S> {
    pub uri: String,
    pub tint: Option<Rgb>,
    pub alpha: S,
    pub source: Option<Box2<S>>,
    pub scale: Scale,
}

pub struct ImageView<S> {
    pub uri: Seq<char>,
    pub tint: Option<Rgb>,
    pub alpha: S,
    pub source: Option<Box2<S>>,
    pub scale: Scale,
}

impl<S> View for Image<S> {
    type V = ImageView<S>;

    open spec fn view(&self) -> ImageView<S> {
        ImageView {
            uri: self.uri@,
            tint: self.tint,
            alpha: self.alpha,
            source: self.source,
            scale: self.scale,
        }
    }
}

/// The classes that draw an image.
pub open spec fn draws_image(class: Seq<char>) -> bool {
    class == "ImageLabel"@ || class == "ImageButton"@ || class == "InputActionLabel"@
}

/// The address of the image of an element: its content first, and then the older form.
pub open spec fn image_uri<R>(st: Stage<R>, id: usize) -> Option<Seq<char>> {
    let newer = match property_at(st, id, "ImageContent"@) {
        Some(ValueView::Content(ContentView::Uri(u))) => if u.len() > 0 {
            Some(u)
        } else {
            None
        },
        _ => None,
    };
    match newer {
        Some(u) => Some(u),
        None => match property_at(st, id, "Image"@) {
            Some(ValueView::ContentId(u)) => if u.len() > 0 {
                Some(u)
            } else {
                None
            },
            _ => None,
        },
    }
}

/// The part of an image that is drawn. A size of nothing is all of it.
pub open spec fn image_source<S: Scalar, R>(st: Stage<R>, id: usize) -> Option<Box2<S>> {
    let size = pair_at::<S, R>(st, id, "ImageRectSize"@);
    let offset = pair_at::<S, R>(st, id, "ImageRectOffset"@);
    if size.x.less_or_equal(zero()) || size.y.less_or_equal(zero()) {
        None
    } else {
        Some(Box2 { x: offset.x, y: offset.y, w: size.x, h: size.y })
    }
}

/// How the image of an element fills its box; what cannot be drawn so is stretched.
pub open spec fn image_scale<R>(st: Stage<R>, id: usize) -> Scale {
    if item_at(st, id, "ScaleType"@, "ScaleType"@, "Fit"@) {
        Scale::Fit
    } else if item_at(st, id, "ScaleType"@, "ScaleType"@, "Crop"@) {
        Scale::Crop
    } else {
        Scale::Stretch
    }
}

pub open spec fn image_at<S: Scalar, R>(st: Stage<R>, id: usize) -> Option<ImageView<S>> {
    match image_uri(st, id) {
        None => None,
        Some(uri) => Some(
            ImageView {
                uri,
                tint: colour_at::<S, R>(st, id, "ImageColor3"@),
                alpha: alpha_at::<S, R>(st, id, "ImageTransparency"@),
                source: image_source::<S, R>(st, id),
                scale: image_scale(st, id),
            },
        ),
    }
}

impl<'a, R> Layout<'a, R> {
    fn uri_of(&self, id: usize) -> (r: Option<String>)
        requires
            self.ok(),
        ensures
            text_view(r) == image_uri(self@, id),
    {
        if let Some(Value::Content(Content::Uri(u))) = self.property(id, "ImageContent") {
            if !is_empty(u.as_str()) {
                return Some(u);
            }
        }
        match self.property(id, "Image") {
            Some(Value::ContentId(u)) => if is_empty(u.as_str()) {
                None
            } else {
                Some(u)
            },
            _ => None,
        }
    }

    fn image_of<S: Scalar>(&self, id: usize) -> (r: Option<Image<S>>)
        requires
            self.ok(),
        ensures
            match r {
                Some(i) => image_at::<S, R>(self@, id) == Some(i@),
                None => image_at::<S, R>(self@, id) is None,
            },
    {
        let uri = match self.uri_of(id) {
            Some(u) => u,
            None => return None,
        };
        let nothing = S::from_int(0);
        let size = self.pair::<S>(id, "ImageRectSize");
        let offset = self.pair::<S>(id, "ImageRectOffset");
        let source = if size.x.at_most(nothing) || size.y.at_most(nothing) {
            None
        } else {
            Some(Box2 { x: offset.x, y: offset.y, w: size.x, h: size.y })
        };
        let scale = if self.item(id, "ScaleType", "ScaleType", "Fit") {
            Scale::Fit
        } else if self.item(id, "ScaleType", "ScaleType", "Crop") {
            Scale::Crop
        } else {
            Scale::Stretch
        };
        Some(
            Image {
                uri,
                tint: self.colour::<S>(id, "ImageColor3"),
                alpha: self.alpha::<S>(id, "ImageTransparency"),
                source,
                scale,
            },
        )
    }
}

// ---- frames ----

/// One element, as a painter draws it. `id` is its place in the paint order, from one on.
#[derive(Debug)]
pub struct Node<S> {
    pub id: u64,
    pub name: String,
    pub rect: Box2<S>,
    pub fill: Option<Rgb>,
    pub alpha: S,
    pub radius: S,
    pub clip_radius: S,
    pub clip: Option<Box2<S>>,
    pub stroke: Option<Stroke<S>>,
    pub gradient: Option<Gradient<S>>,
    pub text: Option<String>,
    pub text_size: S,
    pub text_align_x: Option<Align>,
    pub text_align_y: Option<Align>,
    pub text_colour: Option<Rgb>,
    pub text_alpha: S,
    pub image: Option<Image<S>>,
}

/// Does a node show an element as it is?
pub open spec fn depicts<S: Scalar, R: Ruler<S>>(
    st: Stage<R>,
    p: Placed<S>,
    sequence: int,
    n: Node<S>,
) -> bool {
    let id = p.id;
    let class = class_at(st, id);
    &&& n.id == sequence
    &&& n.name@ == (if st.dom.alive(id) {
        st.dom.node(id).name
    } else {
        Seq::empty()
    })
    &&& n.rect == p.rect
    &&& n.clip == p.clip
    &&& n.clip_radius == p.clip_radius
    &&& n.fill == colour_at::<S, R>(st, id, "BackgroundColor3"@)
    &&& n.alpha == alpha_at::<S, R>(st, id, "BackgroundTransparency"@)
    &&& n.radius == corner_radius::<S, R>(st, id)
    &&& n.stroke == stroke_at::<S, R>(st, id)
    &&& gradient_at::<S, R>(st, id) == (match n.gradient {
        Some(g) => Some(g@),
        None => None,
    })
    &&& text_view(n.text) == (if draws_text(class) {
        text_for(st, id, class)
    } else {
        None
    })
    &&& n.text_size == (if draws_text(class) {
        text_size_at(st, id, p.rect)
    } else {
        match number_at::<S, R>(st, id, "TextSize"@) {
            Some(x) => x,
            None => S::of_int(14),
        }
    })
    &&& n.text_align_x == align_at(st, id, "TextXAlignment"@)
    &&& n.text_align_y == align_at(st, id, "TextYAlignment"@)
    &&& n.text_colour == colour_at::<S, R>(st, id, "TextColor3"@)
    &&& n.text_alpha == alpha_at::<S, R>(st, id, "TextTransparency"@)
    &&& (match n.image {
        Some(i) => Some(i@),
        None => None,
    }) == (if draws_image(class) {
        image_at::<S, R>(st, id)
    } else {
        None
    })
}

/// Everything that a painter draws.
#[derive(Debug)]
pub struct Frame<S> {
    pub width: S,
    pub height: S,
    pub nodes: Vec<Node<S>>,
    pub focused: bool,
}

impl<'a, R> Layout<'a, R> {
    fn node<S: Scalar>(&self, p: &Placed<S>, sequence: u64) -> (r: Node<S>)
        where R: Ruler<S>
        requires
            self.ok(),
        ensures
            depicts(self@, *p, sequence as int, r),
    {
        let id: usize = p.id;
        let class = self.class(id);
        let name = match self.dom.name_of(id) {
            Some(n) => n,
            None => {
                let n = String::new();
                assert(n@ =~= Seq::empty());
                n
            },
        };
        let writes = is_text_class(class.as_str());
        let pictures = same(class.as_str(), "ImageLabel") || same(class.as_str(), "ImageButton")
            || same(class.as_str(), "InputActionLabel");
        Node {
            id: sequence,
            name,
            rect: p.rect,
            fill: self.colour::<S>(id, "BackgroundColor3"),
            alpha: self.alpha::<S>(id, "BackgroundTransparency"),
            radius: self.corner_radius_of::<S>(id),
            clip_radius: p.clip_radius,
            clip: p.clip,
            stroke: self.stroke_of::<S>(id),
            gradient: self.gradient_of::<S>(id),
            text: if writes {
                self.text_of(id, class.as_str())
            } else {
                None
            },
            text_size: if writes {
                self.resolved_text_size(id, p.rect)
            } else {
                match self.number::<S>(id, "TextSize") {
                    Some(n) => n,
                    None => S::from_int(14),
                }
            },
            text_align_x: self.align(id, "TextXAlignment"),
            text_align_y: self.align(id, "TextYAlignment"),
            text_colour: self.colour::<S>(id, "TextColor3"),
            text_alpha: self.alpha::<S>(id, "TextTransparency"),
            image: if pictures {
                self.image_of::<S>(id)
            } else {
                None
            },
        }
    }

    /// Everything under a root as a painter draws it, back to front.
    pub fn frame<S: Scalar>(&self, root: usize, width: S, height: S) -> (r: Frame<S>)
        where R: Ruler<S>
        requires
            self.ok(),
        ensures
            r.width == width,
            r.height == height,
            !r.focused,
            r.nodes@.len() == paint_order(self@, root, width, height).len(),
            forall|i: int|
                0 <= i < r.nodes@.len() ==> depicts(
                    self@,
                    paint_order(self@, root, width, height)[i],
                    i + 1,
                    #[trigger] r.nodes@[i],
                ),
    {
        let placed = self.display_list(root, width, height);
        let mut nodes: Vec<Node<S>> = Vec::new();
        let mut i: usize = 0;
        while i < placed.len()
            invariant
                self.ok(),
                placed@ == paint_order(self@, root, width, height),
                i <= placed.len(),
                nodes@.len() == i,
                forall|j: int|
                    0 <= j < i ==> depicts(self@, placed@[j], j + 1, #[trigger] nodes@[j]),
            decreases placed.len() - i,
        {
            nodes.push(self.node(&placed[i], i as u64 + 1));
            i += 1;
        }
        Frame { width, height, nodes, focused: false }
    }
}

// ---- geometry for the guest ----

/// The instances after the geometry of the first so many elements was noted.
pub open spec fn noted<S: Scalar>(v: DomView, items: Seq<SolvedItem<S>>, count: nat) -> DomView
    decreases count,
{
    if count == 0 {
        v
    } else {
        let before = noted(v, items, (count - 1) as nat);
        let item = items[count - 1];
        note_one(
            note_one(
                before,
                item.id,
                "AbsolutePosition"@,
                Vector2 { x: item.rect.x.single(), y: item.rect.y.single() },
            ),
            item.id,
            "AbsoluteSize"@,
            Vector2 { x: item.rect.w.single(), y: item.rect.h.single() },
        )
    }
}

pub open spec fn note_one(v: DomView, id: usize, key: Seq<char>, at: Vector2) -> DomView {
    if v.alive(id) {
        v.assigned(id, key, ValueView::Vector2(at))
    } else {
        v
    }
}

/// Lay everything under a root out and note where it is, for the guest to read. A guest cannot
/// assign these properties, and that they change owes no repaint.
pub fn commit_geometry<S: Scalar, R: Ruler<S>>(
    dom: &mut Dom,
    catalog: &Catalog,
    ruler: &R,
    root: usize,
    width: S,
    height: S,
)
    requires
        old(dom).ok(),
    ensures
        final(dom).ok(),
        final(dom)@ == ({
            let st = Stage { dom: old(dom)@, catalog: catalog@, ruler: *ruler };
            let items = solution(st, root, surface_of(width, height));
            noted(old(dom)@, items, items.len())
        }),
{
    let ghost v = dom@;
    let nothing = S::from_int(0);
    let items = {
        let layout = Layout { dom: &*dom, catalog, ruler };
        layout.solve_layout(root, Box2 { x: nothing, y: nothing, w: width, h: height })
    };
    let mut i: usize = 0;
    while i < items.len()
        invariant
            dom.ok(),
            i <= items.len(),
            dom@ == noted(v, items@, i as nat),
        decreases items.len() - i,
    {
        let item = items[i];
        let at = Vector2 { x: item.rect.x.to_single(), y: item.rect.y.to_single() };
        let size = Vector2 { x: item.rect.w.to_single(), y: item.rect.h.to_single() };
        dom.set_internal(item.id, "AbsolutePosition", Value::Vector2(at));
        dom.set_internal(item.id, "AbsoluteSize", Value::Vector2(size));
        i += 1;
    }
}

/// Note the geometry of everything under a root, and draw it.
pub fn frame_of<S: Scalar, R: Ruler<S>>(
    dom: &mut Dom,
    catalog: &Catalog,
    ruler: &R,
    root: usize,
    width: S,
    height: S,
) -> (r: Frame<S>)
    requires
        old(dom).ok(),
    ensures
        final(dom).ok(),
        final(dom)@ == ({
            let st = Stage { dom: old(dom)@, catalog: catalog@, ruler: *ruler };
            let items = solution(st, root, surface_of(width, height));
            noted(old(dom)@, items, items.len())
        }),
        ({
            let st = Stage { dom: final(dom)@, catalog: catalog@, ruler: *ruler };
            &&& r.width == width
            &&& r.height == height
            &&& !r.focused
            &&& r.nodes@.len() == paint_order(st, root, width, height).len()
            &&& forall|i: int|
                0 <= i < r.nodes@.len() ==> depicts(
                    st,
                    paint_order(st, root, width, height)[i],
                    i + 1,
                    #[trigger] r.nodes@[i],
                )
        }),
{
    commit_geometry(dom, catalog, ruler, root, width, height);
    let layout = Layout { dom: &*dom, catalog, ruler };
    layout.frame(root, width, height)
}

// ---- laws ----

/// To note geometry owes no repaint, and changes nothing but the two properties that it notes.
pub proof fn noting_owes_no_repaint<S: Scalar>(
    v: DomView,
    items: Seq<SolvedItem<S>>,
    count: nat,
    id: usize,
    key: Seq<char>,
)
    requires
        key != "AbsolutePosition"@,
        key != "AbsoluteSize"@,
    ensures
        noted(v, items, count).dirty == v.dirty,
        noted(v, items, count).alive(id) == v.alive(id),
        v.alive(id) ==> noted(v, items, count).node(id).props.contains_key(key) == v.node(
            id,
        ).props.contains_key(key),
        v.alive(id) && v.node(id).props.contains_key(key) ==> noted(v, items, count).node(
            id,
        ).props[key] == v.node(id).props[key],
    decreases count,
{
    if count > 0 {
        noting_owes_no_repaint(v, items, (count - 1) as nat, id, key);
    }
}

/// Elements of one layer are drawn in the order of the tree: each element before what is in it,
/// and earlier children before later ones.
pub proof fn a_layer_is_drawn_in_tree_order<S: Scalar>(items: Seq<SolvedItem<S>>, layer: i32)
    ensures
        crate::ranked::in_rank(ranked(layers(items))),
        crate::ranked::of_rank(ranked(layers(items)), layer) == crate::ranked::of_rank(
            layers(items),
            layer,
        ),
{
    crate::ranked::ranking_is_stable(layers(items), layer);
}

/// What is drawn is what has an area in the solution, each element once: the layers ascend, and
/// within one the order is that of the solution. All of it lies under the root, and the root
/// itself is not drawn.
pub proof fn what_is_drawn_lies_under_the_root<S: Scalar, R: Ruler<S>>(
    st: Stage<R>,
    root: usize,
    width: S,
    height: S,
)
    requires
        st.dom.sound(),
    ensures
        ({
            let found = layers(solution(st, root, surface_of(width, height)));
            let rows = ranked(found);
            &&& paint_order(st, root, width, height) == rows.map_values(|x: (i32, Placed<S>)| x.1)
            &&& rows.to_multiset() == found.to_multiset()
            &&& crate::ranked::in_rank(rows)
            &&& forall|layer: i32| #[trigger]
                crate::ranked::of_rank(rows, layer) == crate::ranked::of_rank(found, layer)
        }),
        forall|i: int|
            0 <= i < paint_order(st, root, width, height).len() ==> {
                let id = (#[trigger] paint_order(st, root, width, height)[i]).id;
                id != root && st.dom.alive(id) && st.dom.at_or_above(root, id)
            },
{
    broadcast use vstd::seq_lib::group_to_multiset_ensures;

    let items = solution(st, root, surface_of(width, height));
    let found = layers(items);
    let rows = ranked(found);
    let drawn = paint_order(st, root, width, height);
    assert forall|layer: i32| #[trigger]
        crate::ranked::of_rank(rows, layer) == crate::ranked::of_rank(found, layer) by {
        crate::ranked::ranking_is_stable(found, layer);
    }
    crate::ranked::ranking_is_stable(found, 0);
    assert forall|i: int| 0 <= i < drawn.len() implies {
        let id = (#[trigger] drawn[i]).id;
        id != root && st.dom.alive(id) && st.dom.at_or_above(root, id)
    } by {
        assert(rows.to_multiset().contains(rows[i]));
        let k = choose|k: int| 0 <= k < found.len() && found[k] == rows[i];
        let shown = items.filter(has_area());
        assert(found[k] == (shown[k].z_index, placed_of(shown[k])));
        items.lemma_filter_contains_rev(has_area(), shown[k]);
        let m = choose|m: int| 0 <= m < items.len() && items[m] == shown[k];
        crate::layout::only_what_is_under_the_root_is_laid_out(
            st,
            root,
            surface_of(width, height),
            m,
        );
    }
}

/// What is painted is an element that was laid out with a width and a height, where it was laid out
/// and with what is seen of it; and each such element is painted.
pub proof fn what_has_an_area_is_painted<S: Scalar, R: Ruler<S>>(
    st: Stage<R>,
    root: usize,
    width: S,
    height: S,
    i: int,
    m: int,
)
    requires
        0 <= i < paint_order(st, root, width, height).len(),
    ensures
        ({
            let items = solution(st, root, surface_of(width, height));
            let p = paint_order(st, root, width, height)[i];
            exists|k: int|
                #![trigger items[k]]
                0 <= k < items.len() && items[k].id == p.id && items[k].rect == p.rect
                    && items[k].clip == p.clip && items[k].clip_radius == p.clip_radius
        }),
        S::of_int(0).less(paint_order(st, root, width, height)[i].rect.w),
        S::of_int(0).less(paint_order(st, root, width, height)[i].rect.h),
        ({
            let items = solution(st, root, surface_of(width, height));
            0 <= m < items.len() && S::of_int(0).less(items[m].rect.w) && S::of_int(0).less(
                items[m].rect.h,
            ) ==> exists|k: int|
                #![trigger paint_order(st, root, width, height)[k]]
                0 <= k < paint_order(st, root, width, height).len() && paint_order(
                    st,
                    root,
                    width,
                    height,
                )[k].id == items[m].id && paint_order(st, root, width, height)[k].rect
                    == items[m].rect && paint_order(st, root, width, height)[k].clip == items[m].clip
        }),
{
    broadcast use vstd::seq_lib::group_to_multiset_ensures;

    let items = solution(st, root, surface_of(width, height));
    let found = layers(items);
    let rows = ranked(found);
    let drawn = paint_order(st, root, width, height);
    let shown = items.filter(has_area());
    crate::ranked::ranking_is_stable(found, 0);
    assert(rows.to_multiset().contains(rows[i]));
    let k = choose|k: int| 0 <= k < found.len() && found[k] == rows[i];
    assert(found[k] == (shown[k].z_index, placed_of(shown[k])));
    items.lemma_filter_contains_rev(has_area(), shown[k]);
    let from = choose|from: int| 0 <= from < items.len() && items[from] == shown[k];
    assert(items[from].id == drawn[i].id);
    items.filter_lemma(has_area());
    assert(has_area::<S>()(shown[k]));
    if 0 <= m < items.len() && S::of_int(0).less(items[m].rect.w) && S::of_int(0).less(
        items[m].rect.h,
    ) {
        assert(has_area::<S>()(items[m]));
        assert(shown.contains(items[m]));
        let j = choose|j: int| 0 <= j < shown.len() && shown[j] == items[m];
        assert(found[j] == (shown[j].z_index, placed_of(shown[j])));
        assert(found.to_multiset().contains(found[j]));
        assert(rows.contains(found[j]));
        let n = choose|n: int| 0 <= n < rows.len() && rows[n] == found[j];
        assert(drawn[n] == rows[n].1);
    }
}

} // verus!
