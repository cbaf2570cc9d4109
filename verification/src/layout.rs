//! Where everything under a root lies: the solver.

use crate::dom::Dom;
use crate::members::first_of;
use crate::numbered::Numbered;
use crate::ranked::{rank_in, ranked, ranked_in};
use crate::reflection::{Catalog, CatalogView};
use crate::scalar::{between, clamp, Scalar};
use crate::text::{begins, same, starts, text_holding};
use crate::tree::{ancestors_bounded, ancestors_unfold, DomView};
use crate::value::{Value, ValueView};
use vstd::prelude::*;

verus! {

/// A rectangle in the coordinates of the surface.
#[derive(Clone, Copy, Debug)]
pub struct Box2<S> {
    pub x: S,
    pub y: S,
    pub w: S,
    pub h: S,
}

/// A number for each axis.
#[derive(Clone, Copy, Debug)]
pub struct Pair<S> {
    pub x: S,
    pub y: S,
}

/// A fraction of the space on offer, and a length.
#[derive(Clone, Copy, Debug)]
pub struct Span<S> {
    pub scale: S,
    pub offset: S,
}

/// What lies between the edges of a container and its content.
#[derive(Clone, Copy, Debug)]
pub struct Insets<S> {
    pub left: S,
    pub top: S,
    pub right: S,
    pub bottom: S,
}

/// What is cut off: everything outside an area with rounded corners, or nothing.
#[derive(Clone, Copy, Debug)]
pub struct Clip<S> {
    pub area: Option<Box2<S>>,
    pub radius: S,
}

/// One element with its place.
#[derive(Clone, Copy, Debug)]
pub struct SolvedItem<S> {
    pub id: usize,
    pub rect: Box2<S>,
    pub clip: Option<Box2<S>>,
    /// The corner radius of `clip`.
    pub clip_radius: S,
    pub depth: usize,
    pub z_index: i32,
    /// The axes that it was to grow along and along which nothing could be measured.
    pub stuck: Pair<bool>,
}

/// How much room text takes. It may be that nothing can tell.
pub trait Ruler<S: Scalar> {
    /// The width and the height of a text in a size, on one line per line of it or, with a
    /// width, wrapped to that.
    spec fn extent(&self, text: String, size: S, width: Option<S>) -> Option<(S, S)>;

    fn measure(&self, text: &str, size: S, width: Option<S>) -> (r: Option<(S, S)>)
        ensures
            r == self.extent(text_holding(text@), size, width),
    ;
}

/// A ruler without fonts, which measures nothing.
#[derive(Clone, Copy, Debug)]
pub struct NoFonts;

impl<S: Scalar> Ruler<S> for NoFonts {
    open spec fn extent(&self, text: String, size: S, width: Option<S>) -> Option<(S, S)> {
        None
    }

    fn measure(&self, text: &str, size: S, width: Option<S>) -> (r: Option<(S, S)>) {
        None
    }
}

/// What a layout is made of.
pub struct Stage<R> {
    pub dom: DomView,
    pub catalog: CatalogView,
    pub ruler: R,
}

/// What a layout is made of.
pub struct Layout<'a, R> {
    pub dom: &'a Dom,
    pub catalog: &'a Catalog,
    pub ruler: &'a R,
}

impl<'a, R> View for Layout<'a, R> {
    type V = Stage<R>;

    open spec fn view(&self) -> Stage<R> {
        Stage { dom: self.dom@, catalog: self.catalog@, ruler: *self.ruler }
    }
}

// ---- reading properties ----

pub open spec fn zero<S: Scalar>() -> S {
    S::of_int(0)
}

pub open spec fn one<S: Scalar>() -> S {
    S::of_int(1)
}

pub open spec fn property_at<R>(st: Stage<R>, id: usize, key: Seq<char>) -> Option<ValueView> {
    st.dom.property(st.catalog, id, key)
}

/// A span of one axis; of no extent where the property is not one.
pub open spec fn span_at<S: Scalar, R>(st: Stage<R>, id: usize, key: Seq<char>) -> Span<S> {
    match property_at(st, id, key) {
        Some(ValueView::UDim(v)) => Span {
            scale: S::of_single(v.scale),
            offset: S::of_int(v.offset as i128),
        },
        _ => Span { scale: zero(), offset: zero() },
    }
}

/// The span of a property of both axes, across or down.
pub open spec fn span2_at<S: Scalar, R>(
    st: Stage<R>,
    id: usize,
    key: Seq<char>,
    across: bool,
) -> Span<S> {
    match property_at(st, id, key) {
        Some(ValueView::UDim2(v)) => if across {
            Span { scale: S::of_single(v.x.scale), offset: S::of_int(v.x.offset as i128) }
        } else {
            Span { scale: S::of_single(v.y.scale), offset: S::of_int(v.y.offset as i128) }
        },
        _ => Span { scale: zero(), offset: zero() },
    }
}

pub open spec fn pair_at<S: Scalar, R>(st: Stage<R>, id: usize, key: Seq<char>) -> Pair<S> {
    match property_at(st, id, key) {
        Some(ValueView::Vector2(v)) => Pair { x: S::of_single(v.x), y: S::of_single(v.y) },
        _ => Pair { x: zero(), y: zero() },
    }
}

pub open spec fn number_at<S: Scalar, R>(st: Stage<R>, id: usize, key: Seq<char>) -> Option<S> {
    match property_at(st, id, key) {
        Some(ValueView::Float32(v)) => Some(S::of_single(v)),
        Some(ValueView::Float64(v)) => Some(S::of_double(v)),
        Some(ValueView::Int32(v)) => Some(S::of_int(v as i128)),
        Some(ValueView::Int64(v)) => Some(S::of_int(v as i128)),
        _ => None,
    }
}

pub open spec fn bool_at<R>(st: Stage<R>, id: usize, key: Seq<char>) -> Option<bool> {
    match property_at(st, id, key) {
        Some(ValueView::Bool(v)) => Some(v),
        _ => None,
    }
}

pub open spec fn text_at<R>(st: Stage<R>, id: usize, key: Seq<char>) -> Option<Seq<char>> {
    match property_at(st, id, key) {
        Some(ValueView::Text(v)) => Some(v),
        _ => None,
    }
}

/// Is the property the member of this name of an enumeration?
pub open spec fn item_at<R>(
    st: Stage<R>,
    id: usize,
    key: Seq<char>,
    ty: Seq<char>,
    name: Seq<char>,
) -> bool {
    match property_at(st, id, key) {
        Some(ValueView::Enum(raw)) => st.catalog.category(ty) is Some && st.catalog.enum_map(
            ty,
        ).contains_pair(name, raw),
        _ => false,
    }
}

pub open spec fn is_class<R>(st: Stage<R>, id: usize, class: Seq<char>) -> bool {
    st.dom.alive(id) && st.dom.node(id).class == class
}

pub open spec fn class_at<R>(st: Stage<R>, id: usize) -> Seq<char> {
    if st.dom.alive(id) {
        st.dom.node(id).class
    } else {
        Seq::empty()
    }
}

/// A modifier is a property of its parent in the shape of a child, and is not laid out.
pub open spec fn is_modifier(class: Seq<char>) -> bool {
    begins(class, "UI"@)
}

/// The classes that draw text.
pub open spec fn draws_text(class: Seq<char>) -> bool {
    class == "TextLabel"@ || class == "TextButton"@ || class == "TextBox"@ || class
        == "InputActionLabel"@
}

/// The text that an element draws, where it has any. One that names an input action draws that.
pub open spec fn text_for<R>(st: Stage<R>, id: usize, class: Seq<char>) -> Option<Seq<char>> {
    let action = text_at(st, id, "InputAction"@);
    let own = text_at(st, id, "Text"@);
    if class == "InputActionLabel"@ && action is Some && action->0.len() > 0 {
        action
    } else if own is Some && own->0.len() > 0 {
        own
    } else {
        None
    }
}

/// The first modifier of a class among the children of an element.
pub open spec fn modifier<R>(st: Stage<R>, id: usize, class: Seq<char>) -> Option<usize> {
    first_of(st.dom.kids(id), |c: usize| is_class(st, c, class))
}

impl<'a, R> Layout<'a, R> {
    pub open spec fn ok(self) -> bool {
        self.dom.ok()
    }

    pub fn property(&self, id: usize, key: &str) -> (r: Option<Value>)
        requires
            self.ok(),
        ensures
            crate::dom::value_view(r) == property_at(self@, id, key@),
    {
        self.dom.property(self.catalog, id, key)
    }

    fn span<S: Scalar>(&self, id: usize, key: &str) -> (r: Span<S>)
        requires
            self.ok(),
        ensures
            r == span_at::<S, R>(self@, id, key@),
    {
        match self.property(id, key) {
            Some(Value::UDim(v)) => Span {
                scale: S::from_single(v.scale),
                offset: S::from_int(v.offset as i128),
            },
            _ => Span { scale: S::from_int(0), offset: S::from_int(0) },
        }
    }

    fn span2<S: Scalar>(&self, id: usize, key: &str, across: bool) -> (r: Span<S>)
        requires
            self.ok(),
        ensures
            r == span2_at::<S, R>(self@, id, key@, across),
    {
        match self.property(id, key) {
            Some(Value::UDim2(v)) => if across {
                Span { scale: S::from_single(v.x.scale), offset: S::from_int(v.x.offset as i128) }
            } else {
                Span { scale: S::from_single(v.y.scale), offset: S::from_int(v.y.offset as i128) }
            },
            _ => Span { scale: S::from_int(0), offset: S::from_int(0) },
        }
    }

    pub fn pair<S: Scalar>(&self, id: usize, key: &str) -> (r: Pair<S>)
        requires
            self.ok(),
        ensures
            r == pair_at::<S, R>(self@, id, key@),
    {
        match self.property(id, key) {
            Some(Value::Vector2(v)) => Pair { x: S::from_single(v.x), y: S::from_single(v.y) },
            _ => Pair { x: S::from_int(0), y: S::from_int(0) },
        }
    }

    pub fn number<S: Scalar>(&self, id: usize, key: &str) -> (r: Option<S>)
        requires
            self.ok(),
        ensures
            r == number_at::<S, R>(self@, id, key@),
    {
        match self.property(id, key) {
            Some(Value::Float32(v)) => Some(S::from_single(v)),
            Some(Value::Float64(v)) => Some(S::from_double(v)),
            Some(Value::Int32(v)) => Some(S::from_int(v as i128)),
            Some(Value::Int64(v)) => Some(S::from_int(v as i128)),
            _ => None,
        }
    }

    pub fn boolean(&self, id: usize, key: &str) -> (r: Option<bool>)
        requires
            self.ok(),
        ensures
            r == bool_at(self@, id, key@),
    {
        match self.property(id, key) {
            Some(Value::Bool(v)) => Some(v),
            _ => None,
        }
    }

    /// Is a boolean property set, and to this?
    pub fn is_set(&self, id: usize, key: &str, to: bool) -> (r: bool)
        requires
            self.ok(),
        ensures
            r == (bool_at(self@, id, key@) == Some(to)),
    {
        match self.boolean(id, key) {
            Some(b) => b == to,
            None => false,
        }
    }

    pub fn text(&self, id: usize, key: &str) -> (r: Option<String>)
        requires
            self.ok(),
        ensures
            crate::dom::text_view(r) == text_at(self@, id, key@),
    {
        match self.property(id, key) {
            Some(Value::Text(v)) => Some(v),
            _ => None,
        }
    }

    pub fn item(&self, id: usize, key: &str, ty: &str, name: &str) -> (r: bool)
        requires
            self.ok(),
        ensures
            r == item_at(self@, id, key@, ty@, name@),
    {
        match self.property(id, key) {
            Some(Value::Enum(raw)) => match self.catalog.item_by_name(ty, name) {
                Some(item) => item.value == raw,
                None => {
                    proof {
                        if self.catalog@.category(ty@) is Some {
                            let (own, items) = self.catalog@.category(ty@)->0;
                            assert(!items.contains_key(name@));
                        }
                    }
                    false
                },
            },
            _ => false,
        }
    }

    pub fn has_class(&self, id: usize, class: &str) -> (r: bool)
        requires
            self.ok(),
        ensures
            r == is_class(self@, id, class@),
    {
        match self.dom.class_of(id) {
            Some(own) => same(own.as_str(), class),
            None => false,
        }
    }

    pub fn class(&self, id: usize) -> (r: String)
        requires
            self.ok(),
        ensures
            r@ == class_at(self@, id),
    {
        match self.dom.class_of(id) {
            Some(own) => own,
            None => {
                let r = String::new();
                assert(r@ =~= Seq::empty());
                r
            },
        }
    }

    pub fn text_of(&self, id: usize, class: &str) -> (r: Option<String>)
        requires
            self.ok(),
        ensures
            crate::dom::text_view(r) == text_for(self@, id, class@),
    {
        if same(class, "InputActionLabel") {
            if let Some(t) = self.text(id, "InputAction") {
                if !is_empty(t.as_str()) {
                    return Some(t);
                }
            }
        }
        if let Some(t) = self.text(id, "Text") {
            if !is_empty(t.as_str()) {
                return Some(t);
            }
        }
        None
    }

    pub fn modifier_of(&self, id: usize, class: &str) -> (r: Option<usize>)
        requires
            self.ok(),
        ensures
            r == modifier(self@, id, class@),
    {
        let kids = self.dom.children(id);
        let ghost wanted = |c: usize| is_class(self@, c, class@);
        let mut i: usize = 0;
        assert(kids@.skip(0) =~= kids@);
        while i < kids.len()
            invariant
                self.ok(),
                kids@ == self@.dom.kids(id),
                i <= kids.len(),
                wanted == (|c: usize| is_class(self@, c, class@)),
                first_of(kids@, wanted) == first_of(kids@.skip(i as int), wanted),
            decreases kids.len() - i,
        {
            assert(kids@.skip(i as int)[0] == kids@[i as int]);
            if self.has_class(kids[i], class) {
                return Some(kids[i]);
            }
            assert(kids@.skip(i as int).skip(1) =~= kids@.skip(i + 1));
            i += 1;
        }
        None
    }
}

pub(crate) fn is_empty(s: &str) -> (r: bool)
    ensures
        r == (s@.len() == 0),
{
    proof {
        reveal_strlit("");
        if s@.len() == 0 {
            assert(s@ =~= ""@);
        }
    }
    same(s, "")
}

pub(crate) fn is_text_class(class: &str) -> (r: bool)
    ensures
        r == draws_text(class@),
{
    same(class, "TextLabel") || same(class, "TextButton") || same(class, "TextBox") || same(
        class,
        "InputActionLabel",
    )
}

// ---- boxes ----

/// The padding of an element: the offsets of its padding modifier.
pub open spec fn padding<S: Scalar, R>(st: Stage<R>, id: usize) -> Insets<S> {
    match modifier(st, id, "UIPadding"@) {
        Some(p) => Insets {
            left: span_at::<S, R>(st, p, "PaddingLeft"@).offset,
            top: span_at::<S, R>(st, p, "PaddingTop"@).offset,
            right: span_at::<S, R>(st, p, "PaddingRight"@).offset,
            bottom: span_at::<S, R>(st, p, "PaddingBottom"@).offset,
        },
        None => Insets { left: zero(), top: zero(), right: zero(), bottom: zero() },
    }
}

/// The box that a container offers its children: its own, less the padding.
pub open spec fn content<S: Scalar, R>(st: Stage<R>, id: usize, own: Box2<S>) -> Box2<S> {
    let p = padding::<S, R>(st, id);
    Box2 {
        x: own.x.sum(p.left),
        y: own.y.sum(p.top),
        w: own.w.difference(p.left).difference(p.right).larger(zero()),
        h: own.h.difference(p.top).difference(p.bottom).larger(zero()),
    }
}

/// A span of what is on offer.
pub open spec fn resolved<S: Scalar>(span: Span<S>, available: S) -> S {
    span.scale.product(available).sum(span.offset)
}

/// One element against the box that its parent offers: each extent is a span of what is on offer,
/// and the anchor then moves the element by a fraction of its own extent. An element that a
/// container places has no position of its own.
pub open spec fn solved_rect<S: Scalar, R>(
    st: Stage<R>,
    id: usize,
    parent: Box2<S>,
    laid_out: bool,
) -> Box2<S> {
    let nowhere = Span::<S> { scale: zero(), offset: zero() };
    let px = if laid_out {
        nowhere
    } else {
        span2_at(st, id, "Position"@, true)
    };
    let py = if laid_out {
        nowhere
    } else {
        span2_at(st, id, "Position"@, false)
    };
    let anchor = pair_at::<S, R>(st, id, "AnchorPoint"@);
    let w = resolved(span2_at(st, id, "Size"@, true), parent.w);
    let h = resolved(span2_at(st, id, "Size"@, false), parent.h);
    Box2 {
        x: parent.x.sum(px.scale.product(parent.w)).sum(px.offset).difference(anchor.x.product(w)),
        y: parent.y.sum(py.scale.product(parent.h)).sum(py.offset).difference(anchor.y.product(h)),
        w: w.larger(zero()),
        h: h.larger(zero()),
    }
}

/// Is this a corner modifier that asks for a radius?
pub open spec fn rounds<R>(st: Stage<R>, c: usize) -> bool {
    is_class(st, c, "UICorner"@) && property_at(st, c, "CornerRadius"@) matches Some(
        ValueView::UDim(_),
    )
}

/// The corner radius that the first corner modifier asks for: its offset.
pub open spec fn corner_radius<S: Scalar, R>(st: Stage<R>, id: usize) -> S {
    match first_of(st.dom.kids(id), |c: usize| rounds(st, c)) {
        Some(c) => span_at::<S, R>(st, c, "CornerRadius"@).offset,
        None => zero(),
    }
}

/// What is in both boxes, or in the one where there is only one.
pub open spec fn intersected<S: Scalar>(clip: Option<Box2<S>>, rect: Box2<S>) -> Box2<S> {
    match clip {
        Some(c) => {
            let x = c.x.larger(rect.x);
            let y = c.y.larger(rect.y);
            let right = c.x.sum(c.w).smaller(rect.x.sum(rect.w));
            let bottom = c.y.sum(c.h).smaller(rect.y.sum(rect.h));
            Box2 {
                x,
                y,
                w: right.difference(x).larger(zero()),
                h: bottom.difference(y).larger(zero()),
            }
        },
        None => rect,
    }
}

pub open spec fn scrolls<R>(st: Stage<R>, id: usize) -> bool {
    is_class(st, id, "ScrollingFrame"@)
}

/// What an element cuts off of what is in it. A scrolling one always cuts at its own box; of two
/// roundings the rounder counts.
pub open spec fn inner_clip<S: Scalar, R>(
    st: Stage<R>,
    id: usize,
    rect: Box2<S>,
    clip: Clip<S>,
) -> Clip<S> {
    if scrolls(st, id) || bool_at(st, id, "ClipsDescendants"@) == Some(true) {
        Clip {
            area: Some(intersected(clip.area, rect)),
            radius: corner_radius::<S, R>(st, id).larger(clip.radius),
        }
    } else {
        clip
    }
}

impl<'a, R> Layout<'a, R> {
    pub fn padding_of<S: Scalar>(&self, id: usize) -> (r: Insets<S>)
        requires
            self.ok(),
        ensures
            r == padding::<S, R>(self@, id),
    {
        match self.modifier_of(id, "UIPadding") {
            Some(p) => {
                let left = self.span::<S>(p, "PaddingLeft");
                let top = self.span::<S>(p, "PaddingTop");
                let right = self.span::<S>(p, "PaddingRight");
                let bottom = self.span::<S>(p, "PaddingBottom");
                Insets {
                    left: left.offset,
                    top: top.offset,
                    right: right.offset,
                    bottom: bottom.offset,
                }
            },
            None => Insets {
                left: S::from_int(0),
                top: S::from_int(0),
                right: S::from_int(0),
                bottom: S::from_int(0),
            },
        }
    }

    /// The box that a container offers its children.
    pub fn content_box<S: Scalar>(&self, id: usize, own: Box2<S>) -> (r: Box2<S>)
        requires
            self.ok(),
        ensures
            r == content(self@, id, own),
    {
        let p = self.padding_of::<S>(id);
        Box2 {
            x: own.x.plus(p.left),
            y: own.y.plus(p.top),
            w: own.w.minus(p.left).minus(p.right).most(S::from_int(0)),
            h: own.h.minus(p.top).minus(p.bottom).most(S::from_int(0)),
        }
    }

    fn solve_rect<S: Scalar>(&self, id: usize, parent: Box2<S>, laid_out: bool) -> (r: Box2<S>)
        requires
            self.ok(),
        ensures
            r == solved_rect(self@, id, parent, laid_out),
    {
        let nothing = S::from_int(0);
        let sx = self.span2::<S>(id, "Size", true);
        let sy = self.span2::<S>(id, "Size", false);
        let px = if laid_out {
            Span { scale: nothing, offset: nothing }
        } else {
            self.span2::<S>(id, "Position", true)
        };
        let py = if laid_out {
            Span { scale: nothing, offset: nothing }
        } else {
            self.span2::<S>(id, "Position", false)
        };
        let anchor = self.pair::<S>(id, "AnchorPoint");
        let w = resolve(sx, parent.w);
        let h = resolve(sy, parent.h);
        Box2 {
            x: parent.x.plus(px.scale.times(parent.w)).plus(px.offset).minus(anchor.x.times(w)),
            y: parent.y.plus(py.scale.times(parent.h)).plus(py.offset).minus(anchor.y.times(h)),
            w: w.most(nothing),
            h: h.most(nothing),
        }
    }

    pub fn corner_radius_of<S: Scalar>(&self, id: usize) -> (r: S)
        requires
            self.ok(),
        ensures
            r == corner_radius::<S, R>(self@, id),
    {
        let kids = self.dom.children(id);
        let ghost wanted = |c: usize| rounds(self@, c);
        let mut i: usize = 0;
        assert(kids@.skip(0) =~= kids@);
        while i < kids.len()
            invariant
                self.ok(),
                kids@ == self@.dom.kids(id),
                i <= kids.len(),
                wanted == (|c: usize| rounds(self@, c)),
                first_of(kids@, wanted) == first_of(kids@.skip(i as int), wanted),
            decreases kids.len() - i,
        {
            assert(kids@.skip(i as int)[0] == kids@[i as int]);
            if self.has_class(kids[i], "UICorner") {
                if let Some(Value::UDim(_)) = self.property(kids[i], "CornerRadius") {
                    assert(rounds(self@, kids@[i as int]));
                    let span = self.span::<S>(kids[i], "CornerRadius");
                    return span.offset;
                }
            }
            assert(kids@.skip(i as int).skip(1) =~= kids@.skip(i + 1));
            i += 1;
        }
        S::from_int(0)
    }

    fn child_clip<S: Scalar>(&self, id: usize, rect: Box2<S>, clip: Clip<S>) -> (r: Clip<S>)
        requires
            self.ok(),
        ensures
            r == inner_clip(self@, id, rect, clip),
    {
        if self.has_class(id, "ScrollingFrame") || self.is_set(id, "ClipsDescendants", true) {
            Clip {
                area: Some(intersect(clip.area, rect)),
                radius: self.corner_radius_of::<S>(id).most(clip.radius),
            }
        } else {
            clip
        }
    }
}

fn resolve<S: Scalar>(span: Span<S>, available: S) -> (r: S)
    ensures
        r == resolved(span, available),
{
    span.scale.times(available).plus(span.offset)
}

fn intersect<S: Scalar>(clip: Option<Box2<S>>, rect: Box2<S>) -> (r: Box2<S>)
    ensures
        r == intersected(clip, rect),
{
    match clip {
        Some(c) => {
            let x = c.x.most(rect.x);
            let y = c.y.most(rect.y);
            let right = c.x.plus(c.w).least(rect.x.plus(rect.w));
            let bottom = c.y.plus(c.h).least(rect.y.plus(rect.h));
            Box2 {
                x,
                y,
                w: right.minus(x).most(S::from_int(0)),
                h: bottom.minus(y).most(S::from_int(0)),
            }
        },
        None => rect,
    }
}

// ---- growing to fit ----

/// The axes that an element grows along, by an enumeration property of automatic sizes.
pub open spec fn grows_by<R>(st: Stage<R>, id: usize, key: Seq<char>) -> Pair<bool> {
    let ty = "AutomaticSize"@;
    if item_at(st, id, key, ty, "X"@) {
        Pair { x: true, y: false }
    } else if item_at(st, id, key, ty, "Y"@) {
        Pair { x: false, y: true }
    } else if item_at(st, id, key, ty, "XY"@) {
        Pair { x: true, y: true }
    } else {
        Pair { x: false, y: false }
    }
}

/// The place of an element along one axis.
pub open spec fn near<S>(rect: Box2<S>, across: bool) -> S {
    if across {
        rect.x
    } else {
        rect.y
    }
}

/// The extent of an element along one axis.
pub open spec fn length<S>(rect: Box2<S>, across: bool) -> S {
    if across {
        rect.w
    } else {
        rect.h
    }
}

/// How far the content of an element reaches along one axis, and what the paddings on the way
/// down add at each depth.
pub struct Reach<S> {
    pub edge: S,
    pub added: Map<usize, S>,
}

/// The reach after the first so many items. An item of a fixed length reaches to its far edge. A
/// direct child of a partial one reaches as far as its share of `base` does, unless there is
/// something in it to say; any other passes its padding on to what is in it.
pub open spec fn reach<S: Scalar, R>(
    st: Stage<R>,
    items: Seq<SolvedItem<S>>,
    count: nat,
    base: Option<S>,
    across: bool,
    listed: bool,
) -> Reach<S>
    decreases count,
{
    let top = if items.len() > 0 {
        items[0].depth
    } else {
        0
    };
    if count == 0 {
        Reach { edge: S::bottom(), added: Map::empty().insert(top, zero()) }
    } else {
        let r = reach(st, items, (count - 1) as nat, base, across, listed);
        let item = items[count - 1];
        let d = item.depth;
        let got = if r.added.contains_key(d) {
            r.added[d]
        } else {
            zero()
        };
        let span = span2_at::<S, R>(st, item.id, "Size"@, across);
        let filled = count < items.len() && items[count as int].depth > d;
        let at = near(item.rect, across);
        let pad = padding::<S, R>(st, item.id);
        let below = (d + 1) as usize;
        if span.scale.equal(zero()) {
            Reach {
                edge: r.edge.larger(at.sum(length(item.rect, across)).sum(got)),
                added: r.added.insert(below, got),
            }
        } else if d == top && span.scale.less(one()) && (listed || !filled) {
            let share = match base {
                Some(b) => b.product(span.scale).sum(span.offset),
                None => span.offset,
            };
            Reach {
                edge: r.edge.larger(at.sum(share).sum(got)),
                added: r.added.insert(below, got),
            }
        } else {
            Reach {
                added: r.added.insert(
                    below,
                    got.sum(
                        if across {
                            pad.right
                        } else {
                            pad.bottom
                        },
                    ),
                ),
                ..r
            }
        }
    }
}

/// The far edge of the content along one axis. Shares are of what is on offer in a list, and
/// otherwise of what the content without shares takes.
pub open spec fn far_edge<S: Scalar, R>(
    st: Stage<R>,
    items: Seq<SolvedItem<S>>,
    own: Box2<S>,
    offered: Box2<S>,
    across: bool,
    listed: bool,
) -> S {
    let base = if listed {
        length(offered, across)
    } else {
        let fixed = reach(st, items, items.len(), None, across, listed).edge;
        if fixed.equal(S::bottom()) {
            zero()
        } else {
            fixed.difference(near(own, across)).larger(zero())
        }
    };
    reach(st, items, items.len(), Some(base), across, listed).edge
}

/// A length grown so that the content fits.
pub open spec fn fitted<S: Scalar>(was: S, edge: S, from: S, before: S, after: S) -> S {
    if edge.equal(S::bottom()) {
        was
    } else {
        was.larger(edge.difference(from).sum(before).sum(after))
    }
}

/// The room that the text of an element takes.
pub open spec fn text_extent<S: Scalar, R: Ruler<S>>(
    st: Stage<R>,
    id: usize,
    width: S,
    offered: Box2<S>,
) -> Option<(S, S)> {
    let pad = padding::<S, R>(st, id);
    let text = match text_for(st, id, class_at(st, id)) {
        Some(t) => t,
        None => Seq::empty(),
    };
    let size = match number_at::<S, R>(st, id, "TextSize"@) {
        Some(n) => n,
        None => S::of_int(14),
    };
    let room = if zero::<S>().less(width) {
        width.difference(pad.left).difference(pad.right).larger(zero())
    } else if zero::<S>().less(offered.w) {
        offered.w.difference(pad.left).difference(pad.right).larger(zero())
    } else {
        zero()
    };
    if bool_at(st, id, "TextWrapped"@) == Some(true) && zero::<S>().less(room) {
        st.ruler.extent(text_holding(text), size, Some(room))
    } else {
        st.ruler.extent(text_holding(text), size, None)
    }
}

/// The box of an element, grown along the axes that it grows along to what is in it.
pub open spec fn filled<S: Scalar, R>(
    st: Stage<R>,
    id: usize,
    rect: Box2<S>,
    items: Seq<SolvedItem<S>>,
    own: Box2<S>,
    offered: Box2<S>,
) -> Box2<S> {
    let axes = grows_by(st, id, "AutomaticSize"@);
    let pad = padding::<S, R>(st, id);
    let listed = modifier(st, id, "UIListLayout"@) is Some;
    Box2 {
        w: if axes.x {
            fitted(
                rect.w,
                far_edge(st, items, own, offered, true, listed),
                own.x,
                pad.left,
                pad.right,
            )
        } else {
            rect.w
        },
        h: if axes.y {
            fitted(
                rect.h,
                far_edge(st, items, own, offered, false, listed),
                own.y,
                pad.top,
                pad.bottom,
            )
        } else {
            rect.h
        },
        ..rect
    }
}

/// The text of an element that grows, measured in the box that it has by then.
pub open spec fn told_extent<S: Scalar, R: Ruler<S>>(
    st: Stage<R>,
    id: usize,
    width: S,
    offered: Box2<S>,
) -> Option<(S, S)> {
    if draws_text(class_at(st, id)) {
        text_extent(st, id, width, offered)
    } else {
        None
    }
}

/// The box of an element, grown along the axes that it grows along to what is in it and to its
/// text. It never shrinks.
pub open spec fn grown<S: Scalar, R: Ruler<S>>(
    st: Stage<R>,
    id: usize,
    rect: Box2<S>,
    items: Seq<SolvedItem<S>>,
    own: Box2<S>,
    offered: Box2<S>,
) -> Box2<S> {
    let axes = grows_by(st, id, "AutomaticSize"@);
    let pad = padding::<S, R>(st, id);
    let full = filled(st, id, rect, items, own, offered);
    if axes.x || axes.y {
        match told_extent(st, id, full.w, offered) {
            Some((tw, th)) => Box2 {
                w: if axes.x {
                    full.w.larger(tw.sum(pad.left).sum(pad.right))
                } else {
                    full.w
                },
                h: if axes.y {
                    full.h.larger(th.sum(pad.top).sum(pad.bottom))
                } else {
                    full.h
                },
                ..rect
            },
            None => full,
        }
    } else {
        full
    }
}

/// The axes that an element was to grow along and along which nothing could be measured.
pub open spec fn stuck_along<S: Scalar, R: Ruler<S>>(
    st: Stage<R>,
    id: usize,
    rect: Box2<S>,
    items: Seq<SolvedItem<S>>,
    own: Box2<S>,
    offered: Box2<S>,
) -> Pair<bool> {
    let axes = grows_by(st, id, "AutomaticSize"@);
    let listed = modifier(st, id, "UIListLayout"@) is Some;
    let full = filled(st, id, rect, items, own, offered);
    let told = told_extent(st, id, full.w, offered) is Some;
    Pair {
        x: axes.x && !told && far_edge(st, items, own, offered, true, listed).equal(S::bottom()),
        y: axes.y && !told && far_edge(st, items, own, offered, false, listed).equal(S::bottom()),
    }
}

impl<'a, R> Layout<'a, R> {
    /// The axes that an element grows along.
    pub fn growth(&self, id: usize, key: &str) -> (r: Pair<bool>)
        requires
            self.ok(),
        ensures
            r == grows_by(self@, id, key@),
    {
        if self.item(id, key, "AutomaticSize", "X") {
            Pair { x: true, y: false }
        } else if self.item(id, key, "AutomaticSize", "Y") {
            Pair { x: false, y: true }
        } else if self.item(id, key, "AutomaticSize", "XY") {
            Pair { x: true, y: true }
        } else {
            Pair { x: false, y: false }
        }
    }

    fn sweep<S: Scalar>(
        &self,
        items: &Vec<SolvedItem<S>>,
        base: Option<S>,
        across: bool,
        listed: bool,
    ) -> (r: S)
        requires
            self.ok(),
            forall|i: int| 0 <= i < items@.len() ==> (#[trigger] items@[i]).depth < usize::MAX,
        ensures
            r == reach(self@, items@, items@.len(), base, across, listed).edge,
    {
        let mut edge = S::lowest();
        let mut added: Numbered<S> = Numbered::new();
        let top: usize = if items.len() > 0 {
            items[0].depth
        } else {
            0
        };
        added.insert(top, S::from_int(0));
        let mut k: usize = 0;
        while k < items.len()
            invariant
                self.ok(),
                forall|i: int| 0 <= i < items@.len() ==> (#[trigger] items@[i]).depth < usize::MAX,
                top == (if items@.len() > 0 {
                    items@[0].depth
                } else {
                    0
                }),
                k <= items.len(),
                edge == reach(self@, items@, k as nat, base, across, listed).edge,
                added@ == reach(self@, items@, k as nat, base, across, listed).added,
            decreases items.len() - k,
        {
            let item = items[k];
            let d: usize = item.depth;
            assert(items@[k as int].depth < usize::MAX);
            let got = match added.get(d) {
                Some(x) => x,
                None => S::from_int(0),
            };
            let span = self.span2::<S>(item.id, "Size", across);
            let filled = k + 1 < items.len() && items[k + 1].depth > d;
            let at = if across {
                item.rect.x
            } else {
                item.rect.y
            };
            if span.scale.same(S::from_int(0)) {
                let extent = if across {
                    item.rect.w
                } else {
                    item.rect.h
                };
                edge = edge.most(at.plus(extent).plus(got));
                added.insert(d + 1, got);
            } else if d == top && span.scale.below(S::from_int(1)) && (listed || !filled) {
                let share = match base {
                    Some(b) => b.times(span.scale).plus(span.offset),
                    None => span.offset,
                };
                edge = edge.most(at.plus(share).plus(got));
                added.insert(d + 1, got);
            } else {
                let pad = self.padding_of::<S>(item.id);
                added.insert(
                    d + 1,
                    got.plus(
                        if across {
                            pad.right
                        } else {
                            pad.bottom
                        },
                    ),
                );
            }
            k += 1;
        }
        edge
    }

    fn edge_of<S: Scalar>(
        &self,
        items: &Vec<SolvedItem<S>>,
        own: Box2<S>,
        offered: Box2<S>,
        across: bool,
        listed: bool,
    ) -> (r: S)
        requires
            self.ok(),
            forall|i: int| 0 <= i < items@.len() ==> (#[trigger] items@[i]).depth < usize::MAX,
        ensures
            r == far_edge(self@, items@, own, offered, across, listed),
    {
        let base = if listed {
            if across {
                offered.w
            } else {
                offered.h
            }
        } else {
            let fixed = self.sweep(items, None, across, listed);
            if fixed.same(S::lowest()) {
                S::from_int(0)
            } else {
                fixed.minus(
                    if across {
                        own.x
                    } else {
                        own.y
                    },
                ).most(S::from_int(0))
            }
        };
        self.sweep(items, Some(base), across, listed)
    }

    fn measure_text<S: Scalar>(&self, id: usize, width: S, offered: Box2<S>) -> (r: Option<(S, S)>)
        where R: Ruler<S>
        requires
            self.ok(),
        ensures
            r == text_extent(self@, id, width, offered),
    {
        let pad = self.padding_of::<S>(id);
        let text = match self.text_of(id, self.class(id).as_str()) {
            Some(t) => t,
            None => {
                let t = String::new();
                assert(t@ =~= Seq::empty());
                t
            },
        };
        let size = match self.number::<S>(id, "TextSize") {
            Some(n) => n,
            None => S::from_int(14),
        };
        let nothing = S::from_int(0);
        let room = if nothing.below(width) {
            width.minus(pad.left).minus(pad.right).most(nothing)
        } else if nothing.below(offered.w) {
            offered.w.minus(pad.left).minus(pad.right).most(nothing)
        } else {
            nothing
        };
        if self.is_set(id, "TextWrapped", true) && nothing.below(room) {
            self.ruler.measure(text.as_str(), size, Some(room))
        } else {
            self.ruler.measure(text.as_str(), size, None)
        }
    }

    fn grow<S: Scalar>(
        &self,
        id: usize,
        rect: Box2<S>,
        items: &Vec<SolvedItem<S>>,
        own: Box2<S>,
        offered: Box2<S>,
    ) -> (r: (Box2<S>, Pair<bool>))
        where R: Ruler<S>
        requires
            self.ok(),
            forall|i: int| 0 <= i < items@.len() ==> (#[trigger] items@[i]).depth < usize::MAX,
        ensures
            r.0 == grown(self@, id, rect, items@, own, offered),
            r.1 == stuck_along(self@, id, rect, items@, own, offered),
    {
        let axes = self.growth(id, "AutomaticSize");
        if !axes.x && !axes.y {
            return (rect, Pair { x: false, y: false });
        }
        let pad = self.padding_of::<S>(id);
        let listed = self.modifier_of(id, "UIListLayout").is_some();
        let mut w = rect.w;
        let mut h = rect.h;
        let mut stuck = Pair { x: false, y: false };
        if axes.x {
            let edge = self.edge_of(items, own, offered, true, listed);
            w = fit(rect.w, edge, own.x, pad.left, pad.right);
            stuck = Pair { x: edge.same(S::lowest()), y: false };
        }
        if axes.y {
            let edge = self.edge_of(items, own, offered, false, listed);
            h = fit(rect.h, edge, own.y, pad.top, pad.bottom);
            stuck = Pair { x: stuck.x, y: edge.same(S::lowest()) };
        }
        if is_text_class(self.class(id).as_str()) {
            if let Some((tw, th)) = self.measure_text(id, w, offered) {
                let full = Box2 {
                    x: rect.x,
                    y: rect.y,
                    w: if axes.x {
                        w.most(tw.plus(pad.left).plus(pad.right))
                    } else {
                        w
                    },
                    h: if axes.y {
                        h.most(th.plus(pad.top).plus(pad.bottom))
                    } else {
                        h
                    },
                };
                return (full, Pair { x: false, y: false });
            }
        }
        (Box2 { x: rect.x, y: rect.y, w, h }, stuck)
    }
}

fn fit<S: Scalar>(was: S, edge: S, from: S, before: S, after: S) -> (r: S)
    ensures
        r == fitted(was, edge, from, before, after),
{
    if edge.same(S::lowest()) {
        was
    } else {
        was.most(edge.minus(from).plus(before).plus(after))
    }
}

// ---- placing ----

/// Which end of the cross axis a list gathers its children at.
#[derive(Clone, Copy, Debug, PartialEq, Eq, Structural)]
pub enum CrossAlign {
    Start,
    Center,
    End,
}

/// The alignment that a list asks for. The property and its enumeration have the same name.
pub open spec fn alignment<R>(st: Stage<R>, layout: usize, key: Seq<char>) -> CrossAlign {
    if item_at(st, layout, key, key, "Center"@) {
        CrossAlign::Center
    } else if item_at(st, layout, key, key, "Right"@) || item_at(st, layout, key, key, "Bottom"@) {
        CrossAlign::End
    } else {
        CrossAlign::Start
    }
}

/// How far an element at `at` has to move along the cross axis.
pub open spec fn cross_shift<S: Scalar>(align: CrossAlign, start: S, room: S, at: S, len: S) -> S {
    let target = match align {
        CrossAlign::Start => start,
        CrossAlign::Center => start.sum(room.difference(len).quotient(S::of_int(2))),
        CrossAlign::End => start.sum(room).difference(len),
    };
    target.difference(at)
}

/// What a list does with its children.
pub struct Flow<S> {
    pub across: bool,
    pub gap: S,
    pub align: CrossAlign,
}

pub open spec fn flow_of<S: Scalar, R>(st: Stage<R>, layout: usize) -> Flow<S> {
    let across = item_at(st, layout, "FillDirection"@, "FillDirection"@, "Horizontal"@);
    Flow {
        across,
        gap: span_at::<S, R>(st, layout, "Padding"@).offset,
        align: if across {
            alignment(st, layout, "VerticalAlignment"@)
        } else {
            alignment(st, layout, "HorizontalAlignment"@)
        },
    }
}

/// Is a child laid out at all?
pub open spec fn is_laid_out<R>(st: Stage<R>) -> spec_fn(usize) -> bool {
    |c: usize| st.dom.alive(c) && !is_modifier(st.dom.node(c).class)
}

pub open spec fn laid_out_kids<R>(st: Stage<R>, id: usize) -> Seq<usize> {
    st.dom.kids(id).filter(is_laid_out(st))
}

/// The order that a child asks for in a list.
pub open spec fn layout_order<S: Scalar, R>(st: Stage<R>, c: usize) -> i32 {
    match number_at::<S, R>(st, c, "LayoutOrder"@) {
        Some(n) => n.whole(),
        None => zero::<S>().whole(),
    }
}

/// The children of a list, in the order that they ask for.
pub open spec fn ordered_kids<S: Scalar, R>(st: Stage<R>, id: usize) -> Seq<usize> {
    ranked(
        laid_out_kids(st, id).map_values(|c: usize| (layout_order::<S, R>(st, c), c)),
    ).map_values(|x: (i32, usize)| x.1)
}

/// Elements moved back by so much.
pub open spec fn moved_back<S: Scalar>(
    items: Seq<SolvedItem<S>>,
    dx: S,
    dy: S,
) -> Seq<SolvedItem<S>> {
    items.map_values(
        |i: SolvedItem<S>|
            SolvedItem {
                rect: Box2 { x: i.rect.x.difference(dx), y: i.rect.y.difference(dy), ..i.rect },
                ..i
            },
    )
}

/// Elements of a list moved along the cross axis.
pub open spec fn moved_over<S: Scalar>(
    items: Seq<SolvedItem<S>>,
    across: bool,
    by: S,
) -> Seq<SolvedItem<S>> {
    items.map_values(
        |i: SolvedItem<S>|
            SolvedItem {
                rect: if across {
                    Box2 { y: i.rect.y.sum(by), ..i.rect }
                } else {
                    Box2 { x: i.rect.x.sum(by), ..i.rect }
                },
                ..i
            },
    )
}

/// Is one of the elements sized by a share, on an axis that changed?
pub open spec fn depends<S: Scalar, R>(
    st: Stage<R>,
    items: Seq<SolvedItem<S>>,
    x: bool,
    y: bool,
) -> bool {
    exists|i: int| 0 <= i < items.len() && #[trigger] shares(st, items[i], x, y)
}

/// Is an element sized by a share, on an axis that changed?
pub open spec fn shares<S: Scalar, R>(
    st: Stage<R>,
    item: SolvedItem<S>,
    x: bool,
    y: bool,
) -> bool {
    ||| x && !span2_at::<S, R>(st, item.id, "Size"@, true).scale.equal(zero())
    ||| y && !span2_at::<S, R>(st, item.id, "Size"@, false).scale.equal(zero())
}

/// The far edge of the elements of one depth along one axis.
pub open spec fn outer_edge<S: Scalar>(
    items: Seq<SolvedItem<S>>,
    count: nat,
    depth: nat,
    across: bool,
) -> S
    decreases count,
{
    if count == 0 {
        S::bottom()
    } else {
        let before = outer_edge(items, (count - 1) as nat, depth, across);
        let item = items[count - 1];
        if item.depth == depth {
            before.larger(near(item.rect, across).sum(length(item.rect, across)))
        } else {
            before
        }
    }
}

/// What a scrolling element scrolls over.
pub open spec fn canvas<S: Scalar, R>(st: Stage<R>, id: usize, own: Box2<S>) -> Pair<S> {
    Pair {
        x: resolved(span2_at(st, id, "CanvasSize"@, true), own.w).larger(zero()),
        y: resolved(span2_at(st, id, "CanvasSize"@, false), own.h).larger(zero()),
    }
}

/// The extent that a canvas needs along one axis for what is on it, or its own where that is
/// enough.
pub open spec fn canvas_along<S: Scalar>(has: S, grows: bool, edge: S, from: S, after: S) -> S {
    let needs = edge.difference(from).sum(after);
    if grows && !edge.equal(S::bottom()) && has.less(needs) {
        needs
    } else {
        has
    }
}

/// Does a canvas have to grow along one axis?
pub open spec fn canvas_grows<S: Scalar>(has: S, grows: bool, edge: S, from: S, after: S) -> bool {
    grows && !edge.equal(S::bottom()) && has.less(edge.difference(from).sum(after))
}

pub open spec fn entry_of<S: Scalar, R>(
    st: Stage<R>,
    id: usize,
    rect: Box2<S>,
    clip: Clip<S>,
    depth: nat,
    stuck: Pair<bool>,
) -> SolvedItem<S> {
    SolvedItem {
        id,
        rect,
        clip: clip.area,
        clip_radius: clip.radius,
        depth: depth as usize,
        z_index: match number_at::<S, R>(st, id, "ZIndex"@) {
            Some(n) => n.whole(),
            None => one::<S>().whole(),
        },
        stuck,
    }
}

/// How far a canvas is scrolled, within what there is to scroll.
pub open spec fn scrolled<S: Scalar, R>(
    st: Stage<R>,
    id: usize,
    canvas: Pair<S>,
    window: Box2<S>,
) -> Pair<S> {
    let at = pair_at::<S, R>(st, id, "CanvasPosition"@);
    Pair {
        x: between(at.x, zero(), canvas.x.difference(window.w).larger(zero())),
        y: between(at.y, zero(), canvas.y.difference(window.h).larger(zero())),
    }
}

/// The box on offer on a canvas.
pub open spec fn canvas_box<S>(own: Box2<S>, canvas: Pair<S>) -> Box2<S> {
    Box2 { w: canvas.x, h: canvas.y, ..own }
}

/// What is on a canvas, and how large it is.
pub struct Spread<S> {
    pub items: Seq<SolvedItem<S>>,
    pub canvas: Pair<S>,
}

/// An element and everything under it, each element before what is in it: `depth` is how far
/// under the root it is, which is never more than there are instances.
pub open spec fn visited<S: Scalar, R: Ruler<S>>(
    st: Stage<R>,
    id: usize,
    parent: Box2<S>,
    clip: Clip<S>,
    depth: nat,
    laid_out: bool,
    offered: Box2<S>,
) -> Seq<SolvedItem<S>>
    decreases (st.dom.slots.len() + 1 - depth) as nat, 3nat, 0nat,
{
    if depth > st.dom.slots.len() || bool_at(st, id, "Visible"@) == Some(false) {
        Seq::empty()
    } else {
        let rect = solved_rect(st, id, parent, laid_out);
        let inner = inner_clip(st, id, rect, clip);
        let own = content(st, id, rect);
        let spread = spread_in(st, id, own, inner, depth);
        let full = grown(st, id, rect, spread.items, own, offered);
        let stuck = stuck_along(st, id, rect, spread.items, own, offered);
        let wider = rect.w.less(full.w);
        let higher = rect.h.less(full.h);
        // Growth moves the element by its anchor, and what is in it with it.
        let anchor = pair_at::<S, R>(st, id, "AnchorPoint"@);
        let dx = if wider {
            full.w.difference(rect.w).product(anchor.x)
        } else {
            zero()
        };
        let dy = if higher {
            full.h.difference(rect.h).product(anchor.y)
        } else {
            zero()
        };
        let shifts = (wider || higher) && (!dx.equal(zero()) || !dy.equal(zero()));
        let last = if shifts {
            Box2 { x: full.x.difference(dx), y: full.y.difference(dy), ..full }
        } else {
            full
        };
        let anchored = if shifts {
            moved_back(spread.items, dx, dy)
        } else {
            spread.items
        };
        // What takes a share of an axis that grew is placed again.
        let items = if (wider || higher) && depends(st, anchored, wider, higher) {
            placed_in(st, id, content(st, id, last), inner, depth)
        } else {
            anchored
        };
        seq![entry_of(st, id, last, clip, depth, stuck)] + unscrolled(
            st,
            id,
            items,
            spread.canvas,
            content(st, id, last),
        )
    }
}

/// What is in a scrolling element, moved by how far it is scrolled.
pub open spec fn unscrolled<S: Scalar, R>(
    st: Stage<R>,
    id: usize,
    items: Seq<SolvedItem<S>>,
    canvas: Pair<S>,
    window: Box2<S>,
) -> Seq<SolvedItem<S>> {
    if scrolls(st, id) {
        let by = scrolled(st, id, canvas, window);
        if by.x.equal(zero()) && by.y.equal(zero()) {
            items
        } else {
            moved_back(items, by.x, by.y)
        }
    } else {
        items
    }
}

/// What is in an element before it has grown: on its canvas, where it scrolls, or else in its
/// content box. A canvas that grows to fit may have what takes a share of it placed again.
pub open spec fn spread_in<S: Scalar, R: Ruler<S>>(
    st: Stage<R>,
    id: usize,
    own: Box2<S>,
    inner: Clip<S>,
    depth: nat,
) -> Spread<S>
    decreases (st.dom.slots.len() + 1 - depth) as nat, 2nat, 0nat,
{
    if scrolls(st, id) {
        let has = canvas::<S, R>(st, id, own);
        let first = placed_in(st, id, canvas_box(own, has), inner, depth);
        let axes = grows_by(st, id, "AutomaticCanvasSize"@);
        let pad = padding::<S, R>(st, id);
        let right = outer_edge(first, first.len(), depth + 1, true);
        let bottom = outer_edge(first, first.len(), depth + 1, false);
        let needs = Pair {
            x: canvas_along(has.x, axes.x, right, own.x, pad.right),
            y: canvas_along(has.y, axes.y, bottom, own.y, pad.bottom),
        };
        let wider = canvas_grows(has.x, axes.x, right, own.x, pad.right);
        let higher = canvas_grows(has.y, axes.y, bottom, own.y, pad.bottom);
        Spread {
            items: if (wider || higher) && depends(st, first, wider, higher) {
                placed_in(st, id, canvas_box(own, needs), inner, depth)
            } else {
                first
            },
            canvas: needs,
        }
    } else {
        Spread {
            items: placed_in(st, id, own, inner, depth),
            canvas: Pair { x: zero(), y: zero() },
        }
    }
}

/// The children of an element in the box that it offers: one after the other in a list, and each
/// for itself otherwise.
pub open spec fn placed_in<S: Scalar, R: Ruler<S>>(
    st: Stage<R>,
    id: usize,
    room: Box2<S>,
    inner: Clip<S>,
    depth: nat,
) -> Seq<SolvedItem<S>>
    decreases (st.dom.slots.len() + 1 - depth) as nat, 1nat, 0nat,
{
    match modifier(st, id, "UIListLayout"@) {
        Some(layout) => listed_in(
            st,
            ordered_kids::<S, R>(st, id),
            flow_of::<S, R>(st, layout),
            room,
            inner,
            depth,
            zero(),
        ),
        None => each_in(st, laid_out_kids(st, id), room, inner, depth),
    }
}

/// Children each for itself.
pub open spec fn each_in<S: Scalar, R: Ruler<S>>(
    st: Stage<R>,
    kids: Seq<usize>,
    room: Box2<S>,
    inner: Clip<S>,
    depth: nat,
) -> Seq<SolvedItem<S>>
    decreases (st.dom.slots.len() + 1 - depth) as nat, 0nat, kids.len(),
{
    if kids.len() == 0 || depth > st.dom.slots.len() {
        Seq::empty()
    } else {
        visited(st, kids[0], room, inner, depth + 1, false, room) + each_in(
            st,
            kids.skip(1),
            room,
            inner,
            depth,
        )
    }
}

/// The slot of a child in a list.
pub open spec fn slot<S: Scalar>(room: Box2<S>, across: bool, cursor: S) -> Box2<S> {
    if across {
        Box2 { x: room.x.sum(cursor), ..room }
    } else {
        Box2 { y: room.y.sum(cursor), ..room }
    }
}

/// A child of a list, moved along the cross axis once it knows its own extent.
pub open spec fn aligned<S: Scalar>(
    items: Seq<SolvedItem<S>>,
    flow: Flow<S>,
    room: Box2<S>,
) -> Seq<SolvedItem<S>> {
    let rect = items[0].rect;
    let by = cross_shift(
        flow.align,
        near(room, !flow.across),
        length(room, !flow.across),
        near(rect, !flow.across),
        length(rect, !flow.across),
    );
    if by.equal(zero()) {
        items
    } else {
        moved_over(items, flow.across, by)
    }
}

/// Children one after the other, from a place on. One that is not visible takes no room.
pub open spec fn listed_in<S: Scalar, R: Ruler<S>>(
    st: Stage<R>,
    kids: Seq<usize>,
    flow: Flow<S>,
    room: Box2<S>,
    inner: Clip<S>,
    depth: nat,
    cursor: S,
) -> Seq<SolvedItem<S>>
    decreases (st.dom.slots.len() + 1 - depth) as nat, 0nat, kids.len(),
{
    if kids.len() == 0 || depth > st.dom.slots.len() {
        Seq::empty()
    } else {
        let items = visited(
            st,
            kids[0],
            slot(room, flow.across, cursor),
            inner,
            depth + 1,
            true,
            room,
        );
        if items.len() == 0 {
            listed_in(st, kids.skip(1), flow, room, inner, depth, cursor)
        } else {
            let there = aligned(items, flow, room);
            let next = cursor.sum(length(there[0].rect, flow.across).sum(flow.gap));
            there + listed_in(st, kids.skip(1), flow, room, inner, depth, next)
        }
    }
}

/// Everything under a root, laid out on a surface.
pub open spec fn solution<S: Scalar, R: Ruler<S>>(
    st: Stage<R>,
    root: usize,
    surface: Box2<S>,
) -> Seq<SolvedItem<S>> {
    placed_in(
        st,
        root,
        content(st, root, surface),
        Clip { area: None, radius: zero() },
        0,
    )
}

// ---- the solver ----

/// Are all elements less deep than there are instances?
spec fn shallow<S>(items: Seq<SolvedItem<S>>, bound: nat) -> bool {
    forall|i: int| 0 <= i < items.len() ==> (#[trigger] items[i]).depth < bound
}

fn move_back<S: Scalar>(items: &mut Vec<SolvedItem<S>>, dx: S, dy: S)
    ensures
        final(items)@ == moved_back(old(items)@, dx, dy),
{
    let ghost was = items@;
    let mut i: usize = 0;
    while i < items.len()
        invariant
            i <= items.len(),
            items@.len() == was.len(),
            forall|j: int| 0 <= j < i ==> #[trigger] items@[j] == moved_back(was, dx, dy)[j],
            forall|j: int| i <= j < was.len() ==> #[trigger] items@[j] == was[j],
        decreases items.len() - i,
    {
        let item = items[i];
        items[i] = SolvedItem {
            rect: Box2 {
                x: item.rect.x.minus(dx),
                y: item.rect.y.minus(dy),
                w: item.rect.w,
                h: item.rect.h,
            },
            ..item
        };
        i += 1;
    }
    assert(items@ =~= moved_back(was, dx, dy));
}

fn move_over<S: Scalar>(items: &mut Vec<SolvedItem<S>>, across: bool, by: S)
    ensures
        final(items)@ == moved_over(old(items)@, across, by),
{
    let ghost was = items@;
    let mut i: usize = 0;
    while i < items.len()
        invariant
            i <= items.len(),
            items@.len() == was.len(),
            forall|j: int| 0 <= j < i ==> #[trigger] items@[j] == moved_over(was, across, by)[j],
            forall|j: int| i <= j < was.len() ==> #[trigger] items@[j] == was[j],
        decreases items.len() - i,
    {
        let item = items[i];
        let rect = item.rect;
        items[i] = SolvedItem {
            rect: if across {
                Box2 { x: rect.x, y: rect.y.plus(by), w: rect.w, h: rect.h }
            } else {
                Box2 { x: rect.x.plus(by), y: rect.y, w: rect.w, h: rect.h }
            },
            ..item
        };
        i += 1;
    }
    assert(items@ =~= moved_over(was, across, by));
}

fn far<S: Scalar>(items: &Vec<SolvedItem<S>>, depth: usize, across: bool) -> (r: S)
    ensures
        r == outer_edge(items@, items@.len(), depth as nat, across),
{
    let mut edge = S::lowest();
    let mut k: usize = 0;
    while k < items.len()
        invariant
            k <= items.len(),
            edge == outer_edge(items@, k as nat, depth as nat, across),
        decreases items.len() - k,
    {
        let item = items[k];
        if item.depth == depth {
            edge = if across {
                edge.most(item.rect.x.plus(item.rect.w))
            } else {
                edge.most(item.rect.y.plus(item.rect.h))
            };
        }
        k += 1;
    }
    edge
}

fn align_by<S: Scalar>(align: CrossAlign, start: S, room: S, at: S, len: S) -> (r: S)
    ensures
        r == cross_shift(align, start, room, at, len),
{
    let target = match align {
        CrossAlign::Start => start,
        CrossAlign::Center => start.plus(room.minus(len).over(S::from_int(2))),
        CrossAlign::End => start.plus(room).minus(len),
    };
    target.minus(at)
}

fn along<S: Scalar>(has: S, grows: bool, edge: S, from: S, after: S) -> (r: (S, bool))
    ensures
        r.0 == canvas_along(has, grows, edge, from, after),
        r.1 == canvas_grows(has, grows, edge, from, after),
{
    if grows && !edge.same(S::lowest()) {
        let needs = edge.minus(from).plus(after);
        if has.below(needs) {
            return (needs, true);
        }
    }
    (has, false)
}

impl<'a, R> Layout<'a, R> {
    fn any_depends<S: Scalar>(&self, items: &Vec<SolvedItem<S>>, x: bool, y: bool) -> (r: bool)
        requires
            self.ok(),
        ensures
            r == depends(self@, items@, x, y),
    {
        let mut i: usize = 0;
        while i < items.len()
            invariant
                self.ok(),
                i <= items.len(),
                forall|j: int| 0 <= j < i ==> !#[trigger] shares(self@, items@[j], x, y),
            decreases items.len() - i,
        {
            let sx = self.span2::<S>(items[i].id, "Size", true);
            let sy = self.span2::<S>(items[i].id, "Size", false);
            if (x && !sx.scale.same(S::from_int(0))) || (y && !sy.scale.same(S::from_int(0))) {
                assert(shares(self@, items@[i as int], x, y));
                return true;
            }
            i += 1;
        }
        false
    }

    fn alignment_of(&self, layout: usize, key: &str) -> (r: CrossAlign)
        requires
            self.ok(),
        ensures
            r == alignment(self@, layout, key@),
    {
        if self.item(layout, key, key, "Center") {
            CrossAlign::Center
        } else if self.item(layout, key, key, "Right") || self.item(layout, key, key, "Bottom") {
            CrossAlign::End
        } else {
            CrossAlign::Start
        }
    }

    fn flow<S: Scalar>(&self, layout: usize) -> (r: Flow<S>)
        requires
            self.ok(),
        ensures
            r == flow_of::<S, R>(self@, layout),
    {
        let across = self.item(layout, "FillDirection", "FillDirection", "Horizontal");
        let gap = self.span::<S>(layout, "Padding");
        Flow {
            across,
            gap: gap.offset,
            align: if across {
                self.alignment_of(layout, "VerticalAlignment")
            } else {
                self.alignment_of(layout, "HorizontalAlignment")
            },
        }
    }

    pub(crate) fn real_kids(&self, id: usize) -> (r: Vec<usize>)
        requires
            self.ok(),
        ensures
            r@ == laid_out_kids(self@, id),
    {
        let kids = self.dom.children(id);
        let ghost wanted = is_laid_out(self@);
        let mut r: Vec<usize> = Vec::new();
        let mut i: usize = 0;
        proof {
            reveal(Seq::filter);
            assert(kids@.take(0) =~= Seq::empty());
        }
        while i < kids.len()
            invariant
                self.ok(),
                i <= kids.len(),
                wanted == is_laid_out(self@),
                r@ == kids@.take(i as int).filter(wanted),
            decreases kids.len() - i,
        {
            proof {
                reveal(Seq::filter);
                assert(kids@.take(i + 1).drop_last() =~= kids@.take(i as int));
            }
            if let Some(class) = self.dom.class_of(kids[i]) {
                if !starts(class.as_str(), "UI") {
                    r.push(kids[i]);
                }
            }
            i += 1;
        }
        assert(kids@.take(i as int) =~= kids@);
        r
    }

    fn kids_in_order<S: Scalar>(&self, id: usize) -> (r: Vec<usize>)
        requires
            self.ok(),
        ensures
            r@ == ordered_kids::<S, R>(self@, id),
    {
        let kids = self.real_kids(id);
        let ghost keyed = kids@.map_values(|c: usize| (layout_order::<S, R>(self@, c), c));
        let mut rows: Vec<(i32, usize)> = Vec::new();
        let mut i: usize = 0;
        assert(keyed.take(0) =~= Seq::empty());
        while i < kids.len()
            invariant
                self.ok(),
                i <= kids.len(),
                keyed == kids@.map_values(|c: usize| (layout_order::<S, R>(self@, c), c)),
                rows@ == ranked(keyed.take(i as int)),
            decreases kids.len() - i,
        {
            let order: i32 = match self.number::<S>(kids[i], "LayoutOrder") {
                Some(n) => n.to_i32(),
                None => S::from_int(0).to_i32(),
            };
            proof {
                assert(keyed.take(i + 1).drop_last() =~= keyed.take(i as int));
                assert(keyed.take(i + 1).last() == (order, kids@[i as int]));
            }
            rank_in(&mut rows, order, kids[i]);
            i += 1;
        }
        assert(keyed.take(i as int) =~= keyed);
        let mut r: Vec<usize> = Vec::new();
        let mut k: usize = 0;
        while k < rows.len()
            invariant
                k <= rows.len(),
                r@.len() == k,
                forall|j: int| 0 <= j < k ==> #[trigger] r@[j] == rows@[j].1,
            decreases rows.len() - k,
        {
            r.push(rows[k].1);
            k += 1;
        }
        assert(r@ =~= ordered_kids::<S, R>(self@, id));
        r
    }

    fn visit<S: Scalar>(
        &self,
        id: usize,
        parent: Box2<S>,
        clip: Clip<S>,
        depth: usize,
        laid_out: bool,
        offered: Box2<S>,
    ) -> (r: Vec<SolvedItem<S>>)
        where R: Ruler<S>
        requires
            self.ok(),
            self@.dom.slots.len() <= usize::MAX,
            self@.dom.alive(id),
            depth <= self@.dom.ancestors(id).len(),
        ensures
            r@ == visited(self@, id, parent, clip, depth as nat, laid_out, offered),
            shallow(r@, self@.dom.slots.len()),
        decreases self@.dom.slots.len() + 1 - depth, 3nat,
    {
        proof {
            ancestors_bounded(self@.dom, id);
        }
        let mut out: Vec<SolvedItem<S>> = Vec::new();
        if self.is_set(id, "Visible", false) {
            assert(out@ =~= visited(self@, id, parent, clip, depth as nat, laid_out, offered));
            return out;
        }
        let nothing = S::from_int(0);
        let rect = self.solve_rect(id, parent, laid_out);
        let inner = self.child_clip(id, rect, clip);
        let own = self.content_box(id, rect);
        let (first, canvas) = self.spread(id, own, inner, depth);
        let (full, stuck) = self.grow(id, rect, &first, own, offered);
        let wider = rect.w.below(full.w);
        let higher = rect.h.below(full.h);
        let anchor = self.pair::<S>(id, "AnchorPoint");
        let dx = if wider {
            full.w.minus(rect.w).times(anchor.x)
        } else {
            nothing
        };
        let dy = if higher {
            full.h.minus(rect.h).times(anchor.y)
        } else {
            nothing
        };
        let shifts = (wider || higher) && (!dx.same(nothing) || !dy.same(nothing));
        let last = if shifts {
            Box2 { x: full.x.minus(dx), y: full.y.minus(dy), w: full.w, h: full.h }
        } else {
            full
        };
        let mut items = first;
        if shifts {
            move_back(&mut items, dx, dy);
        }
        if (wider || higher) && self.any_depends(&items, wider, higher) {
            let room = self.content_box(id, last);
            items = self.place_children(id, room, inner, depth);
        }
        if self.has_class(id, "ScrollingFrame") {
            let window = self.content_box(id, last);
            let at = self.pair::<S>(id, "CanvasPosition");
            let sx = clamp(at.x, nothing, canvas.x.minus(window.w).most(nothing));
            let sy = clamp(at.y, nothing, canvas.y.minus(window.h).most(nothing));
            if !sx.same(nothing) || !sy.same(nothing) {
                move_back(&mut items, sx, sy);
            }
        }
        let z_index: i32 = match self.number::<S>(id, "ZIndex") {
            Some(n) => n.to_i32(),
            None => S::from_int(1).to_i32(),
        };
        out.push(
            SolvedItem {
                id,
                rect: last,
                clip: clip.area,
                clip_radius: clip.radius,
                depth,
                z_index,
                stuck,
            },
        );
        let ghost under = items@;
        out.append(&mut items);
        proof {
            assert(out@ =~= seq![entry_of(self@, id, last, clip, depth as nat, stuck)] + under);
        }
        out
    }

    fn spread<S: Scalar>(&self, id: usize, own: Box2<S>, inner: Clip<S>, depth: usize) -> (r: (
        Vec<SolvedItem<S>>,
        Pair<S>,
    ))
        where R: Ruler<S>
        requires
            self.ok(),
            self@.dom.slots.len() <= usize::MAX,
            self@.dom.alive(id),
            depth <= self@.dom.ancestors(id).len(),
        ensures
            r.0@ == spread_in(self@, id, own, inner, depth as nat).items,
            r.1 == spread_in(self@, id, own, inner, depth as nat).canvas,
            shallow(r.0@, self@.dom.slots.len()),
        decreases self@.dom.slots.len() + 1 - depth, 2nat,
    {
        proof {
            ancestors_bounded(self@.dom, id);
        }
        if !self.has_class(id, "ScrollingFrame") {
            let items = self.place_children(id, own, inner, depth);
            return (items, Pair { x: S::from_int(0), y: S::from_int(0) });
        }
        let nothing = S::from_int(0);
        let cx = self.span2::<S>(id, "CanvasSize", true);
        let cy = self.span2::<S>(id, "CanvasSize", false);
        let has = Pair {
            x: resolve(cx, own.w).most(nothing),
            y: resolve(cy, own.h).most(nothing),
        };
        let first = self.place_children(
            id,
            Box2 { x: own.x, y: own.y, w: has.x, h: has.y },
            inner,
            depth,
        );
        let axes = self.growth(id, "AutomaticCanvasSize");
        let pad = self.padding_of::<S>(id);
        let right = far(&first, depth + 1, true);
        let bottom = far(&first, depth + 1, false);
        let (w, wider) = along(has.x, axes.x, right, own.x, pad.right);
        let (h, higher) = along(has.y, axes.y, bottom, own.y, pad.bottom);
        if (wider || higher) && self.any_depends(&first, wider, higher) {
            let again = self.place_children(id, Box2 { x: own.x, y: own.y, w, h }, inner, depth);
            return (again, Pair { x: w, y: h });
        }
        (first, Pair { x: w, y: h })
    }

    fn place_children<S: Scalar>(
        &self,
        id: usize,
        room: Box2<S>,
        inner: Clip<S>,
        depth: usize,
    ) -> (r: Vec<SolvedItem<S>>)
        where R: Ruler<S>
        requires
            self.ok(),
            self@.dom.slots.len() <= usize::MAX,
            depth <= self@.dom.ancestors(id).len(),
            depth <= self@.dom.slots.len(),
        ensures
            r@ == placed_in(self@, id, room, inner, depth as nat),
            shallow(r@, self@.dom.slots.len()),
        decreases self@.dom.slots.len() + 1 - depth, 1nat,
    {
        match self.modifier_of(id, "UIListLayout") {
            Some(layout) => {
                let kids = self.kids_in_order::<S>(id);
                let flow = self.flow::<S>(layout);
                proof {
                    ordered_are_kids::<S, R>(self@, id);
                }
                self.place_list(id, kids, flow, room, inner, depth)
            },
            None => {
                let kids = self.real_kids(id);
                proof {
                    laid_out_are_kids(self@, id);
                }
                self.place_each(id, kids, room, inner, depth)
            },
        }
    }

    fn place_each<S: Scalar>(
        &self,
        id: usize,
        kids: Vec<usize>,
        room: Box2<S>,
        inner: Clip<S>,
        depth: usize,
    ) -> (r: Vec<SolvedItem<S>>)
        where R: Ruler<S>
        requires
            self.ok(),
            self@.dom.slots.len() <= usize::MAX,
            depth <= self@.dom.ancestors(id).len(),
            depth <= self@.dom.slots.len(),
            forall|i: int| 0 <= i < kids@.len() ==> self@.dom.kids(id).contains(#[trigger] kids@[i]),
        ensures
            r@ == each_in(self@, kids@, room, inner, depth as nat),
            shallow(r@, self@.dom.slots.len()),
        decreases self@.dom.slots.len() + 1 - depth, 0nat,
    {
        let mut out: Vec<SolvedItem<S>> = Vec::new();
        let mut k: usize = 0;
        proof {
            assert(kids@.skip(0) =~= kids@);
            assert(out@ + each_in(self@, kids@.skip(0), room, inner, depth as nat) =~= each_in(
                self@,
                kids@,
                room,
                inner,
                depth as nat,
            ));
        }
        while k < kids.len()
            invariant
                self.ok(),
                self@.dom.slots.len() <= usize::MAX,
                depth <= self@.dom.ancestors(id).len(),
                depth <= self@.dom.slots.len(),
                forall|i: int|
                    0 <= i < kids@.len() ==> self@.dom.kids(id).contains(#[trigger] kids@[i]),
                k <= kids.len(),
                out@ + each_in(self@, kids@.skip(k as int), room, inner, depth as nat) == each_in(
                    self@,
                    kids@,
                    room,
                    inner,
                    depth as nat,
                ),
                shallow(out@, self@.dom.slots.len()),
            decreases kids.len() - k,
        {
            let child: usize = kids[k];
            proof {
                assert(self@.dom.kids(id).contains(kids@[k as int]));
                child_depth(self@.dom, id, child);
                ancestors_bounded(self@.dom, child);
            }
            let mut items = self.visit(child, room, inner, depth + 1, false, room);
            let ghost done = out@;
            let ghost more = items@;
            out.append(&mut items);
            proof {
                assert(kids@.skip(k as int)[0] == child);
                assert(kids@.skip(k as int).skip(1) =~= kids@.skip(k + 1));
                let rest = each_in(self@, kids@.skip(k + 1), room, inner, depth as nat);
                assert(out@ + rest =~= done + (more + rest));
                assert(shallow(out@, self@.dom.slots.len())) by {
                    assert forall|i: int| 0 <= i < out@.len() implies (#[trigger] out@[i]).depth
                        < self@.dom.slots.len() by {
                        if i < done.len() {
                            assert(out@[i] == done[i]);
                        } else {
                            assert(out@[i] == more[i - done.len()]);
                        }
                    }
                }
            }
            k += 1;
        }
        proof {
            assert(out@ + each_in(self@, kids@.skip(k as int), room, inner, depth as nat) =~= out@);
        }
        out
    }

    fn place_list<S: Scalar>(
        &self,
        id: usize,
        kids: Vec<usize>,
        flow: Flow<S>,
        room: Box2<S>,
        inner: Clip<S>,
        depth: usize,
    ) -> (r: Vec<SolvedItem<S>>)
        where R: Ruler<S>
        requires
            self.ok(),
            self@.dom.slots.len() <= usize::MAX,
            depth <= self@.dom.ancestors(id).len(),
            depth <= self@.dom.slots.len(),
            forall|i: int| 0 <= i < kids@.len() ==> self@.dom.kids(id).contains(#[trigger] kids@[i]),
        ensures
            r@ == listed_in(self@, kids@, flow, room, inner, depth as nat, zero()),
            shallow(r@, self@.dom.slots.len()),
        decreases self@.dom.slots.len() + 1 - depth, 0nat,
    {
        let mut out: Vec<SolvedItem<S>> = Vec::new();
        let mut cursor = S::from_int(0);
        let mut k: usize = 0;
        let ghost whole = listed_in(self@, kids@, flow, room, inner, depth as nat, zero());
        proof {
            assert(kids@.skip(0) =~= kids@);
            assert(out@ + whole =~= whole);
        }
        while k < kids.len()
            invariant
                self.ok(),
                self@.dom.slots.len() <= usize::MAX,
                depth <= self@.dom.ancestors(id).len(),
                depth <= self@.dom.slots.len(),
                forall|i: int|
                    0 <= i < kids@.len() ==> self@.dom.kids(id).contains(#[trigger] kids@[i]),
                k <= kids.len(),
                whole == listed_in(self@, kids@, flow, room, inner, depth as nat, zero()),
                out@ + listed_in(
                    self@,
                    kids@.skip(k as int),
                    flow,
                    room,
                    inner,
                    depth as nat,
                    cursor,
                ) == whole,
                shallow(out@, self@.dom.slots.len()),
            decreases kids.len() - k,
        {
            let child: usize = kids[k];
            proof {
                assert(self@.dom.kids(id).contains(kids@[k as int]));
                child_depth(self@.dom, id, child);
                ancestors_bounded(self@.dom, child);
                assert(kids@.skip(k as int)[0] == child);
                assert(kids@.skip(k as int).skip(1) =~= kids@.skip(k + 1));
            }
            let here = if flow.across {
                Box2 { x: room.x.plus(cursor), y: room.y, w: room.w, h: room.h }
            } else {
                Box2 { x: room.x, y: room.y.plus(cursor), w: room.w, h: room.h }
            };
            let mut items = self.visit(child, here, inner, depth + 1, true, room);
            if items.len() > 0 {
                let rect = items[0].rect;
                let by = if flow.across {
                    align_by(flow.align, room.y, room.h, rect.y, rect.h)
                } else {
                    align_by(flow.align, room.x, room.w, rect.x, rect.w)
                };
                if !by.same(S::from_int(0)) {
                    move_over(&mut items, flow.across, by);
                }
                let placed = items[0].rect;
                let len = if flow.across {
                    placed.w
                } else {
                    placed.h
                };
                cursor = cursor.plus(len.plus(flow.gap));
                let ghost done = out@;
                let ghost more = items@;
                out.append(&mut items);
                proof {
                    let rest = listed_in(
                        self@,
                        kids@.skip(k + 1),
                        flow,
                        room,
                        inner,
                        depth as nat,
                        cursor,
                    );
                    assert(out@ + rest =~= done + (more + rest));
                    assert(shallow(out@, self@.dom.slots.len())) by {
                        assert forall|i: int| 0 <= i < out@.len() implies (#[trigger] out@[i]).depth
                            < self@.dom.slots.len() by {
                            if i < done.len() {
                                assert(out@[i] == done[i]);
                            } else {
                                assert(out@[i] == more[i - done.len()]);
                            }
                        }
                    }
                }
            }
            k += 1;
        }
        proof {
            let rest = listed_in(
                self@,
                kids@.skip(k as int),
                flow,
                room,
                inner,
                depth as nat,
                cursor,
            );
            assert(out@ + rest =~= out@);
        }
        out
    }

    /// Lay everything under a root out on a surface. The root itself is the surface.
    pub fn solve_layout<S: Scalar>(&self, root: usize, surface: Box2<S>) -> (r: Vec<SolvedItem<S>>)
        where R: Ruler<S>
        requires
            self.ok(),
        ensures
            r@ == solution(self@, root, surface),
    {
        let _count: usize = self.dom.count();
        let room = self.content_box(root, surface);
        self.place_children(root, room, Clip { area: None, radius: S::from_int(0) }, 0)
    }
}

/// A child is one deeper than its parent.
proof fn child_depth(v: DomView, id: usize, child: usize)
    requires
        v.sound(),
        v.kids(id).contains(child),
    ensures
        v.alive(child),
        v.ancestors(child).len() == v.ancestors(id).len() + 1,
{
    let k = choose|k: int| 0 <= k < v.kids(id).len() && v.kids(id)[k] == child;
    assert(v.alive(id));
    assert(v.alive(v.kids(id)[k]) && v.parent(v.kids(id)[k]) == Some(id));
    ancestors_unfold(v, child);
}

proof fn laid_out_are_kids<R>(st: Stage<R>, id: usize)
    ensures
        forall|i: int|
            0 <= i < laid_out_kids(st, id).len() ==> st.dom.kids(id).contains(
                #[trigger] laid_out_kids(st, id)[i],
            ),
{
    let kids = laid_out_kids(st, id);
    assert forall|i: int| 0 <= i < kids.len() implies st.dom.kids(id).contains(
        #[trigger] kids[i],
    ) by {
        assert(kids.contains(kids[i]));
        st.dom.kids(id).lemma_filter_contains_rev(is_laid_out(st), kids[i]);
    }
}

/// What is ranked was in the list.
proof fn ranked_members(s: Seq<(i32, usize)>, i: int)
    requires
        0 <= i < ranked(s).len(),
    ensures
        s.contains(ranked(s)[i]),
    decreases s.len(),
{
    if s.len() > 0 {
        let rest = ranked(s.drop_last());
        ranked_in_members(rest, s.last(), i);
        if ranked(s)[i] == s.last() {
            assert(s[s.len() - 1] == ranked(s)[i]);
        } else {
            let k = choose|k: int| 0 <= k < rest.len() && rest[k] == ranked(s)[i];
            ranked_members(s.drop_last(), k);
            let m = choose|m: int| 0 <= m < s.drop_last().len() && s.drop_last()[m] == rest[k];
            assert(s[m] == ranked(s)[i]);
        }
    }
}

proof fn ranked_in_members(s: Seq<(i32, usize)>, x: (i32, usize), i: int)
    requires
        0 <= i < ranked_in(s, x).len(),
    ensures
        ranked_in(s, x)[i] == x || s.contains(ranked_in(s, x)[i]),
    decreases s.len(),
{
    if s.len() > 0 {
        if s.last().0 <= x.0 {
            if i < s.len() {
                assert(s[i] == ranked_in(s, x)[i]);
            }
        } else {
            let inner = ranked_in(s.drop_last(), x);
            if i < inner.len() {
                ranked_in_members(s.drop_last(), x, i);
                if s.drop_last().contains(inner[i]) {
                    let m = choose|m: int|
                        0 <= m < s.drop_last().len() && s.drop_last()[m] == inner[i];
                    assert(s[m] == inner[i]);
                }
            } else {
                assert(s[s.len() - 1] == ranked_in(s, x)[i]);
            }
        }
    }
}

proof fn ordered_are_kids<S: Scalar, R>(st: Stage<R>, id: usize)
    ensures
        forall|i: int|
            0 <= i < ordered_kids::<S, R>(st, id).len() ==> st.dom.kids(id).contains(
                #[trigger] ordered_kids::<S, R>(st, id)[i],
            ),
{
    let kids = laid_out_kids(st, id);
    let keyed = kids.map_values(|c: usize| (layout_order::<S, R>(st, c), c));
    let all = ordered_kids::<S, R>(st, id);
    laid_out_are_kids(st, id);
    assert forall|i: int| 0 <= i < all.len() implies st.dom.kids(id).contains(#[trigger] all[i]) by {
        ranked_members(keyed, i);
        let m = choose|m: int| 0 <= m < keyed.len() && keyed[m] == ranked(keyed)[i];
        assert(all[i] == kids[m]);
    }
}

// ---- scrolling ----

/// The canvas of a scrolling element after its first so many children: each may ask for room for
/// itself and the padding behind it.
pub open spec fn bounds_over<S: Scalar, R>(
    st: Stage<R>,
    id: usize,
    own: Box2<S>,
    count: nat,
) -> Pair<S>
    decreases count,
{
    if count == 0 {
        canvas::<S, R>(st, id, own)
    } else {
        let c = bounds_over(st, id, own, (count - 1) as nat);
        let child = st.dom.kids(id)[count - 1];
        let axes = grows_by(st, id, "AutomaticCanvasSize"@);
        let pad = padding::<S, R>(st, id);
        if (axes.x || axes.y) && is_laid_out(st)(child) {
            let w = resolved(span2_at(st, child, "Size"@, true), c.x);
            let h = resolved(span2_at(st, child, "Size"@, false), c.y);
            let x = resolved(span2_at(st, child, "Position"@, true), c.x);
            let y = resolved(span2_at(st, child, "Position"@, false), c.y);
            Pair {
                x: if axes.x {
                    c.x.larger(x.sum(w).sum(pad.right))
                } else {
                    c.x
                },
                y: if axes.y {
                    c.y.larger(y.sum(h).sum(pad.bottom))
                } else {
                    c.y
                },
            }
        } else {
            c
        }
    }
}

impl<'a, R> Layout<'a, R> {
    /// The canvas of a scrolling element, where its content box is `own`.
    pub fn scrolling_frame_bounds<S: Scalar>(&self, id: usize, own: Box2<S>) -> (r: Pair<S>)
        requires
            self.ok(),
        ensures
            r == bounds_over(self@, id, own, self@.dom.kids(id).len()),
    {
        let nothing = S::from_int(0);
        let cx = self.span2::<S>(id, "CanvasSize", true);
        let cy = self.span2::<S>(id, "CanvasSize", false);
        let mut cw = resolve(cx, own.w).most(nothing);
        let mut ch = resolve(cy, own.h).most(nothing);
        let axes = self.growth(id, "AutomaticCanvasSize");
        let pad = self.padding_of::<S>(id);
        let kids = self.dom.children(id);
        let mut k: usize = 0;
        while k < kids.len()
            invariant
                self.ok(),
                kids@ == self@.dom.kids(id),
                k <= kids.len(),
                axes == grows_by(self@, id, "AutomaticCanvasSize"@),
                pad == padding::<S, R>(self@, id),
                cw == bounds_over(self@, id, own, k as nat).x,
                ch == bounds_over(self@, id, own, k as nat).y,
            decreases kids.len() - k,
        {
            let child: usize = kids[k];
            if let Some(class) = self.dom.class_of(child) {
                if (axes.x || axes.y) && !starts(class.as_str(), "UI") {
                    let w = resolve(self.span2::<S>(child, "Size", true), cw);
                    let h = resolve(self.span2::<S>(child, "Size", false), ch);
                    let x = resolve(self.span2::<S>(child, "Position", true), cw);
                    let y = resolve(self.span2::<S>(child, "Position", false), ch);
                    if axes.x {
                        cw = cw.most(x.plus(w).plus(pad.right));
                    }
                    if axes.y {
                        ch = ch.most(y.plus(h).plus(pad.bottom));
                    }
                }
            }
            k += 1;
        }
        Pair { x: cw, y: ch }
    }
}

// ---- laws ----

/// Are all elements living instances at or under one?
spec fn all_under<S>(v: DomView, top: usize, items: Seq<SolvedItem<S>>) -> bool {
    forall|i: int|
        0 <= i < items.len() ==> v.alive((#[trigger] items[i]).id) && v.at_or_above(
            top,
            items[i].id,
        )
}

/// Are all elements living instances under one, and none of them that one?
spec fn all_inside<S>(v: DomView, top: usize, items: Seq<SolvedItem<S>>) -> bool {
    &&& all_under(v, top, items)
    &&& forall|i: int| 0 <= i < items.len() ==> (#[trigger] items[i]).id != top
}

proof fn visited_under<S: Scalar, R: Ruler<S>>(
    st: Stage<R>,
    id: usize,
    parent: Box2<S>,
    clip: Clip<S>,
    depth: nat,
    laid_out: bool,
    offered: Box2<S>,
)
    requires
        st.dom.sound(),
        st.dom.alive(id),
    ensures
        all_under(st.dom, id, visited(st, id, parent, clip, depth, laid_out, offered)),
    decreases (st.dom.slots.len() + 1 - depth) as nat, 2nat, 0nat,
{
    if depth <= st.dom.slots.len() && bool_at(st, id, "Visible"@) != Some(false) {
        crate::tree::at_or_above_parent(st.dom, id, id);
        let rect = solved_rect(st, id, parent, laid_out);
        let inner = inner_clip(st, id, rect, clip);
        let own = content(st, id, rect);
        let has = canvas::<S, R>(st, id, own);
        placed_under(st, id, own, inner, depth);
        placed_under(st, id, canvas_box(own, has), inner, depth);
        let spread = spread_in(st, id, own, inner, depth);
        placed_under(st, id, canvas_box(own, spread.canvas), inner, depth);
        assert(all_under(st.dom, id, spread.items));
        let all = visited(st, id, parent, clip, depth, laid_out, offered);
        let last = all[0].rect;
        placed_under(st, id, content(st, id, last), inner, depth);
        assert forall|i: int| 0 <= i < all.len() implies st.dom.alive((#[trigger] all[i]).id)
            && st.dom.at_or_above(id, all[i].id) by {
            if i > 0 {
                let again = placed_in(st, id, content(st, id, last), inner, depth);
                assert(all[i].id == spread.items[i - 1].id || all[i].id == again[i - 1].id);
            }
        }
    }
}

proof fn placed_under<S: Scalar, R: Ruler<S>>(
    st: Stage<R>,
    id: usize,
    room: Box2<S>,
    inner: Clip<S>,
    depth: nat,
)
    requires
        st.dom.sound(),
    ensures
        all_inside(st.dom, id, placed_in(st, id, room, inner, depth)),
    decreases (st.dom.slots.len() + 1 - depth) as nat, 1nat, 0nat,
{
    match modifier(st, id, "UIListLayout"@) {
        Some(layout) => {
            ordered_are_kids::<S, R>(st, id);
            listed_under(
                st,
                id,
                ordered_kids::<S, R>(st, id),
                flow_of::<S, R>(st, layout),
                room,
                inner,
                depth,
                zero(),
            );
        },
        None => {
            laid_out_are_kids(st, id);
            each_under(st, id, laid_out_kids(st, id), room, inner, depth);
        },
    }
}

proof fn under_parent<S>(v: DomView, id: usize, child: usize, items: Seq<SolvedItem<S>>)
    requires
        v.sound(),
        v.kids(id).contains(child),
        all_under(v, child, items),
    ensures
        all_inside(v, id, items),
{
    let k = choose|k: int| 0 <= k < v.kids(id).len() && v.kids(id)[k] == child;
    assert(v.alive(id));
    assert(v.parent(v.kids(id)[k]) == Some(id));
    crate::tree::at_or_above_parent(v, id, child);
    crate::tree::at_or_above_parent(v, id, id);
    assert forall|i: int| 0 <= i < items.len() implies v.alive((#[trigger] items[i]).id)
        && v.at_or_above(id, items[i].id) && items[i].id != id by {
        crate::tree::above_transitive(v, id, child, items[i].id);
        if items[i].id == id {
            crate::tree::depth_holds(v);
            crate::tree::no_cycle(v, id, child);
        }
    }
}

proof fn each_under<S: Scalar, R: Ruler<S>>(
    st: Stage<R>,
    id: usize,
    kids: Seq<usize>,
    room: Box2<S>,
    inner: Clip<S>,
    depth: nat,
)
    requires
        st.dom.sound(),
        forall|i: int| 0 <= i < kids.len() ==> st.dom.kids(id).contains(#[trigger] kids[i]),
    ensures
        all_inside(st.dom, id, each_in(st, kids, room, inner, depth)),
    decreases (st.dom.slots.len() + 1 - depth) as nat, 0nat, kids.len(),
{
    if kids.len() > 0 && depth <= st.dom.slots.len() {
        assert(st.dom.kids(id).contains(kids[0]));
        child_depth(st.dom, id, kids[0]);
        visited_under(st, kids[0], room, inner, depth + 1, false, room);
        under_parent(
            st.dom,
            id,
            kids[0],
            visited(st, kids[0], room, inner, depth + 1, false, room),
        );
        let rest = kids.skip(1);
        assert forall|i: int| 0 <= i < rest.len() implies st.dom.kids(id).contains(
            #[trigger] rest[i],
        ) by {
            assert(rest[i] == kids[i + 1]);
        }
        each_under(st, id, rest, room, inner, depth);
    }
}

proof fn listed_under<S: Scalar, R: Ruler<S>>(
    st: Stage<R>,
    id: usize,
    kids: Seq<usize>,
    flow: Flow<S>,
    room: Box2<S>,
    inner: Clip<S>,
    depth: nat,
    cursor: S,
)
    requires
        st.dom.sound(),
        forall|i: int| 0 <= i < kids.len() ==> st.dom.kids(id).contains(#[trigger] kids[i]),
    ensures
        all_inside(st.dom, id, listed_in(st, kids, flow, room, inner, depth, cursor)),
    decreases (st.dom.slots.len() + 1 - depth) as nat, 0nat, kids.len(),
{
    if kids.len() > 0 && depth <= st.dom.slots.len() {
        assert(st.dom.kids(id).contains(kids[0]));
        child_depth(st.dom, id, kids[0]);
        let here = slot(room, flow.across, cursor);
        visited_under(st, kids[0], here, inner, depth + 1, true, room);
        let items = visited(st, kids[0], here, inner, depth + 1, true, room);
        under_parent(st.dom, id, kids[0], items);
        let rest = kids.skip(1);
        assert forall|i: int| 0 <= i < rest.len() implies st.dom.kids(id).contains(
            #[trigger] rest[i],
        ) by {
            assert(rest[i] == kids[i + 1]);
        }
        if items.len() == 0 {
            listed_under(st, id, rest, flow, room, inner, depth, cursor);
        } else {
            let there = aligned(items, flow, room);
            assert forall|i: int| 0 <= i < there.len() implies st.dom.alive((#[trigger] there[i]).id)
                && st.dom.at_or_above(id, there[i].id) && there[i].id != id by {
                assert(there[i].id == items[i].id);
            }
            let next = cursor.sum(length(there[0].rect, flow.across).sum(flow.gap));
            listed_under(st, id, rest, flow, room, inner, depth, next);
        }
    }
}

/// Everything that is laid out is a living instance under the root, and the root itself is not.
pub proof fn only_what_is_under_the_root_is_laid_out<S: Scalar, R: Ruler<S>>(
    st: Stage<R>,
    root: usize,
    surface: Box2<S>,
    i: int,
)
    requires
        st.dom.sound(),
        0 <= i < solution(st, root, surface).len(),
    ensures
        st.dom.alive(solution(st, root, surface)[i].id),
        st.dom.at_or_above(root, solution(st, root, surface)[i].id),
        solution(st, root, surface)[i].id != root,
{
    placed_under(
        st,
        root,
        content(st, root, surface),
        Clip { area: None, radius: zero::<S>() },
        0,
    );
}

/// An element that is not visible is not laid out, nor is anything in it.
pub proof fn what_is_hidden_takes_no_place<S: Scalar, R: Ruler<S>>(
    st: Stage<R>,
    id: usize,
    parent: Box2<S>,
    clip: Clip<S>,
    depth: nat,
    laid_out: bool,
    offered: Box2<S>,
)
    requires
        bool_at(st, id, "Visible"@) == Some(false),
    ensures
        visited(st, id, parent, clip, depth, laid_out, offered).len() == 0,
{
}

/// In a list, the position that an element asks for has no effect on it.
pub proof fn a_list_ignores_positions<S: Scalar, R>(
    st: Stage<R>,
    other: Stage<R>,
    id: usize,
    parent: Box2<S>,
)
    requires
        property_at(st, id, "Size"@) == property_at(other, id, "Size"@),
        property_at(st, id, "AnchorPoint"@) == property_at(other, id, "AnchorPoint"@),
    ensures
        solved_rect(st, id, parent, true) == solved_rect(other, id, parent, true),
{
}

} // verus!
