//! What can be said of how things look, whatever the painter is told in the end.

use crate::layout::{
    bool_at, class_at, item_at, padding, property_at, Box2, Ruler, SolvedItem, Stage,
};
use crate::render::{
    align_at, alpha_at, channel, colour_at, depicts, gradient_at, gradient_kind, image_at,
    image_scale, image_source, image_uri, line_count, noted, rgb_of, says_radial, search_size,
    shades, stroke_at, text_size_at, Align, GradientKind, Node, Placed, Rgb, Scale,
};
use crate::scalar::{Fixed, Scalar};
use crate::text::text_holding;
use crate::tree::DomView;
use crate::value::{Color3, ContentView, ValueView, Vector2};
use vstd::prelude::*;

verus! {

// ---- alignment ----

/// Does a property hold the member of this name of the enumeration of the same name?
pub open spec fn named<R>(st: Stage<R>, id: usize, key: Seq<char>, name: Seq<char>) -> bool {
    property_at(st, id, key) matches Some(ValueView::Enum(raw)) && st.catalog.category(key) is Some
        && st.catalog.enum_map(key).contains_pair(name, raw)
}

/// Text goes to the side that its alignment names: right and bottom are the end, left and top the
/// start, and the centre is neither. So a drawn element with its text on the left never looks like
/// one with its text on the right, nor one at the top like one at the bottom.
pub proof fn text_goes_where_it_is_aligned<S: Scalar, R: Ruler<S>>(
    st: Stage<R>,
    p: Placed<S>,
    sequence: int,
    n: Node<S>,
)
    requires
        depicts(st, p, sequence, n),
    ensures
        ({
            let x = |name: Seq<char>| named(st, p.id, "TextXAlignment"@, name);
            let y = |name: Seq<char>| named(st, p.id, "TextYAlignment"@, name);
            &&& x("Left"@) ==> n.text_align_x == Some(Align::Start)
            &&& x("Right"@) && !x("Left"@) && !x("Top"@) ==> n.text_align_x == Some(Align::End)
            &&& x("Center"@) && !x("Left"@) && !x("Top"@) && !x("Right"@) && !x("Bottom"@)
                ==> n.text_align_x == Some(Align::Center)
            &&& y("Top"@) ==> n.text_align_y == Some(Align::Start)
            &&& y("Bottom"@) && !y("Left"@) && !y("Top"@) ==> n.text_align_y == Some(Align::End)
            &&& y("Center"@) && !y("Left"@) && !y("Top"@) && !y("Right"@) && !y("Bottom"@)
                ==> n.text_align_y == Some(Align::Center)
            &&& !(property_at(st, p.id, "TextXAlignment"@) matches Some(ValueView::Enum(_)))
                ==> n.text_align_x is None
            &&& !(property_at(st, p.id, "TextYAlignment"@) matches Some(ValueView::Enum(_)))
                ==> n.text_align_y is None
        }),
{
    aligned_by_name(st, p.id, "TextXAlignment"@);
    aligned_by_name(st, p.id, "TextYAlignment"@);
}

/// Of every alignment property: right and bottom are the end, left and top the start, a member of
/// any other name is the centre, and a number that is no member is no alignment.
pub proof fn aligned_by_name<R>(st: Stage<R>, id: usize, key: Seq<char>)
    ensures
        ({
            let says = |name: Seq<char>| named(st, id, key, name);
            let start = says("Left"@) || says("Top"@);
            let end = says("Right"@) || says("Bottom"@);
            &&& start ==> align_at(st, id, key) == Some(Align::Start)
            &&& end && !start ==> align_at(st, id, key) == Some(Align::End)
            &&& !start && !end && (exists|name: Seq<char>| #[trigger] named(st, id, key, name))
                ==> align_at(st, id, key) == Some(Align::Center)
            &&& !(exists|name: Seq<char>| #[trigger] named(st, id, key, name)) ==> align_at(
                st,
                id,
                key,
            ) is None
        }),
{
    if let Some(ValueView::Enum(raw)) = property_at(st, id, key) {
        if st.catalog.category(key) is Some {
            let items = st.catalog.enum_map(key);
            assert forall|name: Seq<char>| #[trigger] items.contains_pair(name, raw) implies named(
                st,
                id,
                key,
                name,
            ) by {}
            assert(named(st, id, key, "Left"@) == items.contains_pair("Left"@, raw));
            assert(named(st, id, key, "Top"@) == items.contains_pair("Top"@, raw));
            assert(named(st, id, key, "Right"@) == items.contains_pair("Right"@, raw));
            assert(named(st, id, key, "Bottom"@) == items.contains_pair("Bottom"@, raw));
            if exists|name: Seq<char>| #[trigger] named(st, id, key, name) {
                let name = choose|name: Seq<char>| #[trigger] named(st, id, key, name);
                assert(items.contains_pair(name, raw));
            }
        }
    }
}

/// Two elements whose texts go to opposite sides are drawn with different alignments.
pub proof fn opposite_sides_look_different<S: Scalar, R: Ruler<S>>(
    st: Stage<R>,
    p: Placed<S>,
    q: Placed<S>,
    i: int,
    j: int,
    n: Node<S>,
    m: Node<S>,
)
    requires
        depicts(st, p, i, n),
        depicts(st, q, j, m),
        named(st, p.id, "TextXAlignment"@, "Left"@),
        named(st, q.id, "TextXAlignment"@, "Right"@),
        !named(st, q.id, "TextXAlignment"@, "Left"@),
        !named(st, q.id, "TextXAlignment"@, "Top"@),
        named(st, p.id, "TextYAlignment"@, "Top"@),
        named(st, q.id, "TextYAlignment"@, "Bottom"@),
        !named(st, q.id, "TextYAlignment"@, "Left"@),
        !named(st, q.id, "TextYAlignment"@, "Top"@),
    ensures
        n.text_align_x != m.text_align_x,
        n.text_align_y != m.text_align_y,
{
    text_goes_where_it_is_aligned(st, p, i, n);
    text_goes_where_it_is_aligned(st, q, j, m);
}

// ---- colours ----

/// A channel is the byte closest to its share of the largest byte: nothing and less is zero, one
/// and more is the largest, and more of it is never a smaller byte.
pub proof fn a_channel_is_its_share_of_a_byte(bits: u32, more: u32)
    ensures
        ({
            let x = Fixed::of_single(bits).steps;
            let b = channel::<Fixed>(bits);
            &&& x <= 0 ==> b == 0
            &&& x >= 65536 ==> b == 255
            &&& 0 <= x <= 65536 ==> b * 65536 - 32768 <= x * 255 < b * 65536 + 32768
            &&& x <= Fixed::of_single(more).steps ==> b <= channel::<Fixed>(more)
        }),
{
    a_byte_of(Fixed::of_single(bits));
    a_byte_of(Fixed::of_single(more));
    let x = Fixed::of_single(bits).steps;
    let y = Fixed::of_single(more).steps;
    assert(channel::<Fixed>(bits) == byte_of(x as int));
    assert(channel::<Fixed>(more) == byte_of(y as int));
}

/// The byte that a number of steps comes to.
spec fn byte_of(x: int) -> int {
    if x <= 0 {
        0
    } else if x >= 65536 {
        255
    } else {
        (x * 255 + 32768) / 65536
    }
}

proof fn a_byte_of(x: Fixed)
    ensures
        crate::scalar::between(x, Fixed::of_int(0), Fixed::of_int(1)).product(
            Fixed::of_int(255),
        ).byte() == byte_of(x.steps as int),
{
    let y = crate::scalar::between(x, Fixed::of_int(0), Fixed::of_int(1));
    let n = y.steps as int;
    assert(Fixed::of_int(255).steps == 255 * 65536);
    assert((n * (255 * 65536)) / 65536 == n * 255) by (nonlinear_arith);
    assert(y.product(Fixed::of_int(255)).steps == n * 255);
}

/// Each channel of a colour is drawn as that channel.
pub proof fn channels_stay_apart<S: Scalar, R>(st: Stage<R>, id: usize, key: Seq<char>, c: Color3)
    requires
        property_at(st, id, key) == Some(ValueView::Color3(c)),
    ensures
        colour_at::<S, R>(st, id, key) == Some(
            Rgb(channel::<S>(c.r), channel::<S>(c.g), channel::<S>(c.b)),
        ),
{
}

/// How solid something is and how transparent it is add up to one, where it says a transparency
/// from nothing to one. One that says none is solid, and no one is more than solid or less than
/// nothing.
pub proof fn solid_and_transparent_make_one<R>(st: Stage<R>, id: usize, key: Seq<char>)
    ensures
        ({
            let alpha = alpha_at::<Fixed, R>(st, id, key).steps;
            &&& 0 <= alpha <= 65536
            &&& property_at(st, id, key) is None ==> alpha == 65536
            &&& property_at(st, id, key) matches Some(ValueView::Float32(t)) ==> {
                let x = Fixed::of_single(t).steps;
                &&& 0 <= x <= 65536 ==> alpha + x == 65536
                &&& x < 0 ==> alpha == 65536
                &&& x > 65536 ==> alpha == 0
            }
        }),
{
}

// ---- what a node shows ----

/// A node shows each property of its element in its own place: the fill is the background, the
/// writing is the text, and what the element says of one never shows in another.
pub proof fn a_node_shows_its_element<S: Scalar, R: Ruler<S>>(
    st: Stage<R>,
    p: Placed<S>,
    sequence: int,
    n: Node<S>,
)
    requires
        depicts(st, p, sequence, n),
        st.dom.alive(p.id),
    ensures
        ({
            let class = st.dom.node(p.id).class;
            let at = |key: Seq<char>| property_at(st, p.id, key);
            &&& n.id == sequence
            &&& n.name@ == st.dom.node(p.id).name
            &&& n.rect == p.rect && n.clip == p.clip && n.clip_radius == p.clip_radius
            &&& at("BackgroundColor3"@) matches Some(ValueView::Color3(c)) ==> n.fill == Some(
                Rgb(channel::<S>(c.r), channel::<S>(c.g), channel::<S>(c.b)),
            )
            &&& at("BackgroundColor3"@) is None ==> n.fill is None
            &&& at("TextColor3"@) matches Some(ValueView::Color3(c)) ==> n.text_colour == Some(
                Rgb(channel::<S>(c.r), channel::<S>(c.g), channel::<S>(c.b)),
            )
            &&& at("TextColor3"@) is None ==> n.text_colour is None
            &&& n.alpha == alpha_at::<S, R>(st, p.id, "BackgroundTransparency"@)
            &&& n.text_alpha == alpha_at::<S, R>(st, p.id, "TextTransparency"@)
            &&& class != "TextLabel"@ && class != "TextButton"@ && class != "TextBox"@ && class
                != "InputActionLabel"@ ==> n.text is None
            &&& class != "ImageLabel"@ && class != "ImageButton"@ && class != "InputActionLabel"@
                ==> n.image is None
            &&& (class == "TextLabel"@ || class == "TextButton"@ || class == "TextBox"@) && (at(
                "Text"@,
            ) matches Some(ValueView::Text(t)) && t.len() > 0) ==> n.text is Some && n.text->0@
                == at("Text"@)->0->Text_0
            &&& (class == "ImageLabel"@ || class == "ImageButton"@) && (at(
                "Image"@,
            ) matches Some(ValueView::ContentId(u)) && u.len() > 0) ==> n.image is Some
        }),
{
    reveal_strlit("TextLabel");
    reveal_strlit("TextButton");
    reveal_strlit("TextBox");
    reveal_strlit("InputActionLabel");
    assert("TextLabel"@.len() < "InputActionLabel"@.len());
    assert("TextButton"@.len() < "InputActionLabel"@.len());
    assert("TextBox"@.len() < "InputActionLabel"@.len());
}

// ---- strokes, gradients and images ----

/// A stroke is drawn as its modifier says, one thick and solid where it does not.
pub proof fn a_stroke_is_as_its_modifier_says<S: Scalar, R>(st: Stage<R>, id: usize, c: usize)
    requires
        crate::layout::modifier(st, id, "UIStroke"@) == Some(c),
    ensures
        ({
            let s = stroke_at::<S, R>(st, id);
            &&& s is Some
            &&& property_at(st, c, "Color"@) matches Some(ValueView::Color3(x)) ==> s->0.colour
                == Some(Rgb(channel::<S>(x.r), channel::<S>(x.g), channel::<S>(x.b)))
            &&& property_at(st, c, "Thickness"@) matches Some(ValueView::Float32(t))
                ==> s->0.thickness == S::of_single(t)
            &&& property_at(st, c, "Thickness"@) is None ==> s->0.thickness == S::of_int(1)
            &&& s->0.alpha == alpha_at::<S, R>(st, c, "Transparency"@)
        }),
{
}

/// A gradient is radial where its type is the member of that name or of the number one, or where
/// its type or its shape spells the word in any case; every other one is linear.
pub proof fn a_gradient_is_radial_where_it_says_so<R>(st: Stage<R>, c: usize)
    ensures
        property_at(st, c, "Type"@) == Some(ValueView::Enum(1)) ==> gradient_kind(st, c)
            == GradientKind::Radial,
        property_at(st, c, "Type"@) == Some(ValueView::Text("Radial"@)) ==> gradient_kind(st, c)
            == GradientKind::Radial,
        property_at(st, c, "Type"@) == Some(ValueView::Text("radial"@)) ==> gradient_kind(st, c)
            == GradientKind::Radial,
        property_at(st, c, "Type"@) == Some(ValueView::Text("RADIAL"@)) ==> gradient_kind(st, c)
            == GradientKind::Radial,
        property_at(st, c, "Shape"@) == Some(ValueView::Text("Radial"@)) ==> gradient_kind(st, c)
            == GradientKind::Radial,
        property_at(st, c, "Type"@) is None && property_at(st, c, "Shape"@) is None
            ==> gradient_kind(st, c) == GradientKind::Linear,
        property_at(st, c, "Type"@) == Some(ValueView::Text("Linear"@)) && property_at(
            st,
            c,
            "Shape"@,
        ) is None ==> gradient_kind(st, c) == GradientKind::Linear,
        forall|raw: u32|
            #![trigger st.catalog.enum_map("GradientType"@).contains_pair("Radial"@, raw)]
            property_at(st, c, "Type"@) == Some(ValueView::Enum(raw)) && st.catalog.category(
                "GradientType"@,
            ) is Some && st.catalog.enum_map("GradientType"@).contains_pair("Radial"@, raw)
                ==> gradient_kind(st, c) == GradientKind::Radial,
{
    reveal_strlit("Radial");
    reveal_strlit("radial");
    reveal_strlit("RADIAL");
    reveal_strlit("Linear");
    assert(says_radial("Radial"@));
    assert(says_radial("radial"@));
    assert(says_radial("RADIAL"@));
    assert(!says_radial("Linear"@));
}

/// A gradient has one stop for each key of its colours and of its transparency, at the time of the
/// key: the colour is that of the key, and the transparency of the key and how solid the stop is
/// make one.
pub proof fn a_gradient_follows_its_keys<R>(st: Stage<R>, id: usize, c: usize, i: int)
    requires
        crate::members::first_of(st.dom.kids(id), |c: usize| shades(st, c)) == Some(c),
        property_at(st, c, "Color"@) is Some,
        property_at(st, c, "Color"@)->0 is ColorSequence,
        property_at(st, c, "Transparency"@) is Some,
        property_at(st, c, "Transparency"@)->0 is NumberSequence,
        0 <= i < property_at(st, c, "Color"@)->0->ColorSequence_0.len(),
        0 <= i < property_at(st, c, "Transparency"@)->0->NumberSequence_0.len(),
    ensures
        ({
            let g = gradient_at::<Fixed, R>(st, id);
            let keys = property_at(st, c, "Color"@)->0->ColorSequence_0;
            let fades = property_at(st, c, "Transparency"@)->0->NumberSequence_0;
            let fade = Fixed::of_single(fades[i].value).steps;
            &&& g is Some
            &&& g->0.stops.len() == keys.len()
            &&& g->0.alpha_stops.len() == fades.len()
            &&& g->0.stops[i].at == Fixed::of_single(keys[i].time)
            &&& g->0.stops[i].colour == Rgb(
                channel::<Fixed>(keys[i].color.r),
                channel::<Fixed>(keys[i].color.g),
                channel::<Fixed>(keys[i].color.b),
            )
            &&& g->0.alpha_stops[i].at == Fixed::of_single(fades[i].time)
            &&& 0 <= fade <= 65536 ==> g->0.alpha_stops[i].alpha.steps + fade == 65536
            &&& property_at(st, c, "Rotation"@) matches Some(ValueView::Float32(t))
                ==> g->0.rotation == Fixed::of_single(t)
            &&& property_at(st, c, "Rotation"@) is None ==> g->0.rotation.steps == 0
        }),
{
}

/// A gradient modifier shades its element unless it is switched off, and one that is switched off
/// is passed over for the next.
pub proof fn a_gradient_can_be_switched_off<R>(st: Stage<R>, c: usize)
    requires
        st.dom.alive(c),
    ensures
        shades(st, c) == (st.dom.node(c).class == "UIGradient"@ && property_at(st, c, "Enabled"@)
            != Some(ValueView::Bool(false))),
{
}

/// The image of an element is that of its content, where that has an address, and otherwise the one
/// of the older property; where neither has one there is no image.
pub proof fn the_content_of_an_image_comes_first<S: Scalar, R>(
    st: Stage<R>,
    id: usize,
    newer: Seq<char>,
    older: Seq<char>,
)
    requires
        property_at(st, id, "ImageContent"@) == Some(ValueView::Content(ContentView::Uri(newer))),
        property_at(st, id, "Image"@) == Some(ValueView::ContentId(older)),
    ensures
        ({
            let i = image_at::<S, R>(st, id);
            &&& newer.len() > 0 ==> i is Some && i->0.uri == newer
            &&& newer.len() == 0 && older.len() > 0 ==> i is Some && i->0.uri == older
            &&& newer.len() == 0 && older.len() == 0 ==> i is None
        }),
{
}

/// An image is tinted and faded as its element says, cut to the part that the element names where
/// that has an area, and fills its box as the element says.
pub proof fn an_image_is_drawn_as_its_element_says<R>(
    st: Stage<R>,
    id: usize,
    size: Vector2,
    offset: Vector2,
)
    requires
        image_uri(st, id) is Some,
        property_at(st, id, "ImageRectSize"@) == Some(ValueView::Vector2(size)),
        property_at(st, id, "ImageRectOffset"@) == Some(ValueView::Vector2(offset)),
    ensures
        ({
            let i = image_at::<Fixed, R>(st, id)->0;
            let w = Fixed::of_single(size.x);
            let h = Fixed::of_single(size.y);
            &&& image_at::<Fixed, R>(st, id) is Some
            &&& w.steps > 0 && h.steps > 0 ==> i.source == Some(
                Box2 { x: Fixed::of_single(offset.x), y: Fixed::of_single(offset.y), w, h },
            )
            &&& w.steps <= 0 || h.steps <= 0 ==> i.source is None
            &&& property_at(st, id, "ImageColor3"@) matches Some(ValueView::Color3(c)) ==> i.tint
                == Some(
                Rgb(channel::<Fixed>(c.r), channel::<Fixed>(c.g), channel::<Fixed>(c.b)),
            )
            &&& i.alpha == alpha_at::<Fixed, R>(st, id, "ImageTransparency"@)
            &&& named(st, id, "ScaleType"@, "Fit"@) ==> i.scale == Scale::Fit
            &&& named(st, id, "ScaleType"@, "Crop"@) && !named(st, id, "ScaleType"@, "Fit"@)
                ==> i.scale == Scale::Crop
            &&& !named(st, id, "ScaleType"@, "Crop"@) && !named(st, id, "ScaleType"@, "Fit"@)
                ==> i.scale == Scale::Stretch
        }),
{
}

// ---- text sizes ----

/// A text that does not scale has the size that it asks for, or fourteen.
pub proof fn an_unscaled_text_is_as_large_as_it_says<R: Ruler<Fixed>>(
    st: Stage<R>,
    id: usize,
    rect: Box2<Fixed>,
)
    requires
        property_at(st, id, "TextScaled"@) != Some(ValueView::Bool(true)),
    ensures
        property_at(st, id, "TextSize"@) matches Some(ValueView::Float32(v)) ==> text_size_at(
            st,
            id,
            rect,
        ) == Fixed::of_single(v),
        property_at(st, id, "TextSize"@) is None ==> text_size_at(st, id, rect).steps == 14
            * 65536,
{
}

/// A text that scales on one line each is so large that neither its width nor the height of its
/// lines, one and a half of the size each, is more than the room between the paddings; and a step
/// larger, one of them would be.
pub proof fn a_scaled_text_just_fits<R: Ruler<Fixed>>(
    st: Stage<R>,
    id: usize,
    rect: Box2<Fixed>,
    text: Seq<char>,
    w: Fixed,
    h: Fixed,
)
    requires
        st.dom.alive(id),
        st.dom.node(id).class == "TextLabel"@,
        property_at(st, id, "Text"@) == Some(ValueView::Text(text)),
        0 < text.len() <= 0x1_0000_0000,
        property_at(st, id, "TextScaled"@) == Some(ValueView::Bool(true)),
        property_at(st, id, "TextWrapped"@) != Some(ValueView::Bool(true)),
        st.ruler.extent(text_holding(text), Fixed { steps: 65536 }, None) == Some((w, h)),
        0 < w.steps <= 0x100_0000_0000,
        0 <= rect.w.steps <= 0x100_0000_0000,
        0 <= rect.h.steps <= 0x100_0000_0000,
        padding::<Fixed, R>(st, id).left.steps >= 0,
        padding::<Fixed, R>(st, id).right.steps >= 0,
        padding::<Fixed, R>(st, id).top.steps >= 0,
        padding::<Fixed, R>(st, id).bottom.steps >= 0,
        rect.w.steps - padding::<Fixed, R>(st, id).left.steps - padding::<Fixed, R>(
            st,
            id,
        ).right.steps > 0,
        rect.h.steps - padding::<Fixed, R>(st, id).top.steps - padding::<Fixed, R>(
            st,
            id,
        ).bottom.steps > 0,
    ensures
        ({
            let pad = padding::<Fixed, R>(st, id);
            let wide = rect.w.steps - pad.left.steps - pad.right.steps;
            let high = rect.h.steps - pad.top.steps - pad.bottom.steps;
            let size = text_size_at(st, id, rect).steps as int;
            let tall = line_count(text) * 98304;
            &&& size * w.steps <= wide * 65536
            &&& size * tall <= high * 65536
            &&& (size + 1) * w.steps > wide * 65536 || (size + 1) * tall > high * 65536
        }),
{
    let pad = padding::<Fixed, R>(st, id);
    crate::places::padding_is_small(st, id);
    let wide = rect.w.steps - pad.left.steps - pad.right.steps;
    let high = rect.h.steps - pad.top.steps - pad.bottom.steps;
    reveal_strlit("TextLabel");
    reveal_strlit("InputActionLabel");
    assert("TextLabel"@.len() != "InputActionLabel"@.len());
    let n = line_count(text);
    lines_bounded(text);
    assert(crate::layout::one::<Fixed>() == Fixed { steps: 65536 });
    let height = crate::render::line_height::<Fixed>();
    assert(height.steps == 98304);
    let lines = Fixed::of_int(n as i128);
    assert(lines.steps == n * 65536);
    assert(((n * 65536) * 65536) / 65536 == n * 65536) by (nonlinear_arith);
    assert(lines.product(Fixed { steps: 65536 }).steps == n * 65536);
    assert(((n * 65536) * 98304) / 65536 == n * 98304) by (nonlinear_arith);
    let tall = lines.product(Fixed { steps: 65536 }).product(height);
    assert(tall.steps == n * 98304);
    let room_w = Fixed { steps: wide as i64 };
    let room_h = Fixed { steps: high as i64 };
    divided(wide * 65536, w.steps as int);
    divided(high * 65536, tall.steps as int);
    let a = (wide * 65536) / (w.steps as int);
    let b = (high * 65536) / (tall.steps as int);
    assert(room_w.quotient(w).steps == a);
    assert(room_h.quotient(tall).steps == b);
    let size = text_size_at(st, id, rect).steps as int;
    assert(size == (if b < a {
        b
    } else {
        a
    }));
    let t = tall.steps as int;
    let ws = w.steps as int;
    assert(size * ws <= a * ws) by (nonlinear_arith)
        requires
            size <= a,
            ws > 0,
    ;
    assert(size * t <= b * t) by (nonlinear_arith)
        requires
            size <= b,
            t > 0,
    ;
}

proof fn divided(n: int, d: int)
    requires
        0 <= n <= 0x200_0000_0000_0000,
        d > 0,
    ensures
        0 <= n / d <= n,
        (n / d) * d <= n,
        (n / d + 1) * d > n,
{
    vstd::arithmetic::div_mod::lemma_fundamental_div_mod(n, d);
    vstd::arithmetic::div_mod::lemma_div_pos_is_pos(n, d);
    vstd::arithmetic::div_mod::lemma_div_nonincreasing(n, d);
    assert((n / d) * d == d * (n / d)) by (nonlinear_arith);
    assert((n / d + 1) * d == d * (n / d) + d) by (nonlinear_arith);
}

proof fn lines_bounded(text: Seq<char>)
    ensures
        1 <= line_count(text) <= text.len() + 1,
    decreases text.len(),
{
    if text.len() > 0 {
        lines_bounded(text.drop_last());
    }
}

/// A line break begins a line, and no other character does.
pub proof fn a_break_begins_a_line(text: Seq<char>, c: char)
    ensures
        line_count(text.push('\n')) == line_count(text) + 1,
        c != '\n' ==> line_count(text.push(c)) == line_count(text),
        line_count(Seq::empty()) == 1,
{
    assert(text.push('\n').drop_last() =~= text);
    assert(text.push(c).drop_last() =~= text);
}

/// Does a wrapped text of this size fit in a box?
pub open spec fn fits<R: Ruler<Fixed>>(
    st: Stage<R>,
    text: Seq<char>,
    room: Box2<Fixed>,
    size: Fixed,
) -> bool {
    st.ruler.extent(text_holding(text), size, Some(room.w)) matches Some((w, h)) && w.steps
        <= room.w.steps && h.steps <= room.h.steps
}

/// The search for the size of a wrapped text ends with a size that fits or with the one that it
/// began with, never below that and never above the largest.
pub proof fn a_wrapped_size_fits<R: Ruler<Fixed>>(
    st: Stage<R>,
    text: Seq<char>,
    room: Box2<Fixed>,
    low: Fixed,
    high: Fixed,
    tries: nat,
)
    requires
        0 <= low.steps <= high.steps <= 0x1000_0000_0000_0000,
    ensures
        ({
            let size = search_size(st, text, room, low, high, tries);
            &&& low.steps <= size.steps <= high.steps
            &&& size == low || fits(st, text, room, size)
        }),
    decreases tries,
{
    if tries > 0 {
        let mid = low.sum(high).quotient(Fixed::of_int(2));
        let total = low.steps + high.steps;
        assert((total * 65536) / 131072 == total / 2) by (nonlinear_arith);
        assert(mid.steps == total / 2);
        a_wrapped_size_fits(st, text, room, mid, high, (tries - 1) as nat);
        a_wrapped_size_fits(st, text, room, low, mid, (tries - 1) as nat);
    }
}

/// Where every size up to one fits and none above it does, the search comes so close to that one
/// that what is left between them is halved with each try.
pub proof fn a_wrapped_size_is_the_largest<R: Ruler<Fixed>>(
    st: Stage<R>,
    text: Seq<char>,
    room: Box2<Fixed>,
    low: Fixed,
    high: Fixed,
    tries: nat,
    best: int,
)
    requires
        0 <= low.steps <= best <= high.steps <= 0x1000_0000_0000_0000,
        tries <= 32,
        forall|size: Fixed|
            low.steps <= size.steps <= high.steps ==> (#[trigger] fits(st, text, room, size) == (
            size.steps <= best)),
        forall|size: Fixed|
            low.steps <= size.steps <= high.steps ==> (#[trigger] st.ruler.extent(
                text_holding(text),
                size,
                Some(room.w),
            )) is Some,
    ensures
        search_size(st, text, room, low, high, tries).steps <= best,
        (best - search_size(st, text, room, low, high, tries).steps) * vstd::arithmetic::power2::pow2(
            tries,
        ) < high.steps - low.steps + vstd::arithmetic::power2::pow2(tries),
    decreases tries,
{
    if tries == 0 {
        vstd::arithmetic::power2::lemma2_to64();
    } else {
        let mid = low.sum(high).quotient(Fixed::of_int(2));
        let total = low.steps + high.steps;
        assert((total * 65536) / 131072 == total / 2) by (nonlinear_arith);
        assert(mid.steps == total / 2);
        assert(st.ruler.extent(text_holding(text), mid, Some(room.w)) is Some);
        assert(fits(st, text, room, mid) == (mid.steps <= best));
        let less = (tries - 1) as nat;
        vstd::arithmetic::power2::lemma_pow2_unfold(tries);
        vstd::arithmetic::power2::lemma_pow2_pos(less);
        let p = vstd::arithmetic::power2::pow2(less) as int;
        let got = search_size(st, text, room, low, high, tries);
        if mid.steps <= best {
            a_wrapped_size_is_the_largest(st, text, room, mid, high, less, best);
            let x = best - got.steps;
            assert(x * (2 * p) == 2 * (x * p)) by (nonlinear_arith);
        } else {
            a_wrapped_size_is_the_largest(st, text, room, low, mid, less, best);
            let x = best - got.steps;
            assert(x * (2 * p) == 2 * (x * p)) by (nonlinear_arith);
        }
    }
}

// ---- geometry for the guest ----

/// A guest reads of an element where it starts and how large it is, as the last place that it was
/// given says.
pub proof fn a_guest_reads_where_things_are<S: Scalar>(
    v: DomView,
    items: Seq<SolvedItem<S>>,
    count: nat,
)
    requires
        0 < count <= items.len(),
        v.alive(items[count - 1].id),
    ensures
        ({
            let item = items[count - 1];
            let props = noted(v, items, count).node(item.id).props;
            &&& props.contains_key("AbsolutePosition"@)
            &&& props["AbsolutePosition"@] == ValueView::Vector2(
                Vector2 { x: item.rect.x.single(), y: item.rect.y.single() },
            )
            &&& props.contains_key("AbsoluteSize"@)
            &&& props["AbsoluteSize"@] == ValueView::Vector2(
                Vector2 { x: item.rect.w.single(), y: item.rect.h.single() },
            )
        }),
{
    reveal_strlit("AbsolutePosition");
    reveal_strlit("AbsoluteSize");
    assert("AbsolutePosition"@.len() != "AbsoluteSize"@.len());
    crate::render::noting_owes_no_repaint(
        v,
        items,
        (count - 1) as nat,
        items[count - 1].id,
        Seq::empty(),
    );
}

} // verus!
