//! What can be said of the values that a guest makes, whatever they are made with.

use crate::fault::Fault;
use crate::guest::{Guest, GuestView, Number};
use crate::number::{f32_eq, f32_rank};
use crate::scalar::{Fixed, Scalar};
use crate::value::{Color3, ColorKey, NumberKey, Rect, UDim, UDim2, Vector2};
use crate::vocabulary::{
    alike, color3_from_bytes, color3_from_hex, color3_from_rgb, color3_new, color3_text,
    color_key_new, color_key_text, color_keys, color_sequence_new, hex_value, is_alike,
    number_key_new, number_key_text, number_keys, number_sequence_new, rect_height, rect_new,
    rect_text, rect_width, udim2_from_offset, udim2_from_scale, udim2_minus, udim2_new, udim2_plus,
    udim2_text, udim_minus, udim_new, udim_plus, udim_text, vector2_minus, vector2_new, vector2_one,
    vector2_plus, vector2_product, vector2_text, vector2_times, vector2_zero, First,
};
use vstd::prelude::*;

verus! {

// ---- making values ----

/// The components of a value are what it was made of, in that order, and zero where one was left
/// out.
pub proof fn components_keep_their_order(
    x: u32,
    y: u32,
    z: u32,
    v: Vector2,
    w: Vector2,
    c: Color3,
    d: Color3,
    u: UDim2,
    k: NumberKey,
)
    requires
        call_ensures(vector2_new, (Some(x), Some(y)), v),
        call_ensures(vector2_new, (None, Some(y)), w),
        call_ensures(color3_new, (Some(x), Some(y), Some(z)), c),
        call_ensures(color3_new, (Some(x), None, Some(z)), d),
        call_ensures(udim2_from_scale, (Some(x), Some(y)), u),
        call_ensures(number_key_new, (x, y, Some(z)), k),
    ensures
        v.x == x && v.y == y,
        w.x == 0 && w.y == y,
        c.r == x && c.g == y && c.b == z,
        d.r == x && d.g == 0 && d.b == z,
        u.x.scale == x && u.y.scale == y && u.x.offset == 0 && u.y.offset == 0,
        k.time == x && k.value == y && k.envelope == z,
{
}

/// The named vectors are nothing and one in both components.
pub proof fn the_named_vectors(z: Vector2, o: Vector2)
    requires
        call_ensures(vector2_zero, (), z),
        call_ensures(vector2_one, (), o),
    ensures
        z.x == 0 && z.y == 0,
        o.x == 0x3f80_0000 && o.y == 0x3f80_0000,
{
}

/// Four numbers make a pair of spans in the order of scale and offset across, and scale and offset
/// down, and a rectangle in the order of its two corners.
pub proof fn four_numbers_in_order(
    args: Vec<Guest>,
    a: Number,
    b: Number,
    c: Number,
    d: Number,
    u: UDim2,
    r: Rect,
    across: UDim,
    down: UDim,
)
    requires
        args@ == seq![Guest::Number(a), Guest::Number(b), Guest::Number(c), Guest::Number(d)],
        call_ensures(udim2_new, (&args,), u),
        call_ensures(rect_new, (&args,), r),
        call_ensures(udim_new, (Some(a.narrow), &Some(b)), across),
        call_ensures(udim_new, (Some(c.narrow), &Some(d)), down),
    ensures
        u.x == across,
        u.y == down,
        u.x.scale == a.narrow && u.y.scale == c.narrow,
        r.min.x == a.narrow && r.min.y == b.narrow,
        r.max.x == c.narrow && r.max.y == d.narrow,
{
}

/// Two spans make a pair of them, across first; two vectors make a rectangle, its near corner
/// first.
pub proof fn two_values_in_order(
    spans: Vec<Guest>,
    corners: Vec<Guest>,
    x: UDim,
    y: UDim,
    min: Vector2,
    max: Vector2,
    u: UDim2,
    r: Rect,
)
    requires
        spans@ == seq![Guest::UDim(x), Guest::UDim(y)],
        corners@ == seq![Guest::Vector2(min), Guest::Vector2(max)],
        call_ensures(udim2_new, (&spans,), u),
        call_ensures(rect_new, (&corners,), r),
    ensures
        u.x == x && u.y == y,
        r.min == min && r.max == max,
{
}

/// A pair of offsets is a pair of spans without scale, across first, each as a span alone has it.
pub proof fn offsets_have_no_scale(
    x: Option<Number>,
    y: Option<Number>,
    u: UDim2,
    across: UDim,
    down: UDim,
)
    requires
        call_ensures(udim2_from_offset, (&x, &y), u),
        call_ensures(udim_new, (None, &x), across),
        call_ensures(udim_new, (None, &y), down),
    ensures
        u.x == across && u.y == down,
        u.x.scale == 0 && u.y.scale == 0,
        x is None ==> u.x.offset == 0,
        y is None ==> u.y.offset == 0,
{
}

// ---- colours ----

/// What a number of 255ths is in steps.
pub open spec fn of_255(steps: int) -> u32 {
    (Fixed { steps: (steps / 255) as i64 }).single()
}

/// A colour of three numbers out of 255 has each channel at its share, and one of three bytes is the
/// same as one of the same three numbers.
pub proof fn channels_are_shares_of_255(
    r: u32,
    g: u32,
    b: u32,
    c: Color3,
    x: u8,
    y: u8,
    z: u8,
    d: Color3,
)
    requires
        call_ensures(color3_from_rgb::<Fixed>, (Some(r), Some(g), Some(b)), c),
        call_ensures(color3_from_bytes::<Fixed>, (x, y, z), d),
    ensures
        c.r == of_255(Fixed::of_single(r).steps as int),
        c.g == of_255(Fixed::of_single(g).steps as int),
        c.b == of_255(Fixed::of_single(b).steps as int),
        d.r == of_255(x * 65536),
        d.g == of_255(y * 65536),
        d.b == of_255(z * 65536),
{
    shared(Fixed::of_single(r));
    shared(Fixed::of_single(g));
    shared(Fixed::of_single(b));
    shared(Fixed::of_int(x as i128));
    shared(Fixed::of_int(y as i128));
    shared(Fixed::of_int(z as i128));
}

proof fn shared(x: Fixed)
    ensures
        x.quotient(Fixed::of_int(255)).steps == x.steps as int / 255,
{
    let n = x.steps as int;
    assert(Fixed::of_int(255).steps == 16711680);
    assert((n * 65536) / 16711680 == n / 255) by (nonlinear_arith);
}

/// The digits of a hexadecimal number stand for their values, small and large letters alike, and
/// nothing else is a digit.
pub proof fn digits_have_their_values(c: char)
    ensures
        ({
            let n = c as u32;
            match hex_value(c) {
                Some(v) => {
                    ||| 48 <= n <= 57 && v == n - 48
                    ||| 97 <= n <= 102 && v == n - 87
                    ||| 65 <= n <= 70 && v == n - 55
                },
                None => !(48 <= n <= 57) && !(97 <= n <= 102) && !(65 <= n <= 70),
            }
        }),
{
}

/// Six digits stand for three channels in order, red, green and blue, and of the two digits of a
/// channel the first counts sixteen times what the second does. A hash before them changes nothing.
pub proof fn six_digits_in_order(
    hex: &str,
    a: char,
    b: char,
    c: char,
    d: char,
    e: char,
    f: char,
    hashed: bool,
    r: Result<Color3, Fault>,
)
    requires
        call_ensures(color3_from_hex::<Fixed>, (hex,), r),
        hex@ == (if hashed {
            seq!['#', a, b, c, d, e, f]
        } else {
            seq![a, b, c, d, e, f]
        }),
        hex_value(a) is Some,
        hex_value(b) is Some,
        hex_value(c) is Some,
        hex_value(d) is Some,
        hex_value(e) is Some,
        hex_value(f) is Some,
    ensures
        r is Ok,
        r->Ok_0.r == of_255((16 * hex_value(a)->0 + hex_value(b)->0) * 65536),
        r->Ok_0.g == of_255((16 * hex_value(c)->0 + hex_value(d)->0) * 65536),
        r->Ok_0.b == of_255((16 * hex_value(e)->0 + hex_value(f)->0) * 65536),
{
    reveal_strlit("#");
    let digits = seq![a, b, c, d, e, f];
    if hashed {
        assert(hex@.subrange(0, 1) =~= "#"@);
        assert(hex@.skip(1) =~= digits);
    } else {
        if crate::text::begins(hex@, "#"@) {
            assert(hex@.subrange(0, 1)[0] == '#');
            assert(hex@[0] == a);
        }
    }
    assert(crate::vocabulary::hex_digits(hex@) =~= digits);
    plain_bytes(digits);
    shared(Fixed::of_int((16 * hex_value(a)->0 + hex_value(b)->0) as i128));
    shared(Fixed::of_int((16 * hex_value(c)->0 + hex_value(d)->0) as i128));
    shared(Fixed::of_int((16 * hex_value(e)->0 + hex_value(f)->0) as i128));
}

proof fn plain_bytes(s: Seq<char>)
    requires
        forall|i: int| 0 <= i < s.len() ==> (#[trigger] s[i]) as u32 <= 0x7f,
    ensures
        crate::vocabulary::bytes_of(s) == s.len(),
    decreases s.len(),
{
    if s.len() > 0 {
        assert(s.last() == s[s.len() - 1]);
        plain_bytes(s.drop_last());
    }
}

// ---- arithmetic ----

/// Spans add by component, and taking away what was added gives the offsets back.
pub proof fn spans_add_by_component(
    a: UDim2,
    b: UDim2,
    s: Result<UDim2, Fault>,
    d: Result<UDim2, Fault>,
    back: Result<UDim2, Fault>,
)
    requires
        -0x4000_0000 <= a.x.offset < 0x4000_0000,
        -0x4000_0000 <= a.y.offset < 0x4000_0000,
        -0x4000_0000 <= b.x.offset < 0x4000_0000,
        -0x4000_0000 <= b.y.offset < 0x4000_0000,
        call_ensures(udim2_plus::<Fixed>, (a, &Guest::UDim2(b)), s),
        call_ensures(udim2_minus::<Fixed>, (a, &Guest::UDim2(b)), d),
        s is Ok ==> call_ensures(udim2_minus::<Fixed>, (s->Ok_0, &Guest::UDim2(b)), back),
    ensures
        s is Ok && d is Ok && back is Ok,
        s->Ok_0.x.offset == a.x.offset + b.x.offset,
        s->Ok_0.y.offset == a.y.offset + b.y.offset,
        d->Ok_0.x.offset == a.x.offset - b.x.offset,
        d->Ok_0.y.offset == a.y.offset - b.y.offset,
        back->Ok_0.x.offset == a.x.offset,
        back->Ok_0.y.offset == a.y.offset,
        s->Ok_0.x.scale == sum_of(a.x.scale, b.x.scale),
        s->Ok_0.y.scale == sum_of(a.y.scale, b.y.scale),
        d->Ok_0.x.scale == difference_of(a.x.scale, b.x.scale),
        d->Ok_0.y.scale == difference_of(a.y.scale, b.y.scale),
{
}

/// The single of the sum of two singles.
pub open spec fn sum_of(a: u32, b: u32) -> u32 {
    crate::scalar::held(Fixed::of_single(a).steps + Fixed::of_single(b).steps).single()
}

/// The single of the difference of two singles.
pub open spec fn difference_of(a: u32, b: u32) -> u32 {
    crate::scalar::held(Fixed::of_single(a).steps - Fixed::of_single(b).steps).single()
}

/// The single of the product of two singles.
pub open spec fn product_of(a: u32, b: u32) -> u32 {
    crate::scalar::held((Fixed::of_single(a).steps * Fixed::of_single(b).steps) / 65536).single()
}

/// A span of one axis adds as one of a pair does.
pub proof fn a_span_adds_as_one_of_a_pair(
    a: UDim,
    b: UDim,
    s: Result<UDim, Fault>,
    d: Result<UDim, Fault>,
)
    requires
        -0x4000_0000 <= a.offset < 0x4000_0000,
        -0x4000_0000 <= b.offset < 0x4000_0000,
        call_ensures(udim_plus::<Fixed>, (a, &Guest::UDim(b)), s),
        call_ensures(udim_minus::<Fixed>, (a, &Guest::UDim(b)), d),
    ensures
        s is Ok && d is Ok,
        s->Ok_0.offset == a.offset + b.offset,
        d->Ok_0.offset == a.offset - b.offset,
        s->Ok_0.scale == sum_of(a.scale, b.scale),
        d->Ok_0.scale == difference_of(a.scale, b.scale),
{
}

/// Vectors add by component, and a number stretches both components alike, on either side.
pub proof fn vectors_reckon_by_component(
    a: Vector2,
    b: Vector2,
    n: Number,
    s: Result<Vector2, Fault>,
    d: Result<Vector2, Fault>,
    p: Result<Vector2, Fault>,
    left: Result<Vector2, Fault>,
    right: Result<Vector2, Fault>,
)
    requires
        call_ensures(vector2_plus::<Fixed>, (a, &Guest::Vector2(b)), s),
        call_ensures(vector2_minus::<Fixed>, (a, &Guest::Vector2(b)), d),
        call_ensures(vector2_times::<Fixed>, (a, &Guest::Number(n)), p),
        call_ensures(vector2_product::<Fixed>, (&Guest::Number(n), &Guest::Vector2(a)), left),
        call_ensures(vector2_product::<Fixed>, (&Guest::Vector2(a), &Guest::Number(n)), right),
    ensures
        s is Ok && d is Ok && p is Ok && left is Ok && right is Ok,
        s->Ok_0.x == sum_of(a.x, b.x) && s->Ok_0.y == sum_of(a.y, b.y),
        d->Ok_0.x == difference_of(a.x, b.x) && d->Ok_0.y == difference_of(a.y, b.y),
        p->Ok_0.x == product_of(a.x, n.narrow) && p->Ok_0.y == product_of(a.y, n.narrow),
        left->Ok_0 == p->Ok_0 && right->Ok_0 == p->Ok_0,
{
}

/// Only values of the same type add, and only a number stretches a vector.
pub proof fn unlike_values_do_not_add(
    u: UDim,
    v: UDim2,
    w: Vector2,
    other: Guest,
    a: Result<UDim, Fault>,
    b: Result<UDim2, Fault>,
    c: Result<Vector2, Fault>,
    d: Result<Vector2, Fault>,
)
    requires
        !(other is UDim) && !(other is UDim2) && !(other is Vector2) && !(other is Number),
        call_ensures(udim_plus::<Fixed>, (u, &other), a),
        call_ensures(udim2_plus::<Fixed>, (v, &other), b),
        call_ensures(vector2_plus::<Fixed>, (w, &other), c),
        call_ensures(vector2_times::<Fixed>, (w, &other), d),
    ensures
        a is Err && b is Err && c is Err && d is Err,
{
}

/// A rectangle is as wide as its far corner is past its near one, and as high.
pub proof fn a_rectangle_spans_its_corners(r: Rect, w: u32, h: u32)
    requires
        call_ensures(rect_width::<Fixed>, (r,), w),
        call_ensures(rect_height::<Fixed>, (r,), h),
    ensures
        w == difference_of(r.max.x, r.min.x),
        h == difference_of(r.max.y, r.min.y),
{
}

// ---- sequences ----

/// A sequence of one number or colour goes from nothing to one and has it at both ends, or another
/// at the far end where there is one. One of a list of keys has those keys in that order.
pub proof fn a_sequence_goes_from_nothing_to_one(
    n: Number,
    second: Option<u32>,
    a: Color3,
    b: Color3,
    numbers: Result<Vec<NumberKey>, Fault>,
    plain: Result<Vec<ColorKey>, Fault>,
    shaded: Result<Vec<ColorKey>, Fault>,
)
    requires
        call_ensures(number_sequence_new, (&First::One(Guest::Number(n)), second), numbers),
        call_ensures(color_sequence_new, (&First::One(Guest::Color3(a)), &None), plain),
        call_ensures(
            color_sequence_new,
            (&First::One(Guest::Color3(a)), &Some(Guest::Color3(b))),
            shaded,
        ),
    ensures
        numbers is Ok && plain is Ok && shaded is Ok,
        numbers->Ok_0@.len() == 2 && plain->Ok_0@.len() == 2 && shaded->Ok_0@.len() == 2,
        numbers->Ok_0@[0].time == 0 && numbers->Ok_0@[1].time == 0x3f80_0000,
        numbers->Ok_0@[0].value == n.narrow,
        numbers->Ok_0@[1].value == (match second {
            Some(x) => x,
            None => n.narrow,
        }),
        numbers->Ok_0@[0].envelope == 0 && numbers->Ok_0@[1].envelope == 0,
        plain->Ok_0@[0].time == 0 && plain->Ok_0@[1].time == 0x3f80_0000,
        plain->Ok_0@[0].color == a && plain->Ok_0@[1].color == a,
        shaded->Ok_0@[0].time == 0 && shaded->Ok_0@[1].time == 0x3f80_0000,
        shaded->Ok_0@[0].color == a && shaded->Ok_0@[1].color == b,
{
}

/// A sequence of a list of keys has those keys, in that order; a list with anything else in it
/// makes none.
pub proof fn a_sequence_keeps_its_keys(
    list: Vec<Guest>,
    second: Option<u32>,
    other: Option<Guest>,
    numbers: Result<Vec<NumberKey>, Fault>,
    colours: Result<Vec<ColorKey>, Fault>,
    i: int,
)
    requires
        call_ensures(number_sequence_new, (&First::List(list), second), numbers),
        call_ensures(color_sequence_new, (&First::List(list), &other), colours),
        0 <= i < list@.len(),
    ensures
        match numbers {
            Ok(keys) => keys@.len() == list@.len() && list@[i] == Guest::NumberKey(keys@[i]),
            Err(_) => exists|j: int| 0 <= j < list@.len() && !((#[trigger] list@[j]) is NumberKey),
        },
        match colours {
            Ok(keys) => keys@.len() == list@.len() && list@[i] == Guest::ColorKey(keys@[i]),
            Err(_) => exists|j: int| 0 <= j < list@.len() && !((#[trigger] list@[j]) is ColorKey),
        },
{
}

/// A key of colours is made of a time and a colour, and of nothing else.
pub proof fn a_key_has_a_colour(time: u32, value: Guest, r: Result<ColorKey, Fault>)
    requires
        call_ensures(color_key_new, (time, &value), r),
    ensures
        r is Ok == value is Color3,
        r is Ok ==> r->Ok_0.time == time && value == Guest::Color3(r->Ok_0.color),
{
}

// ---- equality ----

/// Two singles are equal where they stand for the same number, and one that stands for none equals
/// nothing.
pub open spec fn same_number(a: u32, b: u32) -> bool {
    &&& a % 0x8000_0000 <= 0x7f80_0000
    &&& b % 0x8000_0000 <= 0x7f80_0000
    &&& (a == b || (a % 0x8000_0000 == 0 && b % 0x8000_0000 == 0))
}

/// Two values of a type are equal where all of their components are, and not where one differs.
pub proof fn values_are_equal_by_component(
    v: Vector2,
    w: Vector2,
    c: Color3,
    d: Color3,
    s: UDim,
    t: UDim,
    r: Rect,
    q: Rect,
    k: NumberKey,
    l: NumberKey,
)
    ensures
        alike(GuestView::Vector2(v), GuestView::Vector2(w)) == (same_number(v.x, w.x)
            && same_number(v.y, w.y)),
        alike(GuestView::Color3(c), GuestView::Color3(d)) == (same_number(c.r, d.r) && same_number(
            c.g,
            d.g,
        ) && same_number(c.b, d.b)),
        alike(GuestView::UDim(s), GuestView::UDim(t)) == (same_number(s.scale, t.scale) && s.offset
            == t.offset),
        alike(GuestView::Rect(r), GuestView::Rect(q)) == (same_number(r.min.x, q.min.x)
            && same_number(r.min.y, q.min.y) && same_number(r.max.x, q.max.x) && same_number(
            r.max.y,
            q.max.y,
        )),
        alike(GuestView::NumberKey(k), GuestView::NumberKey(l)) == (same_number(k.time, l.time)
            && same_number(k.value, l.value) && same_number(k.envelope, l.envelope)),
{
}

/// A pair of spans and a key of colours are equal by their parts.
pub proof fn compound_values_are_equal_by_part(u: UDim2, v: UDim2, k: ColorKey, l: ColorKey)
    ensures
        alike(GuestView::UDim2(u), GuestView::UDim2(v)) == (alike(
            GuestView::UDim(u.x),
            GuestView::UDim(v.x),
        ) && alike(GuestView::UDim(u.y), GuestView::UDim(v.y))),
        alike(GuestView::ColorKey(k), GuestView::ColorKey(l)) == (same_number(k.time, l.time)
            && alike(GuestView::Color3(k.color), GuestView::Color3(l.color))),
{
}

// ---- printing ----

/// A value prints its components in the order in which it is made of them.
pub proof fn values_print_in_order<S: Scalar>(
    s: UDim,
    u: UDim2,
    v: Vector2,
    c: Color3,
    r: Rect,
    st: String,
    ut: String,
    vt: String,
    ct: String,
    rt: String,
)
    requires
        call_ensures(udim_text::<S>, (s,), st),
        call_ensures(udim2_text::<S>, (u,), ut),
        call_ensures(vector2_text::<S>, (v,), vt),
        call_ensures(color3_text::<S>, (c,), ct),
        call_ensures(rect_text::<S>, (r,), rt),
    ensures
        ({
            let n = |bits: u32| S::of_single(bits).spelled()@;
            let i = |x: i32| crate::guest::signed(x as int);
            &&& st@ == n(s.scale) + ", "@ + i(s.offset)
            &&& ut@ == "{"@ + (n(u.x.scale) + ", "@ + i(u.x.offset)) + "}, {"@ + (n(u.y.scale)
                + ", "@ + i(u.y.offset)) + "}"@
            &&& vt@ == n(v.x) + ", "@ + n(v.y)
            &&& ct@ == n(c.r) + ", "@ + n(c.g) + ", "@ + n(c.b)
            &&& rt@ == (n(r.min.x) + ", "@ + n(r.min.y)) + ", "@ + (n(r.max.x) + ", "@ + n(
                r.max.y,
            ))
        }),
{
}

/// A key prints its time first and then what it holds.
pub proof fn keys_print_their_time_first<S: Scalar>(
    k: NumberKey,
    c: ColorKey,
    kt: String,
    ct: String,
)
    requires
        call_ensures(number_key_text::<S>, (k,), kt),
        call_ensures(color_key_text::<S>, (c,), ct),
    ensures
        ({
            let n = |bits: u32| S::of_single(bits).spelled()@;
            &&& kt@ == n(k.time) + " "@ + n(k.value) + " "@ + n(k.envelope)
            &&& ct@ == n(c.time) + " "@ + n(c.color.r) + " "@ + n(c.color.g) + " "@ + n(c.color.b)
        }),
{
}

} // verus!
