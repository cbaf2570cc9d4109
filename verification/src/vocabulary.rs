//! The values that a guest makes itself: how they are made, how they are reckoned with, and how
//! they print.

use crate::enums::same_item;
use crate::extensions::{quoted, quoted_form};
use crate::fault::{refuse, Fault};
use crate::guest::{
    as_content, content_from, pixel_i32, signed, signed_text, Guest, GuestView, Number,
};
use crate::number::{f64_to_int, f32_eq, same_f32};
use crate::scalar::{Fixed, Scalar};
use crate::text::{begins, glue, starts};
use crate::value::{
    color3_eq, same_color3, same_color_keys, same_number_keys, same_udim, same_vector2, udim_eq,
    value_eq, vector2_eq, Color3, ColorKey, Content, Font, NumberKey, Rect, UDim, UDim2, ValueView,
    Vector2,
};
use vstd::prelude::*;
use vstd::string::*;

verus! {

broadcast use vstd::string::group_string_axioms;

// ---- making lengths and colours ----

/// A single that may have been left out.
pub open spec fn or_zero(x: Option<u32>) -> u32 {
    match x {
        Some(b) => b,
        None => 0,
    }
}

/// A number of pixels that may have been left out, truncated towards zero.
pub open spec fn pixels(x: Option<Number>) -> i32 {
    match x {
        Some(n) => f64_to_int(n.wide, i32::MIN as int, i32::MAX as int) as i32,
        None => 0,
    }
}

fn single_or_zero(x: Option<u32>) -> (r: u32)
    ensures
        r == or_zero(x),
{
    match x {
        Some(b) => b,
        None => 0,
    }
}

fn pixels_or_zero(x: &Option<Number>) -> (r: i32)
    ensures
        r == pixels(*x),
{
    match x {
        Some(n) => pixel_i32(n),
        None => 0,
    }
}

/// `UDim.new`.
pub fn udim_new(scale: Option<u32>, offset: &Option<Number>) -> (r: UDim)
    ensures
        r == (UDim { scale: or_zero(scale), offset: pixels(*offset) }),
{
    UDim { scale: single_or_zero(scale), offset: pixels_or_zero(offset) }
}

/// The single of an argument, zero where it is no number.
pub open spec fn narrow_at(args: Seq<Guest>, i: int) -> u32 {
    if 0 <= i < args.len() {
        match args[i] {
            Guest::Number(n) => n.narrow,
            _ => 0,
        }
    } else {
        0
    }
}

/// The pixels of an argument, none where it is no number.
pub open spec fn pixels_at(args: Seq<Guest>, i: int) -> i32 {
    if 0 <= i < args.len() {
        match args[i] {
            Guest::Number(n) => f64_to_int(n.wide, i32::MIN as int, i32::MAX as int) as i32,
            _ => 0,
        }
    } else {
        0
    }
}

fn narrow_of(args: &Vec<Guest>, i: usize) -> (r: u32)
    ensures
        r == narrow_at(args@, i as int),
{
    if i < args.len() {
        match &args[i] {
            Guest::Number(n) => n.narrow,
            _ => 0,
        }
    } else {
        0
    }
}

fn pixels_of(args: &Vec<Guest>, i: usize) -> (r: i32)
    ensures
        r == pixels_at(args@, i as int),
{
    if i < args.len() {
        match &args[i] {
            Guest::Number(n) => pixel_i32(n),
            _ => 0,
        }
    } else {
        0
    }
}

/// `UDim2.new`: two spans, or four numbers, of which those left out are zero.
pub fn udim2_new(args: &Vec<Guest>) -> (r: UDim2)
    ensures
        r == (match (args@.len() == 2, args@[0], args@[1]) {
            (true, Guest::UDim(x), Guest::UDim(y)) => UDim2 { x, y },
            _ => UDim2 {
                x: UDim { scale: narrow_at(args@, 0), offset: pixels_at(args@, 1) },
                y: UDim { scale: narrow_at(args@, 2), offset: pixels_at(args@, 3) },
            },
        }),
{
    if args.len() == 2 {
        match (&args[0], &args[1]) {
            (Guest::UDim(x), Guest::UDim(y)) => return UDim2 { x: *x, y: *y },
            _ => {},
        }
    }
    UDim2 {
        x: UDim { scale: narrow_of(args, 0), offset: pixels_of(args, 1) },
        y: UDim { scale: narrow_of(args, 2), offset: pixels_of(args, 3) },
    }
}

/// `UDim2.fromScale`.
pub fn udim2_from_scale(x: Option<u32>, y: Option<u32>) -> (r: UDim2)
    ensures
        r == (UDim2 {
            x: UDim { scale: or_zero(x), offset: 0 },
            y: UDim { scale: or_zero(y), offset: 0 },
        }),
{
    UDim2 {
        x: UDim { scale: single_or_zero(x), offset: 0 },
        y: UDim { scale: single_or_zero(y), offset: 0 },
    }
}

/// `UDim2.fromOffset`.
pub fn udim2_from_offset(x: &Option<Number>, y: &Option<Number>) -> (r: UDim2)
    ensures
        r == (UDim2 {
            x: UDim { scale: 0, offset: pixels(*x) },
            y: UDim { scale: 0, offset: pixels(*y) },
        }),
{
    UDim2 {
        x: UDim { scale: 0, offset: pixels_or_zero(x) },
        y: UDim { scale: 0, offset: pixels_or_zero(y) },
    }
}

/// `Vector2.new`.
pub fn vector2_new(x: Option<u32>, y: Option<u32>) -> (r: Vector2)
    ensures
        r == (Vector2 { x: or_zero(x), y: or_zero(y) }),
{
    Vector2 { x: single_or_zero(x), y: single_or_zero(y) }
}

/// `Vector2.zero`.
pub fn vector2_zero() -> (r: Vector2)
    ensures
        r == (Vector2 { x: 0, y: 0 }),
{
    Vector2 { x: 0, y: 0 }
}

/// The single of one.
pub const ONE: u32 = 0x3f80_0000;

/// `Vector2.one`.
pub fn vector2_one() -> (r: Vector2)
    ensures
        r == (Vector2 { x: ONE, y: ONE }),
{
    Vector2 { x: ONE, y: ONE }
}

/// `Color3.new`.
pub fn color3_new(r: Option<u32>, g: Option<u32>, b: Option<u32>) -> (c: Color3)
    ensures
        c == (Color3 { r: or_zero(r), g: or_zero(g), b: or_zero(b) }),
{
    Color3 { r: single_or_zero(r), g: single_or_zero(g), b: single_or_zero(b) }
}

/// A channel out of 255, as a channel out of one.
pub open spec fn out_of_255<S: Scalar>(x: S) -> u32 {
    x.quotient(S::of_int(255)).single()
}

fn over_255<S: Scalar>(x: S) -> (r: u32)
    ensures
        r == out_of_255(x),
{
    x.over(S::from_int(255)).to_single()
}

/// `Color3.fromRGB`: channels out of 255.
pub fn color3_from_rgb<S: Scalar>(r: Option<u32>, g: Option<u32>, b: Option<u32>) -> (c: Color3)
    ensures
        c == (Color3 {
            r: out_of_255(S::of_single(or_zero(r))),
            g: out_of_255(S::of_single(or_zero(g))),
            b: out_of_255(S::of_single(or_zero(b))),
        }),
{
    Color3 {
        r: over_255(S::from_single(single_or_zero(r))),
        g: over_255(S::from_single(single_or_zero(g))),
        b: over_255(S::from_single(single_or_zero(b))),
    }
}

/// The colour of three bytes.
pub fn color3_from_bytes<S: Scalar>(r: u8, g: u8, b: u8) -> (c: Color3)
    ensures
        c == (Color3 {
            r: out_of_255(S::of_int(r as i128)),
            g: out_of_255(S::of_int(g as i128)),
            b: out_of_255(S::of_int(b as i128)),
        }),
{
    Color3 {
        r: over_255(S::from_int(r as i128)),
        g: over_255(S::from_int(g as i128)),
        b: over_255(S::from_int(b as i128)),
    }
}

// ---- colours in hexadecimal ----

/// How many bytes a character takes in UTF-8.
pub open spec fn width(c: char) -> nat {
    let n = c as u32;
    if n < 0x80 {
        1
    } else if n < 0x800 {
        2
    } else if n < 0x1_0000 {
        3
    } else {
        4
    }
}

/// How many bytes a text takes in UTF-8.
pub open spec fn bytes_of(s: Seq<char>) -> nat
    decreases s.len(),
{
    if s.len() == 0 {
        0
    } else {
        bytes_of(s.drop_last()) + width(s.last())
    }
}

/// Each character twice.
pub open spec fn doubled(s: Seq<char>) -> Seq<char> {
    Seq::new(2 * s.len(), |i: int| s[i / 2])
}

/// The value of a hexadecimal digit.
pub open spec fn hex_value(c: char) -> Option<u8> {
    if '0' <= c <= '9' {
        Some((c as u32 - '0' as u32) as u8)
    } else if 'a' <= c <= 'f' {
        Some((c as u32 - 'a' as u32 + 10) as u8)
    } else if 'A' <= c <= 'F' {
        Some((c as u32 - 'A' as u32 + 10) as u8)
    } else {
        None
    }
}

/// The value of two hexadecimal digits.
pub open spec fn pair_value(a: char, b: char) -> Option<u8> {
    match (hex_value(a), hex_value(b)) {
        (Some(x), Some(y)) => Some((16 * x + y) as u8),
        _ => None,
    }
}

/// The digits of a colour: what follows the hash, where there is one.
pub open spec fn hex_digits(hex: Seq<char>) -> Seq<char> {
    if begins(hex, "#"@) {
        hex.skip(1)
    } else {
        hex
    }
}

/// The six digits of a colour, of which three may have been left to be doubled.
pub open spec fn expanded(digits: Seq<char>) -> Option<Seq<char>> {
    if bytes_of(digits) == 3 {
        Some(doubled(digits))
    } else if bytes_of(digits) == 6 {
        Some(digits)
    } else {
        None
    }
}

/// The three channels of six digits.
pub open spec fn channels(s: Seq<char>) -> Option<(u8, u8, u8)> {
    if s.len() != 6 {
        None
    } else {
        match (pair_value(s[0], s[1]), pair_value(s[2], s[3]), pair_value(s[4], s[5])) {
            (Some(r), Some(g), Some(b)) => Some((r, g, b)),
            _ => None,
        }
    }
}

pub open spec fn hex_length_message(hex: Seq<char>) -> Seq<char> {
    "Color3.fromHex expects \"#RGB\" or \"#RRGGBB\", got "@ + quoted_form(hex)
}

pub open spec fn hex_digit_message(hex: Seq<char>) -> Seq<char> {
    "Color3.fromHex expects hexadecimal digits, got "@ + quoted_form(hex)
}

/// The colour that a text in hexadecimal stands for, or why it stands for none.
pub open spec fn hex_colour<S: Scalar>(hex: Seq<char>) -> Result<Color3, Seq<char>> {
    match expanded(hex_digits(hex)) {
        None => Err(hex_length_message(hex)),
        Some(s) => match channels(s) {
            None => Err(hex_digit_message(hex)),
            Some((r, g, b)) => Ok(
                Color3 {
                    r: out_of_255(S::of_int(r as i128)),
                    g: out_of_255(S::of_int(g as i128)),
                    b: out_of_255(S::of_int(b as i128)),
                },
            ),
        },
    }
}

fn width_of(c: char) -> (r: usize)
    ensures
        r == width(c),
{
    let n: u32 = c as u32;
    if n < 0x80 {
        1
    } else if n < 0x800 {
        2
    } else if n < 0x1_0000 {
        3
    } else {
        4
    }
}

/// The number of bytes, as far as seven.
fn count_bytes(s: &Vec<char>) -> (r: usize)
    ensures
        r <= 10,
        r < 7 ==> r == bytes_of(s@),
        r >= 7 ==> bytes_of(s@) >= 7,
{
    let mut r: usize = 0;
    let mut i: usize = 0;
    assert(s@.take(0) =~= Seq::empty());
    while i < s.len() && r < 7
        invariant
            i <= s.len(),
            r <= 10,
            r == bytes_of(s@.take(i as int)),
        decreases s.len() - i,
    {
        assert(s@.take(i + 1).drop_last() =~= s@.take(i as int));
        r += width_of(s[i]);
        i += 1;
    }
    proof {
        if i == s@.len() {
            assert(s@.take(i as int) =~= s@);
        }
        longer_takes_more(s@, i as int);
    }
    r
}

proof fn longer_takes_more(s: Seq<char>, n: int)
    requires
        0 <= n <= s.len(),
    ensures
        bytes_of(s.take(n)) <= bytes_of(s),
    decreases s.len() - n,
{
    if n < s.len() {
        assert(s.take(n + 1).drop_last() =~= s.take(n));
        longer_takes_more(s, n + 1);
    } else {
        assert(s.take(n) =~= s);
    }
}

fn hex_digit(c: char) -> (r: Option<u8>)
    ensures
        r == hex_value(c),
{
    if '0' <= c && c <= '9' {
        Some((c as u32 - '0' as u32) as u8)
    } else if 'a' <= c && c <= 'f' {
        Some((c as u32 - 'a' as u32 + 10) as u8)
    } else if 'A' <= c && c <= 'F' {
        Some((c as u32 - 'A' as u32 + 10) as u8)
    } else {
        None
    }
}

fn hex_pair(a: char, b: char) -> (r: Option<u8>)
    ensures
        r == pair_value(a, b),
{
    match (hex_digit(a), hex_digit(b)) {
        (Some(x), Some(y)) => Some(16 * x + y),
        _ => None,
    }
}

/// The characters of the digits of a colour.
fn digits_of(hex: &str) -> (r: Vec<char>)
    ensures
        r@ == hex_digits(hex@),
{
    let n: usize = hex.unicode_len();
    let skip: usize = if starts(hex, "#") {
        1
    } else {
        0
    };
    proof {
        reveal_strlit("#");
    }
    let mut r: Vec<char> = Vec::new();
    let mut i: usize = skip;
    while i < n
        invariant
            n == hex@.len(),
            skip <= i <= n,
            r@.len() == i - skip,
            forall|j: int| 0 <= j < r@.len() ==> #[trigger] r@[j] == hex@[j + skip],
        decreases n - i,
    {
        r.push(hex.get_char(i));
        i += 1;
    }
    assert(r@ =~= hex_digits(hex@));
    r
}

fn expand(digits: &Vec<char>) -> (r: Option<Vec<char>>)
    ensures
        match r {
            Some(s) => expanded(digits@) == Some(s@),
            None => expanded(digits@) is None,
        },
{
    let n: usize = count_bytes(digits);
    if n != 3 && n != 6 {
        return None;
    }
    let mut r: Vec<char> = Vec::new();
    let mut i: usize = 0;
    while i < digits.len()
        invariant
            i <= digits.len(),
            n == 3 ==> r@.len() == 2 * i,
            n != 3 ==> r@.len() == i,
            n == 3 ==> forall|j: int| 0 <= j < 2 * i ==> #[trigger] r@[j] == digits@[j / 2],
            n != 3 ==> forall|j: int| 0 <= j < i ==> #[trigger] r@[j] == digits@[j],
        decreases digits.len() - i,
    {
        r.push(digits[i]);
        if n == 3 {
            r.push(digits[i]);
        }
        i += 1;
    }
    proof {
        if n == 3 {
            assert(r@ =~= doubled(digits@));
        } else {
            assert(r@ =~= digits@);
        }
    }
    Some(r)
}

/// `Color3.fromHex`: three digits or six, with or without a hash.
pub fn color3_from_hex<S: Scalar>(hex: &str) -> (r: Result<Color3, Fault>)
    ensures
        match r {
            Ok(c) => hex_colour::<S>(hex@) == Ok::<Color3, Seq<char>>(c),
            Err(f) => hex_colour::<S>(hex@) == Err::<Color3, Seq<char>>(f@),
        },
{
    let s = match expand(&digits_of(hex)) {
        Some(s) => s,
        None => return Err(
            Fault {
                message: glue(
                    "Color3.fromHex expects \"#RGB\" or \"#RRGGBB\", got ".to_owned(),
                    quoted(hex).as_str(),
                ),
            },
        ),
    };
    if s.len() == 6 {
        if let (Some(r), Some(g), Some(b)) = (
            hex_pair(s[0], s[1]),
            hex_pair(s[2], s[3]),
            hex_pair(s[4], s[5]),
        ) {
            return Ok(
                Color3 {
                    r: over_255(S::from_int(r as i128)),
                    g: over_255(S::from_int(g as i128)),
                    b: over_255(S::from_int(b as i128)),
                },
            );
        }
    }
    Err(
        Fault {
            message: glue(
                "Color3.fromHex expects hexadecimal digits, got ".to_owned(),
                quoted(hex).as_str(),
            ),
        },
    )
}

// ---- colours by hue ----

/// The colour of a hue, a saturation and a value.
pub open spec fn hue_colour<S: Scalar>(hue: u32, saturation: u32, value: u32) -> Color3 {
    let h = S::of_single(hue);
    let s = S::of_single(saturation);
    let v = S::of_single(value);
    let one = S::of_int(1);
    let turned = h.product(S::of_int(6));
    let sector = turned.floored();
    let f = turned.difference(sector);
    let p = v.product(one.difference(s));
    let q = v.product(one.difference(f.product(s)));
    let t = v.product(one.difference(one.difference(f).product(s)));
    let sixth = (sector.long() as int) % 6;
    let (r, g, b) = if sixth == 0 {
        (v, t, p)
    } else if sixth == 1 {
        (q, v, p)
    } else if sixth == 2 {
        (p, v, t)
    } else if sixth == 3 {
        (p, q, v)
    } else if sixth == 4 {
        (t, p, v)
    } else {
        (v, p, q)
    };
    Color3 { r: r.single(), g: g.single(), b: b.single() }
}

fn sixth_of(n: i64) -> (r: i64)
    ensures
        r == (n as int) % 6,
{
    if n >= 0 {
        n % 6
    } else {
        let below: i128 = (-(n as i128)) % 6;
        if below == 0 {
            0
        } else {
            (6 - below) as i64
        }
    }
}

/// `Color3.fromHSV`.
pub fn color3_from_hsv<S: Scalar>(hue: u32, saturation: u32, value: u32) -> (r: Color3)
    ensures
        r == hue_colour::<S>(hue, saturation, value),
{
    let h = S::from_single(hue);
    let s = S::from_single(saturation);
    let v = S::from_single(value);
    let one = S::from_int(1);
    let turned = h.times(S::from_int(6));
    let sector = turned.floor();
    let f = turned.minus(sector);
    let p = v.times(one.minus(s));
    let q = v.times(one.minus(f.times(s)));
    let t = v.times(one.minus(one.minus(f).times(s)));
    let rest: i64 = sixth_of(sector.to_long());
    let (r, g, b) = if rest == 0 {
        (v, t, p)
    } else if rest == 1 {
        (q, v, p)
    } else if rest == 2 {
        (p, v, t)
    } else if rest == 3 {
        (p, q, v)
    } else if rest == 4 {
        (t, p, v)
    } else {
        (v, p, q)
    };
    Color3 { r: r.to_single(), g: g.to_single(), b: b.to_single() }
}

// ---- rectangles ----

/// `Rect.new`: two corners, or four numbers, of which those left out are zero.
pub fn rect_new(args: &Vec<Guest>) -> (r: Rect)
    ensures
        r == (match (args@.len() == 2, args@[0], args@[1]) {
            (true, Guest::Vector2(min), Guest::Vector2(max)) => Rect { min, max },
            _ => Rect {
                min: Vector2 { x: narrow_at(args@, 0), y: narrow_at(args@, 1) },
                max: Vector2 { x: narrow_at(args@, 2), y: narrow_at(args@, 3) },
            },
        }),
{
    if args.len() == 2 {
        match (&args[0], &args[1]) {
            (Guest::Vector2(min), Guest::Vector2(max)) => return Rect { min: *min, max: *max },
            _ => {},
        }
    }
    Rect {
        min: Vector2 { x: narrow_of(args, 0), y: narrow_of(args, 1) },
        max: Vector2 { x: narrow_of(args, 2), y: narrow_of(args, 3) },
    }
}

/// The difference of two singles.
pub open spec fn singles_apart<S: Scalar>(a: u32, b: u32) -> u32 {
    S::of_single(a).difference(S::of_single(b)).single()
}

/// The sum of two singles.
pub open spec fn singles_together<S: Scalar>(a: u32, b: u32) -> u32 {
    S::of_single(a).sum(S::of_single(b)).single()
}

fn apart<S: Scalar>(a: u32, b: u32) -> (r: u32)
    ensures
        r == singles_apart::<S>(a, b),
{
    S::from_single(a).minus(S::from_single(b)).to_single()
}

fn together<S: Scalar>(a: u32, b: u32) -> (r: u32)
    ensures
        r == singles_together::<S>(a, b),
{
    S::from_single(a).plus(S::from_single(b)).to_single()
}

/// How wide a rectangle is.
pub fn rect_width<S: Scalar>(r: Rect) -> (w: u32)
    ensures
        w == singles_apart::<S>(r.max.x, r.min.x),
{
    apart::<S>(r.max.x, r.min.x)
}

/// How high a rectangle is.
pub fn rect_height<S: Scalar>(r: Rect) -> (h: u32)
    ensures
        h == singles_apart::<S>(r.max.y, r.min.y),
{
    apart::<S>(r.max.y, r.min.y)
}

// ---- arithmetic ----

/// Do two offsets add up to one?
pub open spec fn adds(a: i32, b: i32) -> bool {
    i32::MIN <= a + b <= i32::MAX
}

/// Is the difference of two offsets one?
pub open spec fn subtracts(a: i32, b: i32) -> bool {
    i32::MIN <= a - b <= i32::MAX
}

pub open spec fn udim_sum<S: Scalar>(a: UDim, b: UDim) -> UDim {
    UDim { scale: singles_together::<S>(a.scale, b.scale), offset: (a.offset + b.offset) as i32 }
}

pub open spec fn udim_difference<S: Scalar>(a: UDim, b: UDim) -> UDim {
    UDim { scale: singles_apart::<S>(a.scale, b.scale), offset: (a.offset - b.offset) as i32 }
}

fn add_udim<S: Scalar>(a: UDim, b: UDim) -> (r: UDim)
    requires
        adds(a.offset, b.offset),
    ensures
        r == udim_sum::<S>(a, b),
{
    UDim { scale: together::<S>(a.scale, b.scale), offset: a.offset + b.offset }
}

fn sub_udim<S: Scalar>(a: UDim, b: UDim) -> (r: UDim)
    requires
        subtracts(a.offset, b.offset),
    ensures
        r == udim_difference::<S>(a, b),
{
    UDim { scale: apart::<S>(a.scale, b.scale), offset: a.offset - b.offset }
}

/// A span and another value, added.
pub fn udim_plus<S: Scalar>(a: UDim, other: &Guest) -> (r: Result<UDim, Fault>)
    requires
        other matches Guest::UDim(b) ==> adds(a.offset, b.offset),
    ensures
        match *other {
            Guest::UDim(b) => r == Ok::<UDim, Fault>(udim_sum::<S>(a, b)),
            _ => r is Err && r->Err_0@ == "a UDim can only be added to a UDim"@,
        },
{
    match other {
        Guest::UDim(b) => Ok(add_udim::<S>(a, *b)),
        _ => Err(refuse("a UDim can only be added to a UDim")),
    }
}

/// Another value taken from a span.
pub fn udim_minus<S: Scalar>(a: UDim, other: &Guest) -> (r: Result<UDim, Fault>)
    requires
        other matches Guest::UDim(b) ==> subtracts(a.offset, b.offset),
    ensures
        match *other {
            Guest::UDim(b) => r == Ok::<UDim, Fault>(udim_difference::<S>(a, b)),
            _ => r is Err && r->Err_0@ == "a UDim can only be subtracted from a UDim"@,
        },
{
    match other {
        Guest::UDim(b) => Ok(sub_udim::<S>(a, *b)),
        _ => Err(refuse("a UDim can only be subtracted from a UDim")),
    }
}

/// A pair of spans and another value, added.
pub fn udim2_plus<S: Scalar>(a: UDim2, other: &Guest) -> (r: Result<UDim2, Fault>)
    requires
        other matches Guest::UDim2(b) ==> adds(a.x.offset, b.x.offset) && adds(
            a.y.offset,
            b.y.offset,
        ),
    ensures
        match *other {
            Guest::UDim2(b) => r == Ok::<UDim2, Fault>(
                UDim2 { x: udim_sum::<S>(a.x, b.x), y: udim_sum::<S>(a.y, b.y) },
            ),
            _ => r is Err && r->Err_0@ == "a UDim2 can only be added to a UDim2"@,
        },
{
    match other {
        Guest::UDim2(b) => Ok(
            UDim2 { x: add_udim::<S>(a.x, b.x), y: add_udim::<S>(a.y, b.y) },
        ),
        _ => Err(refuse("a UDim2 can only be added to a UDim2")),
    }
}

/// Another value taken from a pair of spans.
pub fn udim2_minus<S: Scalar>(a: UDim2, other: &Guest) -> (r: Result<UDim2, Fault>)
    requires
        other matches Guest::UDim2(b) ==> subtracts(a.x.offset, b.x.offset) && subtracts(
            a.y.offset,
            b.y.offset,
        ),
    ensures
        match *other {
            Guest::UDim2(b) => r == Ok::<UDim2, Fault>(
                UDim2 { x: udim_difference::<S>(a.x, b.x), y: udim_difference::<S>(a.y, b.y) },
            ),
            _ => r is Err && r->Err_0@ == "a UDim2 can only be subtracted from a UDim2"@,
        },
{
    match other {
        Guest::UDim2(b) => Ok(
            UDim2 { x: sub_udim::<S>(a.x, b.x), y: sub_udim::<S>(a.y, b.y) },
        ),
        _ => Err(refuse("a UDim2 can only be subtracted from a UDim2")),
    }
}

/// A vector and another value, added.
pub fn vector2_plus<S: Scalar>(a: Vector2, other: &Guest) -> (r: Result<Vector2, Fault>)
    ensures
        match *other {
            Guest::Vector2(b) => r == Ok::<Vector2, Fault>(
                Vector2 { x: singles_together::<S>(a.x, b.x), y: singles_together::<S>(a.y, b.y) },
            ),
            _ => r is Err && r->Err_0@ == "a Vector2 can only be added to a Vector2"@,
        },
{
    match other {
        Guest::Vector2(b) => Ok(
            Vector2 { x: together::<S>(a.x, b.x), y: together::<S>(a.y, b.y) },
        ),
        _ => Err(refuse("a Vector2 can only be added to a Vector2")),
    }
}

/// Another value taken from a vector.
pub fn vector2_minus<S: Scalar>(a: Vector2, other: &Guest) -> (r: Result<Vector2, Fault>)
    ensures
        match *other {
            Guest::Vector2(b) => r == Ok::<Vector2, Fault>(
                Vector2 { x: singles_apart::<S>(a.x, b.x), y: singles_apart::<S>(a.y, b.y) },
            ),
            _ => r is Err && r->Err_0@ == "a Vector2 can only be subtracted from a Vector2"@,
        },
{
    match other {
        Guest::Vector2(b) => Ok(Vector2 { x: apart::<S>(a.x, b.x), y: apart::<S>(a.y, b.y) }),
        _ => Err(refuse("a Vector2 can only be subtracted from a Vector2")),
    }
}

/// A vector with both components times a single.
pub open spec fn scaled<S: Scalar>(a: Vector2, by: u32) -> Vector2 {
    Vector2 {
        x: S::of_single(a.x).product(S::of_single(by)).single(),
        y: S::of_single(a.y).product(S::of_single(by)).single(),
    }
}

/// A vector times a number.
pub fn vector2_times<S: Scalar>(a: Vector2, other: &Guest) -> (r: Result<Vector2, Fault>)
    ensures
        match *other {
            Guest::Number(n) => r == Ok::<Vector2, Fault>(scaled::<S>(a, n.narrow)),
            _ => r is Err && r->Err_0@ == "a Vector2 can be multiplied by a number"@,
        },
{
    match other {
        Guest::Number(n) => {
            let by = S::from_single(n.narrow);
            Ok(
                Vector2 {
                    x: S::from_single(a.x).times(by).to_single(),
                    y: S::from_single(a.y).times(by).to_single(),
                },
            )
        },
        _ => Err(refuse("a Vector2 can be multiplied by a number")),
    }
}

/// The product of two values of which one is a vector and the other a number, either way round.
pub fn vector2_product<S: Scalar>(a: &Guest, b: &Guest) -> (r: Result<Vector2, Fault>)
    ensures
        match (*a, *b) {
            (Guest::Vector2(v), Guest::Number(n)) => r == Ok::<Vector2, Fault>(
                scaled::<S>(v, n.narrow),
            ),
            (Guest::Number(n), Guest::Vector2(v)) => r == Ok::<Vector2, Fault>(
                scaled::<S>(v, n.narrow),
            ),
            _ => r is Err && r->Err_0@ == "a Vector2 can be multiplied by a number"@,
        },
{
    match (a, b) {
        (Guest::Vector2(v), _) => vector2_times::<S>(*v, b),
        (_, Guest::Vector2(v)) => vector2_times::<S>(*v, a),
        _ => Err(refuse("a Vector2 can be multiplied by a number")),
    }
}

// ---- sequences ----

/// What a sequence is made of: a list, or one value.
#[derive(Debug)]
pub enum First {
    List(Vec<Guest>),
    One(Guest),
}

/// `NumberSequenceKeypoint.new`.
pub fn number_key_new(time: u32, value: u32, envelope: Option<u32>) -> (r: NumberKey)
    ensures
        r == (NumberKey { time, value, envelope: or_zero(envelope) }),
{
    NumberKey { time, value, envelope: single_or_zero(envelope) }
}

/// `ColorSequenceKeypoint.new`.
pub fn color_key_new(time: u32, value: &Guest) -> (r: Result<ColorKey, Fault>)
    ensures
        match *value {
            Guest::Color3(color) => r == Ok::<ColorKey, Fault>(ColorKey { time, color }),
            _ => r is Err && r->Err_0@ == "ColorSequenceKeypoint.new expects a time and a Color3"@,
        },
{
    match value {
        Guest::Color3(color) => Ok(ColorKey { time, color: *color }),
        _ => Err(refuse("ColorSequenceKeypoint.new expects a time and a Color3")),
    }
}

/// Are all of these keys of numbers?
pub open spec fn all_number_keys(list: Seq<Guest>) -> bool {
    forall|i: int| 0 <= i < list.len() ==> (#[trigger] list[i]) is NumberKey
}

/// Are all of these keys of colours?
pub open spec fn all_color_keys(list: Seq<Guest>) -> bool {
    forall|i: int| 0 <= i < list.len() ==> (#[trigger] list[i]) is ColorKey
}

/// The numbers of a sequence: those of a list of keys, or from one number to another, which may
/// have been left out.
pub open spec fn number_keys(first: First, second: Option<u32>) -> Result<
    Seq<NumberKey>,
    Seq<char>,
> {
    match first {
        First::List(list) => if all_number_keys(list@) {
            Ok(list@.map_values(|g: Guest| g->NumberKey_0))
        } else {
            Err("NumberSequence.new expects a list of NumberSequenceKeypoint"@)
        },
        First::One(Guest::Number(n)) => Ok(
            seq![
                NumberKey { time: 0, value: n.narrow, envelope: 0 },
                NumberKey {
                    time: ONE,
                    value: match second {
                        Some(b) => b,
                        None => n.narrow,
                    },
                    envelope: 0,
                },
            ],
        ),
        First::One(_) => Err("NumberSequence.new expects a number or a keypoint list"@),
    }
}

/// `NumberSequence.new`.
pub fn number_sequence_new(first: &First, second: Option<u32>) -> (r: Result<
    Vec<NumberKey>,
    Fault,
>)
    ensures
        match r {
            Ok(keys) => number_keys(*first, second) == Ok::<Seq<NumberKey>, Seq<char>>(keys@),
            Err(f) => number_keys(*first, second) == Err::<Seq<NumberKey>, Seq<char>>(f@),
        },
{
    match first {
        First::List(list) => {
            let mut r: Vec<NumberKey> = Vec::new();
            let mut i: usize = 0;
            while i < list.len()
                invariant
                    *first == First::List(*list),
                    i <= list.len(),
                    r@.len() == i,
                    forall|j: int|
                        0 <= j < i ==> (#[trigger] list@[j]) is NumberKey && r@[j]
                            == list@[j]->NumberKey_0,
                decreases list.len() - i,
            {
                match &list[i] {
                    Guest::NumberKey(k) => {
                        r.push(*k);
                    },
                    _ => {
                        assert(!(list@[i as int] is NumberKey));
                        return Err(
                            refuse("NumberSequence.new expects a list of NumberSequenceKeypoint"),
                        );
                    },
                }
                i += 1;
            }
            assert(r@ =~= list@.map_values(|g: Guest| g->NumberKey_0));
            Ok(r)
        },
        First::One(Guest::Number(n)) => {
            let b: u32 = match second {
                Some(b) => b,
                None => n.narrow,
            };
            let mut r: Vec<NumberKey> = Vec::new();
            r.push(NumberKey { time: 0, value: n.narrow, envelope: 0 });
            r.push(NumberKey { time: ONE, value: b, envelope: 0 });
            assert(r@ =~= number_keys(*first, second)->Ok_0);
            Ok(r)
        },
        First::One(_) => Err(refuse("NumberSequence.new expects a number or a keypoint list")),
    }
}

/// The colours of a sequence: those of a list of keys, or from one colour to another, which may
/// have been left out.
pub open spec fn color_keys(first: First, second: Option<Guest>) -> Result<
    Seq<ColorKey>,
    Seq<char>,
> {
    match first {
        First::List(list) => if all_color_keys(list@) {
            Ok(list@.map_values(|g: Guest| g->ColorKey_0))
        } else {
            Err("ColorSequence.new expects a list of ColorSequenceKeypoint"@)
        },
        First::One(Guest::Color3(a)) => match second {
            None => Ok(seq![ColorKey { time: 0, color: a }, ColorKey { time: ONE, color: a }]),
            Some(Guest::Color3(b)) => Ok(
                seq![ColorKey { time: 0, color: a }, ColorKey { time: ONE, color: b }],
            ),
            Some(_) => Err("ColorSequence.new's second argument must be a Color3"@),
        },
        First::One(_) => Err("ColorSequence.new expects a Color3 or a keypoint list"@),
    }
}

/// `ColorSequence.new`.
pub fn color_sequence_new(first: &First, second: &Option<Guest>) -> (r: Result<
    Vec<ColorKey>,
    Fault,
>)
    ensures
        match r {
            Ok(keys) => color_keys(*first, *second) == Ok::<Seq<ColorKey>, Seq<char>>(keys@),
            Err(f) => color_keys(*first, *second) == Err::<Seq<ColorKey>, Seq<char>>(f@),
        },
{
    match first {
        First::List(list) => {
            let mut r: Vec<ColorKey> = Vec::new();
            let mut i: usize = 0;
            while i < list.len()
                invariant
                    *first == First::List(*list),
                    i <= list.len(),
                    r@.len() == i,
                    forall|j: int|
                        0 <= j < i ==> (#[trigger] list@[j]) is ColorKey && r@[j]
                            == list@[j]->ColorKey_0,
                decreases list.len() - i,
            {
                match &list[i] {
                    Guest::ColorKey(k) => {
                        r.push(*k);
                    },
                    _ => {
                        assert(!(list@[i as int] is ColorKey));
                        return Err(
                            refuse("ColorSequence.new expects a list of ColorSequenceKeypoint"),
                        );
                    },
                }
                i += 1;
            }
            assert(r@ =~= list@.map_values(|g: Guest| g->ColorKey_0));
            Ok(r)
        },
        First::One(Guest::Color3(a)) => {
            let b: Color3 = match second {
                None => *a,
                Some(Guest::Color3(b)) => *b,
                Some(_) => return Err(
                    refuse("ColorSequence.new's second argument must be a Color3"),
                ),
            };
            let mut r: Vec<ColorKey> = Vec::new();
            r.push(ColorKey { time: 0, color: *a });
            r.push(ColorKey { time: ONE, color: b });
            assert(r@ =~= color_keys(*first, *second)->Ok_0);
            Ok(r)
        },
        First::One(_) => Err(refuse("ColorSequence.new expects a Color3 or a keypoint list")),
    }
}

// ---- equality ----

pub open spec fn rect_eq(a: Rect, b: Rect) -> bool {
    vector2_eq(a.min, b.min) && vector2_eq(a.max, b.max)
}

pub open spec fn number_key_eq(a: NumberKey, b: NumberKey) -> bool {
    f32_eq(a.time, b.time) && f32_eq(a.value, b.value) && f32_eq(a.envelope, b.envelope)
}

pub open spec fn color_key_eq(a: ColorKey, b: ColorKey) -> bool {
    f32_eq(a.time, b.time) && color3_eq(a.color, b.color)
}

/// Does a value that a guest made equal another? Values of two types are never equal, but for a
/// content and a text.
pub open spec fn alike(a: GuestView, b: GuestView) -> bool {
    match (a, b) {
        (GuestView::UDim(x), GuestView::UDim(y)) => udim_eq(x, y),
        (GuestView::UDim2(x), GuestView::UDim2(y)) => udim_eq(x.x, y.x) && udim_eq(x.y, y.y),
        (GuestView::Vector2(x), GuestView::Vector2(y)) => vector2_eq(x, y),
        (GuestView::Color3(x), GuestView::Color3(y)) => color3_eq(x, y),
        (GuestView::Rect(x), GuestView::Rect(y)) => rect_eq(x, y),
        (GuestView::Font(x), GuestView::Font(y)) => x == y,
        (GuestView::NumberKey(x), GuestView::NumberKey(y)) => number_key_eq(x, y),
        (GuestView::ColorKey(x), GuestView::ColorKey(y)) => color_key_eq(x, y),
        (GuestView::NumberSequence(x), GuestView::NumberSequence(y)) => value_eq(
            ValueView::NumberSequence(x),
            ValueView::NumberSequence(y),
        ),
        (GuestView::ColorSequence(x), GuestView::ColorSequence(y)) => value_eq(
            ValueView::ColorSequence(x),
            ValueView::ColorSequence(y),
        ),
        (GuestView::Item(x), GuestView::Item(y)) => x == y,
        (GuestView::Content(x), _) => as_content(b) == Some(x),
        _ => false,
    }
}

fn same_content(c: &Content, other: &Guest) -> (r: bool)
    ensures
        r == (as_content(other@) == Some(c@)),
{
    match content_from(other) {
        Some(o) => c.matches(&o),
        None => false,
    }
}

/// Does a value that a guest made equal another?
pub fn is_alike(a: &Guest, b: &Guest) -> (r: bool)
    ensures
        r == alike(a@, b@),
{
    match (a, b) {
        (Guest::UDim(x), Guest::UDim(y)) => same_udim(*x, *y),
        (Guest::UDim2(x), Guest::UDim2(y)) => same_udim(x.x, y.x) && same_udim(x.y, y.y),
        (Guest::Vector2(x), Guest::Vector2(y)) => same_vector2(*x, *y),
        (Guest::Color3(x), Guest::Color3(y)) => same_color3(*x, *y),
        (Guest::Rect(x), Guest::Rect(y)) => same_vector2(x.min, y.min) && same_vector2(
            x.max,
            y.max,
        ),
        (Guest::Font(x), Guest::Font(y)) => x.matches(y),
        (Guest::NumberKey(x), Guest::NumberKey(y)) => same_f32(x.time, y.time) && same_f32(
            x.value,
            y.value,
        ) && same_f32(x.envelope, y.envelope),
        (Guest::ColorKey(x), Guest::ColorKey(y)) => same_f32(x.time, y.time) && same_color3(
            x.color,
            y.color,
        ),
        (Guest::NumberSequence(x), Guest::NumberSequence(y)) => same_number_keys(x, y),
        (Guest::ColorSequence(x), Guest::ColorSequence(y)) => same_color_keys(x, y),
        (Guest::Item(x), Guest::Item(y)) => same_item(x, y),
        (Guest::Content(x), _) => same_content(x, b),
        _ => false,
    }
}

// ---- how values print ----

/// How a single prints.
pub open spec fn single_words<S: Scalar>(bits: u32) -> Seq<char> {
    S::of_single(bits).spelled()@
}

fn single_text<S: Scalar>(bits: u32) -> (r: String)
    ensures
        r@ == single_words::<S>(bits),
{
    S::from_single(bits).spell()
}

/// `a, b`.
fn listed(a: String, b: &str) -> (r: String)
    ensures
        r@ == a@ + ", "@ + b@,
{
    glue(glue(a, ", "), b)
}

/// `a b`.
fn spaced(a: String, b: &str) -> (r: String)
    ensures
        r@ == a@ + " "@ + b@,
{
    glue(glue(a, " "), b)
}

pub open spec fn udim_words<S: Scalar>(u: UDim) -> Seq<char> {
    single_words::<S>(u.scale) + ", "@ + signed(u.offset as int)
}

/// How a span prints.
pub fn udim_text<S: Scalar>(u: UDim) -> (r: String)
    ensures
        r@ == udim_words::<S>(u),
{
    listed(single_text::<S>(u.scale), signed_text(u.offset).as_str())
}

/// How a pair of spans prints.
pub fn udim2_text<S: Scalar>(u: UDim2) -> (r: String)
    ensures
        r@ == "{"@ + udim_words::<S>(u.x) + "}, {"@ + udim_words::<S>(u.y) + "}"@,
{
    glue(
        glue(
            glue(glue("{".to_owned(), udim_text::<S>(u.x).as_str()), "}, {"),
            udim_text::<S>(u.y).as_str(),
        ),
        "}",
    )
}

pub open spec fn vector2_words<S: Scalar>(v: Vector2) -> Seq<char> {
    single_words::<S>(v.x) + ", "@ + single_words::<S>(v.y)
}

/// How a vector prints.
pub fn vector2_text<S: Scalar>(v: Vector2) -> (r: String)
    ensures
        r@ == vector2_words::<S>(v),
{
    listed(single_text::<S>(v.x), single_text::<S>(v.y).as_str())
}

/// How a colour prints.
pub fn color3_text<S: Scalar>(c: Color3) -> (r: String)
    ensures
        r@ == single_words::<S>(c.r) + ", "@ + single_words::<S>(c.g) + ", "@ + single_words::<S>(
            c.b,
        ),
{
    listed(
        listed(single_text::<S>(c.r), single_text::<S>(c.g).as_str()),
        single_text::<S>(c.b).as_str(),
    )
}

/// How a rectangle prints.
pub fn rect_text<S: Scalar>(rect: Rect) -> (r: String)
    ensures
        r@ == vector2_words::<S>(rect.min) + ", "@ + vector2_words::<S>(rect.max),
{
    listed(vector2_text::<S>(rect.min), vector2_text::<S>(rect.max).as_str())
}

/// How a key of numbers prints.
pub fn number_key_text<S: Scalar>(k: NumberKey) -> (r: String)
    ensures
        r@ == single_words::<S>(k.time) + " "@ + single_words::<S>(k.value) + " "@ + single_words::<
            S,
        >(k.envelope),
{
    spaced(
        spaced(single_text::<S>(k.time), single_text::<S>(k.value).as_str()),
        single_text::<S>(k.envelope).as_str(),
    )
}

/// How a key of colours prints.
pub fn color_key_text<S: Scalar>(k: ColorKey) -> (r: String)
    ensures
        r@ == single_words::<S>(k.time) + " "@ + single_words::<S>(k.color.r) + " "@
            + single_words::<S>(k.color.g) + " "@ + single_words::<S>(k.color.b),
{
    spaced(
        spaced(
            spaced(single_text::<S>(k.time), single_text::<S>(k.color.r).as_str()),
            single_text::<S>(k.color.g).as_str(),
        ),
        single_text::<S>(k.color.b).as_str(),
    )
}

// ---- laws ----

/// Values of two types are not equal, but for a content and a text.
pub proof fn values_of_two_types_differ(a: GuestView, b: GuestView)
    requires
        alike(a, b),
        !(a is Content),
    ensures
        a is UDim == b is UDim,
        a is UDim2 == b is UDim2,
        a is Vector2 == b is Vector2,
        a is Color3 == b is Color3,
        a is Rect == b is Rect,
        a is Font == b is Font,
        a is Item == b is Item,
{
}

/// Three digits stand for the same colour as six that repeat each of them.
pub proof fn three_digits_stand_for_six<S: Scalar>(hex: Seq<char>)
    requires
        bytes_of(hex_digits(hex)) == 3,
        hex_digits(hex).len() == 3,
    ensures
        hex_colour::<S>(hex) is Ok ==> hex_colour::<S>(doubled(hex_digits(hex))) == hex_colour::<S>(
            hex,
        ),
{
    let d = hex_digits(hex);
    let six = doubled(d);
    reveal_with_fuel(bytes_of, 8);
    assert(d.drop_last().drop_last().drop_last().len() == 0);
    assert(d.drop_last().last() == d[1]);
    assert(d.drop_last().drop_last().last() == d[0]);
    if channels(six) is Some {
        reveal_strlit("#");
        assert(six[0] == d[0]);
        assert("#"@[0] == '#');
        assert(pair_value(six[0], six[1]) is Some);
        assert(!begins(six, "#"@)) by {
            if begins(six, "#"@) {
                assert(six.take(1)[0] == "#"@[0]);
            }
        }
        assert(hex_digits(six) == six);
        assert(six.len() == 6);
        let s5 = six.drop_last();
        let s4 = s5.drop_last();
        let s3 = s4.drop_last();
        let s2 = s3.drop_last();
        let s1 = s2.drop_last();
        assert(s1.drop_last().len() == 0);
        assert(bytes_of(six) == 6) by {
            assert(six.last() == d[2]);
            assert(s5.last() == d[2]);
            assert(s4.last() == d[1]);
            assert(s3.last() == d[1]);
            assert(s2.last() == d[0]);
            assert(s1.last() == d[0]);
        }
    }
}

/// A colour of a hue, a saturation and a value. The circle of hues has six parts of equal length,
/// from red over yellow, green, cyan, blue and magenta to red. In the two parts next to a primary
/// that channel is the value; the channel across the circle is the value less its saturated share;
/// and the one between them rises through the first part after a primary and falls through the
/// next.
pub proof fn hues_go_round_the_circle(hue: u32, saturation: u32, value: u32, c: Color3)
    requires
        call_ensures(color3_from_hsv::<Fixed>, (hue, saturation, value), c),
        -0x1_0000_0000 <= Fixed::of_single(hue).steps <= 0x1_0000_0000,
        0 <= Fixed::of_single(saturation).steps <= 65536,
        0 <= Fixed::of_single(value).steps <= 65536,
    ensures
        ({
            let turns = 6 * Fixed::of_single(hue).steps;
            let part = (turns / 65536) % 6;
            let into = turns % 65536;
            let s = Fixed::of_single(saturation).steps as int;
            let v = Fixed::of_single(value).steps as int;
            let least = (v * (65536 - s)) / 65536;
            let rising = (v * (65536 - ((65536 - into) * s) / 65536)) / 65536;
            let falling = (v * (65536 - (into * s) / 65536)) / 65536;
            let shown = |n: int| (Fixed { steps: n as i64 }).single();
            &&& part == 0 || part == 5 ==> c.r == shown(v)
            &&& part == 1 || part == 2 ==> c.g == shown(v)
            &&& part == 3 || part == 4 ==> c.b == shown(v)
            &&& part == 0 || part == 1 ==> c.b == shown(least)
            &&& part == 2 || part == 3 ==> c.r == shown(least)
            &&& part == 4 || part == 5 ==> c.g == shown(least)
            &&& part == 0 ==> c.g == shown(rising)
            &&& part == 2 ==> c.b == shown(rising)
            &&& part == 4 ==> c.r == shown(rising)
            &&& part == 1 ==> c.r == shown(falling)
            &&& part == 3 ==> c.g == shown(falling)
            &&& part == 5 ==> c.b == shown(falling)
        }),
{
    let h = Fixed::of_single(hue).steps as int;
    let s = Fixed::of_single(saturation).steps as int;
    let v = Fixed::of_single(value).steps as int;
    let turned = Fixed::of_single(hue).product(Fixed::of_int(6));
    assert(Fixed::of_int(6).steps == 6 * 65536);
    assert(Fixed::of_int(1).steps == 65536);
    assert((h * (6 * 65536)) / 65536 == 6 * h) by (nonlinear_arith);
    assert(turned.steps == 6 * h);
    let sector = turned.floored();
    assert(sector.steps == ((6 * h) / 65536) * 65536);
    assert(sector.long() == (6 * h) / 65536) by {
        let k = (6 * h) / 65536;
        if k < 0 {
            assert((-(k * 65536)) / 65536 == -k) by (nonlinear_arith);
        } else {
            assert((k * 65536) / 65536 == k) by (nonlinear_arith);
        }
    }
    let into = (6 * h) % 65536;
    let f = turned.difference(sector);
    assert(f.steps == into);
    let one = Fixed::of_int(1);
    let si = Fixed::of_single(saturation);
    let vi = Fixed::of_single(value);
    within(into, s);
    within(65536 - into, s);
    assert(f.product(si).steps == (into * s) / 65536);
    assert(one.difference(f).product(si).steps == ((65536 - into) * s) / 65536);
    within(v, 65536 - s);
    within(v, 65536 - (into * s) / 65536);
    within(v, 65536 - ((65536 - into) * s) / 65536);
    assert(vi.product(one.difference(si)).steps == (v * (65536 - s)) / 65536);
    assert(c == hue_colour::<Fixed>(hue, saturation, value));
}

proof fn within(a: int, b: int)
    requires
        0 <= a <= 65536,
        0 <= b <= 65536,
    ensures
        0 <= (a * b) / 65536 <= 65536,
        0 <= a * b <= 65536 * 65536,
{
    assert(0 <= a * b <= 65536 * 65536) by (nonlinear_arith)
        requires
            0 <= a <= 65536,
            0 <= b <= 65536,
    ;
}

} // verus!
