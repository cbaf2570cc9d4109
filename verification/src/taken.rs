//! What can be said of what a host takes from a guest and hands to it, whatever is in between.

use crate::bindings::{draw_command, format_duration, script_of, DrawCommand, RawCommand};
use crate::content::{
    content_from_uri, content_text, font_new, font_text, is_bold, member_font_new,
    member_font_text, source_type, style_item, uri_of, weight_item, EitherEnum,
};
use crate::enums::{enum_index, enum_member, enum_named, get_enum_items, item_text, Indexed};
use crate::fault::Fault;
use crate::guest::{
    coerce, coerce_attribute_value, coerce_enum, content_from, pixel_i32, show, whole_i32, Guest,
    GuestView, Number, Shown,
};
use crate::number::{f64_to_int, f64_whole, int_f64};
use crate::paint::{pixels_differing, rgba_of, Painted};
use crate::reflection::{Catalog, EnumItem};
use crate::text::decimal;
use crate::value::{
    supported, zero_for, Color3, Content, ContentView, Font, TypeView, UDim, UDim2, Value,
    ValueView, VariantType, Vector2,
};
use vstd::prelude::*;

verus! {

// ---- assignment ----

/// A value is taken for a property exactly if it is of the declared type, and is then stored as it
/// is: a number as a single or a double where one is declared, and as a whole number only where it
/// is one.
pub proof fn a_property_takes_its_own_type(
    value: Guest,
    want: VariantType,
    class: &str,
    property: &str,
    r: Result<Value, Fault>,
)
    requires
        call_ensures(coerce, (&value, &want, class, property), r),
    ensures
        ({
            let got = match r {
                Ok(v) => Some(v@),
                Err(_) => None,
            };
            let as_text = match value@ {
                GuestView::Text(t) => Some(t),
                _ => None,
            };
            match want@ {
                TypeView::Bool => got == (match value@ {
                    GuestView::Bool(b) => Some(ValueView::Bool(b)),
                    _ => None,
                }),
                TypeView::Text => got == (match as_text {
                    Some(t) => Some(ValueView::Text(t)),
                    None => None,
                }),
                TypeView::ContentId => got == (match as_text {
                    Some(t) => Some(ValueView::ContentId(t)),
                    None => None,
                }),
                TypeView::Float32 => got == (match value@ {
                    GuestView::Number(n) => Some(ValueView::Float32(n.narrow)),
                    _ => None,
                }),
                TypeView::Float64 => got == (match value@ {
                    GuestView::Number(n) => Some(ValueView::Float64(n.wide)),
                    _ => None,
                }),
                TypeView::UDim => got == (match value@ {
                    GuestView::UDim(x) => Some(ValueView::UDim(x)),
                    _ => None,
                }),
                TypeView::UDim2 => got == (match value@ {
                    GuestView::UDim2(x) => Some(ValueView::UDim2(x)),
                    _ => None,
                }),
                TypeView::Vector2 => got == (match value@ {
                    GuestView::Vector2(x) => Some(ValueView::Vector2(x)),
                    _ => None,
                }),
                TypeView::Color3 => got == (match value@ {
                    GuestView::Color3(x) => Some(ValueView::Color3(x)),
                    _ => None,
                }),
                TypeView::Rect => got == (match value@ {
                    GuestView::Rect(x) => Some(ValueView::Rect(x)),
                    _ => None,
                }),
                TypeView::Font => got == (match value@ {
                    GuestView::Font(x) => Some(ValueView::Font(x)),
                    _ => None,
                }),
                TypeView::ColorSequence => got == (match value@ {
                    GuestView::ColorSequence(x) => Some(ValueView::ColorSequence(x)),
                    _ => None,
                }),
                TypeView::NumberSequence => got == (match value@ {
                    GuestView::NumberSequence(x) => Some(ValueView::NumberSequence(x)),
                    _ => None,
                }),
                TypeView::Content => got == (match value@ {
                    GuestView::Content(c) => Some(ValueView::Content(c)),
                    GuestView::Text(t) => Some(
                        ValueView::Content(
                            if t.len() == 0 {
                                ContentView::Empty
                            } else {
                                ContentView::Uri(t)
                            },
                        ),
                    ),
                    _ => None,
                }),
                TypeView::Int32 => {
                    &&& got is Some ==> got->0 is Int32
                    &&& got is Some == (value@ matches GuestView::Number(n) && f64_whole(n.wide))
                },
                TypeView::Int64 => {
                    &&& got is Some ==> got->0 is Int64
                    &&& got is Some == (value@ matches GuestView::Number(n) && f64_whole(n.wide))
                },
                TypeView::Other(_) => got is None,
            }
        }),
{
}

/// A whole number is stored as that number where a whole number is declared.
pub proof fn a_whole_number_is_stored(
    value: Number,
    n: int,
    class: &str,
    property: &str,
    short: Result<Value, Fault>,
    long: Result<Value, Fault>,
    pixels: i32,
    whole: Result<i32, Fault>,
)
    requires
        i32::MIN <= n <= i32::MAX,
        value.wide == int_f64(n) as u64,
        call_ensures(coerce, (&Guest::Number(value), &VariantType::Int32, class, property), short),
        call_ensures(coerce, (&Guest::Number(value), &VariantType::Int64, class, property), long),
        call_ensures(pixel_i32, (&value,), pixels),
        call_ensures(whole_i32, (&value, property), whole),
    ensures
        short is Ok && short->Ok_0@ == ValueView::Int32(n as i32),
        long is Ok && long->Ok_0@ == ValueView::Int64(n as i64),
        pixels == n,
        whole == Ok::<i32, Fault>(n as i32),
{
    crate::number::a_double_of_an_integer_is_that_integer(n);
}

/// What is said of a value of the wrong type names the property, what it wants and what it got.
pub proof fn a_refusal_says_what_was_wanted(
    value: Guest,
    want: VariantType,
    class: &str,
    property: &str,
    r: Result<Value, Fault>,
)
    requires
        call_ensures(coerce, (&value, &want, class, property), r),
        !(value@ is Number),
        r is Err,
    ensures
        ({
            let says = |what: Seq<char>|
                class@ + "."@ + property@ + " expects "@ + what + ", got "@ + value@.word();
            let m = r->Err_0@;
            match want@ {
                TypeView::Bool => m == says("a boolean"@),
                TypeView::Text => m == says("a string"@),
                TypeView::Float32 | TypeView::Float64 | TypeView::Int32 | TypeView::Int64 => m
                    == says("a number"@),
                TypeView::UDim => m == says("a UDim"@),
                TypeView::UDim2 => m == says("a UDim2"@),
                TypeView::Vector2 => m == says("a Vector2"@),
                TypeView::Color3 => m == says("a Color3"@),
                TypeView::Rect => m == says("a Rect"@),
                TypeView::Content => m == says("a Content"@),
                TypeView::ContentId => m == says("a content string"@),
                TypeView::Font => m == says("a Font"@),
                TypeView::ColorSequence => m == says("a ColorSequence"@),
                TypeView::NumberSequence => m == says("a NumberSequence"@),
                TypeView::Other(_) => true,
            }
        }),
{
}

/// A member of an enumeration is taken where that enumeration is declared and nowhere else, and
/// stands for its own number; a whole number is taken where a member has it.
pub proof fn an_enumeration_takes_its_members(
    catalog: Catalog,
    item: EnumItem,
    value: Number,
    n: int,
    other: Guest,
    ty: &str,
    class: &str,
    property: &str,
    a: Result<u32, Fault>,
    b: Result<u32, Fault>,
    c: Result<u32, Fault>,
)
    requires
        i32::MIN <= n <= i32::MAX,
        value.wide == int_f64(n) as u64,
        !(other@ is Item) && !(other@ is Number),
        call_ensures(coerce_enum, (&catalog, &Guest::Item(item), ty, class, property), a),
        call_ensures(coerce_enum, (&catalog, &Guest::Number(value), ty, class, property), b),
        call_ensures(coerce_enum, (&catalog, &other, ty, class, property), c),
    ensures
        a is Ok == (item.ty@ == ty@),
        a is Ok ==> a->Ok_0 == item.value,
        b is Ok == (n >= 0 && catalog@.enum_has(ty@, n as u32)),
        b is Ok ==> b->Ok_0 == n,
        c is Err,
{
    crate::number::a_double_of_an_integer_is_that_integer(n);
}

/// An attribute takes plain values and those of the vocabulary that hold no reference, each as it
/// is and a number as a double; nothing takes the attribute away, and no other value is taken.
pub proof fn an_attribute_takes_plain_values(value: Guest, r: Result<Option<Value>, Fault>)
    requires
        call_ensures(coerce_attribute_value, (&value,), r),
    ensures
        ({
            let holds = |v: ValueView| r matches Ok(Some(x)) && x@ == v;
            match value@ {
                GuestView::Nil => r matches Ok(None),
                GuestView::Bool(b) => holds(ValueView::Bool(b)),
                GuestView::Text(t) => holds(ValueView::Text(t)),
                GuestView::Number(n) => holds(ValueView::Float64(n.wide)),
                GuestView::UDim(v) => holds(ValueView::UDim(v)),
                GuestView::UDim2(v) => holds(ValueView::UDim2(v)),
                GuestView::Vector2(v) => holds(ValueView::Vector2(v)),
                GuestView::Color3(v) => holds(ValueView::Color3(v)),
                GuestView::Rect(v) => holds(ValueView::Rect(v)),
                GuestView::Font(v) => holds(ValueView::Font(v)),
                _ => r is Err,
            }
        }),
{
}

/// A text is the address of a content, and the empty text is no content at all.
pub proof fn a_text_is_an_address(value: Guest, r: Option<Content>)
    requires
        call_ensures(content_from, (&value,), r),
    ensures
        match value@ {
            GuestView::Text(t) => r is Some && (if t.len() == 0 {
                r->0@ == ContentView::Empty
            } else {
                r->0@ == ContentView::Uri(t)
            }),
            GuestView::Content(c) => r is Some && r->0@ == c,
            _ => r is None,
        },
{
}

/// What is stored is shown as it is, and a number of an enumeration as the member that has it.
pub proof fn what_is_stored_is_shown(
    catalog: Catalog,
    value: Value,
    ty: &str,
    raw: u32,
    plain: Result<Shown, Fault>,
    item: Result<Shown, Fault>,
    bare: Result<Shown, Fault>,
)
    requires
        !(value@ is Enum) && !(value@ is Other),
        call_ensures(show, (&catalog, &value, None::<&str>), plain),
        call_ensures(show, (&catalog, &Value::Enum(raw), Some(ty)), item),
        call_ensures(show, (&catalog, &Value::Enum(raw), None::<&str>), bare),
    ensures
        plain matches Ok(Shown::Value(v)) && v@ == value@,
        bare is Err,
        item is Ok == catalog@.enum_has(ty@, raw),
        item is Ok ==> (item matches Ok(Shown::Item(i)) && i.value == raw && catalog@.enum_map(
            ty@,
        ).contains_pair(i.name@, raw)),
{
}

// ---- defaults ----

/// A property that was never set reads as nothing of its kind: false, empty, zero, no extent, black
/// and no content; a sequence reads as white, or as nothing, from end to end.
pub proof fn an_unset_property_reads_as_nothing(ty: VariantType, r: Option<Value>)
    requires
        call_ensures(zero_for, (&ty,), r),
    ensures
        ({
            let is = |v: ValueView| r is Some && r->0@ == v;
            let none = UDim { scale: 0, offset: 0 };
            match ty@ {
                TypeView::Bool => is(ValueView::Bool(false)),
                TypeView::Text => is(ValueView::Text(Seq::empty())),
                TypeView::Float32 => is(ValueView::Float32(0)),
                TypeView::Float64 => is(ValueView::Float64(0)),
                TypeView::Int32 => is(ValueView::Int32(0)),
                TypeView::Int64 => is(ValueView::Int64(0)),
                TypeView::UDim => is(ValueView::UDim(none)),
                TypeView::UDim2 => is(ValueView::UDim2(UDim2 { x: none, y: none })),
                TypeView::Vector2 => is(ValueView::Vector2(Vector2 { x: 0, y: 0 })),
                TypeView::Color3 => is(ValueView::Color3(Color3 { r: 0, g: 0, b: 0 })),
                TypeView::Content => is(ValueView::Content(ContentView::Empty)),
                TypeView::ContentId => is(ValueView::ContentId(Seq::empty())),
                TypeView::ColorSequence => r is Some && (r->0@ matches ValueView::ColorSequence(
                    k,
                ) && k.len() == 2 && k[0].time == 0 && k[1].time == 0x3f80_0000 && k[0].color
                    == k[1].color && k[0].color == (Color3 {
                    r: 0x3f80_0000,
                    g: 0x3f80_0000,
                    b: 0x3f80_0000,
                })),
                TypeView::NumberSequence => r is Some && (r->0@ matches ValueView::NumberSequence(
                    k,
                ) && k.len() == 2 && k[0].time == 0 && k[1].time == 0x3f80_0000 && k[0].value == 0
                    && k[1].value == 0 && k[0].envelope == 0 && k[1].envelope == 0),
                TypeView::Rect | TypeView::Font | TypeView::Other(_) => r is None,
            }
        }),
{
}

// ---- enumerations ----

/// A member of an enumeration is found under its name and nowhere else, has the number that the
/// enumeration gives it, and prints with both names.
pub proof fn a_member_is_found_by_its_name(
    catalog: Catalog,
    ty: &str,
    key: &str,
    r: Result<EnumItem, Fault>,
    x: Result<Indexed, Fault>,
    named: Result<String, Fault>,
)
    requires
        call_ensures(enum_member, (&catalog, ty, key), r),
        call_ensures(enum_index, (&catalog, ty, key), x),
        call_ensures(enum_named, (&catalog, ty), named),
        key@ != "GetEnumItems"@,
    ensures
        named is Ok == catalog@.category(ty@) is Some,
        r is Ok == (catalog@.category(ty@) is Some && catalog@.enum_map(ty@).contains_key(key@)),
        r is Ok ==> r->Ok_0.name@ == key@ && r->Ok_0.value == catalog@.enum_map(ty@)[key@]
            && r->Ok_0.ty@ == named->Ok_0@,
        x is Ok == r is Ok,
        x is Ok ==> (x matches Ok(Indexed::Item(i)) && i@ == r->Ok_0@),
{
}

/// A member prints as its enumeration and its name.
pub proof fn a_member_prints_with_both_names(item: EnumItem, r: String)
    requires
        call_ensures(item_text, (&item,), r),
    ensures
        r@ == "Enum."@ + item.ty@ + "."@ + item.name@,
{
}

/// The members of an enumeration are listed by their numbers, smallest first, and every one of them
/// is there.
pub proof fn members_are_listed_by_number(
    catalog: Catalog,
    ty: &str,
    r: Result<Vec<EnumItem>, Fault>,
    i: int,
    j: int,
    name: Seq<char>,
)
    requires
        call_ensures(get_enum_items, (&catalog, ty), r),
        catalog@.category(ty@) is Some,
    ensures
        r is Ok,
        0 <= i < j < r->Ok_0@.len() ==> r->Ok_0@[i].value <= r->Ok_0@[j].value,
        0 <= i < r->Ok_0@.len() ==> catalog@.enum_map(ty@).contains_pair(
            r->Ok_0@[i].name@,
            r->Ok_0@[i].value,
        ),
        catalog@.enum_map(ty@).contains_key(name) ==> exists|k: int|
            0 <= k < r->Ok_0@.len() && (#[trigger] r->Ok_0@[k]).name@ == name,
{
}

// ---- content and fonts ----

/// A content that was made of an address holds that address and prints as it, and says so.
pub proof fn a_content_holds_its_address(
    uri: String,
    c: Content,
    u: Option<String>,
    t: String,
    s: &'static str,
    e: &'static str,
    none: Option<String>,
)
    requires
        call_ensures(content_from_uri, (uri,), c),
        call_ensures(uri_of, (&c,), u),
        call_ensures(content_text, (&c,), t),
        call_ensures(source_type, (&c,), s),
        call_ensures(source_type, (&Content::Empty,), e),
        call_ensures(uri_of, (&Content::Empty,), none),
    ensures
        u is Some && u->0@ == uri@,
        t@ == uri@,
        s@ == "Uri"@,
        e@ == "None"@,
        none is None,
{
}

/// A font has the family, the weight and the style that it was made of, regular and upright where
/// these were left out. It is bold from seven hundred on.
pub proof fn a_font_is_what_it_was_made_of(
    family: String,
    w: EnumItem,
    s: EnumItem,
    plain: Result<Font, Fault>,
    full: Result<Font, Fault>,
    shown: Result<Font, Fault>,
    bold: bool,
)
    requires
        w.ty@ == "FontWeight"@,
        s.ty@ == "FontStyle"@,
        call_ensures(font_new, (family, &Guest::Nil, &Guest::Nil), plain),
        call_ensures(font_new, (family, &Guest::Item(w), &Guest::Item(s)), full),
        call_ensures(member_font_new, (family, &Guest::Item(w), &Guest::Item(s)), shown),
        full is Ok ==> call_ensures(is_bold, (&full->Ok_0,), bold),
    ensures
        plain is Ok && plain->Ok_0.family@ == family@ && plain->Ok_0.weight == 400
            && plain->Ok_0.style == 0,
        full is Ok == (w.value % 100 == 0 && 100 <= w.value <= 900 && s.value <= 1),
        full is Ok ==> full->Ok_0.family@ == family@ && full->Ok_0.weight == w.value
            && full->Ok_0.style == s.value,
        full is Ok ==> bold == (w.value >= 700),
        shown is Ok == full is Ok,
        shown is Ok ==> shown->Ok_0@ == full->Ok_0@,
{
}

/// A font prints its family, its weight and its style, in that order.
pub proof fn a_font_prints_in_order(f: Font, a: String, b: String)
    requires
        crate::content::is_weight(f.weight as int),
        crate::content::is_style(f.style as int),
        call_ensures(font_text, (&f,), a),
        call_ensures(member_font_text, (&f,), b),
    ensures
        a@ == "Font { Family = "@ + f.family@ + ", Weight = "@ + decimal(f.weight as nat)
            + ", Style = "@ + decimal(f.style as nat) + " }"@,
        f.weight == 400 && f.style == 0 ==> b@ == "Font("@ + f.family@ + ", "@ + "Regular"@ + ", "@
            + "Normal"@ + ")"@,
        f.weight == 700 && f.style == 1 ==> b@ == "Font("@ + f.family@ + ", "@ + "Bold"@ + ", "@
            + "Italic"@ + ")"@,
        f.weight == 100 && f.style == 0 ==> b@ == "Font("@ + f.family@ + ", "@ + "Thin"@ + ", "@
            + "Normal"@ + ")"@,
        f.weight == 900 && f.style == 0 ==> b@ == "Font("@ + f.family@ + ", "@ + "Heavy"@ + ", "@
            + "Normal"@ + ")"@,
{
}

/// A font shows its weight and its style as the members of their names, where there are such.
pub proof fn a_font_shows_members(
    catalog: Catalog,
    f: Font,
    w: EitherEnum,
    s: EitherEnum,
)
    requires
        crate::content::is_weight(f.weight as int),
        crate::content::is_style(f.style as int),
        call_ensures(weight_item, (&catalog, &f), w),
        call_ensures(style_item, (&catalog, &f), s),
        catalog@.category("FontWeight"@) is None,
        catalog@.category("FontStyle"@) is None,
    ensures
        w == EitherEnum::Number(f.weight as u32),
        s == EitherEnum::Number(f.style as u32),
{
}

// ---- times and drawing ----

/// A number in at least two digits.
pub open spec fn two_digits(n: nat) -> Seq<char> {
    if n < 10 {
        "0"@ + decimal(n)
    } else {
        decimal(n)
    }
}

/// A length of time prints as hours, minutes and seconds that add up to it, with less than sixty of
/// each of the last two; where there are no whole hours they are left out.
pub proof fn a_clock_adds_up(seconds: u64, h: nat, m: nat, s: nat, r: String)
    requires
        call_ensures(format_duration, (seconds,), r),
        m < 60,
        s < 60,
        f64_to_int(seconds, 0, u64::MAX as int) == 3600 * h + 60 * m + s,
    ensures
        h > 0 ==> r@ == two_digits(h) + ":"@ + two_digits(m) + ":"@ + two_digits(s),
        h == 0 ==> r@ == two_digits(m) + ":"@ + two_digits(s),
{
    let t = 3600 * h + 60 * m + s;
    assert(t / 3600 == h);
    assert((t % 3600) / 60 == m);
    assert(t % 60 == s);
}

/// The script of a directory bears its name where it has one, and is the main one otherwise.
pub proof fn a_script_bears_the_name_of_its_directory(d: &str, own: String, main: String)
    requires
        call_ensures(script_of, (d, true), own),
        call_ensures(script_of, (d, false), main),
    ensures
        own@ == d@ + ".luau"@,
        main@ == "main.luau"@,
{
}

/// A drawing command is what was read, each number in its own place; a length that was left out is
/// nothing, and a channel that was left out is full.
pub proof fn a_command_is_what_was_read(raw: RawCommand, r: DrawCommand)
    requires
        call_ensures(draw_command, (raw,), r),
    ensures
        raw.kind is Some ==> r.kind@ == raw.kind->0@,
        raw.kind is None ==> r.kind@ == "rect"@,
        r.x == (if raw.x is Some { raw.x->0 } else { 0 }),
        r.y == (if raw.y is Some { raw.y->0 } else { 0 }),
        r.w == (if raw.w is Some { raw.w->0 } else { 0 }),
        r.h == (if raw.h is Some { raw.h->0 } else { 0 }),
        r.radius == (if raw.radius is Some { raw.radius->0 } else { 0 }),
        r.stroke_width == (if raw.stroke_width is Some { raw.stroke_width->0 } else { 0 }),
        r.color_r == (if raw.r is Some { raw.r->0 } else { 255 }),
        r.color_g == (if raw.g is Some { raw.g->0 } else { 255 }),
        r.color_b == (if raw.b is Some { raw.b->0 } else { 255 }),
        r.color_a == (if raw.a is Some { raw.a->0 } else { 255 }),
        r.text == raw.text,
{
}

// ---- paint ----

/// Of every pixel of a painter, the first byte is the third of what it painted and the third the
/// first; the other two stay.
pub proof fn blue_and_red_change_over(bgra: Vec<u8>, width: usize, height: usize, r: Painted, i: int)
    requires
        4 * (width * height) <= bgra@.len(),
        call_ensures(rgba_of, (&bgra, width, height), r),
        0 <= i < width * height,
    ensures
        r.width == width && r.height == height,
        r.rgba@.len() == 4 * (width * height),
        r.rgba@[4 * i] == bgra@[4 * i + 2],
        r.rgba@[4 * i + 1] == bgra@[4 * i + 1],
        r.rgba@[4 * i + 2] == bgra@[4 * i],
        r.rgba@[4 * i + 3] == bgra@[4 * i + 3],
{
    assert((4 * i) % 4 == 0);
    assert((4 * i + 1) % 4 == 1);
    assert((4 * i + 2) % 4 == 2);
    assert((4 * i + 3) % 4 == 3);
}

/// Two surfaces of one size differ in no more pixels than they have, in none where their bytes are
/// the same, and in at least one where a byte of a pixel of both is another; two of different sizes
/// differ in all.
pub proof fn surfaces_differ_where_a_byte_does(a: Painted, b: Painted, r: usize, i: int, k: int)
    requires
        a.width * a.height <= usize::MAX,
        call_ensures(pixels_differing, (&a, &b), r),
        a.rgba@.len() == b.rgba@.len(),
        0 <= i < a.rgba@.len() / 4,
        0 <= k < 4,
    ensures
        a.width != b.width || a.height != b.height ==> r == a.width * a.height,
        a.width == b.width && a.height == b.height ==> r <= a.rgba@.len() / 4,
        a.width == b.width && a.height == b.height && a.rgba@ == b.rgba@ ==> r == 0,
        a.width == b.width && a.height == b.height && a.rgba@[4 * i + k] != b.rgba@[4 * i + k] ==> r
            > 0,
{
    let n = a.rgba@.len() / 4;
    crate::paint::identical_paints_are_alike(a.rgba@, n);
    crate::paint::a_difference_is_somewhere(a.rgba@, b.rgba@, n);
    if a.rgba@[4 * i + k] != b.rgba@[4 * i + k] {
        assert(!crate::paint::same_pixel(a.rgba@, b.rgba@, i));
    }
}

/// A byte order mark in front of a source is taken off, once; anything else is left as it is.
pub proof fn a_mark_in_front_is_taken_off(a: &str, b: &str, rest: Seq<char>, r: &str, s: &str)
    requires
        a@ == seq!['\u{feff}'] + rest,
        b@.len() == 0 || b@[0] != '\u{feff}',
        call_ensures(crate::bindings::clean_source, (a,), r),
        call_ensures(crate::bindings::clean_source, (b,), s),
    ensures
        r@ == rest,
        s@ == b@,
{
    assert(a@.skip(1) =~= rest);
}

/// The member that a font shows for its weight is named after it: the names go up in hundreds.
pub proof fn a_weight_goes_by_its_name(catalog: Catalog, f: Font, item: EnumItem)
    requires
        crate::content::is_weight(f.weight as int),
        call_ensures(weight_item, (&catalog, &f), EitherEnum::Item(item)),
    ensures
        f.weight == 100 ==> item.name@ == "Thin"@,
        f.weight == 200 ==> item.name@ == "ExtraLight"@,
        f.weight == 300 ==> item.name@ == "Light"@,
        f.weight == 400 ==> item.name@ == "Regular"@,
        f.weight == 500 ==> item.name@ == "Medium"@,
        f.weight == 600 ==> item.name@ == "SemiBold"@,
        f.weight == 700 ==> item.name@ == "Bold"@,
        f.weight == 800 ==> item.name@ == "ExtraBold"@,
        f.weight == 900 ==> item.name@ == "Heavy"@,
        catalog@.enum_map("FontWeight"@).contains_key(item.name@),
        item.value == catalog@.enum_map("FontWeight"@)[item.name@],
{
}

/// The member that a font shows for its style is named after it.
pub proof fn a_style_goes_by_its_name(catalog: Catalog, f: Font, item: EnumItem)
    requires
        crate::content::is_style(f.style as int),
        call_ensures(style_item, (&catalog, &f), EitherEnum::Item(item)),
    ensures
        f.style == 0 ==> item.name@ == "Normal"@,
        f.style == 1 ==> item.name@ == "Italic"@,
        catalog@.enum_map("FontStyle"@).contains_key(item.name@),
        item.value == catalog@.enum_map("FontStyle"@)[item.name@],
{
}

} // verus!
