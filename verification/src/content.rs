//! What images and texts are drawn from: content, and fonts.

use crate::fault::{refuse, Fault};
use crate::guest::{fraction_message, whole_i32, Guest, GuestView, Number};
use crate::number::{f64_to_int, f64_whole};
use crate::reflection::{Catalog, CatalogView, EnumItem, EnumItemView};
use crate::text::{decimal, decimal_text, glue, same};
use crate::value::{Content, ContentView, Font, FontView};
use vstd::prelude::*;

verus! {

// ---- content ----

/// The member of the enumeration of sources that tells what a content holds.
pub open spec fn source_word(c: ContentView) -> Seq<char> {
    match c {
        ContentView::Empty => "None"@,
        ContentView::Uri(_) => "Uri"@,
        ContentView::Object(_) => "Object"@,
    }
}

pub fn source_type(content: &Content) -> (r: &'static str)
    ensures
        r@ == source_word(content@),
{
    match content {
        Content::Empty => "None",
        Content::Uri(_) => "Uri",
        Content::Object(_) => "Object",
    }
}

/// The address of a content, where it holds one.
pub fn uri_of(content: &Content) -> (r: Option<String>)
    ensures
        crate::dom::text_view(r) == (match content@ {
            ContentView::Uri(u) => Some(u),
            _ => None,
        }),
{
    match content {
        Content::Uri(u) => Some(u.clone()),
        _ => None,
    }
}

/// How a content prints: as its address.
pub fn content_text(content: &Content) -> (r: String)
    ensures
        r@ == (match content@ {
            ContentView::Uri(u) => u,
            _ => ""@,
        }),
{
    match content {
        Content::Uri(u) => u.clone(),
        _ => "".to_owned(),
    }
}

/// `Content.fromUri`.
pub fn content_from_uri(uri: String) -> (r: Content)
    ensures
        r@ == ContentView::Uri(uri@),
{
    Content::Uri(uri)
}

// ---- weights and styles ----

/// Is this the number of a weight?
pub open spec fn is_weight(n: int) -> bool {
    n % 100 == 0 && 100 <= n <= 900
}

/// `FontWeight::from_u16`, and the number of the weight again: the hundreds up to nine hundred
/// stand for weights, and no other number does.
#[verifier::external_body]
fn known_weight(n: u16) -> (r: Option<u16>)
    ensures
        r == (if is_weight(n as int) {
            Some(n)
        } else {
            None
        }),
{
    rbx_types::FontWeight::from_u16(n).map(|w| w.as_u16())
}

/// Is this the number of a style?
pub open spec fn is_style(n: int) -> bool {
    n == 0 || n == 1
}

/// `FontStyle::from_u8`, and the number of the style again: zero and one stand for styles, and no
/// other number does.
#[verifier::external_body]
fn known_style(n: u8) -> (r: Option<u8>)
    ensures
        r == (if is_style(n as int) {
            Some(n)
        } else {
            None
        }),
{
    rbx_types::FontStyle::from_u8(n).map(|s| s.as_u8())
}

/// The name of a weight.
pub open spec fn weight_word(n: int) -> Seq<char> {
    if n == 100 {
        "Thin"@
    } else if n == 200 {
        "ExtraLight"@
    } else if n == 300 {
        "Light"@
    } else if n == 400 {
        "Regular"@
    } else if n == 500 {
        "Medium"@
    } else if n == 600 {
        "SemiBold"@
    } else if n == 700 {
        "Bold"@
    } else if n == 800 {
        "ExtraBold"@
    } else {
        "Heavy"@
    }
}

/// The `Debug` of a `FontWeight`, which is the name of its variant.
#[verifier::external_body]
fn weight_name(n: u16) -> (r: Option<String>)
    ensures
        crate::dom::text_view(r) == (if is_weight(n as int) {
            Some(weight_word(n as int))
        } else {
            None
        }),
{
    rbx_types::FontWeight::from_u16(n).map(|w| format!("{w:?}"))
}

/// The name of a style.
pub open spec fn style_word(n: int) -> Seq<char> {
    if n == 0 {
        "Normal"@
    } else {
        "Italic"@
    }
}

/// The `Debug` of a `FontStyle`, which is the name of its variant.
#[verifier::external_body]
fn style_name(n: u8) -> (r: Option<String>)
    ensures
        crate::dom::text_view(r) == (if is_style(n as int) {
            Some(style_word(n as int))
        } else {
            None
        }),
{
    rbx_types::FontStyle::from_u8(n).map(|s| format!("{s:?}"))
}

// ---- fonts ----

/// A font of a family, whose face was never looked up.
pub open spec fn plain_font(family: Seq<char>, weight: u16, style: u8) -> FontView {
    FontView { family, weight, style, cached_face: None }
}

/// `what expects an Enum.want`.
pub open spec fn wants(what: Seq<char>, want: Seq<char>) -> Seq<char> {
    what + " expects an Enum."@ + want
}

/// The number of an argument that has to be a member of an enumeration, or the number of one, and
/// that may have been left out.
pub open spec fn enum_number(g: GuestView, want: Seq<char>, what: Seq<char>) -> Result<
    Option<u32>,
    Seq<char>,
> {
    match g {
        GuestView::Nil => Ok(None),
        GuestView::Item(item) => if item.ty == want {
            Ok(Some(item.value))
        } else {
            Err(wants(what, want) + ", got an Enum."@ + item.ty)
        },
        GuestView::Number(n) => if f64_whole(n.wide) {
            Ok(Some(around(f64_to_int(n.wide, i32::MIN as int, i32::MAX as int))))
        } else {
            Err(fraction_message(what, n.shown))
        },
        _ => if g.word() == "userdata"@ {
            Err(wants(what, want))
        } else {
            Err(wants(what, want) + ", got "@ + g.word())
        },
    }
}

/// A number that may be negative, wrapped round.
pub open spec fn around(n: int) -> u32 {
    (n % 0x1_0000_0000) as u32
}

fn wrap_around(n: i32) -> (r: u32)
    ensures
        r == around(n as int),
{
    if n < 0 {
        (n as i64 + 0x1_0000_0000) as u32
    } else {
        n as u32
    }
}

fn enum_argument(value: &Guest, want: &str, what: &str) -> (r: Result<Option<u32>, Fault>)
    ensures
        match r {
            Ok(n) => enum_number(value@, want@, what@) == Ok::<Option<u32>, Seq<char>>(n),
            Err(f) => enum_number(value@, want@, what@) == Err::<Option<u32>, Seq<char>>(f@),
        },
{
    let expects = glue(glue(what.to_owned(), " expects an Enum."), want);
    match value {
        Guest::Nil => Ok(None),
        Guest::Item(item) => if same(item.ty.as_str(), want) {
            Ok(Some(item.value))
        } else {
            Err(Fault { message: glue(glue(expects, ", got an Enum."), item.ty.as_str()) })
        },
        Guest::Number(n) => match whole_i32(n, what) {
            Ok(raw) => Ok(Some(wrap_around(raw))),
            Err(f) => Err(f),
        },
        _ => if same(value.word(), "userdata") {
            Err(Fault { message: expects })
        } else {
            Err(Fault { message: glue(glue(expects, ", got "), value.word()) })
        },
    }
}

/// The weight of a number.
fn weight_of(n: i64) -> (r: Option<u16>)
    ensures
        r == (if is_weight(n as int) {
            Some(n as u16)
        } else {
            None
        }),
{
    if 0 <= n && n <= 65535 {
        known_weight(n as u16)
    } else {
        None
    }
}

/// The style of a number.
fn style_of(n: i64) -> (r: Option<u8>)
    ensures
        r == (if is_style(n as int) {
            Some(n as u8)
        } else {
            None
        }),
{
    if 0 <= n && n <= 255 {
        known_style(n as u8)
    } else {
        None
    }
}

/// The weight of a font, the regular one where it was left out.
pub open spec fn weight_from(g: GuestView) -> Result<u16, Seq<char>> {
    match enum_number(g, "FontWeight"@, "Font.new's weight"@) {
        Err(m) => Err(m),
        Ok(None) => Ok(400),
        Ok(Some(raw)) => if is_weight(raw as int) {
            Ok(raw as u16)
        } else {
            Err("there is no Enum.FontWeight numbered "@ + decimal(raw as nat))
        },
    }
}

/// The style of a font, the upright one where it was left out.
pub open spec fn style_from(g: GuestView) -> Result<u8, Seq<char>> {
    match enum_number(g, "FontStyle"@, "Font.new's style"@) {
        Err(m) => Err(m),
        Ok(None) => Ok(0),
        Ok(Some(raw)) => if is_style(raw as int) {
            Ok(raw as u8)
        } else {
            Err("there is no Enum.FontStyle numbered "@ + decimal(raw as nat))
        },
    }
}

/// The font of a family, a weight and a style, or why there is none. The weight is looked at
/// first.
pub open spec fn font_made(family: Seq<char>, weight: GuestView, style: GuestView) -> Result<
    FontView,
    Seq<char>,
> {
    match (weight_from(weight), style_from(style)) {
        (Err(m), _) => Err(m),
        (_, Err(m)) => Err(m),
        (Ok(w), Ok(s)) => Ok(plain_font(family, w, s)),
    }
}

/// `Font.new`. A weight and a style are members of their enumerations, or the numbers of such.
pub fn font_new(family: String, weight: &Guest, style: &Guest) -> (r: Result<Font, Fault>)
    ensures
        match r {
            Ok(f) => font_made(family@, weight@, style@) == Ok::<FontView, Seq<char>>(f@),
            Err(f) => font_made(family@, weight@, style@) == Err::<FontView, Seq<char>>(f@),
        },
{
    let w: u16 = match enum_argument(weight, "FontWeight", "Font.new's weight") {
        Err(f) => return Err(f),
        Ok(None) => 400,
        Ok(Some(raw)) => match weight_of(raw as i64) {
            Some(w) => w,
            None => return Err(
                Fault {
                    message: glue(
                        "there is no Enum.FontWeight numbered ".to_owned(),
                        decimal_text(raw as u64).as_str(),
                    ),
                },
            ),
        },
    };
    let s: u8 = match enum_argument(style, "FontStyle", "Font.new's style") {
        Err(f) => return Err(f),
        Ok(None) => 0,
        Ok(Some(raw)) => match style_of(raw as i64) {
            Some(s) => s,
            None => return Err(
                Fault {
                    message: glue(
                        "there is no Enum.FontStyle numbered ".to_owned(),
                        decimal_text(raw as u64).as_str(),
                    ),
                },
            ),
        },
    };
    Ok(Font { family, weight: w, style: s, cached_face: None })
}

/// Is a font bold?
pub fn is_bold(font: &Font) -> (r: bool)
    ensures
        r == (font.weight >= 700),
{
    font.weight >= 700
}

/// How a font prints.
pub fn font_text(font: &Font) -> (r: String)
    ensures
        r@ == "Font { Family = "@ + font.family@ + ", Weight = "@ + decimal(font.weight as nat)
            + ", Style = "@ + decimal(font.style as nat) + " }"@,
{
    glue(
        glue(
            glue(
                glue(
                    glue(
                        glue("Font { Family = ".to_owned(), font.family.as_str()),
                        ", Weight = ",
                    ),
                    decimal_text(font.weight as u64).as_str(),
                ),
                ", Style = ",
            ),
            decimal_text(font.style as u64).as_str(),
        ),
        " }",
    )
}

// ---- fonts that show members ----

/// The number of an argument: that of a member of the enumeration, or a whole number.
pub open spec fn member_number(g: GuestView, want: Seq<char>) -> Option<int> {
    match g {
        GuestView::Item(item) => if item.ty == want {
            Some(item.value as int)
        } else {
            None
        },
        GuestView::Number(n) => if f64_whole(n.wide) {
            Some(f64_to_int(n.wide, i32::MIN as int, i32::MAX as int))
        } else {
            None
        },
        _ => None,
    }
}

/// The weight of an argument, the regular one where it was left out. An argument that is not
/// understood stands for none.
pub open spec fn member_weight(g: GuestView) -> Result<u16, Seq<char>> {
    if g is Nil {
        Ok(400)
    } else {
        match member_number(g, "FontWeight"@) {
            Some(n) => if is_weight(n) {
                Ok(n as u16)
            } else {
                Err("Font.new's weight must be an Enum.FontWeight member"@)
            },
            None => Err("Font.new's weight must be an Enum.FontWeight member"@),
        }
    }
}

/// The style of an argument, the upright one where it was left out.
pub open spec fn member_style(g: GuestView) -> Result<u8, Seq<char>> {
    if g is Nil {
        Ok(0)
    } else {
        match member_number(g, "FontStyle"@) {
            Some(n) => if is_style(n) {
                Ok(n as u8)
            } else {
                Err("Font.new's style must be an Enum.FontStyle member"@)
            },
            None => Err("Font.new's style must be an Enum.FontStyle member"@),
        }
    }
}

fn member_argument(value: &Guest, want: &str) -> (r: Option<i64>)
    ensures
        match r {
            Some(n) => member_number(value@, want@) == Some(n as int),
            None => member_number(value@, want@) is None,
        },
{
    match value {
        Guest::Item(item) => if same(item.ty.as_str(), want) {
            Some(item.value as i64)
        } else {
            None
        },
        Guest::Number(n) => match whole_i32(n, want) {
            Ok(whole) => Some(whole as i64),
            Err(_) => None,
        },
        _ => None,
    }
}

/// `Font.new` for a font that shows its weight and its style as members. Each is a member of its
/// enumeration or the number of one, and nothing else is taken for it.
pub fn member_font_new(family: String, weight: &Guest, style: &Guest) -> (r: Result<Font, Fault>)
    ensures
        match r {
            Ok(f) => member_weight(weight@) is Ok && member_style(style@) is Ok && f@ == plain_font(
                family@,
                member_weight(weight@)->Ok_0,
                member_style(style@)->Ok_0,
            ),
            Err(f) => match member_weight(weight@) {
                Err(m) => f@ == m,
                Ok(_) => member_style(style@) == Err::<u8, Seq<char>>(f@),
            },
        },
{
    let w: u16 = if let Guest::Nil = weight {
        400
    } else {
        let known = match member_argument(weight, "FontWeight") {
            Some(n) => weight_of(n),
            None => None,
        };
        match known {
            Some(w) => w,
            None => return Err(refuse("Font.new's weight must be an Enum.FontWeight member")),
        }
    };
    let s: u8 = if let Guest::Nil = style {
        0
    } else {
        let known = match member_argument(style, "FontStyle") {
            Some(n) => style_of(n),
            None => None,
        };
        match known {
            Some(s) => s,
            None => return Err(refuse("Font.new's style must be an Enum.FontStyle member")),
        }
    };
    Ok(Font { family, weight: w, style: s, cached_face: None })
}

/// A member of an enumeration, or a number where there is no such member.
#[derive(Debug)]
pub enum EitherEnum {
    Item(EnumItem),
    Number(u32),
}

/// Is this the member of a name, or the number where there is none?
pub open spec fn either(
    catalog: CatalogView,
    ty: Seq<char>,
    name: Seq<char>,
    number: u32,
    e: EitherEnum,
) -> bool {
    match e {
        EitherEnum::Item(item) => catalog.category(ty) is Some && catalog.enum_map(
            ty,
        ).contains_key(name) && item@ == (EnumItemView {
            ty: catalog.enum_own(ty),
            name,
            value: catalog.enum_map(ty)[name],
        }),
        EitherEnum::Number(n) => n == number && (catalog.category(ty) is Some
            ==> !catalog.enum_map(ty).contains_key(name)),
    }
}

/// The weight of a font as a member of its enumeration.
pub fn weight_item(catalog: &Catalog, font: &Font) -> (r: EitherEnum)
    requires
        is_weight(font.weight as int),
    ensures
        either(
            catalog@,
            "FontWeight"@,
            weight_word(font.weight as int),
            font.weight as u32,
            r,
        ),
{
    if let Some(name) = weight_name(font.weight) {
        if let Some(item) = catalog.item_by_name("FontWeight", name.as_str()) {
            return EitherEnum::Item(item);
        }
    }
    EitherEnum::Number(font.weight as u32)
}

/// The style of a font as a member of its enumeration.
pub fn style_item(catalog: &Catalog, font: &Font) -> (r: EitherEnum)
    requires
        is_style(font.style as int),
    ensures
        either(catalog@, "FontStyle"@, style_word(font.style as int), font.style as u32, r),
{
    if let Some(name) = style_name(font.style) {
        if let Some(item) = catalog.item_by_name("FontStyle", name.as_str()) {
            return EitherEnum::Item(item);
        }
    }
    EitherEnum::Number(font.style as u32)
}

/// How a font that shows members prints.
pub fn member_font_text(font: &Font) -> (r: String)
    requires
        is_weight(font.weight as int),
        is_style(font.style as int),
    ensures
        r@ == "Font("@ + font.family@ + ", "@ + weight_word(font.weight as int) + ", "@
            + style_word(font.style as int) + ")"@,
{
    let weight = match weight_name(font.weight) {
        Some(n) => n,
        None => String::new(),
    };
    let style = match style_name(font.style) {
        Some(n) => n,
        None => String::new(),
    };
    glue(
        glue(
            glue(
                glue(
                    glue(glue("Font(".to_owned(), font.family.as_str()), ", "),
                    weight.as_str(),
                ),
                ", ",
            ),
            style.as_str(),
        ),
        ")",
    )
}

// ---- laws ----

/// Every font that is made has a weight and a style that there are.
pub proof fn a_font_has_a_weight_and_a_style(
    family: Seq<char>,
    weight: GuestView,
    style: GuestView,
)
    ensures
        font_made(family, weight, style) matches Ok(f) ==> is_weight(f.weight as int) && is_style(
            f.style as int,
        ) && f.family == family,
        member_weight(weight) matches Ok(w) ==> is_weight(w as int),
        member_style(style) matches Ok(s) ==> is_style(s as int),
{
}

} // verus!
