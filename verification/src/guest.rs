//! Values that cross between a guest and its instances.
//!
//! A number arrives both ways that it may be stored, together with how it prints, because the
//! arithmetic of floating point is the business of the machine that runs the guest.

use crate::fault::{refuse, Fault};
use crate::number::{f64_to_int, f64_whole, is_whole, to_i32, to_i64};
use crate::reflection::{Catalog, CatalogView, EnumItem, EnumItemView};
use crate::text::{decimal, decimal_text, glue, same};
use crate::value::{
    Color3, ColorKey, Content, ContentView, Font, FontView, NumberKey, Rect, TypeView, UDim, UDim2,
    Value, ValueView, VariantType, Vector2,
};
use vstd::prelude::*;

verus! {

/// A number of the guest: as a double, as a single, and as it prints. `integer` tells how the
/// guest holds it, which only its type name shows.
#[derive(Debug)]
pub struct Number {
    pub integer: bool,
    pub wide: u64,
    pub narrow: u32,
    pub shown: String,
}

pub struct NumberView {
    pub integer: bool,
    pub wide: u64,
    pub narrow: u32,
    pub shown: Seq<char>,
}

impl View for Number {
    type V = NumberView;

    open spec fn view(&self) -> NumberView {
        NumberView {
            integer: self.integer,
            wide: self.wide,
            narrow: self.narrow,
            shown: self.shown@,
        }
    }
}

/// A value that a guest hands over. `Foreign` is any value without a shape here, by the name of
/// its type.
#[derive(Debug)]
pub enum Guest {
    Nil,
    Bool(bool),
    Number(Number),
    Text(String),
    UDim(UDim),
    UDim2(UDim2),
    Vector2(Vector2),
    Color3(Color3),
    Rect(Rect),
    Content(Content),
    Font(Font),
    ColorSequence(Vec<ColorKey>),
    NumberSequence(Vec<NumberKey>),
    ColorKey(ColorKey),
    NumberKey(NumberKey),
    Item(EnumItem),
    Instance(usize),
    Foreign(String),
}

pub enum GuestView {
    Nil,
    Bool(bool),
    Number(NumberView),
    Text(Seq<char>),
    UDim(UDim),
    UDim2(UDim2),
    Vector2(Vector2),
    Color3(Color3),
    Rect(Rect),
    Content(ContentView),
    Font(FontView),
    ColorSequence(Seq<ColorKey>),
    NumberSequence(Seq<NumberKey>),
    ColorKey(ColorKey),
    NumberKey(NumberKey),
    Item(EnumItemView),
    Instance(usize),
    Foreign(Seq<char>),
}

impl View for Guest {
    type V = GuestView;

    open spec fn view(&self) -> GuestView {
        match self {
            Guest::Nil => GuestView::Nil,
            Guest::Bool(b) => GuestView::Bool(*b),
            Guest::Number(n) => GuestView::Number(n@),
            Guest::Text(t) => GuestView::Text(t@),
            Guest::UDim(v) => GuestView::UDim(*v),
            Guest::UDim2(v) => GuestView::UDim2(*v),
            Guest::Vector2(v) => GuestView::Vector2(*v),
            Guest::Color3(v) => GuestView::Color3(*v),
            Guest::Rect(v) => GuestView::Rect(*v),
            Guest::Content(v) => GuestView::Content(v@),
            Guest::Font(v) => GuestView::Font(v@),
            Guest::ColorSequence(k) => GuestView::ColorSequence(k@),
            Guest::NumberSequence(k) => GuestView::NumberSequence(k@),
            Guest::ColorKey(k) => GuestView::ColorKey(*k),
            Guest::NumberKey(k) => GuestView::NumberKey(*k),
            Guest::Item(i) => GuestView::Item(i@),
            Guest::Instance(id) => GuestView::Instance(*id),
            Guest::Foreign(t) => GuestView::Foreign(t@),
        }
    }
}

impl GuestView {
    /// The name of the type of a value, as the guest's machine calls it.
    pub open spec fn word(self) -> Seq<char> {
        match self {
            GuestView::Nil => "nil"@,
            GuestView::Bool(_) => "boolean"@,
            GuestView::Number(n) => if n.integer {
                "integer"@
            } else {
                "number"@
            },
            GuestView::Text(_) => "string"@,
            GuestView::Foreign(t) => t,
            _ => "userdata"@,
        }
    }
}

impl Guest {
    /// The name of the type of a value, as the guest's machine calls it.
    pub fn word(&self) -> (r: &str)
        ensures
            r@ == self@.word(),
    {
        match self {
            Guest::Nil => "nil",
            Guest::Bool(_) => "boolean",
            Guest::Number(n) => if n.integer {
                "integer"
            } else {
                "number"
            },
            Guest::Text(_) => "string",
            Guest::Foreign(t) => t.as_str(),
            _ => "userdata",
        }
    }
}

// ---- numbers ----

/// What is said of a fraction where a whole number has to stand.
pub open spec fn fraction_message(what: Seq<char>, shown: Seq<char>) -> Seq<char> {
    what + " is a whole number; got "@ + shown
}

/// A whole number as an `i32`. A fraction is refused, not truncated.
pub fn whole_i32(value: &Number, what: &str) -> (r: Result<i32, Fault>)
    ensures
        match r {
            Ok(n) => f64_whole(value.wide) && n == f64_to_int(
                value.wide,
                i32::MIN as int,
                i32::MAX as int,
            ),
            Err(f) => !f64_whole(value.wide) && f@ == fraction_message(what@, value.shown@),
        },
{
    if is_whole(value.wide) {
        Ok(to_i32(value.wide))
    } else {
        Err(fraction(what, value))
    }
}

fn fraction(what: &str, value: &Number) -> (r: Fault)
    ensures
        r@ == fraction_message(what@, value.shown@),
{
    Fault {
        message: glue(glue(what.to_owned(), " is a whole number; got "), value.shown.as_str()),
    }
}

/// A number of pixels, truncated towards zero.
pub fn pixel_i32(value: &Number) -> (r: i32)
    ensures
        r == f64_to_int(value.wide, i32::MIN as int, i32::MAX as int),
{
    to_i32(value.wide)
}

// ---- assignment ----

/// `class.property`.
pub open spec fn dotted(class: Seq<char>, property: Seq<char>) -> Seq<char> {
    class + "."@ + property
}

pub(crate) fn dotted_text(class: &str, property: &str) -> (r: String)
    ensures
        r@ == dotted(class@, property@),
{
    glue(glue(class.to_owned(), "."), property)
}

/// What is said of a value of the wrong type.
pub open spec fn expected_message(
    class: Seq<char>,
    property: Seq<char>,
    what: Seq<char>,
    got: Seq<char>,
) -> Seq<char> {
    dotted(class, property) + " expects "@ + what + ", got "@ + got
}

fn expected(class: &str, property: &str, what: &str, got: &str) -> (r: Fault)
    ensures
        r@ == expected_message(class@, property@, what@, got@),
{
    Fault {
        message: glue(
            glue(glue(glue(dotted_text(class, property), " expects "), what), ", got "),
            got,
        ),
    }
}

/// What is said of a declared type that cannot be stored.
pub open spec fn unsupported_message(
    class: Seq<char>,
    property: Seq<char>,
    ty: Seq<char>,
) -> Seq<char> {
    dotted(class, property) + " is a "@ + ty
        + ", which this host cannot accept yet.              The property is real and the value may well be correct; Dew's DataModel              implements primitive-typed properties in this slice and the vocabulary              types in the next. See docs/datamodel_scope.md."@
}

/// A guest's value as content: content as it is, and a string as an address, the empty one as
/// nothing.
pub open spec fn as_content(g: GuestView) -> Option<ContentView> {
    match g {
        GuestView::Text(t) => Some(
            if t.len() == 0 {
                ContentView::Empty
            } else {
                ContentView::Uri(t)
            },
        ),
        GuestView::Content(c) => Some(c),
        _ => None,
    }
}

/// What a declared type makes of a guest's value, or why it makes nothing of it.
pub open spec fn coerced(
    g: GuestView,
    want: TypeView,
    class: Seq<char>,
    property: Seq<char>,
) -> Result<ValueView, Seq<char>> {
    let wrong = |what: Seq<char>| Err::<ValueView, Seq<char>>(
        expected_message(class, property, what, g.word()),
    );
    match (want, g) {
        (TypeView::Other(ty), _) => Err(unsupported_message(class, property, ty)),
        (TypeView::Bool, GuestView::Bool(b)) => Ok(ValueView::Bool(b)),
        (TypeView::Bool, _) => wrong("a boolean"@),
        (TypeView::Text, GuestView::Text(t)) => Ok(ValueView::Text(t)),
        (TypeView::Text, _) => wrong("a string"@),
        (TypeView::Float32, GuestView::Number(n)) => Ok(ValueView::Float32(n.narrow)),
        (TypeView::Float32, _) => wrong("a number"@),
        (TypeView::Float64, GuestView::Number(n)) => Ok(ValueView::Float64(n.wide)),
        (TypeView::Float64, _) => wrong("a number"@),
        (TypeView::Int32, GuestView::Number(n)) => if f64_whole(n.wide) {
            Ok(ValueView::Int32(f64_to_int(n.wide, i32::MIN as int, i32::MAX as int) as i32))
        } else {
            Err(fraction_message(dotted(class, property), n.shown))
        },
        (TypeView::Int32, _) => wrong("a number"@),
        (TypeView::Int64, GuestView::Number(n)) => if f64_whole(n.wide) {
            Ok(ValueView::Int64(f64_to_int(n.wide, i64::MIN as int, i64::MAX as int) as i64))
        } else {
            Err(fraction_message(dotted(class, property), n.shown))
        },
        (TypeView::Int64, _) => wrong("a number"@),
        (TypeView::UDim, GuestView::UDim(v)) => Ok(ValueView::UDim(v)),
        (TypeView::UDim, _) => wrong("a UDim"@),
        (TypeView::UDim2, GuestView::UDim2(v)) => Ok(ValueView::UDim2(v)),
        (TypeView::UDim2, _) => wrong("a UDim2"@),
        (TypeView::Vector2, GuestView::Vector2(v)) => Ok(ValueView::Vector2(v)),
        (TypeView::Vector2, _) => wrong("a Vector2"@),
        (TypeView::Color3, GuestView::Color3(v)) => Ok(ValueView::Color3(v)),
        (TypeView::Color3, _) => wrong("a Color3"@),
        (TypeView::Rect, GuestView::Rect(v)) => Ok(ValueView::Rect(v)),
        (TypeView::Rect, _) => wrong("a Rect"@),
        (TypeView::Content, _) => match as_content(g) {
            Some(c) => Ok(ValueView::Content(c)),
            None => wrong("a Content"@),
        },
        (TypeView::ContentId, GuestView::Text(t)) => Ok(ValueView::ContentId(t)),
        (TypeView::ContentId, _) => wrong("a content string"@),
        (TypeView::Font, GuestView::Font(v)) => Ok(ValueView::Font(v)),
        (TypeView::Font, _) => wrong("a Font"@),
        (TypeView::ColorSequence, GuestView::ColorSequence(k)) => Ok(ValueView::ColorSequence(k)),
        (TypeView::ColorSequence, _) => wrong("a ColorSequence"@),
        (TypeView::NumberSequence, GuestView::NumberSequence(k)) => Ok(
            ValueView::NumberSequence(k),
        ),
        (TypeView::NumberSequence, _) => wrong("a NumberSequence"@),
    }
}

/// The view of a coercion.
pub open spec fn outcome(r: Result<Value, Fault>) -> Result<ValueView, Seq<char>> {
    match r {
        Ok(v) => Ok(v@),
        Err(f) => Err(f@),
    }
}

/// A guest's value as content.
pub fn content_from(value: &Guest) -> (r: Option<Content>)
    ensures
        match r {
            Some(c) => as_content(value@) == Some(c@),
            None => as_content(value@) is None,
        },
{
    match value {
        Guest::Text(t) => {
            if same(t.as_str(), "") {
                proof {
                    reveal_strlit("");
                    assert(t@.len() == 0);
                }
                Some(Content::Empty)
            } else {
                proof {
                    reveal_strlit("");
                    if t@.len() == 0 {
                        assert(t@ =~= ""@);
                    }
                }
                Some(Content::Uri(t.clone()))
            }
        },
        Guest::Content(c) => Some(c.dup()),
        _ => None,
    }
}

/// Turn a guest's value into a value of the declared type, or say why not. A value of the wrong
/// shape is the guest's mistake; a type that cannot be stored is this host's, and the two are
/// told in different words.
pub fn coerce(value: &Guest, want: &VariantType, class: &str, property: &str) -> (r: Result<
    Value,
    Fault,
>)
    ensures
        outcome(r) == coerced(value@, want@, class@, property@),
{
    let ghost v = value@;
    match (want, value) {
        (VariantType::Other(ty), _) => Err(
            Fault {
                message: glue(
                    glue(glue(dotted_text(class, property), " is a "), ty.as_str()),
                    ", which this host cannot accept yet.              The property is real and the value may well be correct; Dew's DataModel              implements primitive-typed properties in this slice and the vocabulary              types in the next. See docs/datamodel_scope.md.",
                ),
            },
        ),
        (VariantType::Bool, Guest::Bool(b)) => Ok(Value::Bool(*b)),
        (VariantType::Bool, _) => Err(expected(class, property, "a boolean", value.word())),
        (VariantType::Text, Guest::Text(t)) => Ok(Value::Text(t.clone())),
        (VariantType::Text, _) => Err(expected(class, property, "a string", value.word())),
        (VariantType::Float32, Guest::Number(n)) => Ok(Value::Float32(n.narrow)),
        (VariantType::Float32, _) => Err(expected(class, property, "a number", value.word())),
        (VariantType::Float64, Guest::Number(n)) => Ok(Value::Float64(n.wide)),
        (VariantType::Float64, _) => Err(expected(class, property, "a number", value.word())),
        (VariantType::Int32, Guest::Number(n)) => match whole_i32(
            n,
            dotted_text(class, property).as_str(),
        ) {
            Ok(x) => Ok(Value::Int32(x)),
            Err(f) => Err(f),
        },
        (VariantType::Int32, _) => Err(expected(class, property, "a number", value.word())),
        (VariantType::Int64, Guest::Number(n)) => if is_whole(n.wide) {
            Ok(Value::Int64(to_i64(n.wide)))
        } else {
            Err(fraction(dotted_text(class, property).as_str(), n))
        },
        (VariantType::Int64, _) => Err(expected(class, property, "a number", value.word())),
        (VariantType::UDim, Guest::UDim(x)) => Ok(Value::UDim(*x)),
        (VariantType::UDim, _) => Err(expected(class, property, "a UDim", value.word())),
        (VariantType::UDim2, Guest::UDim2(x)) => Ok(Value::UDim2(*x)),
        (VariantType::UDim2, _) => Err(expected(class, property, "a UDim2", value.word())),
        (VariantType::Vector2, Guest::Vector2(x)) => Ok(Value::Vector2(*x)),
        (VariantType::Vector2, _) => Err(expected(class, property, "a Vector2", value.word())),
        (VariantType::Color3, Guest::Color3(x)) => Ok(Value::Color3(*x)),
        (VariantType::Color3, _) => Err(expected(class, property, "a Color3", value.word())),
        (VariantType::Rect, Guest::Rect(x)) => Ok(Value::Rect(*x)),
        (VariantType::Rect, _) => Err(expected(class, property, "a Rect", value.word())),
        (VariantType::Content, _) => match content_from(value) {
            Some(c) => Ok(Value::Content(c)),
            None => Err(expected(class, property, "a Content", value.word())),
        },
        (VariantType::ContentId, Guest::Text(t)) => Ok(Value::ContentId(t.clone())),
        (VariantType::ContentId, _) => Err(
            expected(class, property, "a content string", value.word()),
        ),
        (VariantType::Font, Guest::Font(x)) => Ok(Value::Font(x.dup())),
        (VariantType::Font, _) => Err(expected(class, property, "a Font", value.word())),
        (VariantType::ColorSequence, Guest::ColorSequence(k)) => Ok(
            Value::ColorSequence(k.clone()),
        ),
        (VariantType::ColorSequence, _) => Err(
            expected(class, property, "a ColorSequence", value.word()),
        ),
        (VariantType::NumberSequence, Guest::NumberSequence(k)) => Ok(
            Value::NumberSequence(k.clone()),
        ),
        (VariantType::NumberSequence, _) => Err(
            expected(class, property, "a NumberSequence", value.word()),
        ),
    }
}

/// `Enum.ty`, behind an article.
pub open spec fn an_enum(ty: Seq<char>) -> Seq<char> {
    "an Enum."@ + ty
}

/// A number with its sign.
pub open spec fn signed(n: int) -> Seq<char> {
    if n < 0 {
        "-"@ + decimal((-n) as nat)
    } else {
        decimal(n as nat)
    }
}

pub(crate) fn signed_text(n: i32) -> (r: String)
    ensures
        r@ == signed(n as int),
{
    if n < 0 {
        let wide: i64 = n as i64;
        glue("-".to_owned(), decimal_text((-wide) as u64).as_str())
    } else {
        decimal_text(n as u64)
    }
}

pub(crate) fn signed_long(n: i64) -> (r: String)
    ensures
        r@ == signed(n as int),
{
    if n < 0 {
        let wide: i128 = n as i128;
        glue("-".to_owned(), decimal_text((-wide) as u64).as_str())
    } else {
        decimal_text(n as u64)
    }
}

/// What is said of a number that no member of an enumeration has.
pub open spec fn no_member_message(
    class: Seq<char>,
    property: Seq<char>,
    ty: Seq<char>,
    n: int,
) -> Seq<char> {
    dotted(class, property) + " has no Enum."@ + ty + " numbered "@ + signed(n)
}

/// What an enumeration makes of a guest's value: of its own members the value, of a number that
/// number, where a member has it.
pub open spec fn coerced_enum(
    catalog: CatalogView,
    g: GuestView,
    ty: Seq<char>,
    class: Seq<char>,
    property: Seq<char>,
) -> Result<u32, Seq<char>> {
    match g {
        GuestView::Item(item) => if item.ty == ty {
            Ok(item.value)
        } else {
            Err(expected_message(class, property, an_enum(ty), an_enum(item.ty)))
        },
        GuestView::Number(n) => if !f64_whole(n.wide) {
            Err(fraction_message(dotted(class, property), n.shown))
        } else {
            let raw = f64_to_int(n.wide, i32::MIN as int, i32::MAX as int);
            if raw >= 0 && catalog.enum_has(ty, raw as u32) {
                Ok(raw as u32)
            } else {
                Err(no_member_message(class, property, ty, raw))
            }
        },
        _ => Err(expected_message(class, property, an_enum(ty), g.word())),
    }
}

/// Turn a guest's value into a member of an enumeration, or say why not. Both a member and its
/// number are accepted; a number is held against the members, and a member of another
/// enumeration is refused although its number may be in this one too.
pub fn coerce_enum(
    catalog: &Catalog,
    value: &Guest,
    ty: &str,
    class: &str,
    property: &str,
) -> (r: Result<u32, Fault>)
    ensures
        match r {
            Ok(n) => coerced_enum(catalog@, value@, ty@, class@, property@) == Ok::<
                u32,
                Seq<char>,
            >(n),
            Err(f) => coerced_enum(catalog@, value@, ty@, class@, property@) == Err::<
                u32,
                Seq<char>,
            >(f@),
        },
{
    match value {
        Guest::Item(item) => {
            if same(item.ty.as_str(), ty) {
                Ok(item.value)
            } else {
                Err(
                    expected(
                        class,
                        property,
                        glue("an Enum.".to_owned(), ty).as_str(),
                        glue("an Enum.".to_owned(), item.ty.as_str()).as_str(),
                    ),
                )
            }
        },
        Guest::Number(n) => {
            let raw: i32 = match whole_i32(n, dotted_text(class, property).as_str()) {
                Ok(raw) => raw,
                Err(f) => return Err(f),
            };
            if raw >= 0 && catalog.value_is_valid(ty, raw as u32) {
                Ok(raw as u32)
            } else {
                Err(
                    Fault {
                        message: glue(
                            glue(
                                glue(
                                    glue(dotted_text(class, property), " has no Enum."),
                                    ty,
                                ),
                                " numbered ",
                            ),
                            signed_text(raw).as_str(),
                        ),
                    },
                )
            }
        },
        _ => Err(
            expected(class, property, glue("an Enum.".to_owned(), ty).as_str(), value.word()),
        ),
    }
}

// ---- attributes ----

/// What an attribute makes of a guest's value: nil takes it away, and numbers are doubles.
pub open spec fn coerced_attribute(g: GuestView) -> Result<Option<ValueView>, Seq<char>> {
    match g {
        GuestView::Nil => Ok(None),
        GuestView::Bool(b) => Ok(Some(ValueView::Bool(b))),
        GuestView::Text(t) => Ok(Some(ValueView::Text(t))),
        GuestView::Number(n) => Ok(Some(ValueView::Float64(n.wide))),
        GuestView::UDim(v) => Ok(Some(ValueView::UDim(v))),
        GuestView::UDim2(v) => Ok(Some(ValueView::UDim2(v))),
        GuestView::Vector2(v) => Ok(Some(ValueView::Vector2(v))),
        GuestView::Color3(v) => Ok(Some(ValueView::Color3(v))),
        GuestView::Rect(v) => Ok(Some(ValueView::Rect(v))),
        GuestView::Font(v) => Ok(Some(ValueView::Font(v))),
        _ => if g.word() == "userdata"@ {
            Err("SetAttribute: unsupported UserData type "@ + g.word())
        } else {
            Err("SetAttribute: unsupported attribute type "@ + g.word())
        },
    }
}

/// Turn a guest's value into that of an attribute, or say why not.
pub fn coerce_attribute_value(value: &Guest) -> (r: Result<Option<Value>, Fault>)
    ensures
        match r {
            Ok(None) => coerced_attribute(value@) == Ok::<Option<ValueView>, Seq<char>>(None),
            Ok(Some(v)) => coerced_attribute(value@) == Ok::<Option<ValueView>, Seq<char>>(
                Some(v@),
            ),
            Err(f) => coerced_attribute(value@) == Err::<Option<ValueView>, Seq<char>>(f@),
        },
{
    match value {
        Guest::Nil => Ok(None),
        Guest::Bool(b) => Ok(Some(Value::Bool(*b))),
        Guest::Text(t) => Ok(Some(Value::Text(t.clone()))),
        Guest::Number(n) => Ok(Some(Value::Float64(n.wide))),
        Guest::UDim(v) => Ok(Some(Value::UDim(*v))),
        Guest::UDim2(v) => Ok(Some(Value::UDim2(*v))),
        Guest::Vector2(v) => Ok(Some(Value::Vector2(*v))),
        Guest::Color3(v) => Ok(Some(Value::Color3(*v))),
        Guest::Rect(v) => Ok(Some(Value::Rect(*v))),
        Guest::Font(v) => Ok(Some(Value::Font(v.dup()))),
        _ => {
            let word = value.word();
            if same(word, "userdata") {
                Err(
                    Fault {
                        message: glue(
                            "SetAttribute: unsupported UserData type ".to_owned(),
                            word,
                        ),
                    },
                )
            } else {
                Err(
                    Fault {
                        message: glue(
                            "SetAttribute: unsupported attribute type ".to_owned(),
                            word,
                        ),
                    },
                )
            }
        },
    }
}

// ---- reading ----

/// A property value on its way to a guest: a member of an enumeration by name, anything else as
/// it is stored.
#[derive(Debug)]
pub enum Shown {
    Value(Value),
    Item(EnumItem),
}

/// What a guest may read of a stored value. A member of an enumeration needs the name of the
/// enumeration; where two members share a number, either may be shown.
pub open spec fn shows(
    catalog: CatalogView,
    value: ValueView,
    enum_type: Option<Seq<char>>,
    r: Result<Shown, Fault>,
) -> bool {
    match value {
        ValueView::Enum(raw) => match enum_type {
            None => r matches Err(f) && f@
                == "an enum value was stored without its declared type"@,
            Some(ty) => if catalog.enum_has(ty, raw) {
                r matches Ok(Shown::Item(item)) && item.ty@ == catalog.enum_own(ty) && item.value
                    == raw && catalog.enum_map(ty).contains_pair(item.name@, raw)
            } else {
                r matches Err(f) && f@ == "Enum."@ + ty + " has no member numbered "@ + decimal(
                    raw as nat,
                )
            },
        },
        ValueView::Other(ty) => r matches Err(f) && f@ == "this host cannot yet present a "@ + ty
            + " to Luau"@,
        _ => r matches Ok(Shown::Value(v)) && v@ == value,
    }
}

/// Turn a stored value into something that a guest can read, or say why not.
pub fn show(catalog: &Catalog, value: &Value, enum_type: Option<&str>) -> (r: Result<Shown, Fault>)
    ensures
        shows(
            catalog@,
            value@,
            match enum_type {
                Some(ty) => Some(ty@),
                None => None,
            },
            r,
        ),
{
    match value {
        Value::Enum(raw) => match enum_type {
            None => Err(refuse("an enum value was stored without its declared type")),
            Some(ty) => match catalog.item_by_value(ty, *raw) {
                Some(item) => {
                    assert(catalog@.enum_map(ty@).contains_pair(item.name@, *raw));
                    Ok(Shown::Item(item))
                },
                None => Err(
                    Fault {
                        message: glue(
                            glue(glue("Enum.".to_owned(), ty), " has no member numbered "),
                            decimal_text(*raw as u64).as_str(),
                        ),
                    },
                ),
            },
        },
        Value::Other(ty) => Err(
            Fault {
                message: glue(
                    glue("this host cannot yet present a ".to_owned(), ty.as_str()),
                    " to Luau",
                ),
            },
        ),
        _ => Ok(Shown::Value(value.dup())),
    }
}

// ---- laws ----

/// A value of the declared type is accepted and stored as it is, whatever the property.
pub proof fn a_fitting_value_is_stored(v: ValueView, class: Seq<char>, property: Seq<char>)
    ensures
        v matches ValueView::Bool(b) ==> coerced(GuestView::Bool(b), TypeView::Bool, class, property)
            == Ok::<ValueView, Seq<char>>(v),
        v matches ValueView::Text(t) ==> coerced(GuestView::Text(t), TypeView::Text, class, property)
            == Ok::<ValueView, Seq<char>>(v),
        v matches ValueView::UDim(x) ==> coerced(GuestView::UDim(x), TypeView::UDim, class, property)
            == Ok::<ValueView, Seq<char>>(v),
        v matches ValueView::UDim2(x) ==> coerced(
            GuestView::UDim2(x),
            TypeView::UDim2,
            class,
            property,
        ) == Ok::<ValueView, Seq<char>>(v),
        v matches ValueView::Vector2(x) ==> coerced(
            GuestView::Vector2(x),
            TypeView::Vector2,
            class,
            property,
        ) == Ok::<ValueView, Seq<char>>(v),
        v matches ValueView::Color3(x) ==> coerced(
            GuestView::Color3(x),
            TypeView::Color3,
            class,
            property,
        ) == Ok::<ValueView, Seq<char>>(v),
        v matches ValueView::Rect(x) ==> coerced(GuestView::Rect(x), TypeView::Rect, class, property)
            == Ok::<ValueView, Seq<char>>(v),
        v matches ValueView::Font(x) ==> coerced(GuestView::Font(x), TypeView::Font, class, property)
            == Ok::<ValueView, Seq<char>>(v),
        v matches ValueView::Content(x) ==> coerced(
            GuestView::Content(x),
            TypeView::Content,
            class,
            property,
        ) == Ok::<ValueView, Seq<char>>(v),
{
}

/// An accepted number is one of the enumeration's, and an accepted member is of the enumeration.
pub proof fn an_accepted_number_is_a_member(
    catalog: CatalogView,
    g: GuestView,
    ty: Seq<char>,
    class: Seq<char>,
    property: Seq<char>,
)
    requires
        coerced_enum(catalog, g, ty, class, property) is Ok,
    ensures
        g is Number ==> catalog.enum_has(ty, coerced_enum(catalog, g, ty, class, property)->Ok_0),
        g matches GuestView::Item(item) ==> item.ty == ty,
        g is Number || g is Item,
{
}

} // verus!
