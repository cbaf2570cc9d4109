//! Property values and the types they are declared with.
//!
//! Floating-point components are held as bit patterns; see [`crate::number`].

use crate::number::{f32_eq, f64_eq, same_f32, same_f64};
use crate::text::same;
use vstd::prelude::*;

verus! {

/// A fraction of the space on offer, and a number of pixels.
#[derive(Clone, Copy, Debug, PartialEq, Eq, Structural)]
pub struct UDim {
    pub scale: u32,
    pub offset: i32,
}

/// A `UDim` for each axis.
#[derive(Clone, Copy, Debug, PartialEq, Eq, Structural)]
pub struct UDim2 {
    pub x: UDim,
    pub y: UDim,
}

#[derive(Clone, Copy, Debug, PartialEq, Eq, Structural)]
pub struct Vector2 {
    pub x: u32,
    pub y: u32,
}

/// A colour, with channels from zero to one.
#[derive(Clone, Copy, Debug, PartialEq, Eq, Structural)]
pub struct Color3 {
    pub r: u32,
    pub g: u32,
    pub b: u32,
}

#[derive(Clone, Copy, Debug, PartialEq, Eq, Structural)]
pub struct Rect {
    pub min: Vector2,
    pub max: Vector2,
}

#[derive(Clone, Copy, Debug, PartialEq, Eq, Structural)]
pub struct NumberKey {
    pub time: u32,
    pub value: u32,
    pub envelope: u32,
}

#[derive(Clone, Copy, Debug, PartialEq, Eq, Structural)]
pub struct ColorKey {
    pub time: u32,
    pub color: Color3,
}

/// What an image property names: nothing, an address, or an object by its referent.
#[derive(Debug)]
pub enum Content {
    Empty,
    Uri(String),
    Object(String),
}

pub enum ContentView {
    Empty,
    Uri(Seq<char>),
    Object(Seq<char>),
}

impl View for Content {
    type V = ContentView;

    open spec fn view(&self) -> ContentView {
        match self {
            Content::Empty => ContentView::Empty,
            Content::Uri(u) => ContentView::Uri(u@),
            Content::Object(o) => ContentView::Object(o@),
        }
    }
}

/// A typeface, its weight as a number from 100 to 900, and its style as 0 or 1.
#[derive(Debug)]
pub struct Font {
    pub family: String,
    pub weight: u16,
    pub style: u8,
    pub cached_face: Option<String>,
}

pub struct FontView {
    pub family: Seq<char>,
    pub weight: u16,
    pub style: u8,
    pub cached_face: Option<Seq<char>>,
}

impl View for Font {
    type V = FontView;

    open spec fn view(&self) -> FontView {
        FontView {
            family: self.family@,
            weight: self.weight,
            style: self.style,
            cached_face: match self.cached_face {
                Some(f) => Some(f@),
                None => None,
            },
        }
    }
}

/// A property value. `Other` is a value of a type this library has no shape for, and carries the
/// name of that type.
#[derive(Debug)]
pub enum Value {
    Bool(bool),
    Text(String),
    Float32(u32),
    Float64(u64),
    Int32(i32),
    Int64(i64),
    UDim(UDim),
    UDim2(UDim2),
    Vector2(Vector2),
    Color3(Color3),
    Color3uint8(u8, u8, u8),
    Rect(Rect),
    Content(Content),
    ContentId(String),
    Font(Font),
    ColorSequence(Vec<ColorKey>),
    NumberSequence(Vec<NumberKey>),
    Enum(u32),
    Other(String),
}

pub enum ValueView {
    Bool(bool),
    Text(Seq<char>),
    Float32(u32),
    Float64(u64),
    Int32(i32),
    Int64(i64),
    UDim(UDim),
    UDim2(UDim2),
    Vector2(Vector2),
    Color3(Color3),
    Color3uint8(u8, u8, u8),
    Rect(Rect),
    Content(ContentView),
    ContentId(Seq<char>),
    Font(FontView),
    ColorSequence(Seq<ColorKey>),
    NumberSequence(Seq<NumberKey>),
    Enum(u32),
    Other(Seq<char>),
}

impl View for Value {
    type V = ValueView;

    open spec fn view(&self) -> ValueView {
        match self {
            Value::Bool(b) => ValueView::Bool(*b),
            Value::Text(t) => ValueView::Text(t@),
            Value::Float32(x) => ValueView::Float32(*x),
            Value::Float64(x) => ValueView::Float64(*x),
            Value::Int32(n) => ValueView::Int32(*n),
            Value::Int64(n) => ValueView::Int64(*n),
            Value::UDim(u) => ValueView::UDim(*u),
            Value::UDim2(u) => ValueView::UDim2(*u),
            Value::Vector2(v) => ValueView::Vector2(*v),
            Value::Color3(c) => ValueView::Color3(*c),
            Value::Color3uint8(r, g, b) => ValueView::Color3uint8(*r, *g, *b),
            Value::Rect(r) => ValueView::Rect(*r),
            Value::Content(c) => ValueView::Content(c@),
            Value::ContentId(c) => ValueView::ContentId(c@),
            Value::Font(f) => ValueView::Font(f@),
            Value::ColorSequence(k) => ValueView::ColorSequence(k@),
            Value::NumberSequence(k) => ValueView::NumberSequence(k@),
            Value::Enum(n) => ValueView::Enum(*n),
            Value::Other(t) => ValueView::Other(t@),
        }
    }
}

/// Equality of values as their components compare: numbers by IEEE 754, everything else exactly.
pub open spec fn value_eq(a: ValueView, b: ValueView) -> bool {
    match (a, b) {
        (ValueView::Float32(x), ValueView::Float32(y)) => f32_eq(x, y),
        (ValueView::Float64(x), ValueView::Float64(y)) => f64_eq(x, y),
        (ValueView::UDim(x), ValueView::UDim(y)) => udim_eq(x, y),
        (ValueView::UDim2(x), ValueView::UDim2(y)) => udim_eq(x.x, y.x) && udim_eq(x.y, y.y),
        (ValueView::Vector2(x), ValueView::Vector2(y)) => vector2_eq(x, y),
        (ValueView::Color3(x), ValueView::Color3(y)) => color3_eq(x, y),
        (ValueView::Rect(x), ValueView::Rect(y)) => vector2_eq(x.min, y.min) && vector2_eq(
            x.max,
            y.max,
        ),
        (ValueView::ColorSequence(x), ValueView::ColorSequence(y)) => x.len() == y.len()
            && forall|i: int|
            0 <= i < x.len() ==> f32_eq((#[trigger] x[i]).time, y[i].time) && color3_eq(
                x[i].color,
                y[i].color,
            ),
        (ValueView::NumberSequence(x), ValueView::NumberSequence(y)) => x.len() == y.len()
            && forall|i: int|
            0 <= i < x.len() ==> f32_eq((#[trigger] x[i]).time, y[i].time) && f32_eq(
                x[i].value,
                y[i].value,
            ) && f32_eq(x[i].envelope, y[i].envelope),
        _ => a == b,
    }
}

pub open spec fn udim_eq(a: UDim, b: UDim) -> bool {
    f32_eq(a.scale, b.scale) && a.offset == b.offset
}

pub open spec fn vector2_eq(a: Vector2, b: Vector2) -> bool {
    f32_eq(a.x, b.x) && f32_eq(a.y, b.y)
}

pub open spec fn color3_eq(a: Color3, b: Color3) -> bool {
    f32_eq(a.r, b.r) && f32_eq(a.g, b.g) && f32_eq(a.b, b.b)
}

pub(crate) fn same_udim(a: UDim, b: UDim) -> (r: bool)
    ensures
        r == udim_eq(a, b),
{
    same_f32(a.scale, b.scale) && a.offset == b.offset
}

pub fn same_vector2(a: Vector2, b: Vector2) -> (r: bool)
    ensures
        r == vector2_eq(a, b),
{
    same_f32(a.x, b.x) && same_f32(a.y, b.y)
}

pub(crate) fn same_color3(a: Color3, b: Color3) -> (r: bool)
    ensures
        r == color3_eq(a, b),
{
    same_f32(a.r, b.r) && same_f32(a.g, b.g) && same_f32(a.b, b.b)
}

pub(crate) fn same_color_keys(a: &Vec<ColorKey>, b: &Vec<ColorKey>) -> (r: bool)
    ensures
        r == value_eq(ValueView::ColorSequence(a@), ValueView::ColorSequence(b@)),
{
    if a.len() != b.len() {
        return false;
    }
    let mut i: usize = 0;
    while i < a.len()
        invariant
            i <= a.len() == b.len(),
            forall|j: int|
                0 <= j < i ==> f32_eq((#[trigger] a@[j]).time, b@[j].time) && color3_eq(
                    a@[j].color,
                    b@[j].color,
                ),
        decreases a.len() - i,
    {
        if !(same_f32(a[i].time, b[i].time) && same_color3(a[i].color, b[i].color)) {
            assert(!f32_eq(a@[i as int].time, b@[i as int].time) || !color3_eq(
                a@[i as int].color,
                b@[i as int].color,
            ));
            return false;
        }
        i += 1;
    }
    true
}

pub(crate) fn same_number_keys(a: &Vec<NumberKey>, b: &Vec<NumberKey>) -> (r: bool)
    ensures
        r == value_eq(ValueView::NumberSequence(a@), ValueView::NumberSequence(b@)),
{
    if a.len() != b.len() {
        return false;
    }
    let mut i: usize = 0;
    while i < a.len()
        invariant
            i <= a.len() == b.len(),
            forall|j: int|
                0 <= j < i ==> f32_eq((#[trigger] a@[j]).time, b@[j].time) && f32_eq(
                    a@[j].value,
                    b@[j].value,
                ) && f32_eq(a@[j].envelope, b@[j].envelope),
        decreases a.len() - i,
    {
        if !(same_f32(a[i].time, b[i].time) && same_f32(a[i].value, b[i].value) && same_f32(
            a[i].envelope,
            b[i].envelope,
        )) {
            assert(!(f32_eq(a@[i as int].time, b@[i as int].time) && f32_eq(
                a@[i as int].value,
                b@[i as int].value,
            ) && f32_eq(a@[i as int].envelope, b@[i as int].envelope)));
            return false;
        }
        i += 1;
    }
    true
}

fn copy_color_keys(a: &Vec<ColorKey>) -> (r: Vec<ColorKey>)
    ensures
        r@ == a@,
{
    let mut r: Vec<ColorKey> = Vec::new();
    let mut i: usize = 0;
    while i < a.len()
        invariant
            i <= a.len(),
            r@ == a@.take(i as int),
        decreases a.len() - i,
    {
        r.push(a[i]);
        i += 1;
        assert(r@ =~= a@.take(i as int));
    }
    assert(r@ =~= a@);
    r
}

fn copy_number_keys(a: &Vec<NumberKey>) -> (r: Vec<NumberKey>)
    ensures
        r@ == a@,
{
    let mut r: Vec<NumberKey> = Vec::new();
    let mut i: usize = 0;
    while i < a.len()
        invariant
            i <= a.len(),
            r@ == a@.take(i as int),
        decreases a.len() - i,
    {
        r.push(a[i]);
        i += 1;
        assert(r@ =~= a@.take(i as int));
    }
    assert(r@ =~= a@);
    r
}

impl Content {
    pub fn dup(&self) -> (r: Content)
        ensures
            r@ == self@,
    {
        match self {
            Content::Empty => Content::Empty,
            Content::Uri(u) => Content::Uri(u.clone()),
            Content::Object(o) => Content::Object(o.clone()),
        }
    }

    pub fn matches(&self, other: &Content) -> (r: bool)
        ensures
            r == (self@ == other@),
    {
        match (self, other) {
            (Content::Empty, Content::Empty) => true,
            (Content::Uri(a), Content::Uri(b)) => same(a.as_str(), b.as_str()),
            (Content::Object(a), Content::Object(b)) => same(a.as_str(), b.as_str()),
            _ => false,
        }
    }
}

impl Font {
    pub fn dup(&self) -> (r: Font)
        ensures
            r@ == self@,
    {
        Font {
            family: self.family.clone(),
            weight: self.weight,
            style: self.style,
            cached_face: match &self.cached_face {
                Some(f) => Some(f.clone()),
                None => None,
            },
        }
    }

    pub fn matches(&self, other: &Font) -> (r: bool)
        ensures
            r == (self@ == other@),
    {
        same(self.family.as_str(), other.family.as_str()) && self.weight == other.weight
            && self.style == other.style && match (&self.cached_face, &other.cached_face) {
            (None, None) => true,
            (Some(a), Some(b)) => same(a.as_str(), b.as_str()),
            _ => false,
        }
    }
}

impl Value {
    /// A value equal to this one.
    pub fn dup(&self) -> (r: Value)
        ensures
            r@ == self@,
    {
        match self {
            Value::Bool(b) => Value::Bool(*b),
            Value::Text(t) => Value::Text(t.clone()),
            Value::Float32(x) => Value::Float32(*x),
            Value::Float64(x) => Value::Float64(*x),
            Value::Int32(n) => Value::Int32(*n),
            Value::Int64(n) => Value::Int64(*n),
            Value::UDim(u) => Value::UDim(*u),
            Value::UDim2(u) => Value::UDim2(*u),
            Value::Vector2(v) => Value::Vector2(*v),
            Value::Color3(c) => Value::Color3(*c),
            Value::Color3uint8(r, g, b) => Value::Color3uint8(*r, *g, *b),
            Value::Rect(r) => Value::Rect(*r),
            Value::Content(c) => Value::Content(c.dup()),
            Value::ContentId(c) => Value::ContentId(c.clone()),
            Value::Font(f) => Value::Font(f.dup()),
            Value::ColorSequence(k) => Value::ColorSequence(copy_color_keys(k)),
            Value::NumberSequence(k) => Value::NumberSequence(copy_number_keys(k)),
            Value::Enum(n) => Value::Enum(*n),
            Value::Other(t) => Value::Other(t.clone()),
        }
    }

    /// Do the two values compare equal?
    pub fn matches(&self, other: &Value) -> (r: bool)
        ensures
            r == value_eq(self@, other@),
    {
        match (self, other) {
            (Value::Bool(a), Value::Bool(b)) => *a == *b,
            (Value::Text(a), Value::Text(b)) => same(a.as_str(), b.as_str()),
            (Value::Float32(a), Value::Float32(b)) => same_f32(*a, *b),
            (Value::Float64(a), Value::Float64(b)) => same_f64(*a, *b),
            (Value::Int32(a), Value::Int32(b)) => *a == *b,
            (Value::Int64(a), Value::Int64(b)) => *a == *b,
            (Value::UDim(a), Value::UDim(b)) => same_udim(*a, *b),
            (Value::UDim2(a), Value::UDim2(b)) => same_udim(a.x, b.x) && same_udim(a.y, b.y),
            (Value::Vector2(a), Value::Vector2(b)) => same_vector2(*a, *b),
            (Value::Color3(a), Value::Color3(b)) => same_color3(*a, *b),
            (Value::Color3uint8(r, g, b), Value::Color3uint8(r2, g2, b2)) => *r == *r2 && *g == *g2
                && *b == *b2,
            (Value::Rect(a), Value::Rect(b)) => same_vector2(a.min, b.min) && same_vector2(
                a.max,
                b.max,
            ),
            (Value::Content(a), Value::Content(b)) => a.matches(b),
            (Value::ContentId(a), Value::ContentId(b)) => same(a.as_str(), b.as_str()),
            (Value::Font(a), Value::Font(b)) => a.matches(b),
            (Value::ColorSequence(a), Value::ColorSequence(b)) => same_color_keys(a, b),
            (Value::NumberSequence(a), Value::NumberSequence(b)) => same_number_keys(a, b),
            (Value::Enum(a), Value::Enum(b)) => *a == *b,
            (Value::Other(a), Value::Other(b)) => same(a.as_str(), b.as_str()),
            _ => false,
        }
    }
}

/// The declared types this library can store; `Other` is any other, by name.
#[derive(Debug)]
pub enum VariantType {
    Bool,
    Text,
    Float32,
    Float64,
    Int32,
    Int64,
    UDim,
    UDim2,
    Vector2,
    Color3,
    Rect,
    Content,
    ContentId,
    Font,
    ColorSequence,
    NumberSequence,
    Other(String),
}

pub enum TypeView {
    Bool,
    Text,
    Float32,
    Float64,
    Int32,
    Int64,
    UDim,
    UDim2,
    Vector2,
    Color3,
    Rect,
    Content,
    ContentId,
    Font,
    ColorSequence,
    NumberSequence,
    Other(Seq<char>),
}

impl View for VariantType {
    type V = TypeView;

    open spec fn view(&self) -> TypeView {
        match self {
            VariantType::Bool => TypeView::Bool,
            VariantType::Text => TypeView::Text,
            VariantType::Float32 => TypeView::Float32,
            VariantType::Float64 => TypeView::Float64,
            VariantType::Int32 => TypeView::Int32,
            VariantType::Int64 => TypeView::Int64,
            VariantType::UDim => TypeView::UDim,
            VariantType::UDim2 => TypeView::UDim2,
            VariantType::Vector2 => TypeView::Vector2,
            VariantType::Color3 => TypeView::Color3,
            VariantType::Rect => TypeView::Rect,
            VariantType::Content => TypeView::Content,
            VariantType::ContentId => TypeView::ContentId,
            VariantType::Font => TypeView::Font,
            VariantType::ColorSequence => TypeView::ColorSequence,
            VariantType::NumberSequence => TypeView::NumberSequence,
            VariantType::Other(t) => TypeView::Other(t@),
        }
    }
}

/// The declared type of the given name.
pub open spec fn type_named(name: Seq<char>) -> TypeView {
    if name == "Bool"@ {
        TypeView::Bool
    } else if name == "String"@ {
        TypeView::Text
    } else if name == "Float32"@ {
        TypeView::Float32
    } else if name == "Float64"@ {
        TypeView::Float64
    } else if name == "Int32"@ {
        TypeView::Int32
    } else if name == "Int64"@ {
        TypeView::Int64
    } else if name == "UDim"@ {
        TypeView::UDim
    } else if name == "UDim2"@ {
        TypeView::UDim2
    } else if name == "Vector2"@ {
        TypeView::Vector2
    } else if name == "Color3"@ {
        TypeView::Color3
    } else if name == "Rect"@ {
        TypeView::Rect
    } else if name == "Content"@ {
        TypeView::Content
    } else if name == "ContentId"@ {
        TypeView::ContentId
    } else if name == "Font"@ {
        TypeView::Font
    } else if name == "ColorSequence"@ {
        TypeView::ColorSequence
    } else if name == "NumberSequence"@ {
        TypeView::NumberSequence
    } else {
        TypeView::Other(name)
    }
}

impl VariantType {
    /// The declared type of the given name.
    pub fn named(name: &str) -> (r: VariantType)
        ensures
            r@ == type_named(name@),
    {
        if same(name, "Bool") {
            VariantType::Bool
        } else if same(name, "String") {
            VariantType::Text
        } else if same(name, "Float32") {
            VariantType::Float32
        } else if same(name, "Float64") {
            VariantType::Float64
        } else if same(name, "Int32") {
            VariantType::Int32
        } else if same(name, "Int64") {
            VariantType::Int64
        } else if same(name, "UDim") {
            VariantType::UDim
        } else if same(name, "UDim2") {
            VariantType::UDim2
        } else if same(name, "Vector2") {
            VariantType::Vector2
        } else if same(name, "Color3") {
            VariantType::Color3
        } else if same(name, "Rect") {
            VariantType::Rect
        } else if same(name, "Content") {
            VariantType::Content
        } else if same(name, "ContentId") {
            VariantType::ContentId
        } else if same(name, "Font") {
            VariantType::Font
        } else if same(name, "ColorSequence") {
            VariantType::ColorSequence
        } else if same(name, "NumberSequence") {
            VariantType::NumberSequence
        } else {
            VariantType::Other(name.to_owned())
        }
    }

    pub fn dup(&self) -> (r: VariantType)
        ensures
            r@ == self@,
    {
        match self {
            VariantType::Bool => VariantType::Bool,
            VariantType::Text => VariantType::Text,
            VariantType::Float32 => VariantType::Float32,
            VariantType::Float64 => VariantType::Float64,
            VariantType::Int32 => VariantType::Int32,
            VariantType::Int64 => VariantType::Int64,
            VariantType::UDim => VariantType::UDim,
            VariantType::UDim2 => VariantType::UDim2,
            VariantType::Vector2 => VariantType::Vector2,
            VariantType::Color3 => VariantType::Color3,
            VariantType::Rect => VariantType::Rect,
            VariantType::Content => VariantType::Content,
            VariantType::ContentId => VariantType::ContentId,
            VariantType::Font => VariantType::Font,
            VariantType::ColorSequence => VariantType::ColorSequence,
            VariantType::NumberSequence => VariantType::NumberSequence,
            VariantType::Other(t) => VariantType::Other(t.clone()),
        }
    }
}

/// The type of a property: a value type, or an enumeration by name.
#[derive(Debug)]
pub enum DataType {
    Value(VariantType),
    Enum(String),
}

pub enum DataTypeView {
    Value(TypeView),
    Enum(Seq<char>),
}

impl View for DataType {
    type V = DataTypeView;

    open spec fn view(&self) -> DataTypeView {
        match self {
            DataType::Value(t) => DataTypeView::Value(t@),
            DataType::Enum(e) => DataTypeView::Enum(e@),
        }
    }
}

/// What is known of a property: its type, and whether a guest may assign it.
#[derive(Debug)]
pub struct Descriptor {
    pub data_type: DataType,
    pub writable: bool,
}

pub struct DescriptorView {
    pub data_type: DataTypeView,
    pub writable: bool,
}

impl View for Descriptor {
    type V = DescriptorView;

    open spec fn view(&self) -> DescriptorView {
        DescriptorView { data_type: self.data_type@, writable: self.writable }
    }
}

/// The declared types that can be stored.
pub open spec fn is_supported(ty: TypeView) -> bool {
    !(ty is Other)
}

/// Can a property of this declared type be stored?
pub fn supported(ty: &VariantType) -> (r: bool)
    ensures
        r == is_supported(ty@),
{
    !matches!(ty, VariantType::Other(_))
}

/// What a property of this declared type reads before anything sets it: zero, empty, or for a
/// sequence its two ends. `0x3f800000` is the single one. Three types have no such value.
pub open spec fn zero_of(ty: TypeView) -> Option<ValueView> {
    let origin = Vector2 { x: 0, y: 0 };
    let nothing = UDim { scale: 0, offset: 0 };
    let black = Color3 { r: 0, g: 0, b: 0 };
    let white = Color3 { r: 0x3f80_0000, g: 0x3f80_0000, b: 0x3f80_0000 };
    match ty {
        TypeView::Bool => Some(ValueView::Bool(false)),
        TypeView::Text => Some(ValueView::Text(Seq::empty())),
        TypeView::Float32 => Some(ValueView::Float32(0)),
        TypeView::Float64 => Some(ValueView::Float64(0)),
        TypeView::Int32 => Some(ValueView::Int32(0)),
        TypeView::Int64 => Some(ValueView::Int64(0)),
        TypeView::UDim => Some(ValueView::UDim(nothing)),
        TypeView::UDim2 => Some(ValueView::UDim2(UDim2 { x: nothing, y: nothing })),
        TypeView::Vector2 => Some(ValueView::Vector2(origin)),
        TypeView::Color3 => Some(ValueView::Color3(black)),
        TypeView::ColorSequence => Some(
            ValueView::ColorSequence(
                seq![
                    ColorKey { time: 0, color: white },
                    ColorKey { time: 0x3f80_0000, color: white },
                ],
            ),
        ),
        TypeView::NumberSequence => Some(
            ValueView::NumberSequence(
                seq![
                    NumberKey { time: 0, value: 0, envelope: 0 },
                    NumberKey { time: 0x3f80_0000, value: 0, envelope: 0 },
                ],
            ),
        ),
        TypeView::Content => Some(ValueView::Content(ContentView::Empty)),
        TypeView::ContentId => Some(ValueView::ContentId(Seq::empty())),
        TypeView::Rect | TypeView::Font | TypeView::Other(_) => None,
    }
}

/// What a property of this declared type reads before anything sets it.
pub fn zero_for(ty: &VariantType) -> (r: Option<Value>)
    ensures
        match r {
            Some(v) => zero_of(ty@) == Some(v@),
            None => zero_of(ty@) is None,
        },
{
    let nothing = UDim { scale: 0, offset: 0 };
    let white = Color3 { r: 0x3f80_0000, g: 0x3f80_0000, b: 0x3f80_0000 };
    match ty {
        VariantType::Bool => Some(Value::Bool(false)),
        VariantType::Text => Some(Value::Text(String::new())),
        VariantType::Float32 => Some(Value::Float32(0)),
        VariantType::Float64 => Some(Value::Float64(0)),
        VariantType::Int32 => Some(Value::Int32(0)),
        VariantType::Int64 => Some(Value::Int64(0)),
        VariantType::UDim => Some(Value::UDim(nothing)),
        VariantType::UDim2 => Some(Value::UDim2(UDim2 { x: nothing, y: nothing })),
        VariantType::Vector2 => Some(Value::Vector2(Vector2 { x: 0, y: 0 })),
        VariantType::Color3 => Some(Value::Color3(Color3 { r: 0, g: 0, b: 0 })),
        VariantType::ColorSequence => {
            let mut keys: Vec<ColorKey> = Vec::new();
            keys.push(ColorKey { time: 0, color: white });
            keys.push(ColorKey { time: 0x3f80_0000, color: white });
            assert(keys@ =~= seq![
                ColorKey { time: 0, color: white },
                ColorKey { time: 0x3f80_0000, color: white },
            ]);
            Some(Value::ColorSequence(keys))
        },
        VariantType::NumberSequence => {
            let mut keys: Vec<NumberKey> = Vec::new();
            keys.push(NumberKey { time: 0, value: 0, envelope: 0 });
            keys.push(NumberKey { time: 0x3f80_0000, value: 0, envelope: 0 });
            assert(keys@ =~= seq![
                NumberKey { time: 0, value: 0, envelope: 0 },
                NumberKey { time: 0x3f80_0000, value: 0, envelope: 0 },
            ]);
            Some(Value::NumberSequence(keys))
        },
        VariantType::Content => Some(Value::Content(Content::Empty)),
        VariantType::ContentId => Some(Value::ContentId(String::new())),
        VariantType::Rect | VariantType::Font | VariantType::Other(_) => None,
    }
}

/// Equality of values is symmetric.
pub proof fn value_eq_symmetric(a: ValueView, b: ValueView)
    ensures
        value_eq(a, b) == value_eq(b, a),
{
    match (a, b) {
        (ValueView::ColorSequence(x), ValueView::ColorSequence(y)) => {
            if value_eq(a, b) {
                assert forall|i: int| 0 <= i < y.len() implies f32_eq((#[trigger] y[i]).time, x[i].time)
                    && color3_eq(y[i].color, x[i].color) by {
                    assert(f32_eq(x[i].time, y[i].time));
                }
            }
            if value_eq(b, a) {
                assert forall|i: int| 0 <= i < x.len() implies f32_eq((#[trigger] x[i]).time, y[i].time)
                    && color3_eq(x[i].color, y[i].color) by {
                    assert(f32_eq(y[i].time, x[i].time));
                }
            }
        },
        (ValueView::NumberSequence(x), ValueView::NumberSequence(y)) => {
            if value_eq(a, b) {
                assert forall|i: int| 0 <= i < y.len() implies f32_eq((#[trigger] y[i]).time, x[i].time)
                    && f32_eq(y[i].value, x[i].value) && f32_eq(y[i].envelope, x[i].envelope) by {
                    assert(f32_eq(x[i].time, y[i].time));
                }
            }
            if value_eq(b, a) {
                assert forall|i: int| 0 <= i < x.len() implies f32_eq((#[trigger] x[i]).time, y[i].time)
                    && f32_eq(x[i].value, y[i].value) && f32_eq(x[i].envelope, y[i].envelope) by {
                    assert(f32_eq(y[i].time, x[i].time));
                }
            }
        },
        _ => {},
    }
}

} // verus!
