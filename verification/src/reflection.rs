//! What is known of classes, properties and enumerations: the reflection database, seen through
//! the flags that are on.

use crate::extensions;
use crate::extensions::{
    blend_modes, defaulted, described, enum_visible, extension_class, item_views,
};
use crate::flags::Enabled;
use crate::text::same;
use crate::value::{
    is_supported, supported, type_named, Color3, ColorKey, Content, DataType, DataTypeView,
    Descriptor, DescriptorView, Font, NumberKey, Rect, UDim, UDim2, Value, ValueView, VariantType,
    Vector2,
};
use vstd::prelude::*;

verus! {

#[verifier::external_type_specification]
#[verifier::external_body]
pub struct ExReflectionDatabase<'a>(rbx_reflection::ReflectionDatabase<'a>);

#[verifier::external_type_specification]
#[verifier::external_body]
pub struct ExVariant(rbx_types::Variant);

#[verifier::external_type_specification]
#[verifier::external_body]
pub struct ExDatabaseError(rbx_reflection_database::Error);

/// The classes of a database: under each key, the class's own name and that of its superclass.
pub uninterp spec fn database_classes(
    db: rbx_reflection::ReflectionDatabase<'static>,
) -> Map<Seq<char>, (Seq<char>, Option<Seq<char>>)>;

/// The properties that the classes of a database introduce, under the keys of class and property:
/// the name of the scriptability, whether the type is an enumeration, and the name of the type or
/// of the enumeration.
pub uninterp spec fn database_properties(
    db: rbx_reflection::ReflectionDatabase<'static>,
) -> Map<(Seq<char>, Seq<char>), (Seq<char>, bool, Seq<char>)>;

/// The default values that the classes of a database carry, under the keys of class and property.
pub uninterp spec fn database_defaults(
    db: rbx_reflection::ReflectionDatabase<'static>,
) -> Map<(Seq<char>, Seq<char>), ValueView>;

/// The enumerations of a database: under each key, the enumeration's own name and its items.
pub uninterp spec fn database_enums(
    db: rbx_reflection::ReflectionDatabase<'static>,
) -> Map<Seq<char>, (Seq<char>, Map<Seq<char>, u32>)>;

/// The value that a `Variant` holds.
pub uninterp spec fn variant_value(v: rbx_types::Variant) -> ValueView;

/// `rbx_reflection_database::get`, which answers with a database from the user's disk where there
/// is one, and with the bundled one otherwise. Which of them, or an error, is not claimed.
#[verifier::external_body]
fn database() -> (r: Result<
    &'static rbx_reflection::ReflectionDatabase<'static>,
    rbx_reflection_database::Error,
>) {
    rbx_reflection_database::get()
}

/// `classes.len()`: how many classes the database holds.
#[verifier::external_body]
fn class_count(db: &'static rbx_reflection::ReflectionDatabase<'static>) -> (r: usize)
    ensures
        r == database_classes(*db).len(),
{
    db.classes.len()
}

/// `classes.get`: the name and the superclass of the class under a key.
#[verifier::external_body]
fn class_row(db: &'static rbx_reflection::ReflectionDatabase<'static>, class: &str) -> (r: Option<
    (&'static str, Option<&'static str>),
>)
    ensures
        match r {
            Some((name, superclass)) => database_classes(*db).contains_key(class@)
                && database_classes(*db)[class@] == (
                name@,
                match superclass {
                    Some(s) => Some(s@),
                    None => None,
                },
            ),
            None => !database_classes(*db).contains_key(class@),
        },
{
    db.classes.get(class).map(|c| (c.name, c.superclass))
}

/// `properties.get` of a class: the property's scriptability, and its type or enumeration, the
/// first two by their `Debug` names.
#[verifier::external_body]
fn property_row(
    db: &'static rbx_reflection::ReflectionDatabase<'static>,
    class: &str,
    property: &str,
) -> (r: Option<(String, bool, String)>)
    ensures
        match r {
            Some((access, is_enum, ty)) => database_properties(*db).contains_key((class@, property@))
                && database_properties(*db)[(class@, property@)] == (access@, is_enum, ty@),
            None => !database_properties(*db).contains_key((class@, property@)),
        },
{
    let row = db.classes.get(class)?.properties.get(property)?;
    let (is_enum, ty) = match &row.data_type {
        rbx_reflection::DataType::Enum(name) => (true, name.to_string()),
        rbx_reflection::DataType::Value(ty) => (false, format!("{ty:?}")),
        other => (false, format!("{other:?}")),
    };
    Some((format!("{:?}", row.scriptability), is_enum, ty))
}

/// `default_properties.get` of a class.
#[verifier::external_body]
fn default_row(
    db: &'static rbx_reflection::ReflectionDatabase<'static>,
    class: &str,
    property: &str,
) -> (r: Option<&'static rbx_types::Variant>)
    ensures
        match r {
            Some(v) => database_defaults(*db).contains_key((class@, property@))
                && database_defaults(*db)[(class@, property@)] == variant_value(*v),
            None => !database_defaults(*db).contains_key((class@, property@)),
        },
{
    db.classes.get(class)?.default_properties.get(property)
}

/// Do the rows hold each item of the enumeration once?
pub open spec fn lists(rows: Seq<(String, u32)>, items: Map<Seq<char>, u32>) -> bool {
    &&& forall|i: int|
        0 <= i < rows.len() ==> items.contains_key((#[trigger] rows[i]).0@)
            && items[rows[i].0@] == rows[i].1
    &&& forall|i: int, j: int|
        0 <= i < j < rows.len() ==> (#[trigger] rows[i]).0@ != (#[trigger] rows[j]).0@
    &&& forall|name: Seq<char>| #[trigger]
        items.contains_key(name) ==> exists|i: int|
            0 <= i < rows.len() && (#[trigger] rows[i]).0@ == name
}

/// `enums.get`: the name of the enumeration under a key, and its items, in an order that is not
/// claimed.
#[verifier::external_body]
fn enum_rows(db: &'static rbx_reflection::ReflectionDatabase<'static>, name: &str) -> (r: Option<
    (String, Vec<(String, u32)>),
>)
    ensures
        match r {
            Some((own, rows)) => database_enums(*db).contains_key(name@) && database_enums(
                *db,
            )[name@].0 == own@ && lists(rows@, database_enums(*db)[name@].1),
            None => !database_enums(*db).contains_key(name@),
        },
{
    let row = db.enums.get(name)?;
    let items = row.items.iter().map(|(k, v)| (k.to_string(), *v)).collect();
    Some((row.name.to_string(), items))
}

pub open spec fn is_scalar(v: ValueView) -> bool {
    match v {
        ValueView::Bool(_) | ValueView::Text(_) | ValueView::Float32(_) | ValueView::Float64(_) | ValueView::Int32(_) | ValueView::Int64(_) | ValueView::Enum(_) => true,
        _ => false,
    }
}

pub open spec fn is_geometry(v: ValueView) -> bool {
    match v {
        ValueView::UDim(_) | ValueView::UDim2(_) | ValueView::Vector2(_) | ValueView::Rect(_) => true,
        _ => false,
    }
}

pub open spec fn is_colour(v: ValueView) -> bool {
    v is Color3 || v is Color3uint8
}

pub open spec fn is_ramp(v: ValueView) -> bool {
    v is ColorSequence || v is NumberSequence
}

pub open spec fn is_asset(v: ValueView) -> bool {
    match v {
        ValueView::Content(_) | ValueView::ContentId(_) | ValueView::Font(_) => true,
        _ => false,
    }
}

/// The scalar variants of `Variant`, with floating-point numbers by `to_bits`.
#[verifier::external_body]
fn scalar(v: &rbx_types::Variant) -> (r: Option<Value>)
    ensures
        match r {
            Some(x) => x@ == variant_value(*v),
            None => !is_scalar(variant_value(*v)),
        },
{
    match v {
        rbx_types::Variant::Bool(b) => Some(Value::Bool(*b)),
        rbx_types::Variant::String(s) => Some(Value::Text(s.clone())),
        rbx_types::Variant::Float32(x) => Some(Value::Float32(x.to_bits())),
        rbx_types::Variant::Float64(x) => Some(Value::Float64(x.to_bits())),
        rbx_types::Variant::Int32(n) => Some(Value::Int32(*n)),
        rbx_types::Variant::Int64(n) => Some(Value::Int64(*n)),
        rbx_types::Variant::Enum(e) => Some(Value::Enum(e.to_u32())),
        _ => None,
    }
}

/// The variants of `Variant` that measure, with floating-point numbers by `to_bits`.
#[verifier::external_body]
fn geometry(v: &rbx_types::Variant) -> (r: Option<Value>)
    ensures
        match r {
            Some(x) => x@ == variant_value(*v),
            None => !is_geometry(variant_value(*v)),
        },
{
    let dim = |u: rbx_types::UDim| UDim { scale: u.scale.to_bits(), offset: u.offset };
    let pair = |p: rbx_types::Vector2| Vector2 { x: p.x.to_bits(), y: p.y.to_bits() };
    match v {
        rbx_types::Variant::UDim(u) => Some(Value::UDim(dim(*u))),
        rbx_types::Variant::UDim2(u) => Some(Value::UDim2(UDim2 { x: dim(u.x), y: dim(u.y) })),
        rbx_types::Variant::Vector2(p) => Some(Value::Vector2(pair(*p))),
        rbx_types::Variant::Rect(r) => Some(Value::Rect(Rect { min: pair(r.min), max: pair(r.max) })),
        _ => None,
    }
}

/// The variants of `Variant` that are one colour, with floating-point numbers by `to_bits`.
#[verifier::external_body]
fn colour(v: &rbx_types::Variant) -> (r: Option<Value>)
    ensures
        match r {
            Some(x) => x@ == variant_value(*v),
            None => !is_colour(variant_value(*v)),
        },
{
    match v {
        rbx_types::Variant::Color3(c) => Some(
            Value::Color3(Color3 { r: c.r.to_bits(), g: c.g.to_bits(), b: c.b.to_bits() }),
        ),
        rbx_types::Variant::Color3uint8(c) => Some(Value::Color3uint8(c.r, c.g, c.b)),
        _ => None,
    }
}

/// The variants of `Variant` that are keys along a line, with floating-point numbers by `to_bits`.
#[verifier::external_body]
fn ramp(v: &rbx_types::Variant) -> (r: Option<Value>)
    ensures
        match r {
            Some(x) => x@ == variant_value(*v),
            None => !is_ramp(variant_value(*v)),
        },
{
    let rgb = |c: rbx_types::Color3| Color3 { r: c.r.to_bits(), g: c.g.to_bits(), b: c.b.to_bits() };
    match v {
        rbx_types::Variant::ColorSequence(s) => Some(Value::ColorSequence(s.keypoints.iter().map(
            |k| ColorKey { time: k.time.to_bits(), color: rgb(k.color) }).collect())),
        rbx_types::Variant::NumberSequence(s) => Some(Value::NumberSequence(s.keypoints.iter().map(
            |k| NumberKey { time: k.time.to_bits(), value: k.value.to_bits(), envelope: k.envelope.to_bits() },
        ).collect())),
        _ => None,
    }
}

/// The variants of `Variant` that name an asset.
#[verifier::external_body]
fn asset(v: &rbx_types::Variant) -> (r: Option<Value>)
    ensures
        match r {
            Some(x) => x@ == variant_value(*v),
            None => !is_asset(variant_value(*v)),
        },
{
    match v {
        rbx_types::Variant::ContentId(c) => Some(Value::ContentId(c.as_str().to_string())),
        rbx_types::Variant::Content(c) => Some(Value::Content(match c.value() {
            rbx_types::ContentType::Uri(u) => Content::Uri(u.clone()),
            rbx_types::ContentType::Object(o) => Content::Object(o.to_string()),
            _ => Content::Empty,
        })),
        rbx_types::Variant::Font(f) => Some(Value::Font(Font {
            family: f.family.clone(), weight: f.weight.as_u16(), style: f.style.as_u8(),
            cached_face: f.cached_face_id.clone(),
        })),
        _ => None,
    }
}

/// `Variant::ty`, by its `Debug` name.
#[verifier::external_body]
fn variant_name(v: &rbx_types::Variant) -> (r: String)
    ensures
        variant_value(*v) is Other ==> variant_value(*v) == ValueView::Other(r@),
{
    format!("{:?}", v.ty())
}

/// The value that a `Variant` holds.
fn value_of(v: &rbx_types::Variant) -> (r: Value)
    ensures
        r@ == variant_value(*v),
{
    if let Some(x) = scalar(v) {
        return x;
    }
    if let Some(x) = geometry(v) {
        return x;
    }
    if let Some(x) = colour(v) {
        return x;
    }
    if let Some(x) = ramp(v) {
        return x;
    }
    match asset(v) {
        Some(x) => x,
        None => Value::Other(variant_name(v)),
    }
}

/// A member of an enumeration.
#[derive(Debug)]
pub struct EnumItem {
    pub ty: String,
    pub name: String,
    pub value: u32,
}

pub struct EnumItemView {
    pub ty: Seq<char>,
    pub name: Seq<char>,
    pub value: u32,
}

impl View for EnumItem {
    type V = EnumItemView;

    open spec fn view(&self) -> EnumItemView {
        EnumItemView { ty: self.ty@, name: self.name@, value: self.value }
    }
}

/// The reflection database, where there is one, and the flags that are on.
pub struct Catalog {
    pub db: Option<&'static rbx_reflection::ReflectionDatabase<'static>>,
    pub enabled: Enabled,
}

/// A catalog, as the maps that it consults. `available` is false without a database.
pub struct CatalogView {
    pub available: bool,
    pub classes: Map<Seq<char>, (Seq<char>, Option<Seq<char>>)>,
    pub properties: Map<(Seq<char>, Seq<char>), (Seq<char>, bool, Seq<char>)>,
    pub defaults: Map<(Seq<char>, Seq<char>), ValueView>,
    pub enums: Map<Seq<char>, (Seq<char>, Map<Seq<char>, u32>)>,
    pub enabled: Set<Seq<char>>,
}

impl View for Catalog {
    type V = CatalogView;

    open spec fn view(&self) -> CatalogView {
        match self.db {
            Some(db) => CatalogView {
                available: true,
                classes: database_classes(*db),
                properties: database_properties(*db),
                defaults: database_defaults(*db),
                enums: database_enums(*db),
                enabled: self.enabled@,
            },
            None => CatalogView {
                available: false,
                classes: Map::empty(),
                properties: Map::empty(),
                defaults: Map::empty(),
                enums: Map::empty(),
                enabled: self.enabled@,
            },
        }
    }
}

impl CatalogView {
    /// Steps enough for any walk up the classes that does not go round in a circle.
    pub open spec fn reach(self) -> nat {
        self.classes.len() + 2
    }

    /// The property that a class itself introduces.
    pub open spec fn own_property(self, class: Seq<char>, property: Seq<char>) -> Option<
        DescriptorView,
    > {
        if self.properties.contains_key((class, property)) {
            let (access, is_enum, ty) = self.properties[(class, property)];
            Some(
                DescriptorView {
                    data_type: if is_enum {
                        DataTypeView::Enum(ty)
                    } else {
                        DataTypeView::Value(type_named(ty))
                    },
                    writable: access == "ReadWrite"@ || access == "Write"@,
                },
            )
        } else {
            None
        }
    }

    /// The default that a class itself carries.
    pub open spec fn own_default(self, class: Seq<char>, property: Seq<char>) -> Option<ValueView> {
        if self.defaults.contains_key((class, property)) {
            Some(self.defaults[(class, property)])
        } else {
            None
        }
    }

    /// What a class answers for a property, within so many steps: at each class an extension row
    /// first, then what the class introduces, then its superclass. A class that this host adds
    /// answers as `TextLabel`, then as `ImageLabel`, and goes on at `GuiObject`.
    pub open spec fn walk_property(
        self,
        class: Seq<char>,
        property: Seq<char>,
        steps: nat,
    ) -> Option<DescriptorView>
        decreases steps,
    {
        if steps == 0 {
            None
        } else if described(self.enabled, class, property) is Some {
            described(self.enabled, class, property)
        } else if self.classes.contains_key(class) {
            if self.own_property(class, property) is Some {
                self.own_property(class, property)
            } else {
                match self.classes[class].1 {
                    Some(superclass) => self.walk_property(superclass, property, (steps - 1) as nat),
                    None => None,
                }
            }
        } else if extension_class(class) {
            if self.own_property("TextLabel"@, property) is Some {
                self.own_property("TextLabel"@, property)
            } else if self.own_property("ImageLabel"@, property) is Some {
                self.own_property("ImageLabel"@, property)
            } else {
                self.walk_property("GuiObject"@, property, (steps - 1) as nat)
            }
        } else {
            None
        }
    }

    /// What is known of a property of a class.
    pub open spec fn property(self, class: Seq<char>, property: Seq<char>) -> Option<
        DescriptorView,
    > {
        if self.available {
            self.walk_property(class, property, self.reach())
        } else {
            None
        }
    }

    /// What a class answers as the default of a property, within so many steps; the same walk as
    /// [`CatalogView::walk_property`].
    pub open spec fn walk_default(
        self,
        class: Seq<char>,
        property: Seq<char>,
        steps: nat,
    ) -> Option<ValueView>
        decreases steps,
    {
        if steps == 0 {
            None
        } else if defaulted(self.enabled, class, property) is Some {
            defaulted(self.enabled, class, property)
        } else if self.classes.contains_key(class) {
            if self.own_default(class, property) is Some {
                self.own_default(class, property)
            } else {
                match self.classes[class].1 {
                    Some(superclass) => self.walk_default(superclass, property, (steps - 1) as nat),
                    None => None,
                }
            }
        } else if extension_class(class) {
            if self.own_default("TextLabel"@, property) is Some {
                self.own_default("TextLabel"@, property)
            } else if self.own_default("ImageLabel"@, property) is Some {
                self.own_default("ImageLabel"@, property)
            } else {
                self.walk_default("GuiObject"@, property, (steps - 1) as nat)
            }
        } else {
            None
        }
    }

    /// The default of a property of a class.
    pub open spec fn default(self, class: Seq<char>, property: Seq<char>) -> Option<ValueView> {
        if self.available {
            self.walk_default(class, property, self.reach())
        } else {
            None
        }
    }

    /// Is `ancestor` the name of the class or, within so many steps, of one above it?
    pub open spec fn walk_is_a(self, class: Seq<char>, ancestor: Seq<char>, steps: nat) -> bool
        decreases steps,
    {
        if steps == 0 || !self.classes.contains_key(class) {
            false
        } else {
            self.classes[class].0 == ancestor || match self.classes[class].1 {
                Some(superclass) => self.walk_is_a(superclass, ancestor, (steps - 1) as nat),
                None => false,
            }
        }
    }

    /// Is a class `ancestor`, or does it descend from it? Only the database is asked.
    pub open spec fn is_a(self, class: Seq<char>, ancestor: Seq<char>) -> bool {
        self.walk_is_a(class, ancestor, self.reach())
    }

    /// Does every class of the database stand under its own name?
    pub open spec fn named_by_key(self) -> bool {
        forall|key: Seq<char>| #[trigger]
            self.classes.contains_key(key) ==> self.classes[key].0 == key
    }

    /// Is there a class of this name?
    pub open spec fn has_class(self, class: Seq<char>) -> bool {
        extension_class(class) || self.classes.contains_key(class)
    }

    /// The enumeration of this name: its own name and its items. One of this host's comes first.
    pub open spec fn category(self, name: Seq<char>) -> Option<
        (Seq<char>, Map<Seq<char>, u32>),
    > {
        if enum_visible(self.enabled, name) {
            Some(("BlendMode"@, blend_modes()))
        } else if self.enums.contains_key(name) {
            Some(self.enums[name])
        } else {
            None
        }
    }

    /// May a guest assign this property?
    pub open spec fn accepts(self, class: Seq<char>, property: Seq<char>) -> bool {
        match self.property(class, property) {
            None => false,
            Some(d) => property == "Name"@ || property == "Parent"@ || (d.writable
                && match d.data_type {
                DataTypeView::Value(ty) => is_supported(ty),
                DataTypeView::Enum(_) => true,
            }),
        }
    }
}

/// What a database row says of a property.
fn descriptor(row: (String, bool, String)) -> (r: Descriptor)
    ensures
        r@ == (DescriptorView {
            data_type: if row.1 {
                DataTypeView::Enum(row.2@)
            } else {
                DataTypeView::Value(type_named(row.2@))
            },
            writable: row.0@ == "ReadWrite"@ || row.0@ == "Write"@,
        }),
{
    let writable = same(row.0.as_str(), "ReadWrite") || same(row.0.as_str(), "Write");
    Descriptor {
        data_type: if row.1 {
            DataType::Enum(row.2)
        } else {
            DataType::Value(VariantType::named(row.2.as_str()))
        },
        writable,
    }
}

impl Catalog {
    /// A catalog on the database [found](Catalog::found) on this machine, if any, with every flag off.
    pub fn load() -> (r: Catalog)
        ensures
            r@.enabled == Set::<Seq<char>>::empty(),
    {
        Catalog::found(database())
    }

    /// A catalog without a database, with every flag off.
    pub fn without_database() -> (r: Catalog)
        ensures
            !r@.available,
            r@.enabled == Set::<Seq<char>>::empty(),
    {
        Catalog { db: None, enabled: Enabled::new() }
    }

    /// A catalog on what came of looking for a reflection database, with every flag off: on the
    /// database that was found, and on none where the search failed.
    pub fn found(
        database: Result<
            &'static rbx_reflection::ReflectionDatabase<'static>,
            rbx_reflection_database::Error,
        >,
    ) -> (r: Catalog)
        ensures
            r.db == (match database {
                Ok(db) => Some(db),
                Err(_) => None,
            }),
            r@.available == (database is Ok),
            r@.enabled == Set::<Seq<char>>::empty(),
    {
        let db = match database {
            Ok(db) => Some(db),
            Err(_) => None,
        };
        Catalog { db, enabled: Enabled::new() }
    }

    /// The property that a class itself introduces.
    fn own_property(
        &self,
        db: &'static rbx_reflection::ReflectionDatabase<'static>,
        class: &str,
        property: &str,
    ) -> (r: Option<Descriptor>)
        requires
            self.db == Some(db),
        ensures
            match r {
                Some(d) => self@.own_property(class@, property@) == Some(d@),
                None => self@.own_property(class@, property@) is None,
            },
    {
        match property_row(db, class, property) {
            Some(row) => Some(descriptor(row)),
            None => None,
        }
    }

    /// The default that a class itself carries.
    fn own_default(
        &self,
        db: &'static rbx_reflection::ReflectionDatabase<'static>,
        class: &str,
        property: &str,
    ) -> (r: Option<Value>)
        requires
            self.db == Some(db),
        ensures
            match r {
                Some(v) => self@.own_default(class@, property@) == Some(v@),
                None => self@.own_default(class@, property@) is None,
            },
    {
        match default_row(db, class, property) {
            Some(v) => Some(value_of(v)),
            None => None,
        }
    }

    /// What is known of a property of a class: on the class, or on the nearest class above it.
    pub fn describe(&self, class: &str, property: &str) -> (r: Option<Descriptor>)
        ensures
            match r {
                Some(d) => self@.property(class@, property@) == Some(d@),
                None => self@.property(class@, property@) is None,
            },
    {
        let db = match self.db {
            Some(db) => db,
            None => return None,
        };
        let n: usize = class_count(db);
        let mut extra: usize = 2;
        let mut left: usize = n;
        let mut cursor: String = class.to_owned();
        while left > 0 || extra > 0
            invariant
                self.db == Some(db),
                extra <= 2,
                self@.available,
                self@.property(class@, property@) == self@.walk_property(
                    cursor@,
                    property@,
                    (left + extra) as nat,
                ),
            decreases left + extra,
        {
            if let Some(d) = extensions::describe(&self.enabled, cursor.as_str(), property) {
                return Some(d);
            }
            let next: &str = match class_row(db, cursor.as_str()) {
                Some((_, superclass)) => {
                    if let Some(d) = self.own_property(db, cursor.as_str(), property) {
                        return Some(d);
                    }
                    match superclass {
                        Some(s) => s,
                        None => return None,
                    }
                },
                None => {
                    if !extensions::class_exists(&self.enabled, cursor.as_str()) {
                        return None;
                    }
                    if let Some(d) = self.own_property(db, "TextLabel", property) {
                        return Some(d);
                    }
                    if let Some(d) = self.own_property(db, "ImageLabel", property) {
                        return Some(d);
                    }
                    "GuiObject"
                },
            };
            cursor = next.to_owned();
            if extra > 0 {
                extra -= 1;
            } else {
                left -= 1;
            }
        }
        None
    }

    /// The default that a property reads before anything assigns it.
    pub fn default_for(&self, class: &str, property: &str) -> (r: Option<Value>)
        ensures
            match r {
                Some(v) => self@.default(class@, property@) == Some(v@),
                None => self@.default(class@, property@) is None,
            },
    {
        let db = match self.db {
            Some(db) => db,
            None => return None,
        };
        let n: usize = class_count(db);
        let mut extra: usize = 2;
        let mut left: usize = n;
        let mut cursor: String = class.to_owned();
        while left > 0 || extra > 0
            invariant
                self.db == Some(db),
                extra <= 2,
                self@.available,
                self@.default(class@, property@) == self@.walk_default(
                    cursor@,
                    property@,
                    (left + extra) as nat,
                ),
            decreases left + extra,
        {
            if let Some(v) = extensions::default_for(&self.enabled, cursor.as_str(), property) {
                return Some(v);
            }
            let next: &str = match class_row(db, cursor.as_str()) {
                Some((_, superclass)) => {
                    if let Some(v) = self.own_default(db, cursor.as_str(), property) {
                        return Some(v);
                    }
                    match superclass {
                        Some(s) => s,
                        None => return None,
                    }
                },
                None => {
                    if !extensions::class_exists(&self.enabled, cursor.as_str()) {
                        return None;
                    }
                    if let Some(v) = self.own_default(db, "TextLabel", property) {
                        return Some(v);
                    }
                    if let Some(v) = self.own_default(db, "ImageLabel", property) {
                        return Some(v);
                    }
                    "GuiObject"
                },
            };
            cursor = next.to_owned();
            if extra > 0 {
                extra -= 1;
            } else {
                left -= 1;
            }
        }
        None
    }

    /// Is there a class of this name, in the database or added by this host?
    pub fn class_exists(&self, class: &str) -> (r: bool)
        ensures
            r == self@.has_class(class@),
    {
        if extensions::class_exists(&self.enabled, class) {
            return true;
        }
        match self.db {
            Some(db) => match class_row(db, class) {
                Some(_) => true,
                None => false,
            },
            None => false,
        }
    }

    /// Is `class` `ancestor`, or does it descend from it?
    pub fn class_is_a(&self, class: &str, ancestor: &str) -> (r: bool)
        ensures
            r == self@.is_a(class@, ancestor@),
    {
        let db = match self.db {
            Some(db) => db,
            None => return false,
        };
        let n: usize = class_count(db);
        let mut extra: usize = 2;
        let mut left: usize = n;
        let mut cursor: String = class.to_owned();
        while left > 0 || extra > 0
            invariant
                self.db == Some(db),
                extra <= 2,
                self@.is_a(class@, ancestor@) == self@.walk_is_a(
                    cursor@,
                    ancestor@,
                    (left + extra) as nat,
                ),
            decreases left + extra,
        {
            match class_row(db, cursor.as_str()) {
                Some((name, superclass)) => {
                    if same(name, ancestor) {
                        return true;
                    }
                    match superclass {
                        Some(s) => {
                            cursor = s.to_owned();
                        },
                        None => return false,
                    }
                },
                None => return false,
            }
            if extra > 0 {
                extra -= 1;
            } else {
                left -= 1;
            }
        }
        false
    }

    /// May a guest assign `class.property`? The property has to exist on the class or above it,
    /// be writable, and have a type that can be stored. `Name` and `Parent` only have to exist.
    pub fn accepts(&self, class: &str, property: &str) -> (r: bool)
        ensures
            r == self@.accepts(class@, property@),
    {
        match self.describe(class, property) {
            None => false,
            Some(d) => same(property, "Name") || same(property, "Parent") || (d.writable
                && match &d.data_type {
                DataType::Value(ty) => supported(ty),
                DataType::Enum(_) => true,
            }),
        }
    }

    /// The enumeration of this name: its own name, and each of its items once.
    pub fn category(&self, name: &str) -> (r: Option<(String, Vec<(String, u32)>)>)
        ensures
            match r {
                Some((own, rows)) => self@.category(name@) is Some && self@.enum_own(name@)
                    == own@ && lists(rows@, self@.enum_map(name@)),
                None => self@.category(name@) is None,
            },
    {
        if let Some(items) = extensions::describe_enum(&self.enabled, name) {
            let ghost want = seq![("Alpha"@, 0u32), ("Additive"@, 1u32), ("Multiply"@, 2u32)];
            assert(items@.len() == want.len()) by {
                assert(item_views(items@).len() == want.len());
            }
            assert forall|i: int| 0 <= i < 3 implies (#[trigger] items@[i]).0@ == want[i].0
                && items@[i].1 == want[i].1 by {
                assert(item_views(items@)[i] == (items@[i].0@, items@[i].1));
            }
            let mut rows: Vec<(String, u32)> = Vec::new();
            let mut i: usize = 0;
            while i < items.len()
                invariant
                    i <= items.len() == 3,
                    rows.len() == i,
                    forall|j: int|
                        0 <= j < 3 ==> (#[trigger] items@[j]).0@ == want[j].0 && items@[j].1
                            == want[j].1,
                    forall|j: int|
                        0 <= j < i ==> (#[trigger] rows@[j]).0@ == want[j].0 && rows@[j].1
                            == want[j].1,
                decreases items.len() - i,
            {
                rows.push((items[i].0.to_owned(), items[i].1));
                i += 1;
            }
            proof {
                reveal_strlit("Alpha");
                reveal_strlit("Additive");
                reveal_strlit("Multiply");
                assert("Alpha"@.len() == 5);
                assert("Additive"@[0] == 'A');
                assert("Multiply"@[0] == 'M');
                assert("Additive"@.len() == 8);
                let items = blend_modes();
                assert(rows@[0].0@ == "Alpha"@);
                assert(rows@[1].0@ == "Additive"@);
                assert(rows@[2].0@ == "Multiply"@);
                assert forall|n: Seq<char>| #[trigger] items.contains_key(n) implies exists|k: int|
                    0 <= k < rows@.len() && (#[trigger] rows@[k]).0@ == n by {
                    if n == "Alpha"@ {
                        assert(rows@[0].0@ == n);
                    } else if n == "Additive"@ {
                        assert(rows@[1].0@ == n);
                    } else {
                        assert(rows@[2].0@ == n);
                    }
                }
            }
            return Some(("BlendMode".to_owned(), rows));
        }
        match self.db {
            Some(db) => enum_rows(db, name),
            None => None,
        }
    }

    /// A member of an enumeration with this value, where it has one.
    pub fn item_by_value(&self, ty: &str, value: u32) -> (r: Option<EnumItem>)
        ensures
            match r {
                Some(item) => self@.category(ty@) is Some && item.ty@ == self@.enum_own(ty@)
                    && item.value == value && self@.enum_map(ty@).contains_pair(
                    item.name@,
                    value,
                ),
                None => self@.category(ty@) matches Some((_, items)) ==> forall|name: Seq<char>|
                    !#[trigger] items.contains_pair(name, value),
            },
    {
        let (own, rows) = match self.category(ty) {
            Some(c) => c,
            None => return None,
        };
        let mut i: usize = 0;
        while i < rows.len()
            invariant
                i <= rows.len(),
                self@.category(ty@) is Some,
                own@ == self@.enum_own(ty@),
                lists(rows@, self@.enum_map(ty@)),
                forall|j: int| 0 <= j < i ==> (#[trigger] rows@[j]).1 != value,
            decreases rows.len() - i,
        {
            if rows[i].1 == value {
                return Some(EnumItem { ty: own, name: rows[i].0.clone(), value });
            }
            i += 1;
        }
        None
    }

    /// The member of an enumeration with this name, where it has one.
    pub fn item_by_name(&self, ty: &str, name: &str) -> (r: Option<EnumItem>)
        ensures
            match r {
                Some(item) => self@.category(ty@) is Some && self@.enum_map(ty@).contains_key(name@) && item@ == (EnumItemView {
                    ty: self@.enum_own(ty@),
                    name: name@,
                    value: self@.enum_map(ty@)[name@],
                }),
                None => self@.category(ty@) matches Some((_, items)) ==> !items.contains_key(name@),
            },
    {
        let (own, rows) = match self.category(ty) {
            Some(c) => c,
            None => return None,
        };
        let mut i: usize = 0;
        while i < rows.len()
            invariant
                i <= rows.len(),
                self@.category(ty@) is Some,
                own@ == self@.enum_own(ty@),
                lists(rows@, self@.enum_map(ty@)),
                forall|j: int| 0 <= j < i ==> (#[trigger] rows@[j]).0@ != name@,
            decreases rows.len() - i,
        {
            if same(rows[i].0.as_str(), name) {
                return Some(EnumItem { ty: own, name: rows[i].0.clone(), value: rows[i].1 });
            }
            i += 1;
        }
        None
    }

    /// Has the enumeration a member with this value?
    pub fn value_is_valid(&self, ty: &str, value: u32) -> (r: bool)
        ensures
            r == self@.enum_has(ty@, value),
    {
        match self.item_by_value(ty, value) {
            Some(item) => {
                assert(self@.enum_map(ty@).contains_pair(item.name@, value));
                true
            },
            None => false,
        }
    }

    /// Every member of an enumeration, in the order of their values.
    pub fn enum_items(&self, ty: &str) -> (r: Option<Vec<EnumItem>>)
        ensures
            match r {
                Some(items) => self@.category(ty@) is Some && by_value(items@) && members(
                    items@,
                    self@.enum_own(ty@),
                    self@.enum_map(ty@),
                ),
                None => self@.category(ty@) is None,
            },
    {
        let (own, rows) = match self.category(ty) {
            Some(c) => c,
            None => return None,
        };
        let mut out: Vec<EnumItem> = Vec::new();
        let mut i: usize = 0;
        assert(rows@.take(0) =~= Seq::empty());
        while i < rows.len()
            invariant
                i <= rows.len(),
                lists(rows@, self@.enum_map(ty@)),
                by_value(out@),
                members(out@, own@, row_map(rows@.take(i as int))),
            decreases rows.len() - i,
        {
            let ghost was = out@;
            let ghost prefix = rows@.take(i as int);
            let item = EnumItem { ty: own.clone(), name: rows[i].0.clone(), value: rows[i].1 };
            let ghost fresh = item;
            let at: usize = insert_by_value(&mut out, item);
            proof {
                let next = rows@.take(i + 1);
                assert(next.drop_last() =~= prefix);
                assert(next.last() == rows@[i as int]);
                if row_map(prefix).contains_key(fresh.name@) {
                    row_map_keys(prefix, fresh.name@);
                    let k = choose|k: int|
                        0 <= k < prefix.len() && (#[trigger] prefix[k]).0@ == fresh.name@;
                    assert(prefix[k] == rows@[k]);
                    assert(rows@[k].0@ != rows@[i as int].0@);
                }
                members_insert(was, at as int, fresh, own@, row_map(prefix));
            }
            i += 1;
        }
        proof {
            assert(rows@.take(i as int) =~= rows@);
            listed_map(rows@, self@.enum_map(ty@));
        }
        Some(out)
    }
}

impl CatalogView {
    /// The own name of an enumeration.
    pub open spec fn enum_own(self, name: Seq<char>) -> Seq<char> {
        let (own, items) = self.category(name)->0;
        own
    }

    /// The items of an enumeration.
    pub open spec fn enum_map(self, name: Seq<char>) -> Map<Seq<char>, u32> {
        let (own, items) = self.category(name)->0;
        items
    }

    /// Has the enumeration a member with this value?
    pub open spec fn enum_has(self, ty: Seq<char>, value: u32) -> bool {
        self.category(ty) matches Some((_, items)) && exists|name: Seq<char>| #[trigger]
            items.contains_pair(name, value)
    }
}

/// The map that rows of names and values stand for.
pub open spec fn row_map(rows: Seq<(String, u32)>) -> Map<Seq<char>, u32>
    decreases rows.len(),
{
    if rows.len() == 0 {
        Map::empty()
    } else {
        row_map(rows.drop_last()).insert(rows.last().0@, rows.last().1)
    }
}

proof fn row_map_keys(rows: Seq<(String, u32)>, name: Seq<char>)
    ensures
        row_map(rows).contains_key(name) <==> exists|k: int|
            0 <= k < rows.len() && (#[trigger] rows[k]).0@ == name,
    decreases rows.len(),
{
    if rows.len() > 0 {
        let rest = rows.drop_last();
        row_map_keys(rest, name);
        if row_map(rest).contains_key(name) {
            let k = choose|k: int| 0 <= k < rest.len() && (#[trigger] rest[k]).0@ == name;
            assert(rows[k].0@ == name);
        }
        if rows.last().0@ == name {
            assert(rows[rows.len() - 1].0@ == name);
        }
        if exists|k: int| 0 <= k < rows.len() && (#[trigger] rows[k]).0@ == name {
            let k = choose|k: int| 0 <= k < rows.len() && (#[trigger] rows[k]).0@ == name;
            if k < rest.len() {
                assert(rest[k].0@ == name);
            }
        }
    }
}

proof fn row_map_value(rows: Seq<(String, u32)>, items: Map<Seq<char>, u32>, name: Seq<char>)
    requires
        forall|i: int| 0 <= i < rows.len() ==> items[(#[trigger] rows[i]).0@] == rows[i].1,
        row_map(rows).contains_key(name),
    ensures
        row_map(rows)[name] == items[name],
    decreases rows.len(),
{
    if rows.len() > 0 {
        let rest = rows.drop_last();
        assert(rows[rows.len() - 1] == rows.last());
        if rows.last().0@ != name {
            assert forall|i: int| 0 <= i < rest.len() implies items[(#[trigger] rest[i]).0@]
                == rest[i].1 by {
                assert(rest[i] == rows[i]);
            }
            row_map_value(rest, items, name);
        }
    }
}

proof fn listed_map(rows: Seq<(String, u32)>, items: Map<Seq<char>, u32>)
    requires
        lists(rows, items),
    ensures
        row_map(rows) == items,
{
    assert forall|name: Seq<char>| row_map(rows).contains_key(name) == items.contains_key(
        name,
    ) by {
        row_map_keys(rows, name);
    }
    assert forall|name: Seq<char>| row_map(rows).contains_key(name) implies row_map(rows)[name]
        == items[name] by {
        row_map_value(rows, items, name);
    }
    assert(row_map(rows) =~= items);
}

proof fn members_insert(
    list: Seq<EnumItem>,
    at: int,
    fresh: EnumItem,
    ty: Seq<char>,
    items: Map<Seq<char>, u32>,
)
    requires
        0 <= at <= list.len(),
        members(list, ty, items),
        fresh.ty@ == ty,
        !items.contains_key(fresh.name@),
    ensures
        members(list.insert(at, fresh), ty, items.insert(fresh.name@, fresh.value)),
{
    let out = list.insert(at, fresh);
    let more = items.insert(fresh.name@, fresh.value);
    assert forall|j: int| 0 <= j < out.len() implies (#[trigger] out[j]).ty@ == ty
        && more.contains_pair(out[j].name@, out[j].value) by {
        if j < at {
            assert(out[j] == list[j]);
        } else if j > at {
            assert(out[j] == list[j - 1]);
        }
    }
    assert forall|a: int, b: int| 0 <= a < b < out.len() implies (#[trigger] out[a]).name@ != (
    #[trigger] out[b]).name@ by {
        let a2 = if a < at {
            a
        } else {
            a - 1
        };
        let b2 = if b < at {
            b
        } else {
            b - 1
        };
        if a != at {
            assert(out[a] == list[a2]);
            assert(items.contains_key(list[a2].name@));
        }
        if b != at {
            assert(out[b] == list[b2]);
            assert(items.contains_key(list[b2].name@));
        }
    }
    assert forall|name: Seq<char>| #[trigger] more.contains_key(name) implies exists|k: int|
        0 <= k < out.len() && (#[trigger] out[k]).name@ == name by {
        if name == fresh.name@ {
            assert(out[at].name@ == name);
        } else {
            let k = choose|k: int| 0 <= k < list.len() && (#[trigger] list[k]).name@ == name;
            if k < at {
                assert(out[k] == list[k]);
            } else {
                assert(out[k + 1] == list[k]);
            }
        }
    }
}

/// Put an item behind those with no greater a value; answers where.
fn insert_by_value(out: &mut Vec<EnumItem>, item: EnumItem) -> (at: usize)
    requires
        by_value(old(out)@),
    ensures
        at <= old(out)@.len(),
        final(out)@ == old(out)@.insert(at as int, item),
        by_value(final(out)@),
{
    let ghost was = out@;
    let ghost fresh = item;
    let value: u32 = item.value;
    let mut at: usize = out.len();
    while at > 0 && out[at - 1].value > value
        invariant
            at <= out.len(),
            out@ == was,
            forall|j: int| at <= j < out.len() ==> (#[trigger] out@[j]).value > value,
        decreases at,
    {
        at -= 1;
    }
    out.insert(at, item);
    proof {
        let now = out@;
        assert(now =~= was.insert(at as int, fresh));
        assert forall|a: int, b: int| 0 <= a < b < now.len() implies (#[trigger] now[a]).value <= (
        #[trigger] now[b]).value by {
            let a2 = if a < at {
                a
            } else {
                a - 1
            };
            let b2 = if b < at {
                b
            } else {
                b - 1
            };
            if a != at {
                assert(now[a] == was[a2]);
            }
            if b != at {
                assert(now[b] == was[b2]);
            }
            if b == at && a < at - 1 {
                assert(was[a].value <= was[at - 1].value);
            }
        }
    }
    at
}

/// Values do not go down along the list.
pub open spec fn by_value(items: Seq<EnumItem>) -> bool {
    forall|i: int, j: int|
        0 <= i < j < items.len() ==> (#[trigger] items[i]).value <= (#[trigger] items[j]).value
}

/// The list holds each item of the enumeration once, and nothing else.
pub open spec fn members(
    list: Seq<EnumItem>,
    ty: Seq<char>,
    items: Map<Seq<char>, u32>,
) -> bool {
    &&& forall|j: int|
        0 <= j < list.len() ==> (#[trigger] list[j]).ty@ == ty && items.contains_pair(
            list[j].name@,
            list[j].value,
        )
    &&& forall|a: int, b: int|
        0 <= a < b < list.len() ==> (#[trigger] list[a]).name@ != (#[trigger] list[b]).name@
    &&& forall|name: Seq<char>| #[trigger]
        items.contains_key(name) ==> exists|k: int|
            0 <= k < list.len() && (#[trigger] list[k]).name@ == name
}

/// Where a walk finds a property, a longer walk finds the same one.
proof fn property_walk_is_stable(
    v: CatalogView,
    class: Seq<char>,
    property: Seq<char>,
    steps: nat,
    more: nat,
)
    requires
        steps <= more,
        v.walk_property(class, property, steps) is Some,
    ensures
        v.walk_property(class, property, more) == v.walk_property(class, property, steps),
    decreases steps,
{
    if steps > 0 && described(v.enabled, class, property) is None {
        if v.classes.contains_key(class) {
            if v.own_property(class, property) is None {
                property_walk_is_stable(
                    v,
                    v.classes[class].1->0,
                    property,
                    (steps - 1) as nat,
                    (more - 1) as nat,
                );
            }
        } else if extension_class(class) && v.own_property("TextLabel"@, property) is None
            && v.own_property("ImageLabel"@, property) is None {
            property_walk_is_stable(
                v,
                "GuiObject"@,
                property,
                (steps - 1) as nat,
                (more - 1) as nat,
            );
        }
    }
}

/// The classes on the shortest walk that finds a property, but for the last.
proof fn property_path(v: CatalogView, class: Seq<char>, property: Seq<char>, steps: nat) -> (path:
    Set<Seq<char>>)
    requires
        steps > 0,
        v.walk_property(class, property, steps) is Some,
        v.walk_property(class, property, (steps - 1) as nat) is None,
    ensures
        path.finite(),
        path.len() == steps - 1,
        path.subset_of(v.classes.dom().insert("InputActionLabel"@)),
        forall|x: Seq<char>| #[trigger]
            path.contains(x) ==> v.walk_property(x, property, steps) is Some,
    decreases steps,
{
    if steps == 1 {
        Set::empty()
    } else {
        let next = if v.classes.contains_key(class) {
            v.classes[class].1->0
        } else {
            "GuiObject"@
        };
        let rest = property_path(v, next, property, (steps - 1) as nat);
        assert forall|x: Seq<char>| #[trigger] rest.contains(x) implies v.walk_property(
            x,
            property,
            steps,
        ) is Some by {
            property_walk_is_stable(v, x, property, (steps - 1) as nat, steps);
        }
        assert(!rest.contains(class));
        rest.insert(class)
    }
}

/// What a walk finds from the superclass of a class, one of [`CatalogView::reach`] less one finds
/// too: the class itself is not on the way.
proof fn found_above(v: CatalogView, class: Seq<char>, property: Seq<char>, steps: nat)
    requires
        v.classes.dom().finite(),
        v.classes.contains_key(class),
        v.classes[class].1 is Some,
        described(v.enabled, class, property) is None,
        v.own_property(class, property) is None,
        v.walk_property(v.classes[class].1->0, property, steps) is Some,
    ensures
        v.walk_property(v.classes[class].1->0, property, (v.reach() - 1) as nat)
            == v.walk_property(v.classes[class].1->0, property, steps),
    decreases steps,
{
    let above = v.classes[class].1->0;
    if v.walk_property(above, property, (steps - 1) as nat) is Some {
        property_walk_is_stable(v, above, property, (steps - 1) as nat, steps);
        found_above(v, class, property, (steps - 1) as nat);
    } else {
        let path = property_path(v, above, property, steps);
        let all = v.classes.dom().insert("InputActionLabel"@);
        assert(v.walk_property(class, property, steps) is None);
        assert(path.subset_of(all.remove(class)));
        vstd::set_lib::lemma_len_subset(path, all.remove(class));
        property_walk_is_stable(v, above, property, steps, (v.reach() - 1) as nat);
    }
}

/// A class has what its superclass has, unless it has its own.
pub proof fn a_property_is_inherited(v: CatalogView, class: Seq<char>, property: Seq<char>)
    requires
        v.classes.dom().finite(),
        v.classes.contains_key(class),
        v.classes[class].1 is Some,
        described(v.enabled, class, property) is None,
        v.own_property(class, property) is None,
    ensures
        v.property(class, property) == v.property(v.classes[class].1->0, property),
{
    let above = v.classes[class].1->0;
    let n = v.reach();
    assert(v.walk_property(class, property, n) == v.walk_property(above, property, (n - 1) as nat));
    if v.walk_property(above, property, (n - 1) as nat) is Some {
        property_walk_is_stable(v, above, property, (n - 1) as nat, n);
    } else if v.walk_property(above, property, n) is Some {
        found_above(v, class, property, n);
    }
}

/// A longer walk finds every ancestor that a shorter one finds.
proof fn is_a_walk_is_stable(
    v: CatalogView,
    class: Seq<char>,
    ancestor: Seq<char>,
    steps: nat,
    more: nat,
)
    requires
        steps <= more,
        v.walk_is_a(class, ancestor, steps),
    ensures
        v.walk_is_a(class, ancestor, more),
    decreases steps,
{
    if v.classes[class].0 != ancestor {
        is_a_walk_is_stable(
            v,
            v.classes[class].1->0,
            ancestor,
            (steps - 1) as nat,
            (more - 1) as nat,
        );
    }
}

/// The classes on the shortest walk to an ancestor.
proof fn is_a_path(v: CatalogView, class: Seq<char>, ancestor: Seq<char>, steps: nat) -> (path: Set<
    Seq<char>,
>)
    requires
        steps > 0,
        v.classes.dom().finite(),
        v.walk_is_a(class, ancestor, steps),
        !v.walk_is_a(class, ancestor, (steps - 1) as nat),
    ensures
        path.finite(),
        path.len() == steps,
        path.subset_of(v.classes.dom()),
        forall|x: Seq<char>| #[trigger] path.contains(x) ==> v.walk_is_a(x, ancestor, steps),
    decreases steps,
{
    if steps == 1 {
        set![class]
    } else {
        let rest = is_a_path(v, v.classes[class].1->0, ancestor, (steps - 1) as nat);
        assert forall|x: Seq<char>| #[trigger] rest.contains(x) implies v.walk_is_a(
            x,
            ancestor,
            steps,
        ) by {
            is_a_walk_is_stable(v, x, ancestor, (steps - 1) as nat, steps);
        }
        assert(!rest.contains(class));
        rest.insert(class)
    }
}

/// An ancestor that any walk finds is one.
proof fn is_a_within_reach(v: CatalogView, class: Seq<char>, ancestor: Seq<char>, steps: nat)
    requires
        v.classes.dom().finite(),
        v.walk_is_a(class, ancestor, steps),
    ensures
        v.is_a(class, ancestor),
    decreases steps,
{
    if v.walk_is_a(class, ancestor, (steps - 1) as nat) {
        is_a_within_reach(v, class, ancestor, (steps - 1) as nat);
    } else {
        let path = is_a_path(v, class, ancestor, steps);
        vstd::set_lib::lemma_len_subset(path, v.classes.dom());
        is_a_walk_is_stable(v, class, ancestor, steps, v.reach());
    }
}

/// Two walks, one behind the other.
proof fn walks_join(
    v: CatalogView,
    class: Seq<char>,
    middle: Seq<char>,
    ancestor: Seq<char>,
    first: nat,
    second: nat,
)
    requires
        v.named_by_key(),
        v.walk_is_a(class, middle, first),
        v.walk_is_a(middle, ancestor, second),
    ensures
        v.walk_is_a(class, ancestor, first + second),
    decreases first,
{
    if v.classes[class].0 == middle {
        assert(class == middle);
        is_a_walk_is_stable(v, class, ancestor, second, first + second);
    } else {
        walks_join(v, v.classes[class].1->0, middle, ancestor, (first - 1) as nat, second);
    }
}

/// A class of the database is itself, and what its superclass is.
pub proof fn is_a_climbs(v: CatalogView, class: Seq<char>, ancestor: Seq<char>)
    requires
        v.classes.dom().finite(),
        v.classes.contains_key(class),
    ensures
        v.is_a(class, v.classes[class].0),
        v.classes[class].1 is Some && v.is_a(v.classes[class].1->0, ancestor) ==> v.is_a(
            class,
            ancestor,
        ),
{
    if v.classes[class].1 is Some && v.is_a(v.classes[class].1->0, ancestor) {
        assert(v.walk_is_a(class, ancestor, v.reach() + 1));
        is_a_within_reach(v, class, ancestor, v.reach() + 1);
    }
}

/// To descend is transitive: what an ancestor of a class is, the class is.
pub proof fn is_a_is_transitive(
    v: CatalogView,
    class: Seq<char>,
    middle: Seq<char>,
    ancestor: Seq<char>,
)
    requires
        v.classes.dom().finite(),
        v.named_by_key(),
        v.is_a(class, middle),
        v.is_a(middle, ancestor),
    ensures
        v.is_a(class, ancestor),
{
    walks_join(v, class, middle, ancestor, v.reach(), v.reach());
    is_a_within_reach(v, class, ancestor, v.reach() + v.reach());
}

} // verus!
