//! What this host adds to the reflection database: properties, enumerations and classes of its
//! own, each either permanent or behind a flag.

use crate::flags::{
    effective, flag_view, flag_views, is_enabled, names_flag, switches_in, Enabled, Flag,
};
use crate::text::{
    a_decimal_is_worth_its_number, decimal, decimal_text, find_char, glue2, glue3, rfind_char, same,
    worth,
};
use crate::value::{
    DataType, DataTypeView, Descriptor, DescriptorView, TypeView, Value, ValueView, VariantType,
};
use vstd::prelude::*;
use vstd::string::*;

verus! {

broadcast use vstd::string::group_string_axioms;

/// How long an entry lives before, or instead of, appearing in upstream reflection data.
#[derive(Clone, Copy, Debug)]
pub enum Tier {
    /// Permanent: no flag, always on.
    DewOnly,
    /// Invisible unless its flag is on. The revision goes up when the shape changes.
    Experimental { flag: &'static str, revision: u32 },
}

pub enum TierView {
    DewOnly,
    Experimental { flag: Seq<char>, revision: u32 },
}

impl View for Tier {
    type V = TierView;

    open spec fn view(&self) -> TierView {
        match self {
            Tier::DewOnly => TierView::DewOnly,
            Tier::Experimental { flag, revision } => TierView::Experimental {
                flag: flag@,
                revision: *revision,
            },
        }
    }
}

/// A property that the reflection database does not carry.
#[derive(Debug)]
pub struct ExtensionProperty {
    pub class: &'static str,
    pub name: &'static str,
    pub data_type: DataType,
    pub default: Value,
    pub writable: bool,
    pub tier: Tier,
    /// Never a real feature, and kept out of generated type definitions.
    pub test_only: bool,
}

pub struct PropertyRow {
    pub class: Seq<char>,
    pub name: Seq<char>,
    pub data_type: DataTypeView,
    pub default: ValueView,
    pub writable: bool,
    pub tier: TierView,
    pub test_only: bool,
}

impl View for ExtensionProperty {
    type V = PropertyRow;

    open spec fn view(&self) -> PropertyRow {
        PropertyRow {
            class: self.class@,
            name: self.name@,
            data_type: self.data_type@,
            default: self.default@,
            writable: self.writable,
            tier: self.tier@,
            test_only: self.test_only,
        }
    }
}

/// An enumeration that the reflection database does not carry.
#[derive(Debug)]
pub struct ExtensionEnum {
    pub name: &'static str,
    pub items: Vec<(&'static str, u32)>,
    pub tier: Tier,
}

/// A class that the reflection database has no entry for.
#[derive(Debug)]
pub struct ExtensionClass {
    pub name: &'static str,
    pub tier: Tier,
}

/// The extension properties.
pub open spec fn property_rows() -> Seq<PropertyRow> {
    seq![
        PropertyRow {
            class: "InputActionLabel"@,
            name: "InputAction"@,
            data_type: DataTypeView::Value(TypeView::Text),
            default: ValueView::Text(Seq::empty()),
            writable: true,
            tier: TierView::DewOnly,
            test_only: false,
        },
        PropertyRow {
            class: "GuiObject"@,
            name: "BlendingMode"@,
            data_type: DataTypeView::Enum("BlendMode"@),
            default: ValueView::Enum(0),
            writable: true,
            tier: TierView::Experimental {
                flag: "FFlagDewGuiObjectBlendingMode"@,
                revision: 1,
            },
            test_only: false,
        },
        PropertyRow {
            class: "DewSprintTestOnly"@,
            name: "RevisionProbe"@,
            data_type: DataTypeView::Value(TypeView::Text),
            default: ValueView::Text(Seq::empty()),
            writable: true,
            tier: TierView::Experimental {
                flag: "FFlagDewSprintTestOnlyRevisionProbe"@,
                revision: 2,
            },
            test_only: true,
        },
    ]
}

pub open spec fn property_views(s: Seq<ExtensionProperty>) -> Seq<PropertyRow> {
    s.map_values(|p: ExtensionProperty| p@)
}

/// The extension properties.
pub fn properties() -> (r: Vec<ExtensionProperty>)
    ensures
        property_views(r@) == property_rows(),
{
    let mut r: Vec<ExtensionProperty> = Vec::new();
    r.push(
        ExtensionProperty {
            class: "InputActionLabel",
            name: "InputAction",
            data_type: DataType::Value(VariantType::Text),
            default: Value::Text(String::new()),
            writable: true,
            tier: Tier::DewOnly,
            test_only: false,
        },
    );
    r.push(
        ExtensionProperty {
            class: "GuiObject",
            name: "BlendingMode",
            data_type: DataType::Enum("BlendMode".to_owned()),
            default: Value::Enum(0),
            writable: true,
            tier: Tier::Experimental { flag: "FFlagDewGuiObjectBlendingMode", revision: 1 },
            test_only: false,
        },
    );
    r.push(
        ExtensionProperty {
            class: "DewSprintTestOnly",
            name: "RevisionProbe",
            data_type: DataType::Value(VariantType::Text),
            default: Value::Text(String::new()),
            writable: true,
            tier: Tier::Experimental { flag: "FFlagDewSprintTestOnlyRevisionProbe", revision: 2 },
            test_only: true,
        },
    );
    assert(property_views(r@) =~= property_rows());
    r
}

/// The items of the one extension enumeration, `BlendMode`.
pub open spec fn blend_modes() -> Map<Seq<char>, u32> {
    map!["Alpha"@ => 0u32, "Additive"@ => 1u32, "Multiply"@ => 2u32]
}

pub open spec fn item_views(s: Seq<(&'static str, u32)>) -> Seq<(Seq<char>, u32)> {
    s.map_values(|r: (&'static str, u32)| (r.0@, r.1))
}

/// The extension enumerations.
pub fn enums() -> (r: Vec<ExtensionEnum>)
    ensures
        r@.len() == 1,
        r@[0].name@ == "BlendMode"@,
        item_views(r@[0].items@) == seq![("Alpha"@, 0u32), ("Additive"@, 1u32), ("Multiply"@, 2u32)],
        r@[0].tier@ == (TierView::Experimental {
            flag: "FFlagDewGuiObjectBlendingMode"@,
            revision: 1,
        }),
{
    let mut items: Vec<(&'static str, u32)> = Vec::new();
    items.push(("Alpha", 0));
    items.push(("Additive", 1));
    items.push(("Multiply", 2));
    assert(item_views(items@) =~= seq![("Alpha"@, 0u32), ("Additive"@, 1u32), ("Multiply"@, 2u32)]);
    let mut r: Vec<ExtensionEnum> = Vec::new();
    r.push(
        ExtensionEnum {
            name: "BlendMode",
            items,
            tier: Tier::Experimental { flag: "FFlagDewGuiObjectBlendingMode", revision: 1 },
        },
    );
    r
}

/// The extension classes.
pub fn classes() -> (r: Vec<ExtensionClass>)
    ensures
        r@.len() == 1,
        r@[0].name@ == "InputActionLabel"@,
        r@[0].tier@ == TierView::DewOnly,
{
    let mut r: Vec<ExtensionClass> = Vec::new();
    r.push(ExtensionClass { name: "InputActionLabel", tier: Tier::DewOnly });
    r
}

/// Is an entry of this tier visible, with these flags on?
pub open spec fn is_visible(enabled: Set<Seq<char>>, tier: TierView) -> bool {
    match tier {
        TierView::DewOnly => true,
        TierView::Experimental { flag, .. } => enabled.contains(flag),
    }
}

/// Is an entry of this tier visible: always for a permanent one, only with its flag on for an
/// experimental one?
pub fn visible(enabled: &Enabled, tier: &Tier) -> (r: bool)
    ensures
        r == is_visible(enabled@, tier@),
{
    match tier {
        Tier::DewOnly => true,
        Tier::Experimental { flag, .. } => is_enabled(enabled, flag),
    }
}

/// The extension property of this class and name, if there is one and it is visible.
pub open spec fn visible_property(
    enabled: Set<Seq<char>>,
    class: Seq<char>,
    property: Seq<char>,
) -> Option<PropertyRow> {
    visible_property_in(property_rows(), enabled, class, property)
}

/// The first visible row for this class and name.
pub open spec fn visible_property_in(
    rows: Seq<PropertyRow>,
    enabled: Set<Seq<char>>,
    class: Seq<char>,
    property: Seq<char>,
) -> Option<PropertyRow>
    decreases rows.len(),
{
    if rows.len() == 0 {
        None
    } else if rows[0].class == class && rows[0].name == property && is_visible(
        enabled,
        rows[0].tier,
    ) {
        Some(rows[0])
    } else {
        visible_property_in(rows.skip(1), enabled, class, property)
    }
}

fn find_property(
    rows: &Vec<ExtensionProperty>,
    enabled: &Enabled,
    class: &str,
    property: &str,
) -> (r: Option<usize>)
    ensures
        match r {
            Some(i) => i < rows.len() && visible_property_in(
                property_views(rows@),
                enabled@,
                class@,
                property@,
            ) == Some(rows@[i as int]@),
            None => visible_property_in(property_views(rows@), enabled@, class@, property@) is None,
        },
{
    let mut i: usize = 0;
    let ghost all = property_views(rows@);
    assert(all.skip(0) =~= all);
    while i < rows.len()
        invariant
            i <= rows.len(),
            all == property_views(rows@),
            visible_property_in(all, enabled@, class@, property@) == visible_property_in(
                all.skip(i as int),
                enabled@,
                class@,
                property@,
            ),
        decreases rows.len() - i,
    {
        assert(all.skip(i as int)[0] == rows@[i as int]@);
        assert(all.skip(i as int).skip(1) =~= all.skip(i + 1));
        if same(rows[i].class, class) && same(rows[i].name, property) && visible(
            enabled,
            &rows[i].tier,
        ) {
            return Some(i);
        }
        i += 1;
    }
    None
}

/// The descriptor of an extension property, if there is one and it is visible.
pub open spec fn described(
    enabled: Set<Seq<char>>,
    class: Seq<char>,
    property: Seq<char>,
) -> Option<DescriptorView> {
    match visible_property(enabled, class, property) {
        Some(row) => Some(DescriptorView { data_type: row.data_type, writable: row.writable }),
        None => None,
    }
}

/// The descriptor of an extension property, if there is one and it is visible.
pub fn describe(enabled: &Enabled, class: &str, property: &str) -> (r: Option<Descriptor>)
    ensures
        match r {
            Some(d) => described(enabled@, class@, property@) == Some(d@),
            None => described(enabled@, class@, property@) is None,
        },
{
    let rows = properties();
    match find_property(&rows, enabled, class, property) {
        Some(i) => Some(
            Descriptor {
                data_type: match &rows[i].data_type {
                    DataType::Value(t) => DataType::Value(t.dup()),
                    DataType::Enum(e) => DataType::Enum(e.clone()),
                },
                writable: rows[i].writable,
            },
        ),
        None => None,
    }
}

/// The default of an extension property, if there is one and it is visible.
pub open spec fn defaulted(
    enabled: Set<Seq<char>>,
    class: Seq<char>,
    property: Seq<char>,
) -> Option<ValueView> {
    match visible_property(enabled, class, property) {
        Some(row) => Some(row.default),
        None => None,
    }
}

/// The default of an extension property, if there is one and it is visible.
pub fn default_for(enabled: &Enabled, class: &str, property: &str) -> (r: Option<Value>)
    ensures
        match r {
            Some(v) => defaulted(enabled@, class@, property@) == Some(v@),
            None => defaulted(enabled@, class@, property@) is None,
        },
{
    let rows = properties();
    match find_property(&rows, enabled, class, property) {
        Some(i) => Some(rows[i].default.dup()),
        None => None,
    }
}

/// Is this class one that this host adds?
pub open spec fn extension_class(class: Seq<char>) -> bool {
    class == "InputActionLabel"@
}

/// Is this class one that this host adds, and is it visible? The only one is permanent.
pub fn class_exists(enabled: &Enabled, class: &str) -> (r: bool)
    ensures
        r == extension_class(class@),
{
    let rows = classes();
    same(rows[0].name, class) && visible(enabled, &rows[0].tier)
}

/// Is this name that of an extension enumeration, and is it visible?
pub open spec fn enum_visible(enabled: Set<Seq<char>>, name: Seq<char>) -> bool {
    name == "BlendMode"@ && enabled.contains("FFlagDewGuiObjectBlendingMode"@)
}

/// The items of an extension enumeration, if there is one of this name and it is visible.
pub fn describe_enum(enabled: &Enabled, name: &str) -> (r: Option<Vec<(&'static str, u32)>>)
    ensures
        match r {
            Some(items) => enum_visible(enabled@, name@) && item_views(items@) == seq![
                ("Alpha"@, 0u32),
                ("Additive"@, 1u32),
                ("Multiply"@, 2u32),
            ],
            None => !enum_visible(enabled@, name@),
        },
{
    let mut rows = enums();
    if same(rows[0].name, name) && visible(enabled, &rows[0].tier) {
        let row = rows.remove(0);
        Some(row.items)
    } else {
        None
    }
}

/// The flag of the experimental property that a `"Class.Property"` key names: split at the first
/// dot, and the first row for that class and name, unless it is permanent.
pub open spec fn flag_of(key: Seq<char>) -> Option<(Seq<char>, u32)> {
    if !key.contains('.') {
        None
    } else {
        let dot = key.index_of_first('.')->0;
        flag_in(property_rows(), key.take(dot), key.skip(dot + 1))
    }
}

pub open spec fn flag_in(rows: Seq<PropertyRow>, class: Seq<char>, property: Seq<char>) -> Option<
    (Seq<char>, u32),
>
    decreases rows.len(),
{
    if rows.len() == 0 {
        None
    } else if rows[0].class == class && rows[0].name == property && rows[0].tier is Experimental {
        Some((rows[0].tier->flag, rows[0].tier->revision))
    } else {
        flag_in(rows.skip(1), class, property)
    }
}

/// The flag of the experimental property that a `"Class.Property"` key names, or `None` where
/// there is no such experimental property.
pub fn flag_for(key: &str) -> (r: Option<Flag>)
    ensures
        match r {
            Some(f) => flag_of(key@) == Some(flag_view(f)),
            None => flag_of(key@) is None,
        },
{
    let dot: usize = match find_char(key, '.') {
        Some(i) => i,
        None => return None,
    };
    proof {
        key@.index_of_first_ensures('.');
    }
    assert(key@.index_of_first('.')->0 == dot);
    let n: usize = key.unicode_len();
    let class = key.substring_char(0, dot);
    let property = key.substring_char(dot + 1, n);
    assert(class@ =~= key@.take(dot as int));
    assert(property@ =~= key@.skip(dot + 1));
    let rows = properties();
    let ghost all = property_views(rows@);
    let mut i: usize = 0;
    assert(all.skip(0) =~= all);
    while i < rows.len()
        invariant
            i <= rows.len(),
            all == property_views(rows@),
            all == property_rows(),
            flag_in(all, class@, property@) == flag_in(all.skip(i as int), class@, property@),
            flag_of(key@) == flag_in(all, class@, property@),
        decreases rows.len() - i,
    {
        assert(all.skip(i as int)[0] == rows@[i as int]@);
        assert(all.skip(i as int).skip(1) =~= all.skip(i + 1));
        if same(rows[i].class, class) && same(rows[i].name, property) {
            if let Tier::Experimental { flag, revision } = rows[i].tier {
                return Some((flag, revision));
            }
        }
        i += 1;
    }
    None
}

/// The number that decimal digits stand for, or `None` where a character is no digit.
pub open spec fn digits_value(s: Seq<char>) -> Option<nat>
    decreases s.len(),
{
    if s.len() == 0 {
        Some(0)
    } else {
        let c = s.last();
        match digits_value(s.drop_last()) {
            Some(n) => if '0' <= c && c <= '9' {
                Some(n * 10 + (c as nat - '0' as nat) as nat)
            } else {
                None
            },
            None => None,
        }
    }
}

/// The number that a text stands for as a `u32`: one or more digits and nothing else, within
/// range.
pub open spec fn number_in(s: Seq<char>) -> Option<u32> {
    match digits_value(s) {
        Some(n) => if s.len() > 0 && n <= u32::MAX {
            Some(n as u32)
        } else {
            None
        },
        None => None,
    }
}

proof fn digits_value_grows(s: Seq<char>, i: int)
    requires
        0 <= i <= s.len(),
        digits_value(s) is Some,
    ensures
        digits_value(s.take(i)) is Some,
        digits_value(s.take(i))->0 <= digits_value(s)->0,
    decreases s.len() - i,
{
    if i == s.len() {
        assert(s.take(i) =~= s);
    } else {
        digits_value_grows(s, i + 1);
        assert(s.take(i + 1).drop_last() =~= s.take(i));
    }
}

fn parse_number(s: &str) -> (r: Option<u32>)
    ensures
        r == number_in(s@),
{
    let n: usize = s.unicode_len();
    if n == 0 {
        return None;
    }
    let mut total: u64 = 0;
    let mut i: usize = 0;
    assert(s@.take(0) =~= Seq::empty());
    while i < n
        invariant
            i <= n,
            n == s@.len(),
            n > 0,
            digits_value(s@.take(i as int)) == Some(total as nat),
            total <= u32::MAX,
        decreases n - i,
    {
        let c = s.get_char(i);
        let ghost next = s@.take(i + 1);
        assert(next.drop_last() =~= s@.take(i as int));
        assert(next.last() == c);
        if !('0' <= c && c <= '9') {
            proof {
                if digits_value(s@) is Some {
                    digits_value_grows(s@, i + 1);
                }
            }
            return None;
        }
        total = total * 10 + (c as u64 - '0' as u64);
        if total > 4294967295 {
            proof {
                if digits_value(s@) is Some {
                    digits_value_grows(s@, i + 1);
                }
            }
            return None;
        }
        i += 1;
    }
    assert(s@.take(n as int) =~= s@);
    Some(total as u32)
}

/// Why a declared experimental property could not be resolved.
#[derive(Debug, PartialEq, Eq)]
pub enum DeclarationError {
    /// No `@revision` suffix.
    MissingRevision,
    /// The text after `@` is not a plain non-negative integer.
    InvalidRevision(String),
    /// The part before `@` names no experimental property.
    UnknownProperty,
    /// The property is at another revision than the one declared.
    RevisionMismatch { declared: u32, current: u32 },
}

pub enum DeclarationErrorView {
    MissingRevision,
    InvalidRevision(Seq<char>),
    UnknownProperty,
    RevisionMismatch { declared: u32, current: u32 },
}

impl View for DeclarationError {
    type V = DeclarationErrorView;

    open spec fn view(&self) -> DeclarationErrorView {
        match self {
            DeclarationError::MissingRevision => DeclarationErrorView::MissingRevision,
            DeclarationError::InvalidRevision(t) => DeclarationErrorView::InvalidRevision(t@),
            DeclarationError::UnknownProperty => DeclarationErrorView::UnknownProperty,
            DeclarationError::RevisionMismatch { declared, current } =>
                DeclarationErrorView::RevisionMismatch { declared: *declared, current: *current },
        }
    }
}

/// How `{:?}` shows a string: in quotes, with escapes.
pub uninterp spec fn quoted_form(text: Seq<char>) -> Seq<char>;

/// std's `Debug` of a string, named [`quoted_form`].
#[verifier::external_body]
pub(crate) fn quoted(text: &str) -> (r: String)
    ensures
        r@ == quoted_form(text@),
{
    format!("{text:?}")
}

impl DeclarationError {
    /// The reason in words, without the declaration itself.
    pub fn message(&self) -> (r: String)
        ensures
            r@ == match self@ {
                DeclarationErrorView::MissingRevision =>
                    "has no @revision -- write it as \"Class.Property@N\", pinning the revision this mod was written against"@,
                DeclarationErrorView::InvalidRevision(text) =>
                    "has a revision that is not a plain integer: "@ + quoted_form(text),
                DeclarationErrorView::UnknownProperty => "is not a known experimental property"@,
                DeclarationErrorView::RevisionMismatch { declared, current } =>
                    "was written against revision "@ + decimal(declared as nat)
                        + ", but the registry is now at revision "@ + decimal(current as nat)
                        + " -- the property's shape changed; update the mod for the new behavior and declare @"@
                        + decimal(current as nat),
            },
    {
        match self {
            DeclarationError::MissingRevision =>
                "has no @revision -- write it as \"Class.Property@N\", pinning the revision this mod was written against".to_owned(),
            DeclarationError::InvalidRevision(text) => {
                let q = quoted(text.as_str());
                glue2("has a revision that is not a plain integer: ", q.as_str())
            },
            DeclarationError::UnknownProperty => "is not a known experimental property".to_owned(),
            DeclarationError::RevisionMismatch { declared, current } => {
                let was = decimal_text(*declared as u64);
                let is = decimal_text(*current as u64);
                glue3(
                    "was written against revision ",
                    was.as_str(),
                    ", but the registry is now at revision ",
                ).concat(is.as_str()).concat(
                    " -- the property's shape changed; update the mod for the new behavior and declare @",
                ).concat(is.as_str())
            },
        }
    }
}

/// What a declaration `"Class.Property@N"` resolves to: split at the last `@`; the revision has
/// to be a number, the key has to name an experimental property, and the two revisions have to
/// agree, refused in that order.
pub open spec fn declaration_outcome(declaration: Seq<char>) -> Result<
    (Seq<char>, u32),
    DeclarationErrorView,
> {
    if !declaration.contains('@') {
        Err(DeclarationErrorView::MissingRevision)
    } else {
        let at = declaration.index_of_last('@')->0;
        let key = declaration.take(at);
        let text = declaration.skip(at + 1);
        match number_in(text) {
            None => Err(DeclarationErrorView::InvalidRevision(text)),
            Some(declared) => match flag_of(key) {
                None => Err(DeclarationErrorView::UnknownProperty),
                Some((flag, current)) => if declared != current {
                    Err(DeclarationErrorView::RevisionMismatch { declared, current })
                } else {
                    Ok((flag, current))
                },
            },
        }
    }
}

/// The flag that a declaration `"Class.Property@N"` unlocks, or why it unlocks none.
pub fn resolve_declaration(declaration: &str) -> (r: Result<Flag, DeclarationError>)
    ensures
        match r {
            Ok(f) => declaration_outcome(declaration@) == Ok::<_, DeclarationErrorView>(
                flag_view(f),
            ),
            Err(e) => declaration_outcome(declaration@) == Err::<(Seq<char>, u32), _>(e@),
        },
{
    let at: usize = match rfind_char(declaration, '@') {
        Some(i) => i,
        None => return Err(DeclarationError::MissingRevision),
    };
    proof {
        declaration@.index_of_last_ensures('@');
    }
    assert(declaration@.index_of_last('@')->0 == at);
    let n: usize = declaration.unicode_len();
    let key = declaration.substring_char(0, at);
    let text = declaration.substring_char(at + 1, n);
    assert(key@ =~= declaration@.take(at as int));
    assert(text@ =~= declaration@.skip(at + 1));
    let declared: u32 = match parse_number(text) {
        Some(n) => n,
        None => return Err(DeclarationError::InvalidRevision(text.to_owned())),
    };
    match flag_for(key) {
        None => Err(DeclarationError::UnknownProperty),
        Some((flag, current)) => if declared != current {
            Err(DeclarationError::RevisionMismatch { declared, current })
        } else {
            Ok((flag, current))
        },
    }
}

/// The flags that this registry defines, each once: of the properties, then of the enumerations.
pub open spec fn registry_flags() -> Seq<(Seq<char>, u32)> {
    seq![
        ("FFlagDewGuiObjectBlendingMode"@, 1u32),
        ("FFlagDewSprintTestOnlyRevisionProbe"@, 2u32),
    ]
}

fn note(out: &mut Vec<Flag>, flag: &'static str, revision: u32)
    ensures
        flag_views(final(out)@) == if names_flag(flag_views(old(out)@), flag@) {
            flag_views(old(out)@)
        } else {
            flag_views(old(out)@).push((flag@, revision))
        },
{
    let mut i: usize = 0;
    while i < out.len()
        invariant
            i <= out.len(),
            out@ == old(out)@,
            forall|j: int| 0 <= j < i ==> (#[trigger] flag_views(out@)[j]).0 != flag@,
        decreases out.len() - i,
    {
        if same(out[i].0, flag) {
            assert(flag_views(out@)[i as int].0 == flag@);
            return;
        }
        i += 1;
    }
    let ghost was = flag_views(out@);
    out.push((flag, revision));
    assert(flag_views(out@) =~= was.push((flag@, revision)));
}

/// The flags that this registry defines, each once.
pub fn known_flags() -> (r: Vec<Flag>)
    ensures
        flag_views(r@) == registry_flags(),
{
    let mut out: Vec<Flag> = Vec::new();
    let rows = properties();
    let items = enums();
    assert(rows@.len() == 3) by {
        assert(property_views(rows@).len() == 3);
    }
    proof {
        reveal_strlit("FFlagDewGuiObjectBlendingMode");
        reveal_strlit("FFlagDewSprintTestOnlyRevisionProbe");
        assert("FFlagDewGuiObjectBlendingMode"@.len()
            != "FFlagDewSprintTestOnlyRevisionProbe"@.len());
        assert(property_views(rows@)[0] == rows@[0]@);
        assert(property_views(rows@)[1] == rows@[1]@);
        assert(property_views(rows@)[2] == rows@[2]@);
        assert(flag_views(out@) =~= Seq::empty());
    }
    let ghost mut so_far: Seq<Seq<(Seq<char>, u32)>> = seq![
        Seq::empty(),
        Seq::empty(),
        seq![("FFlagDewGuiObjectBlendingMode"@, 1u32)],
        registry_flags(),
    ];
    let mut i: usize = 0;
    while i < rows.len()
        invariant
            i <= rows.len() == 3,
            property_views(rows@) == property_rows(),
            rows@[0]@ == property_rows()[0],
            rows@[1]@ == property_rows()[1],
            rows@[2]@ == property_rows()[2],
            so_far == seq![
                Seq::empty(),
                Seq::empty(),
                seq![("FFlagDewGuiObjectBlendingMode"@, 1u32)],
                registry_flags(),
            ],
            "FFlagDewGuiObjectBlendingMode"@ != "FFlagDewSprintTestOnlyRevisionProbe"@,
            flag_views(out@) == so_far[i as int],
        decreases rows.len() - i,
    {
        if let Tier::Experimental { flag, revision } = rows[i].tier {
            note(&mut out, flag, revision);
        }
        i += 1;
        assert(flag_views(out@) =~= so_far[i as int]);
    }
    if let Tier::Experimental { flag, revision } = items[0].tier {
        assert(registry_flags()[0].0 == flag@);
        note(&mut out, flag, revision);
    }
    out
}

/// The flags of a run: those it declares, and those of this registry that the settings turn on.
pub fn effective_flags(declared: &[Flag], settings: Option<&str>) -> (r: Vec<Flag>)
    ensures
        flag_views(r@) == effective(
            flag_views(declared@),
            registry_flags(),
            match settings {
                Some(text) => match switches_in(text@) {
                    Some(m) => m,
                    None => Map::empty(),
                },
                None => Map::empty(),
            },
        ),
{
    let known = known_flags();
    crate::flags::effective_flags(declared, known.as_slice(), settings)
}

/// A resolved declaration names a flag of the registry at its current revision.
pub proof fn resolved_flags_are_current(declaration: Seq<char>)
    ensures
        declaration_outcome(declaration) matches Ok(flag) ==> registry_flags().contains(flag),
{
    if declaration_outcome(declaration) is Ok {
        let rows = property_rows();
        let flag = declaration_outcome(declaration)->Ok_0;
        assert(rows.skip(1)[0] == rows[1]);
        assert(rows.skip(1).skip(1)[0] == rows[2]);
        assert(rows.skip(1).skip(1).skip(1).len() == 0);
        reveal_with_fuel(flag_in, 4);
        assert(registry_flags()[0] == ("FFlagDewGuiObjectBlendingMode"@, 1u32));
        assert(registry_flags()[1] == ("FFlagDewSprintTestOnlyRevisionProbe"@, 2u32));
    }
}

/// A permanent entry is visible whatever the flags; an experimental one exactly with its flag.
pub proof fn only_experimental_entries_need_a_flag(enabled: Set<Seq<char>>)
    ensures
        is_visible(enabled, TierView::DewOnly),
        forall|flag: Seq<char>, revision: u32|
            #[trigger] is_visible(enabled, TierView::Experimental { flag, revision })
                == enabled.contains(flag),
{
}

/// A row of digits is read as what it is worth, and nothing else is read as a number.
pub proof fn digits_are_read_as_they_are_worth(s: Seq<char>)
    ensures
        digits_value(s) is Some <==> forall|i: int| 0 <= i < s.len() ==> '0' <= #[trigger] s[i] <= '9',
        digits_value(s) matches Some(n) ==> n == worth(s),
    decreases s.len(),
{
    if s.len() > 0 {
        digits_are_read_as_they_are_worth(s.drop_last());
        if digits_value(s) is Some {
            assert forall|i: int| 0 <= i < s.len() implies '0' <= #[trigger] s[i] <= '9' by {
                if i < s.len() - 1 {
                    assert(s.drop_last()[i] == s[i]);
                }
            }
        }
        if forall|i: int| 0 <= i < s.len() ==> '0' <= #[trigger] s[i] <= '9' {
            assert forall|i: int| 0 <= i < s.drop_last().len() implies '0' <= #[trigger]
                s.drop_last()[i] <= '9' by {
                assert(s.drop_last()[i] == s[i]);
            }
            assert('0' <= s[s.len() - 1] <= '9');
        }
    }
}

/// A number that is written out is read back, as far as it is in range.
pub proof fn a_written_number_is_read_back(n: nat)
    ensures
        n <= u32::MAX ==> number_in(decimal(n)) == Some(n as u32),
        n > u32::MAX ==> number_in(decimal(n)) is None,
{
    a_decimal_is_worth_its_number(n);
    digits_are_read_as_they_are_worth(decimal(n));
}

} // verus!
