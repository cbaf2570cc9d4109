//! Enumerations as a guest reads them: all of them, one of them, and its members.

use crate::fault::Fault;
use crate::reflection::{by_value, members, Catalog, CatalogView, EnumItem, EnumItemView};
use crate::text::{glue, same};
use vstd::prelude::*;

verus! {

/// How a member prints.
pub open spec fn item_words(item: EnumItemView) -> Seq<char> {
    "Enum."@ + item.ty + "."@ + item.name
}

pub fn item_text(item: &EnumItem) -> (r: String)
    ensures
        r@ == item_words(item@),
{
    glue(
        glue(glue("Enum.".to_owned(), item.ty.as_str()), "."),
        item.name.as_str(),
    )
}

/// Are these the same member? Members of two enumerations are not, whatever their values.
pub fn same_item(a: &EnumItem, b: &EnumItem) -> (r: bool)
    ensures
        r == (a@ == b@),
{
    same(a.ty.as_str(), b.ty.as_str()) && same(a.name.as_str(), b.name.as_str()) && a.value
        == b.value
}

/// What is said of an enumeration that there is none of.
pub open spec fn no_enum_message(key: Seq<char>) -> Seq<char> {
    "Enum."@ + key + " does not exist"@
}

/// What is said of an enumeration that was there and is not.
pub open spec fn lost_enum_message(ty: Seq<char>) -> Seq<char> {
    "Enum."@ + ty + " is not in the reflection database"@
}

/// What is said of a member that an enumeration has not.
pub open spec fn not_a_member_message(ty: Seq<char>, key: Seq<char>) -> Seq<char> {
    key + " is not a member of Enum."@ + ty
}

/// The enumeration of a name, by its own name.
pub fn enum_named(catalog: &Catalog, key: &str) -> (r: Result<String, Fault>)
    ensures
        match r {
            Ok(own) => catalog@.category(key@) is Some && own@ == catalog@.enum_own(key@),
            Err(f) => catalog@.category(key@) is None && f@ == no_enum_message(key@),
        },
{
    match catalog.category(key) {
        Some((own, _)) => Ok(own),
        None => Err(
            Fault { message: glue(glue("Enum.".to_owned(), key), " does not exist") },
        ),
    }
}

fn lost(ty: &str) -> (r: Fault)
    ensures
        r@ == lost_enum_message(ty@),
{
    Fault { message: glue(glue("Enum.".to_owned(), ty), " is not in the reflection database") }
}

/// The member of a name of an enumeration. A name that no member has is refused, and does not
/// stand for nothing.
pub open spec fn member_at(catalog: CatalogView, ty: Seq<char>, key: Seq<char>) -> Result<
    EnumItemView,
    Seq<char>,
> {
    if catalog.category(ty) is None {
        Err(lost_enum_message(ty))
    } else if catalog.enum_map(ty).contains_key(key) {
        Ok(
            EnumItemView {
                ty: catalog.enum_own(ty),
                name: key,
                value: catalog.enum_map(ty)[key],
            },
        )
    } else {
        Err(not_a_member_message(ty, key))
    }
}

pub fn enum_member(catalog: &Catalog, ty: &str, key: &str) -> (r: Result<EnumItem, Fault>)
    ensures
        match r {
            Ok(item) => member_at(catalog@, ty@, key@) == Ok::<EnumItemView, Seq<char>>(item@),
            Err(f) => member_at(catalog@, ty@, key@) == Err::<EnumItemView, Seq<char>>(f@),
        },
{
    if catalog.category(ty).is_none() {
        return Err(lost(ty));
    }
    match catalog.item_by_name(ty, key) {
        Some(item) => Ok(item),
        None => Err(
            Fault { message: glue(glue(key.to_owned(), " is not a member of Enum."), ty) },
        ),
    }
}

/// Every member of an enumeration, in the order of their values.
pub fn get_enum_items(catalog: &Catalog, ty: &str) -> (r: Result<Vec<EnumItem>, Fault>)
    ensures
        match r {
            Ok(items) => catalog@.category(ty@) is Some && by_value(items@) && members(
                items@,
                catalog@.enum_own(ty@),
                catalog@.enum_map(ty@),
            ),
            Err(f) => catalog@.category(ty@) is None && f@ == lost_enum_message(ty@),
        },
{
    match catalog.enum_items(ty) {
        Some(items) => Ok(items),
        None => Err(lost(ty)),
    }
}

/// What a name read off an enumeration gives.
#[derive(Debug)]
pub enum Indexed {
    /// The function that lists the members.
    Items,
    Item(EnumItem),
}

/// Read a name off an enumeration.
pub fn enum_index(catalog: &Catalog, ty: &str, key: &str) -> (r: Result<Indexed, Fault>)
    ensures
        key@ == "GetEnumItems"@ ==> r matches Ok(Indexed::Items),
        key@ != "GetEnumItems"@ ==> match r {
            Ok(Indexed::Items) => false,
            Ok(Indexed::Item(item)) => member_at(catalog@, ty@, key@) == Ok::<
                EnumItemView,
                Seq<char>,
            >(item@),
            Err(f) => member_at(catalog@, ty@, key@) == Err::<EnumItemView, Seq<char>>(f@),
        },
{
    if same(key, "GetEnumItems") {
        return Ok(Indexed::Items);
    }
    match enum_member(catalog, ty, key) {
        Ok(item) => Ok(Indexed::Item(item)),
        Err(f) => Err(f),
    }
}

// ---- laws ----

/// A member that is read off an enumeration is accepted where that enumeration is wanted, and
/// stands for its number.
pub proof fn a_member_fits_its_enumeration(
    catalog: CatalogView,
    ty: Seq<char>,
    key: Seq<char>,
    class: Seq<char>,
    property: Seq<char>,
)
    requires
        member_at(catalog, ty, key) is Ok,
        catalog.enum_own(ty) == ty,
    ensures
        ({
            let item = member_at(catalog, ty, key)->Ok_0;
            crate::guest::coerced_enum(
                catalog,
                crate::guest::GuestView::Item(item),
                ty,
                class,
                property,
            ) == Ok::<u32, Seq<char>>(catalog.enum_map(ty)[key])
        }),
{
}

} // verus!
