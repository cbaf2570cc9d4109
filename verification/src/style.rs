//! Selectors of style rules: reading one, and holding instances against it.

use crate::dom::Dom;
use crate::reflection::{Catalog, CatalogView};
use crate::text::{glue, same};
use crate::tree::DomView;
use vstd::prelude::*;
use vstd::string::*;

verus! {

broadcast use vstd::string::group_string_axioms;

/// Which instances a style rule is for.
#[derive(Debug)]
pub enum Selector {
    /// A bare word: those of a class, and of what descends from it.
    ClassName(String),
    /// `.tag`: those that hold a tag.
    Tag(String),
    /// `#name`: those of a name.
    Name(String),
}

pub enum SelectorView {
    ClassName(Seq<char>),
    Tag(Seq<char>),
    Name(Seq<char>),
}

impl View for Selector {
    type V = SelectorView;

    open spec fn view(&self) -> SelectorView {
        match self {
            Selector::ClassName(c) => SelectorView::ClassName(c@),
            Selector::Tag(t) => SelectorView::Tag(t@),
            Selector::Name(n) => SelectorView::Name(n@),
        }
    }
}

/// Is this character white space, as Unicode counts it?
pub open spec fn white_space(c: char) -> bool {
    let n = c as int;
    ||| 0x9 <= n <= 0xd
    ||| n == 0x20
    ||| n == 0x85
    ||| n == 0xa0
    ||| n == 0x1680
    ||| 0x2000 <= n <= 0x200a
    ||| n == 0x2028
    ||| n == 0x2029
    ||| n == 0x202f
    ||| n == 0x205f
    ||| n == 0x3000
}

fn is_white_space(c: char) -> (r: bool)
    ensures
        r == white_space(c),
{
    let n: u32 = c as u32;
    (0x9 <= n && n <= 0xd) || n == 0x20 || n == 0x85 || n == 0xa0 || n == 0x1680 || (0x2000 <= n
        && n <= 0x200a) || n == 0x2028 || n == 0x2029 || n == 0x202f || n == 0x205f || n == 0x3000
}

/// Does this character join the parts of a compound selector?
pub open spec fn joins(c: char) -> bool {
    white_space(c) || c == '.' || c == '#'
}

/// Is one of the characters a joint?
pub open spec fn compound(s: Seq<char>) -> bool {
    exists|i: int| 0 <= i < s.len() && joins(#[trigger] s[i])
}

fn is_compound(s: &str) -> (r: bool)
    ensures
        r == compound(s@),
{
    let n: usize = s.unicode_len();
    let mut i: usize = 0;
    while i < n
        invariant
            n == s@.len(),
            i <= n,
            forall|j: int| 0 <= j < i ==> !joins(#[trigger] s@[j]),
        decreases n - i,
    {
        let c = s.get_char(i);
        if is_white_space(c) || c == '.' || c == '#' {
            assert(joins(s@[i as int]));
            return true;
        }
        i += 1;
    }
    false
}

pub open spec fn compound_message(s: Seq<char>) -> Seq<char> {
    "`"@ + s + "` looks like a compound or combinator selector, which this host does not parse yet"@
}

fn too_much(selector: &str) -> (r: String)
    ensures
        r@ == compound_message(selector@),
{
    glue(
        glue("`".to_owned(), selector),
        "` looks like a compound or combinator selector, which this host does not parse yet",
    )
}

/// What a selector says, or why it says nothing. No part of a compound one is taken for the whole:
/// a tag or a name that is asked for holds no joint.
pub open spec fn selected(catalog: CatalogView, s: Seq<char>) -> Result<SelectorView, Seq<char>> {
    if s.len() == 0 {
        Err("a selector cannot be empty"@)
    } else if s[0] == '.' {
        if s.len() == 1 {
            Err("a `.` selector needs a tag name after the dot"@)
        } else if compound(s.skip(1)) {
            Err(compound_message(s))
        } else {
            Ok(SelectorView::Tag(s.skip(1)))
        }
    } else if s[0] == '#' {
        if s.len() == 1 {
            Err("a `#` selector needs a name after the hash"@)
        } else if compound(s.skip(1)) {
            Err(compound_message(s))
        } else {
            Ok(SelectorView::Name(s.skip(1)))
        }
    } else if compound(s) {
        Err(compound_message(s))
    } else if !catalog.has_class(s) {
        Err("`"@ + s + "` is not a class name this host knows"@)
    } else {
        Ok(SelectorView::ClassName(s))
    }
}

/// Read a selector, or say why it cannot be read. Only the three plain forms are; a compound one
/// is refused rather than misread.
pub fn parse(catalog: &Catalog, selector: &str) -> (r: Result<Selector, String>)
    ensures
        match r {
            Ok(s) => selected(catalog@, selector@) == Ok::<SelectorView, Seq<char>>(s@),
            Err(m) => selected(catalog@, selector@) == Err::<SelectorView, Seq<char>>(m@),
        },
{
    let n: usize = selector.unicode_len();
    if n == 0 {
        return Err("a selector cannot be empty".to_owned());
    }
    let first = selector.get_char(0);
    if first == '.' {
        if n == 1 {
            return Err("a `.` selector needs a tag name after the dot".to_owned());
        }
        let tag = selector.substring_char(1, n);
        assert(tag@ =~= selector@.skip(1));
        if is_compound(tag) {
            return Err(too_much(selector));
        }
        return Ok(Selector::Tag(tag.to_owned()));
    }
    if first == '#' {
        if n == 1 {
            return Err("a `#` selector needs a name after the hash".to_owned());
        }
        let name = selector.substring_char(1, n);
        assert(name@ =~= selector@.skip(1));
        if is_compound(name) {
            return Err(too_much(selector));
        }
        return Ok(Selector::Name(name.to_owned()));
    }
    if is_compound(selector) {
        return Err(too_much(selector));
    }
    if !catalog.class_exists(selector) {
        return Err(glue(glue("`".to_owned(), selector), "` is not a class name this host knows"));
    }
    Ok(Selector::ClassName(selector.to_owned()))
}

/// Is an instance one that the selector is for?
pub open spec fn picks(v: DomView, catalog: CatalogView, selector: SelectorView) -> spec_fn(
    usize,
) -> bool {
    |id: usize|
        match selector {
            SelectorView::ClassName(class) => v.alive(id) && catalog.is_a(v.node(id).class, class),
            SelectorView::Tag(tag) => v.tags.contains((tag, id)),
            SelectorView::Name(name) => v.alive(id) && v.node(id).name == name,
        }
}

/// Is an instance one that the selector is for?
pub fn matches(dom: &Dom, catalog: &Catalog, id: usize, selector: &Selector) -> (r: bool)
    requires
        dom.ok(),
    ensures
        r == picks(dom@, catalog@, selector@)(id),
{
    match selector {
        Selector::ClassName(class) => match dom.class_of(id) {
            Some(own) => catalog.class_is_a(own.as_str(), class.as_str()),
            None => false,
        },
        Selector::Tag(tag) => dom.has_tag(id, tag.as_str()),
        Selector::Name(name) => match dom.name_of(id) {
            Some(own) => same(own.as_str(), name.as_str()),
            None => false,
        },
    }
}

/// Every instance at or under `root` that the selector is for, each before its children, children
/// in their order. Several may have the name of a `#name` selector: it is for all of them.
pub fn matching_in(dom: &Dom, catalog: &Catalog, root: usize, selector: &Selector) -> (r: Vec<
    usize,
>)
    requires
        dom.ok(),
    ensures
        r@ == dom@.subtree(root).filter(picks(dom@, catalog@, selector@)),
{
    let all = dom.subtree(root);
    let ghost wanted = picks(dom@, catalog@, selector@);
    let mut r: Vec<usize> = Vec::new();
    let mut i: usize = 0;
    proof {
        reveal(Seq::filter);
        assert(all@.take(0) =~= Seq::empty());
    }
    while i < all.len()
        invariant
            dom.ok(),
            i <= all.len(),
            wanted == picks(dom@, catalog@, selector@),
            r@ == all@.take(i as int).filter(wanted),
        decreases all.len() - i,
    {
        proof {
            reveal(Seq::filter);
            assert(all@.take(i + 1).drop_last() =~= all@.take(i as int));
        }
        if matches(dom, catalog, all[i], selector) {
            r.push(all[i]);
        }
        i += 1;
    }
    assert(all@.take(i as int) =~= all@);
    r
}

/// A selector finds exactly the instances at or under the root that it is for.
pub proof fn a_selector_finds_what_it_is_for(
    v: DomView,
    catalog: CatalogView,
    root: usize,
    selector: SelectorView,
    id: usize,
)
    requires
        v.sound(),
        v.alive(root),
    ensures
        v.subtree(root).filter(picks(v, catalog, selector)).contains(id) <==> v.alive(id)
            && v.at_or_above(root, id) && picks(v, catalog, selector)(id),
{
    let all = v.subtree(root);
    let wanted = picks(v, catalog, selector);
    crate::tree::subtree_members(v, root, id);
    if all.filter(wanted).contains(id) {
        all.lemma_filter_contains_rev(wanted, id);
        let k = choose|k: int| 0 <= k < all.filter(wanted).len() && all.filter(wanted)[k] == id;
        all.lemma_filter_pred(wanted, k);
    }
    if all.contains(id) && wanted(id) {
        let k = choose|k: int| 0 <= k < all.len() && all[k] == id;
        all.lemma_filter_contains(wanted, k);
    }
}

/// A selector for a class is for every instance of a class that descends from it.
pub proof fn a_class_selector_is_for_descendants(
    v: DomView,
    catalog: CatalogView,
    class: Seq<char>,
    id: usize,
)
    requires
        v.alive(id),
    ensures
        picks(v, catalog, SelectorView::ClassName(class))(id) <==> catalog.is_a(
            v.node(id).class,
            class,
        ),
{
}

} // verus!
