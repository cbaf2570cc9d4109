//! Selectors and the cascade.

use dew_host::cascade::{candidates, resolve};
use dew_host::dom::Dom;
use dew_host::reflection::Catalog;
use dew_host::style::{matching_in, parse};
use dew_host::table::Table;
use dew_host::value::Value;

fn parent(dom: &mut Dom, id: usize, on: usize) {
    dom.set_parent(id, Some(on)).expect("parent");
}

fn new(dom: &mut Dom, class: &str, name: &str) -> usize {
    dom.insert(class.to_string(), name.to_string())
}

fn tree() -> (Dom, usize, usize, usize, usize) {
    let mut dom = Dom::new();
    let root = new(&mut dom, "Frame", "Frame");
    let card = new(&mut dom, "Frame", "Frame");
    let label = new(&mut dom, "TextLabel", "Header");
    let other = new(&mut dom, "TextButton", "Header");
    dom.add_tag(card, "Enemy");
    parent(&mut dom, card, root);
    parent(&mut dom, label, card);
    parent(&mut dom, other, root);
    (dom, root, card, label, other)
}

#[test]
fn a_bare_word_matches_by_is_a_not_exact_class_name() {
    let (dom, root, card, label, other) = tree();
    let catalog = Catalog::load();

    let button_selector = parse(&catalog, "GuiButton").expect("parse");
    assert_eq!(matching_in(&dom, &catalog, root, &button_selector), vec![other]);

    let object_selector = parse(&catalog, "GuiObject").expect("parse");
    let got = matching_in(&dom, &catalog, root, &object_selector);
    assert!(got.contains(&card), "{got:?}");
    assert!(got.contains(&label), "{got:?}");
    assert!(got.contains(&other), "{got:?}");
}

#[test]
fn a_dot_selector_reads_the_collection_service_tag() {
    let (dom, root, card, _label, other) = tree();
    let catalog = Catalog::load();
    let selector = parse(&catalog, ".Enemy").expect("parse");
    let got = matching_in(&dom, &catalog, root, &selector);
    assert_eq!(got, vec![card]);
    assert!(!got.contains(&other));
}

#[test]
fn a_hash_selector_matches_every_instance_sharing_the_name() {
    let (dom, root, _card, label, other) = tree();
    let catalog = Catalog::load();
    let selector = parse(&catalog, "#Header").expect("parse");
    let got = matching_in(&dom, &catalog, root, &selector);
    assert!(got.contains(&label), "{got:?}");
    assert!(got.contains(&other), "{got:?}");
}

#[test]
fn an_empty_selector_does_not_parse() {
    assert!(parse(&Catalog::load(), "").is_err());
}

#[test]
fn a_dot_or_hash_with_nothing_after_it_does_not_parse() {
    assert!(parse(&Catalog::load(), ".").is_err());
    assert!(parse(&Catalog::load(), "#").is_err());
}

#[test]
fn an_unknown_class_name_does_not_parse() {
    let err = parse(&Catalog::load(), "NotARealClass").unwrap_err();
    assert!(err.contains("NotARealClass"), "{err}");
}

#[test]
fn a_compound_selector_is_refused_rather_than_misread() {
    let err = parse(&Catalog::load(), "Frame.Enemy").unwrap_err();
    assert!(err.contains("compound"), "{err}");
}

#[test]
fn a_tag_or_a_name_with_a_joint_is_refused_too() {
    let catalog = Catalog::load();
    for selector in [".Enemy TextLabel", "#Header.Enemy", ".Enemy#Header", "#Header\tFrame", ".."] {
        assert_eq!(
            parse(&catalog, selector).unwrap_err(),
            format!(
                "`{selector}` looks like a compound or combinator selector, \
                 which this host does not parse yet"
            )
        );
    }
}

fn double(x: f64) -> Value {
    Value::Float64(x.to_bits())
}

fn rule(
    dom: &mut Dom,
    sheet: usize,
    selector: &str,
    priority: f64,
    props: &[(&str, f64)],
) -> usize {
    let rule = new(dom, "StyleRule", "StyleRule");
    dom.assign(rule, "Selector", Value::Text(selector.to_string()));
    dom.assign(rule, "Priority", double(priority));
    for (name, value) in props {
        dom.set_style_property(rule, name, Some(double(*value)));
    }
    parent(dom, rule, sheet);
    rule
}

fn number(table: &Table, name: &str) -> Option<f64> {
    match table.get(name) {
        Some(Value::Float64(bits)) => Some(f64::from_bits(*bits)),
        Some(other) => panic!("{other:?}"),
        None => None,
    }
}

#[test]
fn a_higher_priority_rule_wins_a_conflict() {
    let mut dom = Dom::new();
    let root = new(&mut dom, "Frame", "Frame");
    let target = new(&mut dom, "Frame", "Card");
    let sheet = new(&mut dom, "StyleSheet", "StyleSheet");
    parent(&mut dom, target, root);
    parent(&mut dom, sheet, root);
    rule(&mut dom, sheet, "Frame", 1.0, &[("BackgroundTransparency", 0.0)]);
    rule(&mut dom, sheet, "Frame", 5.0, &[("BackgroundTransparency", 0.75)]);

    let resolved = resolve(&dom, &Catalog::load(), target);
    assert_eq!(number(&resolved, "BackgroundTransparency"), Some(0.75));
}

#[test]
fn a_style_link_resolves_the_same_as_an_inline_style_sheet() {
    let mut dom = Dom::new();
    let root = new(&mut dom, "Frame", "Root");
    let target = new(&mut dom, "Frame", "Card");
    let theme_root = new(&mut dom, "Folder", "Theme");
    let sheet = new(&mut dom, "StyleSheet", "StyleSheet");
    let link = new(&mut dom, "StyleLink", "StyleLink");
    parent(&mut dom, target, root);
    parent(&mut dom, sheet, theme_root);
    parent(&mut dom, link, root);
    rule(&mut dom, sheet, "Frame", 1.0, &[("BackgroundTransparency", 0.5)]);
    dom.set_style_link(link, Some(sheet));

    let resolved = resolve(&dom, &Catalog::load(), target);
    assert_eq!(number(&resolved, "BackgroundTransparency"), Some(0.5));
}

#[test]
fn a_closer_style_sheet_wins_a_priority_tie() {
    let mut dom = Dom::new();
    let root = new(&mut dom, "Frame", "Root");
    let mid = new(&mut dom, "Frame", "Mid");
    let target = new(&mut dom, "Frame", "Card");
    let far_sheet = new(&mut dom, "StyleSheet", "Far");
    let near_sheet = new(&mut dom, "StyleSheet", "Near");
    parent(&mut dom, mid, root);
    parent(&mut dom, target, mid);
    parent(&mut dom, far_sheet, root);
    parent(&mut dom, near_sheet, mid);
    rule(&mut dom, far_sheet, "Frame", 1.0, &[("BackgroundTransparency", 0.1)]);
    rule(&mut dom, near_sheet, "Frame", 1.0, &[("BackgroundTransparency", 0.9)]);

    let resolved = resolve(&dom, &Catalog::load(), target);
    assert_eq!(number(&resolved, "BackgroundTransparency"), Some(0.9));
}

#[test]
fn a_non_matching_rule_does_not_contribute() {
    let mut dom = Dom::new();
    let root = new(&mut dom, "Frame", "Root");
    let target = new(&mut dom, "Frame", "Card");
    let sheet = new(&mut dom, "StyleSheet", "StyleSheet");
    parent(&mut dom, target, root);
    parent(&mut dom, sheet, root);
    rule(&mut dom, sheet, "TextLabel", 10.0, &[("BackgroundTransparency", 0.9)]);

    let resolved = resolve(&dom, &Catalog::load(), target);
    assert!(number(&resolved, "BackgroundTransparency").is_none());
}

#[test]
fn every_property_of_a_rule_is_resolved_on_its_own() {
    let mut dom = Dom::new();
    let root = new(&mut dom, "Frame", "Root");
    let target = new(&mut dom, "Frame", "Card");
    let sheet = new(&mut dom, "StyleSheet", "StyleSheet");
    parent(&mut dom, target, root);
    parent(&mut dom, sheet, root);
    rule(
        &mut dom,
        sheet,
        "#Card",
        1.0,
        &[("BackgroundTransparency", 0.25), ("Rotation", 4.0)],
    );
    rule(&mut dom, sheet, "Frame", 2.0, &[("Rotation", 8.0)]);
    let catalog = Catalog::load();
    assert_eq!(candidates(&dom, &catalog, target).len(), 2);
    let resolved = resolve(&dom, &catalog, target);
    assert_eq!(number(&resolved, "BackgroundTransparency"), Some(0.25));
    assert_eq!(number(&resolved, "Rotation"), Some(8.0));
}
