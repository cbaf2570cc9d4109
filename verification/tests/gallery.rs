//! The gallery: where scenes lie, what they cover, and how paints differ.

use dew_host::coverage::{by_pillar, classes_used, coverage, coverage_with_moved, Scope};
use dew_host::gallery::{
    decode_scene, default_render_dir, pillar_of, RawNode, RawScene, RawSurface, RawVariant, Scene,
};
use dew_host::keyed::Keyed;
use dew_host::names::Names;
use dew_host::paint::{
    cannot_differ, excused, find_variant, pixels_differing, rgba_of, Findings, Painted,
};

fn parts(path: &str) -> Vec<String> {
    path.split('/').map(|s| s.to_string()).collect()
}

fn names(list: &[&str]) -> Names {
    let mut out = Names::new();
    for name in list {
        out.put(name);
    }
    out
}

fn node(class: &str, name: &str, props: &[&str], children: Vec<RawNode>) -> RawNode {
    RawNode {
        class: Ok(Some(class.to_string())),
        name: Ok(Some(name.to_string())),
        props: Some(props.iter().map(|p| Ok(p.to_string())).collect()),
        children: Some(children.into_iter().map(Ok).collect()),
    }
}

fn raw(tree: RawNode) -> RawScene {
    RawScene {
        fields: vec!["name".to_string(), "shows".to_string(), "tree".to_string()],
        name: Ok(Some("a scene".to_string())),
        shows: Ok(Some("what to look for".to_string())),
        surface: None,
        tree: Ok(Some(tree)),
        variants: None,
    }
}

fn scene(pillar: &str, tree: RawNode) -> Scene {
    decode_scene(&raw(tree), "probe", pillar).expect("scene")
}

fn scope() -> Scope {
    let mut by_class = Keyed::new();
    by_class.put("Frame".to_string(), names(&["Name", "Size", "Visible"]));
    by_class.put("TextLabel".to_string(), names(&["Text", "Name"]));
    Scope {
        properties: names(&["Name", "Size", "Text", "Visible"]),
        by_class,
    }
}

#[test]
fn coverage_measures_against_the_shared_denominator() {
    let in_scope = scope();
    let total = in_scope.properties.count();
    let cov = coverage(&Vec::new(), &Some(in_scope));
    assert_eq!(cov.total(), total);
    assert_eq!(cov.count(), 0, "no scenes demonstrates nothing");
    assert_eq!(cov.missing.len(), cov.total());
}

#[test]
fn what_scenes_set_is_covered_within_a_scope() {
    let scenes = vec![scene("paint", node("Frame", "R", &["Size"], Vec::new()))];
    let cov = coverage(&scenes, &None);
    assert_eq!((cov.total(), cov.count(), cov.missing.len()), (0, 0, 0));
    assert_eq!((cov.pairs_demonstrated, cov.pairs_in_scope), (0, 0));

    let label = node("TextLabel", "T", &["Text", "Rotation"], Vec::new());
    let scenes = vec![scene("paint", node("Frame", "R", &["Size"], vec![label]))];
    let moved = names(&["Size", "Rotation"]);
    let cov = coverage_with_moved(&scenes, &moved, &Some(scope()));
    assert_eq!(cov.demonstrated.list(), &vec!["Name", "Size", "Text"]);
    assert_eq!(cov.missing, vec!["Visible"]);
    assert_eq!(cov.differential.list(), &vec!["Size"]);
    assert_eq!(cov.excused.list(), &vec!["Name"]);
    assert_eq!((cov.pairs_demonstrated, cov.pairs_in_scope), (4, 5));
}

#[test]
fn pillars_are_counted_though_they_hold_no_scene() {
    let scenes = vec![
        scene("paint", node("Frame", "R", &["Size"], Vec::new())),
        scene("paint", node("Frame", "R", &["Visible", "Rotation"], Vec::new())),
        scene("loose", node("TextLabel", "R", &["Text"], Vec::new())),
    ];
    let directories = vec!["text".to_string(), "paint".to_string()];
    let all = Some(scope().properties);
    let counted = by_pillar(&directories, &scenes, &all);
    assert_eq!(counted.get("paint"), Some(&(2, 3)));
    assert_eq!(counted.get("text"), Some(&(0, 0)));
    assert_eq!(counted.get("loose"), Some(&(1, 2)));
    let unscoped = by_pillar(&directories, &scenes, &None);
    assert_eq!(unscoped.get("paint"), Some(&(0, 0)));
    assert_eq!(unscoped.get("loose"), None);
}

#[test]
fn a_class_is_counted_once_for_each_scene() {
    let twice = node(
        "Frame",
        "R",
        &[],
        vec![
            node("TextLabel", "A", &[], Vec::new()),
            node("TextLabel", "B", &[], Vec::new()),
        ],
    );
    let scenes = vec![scene("a", twice), scene("b", node("TextLabel", "R", &[], Vec::new()))];
    let used = classes_used(&scenes);
    assert_eq!(used.get("TextLabel"), Some(&2));
    assert_eq!(used.get("Frame"), Some(&1));
    assert_eq!(used.get("Folder"), None);
}

#[test]
fn the_pillar_is_the_directory() {
    let root = parts("gallery/scenes");
    assert_eq!(
        pillar_of(&parts("gallery/scenes/paint/a.luau"), &root),
        "paint"
    );
    assert_eq!(
        pillar_of(&parts("gallery/scenes/loose.luau"), &root),
        "ungrouped"
    );
}

#[test]
fn paths_around_the_scenes() {
    let root = parts("gallery/scenes");
    assert_eq!(pillar_of(&parts("elsewhere/paint/a.luau"), &root), "ungrouped");
    assert_eq!(pillar_of(&root, &root), "ungrouped");

    assert_eq!(
        default_render_dir(&parts("gallery/scenes")),
        parts("gallery/renders")
    );
    assert_eq!(default_render_dir(&Vec::new()), parts("gallery/renders"));
}

#[test]
fn a_scene_defaults_its_name_and_its_surface() {
    let mut plain = raw(node("Frame", "R", &[], Vec::new()));
    plain.name = Ok(None);
    let s = decode_scene(&plain, "stem", "p").expect("scene");
    assert_eq!(s.name, "stem");
    assert_eq!(f32::from_bits(s.surface.width), 200.0);
    assert_eq!(f32::from_bits(s.surface.height), 120.0);
    plain.surface = Some(RawSurface {
        width: Some(10.0f32.to_bits()),
        height: None,
    });
    let s = decode_scene(&plain, "stem", "p").expect("scene");
    assert_eq!(f32::from_bits(s.surface.width), 10.0);
    assert_eq!(f32::from_bits(s.surface.height), 120.0);
}

#[test]
fn what_cannot_be_read_of_a_scene_is_refused_with_its_reason() {
    let mut s = raw(node("Frame", "R", &[], Vec::new()));
    s.tree = Ok(None);
    assert_eq!(decode_scene(&s, "stem", "p").unwrap_err(), "stem: no tree");
    s.tree = Err("not a table".to_string());
    assert_eq!(decode_scene(&s, "stem", "p").unwrap_err(), "not a table");

    let mut classless = node("Frame", "R", &[], Vec::new());
    classless.class = Ok(None);
    let s = raw(node("Frame", "R", &[], vec![classless]));
    assert_eq!(
        decode_scene(&s, "stem", "p").unwrap_err(),
        "stem: a node has no class"
    );
}

#[test]
fn every_excuse_states_a_reason() {
    assert!(!cannot_differ().is_empty());
    for (name, reason) in cannot_differ() {
        assert!(
            reason.len() > 30,
            "{name} needs a reason, not a note: {reason:?}"
        );
    }
    assert!(excused("Name").is_some());
    assert!(excused("BackgroundColor3").is_none());
}

#[test]
fn identical_paints_differ_nowhere() {
    let a = Painted {
        rgba: vec![1, 2, 3, 4, 5, 6, 7, 8],
        width: 2,
        height: 1,
    };
    let b = Painted {
        rgba: vec![1, 2, 3, 4, 5, 6, 7, 9],
        width: 2,
        height: 1,
    };
    assert_eq!(pixels_differing(&a, &a), 0);
    assert_eq!(pixels_differing(&a, &b), 1);
}

#[test]
fn paints_differ_or_a_variant_is_inert() {
    let a = rgba_of(&vec![3, 2, 1, 4, 7, 6, 5, 8], 2, 1);
    let b = rgba_of(&vec![3, 2, 1, 4, 7, 6, 5, 8], 1, 2);
    assert_eq!(a.rgba, vec![1, 2, 3, 4, 5, 6, 7, 8]);
    assert_eq!(pixels_differing(&a, &b), 2);
    let back = rgba_of(&a.rgba, 2, 1);
    assert_eq!(back.rgba, vec![3, 2, 1, 4, 7, 6, 5, 8]);

    let mut r = raw(node("Frame", "R", &[], Vec::new()));
    r.variants = Some(vec![
        Ok(RawVariant {
            node: Ok(Some("R".to_string())),
            prop: Ok(Some("Visible".to_string())),
            value: Ok(Some(0)),
        }),
        Ok(RawVariant {
            node: Ok(Some("R".to_string())),
            prop: Ok(Some("Active".to_string())),
            value: Ok(Some(1)),
        }),
    ]);
    let s = decode_scene(&r, "stem", "paint").expect("scene");
    assert_eq!(find_variant(&s, "R", "Active"), Ok(1));
    assert_eq!(
        find_variant(&s, "R", "Size"),
        Err("stem: variant vanished on reload".to_string())
    );
    let base = rgba_of(&vec![0, 0, 0, 0], 1, 1);
    let changed = rgba_of(&vec![9, 0, 0, 0], 1, 1);
    let mut findings = Findings::new();
    findings.compare(&s, &s.variants[0], &base, &changed);
    findings.compare(&s, &s.variants[1], &base, &base);
    assert_eq!(findings.moved.list(), &vec!["Visible"]);
    assert_eq!(
        findings.inert,
        vec!["paint/stem: Active on R changed no pixels"]
    );
}

