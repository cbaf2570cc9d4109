//! Applets, the library that launches them, the framework's scope, and the script runtime.

use dew_host::bindings::{
    clean_source, draw_command, format_duration, script_of, HostState, RawCommand,
};
use dew_host::framework::{exclusion_reason, in_scope, is_namespace, namespaces};
use dew_host::installed::{
    copy_step, enabled, install, list, set_enabled, uninstall, valid_id, with_enabled, without,
    CopyStep, Entry, Placing,
};
use dew_host::library::{self, Label, Library};

#[test]
fn eight_exports_are_namespaces_and_each_says_why() {
    assert_eq!(
        namespaces().len(),
        8,
        "the namespace list changed; update the count deliberately"
    );
    for (name, why) in namespaces() {
        assert!(
            why.len() > 20,
            "`{name}` is excluded without a reason worth reading"
        );
    }
}

#[test]
fn a_namespace_is_out_of_scope_and_a_feature_is_in() {
    let exported = vec![
        "Combobox".to_string(),
        "Primitives".to_string(),
        "source".to_string(),
    ];
    let scope = in_scope(&exported);
    assert_eq!(scope, vec!["Combobox".to_string(), "source".to_string()]);
    assert!(exclusion_reason("Primitives").is_some());
    assert!(exclusion_reason("Combobox").is_none());
}

#[test]
fn what_has_a_reason_is_a_namespace() {
    for (name, why) in namespaces() {
        assert!(is_namespace(name));
        assert_eq!(exclusion_reason(name), Some(why));
    }
    assert!(!is_namespace("Combobox"));
}

#[test]
fn ids_with_a_path_separator_are_refused() {
    assert!(!valid_id("a/b"));
    assert!(!valid_id("a\\b"));
    assert!(!valid_id(".."));
    assert!(!valid_id("."));
    assert!(!valid_id(""));
    assert!(valid_id("basic-widget"));
}

#[test]
fn drives_are_refused_and_packages_are_not_copied() {
    assert!(!valid_id("c:widget"));
    assert!(valid_id("..."));

    assert_eq!(copy_step("src", true, false), CopyStep::Descend);
    assert_eq!(copy_step("luau_packages", true, false), CopyStep::Skip);
    assert_eq!(copy_step("roblox_packages", true, false), CopyStep::Skip);
    assert_eq!(copy_step(".pesde", true, false), CopyStep::Skip);
    assert_eq!(copy_step(".pesde", false, true), CopyStep::Copy);
    assert_eq!(copy_step("link", false, false), CopyStep::Skip);
}

fn found() -> Vec<(String, String)> {
    vec![
        ("clock".to_string(), "/applets/clock".to_string()),
        ("alarm".to_string(), "/applets/alarm".to_string()),
    ]
}

#[test]
fn an_applet_runs_unless_its_state_reads_otherwise() {
    let state = with_enabled(None, "clock", false).expect("text");
    let entries = list(&found(), Some(&state));
    let seen: Vec<(&str, &str, bool)> = entries
        .iter()
        .map(|e| (e.id.as_str(), e.dir.as_str(), e.enabled))
        .collect();
    assert_eq!(
        seen,
        vec![
            ("alarm", "/applets/alarm", true),
            ("clock", "/applets/clock", false)
        ]
    );
    assert_eq!(
        enabled(&entries),
        vec![("alarm".to_string(), "/applets/alarm".to_string())]
    );
    assert!(list(&found(), Some("broken")).iter().all(|e| e.enabled));

    let one = with_enabled(None, "clock", false).expect("text");
    let two = with_enabled(Some(&one), "al\"arm", false).expect("text");
    let off = |text: &str, id: &str| {
        let found = vec![(id.to_string(), String::new())];
        !list(&found, Some(text))[0].enabled
    };
    assert!(off(&two, "clock") && off(&two, "al\"arm"));
    let three = without(Some(&two), "clock").expect("text");
    assert!(!off(&three, "clock") && off(&three, "al\"arm"));
}

#[test]
fn an_applet_is_placed_switched_and_removed_or_refused() {
    assert_eq!(install("/src", "clock", true, false, false), Ok(Placing::Fresh));
    assert_eq!(install("/src", "clock", true, true, true), Ok(Placing::Replace));
    assert_eq!(
        install("/src", "clock", true, true, false),
        Err(
            "'clock' is already installed; run `dew uninstall clock` first, or pass --force"
                .to_string()
        )
    );
    assert_eq!(
        install("/src", "clock", false, false, false),
        Err("could not find a per-user data directory to install into".to_string())
    );
    assert_eq!(
        install("/src", "a/\"b", true, false, false),
        Err(r#"/src: manifest id "a/\"b" cannot be used as a directory name"#.to_string())
    );

    assert_eq!(
        set_enabled("clock", true, true, false, None),
        Err("no applet installed with id 'clock'".to_string())
    );
    assert_eq!(
        set_enabled("clock", true, false, false, None),
        Err("could not find a per-user data directory".to_string())
    );
    assert_eq!(
        set_enabled("clock", false, true, true, None),
        Ok(with_enabled(None, "clock", false))
    );
    assert_eq!(uninstall("clock", true, true), Ok(()));
    assert_eq!(
        uninstall("clock", true, false),
        Err("no applet installed with id 'clock'".to_string())
    );
    assert_eq!(
        uninstall("clock", false, false),
        Err("could not find a per-user data directory to uninstall from".to_string())
    );
}

fn applets() -> Vec<Entry> {
    list(&found(), None)
}

#[test]
fn a_launch_or_a_switch_asks_for_what_does_not_hold_yet() {
    let mut library = Library::new();
    assert_eq!(library.launch(Ok(true), &applets(), "clock"), Ok(()));
    assert!(library.take_load_requests().is_empty());
    assert_eq!(library.launch(Ok(false), &applets(), "clock"), Ok(()));
    assert_eq!(library.launch(Ok(false), &applets(), "alarm"), Ok(()));
    assert_eq!(
        library.take_load_requests(),
        vec!["/applets/clock", "/applets/alarm"]
    );
    assert!(library.take_load_requests().is_empty());
    assert_eq!(
        library.launch(Ok(false), &applets(), "chess"),
        Err("no applet installed with id 'chess'".to_string())
    );
    assert_eq!(
        library.launch(Err("no answer".to_string()), &applets(), "clock"),
        Err("no answer".to_string())
    );

    let mut library = Library::new();
    for (running, on) in [(true, true), (false, false)] {
        assert_eq!(
            library.set_enabled(Ok(running), Ok(()), &applets(), "clock", on),
            Ok(())
        );
    }
    assert!(library.take_load_requests().is_empty());
    assert!(library.take_unload_requests().is_empty());

    library
        .set_enabled(Ok(false), Ok(()), &applets(), "clock", true)
        .expect("load");
    library
        .set_enabled(Ok(true), Ok(()), &applets(), "alarm", false)
        .expect("unload");
    assert_eq!(library.take_load_requests(), vec!["/applets/clock"]);
    assert_eq!(library.take_unload_requests(), vec!["alarm"]);
    assert_eq!(
        library.set_enabled(Ok(true), Err("disk".to_string()), &applets(), "alarm", false),
        Err("disk".to_string())
    );
    assert!(library.take_unload_requests().is_empty());
}

#[test]
fn what_runs_is_not_removed() {
    assert_eq!(
        library::uninstall(Ok(true), "clock"),
        Err("'clock' is currently running; exit it before uninstalling".to_string())
    );
    assert_eq!(library::uninstall(Ok(false), "clock"), Ok(()));
    assert_eq!(
        library::uninstall(Err("no answer".to_string()), "clock"),
        Err("no answer".to_string())
    );
}

#[test]
fn an_applet_without_a_manifest_goes_by_its_id() {
    let labels = vec![
        None,
        Some(Label {
            name: "Clock".to_string(),
            description: "tells the time".to_string(),
        }),
    ];
    let rows = library::list(&applets(), &labels);
    assert_eq!((rows[0].name.as_str(), rows[0].description.as_str()), ("alarm", ""));
    assert_eq!(rows[1].id, "clock");
    assert_eq!(rows[1].name, "Clock");
    assert_eq!(rows[1].description, "tells the time");
    assert!(rows[1].enabled);
}

#[test]
fn the_state_of_a_script_keeps_what_it_is_given() {
    let mut state = HostState::new();
    state.register_component("clock".to_string(), 1, Some(2));
    state.register_component("alarm".to_string(), 3, None);
    state.register_component("clock".to_string(), 4, Some(5));
    let order: Vec<(&str, u64)> = state
        .components
        .iter()
        .map(|c| (c.id.as_str(), c.render_fn))
        .collect();
    assert_eq!(order, vec![("alarm", 3), ("clock", 4)]);
    assert_eq!(state.handle_click("clock"), Some(5));
    assert_eq!(state.handle_click("alarm"), None);
    assert_eq!(state.handle_click("chess"), None);

    let mut state = HostState::default();
    assert_eq!(state.storage_get("k"), None);
    assert_eq!(state.read_text(), "");
    state.storage_set("k".to_string(), "v".to_string());
    state.storage_set("k".to_string(), "w".to_string());
    state.storage_set("j".to_string(), "u".to_string());
    assert_eq!(state.storage_get("k").as_deref(), Some("w"));
    assert_eq!(state.storage_get("j").as_deref(), Some("u"));
    state.write_text("copied".to_string());
    assert_eq!(state.read_text(), "copied");
}

#[test]
fn durations_have_hours_only_where_they_need_them() {
    let shown = |seconds: f64| format_duration(seconds.to_bits());
    assert_eq!(shown(0.0), "00:00");
    assert_eq!(shown(59.9), "00:59");
    assert_eq!(shown(3599.0), "59:59");
    assert_eq!(shown(3600.0), "01:00:00");
    assert_eq!(shown(360061.5), "100:01:01");
    assert_eq!(shown(-5.0), "00:00");
    assert_eq!(shown(f64::NAN), "00:00");
    assert_eq!(shown(f64::INFINITY), "5124095576030431:00:15");
}

#[test]
fn a_mod_runs_its_own_script_without_its_mark() {
    assert_eq!(clean_source("\u{feff}return 1"), "return 1");
    assert_eq!(clean_source("return 1"), "return 1");
    assert_eq!(clean_source("\u{feff}\u{feff}"), "\u{feff}");
    assert_eq!(clean_source(""), "");

    assert_eq!(script_of("clock", true), "clock.luau");
    assert_eq!(script_of("clock", false), "main.luau");
}

#[test]
fn a_command_defaults_what_it_does_not_say() {
    let c = draw_command(RawCommand {
        kind: None,
        x: Some(2.5f32.to_bits()),
        y: None,
        w: None,
        h: None,
        radius: None,
        stroke_width: None,
        r: Some(7),
        g: None,
        b: None,
        a: None,
        text: None,
    });
    assert_eq!(c.kind, "rect");
    assert_eq!(f32::from_bits(c.x), 2.5);
    assert_eq!(f32::from_bits(c.y), 0.0);
    assert_eq!((c.color_r, c.color_g, c.color_b, c.color_a), (7, 255, 255, 255));
    assert_eq!(c.text, None);
}
