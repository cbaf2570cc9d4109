//! Flags, and what they gate.

use dew_host::extensions::{
    self, describe, describe_enum, flag_for, known_flags, resolve_declaration, visible,
    DeclarationError, Tier,
};
use dew_host::flags::{
    effective_flags, effective_lines, is_enabled, set_enabled_flags, Enabled, Flag,
};

const PROBE: &str = "FFlagTestOnlyDoesNotGateAnything";
const BLENDING: &str = "FFlagDewGuiObjectBlendingMode";

#[test]
fn dew_only_is_always_visible() {
    let enabled = Enabled::new();
    assert!(describe(&enabled, "InputActionLabel", "InputAction").is_some());
    assert!(extensions::class_exists(&enabled, "InputActionLabel"));
}

#[test]
fn experimental_is_invisible_until_its_flag_is_set() {
    let mut enabled = Enabled::new();
    let tier = Tier::Experimental {
        flag: "FFlagTestOnlyDoesNotGateAnything",
        revision: 1,
    };
    assert!(!visible(&enabled, &tier));

    set_enabled_flags(&mut enabled, &[("FFlagTestOnlyDoesNotGateAnything", 1)]);
    assert!(visible(&enabled, &tier));
    set_enabled_flags(&mut enabled, &[]);
    assert!(!visible(&enabled, &tier));
}

#[test]
fn flag_for_refuses_an_unknown_key_and_a_dew_only_one() {
    assert_eq!(flag_for("UIGradient.NotAThing"), None);
    assert_eq!(flag_for("no-dot-here"), None);
    assert_eq!(flag_for("InputActionLabel.InputAction"), None);
}

#[test]
fn blending_mode_is_invisible_until_its_flag_is_set() {
    let mut enabled = Enabled::new();
    assert!(describe(&enabled, "GuiObject", "BlendingMode").is_none());
    assert!(describe_enum(&enabled, "BlendMode").is_none());
    assert_eq!(
        flag_for("GuiObject.BlendingMode"),
        Some(("FFlagDewGuiObjectBlendingMode", 1))
    );

    set_enabled_flags(&mut enabled, &[("FFlagDewGuiObjectBlendingMode", 1)]);
    assert!(describe(&enabled, "GuiObject", "BlendingMode").is_some());
    let items = describe_enum(&enabled, "BlendMode").expect("enum visible once flagged");
    assert!(items.contains(&("Alpha", 0)));
    assert!(items.contains(&("Additive", 1)));
    assert!(items.contains(&("Multiply", 2)));
}

#[test]
fn extensions_effective_flags_is_at_least_the_declared_set() {
    let declared = vec![("FFlagTestOnlyDoesNotGateAnything", 1)];
    for settings in [None, Some("{}"), Some("not a table of switches")] {
        let effective = extensions::effective_flags(&declared, settings);
        assert!(effective.contains(&("FFlagTestOnlyDoesNotGateAnything", 1)));
    }
}

#[test]
fn resolve_declaration_requires_a_revision_suffix() {
    assert!(matches!(
        resolve_declaration("GuiObject.BlendingMode"),
        Err(DeclarationError::MissingRevision)
    ));
}

#[test]
fn resolve_declaration_rejects_a_non_integer_revision() {
    assert!(matches!(
        resolve_declaration("GuiObject.BlendingMode@one"),
        Err(DeclarationError::InvalidRevision(text)) if text == "one"
    ));
}

#[test]
fn resolve_declaration_rejects_an_unknown_property_even_with_a_revision() {
    assert!(matches!(
        resolve_declaration("UIGradient.NotAThing@1"),
        Err(DeclarationError::UnknownProperty)
    ));
}

#[test]
fn resolve_declaration_accepts_a_matching_revision() {
    assert_eq!(
        resolve_declaration("GuiObject.BlendingMode@1"),
        Ok(("FFlagDewGuiObjectBlendingMode", 1))
    );
}

#[test]
fn resolve_declaration_refuses_a_stale_revision() {
    assert_eq!(
        resolve_declaration("DewSprintTestOnly.RevisionProbe@1"),
        Err(DeclarationError::RevisionMismatch {
            declared: 1,
            current: 2,
        })
    );
}

#[test]
fn a_flag_is_invisible_until_it_is_set() {
    let mut enabled = Enabled::new();
    assert!(!is_enabled(&enabled, "FFlagTestOnlyDoesNotGateAnything"));

    set_enabled_flags(&mut enabled, &[("FFlagTestOnlyDoesNotGateAnything", 1)]);
    assert!(is_enabled(&enabled, "FFlagTestOnlyDoesNotGateAnything"));
}

#[test]
fn flags_effective_flags_is_at_least_the_declared_set() {
    let declared = vec![("FFlagTestOnlyDoesNotGateAnything", 1)];
    let known: Vec<Flag> = Vec::new();
    let effective = effective_flags(&declared, &known, None);
    assert!(effective.contains(&("FFlagTestOnlyDoesNotGateAnything", 1)));
}

#[test]
fn a_switch_adds_a_known_flag_once() {
    let settings = r#"{ "FFlagDewGuiObjectBlendingMode": true, "FFlagNobodyKnows": true }"#;
    let known: [Flag; 2] = [(BLENDING, 1), (PROBE, 3)];
    assert_eq!(effective_flags(&[], &known, Some(settings)), vec![(BLENDING, 1)]);
    assert_eq!(
        effective_flags(&[(BLENDING, 7)], &known, Some(settings)),
        vec![(BLENDING, 7)]
    );
    let off = r#"{ "FFlagDewGuiObjectBlendingMode": false }"#;
    assert!(effective_flags(&[], &known, Some(off)).is_empty());
    let broken = r#"{ "FFlagDewGuiObjectBlendingMode": 1 }"#;
    assert!(effective_flags(&[], &known, Some(broken)).is_empty());

    let known = known_flags();
    assert!(known.contains(&(BLENDING, 1)));
    assert_eq!(
        resolve_declaration("GuiObject.BlendingMode@1").map(|f| known.contains(&f)),
        Ok(true)
    );
}

#[test]
fn flags_and_refusals_are_told_in_words() {
    assert_eq!(
        effective_lines(&[(BLENDING, 1), (PROBE, 12)]),
        vec![
            "[dew] experimental: FFlagDewGuiObjectBlendingMode (revision 1)".to_string(),
            "[dew] experimental: FFlagTestOnlyDoesNotGateAnything (revision 12)".to_string(),
        ]
    );
    assert!(effective_lines(&[]).is_empty());

    for declaration in [
        "GuiObject.BlendingMode",
        "GuiObject.BlendingMode@one",
        "UIGradient.NotAThing@1",
        "DewSprintTestOnly.RevisionProbe@1",
    ] {
        let error = resolve_declaration(declaration).unwrap_err();
        assert!(!error.message().is_empty(), "{declaration}");
    }
    for text in ["+1", "-1", " 1", "1.0", "", "4294967297"] {
        assert_eq!(
            resolve_declaration(&format!("GuiObject.BlendingMode@{text}")),
            Err(DeclarationError::InvalidRevision(text.to_string()))
        );
    }
    let error = resolve_declaration("GuiObject.BlendingMode@o\"e").unwrap_err();
    assert!(error.message().contains(r#""o\"e""#), "{}", error.message());
}

