use xconsoler::launch::{default_def, is_native, TEMPLATE};

#[test]
fn template_is_detected_exactly_and_tolerates_padding() {
    assert!(is_native(TEMPLATE));
    assert!(is_native("  @native app  "));
    assert!(!is_native("@native app extra"));
    assert!(!is_native("@native clipboard"));
    assert!(!is_native(""));
    assert_ne!(
        TEMPLATE,
        xconsoler::clipboard::TEMPLATE,
        "the two native backends must not collide"
    );
}

#[test]
fn default_def_seeds_the_app_alias() {
    let def = default_def();
    assert_eq!(def.name, "app");
    assert_eq!(def.linux.as_deref(), Some(TEMPLATE));
    assert_eq!(def.macos.as_deref(), Some(TEMPLATE));
    assert!(def.triggers.is_empty(), "the name is the only trigger");
    assert!(
        def.shortcuts.is_empty(),
        "the input is the application name"
    );
}
