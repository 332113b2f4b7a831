use lumina::state::{load_config_text, AppProfile, DisplaySettings};

fn one_profile() -> Vec<AppProfile> {
    vec![AppProfile {
        executable_name: "game.exe".to_string(),
        friendly_name: "Game".to_string(),
        is_enabled: true,
        settings: vec![(
            "\\\\.\\DISPLAY1".to_string(),
            DisplaySettings { resolution: None, vibrance: Some(70), gamma_bits: None },
        )],
        hotkey: None,
        is_default: None,
    }]
}

#[test]
fn no_file_gives_defaults() {
    let c = load_config_text(None, None);
    assert!(c.profiles.is_empty());
    assert!(c.is_daemon_enabled);
    assert_eq!(c.reset_hotkey, "Ctrl+Alt+R");
    assert_eq!(c.daemon_hotkey, "Ctrl+Alt+D");
    assert_eq!(c.default_profile_name, None);
    assert!(!c.stealth_detection);
}

#[test]
fn fields_are_read_from_the_document() {
    let text = r#"{"is_daemon_enabled": false, "reset_hotkey": "Ctrl+Shift+0",
        "daemon_hotkey": "Alt+F9", "default_profile_name": "Desk",
        "stealth_detection": true, "profiles": []}"#;
    let c = load_config_text(Some(text), Some(one_profile()));
    assert_eq!(c.profiles, one_profile());
    assert!(!c.is_daemon_enabled);
    assert_eq!(c.reset_hotkey, "Ctrl+Shift+0");
    assert_eq!(c.daemon_hotkey, "Alt+F9");
    assert_eq!(c.default_profile_name, Some("Desk".to_string()));
    assert!(c.stealth_detection);
}

#[test]
fn mistyped_fields_fall_back_to_defaults() {
    let text = r#"{"is_daemon_enabled": "no", "reset_hotkey": 5, "daemon_hotkey": null,
        "default_profile_name": null, "stealth_detection": 1}"#;
    let c = load_config_text(Some(text), None);
    assert!(c.profiles.is_empty());
    assert!(c.is_daemon_enabled);
    assert_eq!(c.reset_hotkey, "Ctrl+Alt+R");
    assert_eq!(c.daemon_hotkey, "Ctrl+Alt+D");
    assert_eq!(c.default_profile_name, None);
    assert!(!c.stealth_detection);
}

#[test]
fn text_that_is_not_an_object_gives_defaults() {
    for text in ["not json", "[1, 2]", "\"Ctrl+Alt+R\"", ""] {
        let c = load_config_text(Some(text), None);
        assert!(c.is_daemon_enabled);
        assert_eq!(c.reset_hotkey, "Ctrl+Alt+R");
        assert_eq!(c.daemon_hotkey, "Ctrl+Alt+D");
        assert_eq!(c.default_profile_name, None);
        assert!(!c.stealth_detection);
    }
}

#[test]
fn missing_fields_keep_their_defaults() {
    let c = load_config_text(Some(r#"{"stealth_detection": true}"#), None);
    assert!(c.stealth_detection);
    assert!(c.is_daemon_enabled);
    assert_eq!(c.reset_hotkey, "Ctrl+Alt+R");
}
