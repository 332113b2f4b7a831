use lumina::hotkey::{hotkey_of_lowered, parse_hotkey};

#[test]
fn default_reset_hotkey_parses() {
    assert_eq!(parse_hotkey("Ctrl+Alt+R"), Some((0x0003, 0x52)));
}

#[test]
fn default_daemon_hotkey_parses() {
    assert_eq!(parse_hotkey("Ctrl+Alt+D"), Some((0x0003, 0x44)));
}

#[test]
fn modifier_names_and_case() {
    assert_eq!(parse_hotkey("control+SHIFT+super+a"), Some((0x0002 | 0x0004 | 0x0008, 0x41)));
    assert_eq!(parse_hotkey("Win+Alt+z"), Some((0x0008 | 0x0001, 0x5A)));
}

#[test]
fn ascii_case_does_not_matter() {
    assert_eq!(parse_hotkey("cTrL+aLt+r"), parse_hotkey("Ctrl+Alt+R"));
    assert_eq!(parse_hotkey("SHIFT+f7"), parse_hotkey("shift+F7"));
}

#[test]
fn digits_are_keys() {
    assert_eq!(parse_hotkey("Ctrl+Alt+1"), Some((0x0003, 0x31)));
    assert_eq!(parse_hotkey("9"), Some((0, 0x39)));
}

#[test]
fn function_keys() {
    assert_eq!(parse_hotkey("Shift+F1"), Some((0x0004, 0x70)));
    assert_eq!(parse_hotkey("F12"), Some((0, 0x7B)));
    assert_eq!(parse_hotkey("f05"), Some((0, 0x74)));
    assert_eq!(parse_hotkey("Ctrl+F13"), None);
    assert_eq!(parse_hotkey("Ctrl+F0"), None);
    assert_eq!(parse_hotkey("F99999999999"), None);
    assert_eq!(parse_hotkey("Fx"), None);
}

#[test]
fn single_f_is_the_letter() {
    assert_eq!(parse_hotkey("Alt+F"), Some((0x0001, 0x46)));
}

#[test]
fn the_last_key_wins() {
    assert_eq!(parse_hotkey("Ctrl+A+B"), Some((0x0002, 0x42)));
    assert_eq!(parse_hotkey("F2+Ctrl+x+-"), Some((0x0002, 0x58)));
}

#[test]
fn spaces_around_parts_are_ignored() {
    assert_eq!(parse_hotkey("  Ctrl + Alt + R  "), Some((0x0003, 0x52)));
    assert_eq!(parse_hotkey("Ctrl+\u{3000}R\u{00A0}"), Some((0x0002, 0x52)));
}

#[test]
fn no_key_gives_none() {
    assert_eq!(parse_hotkey(""), None);
    assert_eq!(parse_hotkey("Ctrl+Alt"), None);
    assert_eq!(parse_hotkey("Ctrl+Alt+-"), None);
    assert_eq!(parse_hotkey("+++"), None);
    assert_eq!(parse_hotkey("Ctrl+Escape"), None);
    assert_eq!(parse_hotkey("Ctrl+é"), None);
}

#[test]
fn unicode_lowercase_reaches_ascii_letters() {
    // KELVIN SIGN lowercases to the ASCII letter k.
    assert_eq!(parse_hotkey("Ctrl+\u{212A}"), Some((0x0002, 0x4B)));
}

#[test]
fn spaces_and_case_around_parts() {
    assert_eq!(parse_hotkey(" ctrl + ALT + r "), Some((0x0003, 0x52)));
    for s in ["Ctrl+Alt+R", "shift+F4", "Win+é+9", "Ctrl+\u{212A}", "Alt+Ünï+q"] {
        let lower = s.to_ascii_lowercase();
        let upper = s.to_ascii_uppercase();
        let padded = s.split('+').map(|p| format!(" {p} ")).collect::<Vec<_>>().join("+");
        assert_eq!(parse_hotkey(s), parse_hotkey(&lower));
        assert_eq!(parse_hotkey(s), parse_hotkey(&upper));
        assert_eq!(parse_hotkey(s), parse_hotkey(&padded));
    }
}

#[test]
fn unicode_lowercase_reaches_the_key() {
    // The Kelvin sign lowercases to the ASCII letter k.
    assert_eq!(parse_hotkey("Ctrl+\u{212A}"), Some((0x0002, 0x4B)));
    assert_eq!(parse_hotkey("Ctrl+É"), None);
}

#[test]
fn lowered_parts_name_the_hotkey() {
    let parts = vec!["ctrl".to_string(), "é".to_string(), "k".to_string()];
    assert_eq!(hotkey_of_lowered(&parts), Some((0x0002, 0x4B)));
    let parts = vec!["alt".to_string(), "f12".to_string(), "x".to_string()];
    assert_eq!(hotkey_of_lowered(&parts), Some((0x0001, 0x58)));
    let parts = vec!["shift".to_string(), "ß".to_string()];
    assert_eq!(hotkey_of_lowered(&parts), None);
    assert_eq!(hotkey_of_lowered(&Vec::new()), None);
}
