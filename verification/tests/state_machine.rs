use lumina::display::{DisplayInfo, Resolution};
use lumina::state::{
    all_succeeded, capture_system_default, config_of, get_active_profile, get_global_settings,
    get_profiles, has_system_default, hotkey_pressed, hotkey_registrations, initial_state,
    is_daemon_active, load_config, restore_baseline, save_global_settings,
    save_profiles, set_daemon_active, profile_applied, AppConfig, DisplayAttempt, AppProfile, AppState,
    ConfigFields, DefaultSettings, DisplaySettings, GlobalSettings, HotkeyAction,
    GAMMA_ONE_BITS,
};

fn res(width: u32, height: u32, refresh_rate: u32) -> Resolution {
    Resolution { width, height, refresh_rate }
}

fn profile(exe: &str, name: &str, enabled: bool, hotkey: Option<&str>, default: Option<bool>) -> AppProfile {
    AppProfile {
        executable_name: exe.to_string(),
        friendly_name: name.to_string(),
        is_enabled: enabled,
        settings: vec![(
            "\\\\.\\DISPLAY1".to_string(),
            DisplaySettings { resolution: Some(res(1280, 720, 60)), vibrance: Some(80), gamma_bits: None },
        )],
        hotkey: hotkey.map(|h| h.to_string()),
        is_default: default,
    }
}

fn fresh_state() -> AppState {
    initial_state(load_config(None))
}

fn display(id: &str, vib: (i32, i32, i32)) -> DisplayInfo {
    DisplayInfo {
        id: id.to_string(),
        name: "Monitor".to_string(),
        is_primary: true,
        current_resolution: res(1920, 1080, 144),
        supported_resolutions: vec![res(1920, 1080, 144)],
        current_vibrance: vib.0,
        min_vibrance: vib.1,
        max_vibrance: vib.2,
    }
}

fn some_default() -> DefaultSettings {
    DefaultSettings { resolution: res(1920, 1080, 144), vibrance: 50, gamma_bits: GAMMA_ONE_BITS }
}

#[test]
fn missing_config_gives_defaults() {
    let c = load_config(None);
    assert!(c.profiles.is_empty());
    assert!(c.is_daemon_enabled);
    assert_eq!(c.reset_hotkey, "Ctrl+Alt+R");
    assert_eq!(c.daemon_hotkey, "Ctrl+Alt+D");
    assert_eq!(c.default_profile_name, None);
    assert!(!c.stealth_detection);
    let s = initial_state(c);
    assert!(s.system_defaults.is_empty());
    assert_eq!(s.active_profile, None);
    assert!(!s.active_is_manual);
    assert_eq!(s.hotkeys_thread_id, None);
}

#[test]
fn partial_config_fills_missing_fields() {
    let f = ConfigFields {
        profiles: None,
        is_daemon_enabled: Some(false),
        reset_hotkey: None,
        daemon_hotkey: Some("Ctrl+Shift+D".to_string()),
        default_profile_name: Some("Desk".to_string()),
        stealth_detection: None,
    };
    let c = load_config(Some(f));
    assert!(c.profiles.is_empty());
    assert!(!c.is_daemon_enabled);
    assert_eq!(c.reset_hotkey, "Ctrl+Alt+R");
    assert_eq!(c.daemon_hotkey, "Ctrl+Shift+D");
    assert_eq!(c.default_profile_name.as_deref(), Some("Desk"));
    assert!(!c.stealth_detection);
}

#[test]
fn saved_config_loads_back() {
    let mut s = fresh_state();
    save_profiles(&mut s, vec![profile("game.exe", "Game", true, Some("Ctrl+1"), Some(true))]);
    set_daemon_active(&mut s, false);
    let c = config_of(&s);
    let f = ConfigFields {
        profiles: Some(c.profiles.clone()),
        is_daemon_enabled: Some(c.is_daemon_enabled),
        reset_hotkey: Some(c.reset_hotkey.clone()),
        daemon_hotkey: Some(c.daemon_hotkey.clone()),
        default_profile_name: c.default_profile_name.clone(),
        stealth_detection: Some(c.stealth_detection),
    };
    let loaded: AppConfig = load_config(Some(f));
    assert_eq!(loaded, c);
    let next = initial_state(loaded);
    assert_eq!(next.profiles, s.profiles);
    assert!(!next.is_daemon_enabled);
    assert_eq!(next.default_profile_name.as_deref(), Some("Game"));
}

#[test]
fn saving_profiles_records_default_name() {
    let mut s = fresh_state();
    let ps = vec![
        profile("a.exe", "A", true, None, Some(false)),
        profile("b.exe", "B", true, None, Some(true)),
        profile("c.exe", "C", true, None, Some(true)),
    ];
    save_profiles(&mut s, ps.clone());
    assert_eq!(s.default_profile_name.as_deref(), Some("B"));
    assert_eq!(get_profiles(&s), ps);
    save_profiles(&mut s, vec![profile("a.exe", "A", true, None, None)]);
    assert_eq!(s.default_profile_name, None);
}

#[test]
fn global_settings_read_back() {
    let mut s = fresh_state();
    save_global_settings(
        &mut s,
        GlobalSettings { reset_hotkey: "Ctrl+F9".to_string(), daemon_hotkey: "Alt+D".to_string(), stealth_detection: true },
    );
    let g = get_global_settings(&s);
    assert_eq!(g.reset_hotkey, "Ctrl+F9");
    assert_eq!(g.daemon_hotkey, "Alt+D");
    assert!(g.stealth_detection);
}

#[test]
fn daemon_switch_reads_back() {
    let mut s = fresh_state();
    set_daemon_active(&mut s, false);
    assert!(!is_daemon_active(&s));
    set_daemon_active(&mut s, true);
    assert!(is_daemon_active(&s));
}

#[test]
fn capture_records_first_settings_only() {
    let mut ds: Vec<(String, DefaultSettings)> = Vec::new();
    let id = "\\\\.\\DISPLAY1".to_string();
    let displays = vec![display("\\\\.\\DISPLAY2", (0, 0, 63)), display(&id, (20, 0, 63))];
    assert!(!has_system_default(&ds, &id));
    capture_system_default(&mut ds, &id, &displays);
    assert_eq!(
        ds,
        vec![(id.clone(), DefaultSettings { resolution: res(1920, 1080, 144), vibrance: 31, gamma_bits: GAMMA_ONE_BITS })]
    );
    assert!(has_system_default(&ds, &id));
    let later = vec![display(&id, (63, 0, 63))];
    capture_system_default(&mut ds, &id, &later);
    assert_eq!(ds[0].1.vibrance, 31);
    assert_eq!(ds.len(), 1);
    let absent = "\\\\.\\DISPLAY9".to_string();
    capture_system_default(&mut ds, &absent, &displays);
    assert_eq!(ds.len(), 1);
}

#[test]
fn registrations_follow_ids_and_skip_unusable() {
    let mut s = fresh_state();
    save_profiles(
        &mut s,
        vec![
            profile("a.exe", "Alpha", true, Some("Ctrl+Alt+1"), None),
            profile("b.exe", "Beta", false, Some("Ctrl+Alt+2"), None),
            profile("c.exe", "Gamma", true, Some("Ctrl+Alt"), None),
            profile("d.exe", "Delta", true, Some("Shift+F3"), None),
            profile("e.exe", "Eps", true, None, None),
        ],
    );
    let regs = hotkey_registrations(&s);
    let summary: Vec<(i32, u32, u32, String)> = regs.iter().map(|r| (r.id, r.modifiers, r.vk, r.label.clone())).collect();
    assert_eq!(
        summary,
        vec![
            (1, 3, 0x52, "Reset (Ctrl+Alt+R)".to_string()),
            (2, 3, 0x44, "Daemon (Ctrl+Alt+D)".to_string()),
            (10, 3, 0x31, "Alpha (Ctrl+Alt+1)".to_string()),
            (13, 4, 0x72, "Delta (Shift+F3)".to_string()),
        ]
    );
}

#[test]
fn daemon_hotkey_toggles() {
    let mut s = fresh_state();
    assert_eq!(hotkey_pressed(&mut s, 2), HotkeyAction::DaemonToggled(false));
    assert!(!s.is_daemon_enabled);
    assert_eq!(hotkey_pressed(&mut s, 2), HotkeyAction::DaemonToggled(true));
    assert!(s.is_daemon_enabled);
}

#[test]
fn profile_hotkey_toggles_back_to_default_profile() {
    let mut s = fresh_state();
    save_profiles(&mut s, vec![profile("desk.exe", "Desk", true, None, Some(true)), profile("game.exe", "Game", true, Some("Ctrl+2"), None)]);
    assert_eq!(hotkey_pressed(&mut s, 11), HotkeyAction::ApplyProfile(1));
    assert_eq!(s.active_profile.as_deref(), Some("Game"));
    assert_eq!(hotkey_pressed(&mut s, 11), HotkeyAction::ApplyProfile(0));
    assert_eq!(s.active_profile.as_deref(), Some("Desk"));
    assert!(s.active_is_manual);
}

#[test]
fn profile_hotkey_toggles_back_to_system_defaults() {
    let mut s = fresh_state();
    save_profiles(&mut s, vec![profile("game.exe", "Game", true, Some("Ctrl+2"), None)]);
    assert_eq!(hotkey_pressed(&mut s, 10), HotkeyAction::ApplyProfile(0));
    s.system_defaults.push(("D1".to_string(), some_default()));
    assert_eq!(hotkey_pressed(&mut s, 10), HotkeyAction::RestoreSystemDefaults(vec![("D1".to_string(), some_default())]));
    assert_eq!(s.active_profile, None);
    assert!(!s.active_is_manual);
}

#[test]
fn reset_hotkey_and_unknown_ids() {
    let mut s = fresh_state();
    s.system_defaults.push(("D1".to_string(), some_default()));
    assert_eq!(hotkey_pressed(&mut s, 1), HotkeyAction::Reset(vec![("D1".to_string(), some_default())]));
    assert_eq!(s.system_defaults, vec![]);
    let before = s.clone();
    assert_eq!(hotkey_pressed(&mut s, 5), HotkeyAction::Nothing);
    assert_eq!(hotkey_pressed(&mut s, 10), HotkeyAction::Nothing);
    assert_eq!(hotkey_pressed(&mut s, -3), HotkeyAction::Nothing);
    assert_eq!(s, before);
}

#[test]
fn profile_applied_counts_retries() {
    assert!(profile_applied(&vec![]));
    assert!(profile_applied(&vec![
        DisplayAttempt { first_ok: true, retry_ok: None },
        DisplayAttempt { first_ok: false, retry_ok: Some(true) },
    ]));
    assert!(!profile_applied(&vec![
        DisplayAttempt { first_ok: true, retry_ok: None },
        DisplayAttempt { first_ok: false, retry_ok: Some(false) },
    ]));
}

#[test]
fn reset_restores_captured_settings_even_with_default_profile() {
    let mut s = fresh_state();
    save_profiles(&mut s, vec![profile("a.exe", "A", true, None, None), profile("b.exe", "Desk", true, None, Some(true))]);
    s.system_defaults.push(("D1".to_string(), some_default()));
    s.active_profile = Some("A".to_string());
    s.active_is_manual = true;
    let r = restore_baseline(&mut s);
    assert_eq!(r, vec![("D1".to_string(), some_default())]);
    assert!(s.system_defaults.is_empty());
    assert_eq!(get_active_profile(&s), None);
    assert!(!s.active_is_manual);
    assert_eq!(s.profiles.len(), 2);
    assert_eq!(restore_baseline(&mut s), vec![]);
}

#[test]
fn pinned_profile_stays_until_reset() {
    let mut s = fresh_state();
    save_profiles(&mut s, vec![profile("game.exe", "Game", true, Some("Ctrl+1"), None)]);
    assert_eq!(hotkey_pressed(&mut s, 10), HotkeyAction::ApplyProfile(0));
    assert!(s.active_is_manual);
    set_daemon_active(&mut s, false);
    assert_eq!(s.active_profile.as_deref(), Some("Game"));
    assert_eq!(hotkey_pressed(&mut s, 1), HotkeyAction::Reset(vec![]));
    assert_eq!(s.active_profile, None);
}

#[test]
fn all_succeeded_is_the_and() {
    assert!(all_succeeded(&vec![]));
    assert!(all_succeeded(&vec![true, true]));
    assert!(!all_succeeded(&vec![true, false, true]));
}
