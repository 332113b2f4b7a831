//! Properties that relate several operations on the application state.
use vstd::prelude::*;
use crate::state::{
    lemma_profile_entry, profile_registration, profile_registrations,
    is_default_profile, lemma_first_index_props,
    PROFILE_HOTKEY_BASE, hotkey_plan, lemma_profile_registration_ids, registration_of, word_daemon,
    AppConfig, AppProfile, AppState, DAEMON_HOTKEY_ID, RESET_HOTKEY_ID, DefaultSettings,
    GlobalSettings, HotkeyAction, HotkeyChoice, reverted,
    capture_result, config_loaded, config_matches_state, daemon_set, default_name_of, global_settings_of, global_settings_saved,
    has_default_for, hotkey_choice, hotkey_handled, is_active_name, profiles_saved,
    profiles_view, started_from, stored_fields,
};

verus! {

/// Saved global settings are read back unchanged, and saving them leaves the
/// profiles and the profile in force alone.
pub proof fn law_global_settings_read_back(
    old: AppState,
    new: AppState,
    g: GlobalSettings,
    r: GlobalSettings,
)
    requires
        global_settings_saved(old, new, g),
        global_settings_of(new, r),
    ensures
        r.reset_hotkey == g.reset_hotkey,
        r.daemon_hotkey == g.daemon_hotkey,
        r.stealth_detection == g.stealth_detection,
        new.profiles == old.profiles,
        new.active_profile == old.active_profile,
{
}

/// Saved profiles are read back with the same content, and the default
/// profile's name is that of the first profile marked default.
pub proof fn law_profiles_read_back(
    old: AppState,
    new: AppState,
    profiles: Vec<AppProfile>,
    r: Vec<AppProfile>,
)
    requires
        profiles_saved(old, new, profiles),
        profiles_view(r@) == profiles_view(new.profiles@),
    ensures
        profiles_view(r@) == profiles_view(profiles@),
        new.default_profile_name == default_name_of(profiles@),
{
}

/// Switching the daemon on or off is what the daemon state reads afterwards.
pub proof fn law_daemon_switch_read_back(old: AppState, new: AppState, active: bool)
    requires
        daemon_set(old, new, active),
    ensures
        new.is_daemon_enabled == active,
{
}

/// Pressing the daemon shortcut twice gives back the state before.
pub proof fn law_daemon_hotkey_twice(
    s0: AppState,
    s1: AppState,
    s2: AppState,
    r1: HotkeyAction,
    r2: HotkeyAction,
)
    requires
        hotkey_handled(s0, s1, DAEMON_HOTKEY_ID, r1),
        hotkey_handled(s1, s2, DAEMON_HOTKEY_ID, r2),
    ensures
        s2 == s0,
        r1 == HotkeyAction::DaemonToggled(!s0.is_daemon_enabled),
        r2 == HotkeyAction::DaemonToggled(s0.is_daemon_enabled),
{
}

/// Pressing the shortcut of the profile in force again leaves it: the state
/// goes back to the default profile or the captured defaults.
pub proof fn law_profile_hotkey_toggles(s: AppState, new: AppState, id: i32, r: HotkeyAction)
    requires
        hotkey_choice(s, id) is Pin,
        hotkey_handled(s, new, id, r),
    ensures
        hotkey_choice(new, id) is RevertToDefault || hotkey_choice(new, id) is RevertToSystem,
{
    let i = choose|i: usize| hotkey_choice(s, id) == HotkeyChoice::Pin(i);
    assert(new.profiles@ == s.profiles@);
    assert(is_active_name(new, new.profiles@[i as int].friendly_name@));
}

/// Resetting hands back every captured default for restoring and leaves none,
/// and no profile in force, whatever profiles exist; a second reset then has
/// nothing left to restore.
pub proof fn law_reset_outcome(
    s: AppState,
    new: AppState,
    r: Seq<(String, DefaultSettings)>,
    new2: AppState,
    r2: Seq<(String, DefaultSettings)>,
)
    requires
        r == s.system_defaults@,
        reverted(s, new),
        r2 == new.system_defaults@,
        reverted(new, new2),
    ensures
        new.system_defaults@.len() == 0,
        new.active_profile is None,
        !new.active_is_manual,
        new.profiles == s.profiles,
        r2.len() == 0,
        new2.system_defaults@.len() == 0,
{
}

/// Pressing the reset shortcut resets as the reset command does.
pub proof fn law_reset_hotkey_resets(s: AppState, new: AppState, r: HotkeyAction)
    requires
        hotkey_handled(s, new, RESET_HOTKEY_ID, r),
    ensures
        r matches HotkeyAction::Reset(d) && d@ == s.system_defaults@,
        reverted(s, new),
{
}

/// Once a display's defaults are captured they do not change until they are
/// restored: a later capture for the same display keeps the first one.
pub proof fn law_capture_keeps_first(
    ds: Seq<(String, DefaultSettings)>,
    id: String,
    first: Seq<crate::display::DisplayInfo>,
    later: Seq<crate::display::DisplayInfo>,
)
    requires
        has_default_for(capture_result(ds, id, first), id@),
    ensures
        capture_result(capture_result(ds, id, first), id, later) == capture_result(ds, id, first),
{
}

/// What is saved to the configuration file is what the next start loads: the
/// started state has the saved profiles, daemon switch, hotkeys, default
/// profile name and detection mode.
pub proof fn law_config_round_trip(s: AppState, c: AppConfig, loaded: AppConfig, next: AppState)
    requires
        config_matches_state(c, s),
        config_loaded(Some(stored_fields(c)), loaded),
        started_from(loaded, next),
    ensures
        loaded == c,
        profiles_view(next.profiles@) == profiles_view(s.profiles@),
        next.is_daemon_enabled == s.is_daemon_enabled,
        next.reset_hotkey == s.reset_hotkey,
        next.daemon_hotkey == s.daemon_hotkey,
        next.default_profile_name == s.default_profile_name,
        next.stealth_detection == s.stealth_detection,
{
}

/// Pressing the shortcut of a profile whose name is not the one in force (no
/// profile is in force, or another one is) applies that profile and pins it:
/// the other profile is left, not reverted. Going back to the default profile
/// or to the captured defaults happens only when the pressed profile's own
/// name is in force.
pub proof fn law_profile_hotkey_switches(s: AppState, new: AppState, idx: int, r: HotkeyAction)
    requires
        0 <= idx < s.profiles@.len(),
        PROFILE_HOTKEY_BASE + idx <= i32::MAX,
        !(s.active_profile matches Some(a) && a@ == s.profiles@[idx].friendly_name@),
        hotkey_handled(s, new, (PROFILE_HOTKEY_BASE + idx) as i32, r),
    ensures
        r == HotkeyAction::ApplyProfile(idx as usize),
        new.active_profile == Some(s.profiles@[idx].friendly_name),
        new.active_is_manual,
        new.profiles == s.profiles,
        new.system_defaults == s.system_defaults,
{
}

/// Which hotkeys are registered does not depend on whether the daemon is on:
/// two states that differ only in the daemon switch register the same list,
/// and the daemon shortcut (id 2) is in it exactly when its text names a key,
/// with that key and those modifiers.
pub proof fn law_daemon_shortcut_always_registered(s: AppState, t: AppState)
    requires
        daemon_set(s, t, t.is_daemon_enabled),
        s.profiles@.len() <= i32::MAX - PROFILE_HOTKEY_BASE,
    ensures
        hotkey_plan(t) == hotkey_plan(s),
        (exists|i: int| 0 <= i < hotkey_plan(s).len() && #[trigger] hotkey_plan(s)[i].id
            == DAEMON_HOTKEY_ID) <==> crate::hotkey::hotkey_of(s.daemon_hotkey@) is Some,
        forall|i: int|
            0 <= i < hotkey_plan(s).len() && #[trigger] hotkey_plan(s)[i].id == DAEMON_HOTKEY_ID
                ==> Some((hotkey_plan(s)[i].modifiers, hotkey_plan(s)[i].vk))
                == crate::hotkey::hotkey_of(s.daemon_hotkey@),
{
    lemma_profile_registration_ids(s.profiles@, s.profiles@.len() as int);
    let v = hotkey_plan(s);
    let r1 = registration_of(RESET_HOTKEY_ID, crate::state::word_reset(), s.reset_hotkey@);
    let r2 = registration_of(DAEMON_HOTKEY_ID, word_daemon(), s.daemon_hotkey@);
    let p = crate::state::profile_registrations(s.profiles@, s.profiles@.len() as int);
    assert(v == r1 + r2 + p);
    let l1 = r1.len() as int;
    assert forall|i: int| 0 <= i < v.len() && #[trigger] v[i].id == DAEMON_HOTKEY_ID implies l1
        <= i < l1 + r2.len() && v[i] == r2[i - l1] by {
        if i < l1 {
            assert(v[i] == r1[i]);
        } else if i >= l1 + r2.len() {
            assert(v[i] == p[i - l1 - r2.len()]);
        } else {
            assert(v[i] == r2[i - l1]);
        }
    }
    if crate::hotkey::hotkey_of(s.daemon_hotkey@) is Some {
        assert(v[l1] == r2[0]);
        assert(v[l1].id == DAEMON_HOTKEY_ID);
    }
}

/// Pressing the shortcut of the profile in force leaves it: when some profile
/// is marked default, the first one marked so is applied and pinned; when none
/// is, every captured default is handed back for restoring, none stay, and no
/// profile is in force.
pub proof fn law_profile_hotkey_reverts(s: AppState, new: AppState, idx: int, r: HotkeyAction)
    requires
        0 <= idx < s.profiles@.len(),
        PROFILE_HOTKEY_BASE + idx <= i32::MAX,
        s.active_profile matches Some(a) && a@ == s.profiles@[idx].friendly_name@,
        hotkey_handled(s, new, (PROFILE_HOTKEY_BASE + idx) as i32, r),
    ensures
        (exists|d: int| 0 <= d < s.profiles@.len() && #[trigger] s.profiles@[d].is_default == Some(true))
            ==> (r matches HotkeyAction::ApplyProfile(d) && d < s.profiles@.len()
            && s.profiles@[d as int].is_default == Some(true)
            && (forall|j: int| 0 <= j < d ==> #[trigger] s.profiles@[j].is_default != Some(true))
            && new.active_profile == Some(s.profiles@[d as int].friendly_name)
            && new.active_is_manual),
        !(exists|d: int| 0 <= d < s.profiles@.len() && #[trigger] s.profiles@[d].is_default == Some(true))
            ==> (r matches HotkeyAction::RestoreSystemDefaults(v) && v@ == s.system_defaults@
            && new.system_defaults@.len() == 0 && new.active_profile is None),
        new.profiles == s.profiles,
{
    let ps = s.profiles@;
    let pred = |p: AppProfile| is_default_profile(p);
    lemma_first_index_props(ps, pred);
    if exists|d: int| 0 <= d < ps.len() && #[trigger] ps[d].is_default == Some(true) {
        let w = choose|d: int| 0 <= d < ps.len() && #[trigger] ps[d].is_default == Some(true);
        assert(pred(ps[w]));
        let i = crate::state::first_default(ps).unwrap();
        assert(pred(ps[i]));
        assert forall|j: int| 0 <= j < i implies #[trigger] ps[j].is_default != Some(true) by {
            assert(!pred(ps[j]));
        }
        let id = (PROFILE_HOTKEY_BASE + idx) as i32;
        assert(id - PROFILE_HOTKEY_BASE == idx);
        assert(is_active_name(s, ps[idx].friendly_name@));
        assert(hotkey_choice(s, id) == HotkeyChoice::RevertToDefault(i as usize));
        assert(r == HotkeyAction::ApplyProfile(i as usize));
        assert(s.profiles.len() == ps.len());
        assert((i as usize) as int == i);
    } else {
        if let Some(i) = crate::state::first_default(ps) {
            assert(pred(ps[i]));
            assert(ps[i].is_default == Some(true));
        }
    }
}

/// Pressing an id that is neither the reset shortcut (1), nor the daemon
/// shortcut (2), nor the shortcut of a listed profile (10 plus its index) does
/// nothing and changes nothing.
pub proof fn law_unknown_hotkey_does_nothing(s: AppState, new: AppState, id: i32, r: HotkeyAction)
    requires
        id != RESET_HOTKEY_ID,
        id != DAEMON_HOTKEY_ID,
        id < PROFILE_HOTKEY_BASE || id - PROFILE_HOTKEY_BASE >= s.profiles@.len(),
        hotkey_handled(s, new, id, r),
    ensures
        r == HotkeyAction::Nothing,
        new == s,
{
}

/// The registered hotkeys hold the reset shortcut (id 1) exactly when its text
/// names a key, and the shortcut of the profile at `idx` (id 10 plus `idx`)
/// exactly when that profile is enabled and its shortcut names a key; each
/// with that key, those modifiers, and the label `name (shortcut)`.
pub proof fn law_hotkey_plan_entries(s: AppState, idx: int)
    requires
        0 <= idx < s.profiles@.len(),
        s.profiles@.len() <= i32::MAX - PROFILE_HOTKEY_BASE,
    ensures
        (exists|i: int| 0 <= i < hotkey_plan(s).len() && #[trigger] hotkey_plan(s)[i].id
            == RESET_HOTKEY_ID) <==> crate::hotkey::hotkey_of(s.reset_hotkey@) is Some,
        forall|i: int|
            0 <= i < hotkey_plan(s).len() && #[trigger] hotkey_plan(s)[i].id == RESET_HOTKEY_ID
                ==> Some((hotkey_plan(s)[i].modifiers, hotkey_plan(s)[i].vk))
                == crate::hotkey::hotkey_of(s.reset_hotkey@),
        (exists|i: int| 0 <= i < hotkey_plan(s).len() && #[trigger] hotkey_plan(s)[i].id
            == PROFILE_HOTKEY_BASE + idx) <==> (s.profiles@[idx].is_enabled
            && (match s.profiles@[idx].hotkey {
            Some(h) => crate::hotkey::hotkey_of(h@) is Some,
            None => false,
        })),
        forall|i: int|
            0 <= i < hotkey_plan(s).len() && #[trigger] hotkey_plan(s)[i].id == PROFILE_HOTKEY_BASE
                + idx ==> (match s.profiles@[idx].hotkey {
                Some(h) => Some((hotkey_plan(s)[i].modifiers, hotkey_plan(s)[i].vk))
                    == crate::hotkey::hotkey_of(h@) && hotkey_plan(s)[i].label
                    == s.profiles@[idx].friendly_name@ + seq![' ', '('] + h@ + seq![')'],
                None => false,
            }),
{
    let ps = s.profiles@;
    let n = ps.len() as int;
    lemma_profile_registration_ids(ps, n);
    lemma_profile_entry(ps, n, idx);
    let v = hotkey_plan(s);
    let r1 = registration_of(RESET_HOTKEY_ID, crate::state::word_reset(), s.reset_hotkey@);
    let r2 = registration_of(DAEMON_HOTKEY_ID, word_daemon(), s.daemon_hotkey@);
    let p = profile_registrations(ps, n);
    assert(v == r1 + r2 + p);
    let l1 = r1.len() as int;
    let l2 = r2.len() as int;
    assert forall|i: int| 0 <= i < v.len() && #[trigger] v[i].id == RESET_HOTKEY_ID implies i < l1
        && v[i] == r1[i] by {
        if i >= l1 + l2 {
            assert(v[i] == p[i - l1 - l2]);
        } else if i >= l1 {
            assert(v[i] == r2[i - l1]);
        } else {
            assert(v[i] == r1[i]);
        }
    }
    if crate::hotkey::hotkey_of(s.reset_hotkey@) is Some {
        assert(v[0] == r1[0]);
        assert(v[0].id == RESET_HOTKEY_ID);
    }
    if exists|i: int| 0 <= i < v.len() && #[trigger] v[i].id == RESET_HOTKEY_ID {
        let i = choose|i: int| 0 <= i < v.len() && #[trigger] v[i].id == RESET_HOTKEY_ID;
        assert(i < l1);
    }
    assert forall|i: int| 0 <= i < v.len() && #[trigger] v[i].id == PROFILE_HOTKEY_BASE + idx implies i
        >= l1 + l2 && v[i] == p[i - l1 - l2] by {
        if i < l1 {
            assert(v[i] == r1[i]);
        } else if i < l1 + l2 {
            assert(v[i] == r2[i - l1]);
        } else {
            assert(v[i] == p[i - l1 - l2]);
        }
    }
    let e = profile_registration(ps[idx], idx);
    if e.len() == 1 {
        let j = choose|j: int| 0 <= j < p.len() && #[trigger] p[j] == e[0];
        assert(v[l1 + l2 + j] == p[j]);
        assert(e[0].id == PROFILE_HOTKEY_BASE + idx);
        assert(v[l1 + l2 + j].id == PROFILE_HOTKEY_BASE + idx);
    }
    if exists|i: int| 0 <= i < v.len() && #[trigger] v[i].id == PROFILE_HOTKEY_BASE + idx {
        let i = choose|i: int| 0 <= i < v.len() && #[trigger] v[i].id == PROFILE_HOTKEY_BASE + idx;
        assert(p[i - l1 - l2].id == PROFILE_HOTKEY_BASE + idx);
    }
}

} // verus!
