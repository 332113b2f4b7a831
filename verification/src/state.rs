//! Profiles, the application state, and the decisions that change it: saving
//! settings, resetting the displays, and hotkeys. Profiles are applied only
//! on demand: by a hotkey, the tray or a command of the window.
use vstd::prelude::*;
use crate::display::{
    DisplayInfo, Resolution, vibrance_percent, vibrance_percent_fits, vibrance_percent_of,
};

verus! {

/// The IEEE-754 single-precision bit pattern of a gamma of 1.0, which leaves
/// the gamma ramp linear.
pub const GAMMA_ONE_BITS: u32 = 0x3F80_0000;

/// What a profile sets on one display; each part is optional. The gamma is
/// held as the bit pattern of its `f32` value.
#[derive(Clone, Copy, Debug, PartialEq, Eq, Structural)]
pub struct DisplaySettings {
    pub resolution: Option<Resolution>,
    /// Vibrance in percent, 0 to 100.
    pub vibrance: Option<i32>,
    /// `f32::to_bits` of the gamma, 0.5 to 3.0.
    pub gamma_bits: Option<u32>,
}

/// A display profile: settings per display id, matched to a program by its
/// executable name or applied by its hotkey.
#[derive(Clone, Debug, PartialEq)]
pub struct AppProfile {
    pub executable_name: String,
    pub friendly_name: String,
    pub is_enabled: bool,
    /// Display id and the settings for that display.
    pub settings: Vec<(String, DisplaySettings)>,
    pub hotkey: Option<String>,
    pub is_default: Option<bool>,
}

/// The abstract value of a profile: its texts as character sequences.
#[verifier::ext_equal]
pub struct ProfileView {
    pub executable_name: Seq<char>,
    pub friendly_name: Seq<char>,
    pub is_enabled: bool,
    pub settings: Seq<(Seq<char>, DisplaySettings)>,
    pub hotkey: Option<Seq<char>>,
    pub is_default: Option<bool>,
}

pub open spec fn option_text(o: Option<String>) -> Option<Seq<char>> {
    match o {
        Some(s) => Some(s@),
        None => None,
    }
}

pub open spec fn settings_view(v: Seq<(String, DisplaySettings)>) -> Seq<(Seq<char>, DisplaySettings)> {
    v.map_values(|e: (String, DisplaySettings)| (e.0@, e.1))
}

impl View for AppProfile {
    type V = ProfileView;

    open spec fn view(&self) -> ProfileView {
        ProfileView {
            executable_name: self.executable_name@,
            friendly_name: self.friendly_name@,
            is_enabled: self.is_enabled,
            settings: settings_view(self.settings@),
            hotkey: option_text(self.hotkey),
            is_default: self.is_default,
        }
    }
}

/// The abstract values of a list of profiles.
pub open spec fn profiles_view(ps: Seq<AppProfile>) -> Seq<ProfileView> {
    ps.map_values(|p: AppProfile| p@)
}

/// The settings a display had before the first profile touched it.
#[derive(Clone, Copy, Debug, PartialEq, Eq, Structural)]
pub struct DefaultSettings {
    pub resolution: Resolution,
    pub vibrance: i32,
    /// `f32::to_bits` of the gamma.
    pub gamma_bits: u32,
}

/// The settings that the settings page edits.
#[derive(Clone, Debug, PartialEq)]
pub struct GlobalSettings {
    pub reset_hotkey: String,
    pub daemon_hotkey: String,
    pub stealth_detection: bool,
}

/// Everything the configuration file stores.
#[derive(Clone, Debug, PartialEq)]
pub struct AppConfig {
    pub profiles: Vec<AppProfile>,
    pub is_daemon_enabled: bool,
    pub reset_hotkey: String,
    pub daemon_hotkey: String,
    pub default_profile_name: Option<String>,
    pub stealth_detection: bool,
}

/// The fields read from a configuration file: each is `None` when the file
/// lacks it or holds it with another type.
#[derive(Clone, Debug, PartialEq)]
pub struct ConfigFields {
    pub profiles: Option<Vec<AppProfile>>,
    pub is_daemon_enabled: Option<bool>,
    pub reset_hotkey: Option<String>,
    pub daemon_hotkey: Option<String>,
    pub default_profile_name: Option<String>,
    pub stealth_detection: Option<bool>,
}

/// The state of the running application.
#[derive(Clone, Debug, PartialEq)]
pub struct AppState {
    pub profiles: Vec<AppProfile>,
    pub is_daemon_enabled: bool,
    pub reset_hotkey: String,
    pub daemon_hotkey: String,
    pub default_profile_name: Option<String>,
    /// Captured settings per display id, each id at most once.
    pub system_defaults: Vec<(String, DefaultSettings)>,
    /// The friendly name of the profile that a hotkey put in force; a reset
    /// clears it.
    pub active_profile: Option<String>,
    /// The profile in force was pinned by a hotkey.
    pub active_is_manual: bool,
    /// Saved with the configuration; no operation reads it.
    pub stealth_detection: bool,
    pub hotkeys_thread_id: Option<u32>,
}

/// The display ids of a profile's settings are distinct, as the keys of a map are.
pub open spec fn settings_ids_distinct(v: Seq<(String, DisplaySettings)>) -> bool {
    forall|i: int, j: int| 0 <= i < j < v.len() ==> v[i].0@ != v[j].0@
}

/// Every profile sets each display at most once.
pub open spec fn profiles_wf(ps: Seq<AppProfile>) -> bool {
    forall|i: int| 0 <= i < ps.len() ==> settings_ids_distinct(#[trigger] ps[i].settings@)
}

impl AppState {
    /// Each display id occurs at most once among the captured defaults and
    /// among each profile's settings.
    pub open spec fn wf(&self) -> bool {
        &&& default_ids_distinct(self.system_defaults@)
        &&& profiles_wf(self.profiles@)
    }
}

fn copy_string_option(o: &Option<String>) -> (r: Option<String>)
    ensures
        r == *o,
{
    match o {
        Some(s) => Some(s.clone()),
        None => None,
    }
}

fn copy_settings(v: &Vec<(String, DisplaySettings)>) -> (r: Vec<(String, DisplaySettings)>)
    ensures
        r@ == v@,
{
    let mut r: Vec<(String, DisplaySettings)> = Vec::new();
    let n = v.len();
    for i in 0..n
        invariant
            n == v@.len(),
            r@ == v@.take(i as int),
    {
        let (k, s) = &v[i];
        r.push((k.clone(), *s));
        assert(v@.take(i + 1) =~= v@.take(i as int).push(v@[i as int]));
    }
    assert(v@.take(n as int) =~= v@);
    r
}

/// A copy of a profile.
pub fn copy_profile(p: &AppProfile) -> (r: AppProfile)
    ensures
        r@ == p@,
{
    AppProfile {
        executable_name: p.executable_name.clone(),
        friendly_name: p.friendly_name.clone(),
        is_enabled: p.is_enabled,
        settings: copy_settings(&p.settings),
        hotkey: copy_string_option(&p.hotkey),
        is_default: p.is_default,
    }
}

/// A copy of a list of profiles.
pub fn copy_profiles(v: &Vec<AppProfile>) -> (r: Vec<AppProfile>)
    ensures
        profiles_view(r@) == profiles_view(v@),
{
    let mut r: Vec<AppProfile> = Vec::new();
    let n = v.len();
    for i in 0..n
        invariant
            n == v@.len(),
            profiles_view(r@) == profiles_view(v@.take(i as int)),
    {
        let p = copy_profile(&v[i]);
        let ghost before = r@;
        r.push(p);
        assert(profiles_view(r@) =~= profiles_view(before).push(p@));
        assert(v@.take(i + 1) =~= v@.take(i as int).push(v@[i as int]));
        assert(profiles_view(v@.take(i + 1)) =~= profiles_view(v@.take(i as int)).push(v@[i as int]@));
    }
    assert(v@.take(n as int) =~= v@);
    r
}

pub open spec fn is_default_profile(p: AppProfile) -> bool {
    p.is_default == Some(true)
}

/// The index of the first element that satisfies `pred`.
pub open spec fn first_index<T>(ps: Seq<T>, pred: spec_fn(T) -> bool) -> Option<int>
    decreases ps.len(),
{
    if ps.len() == 0 {
        None
    } else if pred(ps[0]) {
        Some(0)
    } else {
        match first_index(ps.drop_first(), pred) {
            Some(i) => Some(i + 1),
            None => None,
        }
    }
}

proof fn lemma_first_index<T>(ps: Seq<T>, pred: spec_fn(T) -> bool, i: int)
    requires
        0 <= i <= ps.len(),
        forall|j: int| 0 <= j < i ==> !pred(ps[j]),
        i == ps.len() || pred(ps[i]),
    ensures
        first_index(ps, pred) == (if i == ps.len() {
            None
        } else {
            Some(i)
        }),
    decreases i,
{
    if i > 0 {
        lemma_first_index(ps.drop_first(), pred, i - 1);
    }
}

pub proof fn lemma_first_index_props<T>(ps: Seq<T>, pred: spec_fn(T) -> bool)
    ensures
        first_index(ps, pred) matches Some(i) ==> 0 <= i < ps.len() && pred(ps[i]) && forall|
            j: int,
        |
            0 <= j < i ==> !pred(ps[j]),
        first_index(ps, pred) is None ==> forall|j: int| 0 <= j < ps.len() ==> !pred(ps[j]),
    decreases ps.len(),
{
    if ps.len() > 0 {
        lemma_first_index_props(ps.drop_first(), pred);
        if !pred(ps[0]) {
            assert forall|j: int| 0 <= j < ps.len() && first_index(ps, pred) is None implies !pred(
                ps[j],
            ) by {
                if j > 0 {
                    assert(ps[j] == ps.drop_first()[j - 1]);
                }
            }
            if let Some(i) = first_index(ps, pred) {
                assert forall|j: int| 0 <= j < i implies !pred(ps[j]) by {
                    if j > 0 {
                        assert(ps[j] == ps.drop_first()[j - 1]);
                    }
                }
            }
        }
    }
}

/// The first profile marked as the default one.
pub open spec fn first_default(ps: Seq<AppProfile>) -> Option<int> {
    first_index(ps, |p: AppProfile| is_default_profile(p))
}

/// The name that the designated default profile goes by: the friendly name of
/// the first profile marked default.
pub open spec fn default_name_of(ps: Seq<AppProfile>) -> Option<String> {
    match first_default(ps) {
        Some(i) => Some(ps[i].friendly_name),
        None => None,
    }
}

/// Finds the first profile marked as the default one.
pub fn find_default_profile(profiles: &Vec<AppProfile>) -> (r: Option<usize>)
    ensures
        match r {
            Some(i) => first_default(profiles@) == Some(i as int),
            None => first_default(profiles@) is None,
        },
{
    let n = profiles.len();
    for i in 0..n
        invariant
            n == profiles@.len(),
            forall|j: int| 0 <= j < i ==> !is_default_profile(profiles@[j]),
    {
        let d = match profiles[i].is_default {
            Some(b) => b,
            None => false,
        };
        if d {
            proof {
                lemma_first_index(profiles@, |p: AppProfile| is_default_profile(p), i as int);
            }
            return Some(i);
        }
    }
    proof {
        lemma_first_index(profiles@, |p: AppProfile| is_default_profile(p), n as int);
    }
    None
}

/// `new` is `old` with the profiles replaced by `profiles` and the default
/// profile's name recorded.
pub open spec fn profiles_saved(old: AppState, new: AppState, profiles: Vec<AppProfile>) -> bool {
    &&& new.profiles@ == profiles@
    &&& new.default_profile_name == default_name_of(profiles@)
    &&& new.is_daemon_enabled == old.is_daemon_enabled
    &&& new.reset_hotkey == old.reset_hotkey
    &&& new.daemon_hotkey == old.daemon_hotkey
    &&& new.system_defaults == old.system_defaults
    &&& new.active_profile == old.active_profile
    &&& new.active_is_manual == old.active_is_manual
    &&& new.stealth_detection == old.stealth_detection
    &&& new.hotkeys_thread_id == old.hotkeys_thread_id
}

/// `r` holds the hotkeys and the detection mode of `s`.
pub open spec fn global_settings_of(s: AppState, r: GlobalSettings) -> bool {
    &&& r.reset_hotkey == s.reset_hotkey
    &&& r.daemon_hotkey == s.daemon_hotkey
    &&& r.stealth_detection == s.stealth_detection
}

/// `new` is `old` with the hotkeys and the detection mode of `g`.
pub open spec fn global_settings_saved(old: AppState, new: AppState, g: GlobalSettings) -> bool {
    &&& new.reset_hotkey == g.reset_hotkey
    &&& new.daemon_hotkey == g.daemon_hotkey
    &&& new.stealth_detection == g.stealth_detection
    &&& new.profiles == old.profiles
    &&& new.is_daemon_enabled == old.is_daemon_enabled
    &&& new.default_profile_name == old.default_profile_name
    &&& new.system_defaults == old.system_defaults
    &&& new.active_profile == old.active_profile
    &&& new.active_is_manual == old.active_is_manual
    &&& new.hotkeys_thread_id == old.hotkeys_thread_id
}

/// The profiles of the state.
pub fn get_profiles(s: &AppState) -> (r: Vec<AppProfile>)
    ensures
        profiles_view(r@) == profiles_view(s.profiles@),
{
    copy_profiles(&s.profiles)
}

/// Replaces the profiles and records the name of the designated default one.
pub fn save_profiles(s: &mut AppState, profiles: Vec<AppProfile>)
    ensures
        profiles_saved(*old(s), *final(s), profiles),
        old(s).wf() && profiles_wf(profiles@) ==> final(s).wf(),
{
    proof {
        lemma_first_index_props(profiles@, |p: AppProfile| is_default_profile(p));
    }
    s.default_profile_name = match find_default_profile(&profiles) {
        Some(i) => Some(profiles[i].friendly_name.clone()),
        None => None,
    };
    s.profiles = profiles;
}

/// The hotkeys and the detection mode of the state.
pub fn get_global_settings(s: &AppState) -> (r: GlobalSettings)
    ensures
        global_settings_of(*s, r),
{
    GlobalSettings {
        reset_hotkey: s.reset_hotkey.clone(),
        daemon_hotkey: s.daemon_hotkey.clone(),
        stealth_detection: s.stealth_detection,
    }
}

/// Sets the hotkeys and the detection mode.
pub fn save_global_settings(s: &mut AppState, settings: GlobalSettings)
    ensures
        global_settings_saved(*old(s), *final(s), settings),
        old(s).wf() ==> final(s).wf(),
{
    s.reset_hotkey = settings.reset_hotkey;
    s.daemon_hotkey = settings.daemon_hotkey;
    s.stealth_detection = settings.stealth_detection;
}

/// Whether the daemon switch is on (saved with the configuration).
pub fn is_daemon_active(s: &AppState) -> (r: bool)
    ensures
        r == s.is_daemon_enabled,
{
    s.is_daemon_enabled
}

/// Sets the daemon switch (saved with the configuration).
pub fn set_daemon_active(s: &mut AppState, active: bool)
    ensures
        daemon_set(*old(s), *final(s), active),
        old(s).wf() ==> final(s).wf(),
{
    s.is_daemon_enabled = active;
}

/// The profile in force, if any.
pub fn get_active_profile(s: &AppState) -> (r: Option<String>)
    ensures
        r == s.active_profile,
{
    copy_string_option(&s.active_profile)
}

/// The fields that only the settings commands change are the same.
pub open spec fn keeps_config(old: AppState, new: AppState) -> bool {
    &&& new.profiles == old.profiles
    &&& new.is_daemon_enabled == old.is_daemon_enabled
    &&& new.reset_hotkey == old.reset_hotkey
    &&& new.daemon_hotkey == old.daemon_hotkey
    &&& new.default_profile_name == old.default_profile_name
    &&& new.stealth_detection == old.stealth_detection
    &&& new.hotkeys_thread_id == old.hotkeys_thread_id
}

/// `new` is `old` with the named profile pinned by a hotkey.
pub open spec fn pinned_to(old: AppState, new: AppState, name: String) -> bool {
    &&& keeps_config(old, new)
    &&& new.system_defaults == old.system_defaults
    &&& new.active_profile == Some(name)
    &&& new.active_is_manual
}

/// `new` is `old` after the captured system defaults were restored: none are
/// left, and no profile is in force.
pub open spec fn reverted(old: AppState, new: AppState) -> bool {
    &&& keeps_config(old, new)
    &&& new.system_defaults@.len() == 0
    &&& new.active_profile is None
    &&& !new.active_is_manual
}

/// Each display id occurs at most once among the captured defaults.
pub open spec fn default_ids_distinct(ds: Seq<(String, DefaultSettings)>) -> bool {
    forall|i: int, j: int| 0 <= i < j < ds.len() ==> ds[i].0@ != ds[j].0@
}

pub open spec fn has_default_for(ds: Seq<(String, DefaultSettings)>, id: Seq<char>) -> bool {
    exists|i: int| 0 <= i < ds.len() && #[trigger] ds[i].0@ == id
}

/// The first display with the given id.
pub open spec fn display_with_id(displays: Seq<DisplayInfo>, id: Seq<char>) -> Option<int> {
    first_index(displays, |d: DisplayInfo| d.id@ == id)
}

/// The settings a display has now, as captured before a profile changes them:
/// its current mode, its vibrance as a percentage, and a linear gamma.
pub open spec fn captured_defaults(d: DisplayInfo) -> DefaultSettings {
    DefaultSettings {
        resolution: d.current_resolution,
        vibrance: vibrance_percent_of(
            d.current_vibrance as int,
            d.min_vibrance as int,
            d.max_vibrance as int,
        ) as i32,
        gamma_bits: GAMMA_ONE_BITS,
    }
}

/// The captured defaults after a profile touches display `id`: unchanged when
/// that display already has some or is not among `displays`; otherwise with
/// the display's current settings added.
pub open spec fn capture_result(
    ds: Seq<(String, DefaultSettings)>,
    id: String,
    displays: Seq<DisplayInfo>,
) -> Seq<(String, DefaultSettings)> {
    if has_default_for(ds, id@) {
        ds
    } else {
        match display_with_id(displays, id@) {
            Some(k) => ds.push((id, captured_defaults(displays[k]))),
            None => ds,
        }
    }
}

/// Capturing a display's defaults computes without overflow.
pub open spec fn capture_fits(
    ds: Seq<(String, DefaultSettings)>,
    id: Seq<char>,
    displays: Seq<DisplayInfo>,
) -> bool {
    !has_default_for(ds, id) ==> (display_with_id(displays, id) matches Some(k)
        ==> vibrance_percent_fits(
        displays[k].current_vibrance,
        displays[k].min_vibrance,
        displays[k].max_vibrance,
    ))
}

/// Whether defaults were captured for the display.
pub fn has_system_default(ds: &Vec<(String, DefaultSettings)>, display_id: &String) -> (r: bool)
    ensures
        r == has_default_for(ds@, display_id@),
{
    let n = ds.len();
    for i in 0..n
        invariant
            n == ds@.len(),
            forall|j: int| 0 <= j < i ==> ds@[j].0@ != display_id@,
    {
        if ds[i].0 == *display_id {
            assert(ds@[i as int].0@ == display_id@);
            return true;
        }
    }
    false
}

fn find_display(displays: &Vec<DisplayInfo>, display_id: &String) -> (r: Option<usize>)
    ensures
        match r {
            Some(k) => display_with_id(displays@, display_id@) == Some(k as int),
            None => display_with_id(displays@, display_id@) is None,
        },
{
    let n = displays.len();
    let ghost pred = |d: DisplayInfo| d.id@ == display_id@;
    for i in 0..n
        invariant
            n == displays@.len(),
            pred == (|d: DisplayInfo| d.id@ == display_id@),
            forall|j: int| 0 <= j < i ==> !pred(displays@[j]),
    {
        if displays[i].id == *display_id {
            proof {
                lemma_first_index(displays@, pred, i as int);
            }
            return Some(i);
        }
    }
    proof {
        lemma_first_index(displays@, pred, n as int);
    }
    None
}

/// Records the settings a display has before a profile changes it, unless
/// they were recorded already: its current mode, its vibrance converted to a
/// percentage, and a gamma of 1.0. A display that is not connected gets none.
pub fn capture_system_default(
    system_defaults: &mut Vec<(String, DefaultSettings)>,
    display_id: &String,
    displays: &Vec<DisplayInfo>,
)
    requires
        capture_fits(old(system_defaults)@, display_id@, displays@),
    ensures
        final(system_defaults)@ == capture_result(old(system_defaults)@, *display_id, displays@),
        default_ids_distinct(old(system_defaults)@) ==> default_ids_distinct(
            final(system_defaults)@,
        ),
{
    if has_system_default(system_defaults, display_id) {
        return;
    }
    proof {
        lemma_first_index_props(displays@, |d: DisplayInfo| d.id@ == display_id@);
    }
    match find_display(displays, display_id) {
        Some(k) => {
            let d = &displays[k];
            let pct = vibrance_percent(d.current_vibrance, d.min_vibrance, d.max_vibrance);
            let ghost before = system_defaults@;
            system_defaults.push(
                (
                    display_id.clone(),
                    DefaultSettings {
                        resolution: d.current_resolution,
                        vibrance: pct,
                        gamma_bits: GAMMA_ONE_BITS,
                    },
                ),
            );
            assert forall|i: int, j: int|
                default_ids_distinct(before) && 0 <= i < j < system_defaults@.len() implies #[trigger] system_defaults@[i].0@
                != #[trigger] system_defaults@[j].0@ by {
                if j == before.len() {
                    assert(system_defaults@[i] == before[i]);
                }
            }
        },
        None => {},
    }
}

/// Resets the displays to their standard settings: hands back every captured
/// default for restoring, and forgets them along with the profile in force.
pub fn restore_baseline(s: &mut AppState) -> (r: Vec<(String, DefaultSettings)>)
    ensures
        r@ == old(s).system_defaults@,
        reverted(*old(s), *final(s)),
        old(s).wf() ==> final(s).wf(),
{
    let mut taken: Vec<(String, DefaultSettings)> = Vec::new();
    std::mem::swap(&mut taken, &mut s.system_defaults);
    s.active_profile = None;
    s.active_is_manual = false;
    taken
}

/// Hotkey id of the reset shortcut.
pub const RESET_HOTKEY_ID: i32 = 1;
/// Hotkey id of the daemon on/off shortcut.
pub const DAEMON_HOTKEY_ID: i32 = 2;
/// Hotkey id of the first profile's shortcut; profile `i` has this plus `i`.
pub const PROFILE_HOTKEY_BASE: i32 = 10;

/// One global hotkey to register, with the label that names it when the
/// registration fails.
#[derive(Clone, Debug, PartialEq)]
pub struct HotkeyRegistration {
    pub id: i32,
    pub modifiers: u32,
    pub vk: u32,
    pub label: String,
}

pub struct RegistrationView {
    pub id: i32,
    pub modifiers: u32,
    pub vk: u32,
    pub label: Seq<char>,
}

impl View for HotkeyRegistration {
    type V = RegistrationView;

    open spec fn view(&self) -> RegistrationView {
        RegistrationView { id: self.id, modifiers: self.modifiers, vk: self.vk, label: self.label@ }
    }
}

pub open spec fn registrations_view(v: Seq<HotkeyRegistration>) -> Seq<RegistrationView> {
    v.map_values(|r: HotkeyRegistration| r@)
}

pub open spec fn word_reset() -> Seq<char> {
    seq!['R', 'e', 's', 'e', 't']
}

pub open spec fn word_daemon() -> Seq<char> {
    seq!['D', 'a', 'e', 'm', 'o', 'n']
}

/// `name (hotkey)`
pub open spec fn hotkey_label(name: Seq<char>, hotkey: Seq<char>) -> Seq<char> {
    name + seq![' ', '('] + hotkey + seq![')']
}

/// The registration for a shortcut string, when it names a key.
pub open spec fn registration_of(id: i32, name: Seq<char>, hotkey: Seq<char>) -> Seq<
    RegistrationView,
> {
    match crate::hotkey::hotkey_of(hotkey) {
        Some((m, k)) => seq![
            RegistrationView { id, modifiers: m, vk: k, label: hotkey_label(name, hotkey) },
        ],
        None => Seq::empty(),
    }
}

/// The registration for the profile at `idx`: only an enabled profile with a
/// shortcut that names a key has one.
pub open spec fn profile_registration(p: AppProfile, idx: int) -> Seq<RegistrationView> {
    match p.hotkey {
        Some(h) => if p.is_enabled {
            registration_of((PROFILE_HOTKEY_BASE + idx) as i32, p.friendly_name@, h@)
        } else {
            Seq::empty()
        },
        None => Seq::empty(),
    }
}

pub open spec fn profile_registrations(ps: Seq<AppProfile>, n: int) -> Seq<RegistrationView>
    decreases n,
{
    if n <= 0 {
        Seq::empty()
    } else {
        profile_registrations(ps, n - 1) + profile_registration(ps[n - 1], n - 1)
    }
}

/// All hotkeys of a state in registration order: reset, daemon, then the
/// profiles in list order.
pub open spec fn hotkey_plan(s: AppState) -> Seq<RegistrationView> {
    registration_of(RESET_HOTKEY_ID, word_reset(), s.reset_hotkey@) + registration_of(
        DAEMON_HOTKEY_ID,
        word_daemon(),
        s.daemon_hotkey@,
    ) + profile_registrations(s.profiles@, s.profiles@.len() as int)
}

fn make_label(name: &Vec<char>, hotkey: &String) -> (r: String)
    ensures
        r@ == hotkey_label(name@, hotkey@),
{
    let mut cs: Vec<char> = Vec::new();
    let hk = crate::text::chars_of(hotkey.as_str());
    let n = name.len();
    for i in 0..n
        invariant
            n == name@.len(),
            cs@ == name@.take(i as int),
    {
        cs.push(name[i]);
        assert(name@.take(i + 1) =~= name@.take(i as int).push(name@[i as int]));
    }
    cs.push(' ');
    cs.push('(');
    let m = hk.len();
    for j in 0..m
        invariant
            m == hk@.len(),
            n == name@.len(),
            cs@ == name@.take(n as int) + seq![' ', '('] + hk@.take(j as int),
    {
        cs.push(hk[j]);
        assert(hk@.take(j + 1) =~= hk@.take(j as int).push(hk@[j as int]));
    }
    cs.push(')');
    assert(name@.take(n as int) =~= name@);
    assert(hk@.take(m as int) =~= hk@);
    assert(cs@ =~= hotkey_label(name@, hotkey@));
    crate::text::string_from_chars(&cs)
}

fn push_registration(out: &mut Vec<HotkeyRegistration>, id: i32, name: &Vec<char>, hotkey: &String)
    ensures
        registrations_view(final(out)@) == registrations_view(old(out)@) + registration_of(
            id,
            name@,
            hotkey@,
        ),
{
    let ghost before = out@;
    match crate::hotkey::parse_hotkey(hotkey.as_str()) {
        Some((m, k)) => {
            let label = make_label(name, hotkey);
            out.push(HotkeyRegistration { id, modifiers: m, vk: k, label });
            assert(registrations_view(out@) =~= registrations_view(before) + registration_of(
                id,
                name@,
                hotkey@,
            ));
        },
        None => {
            assert(registrations_view(out@) =~= registrations_view(before) + registration_of(
                id,
                name@,
                hotkey@,
            ));
        },
    }
}

/// The ids of the registrations grow strictly, so no id is used twice.
pub open spec fn ids_increasing(v: Seq<RegistrationView>) -> bool {
    forall|i: int, j: int| 0 <= i < j < v.len() ==> #[trigger] v[i].id < #[trigger] v[j].id
}

pub(crate) proof fn lemma_profile_registration_ids(ps: Seq<AppProfile>, n: int)
    requires
        0 <= n <= ps.len(),
        ps.len() <= i32::MAX - PROFILE_HOTKEY_BASE,
    ensures
        ids_increasing(profile_registrations(ps, n)),
        forall|k: int|
            0 <= k < profile_registrations(ps, n).len() ==> PROFILE_HOTKEY_BASE <= #[trigger] profile_registrations(
                ps,
                n,
            )[k].id < PROFILE_HOTKEY_BASE + n,
    decreases n,
{
    if n > 0 {
        lemma_profile_registration_ids(ps, n - 1);
        let a = profile_registrations(ps, n - 1);
        let b = profile_registration(ps[n - 1], n - 1);
        assert(b.len() <= 1);
        assert(forall|k: int| 0 <= k < b.len() ==> #[trigger] b[k].id == PROFILE_HOTKEY_BASE + n - 1);
        let c = a + b;
        assert forall|i: int, j: int| 0 <= i < j < c.len() implies #[trigger] c[i].id < #[trigger] c[j].id by {
            if j >= a.len() {
                assert(c[j] == b[j - a.len()]);
                if i < a.len() {
                    assert(c[i] == a[i]);
                }
            } else {
                assert(c[i] == a[i] && c[j] == a[j]);
            }
        }
        assert forall|k: int| 0 <= k < c.len() implies PROFILE_HOTKEY_BASE <= #[trigger] c[k].id
            < PROFILE_HOTKEY_BASE + n by {
            if k < a.len() {
                assert(c[k] == a[k]);
            } else {
                assert(c[k] == b[k - a.len()]);
            }
        }
    }
}

/// The registrations of the first `n` profiles hold the one of the profile at
/// `k` (id 10 plus `k`) exactly when that profile has one, and no other entry
/// with that id.
pub(crate) proof fn lemma_profile_entry(ps: Seq<AppProfile>, n: int, k: int)
    requires
        0 <= k < n <= ps.len(),
        ps.len() <= i32::MAX - PROFILE_HOTKEY_BASE,
    ensures
        forall|i: int|
            0 <= i < profile_registrations(ps, n).len() && #[trigger] profile_registrations(ps, n)[i].id
                == PROFILE_HOTKEY_BASE + k ==> profile_registration(ps[k], k).len() == 1
                && profile_registrations(ps, n)[i] == profile_registration(ps[k], k)[0],
        profile_registration(ps[k], k).len() == 1 ==> exists|i: int|
            0 <= i < profile_registrations(ps, n).len() && #[trigger] profile_registrations(ps, n)[i]
                == profile_registration(ps[k], k)[0],
    decreases n,
{
    let a = profile_registrations(ps, n - 1);
    let b = profile_registration(ps[n - 1], n - 1);
    let c = profile_registrations(ps, n);
    assert(c == a + b);
    assert(b.len() <= 1);
    assert(forall|j: int| 0 <= j < b.len() ==> #[trigger] b[j].id == PROFILE_HOTKEY_BASE + n - 1);
    lemma_profile_registration_ids(ps, n - 1);
    if k == n - 1 {
        assert forall|i: int|
            0 <= i < c.len() && #[trigger] c[i].id == PROFILE_HOTKEY_BASE + k implies b.len() == 1
                && c[i] == b[0] by {
            if i < a.len() {
                assert(c[i] == a[i]);
            } else {
                assert(c[i] == b[i - a.len()]);
            }
        }
        if b.len() == 1 {
            assert(c[a.len() as int] == b[0]);
        }
    } else {
        lemma_profile_entry(ps, n - 1, k);
        assert forall|i: int|
            0 <= i < c.len() && #[trigger] c[i].id == PROFILE_HOTKEY_BASE + k implies profile_registration(
                ps[k],
                k,
            ).len() == 1 && c[i] == profile_registration(ps[k], k)[0] by {
            if i < a.len() {
                assert(c[i] == a[i]);
            } else {
                assert(c[i] == b[i - a.len()]);
            }
        }
        if profile_registration(ps[k], k).len() == 1 {
            let i = choose|i: int| 0 <= i < a.len() && #[trigger] a[i] == profile_registration(ps[k], k)[0];
            assert(c[i] == a[i]);
        }
    }
}

/// The hotkeys a state wants registered: the reset and daemon shortcuts (ids 1
/// and 2) and each enabled profile's shortcut (id 10 plus its index), each only
/// when its text names a key.
pub fn hotkey_registrations(s: &AppState) -> (r: Vec<HotkeyRegistration>)
    requires
        s.profiles@.len() <= i32::MAX - PROFILE_HOTKEY_BASE,
    ensures
        registrations_view(r@) == hotkey_plan(*s),
        ids_increasing(registrations_view(r@)),
{
    let mut out: Vec<HotkeyRegistration> = Vec::new();
    let reset_name = vec!['R', 'e', 's', 'e', 't'];
    let daemon_name = vec!['D', 'a', 'e', 'm', 'o', 'n'];
    assert(reset_name@ == word_reset());
    assert(daemon_name@ == word_daemon());
    assert(registrations_view(out@) =~= Seq::<RegistrationView>::empty());
    push_registration(&mut out, RESET_HOTKEY_ID, &reset_name, &s.reset_hotkey);
    push_registration(&mut out, DAEMON_HOTKEY_ID, &daemon_name, &s.daemon_hotkey);
    let ghost base = registrations_view(out@);
    let n = s.profiles.len();
    for i in 0..n
        invariant
            n == s.profiles@.len(),
            n <= i32::MAX - PROFILE_HOTKEY_BASE,
            base == registration_of(RESET_HOTKEY_ID, word_reset(), s.reset_hotkey@) + registration_of(
                DAEMON_HOTKEY_ID,
                word_daemon(),
                s.daemon_hotkey@,
            ),
            registrations_view(out@) == base + profile_registrations(s.profiles@, i as int),
    {
        let p = &s.profiles[i];
        let ghost before = registrations_view(out@);
        if p.is_enabled {
            match &p.hotkey {
                Some(h) => {
                    let name = crate::text::chars_of(p.friendly_name.as_str());
                    push_registration(&mut out, PROFILE_HOTKEY_BASE + i as i32, &name, h);
                },
                None => {},
            }
        }
        assert(registrations_view(out@) =~= before + profile_registration(s.profiles@[i as int], i as int));
        assert(base + profile_registrations(s.profiles@, i + 1) =~= base + profile_registrations(
            s.profiles@,
            i as int,
        ) + profile_registration(s.profiles@[i as int], i as int));
    }
    proof {
        lemma_profile_registration_ids(s.profiles@, n as int);
        let v = registrations_view(out@);
        let p = profile_registrations(s.profiles@, n as int);
        let r1 = registration_of(RESET_HOTKEY_ID, word_reset(), s.reset_hotkey@);
        let r2 = registration_of(DAEMON_HOTKEY_ID, word_daemon(), s.daemon_hotkey@);
        assert(forall|k: int| 0 <= k < r1.len() ==> #[trigger] r1[k].id == RESET_HOTKEY_ID);
        assert(forall|k: int| 0 <= k < r2.len() ==> #[trigger] r2[k].id == DAEMON_HOTKEY_ID);
        assert(v == r1 + r2 + p);
        assert forall|i: int, j: int| 0 <= i < j < v.len() implies #[trigger] v[i].id < #[trigger] v[j].id by {
            let l1 = r1.len() as int;
            let l2 = r2.len() as int;
            if j < l1 {
            } else if j < l1 + l2 {
                assert(v[j] == r2[j - l1]);
                if i < l1 {
                    assert(v[i] == r1[i]);
                } else {
                    assert(v[i] == r2[i - l1]);
                }
            } else {
                assert(v[j] == p[j - l1 - l2]);
                if i < l1 {
                    assert(v[i] == r1[i]);
                } else if i < l1 + l2 {
                    assert(v[i] == r2[i - l1]);
                } else {
                    assert(v[i] == p[i - l1 - l2]);
                }
            }
        }
    }
    out
}

/// `new` is `old` with the daemon switched to `active`.
pub open spec fn daemon_set(old: AppState, new: AppState, active: bool) -> bool {
    &&& new.is_daemon_enabled == active
    &&& new.profiles == old.profiles
    &&& new.reset_hotkey == old.reset_hotkey
    &&& new.daemon_hotkey == old.daemon_hotkey
    &&& new.default_profile_name == old.default_profile_name
    &&& new.system_defaults == old.system_defaults
    &&& new.active_profile == old.active_profile
    &&& new.active_is_manual == old.active_is_manual
    &&& new.stealth_detection == old.stealth_detection
    &&& new.hotkeys_thread_id == old.hotkeys_thread_id
}

/// The profile in force goes by this name.
pub open spec fn is_active_name(s: AppState, name: Seq<char>) -> bool {
    s.active_profile matches Some(a) && a@ == name
}

/// What pressing a registered hotkey decides.
pub enum HotkeyChoice {
    Nothing,
    Reset,
    ToggleDaemon,
    /// Apply and pin the profile at this index.
    Pin(usize),
    /// The pressed profile was in force: go back to the default profile at this index.
    RevertToDefault(usize),
    /// The pressed profile was in force and there is no default profile.
    RevertToSystem,
}

/// The decision for hotkey `id` in state `s`.
pub open spec fn hotkey_choice(s: AppState, id: i32) -> HotkeyChoice {
    if id == RESET_HOTKEY_ID {
        HotkeyChoice::Reset
    } else if id == DAEMON_HOTKEY_ID {
        HotkeyChoice::ToggleDaemon
    } else if id >= PROFILE_HOTKEY_BASE && id - PROFILE_HOTKEY_BASE < s.profiles@.len() {
        let idx = id - PROFILE_HOTKEY_BASE;
        if is_active_name(s, s.profiles@[idx].friendly_name@) {
            match first_default(s.profiles@) {
                Some(d) => HotkeyChoice::RevertToDefault(d as usize),
                None => HotkeyChoice::RevertToSystem,
            }
        } else {
            HotkeyChoice::Pin(idx as usize)
        }
    } else {
        HotkeyChoice::Nothing
    }
}

/// What a pressed hotkey asks of the displays and the configuration.
#[derive(Clone, Debug, PartialEq)]
pub enum HotkeyAction {
    Nothing,
    /// The displays were reset; apply as the baseline says.
    Reset(Vec<(String, DefaultSettings)>),
    /// The daemon was switched to this; save the configuration.
    DaemonToggled(bool),
    /// Apply the profile at this index.
    ApplyProfile(usize),
    /// Restore these captured defaults.
    RestoreSystemDefaults(Vec<(String, DefaultSettings)>),
}

/// The outcome of pressing hotkey `id` in state `old`.
pub open spec fn hotkey_handled(old: AppState, new: AppState, id: i32, r: HotkeyAction) -> bool {
    match hotkey_choice(old, id) {
        HotkeyChoice::Nothing => r is Nothing && new == old,
        HotkeyChoice::Reset => r matches HotkeyAction::Reset(d) && d@ == old.system_defaults@
            && reverted(old, new),
        HotkeyChoice::ToggleDaemon => r == HotkeyAction::DaemonToggled(!old.is_daemon_enabled)
            && daemon_set(old, new, !old.is_daemon_enabled),
        HotkeyChoice::Pin(i) => r == HotkeyAction::ApplyProfile(i) && pinned_to(
            old,
            new,
            old.profiles@[i as int].friendly_name,
        ),
        HotkeyChoice::RevertToDefault(d) => r == HotkeyAction::ApplyProfile(d) && pinned_to(
            old,
            new,
            old.profiles@[d as int].friendly_name,
        ),
        HotkeyChoice::RevertToSystem => r matches HotkeyAction::RestoreSystemDefaults(v) && v@
            == old.system_defaults@ && reverted(old, new),
    }
}

/// Handles a pressed global hotkey: the reset shortcut resets the displays,
/// the daemon shortcut switches the daemon, and a profile shortcut pins its
/// profile, or, when that profile is already in force, goes back to the
/// default profile (or to the captured defaults when there is none).
pub fn hotkey_pressed(s: &mut AppState, id: i32) -> (r: HotkeyAction)
    ensures
        hotkey_handled(*old(s), *final(s), id, r),
        old(s).wf() ==> final(s).wf(),
{
    if id == RESET_HOTKEY_ID {
        return HotkeyAction::Reset(restore_baseline(s));
    }
    if id == DAEMON_HOTKEY_ID {
        s.is_daemon_enabled = !s.is_daemon_enabled;
        return HotkeyAction::DaemonToggled(s.is_daemon_enabled);
    }
    if id < PROFILE_HOTKEY_BASE {
        return HotkeyAction::Nothing;
    }
    let idx = (id - PROFILE_HOTKEY_BASE) as usize;
    if idx >= s.profiles.len() {
        return HotkeyAction::Nothing;
    }
    let is_active = match &s.active_profile {
        Some(a) => *a == s.profiles[idx].friendly_name,
        None => false,
    };
    if is_active {
        proof {
            lemma_first_index_props(s.profiles@, |p: AppProfile| is_default_profile(p));
        }
        match find_default_profile(&s.profiles) {
            Some(d) => {
                let name = s.profiles[d].friendly_name.clone();
                s.active_profile = Some(name);
                s.active_is_manual = true;
                HotkeyAction::ApplyProfile(d)
            },
            None => HotkeyAction::RestoreSystemDefaults(restore_baseline(s)),
        }
    } else {
        let name = s.profiles[idx].friendly_name.clone();
        s.active_profile = Some(name);
        s.active_is_manual = true;
        HotkeyAction::ApplyProfile(idx)
    }
}

/// The reset shortcut used when the configuration names none.
pub open spec fn default_reset_hotkey() -> Seq<char> {
    seq!['C', 't', 'r', 'l', '+', 'A', 'l', 't', '+', 'R']
}

/// The daemon shortcut used when the configuration names none.
pub open spec fn default_daemon_hotkey() -> Seq<char> {
    seq!['C', 't', 'r', 'l', '+', 'A', 'l', 't', '+', 'D']
}

/// `c` is the configuration read from `stored` (`None` when there is no
/// readable configuration file): each field as stored, or its default (no
/// profiles, daemon on, `Ctrl+Alt+R`, `Ctrl+Alt+D`, no default profile name,
/// stealth detection off).
pub open spec fn config_loaded(stored: Option<ConfigFields>, c: AppConfig) -> bool {
    match stored {
        None => {
            &&& c.profiles@.len() == 0
            &&& c.is_daemon_enabled
            &&& c.reset_hotkey@ == default_reset_hotkey()
            &&& c.daemon_hotkey@ == default_daemon_hotkey()
            &&& c.default_profile_name is None
            &&& !c.stealth_detection
        },
        Some(f) => {
            &&& match f.profiles {
                Some(ps) => c.profiles == ps,
                None => c.profiles@.len() == 0,
            }
            &&& c.is_daemon_enabled == match f.is_daemon_enabled {
                Some(b) => b,
                None => true,
            }
            &&& match f.reset_hotkey {
                Some(h) => c.reset_hotkey == h,
                None => c.reset_hotkey@ == default_reset_hotkey(),
            }
            &&& match f.daemon_hotkey {
                Some(h) => c.daemon_hotkey == h,
                None => c.daemon_hotkey@ == default_daemon_hotkey(),
            }
            &&& c.default_profile_name == f.default_profile_name
            &&& c.stealth_detection == match f.stealth_detection {
                Some(b) => b,
                None => false,
            }
        },
    }
}

fn default_reset_hotkey_string() -> (r: String)
    ensures
        r@ == default_reset_hotkey(),
{
    let cs = vec!['C', 't', 'r', 'l', '+', 'A', 'l', 't', '+', 'R'];
    crate::text::string_from_chars(&cs)
}

fn default_daemon_hotkey_string() -> (r: String)
    ensures
        r@ == default_daemon_hotkey(),
{
    let cs = vec!['C', 't', 'r', 'l', '+', 'A', 'l', 't', '+', 'D'];
    crate::text::string_from_chars(&cs)
}

/// The configuration from what a configuration file holds, each missing field
/// replaced by its default.
pub fn load_config(stored: Option<ConfigFields>) -> (c: AppConfig)
    ensures
        config_loaded(stored, c),
        (stored matches Some(f) && f.profiles matches Some(ps) ==> profiles_wf(ps@))
            ==> profiles_wf(c.profiles@),
{
    match stored {
        None => AppConfig {
            profiles: Vec::new(),
            is_daemon_enabled: true,
            reset_hotkey: default_reset_hotkey_string(),
            daemon_hotkey: default_daemon_hotkey_string(),
            default_profile_name: None,
            stealth_detection: false,
        },
        Some(f) => AppConfig {
            profiles: match f.profiles {
                Some(ps) => ps,
                None => Vec::new(),
            },
            is_daemon_enabled: match f.is_daemon_enabled {
                Some(b) => b,
                None => true,
            },
            reset_hotkey: match f.reset_hotkey {
                Some(h) => h,
                None => default_reset_hotkey_string(),
            },
            daemon_hotkey: match f.daemon_hotkey {
                Some(h) => h,
                None => default_daemon_hotkey_string(),
            },
            default_profile_name: f.default_profile_name,
            stealth_detection: match f.stealth_detection {
                Some(b) => b,
                None => false,
            },
        },
    }
}

/// What `serde_json` finds under `key` in the JSON document `text` when it is
/// a boolean: `None` when the text is not JSON, is not an object, has no such
/// key, or holds something else there.
pub uninterp spec fn json_bool_at(text: Seq<char>, key: Seq<char>) -> Option<bool>;

/// What `serde_json` finds under `key` in the JSON document `text` when it is
/// a string: `None` when the text is not JSON, is not an object, has no such
/// key, or holds something else there.
pub uninterp spec fn json_str_at(text: Seq<char>, key: Seq<char>) -> Option<Seq<char>>;

/// `serde_json::from_str::<Value>`, then `Value::get(key)` and `Value::as_bool`:
/// the boolean under `key` in the JSON document `text`, if there is one.
#[verifier::external_body]
fn json_bool_field(text: &str, key: &str) -> (r: Option<bool>)
    ensures
        r == json_bool_at(text@, key@),
{
    match serde_json::from_str::<serde_json::Value>(text) {
        Ok(v) => match v.get(key) {
            Some(x) => x.as_bool(),
            None => None,
        },
        Err(_) => None,
    }
}

/// `serde_json::from_str::<Value>`, then `Value::get(key)` and `Value::as_str`:
/// the string under `key` in the JSON document `text`, if there is one.
#[verifier::external_body]
fn json_str_field(text: &str, key: &str) -> (r: Option<String>)
    ensures
        (match r {
            Some(v) => json_str_at(text@, key@) == Some(v@),
            None => json_str_at(text@, key@) is None,
        }),
{
    match serde_json::from_str::<serde_json::Value>(text) {
        Ok(v) => match v.get(key) {
            Some(x) => match x.as_str() {
                Some(t) => Some(t.to_string()),
                None => None,
            },
            None => None,
        },
        Err(_) => None,
    }
}

/// `c` is the configuration read from the text of the configuration file
/// (`None` when there is no readable file), with `profiles` the profile list
/// that file holds (`None` when it holds none that reads as profiles): each
/// field that the JSON document holds with the right type, or its default.
pub open spec fn config_text_loaded(
    text: Option<&str>,
    profiles: Option<Vec<AppProfile>>,
    c: AppConfig,
) -> bool {
    match text {
        None => config_loaded(None, c),
        Some(t) => {
            &&& match profiles {
                Some(ps) => c.profiles == ps,
                None => c.profiles@.len() == 0,
            }
            &&& c.is_daemon_enabled == match json_bool_at(t@, "is_daemon_enabled"@) {
                Some(b) => b,
                None => true,
            }
            &&& c.reset_hotkey@ == match json_str_at(t@, "reset_hotkey"@) {
                Some(h) => h,
                None => default_reset_hotkey(),
            }
            &&& c.daemon_hotkey@ == match json_str_at(t@, "daemon_hotkey"@) {
                Some(h) => h,
                None => default_daemon_hotkey(),
            }
            &&& match c.default_profile_name {
                Some(n) => json_str_at(t@, "default_profile_name"@) == Some(n@),
                None => json_str_at(t@, "default_profile_name"@) is None,
            }
            &&& c.stealth_detection == match json_bool_at(t@, "stealth_detection"@) {
                Some(b) => b,
                None => false,
            }
        },
    }
}

/// Reads the configuration from the text of the configuration file, `None`
/// when there is none: the daemon switch, the two shortcuts, the default
/// profile's name and the detection mode from the JSON document, each with its
/// default where the document lacks it; the profiles as read from the file.
pub fn load_config_text(text: Option<&str>, profiles: Option<Vec<AppProfile>>) -> (c: AppConfig)
    ensures
        config_text_loaded(text, profiles, c),
        (profiles matches Some(ps) ==> profiles_wf(ps@)) ==> profiles_wf(c.profiles@),
{
    match text {
        None => load_config(None),
        Some(t) => load_config(
            Some(
                ConfigFields {
                    profiles,
                    is_daemon_enabled: json_bool_field(t, "is_daemon_enabled"),
                    reset_hotkey: json_str_field(t, "reset_hotkey"),
                    daemon_hotkey: json_str_field(t, "daemon_hotkey"),
                    default_profile_name: json_str_field(t, "default_profile_name"),
                    stealth_detection: json_bool_field(t, "stealth_detection"),
                },
            ),
        ),
    }
}

/// The fields a configuration file holds after `c` was written to it.
pub open spec fn stored_fields(c: AppConfig) -> ConfigFields {
    ConfigFields {
        profiles: Some(c.profiles),
        is_daemon_enabled: Some(c.is_daemon_enabled),
        reset_hotkey: Some(c.reset_hotkey),
        daemon_hotkey: Some(c.daemon_hotkey),
        default_profile_name: c.default_profile_name,
        stealth_detection: Some(c.stealth_detection),
    }
}

/// The persisted part of the state, as the configuration file stores it.
pub open spec fn config_matches_state(c: AppConfig, s: AppState) -> bool {
    &&& profiles_view(c.profiles@) == profiles_view(s.profiles@)
    &&& c.is_daemon_enabled == s.is_daemon_enabled
    &&& c.reset_hotkey == s.reset_hotkey
    &&& c.daemon_hotkey == s.daemon_hotkey
    &&& c.default_profile_name == s.default_profile_name
    &&& c.stealth_detection == s.stealth_detection
}

/// The configuration to save for a state.
pub fn config_of(s: &AppState) -> (c: AppConfig)
    ensures
        config_matches_state(c, *s),
{
    AppConfig {
        profiles: copy_profiles(&s.profiles),
        is_daemon_enabled: s.is_daemon_enabled,
        reset_hotkey: s.reset_hotkey.clone(),
        daemon_hotkey: s.daemon_hotkey.clone(),
        default_profile_name: copy_string_option(&s.default_profile_name),
        stealth_detection: s.stealth_detection,
    }
}

/// The state the application starts in: the loaded configuration, no captured
/// defaults, no profile in force, and no hotkey thread yet.
pub open spec fn started_from(c: AppConfig, s: AppState) -> bool {
    &&& s.profiles == c.profiles
    &&& s.is_daemon_enabled == c.is_daemon_enabled
    &&& s.reset_hotkey == c.reset_hotkey
    &&& s.daemon_hotkey == c.daemon_hotkey
    &&& s.default_profile_name == c.default_profile_name
    &&& s.stealth_detection == c.stealth_detection
    &&& s.system_defaults@.len() == 0
    &&& s.active_profile is None
    &&& !s.active_is_manual
    &&& s.hotkeys_thread_id is None
}

/// The state the application starts in for a loaded configuration.
pub fn initial_state(c: AppConfig) -> (s: AppState)
    ensures
        started_from(c, s),
        profiles_wf(c.profiles@) ==> s.wf(),
{
    AppState {
        profiles: c.profiles,
        is_daemon_enabled: c.is_daemon_enabled,
        reset_hotkey: c.reset_hotkey,
        daemon_hotkey: c.daemon_hotkey,
        default_profile_name: c.default_profile_name,
        system_defaults: Vec::new(),
        active_profile: None,
        active_is_manual: false,
        stealth_detection: c.stealth_detection,
        hotkeys_thread_id: None,
    }
}

/// How applying a profile to one display went: the first attempt, and the
/// retry that follows a failed first attempt.
#[derive(Clone, Copy, Debug, PartialEq, Eq, Structural)]
pub struct DisplayAttempt {
    pub first_ok: bool,
    pub retry_ok: Option<bool>,
}

/// The display counts as done when its first attempt or its retry succeeded.
pub open spec fn attempt_succeeded(a: DisplayAttempt) -> bool {
    a.first_ok || a.retry_ok == Some(true)
}

/// Whether applying a profile succeeded: every display succeeded at its first
/// attempt or at its retry.
pub fn profile_applied(attempts: &Vec<DisplayAttempt>) -> (r: bool)
    ensures
        r == forall|i: int| 0 <= i < attempts@.len() ==> attempt_succeeded(#[trigger] attempts@[i]),
{
    let mut success = true;
    let n = attempts.len();
    for i in 0..n
        invariant
            n == attempts@.len(),
            success == forall|j: int| 0 <= j < i ==> attempt_succeeded(#[trigger] attempts@[j]),
    {
        let a = attempts[i];
        if !a.first_ok {
            success = success && match a.retry_ok {
                Some(ok) => ok,
                None => false,
            };
        }
    }
    success
}

/// Whether every driver call of a batch succeeded (true for an empty batch):
/// the outcome of applying one display's settings, or of restoring the
/// captured defaults.
pub fn all_succeeded(results: &Vec<bool>) -> (r: bool)
    ensures
        r == forall|i: int| 0 <= i < results@.len() ==> #[trigger] results@[i],
{
    let mut success = true;
    let n = results.len();
    for i in 0..n
        invariant
            n == results@.len(),
            success == forall|j: int| 0 <= j < i ==> #[trigger] results@[j],
    {
        success = success && results[i];
    }
    success
}

} // verus!
