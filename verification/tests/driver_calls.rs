use lumina::apply::{
    apply_run_new, apply_run_step, restore_calls, settings_calls, ApplyAction, DriverCall,
};
use lumina::display::Resolution;
use lumina::state::{DefaultSettings, DisplayAttempt, DisplaySettings};

fn res(width: u32, height: u32, refresh_rate: u32) -> Resolution {
    Resolution { width, height, refresh_rate }
}

#[test]
fn settings_ask_for_mode_then_vibrance_then_gamma() {
    let s = DisplaySettings { resolution: Some(res(1920, 1080, 60)), vibrance: Some(80), gamma_bits: Some(0x3F80_0000) };
    assert_eq!(
        settings_calls(&s),
        vec![DriverCall::Resolution(res(1920, 1080, 60)), DriverCall::Vibrance(80), DriverCall::Gamma(0x3F80_0000)]
    );
    let s = DisplaySettings { resolution: None, vibrance: Some(55), gamma_bits: None };
    assert_eq!(settings_calls(&s), vec![DriverCall::Vibrance(55)]);
    let s = DisplaySettings { resolution: None, vibrance: None, gamma_bits: None };
    assert!(settings_calls(&s).is_empty());
}

#[test]
fn restoring_defaults_sets_all_three_on_each_display() {
    let d1 = DefaultSettings { resolution: res(2560, 1440, 144), vibrance: 50, gamma_bits: 0x3F80_0000 };
    let d2 = DefaultSettings { resolution: res(1920, 1080, 60), vibrance: 0, gamma_bits: 0x4000_0000 };
    let calls = restore_calls(&vec![("A".to_string(), d1), ("B".to_string(), d2)]);
    assert_eq!(
        calls,
        vec![
            ("A".to_string(), DriverCall::Resolution(res(2560, 1440, 144))),
            ("A".to_string(), DriverCall::Vibrance(50)),
            ("A".to_string(), DriverCall::Gamma(0x3F80_0000)),
            ("B".to_string(), DriverCall::Resolution(res(1920, 1080, 60))),
            ("B".to_string(), DriverCall::Vibrance(0)),
            ("B".to_string(), DriverCall::Gamma(0x4000_0000)),
        ]
    );
    assert!(restore_calls(&Vec::new()).is_empty());
}

#[test]
fn empty_profile_finishes_at_once() {
    let (_, a) = apply_run_new(0);
    assert_eq!(a, ApplyAction::Finish(true));
}

#[test]
fn failed_display_is_retried_once() {
    let (mut run, a) = apply_run_new(2);
    assert_eq!(a, ApplyAction::Apply(0));
    assert_eq!(apply_run_step(&mut run, false), ApplyAction::Retry(0));
    assert_eq!(apply_run_step(&mut run, true), ApplyAction::Apply(1));
    assert_eq!(apply_run_step(&mut run, true), ApplyAction::Finish(true));
    assert_eq!(
        run.attempts,
        vec![
            DisplayAttempt { first_ok: false, retry_ok: Some(true) },
            DisplayAttempt { first_ok: true, retry_ok: None },
        ]
    );
}

#[test]
fn failed_retry_fails_the_profile_but_the_rest_is_still_applied() {
    let (mut run, _) = apply_run_new(2);
    assert_eq!(apply_run_step(&mut run, false), ApplyAction::Retry(0));
    assert_eq!(apply_run_step(&mut run, false), ApplyAction::Apply(1));
    assert_eq!(apply_run_step(&mut run, true), ApplyAction::Finish(false));
    // A finished run stays finished.
    assert_eq!(apply_run_step(&mut run, true), ApplyAction::Finish(false));
    assert_eq!(run.attempts.len(), 2);
}
