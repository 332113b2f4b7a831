//! What applying settings asks of the display driver, and in which order a
//! profile's displays are tried: the decisions, while the calls themselves
//! are made by the caller.
use vstd::prelude::*;
use crate::display::Resolution;
use crate::state::{
    attempt_succeeded, profile_applied, DefaultSettings, DisplayAttempt, DisplaySettings,
};

verus! {

/// One call to the display driver.
#[derive(Clone, Copy, Debug, PartialEq, Eq, Structural)]
pub enum DriverCall {
    /// Switch the display mode.
    Resolution(Resolution),
    /// Set the digital vibrance, in percent.
    Vibrance(i32),
    /// Set the gamma ramp; the `f32::to_bits` of the gamma.
    Gamma(u32),
}

/// The calls that applying `s` makes: the mode, then the vibrance, then the
/// gamma, each only where `s` sets it.
pub open spec fn settings_calls_of(s: DisplaySettings) -> Seq<DriverCall> {
    (match s.resolution {
        Some(r) => seq![DriverCall::Resolution(r)],
        None => Seq::empty(),
    }) + (match s.vibrance {
        Some(v) => seq![DriverCall::Vibrance(v)],
        None => Seq::empty(),
    }) + (match s.gamma_bits {
        Some(g) => seq![DriverCall::Gamma(g)],
        None => Seq::empty(),
    })
}

/// The driver calls that applying `s` to a display makes, in order.
pub fn settings_calls(s: &DisplaySettings) -> (r: Vec<DriverCall>)
    ensures
        r@ == settings_calls_of(*s),
{
    let mut r: Vec<DriverCall> = Vec::new();
    if let Some(res) = s.resolution {
        r.push(DriverCall::Resolution(res));
    }
    if let Some(v) = s.vibrance {
        r.push(DriverCall::Vibrance(v));
    }
    if let Some(g) = s.gamma_bits {
        r.push(DriverCall::Gamma(g));
    }
    assert(r@ =~= settings_calls_of(*s));
    r
}

/// The three calls that put one display's captured defaults back.
pub open spec fn default_calls_of(id: Seq<char>, d: DefaultSettings) -> Seq<(Seq<char>, DriverCall)> {
    seq![
        (id, DriverCall::Resolution(d.resolution)),
        (id, DriverCall::Vibrance(d.vibrance)),
        (id, DriverCall::Gamma(d.gamma_bits)),
    ]
}

/// The calls that restore the captured defaults `ds`, display after display.
pub open spec fn restore_calls_of(ds: Seq<(String, DefaultSettings)>) -> Seq<(Seq<char>, DriverCall)>
    decreases ds.len(),
{
    if ds.len() == 0 {
        Seq::empty()
    } else {
        restore_calls_of(ds.drop_last()) + default_calls_of(ds.last().0@, ds.last().1)
    }
}

/// The texts and calls of a list of calls addressed to displays.
pub open spec fn addressed_view(v: Seq<(String, DriverCall)>) -> Seq<(Seq<char>, DriverCall)> {
    v.map_values(|x: (String, DriverCall)| (x.0@, x.1))
}

/// The driver calls that restore the captured defaults, with the display each
/// one is for: the mode, the vibrance and the gamma of each display in turn.
pub fn restore_calls(defaults: &Vec<(String, DefaultSettings)>) -> (r: Vec<(String, DriverCall)>)
    ensures
        addressed_view(r@) == restore_calls_of(defaults@),
{
    let mut r: Vec<(String, DriverCall)> = Vec::new();
    let n = defaults.len();
    for i in 0..n
        invariant
            n == defaults@.len(),
            addressed_view(r@) == restore_calls_of(defaults@.take(i as int)),
    {
        let id = defaults[i].0.clone();
        let d = defaults[i].1;
        let ghost before = r@;
        r.push((id.clone(), DriverCall::Resolution(d.resolution)));
        r.push((id.clone(), DriverCall::Vibrance(d.vibrance)));
        r.push((id, DriverCall::Gamma(d.gamma_bits)));
        proof {
            assert(defaults@.take(i + 1).drop_last() =~= defaults@.take(i as int));
            assert(defaults@.take(i + 1).last() == defaults@[i as int]);
            assert(addressed_view(r@) =~= addressed_view(before) + default_calls_of(
                defaults@[i as int].0@,
                d,
            ));
        }
    }
    assert(defaults@.take(n as int) =~= defaults@);
    r
}

/// What to do next while a profile is applied display by display.
#[derive(Clone, Copy, Debug, PartialEq, Eq, Structural)]
pub enum ApplyAction {
    /// Apply the settings of the display at this index, a first time.
    Apply(usize),
    /// Apply the settings of the display at this index again: its first
    /// attempt failed.
    Retry(usize),
    /// Every display has been tried; whether each succeeded at its first
    /// attempt or at its retry.
    Finish(bool),
}

/// Progress of applying a profile to `count` displays.
pub struct ApplyRun {
    pub count: usize,
    /// How each display went, for the displays done so far, in order.
    pub attempts: Vec<DisplayAttempt>,
    /// The next display failed its first attempt and waits for its retry.
    pub retrying: bool,
}

impl ApplyRun {
    /// A retry is only pending for a display that is still to be done.
    pub open spec fn wf(self) -> bool {
        self.retrying ==> self.attempts@.len() < self.count
    }
}

/// The action that a run in this state asks for.
pub open spec fn next_action(count: nat, attempts: Seq<DisplayAttempt>, retrying: bool) -> ApplyAction {
    if attempts.len() >= count {
        ApplyAction::Finish(forall|i: int| 0 <= i < attempts.len() ==> attempt_succeeded(#[trigger] attempts[i]))
    } else if retrying {
        ApplyAction::Retry(attempts.len() as usize)
    } else {
        ApplyAction::Apply(attempts.len() as usize)
    }
}

/// The displays done after the attempt that ended with `ok`: a failed first
/// attempt adds nothing yet; a good first attempt, or a retry, adds the display.
pub open spec fn attempts_after(attempts: Seq<DisplayAttempt>, retrying: bool, ok: bool) -> Seq<DisplayAttempt> {
    if retrying {
        attempts.push(DisplayAttempt { first_ok: false, retry_ok: Some(ok) })
    } else if ok {
        attempts.push(DisplayAttempt { first_ok: true, retry_ok: None })
    } else {
        attempts
    }
}

/// Starts applying a profile to `count` displays: the first display is tried
/// first, and a profile with no displays is done at once.
pub fn apply_run_new(count: usize) -> (r: (ApplyRun, ApplyAction))
    ensures
        r.0.count == count,
        r.0.attempts@.len() == 0,
        !r.0.retrying,
        r.0.wf(),
        r.1 == next_action(count as nat, Seq::empty(), false),
{
    let run = ApplyRun { count, attempts: Vec::new(), retrying: false };
    let action = if count == 0 {
        ApplyAction::Finish(true)
    } else {
        ApplyAction::Apply(0)
    };
    (run, action)
}

/// Records how the attempt that the run asked for went (`ok`) and says what
/// comes next: a display whose first attempt failed is retried once, then the
/// next display is tried; after the last one the run finishes. A run that is
/// already finished stays as it is.
pub fn apply_run_step(run: &mut ApplyRun, ok: bool) -> (a: ApplyAction)
    ensures
        final(run).count == old(run).count,
        old(run).attempts@.len() >= old(run).count ==> final(run).attempts@ == old(run).attempts@
            && final(run).retrying == old(run).retrying,
        old(run).attempts@.len() < old(run).count ==> final(run).attempts@ == attempts_after(
            old(run).attempts@,
            old(run).retrying,
            ok,
        ) && final(run).retrying == (!old(run).retrying && !ok),
        old(run).wf() ==> final(run).wf(),
        a == next_action(final(run).count as nat, final(run).attempts@, final(run).retrying),
{
    if run.attempts.len() < run.count {
        if run.retrying {
            run.attempts.push(DisplayAttempt { first_ok: false, retry_ok: Some(ok) });
            run.retrying = false;
        } else if ok {
            run.attempts.push(DisplayAttempt { first_ok: true, retry_ok: None });
        } else {
            run.retrying = true;
        }
    }
    let done = run.attempts.len();
    if done >= run.count {
        ApplyAction::Finish(profile_applied(&run.attempts))
    } else if run.retrying {
        ApplyAction::Retry(done)
    } else {
        ApplyAction::Apply(done)
    }
}

/// How many of the three settings a display's settings set.
pub open spec fn settings_set(s: DisplaySettings) -> nat {
    (if s.resolution is Some { 1nat } else { 0nat }) + (if s.vibrance is Some { 1nat } else { 0nat })
        + (if s.gamma_bits is Some { 1nat } else { 0nat })
}

/// Each setting is applied on its own: there is one call for each setting the
/// settings set; the call for the mode, the vibrance or the gamma is there
/// exactly when that setting is set, with its value, whatever the other two
/// are; the mode comes first and the gamma last.
pub proof fn law_settings_calls_independent(s: DisplaySettings)
    ensures
        settings_calls_of(s).len() == settings_set(s),
        forall|r: Resolution| #[trigger]
            settings_calls_of(s).contains(DriverCall::Resolution(r)) <==> s.resolution == Some(r),
        forall|v: i32| #[trigger]
            settings_calls_of(s).contains(DriverCall::Vibrance(v)) <==> s.vibrance == Some(v),
        forall|g: u32| #[trigger]
            settings_calls_of(s).contains(DriverCall::Gamma(g)) <==> s.gamma_bits == Some(g),
        s.resolution matches Some(r) ==> settings_calls_of(s)[0] == DriverCall::Resolution(r),
        s.gamma_bits matches Some(g) ==> settings_calls_of(s).last() == DriverCall::Gamma(g),
{
    let a: Seq<DriverCall> = match s.resolution {
        Some(r) => seq![DriverCall::Resolution(r)],
        None => Seq::empty(),
    };
    let b: Seq<DriverCall> = match s.vibrance {
        Some(v) => seq![DriverCall::Vibrance(v)],
        None => Seq::empty(),
    };
    let c: Seq<DriverCall> = match s.gamma_bits {
        Some(g) => seq![DriverCall::Gamma(g)],
        None => Seq::empty(),
    };
    let all = settings_calls_of(s);
    assert(all == a + b + c);
    assert forall|x: DriverCall| #[trigger] all.contains(x) <==> (a.contains(x) || b.contains(x)
        || c.contains(x)) by {
        if all.contains(x) {
            let k = choose|k: int| 0 <= k < all.len() && all[k] == x;
            if k < a.len() {
                assert(a[k] == x);
            } else if k < a.len() + b.len() {
                assert(b[k - a.len()] == x);
            } else {
                assert(c[k - a.len() - b.len()] == x);
            }
        }
        if a.contains(x) {
            let k = choose|k: int| 0 <= k < a.len() && a[k] == x;
            assert(all[k] == x);
        }
        if b.contains(x) {
            let k = choose|k: int| 0 <= k < b.len() && b[k] == x;
            assert(all[a.len() + k] == x);
        }
        if c.contains(x) {
            let k = choose|k: int| 0 <= k < c.len() && c[k] == x;
            assert(all[a.len() + b.len() + k] == x);
        }
    }
    assert forall|r: Resolution| #[trigger] all.contains(DriverCall::Resolution(r)) <==> s.resolution
        == Some(r) by {
        if s.resolution == Some(r) {
            assert(a[0] == DriverCall::Resolution(r));
        }
        if b.contains(DriverCall::Resolution(r)) {
            assert(b[0] == DriverCall::Resolution(r));
        }
        if c.contains(DriverCall::Resolution(r)) {
            assert(c[0] == DriverCall::Resolution(r));
        }
        if a.contains(DriverCall::Resolution(r)) {
            assert(a[0] == DriverCall::Resolution(r));
        }
    }
    assert forall|v: i32| #[trigger] all.contains(DriverCall::Vibrance(v)) <==> s.vibrance == Some(v) by {
        if s.vibrance == Some(v) {
            assert(b[0] == DriverCall::Vibrance(v));
        }
        if a.contains(DriverCall::Vibrance(v)) {
            assert(a[0] == DriverCall::Vibrance(v));
        }
        if b.contains(DriverCall::Vibrance(v)) {
            assert(b[0] == DriverCall::Vibrance(v));
        }
        if c.contains(DriverCall::Vibrance(v)) {
            assert(c[0] == DriverCall::Vibrance(v));
        }
    }
    assert forall|g: u32| #[trigger] all.contains(DriverCall::Gamma(g)) <==> s.gamma_bits == Some(g) by {
        if s.gamma_bits == Some(g) {
            assert(c[0] == DriverCall::Gamma(g));
        }
        if a.contains(DriverCall::Gamma(g)) {
            assert(a[0] == DriverCall::Gamma(g));
        }
        if b.contains(DriverCall::Gamma(g)) {
            assert(b[0] == DriverCall::Gamma(g));
        }
        if c.contains(DriverCall::Gamma(g)) {
            assert(c[0] == DriverCall::Gamma(g));
        }
    }
}

/// A display whose first attempt fails is retried, whichever display it is,
/// the last one included: the step after the failure (as `apply_run_step`
/// gives it) asks to apply that same display again and records nothing yet.
pub proof fn law_failed_display_is_retried(old_run: ApplyRun, new_run: ApplyRun, a: ApplyAction)
    requires
        old_run.attempts@.len() < old_run.count,
        !old_run.retrying,
        new_run.count == old_run.count,
        new_run.attempts@ == attempts_after(old_run.attempts@, old_run.retrying, false),
        new_run.retrying == (!old_run.retrying && !false),
        a == next_action(new_run.count as nat, new_run.attempts@, new_run.retrying),
    ensures
        a == ApplyAction::Retry(old_run.attempts@.len() as usize),
        new_run.attempts@ == old_run.attempts@,
        new_run.retrying,
{
}

/// After a retry the display is done, recorded with the retry's result, and the
/// next display is tried; after the last display the run finishes with whether
/// every display succeeded at its first attempt or at its retry.
pub proof fn law_retry_moves_on(old_run: ApplyRun, new_run: ApplyRun, ok: bool, a: ApplyAction)
    requires
        old_run.attempts@.len() < old_run.count,
        old_run.retrying,
        new_run.count == old_run.count,
        new_run.attempts@ == attempts_after(old_run.attempts@, old_run.retrying, ok),
        new_run.retrying == (!old_run.retrying && !ok),
        a == next_action(new_run.count as nat, new_run.attempts@, new_run.retrying),
    ensures
        new_run.attempts@ == old_run.attempts@.push(DisplayAttempt { first_ok: false, retry_ok: Some(ok) }),
        !new_run.retrying,
        old_run.attempts@.len() + 1 < old_run.count ==> a == ApplyAction::Apply((old_run.attempts@.len() + 1) as usize),
        old_run.attempts@.len() + 1 == old_run.count ==> a == ApplyAction::Finish(
            ok && forall|i: int| 0 <= i < old_run.attempts@.len() ==> attempt_succeeded(#[trigger] old_run.attempts@[i]),
        ),
{
    let n = old_run.attempts@.len();
    if n + 1 == old_run.count {
        let all = new_run.attempts@;
        assert(all[n as int] == DisplayAttempt { first_ok: false, retry_ok: Some(ok) });
        assert forall|i: int| 0 <= i < n implies all[i] == old_run.attempts@[i] by {}
        if forall|i: int| 0 <= i < all.len() ==> attempt_succeeded(#[trigger] all[i]) {
            assert(attempt_succeeded(all[n as int]));
            assert forall|i: int| 0 <= i < n implies attempt_succeeded(
                #[trigger] old_run.attempts@[i],
            ) by {
                assert(attempt_succeeded(all[i]));
            }
        }
        if ok && forall|i: int| 0 <= i < n ==> attempt_succeeded(#[trigger] old_run.attempts@[i]) {
            assert forall|i: int| 0 <= i < all.len() implies attempt_succeeded(#[trigger] all[i]) by {
                if i < n {
                    assert(attempt_succeeded(old_run.attempts@[i]));
                }
            }
        }
    }
}

/// A run finishes only once every display is done, and a run asks for each
/// display in turn: the action names the first display not yet done.
pub proof fn law_finish_only_when_done(count: nat, attempts: Seq<DisplayAttempt>, retrying: bool)
    ensures
        next_action(count, attempts, retrying) is Finish <==> attempts.len() >= count,
        attempts.len() < count && !retrying ==> next_action(count, attempts, retrying)
            == ApplyAction::Apply(attempts.len() as usize),
{
}

/// Restoring makes three calls for each display, in the order of the
/// captured defaults: the display's mode, vibrance and gamma as captured.
pub proof fn law_restore_calls_per_display(ds: Seq<(String, DefaultSettings)>)
    ensures
        restore_calls_of(ds).len() == 3 * ds.len(),
        forall|i: int|
            #![trigger ds[i]]
            0 <= i < ds.len() ==> restore_calls_of(ds)[3 * i] == (
                ds[i].0@,
                DriverCall::Resolution(ds[i].1.resolution),
            ) && restore_calls_of(ds)[3 * i + 1] == (ds[i].0@, DriverCall::Vibrance(ds[i].1.vibrance))
                && restore_calls_of(ds)[3 * i + 2] == (ds[i].0@, DriverCall::Gamma(ds[i].1.gamma_bits)),
    decreases ds.len(),
{
    if ds.len() > 0 {
        let init = ds.drop_last();
        law_restore_calls_per_display(init);
        let a = restore_calls_of(init);
        let all = restore_calls_of(ds);
        let n = init.len() as int;
        assert forall|i: int| #![trigger ds[i]] 0 <= i < ds.len() implies all[3 * i] == (
            ds[i].0@,
            DriverCall::Resolution(ds[i].1.resolution),
        ) && all[3 * i + 1] == (ds[i].0@, DriverCall::Vibrance(ds[i].1.vibrance)) && all[3 * i + 2]
            == (ds[i].0@, DriverCall::Gamma(ds[i].1.gamma_bits)) by {
            if i < n {
                assert(init[i] == ds[i]);
                assert(all[3 * i] == a[3 * i]);
                assert(all[3 * i + 1] == a[3 * i + 1]);
                assert(all[3 * i + 2] == a[3 * i + 2]);
            } else {
                assert(ds.last() == ds[i]);
            }
        }
    }
}

} // verus!
