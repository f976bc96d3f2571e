//! Waiting: when a condition holds, when to look again and when to give up.
//!
//! Times are milliseconds of one clock.

use vstd::prelude::*;

use crate::error;
use crate::error::{ControllerError, ErrorCode};
use crate::frames;
use crate::frames::FrameHistory;
use crate::geometry;
use crate::geometry::geometries_overlap;
use crate::observe;
use crate::observe::{expired_frame_error, other_target_error};
use crate::text;
use crate::text::{contains_text, is_text, same_text, to_lowercase};
use crate::types;
use crate::types::{
    Geometry, ObserveTarget, TargetView, WaitCondition, WaitRequest, WindowInfo, WindowList,
    WindowSelector,
};
use crate::windows;
use crate::windows::{describe_window, find_window, WindowReading, WindowRefs};

verus! {

/// How long to sleep between two looks where no event wakes a wait.
pub const POLL_MS: u64 = 50;

/// The longest wait.
pub const MAX_TIMEOUT_MS: u64 = 60_000;

/// What to do next in a wait.
#[derive(Debug, Clone, Copy, PartialEq, Eq, Structural)]
pub enum WaitDecision {
    Matched,
    Sleep { ms: u64 },
    TimedOut,
}

/// What to do where a condition does not hold: give up at the deadline, else
/// sleep, between two polls or until an event, but not past the deadline.
pub open spec fn tick(now: u64, deadline: u64, poll: bool) -> WaitDecision {
    if now >= deadline {
        WaitDecision::TimedOut
    } else if poll && deadline - now > POLL_MS {
        WaitDecision::Sleep { ms: POLL_MS }
    } else {
        WaitDecision::Sleep { ms: (deadline - now) as u64 }
    }
}

/// What to do where a condition does not hold.
pub fn wait_tick(now: u64, deadline: u64, poll: bool) -> (decision: WaitDecision)
    ensures
        decision == tick(now, deadline, poll),
{
    if now >= deadline {
        WaitDecision::TimedOut
    } else if poll && deadline - now > POLL_MS {
        WaitDecision::Sleep { ms: POLL_MS }
    } else {
        WaitDecision::Sleep { ms: deadline - now }
    }
}

/// The error of a wait that gave up.
pub fn wait_timeout_error() -> (e: ControllerError)
    ensures
        error::retry_error(e, ErrorCode::Timeout, "wait condition timed out"@),
{
    ControllerError::new(ErrorCode::Timeout, "wait condition timed out").retryable(true)
}

/// A time after another, or the last there is.
pub open spec fn later(now: u64, ms: u64) -> u64 {
    if now + ms > u64::MAX {
        u64::MAX
    } else {
        (now + ms) as u64
    }
}

/// The deadline of a wait.
pub fn deadline_after(now: u64, ms: u64) -> (deadline: u64)
    ensures
        deadline == later(now, ms),
{
    if ms > u64::MAX - now {
        u64::MAX
    } else {
        now + ms
    }
}

/// Why a wait cannot begin, if so.
pub open spec fn wait_problem(request: WaitRequest, refs: windows::Refs) -> Option<
    (ErrorCode, Seq<char>),
> {
    if request.timeout_ms == 0 || request.timeout_ms > MAX_TIMEOUT_MS {
        Some((ErrorCode::InvalidInput, "timeout_ms must be between 1 and 60000"@))
    } else {
        match request.condition {
            WaitCondition::Idle { quiet_ms, target } => if quiet_ms > request.timeout_ms {
                Some((ErrorCode::InvalidInput, "idle quiet_ms cannot exceed timeout_ms"@))
            } else {
                None
            },
            WaitCondition::WindowClosed { window_ref } => if exists|xid: u32| #[trigger]
                refs.was_issued(window_ref@, xid) {
                None
            } else {
                Some(
                    (ErrorCode::StaleWindow, "unknown or stale window reference: "@ + window_ref@),
                )
            },
            _ => None,
        }
    }
}

/// Refuses a wait that cannot begin.
pub fn check_wait(request: &WaitRequest, refs: &WindowRefs) -> (result: Result<
    (),
    ControllerError,
>)
    requires
        refs.well_formed(),
    ensures
        match (result, wait_problem(*request, refs@)) {
            (Ok(()), None) => true,
            (Err(e), Some((code, message))) => error::final_error(e, code, message),
            _ => false,
        },
{
    if request.timeout_ms == 0 || request.timeout_ms > MAX_TIMEOUT_MS {
        return Err(
            ControllerError::new(ErrorCode::InvalidInput, "timeout_ms must be between 1 and 60000"),
        );
    }
    match &request.condition {
        WaitCondition::Idle { quiet_ms, target: _ } => {
            if *quiet_ms > request.timeout_ms {
                return Err(
                    ControllerError::new(
                        ErrorCode::InvalidInput,
                        "idle quiet_ms cannot exceed timeout_ms",
                    ),
                );
            }
            Ok(())
        },
        WaitCondition::WindowClosed { window_ref } => {
            if refs.lookup(window_ref.as_str()).is_none() {
                return Err(
                    error::error2(
                        ErrorCode::StaleWindow,
                        "unknown or stale window reference: ",
                        window_ref.as_str(),
                    ),
                );
            }
            Ok(())
        },
        _ => Ok(()),
    }
}

/// A watch on a part of the screen. Its count changes when the part is damaged.
#[derive(Debug, Clone, Copy, PartialEq, Eq, Structural)]
pub struct DamageWatch {
    pub bounds: Geometry,
    pub count: u64,
}

impl DamageWatch {
    /// The watch after some part of the screen was damaged.
    pub open spec fn after(self, part: Geometry) -> DamageWatch {
        if geometry::overlap(self.bounds, part) && self.count < u64::MAX {
            DamageWatch { count: (self.count + 1) as u64, ..self }
        } else {
            self
        }
    }

    /// Notes that some part of the screen was damaged.
    pub fn note(&mut self, part: Geometry)
        ensures
            *final(self) == old(self).after(part),
    {
        if geometries_overlap(self.bounds, part) && self.count < u64::MAX {
            self.count = self.count + 1;
        }
    }
}

/// What a wait for change compares with. `baseline` is the fingerprint of the
/// unchanged target and `current` the fingerprint that the wait starts with,
/// where it is known already.
#[derive(Debug, Clone, Copy, PartialEq, Eq, Structural)]
pub struct ChangeBase {
    pub baseline: u64,
    pub current: Option<u64>,
}

/// What a wait for change since a frame compares with, or why it cannot. With
/// damage events, the fingerprints count the damage since the frame.
pub open spec fn change_since(
    history: frames::Frames,
    frame_id: u64,
    target: TargetView,
    bounds: Geometry,
    desktop_generation: u64,
    damage_events: bool,
) -> Result<ChangeBase, Seq<char>> {
    match history.find(frame_id) {
        None => Err(observe::expired_frame(frame_id)),
        Some(frame) => if frame.target != target {
            Err(observe::other_target(frame_id))
        } else if !damage_events {
            Ok(ChangeBase { baseline: frame.signature, current: None })
        } else if frame.damage.len() > 0 || frame.bounds != bounds || frame.desktop_generation
            != desktop_generation {
            Ok(ChangeBase { baseline: 0, current: Some(1) })
        } else {
            Ok(ChangeBase { baseline: 0, current: Some(0) })
        },
    }
}

/// What a wait for change since a frame compares with.
pub fn change_base(
    history: &FrameHistory,
    frame_id: u64,
    target: &ObserveTarget,
    bounds: Geometry,
    desktop_generation: u64,
    damage_events: bool,
) -> (result: Result<ChangeBase, ControllerError>)
    ensures
        match (
            result,
            change_since(
                history@,
                frame_id,
                target@,
                bounds,
                desktop_generation,
                damage_events,
            ),
        ) {
            (Ok(base), Ok(expected)) => base == expected,
            (Err(e), Err(message)) => error::retry_error(e, ErrorCode::StaleFrame, message),
            _ => false,
        },
{
    let frame = match history.find(frame_id) {
        Some(frame) => frame,
        None => {
            return Err(expired_frame_error(frame_id));
        },
    };
    if !frame.target.same(target) {
        return Err(other_target_error(frame_id));
    }
    if !damage_events {
        return Ok(ChangeBase { baseline: frame.signature, current: None });
    }
    if frame.damage.len() > 0 || frame.bounds != bounds || frame.desktop_generation
        != desktop_generation {
        Ok(ChangeBase { baseline: 0, current: Some(1) })
    } else {
        Ok(ChangeBase { baseline: 0, current: Some(0) })
    }
}

/// What to do in a wait for a fingerprint to differ from its baseline.
pub open spec fn change_decision(
    baseline: u64,
    fingerprint: u64,
    now: u64,
    deadline: u64,
    poll: bool,
) -> WaitDecision {
    if fingerprint != baseline {
        WaitDecision::Matched
    } else {
        tick(now, deadline, poll)
    }
}

/// What to do in a wait for a fingerprint to differ from its baseline.
pub fn decide_change(
    baseline: u64,
    fingerprint: u64,
    now: u64,
    deadline: u64,
    poll: bool,
) -> (decision: WaitDecision)
    ensures
        decision == change_decision(baseline, fingerprint, now, deadline, poll),
{
    if fingerprint != baseline {
        WaitDecision::Matched
    } else {
        wait_tick(now, deadline, poll)
    }
}

/// A wait for a fingerprint to stay the same.
#[derive(Debug, Clone, Copy, PartialEq, Eq, Structural)]
pub struct IdleWait {
    pub quiet_ms: u64,
    pub fingerprint: u64,
    pub quiet_since: u64,
}

impl IdleWait {
    /// The wait after a look at the fingerprint.
    pub open spec fn after(self, fingerprint: u64, now: u64) -> IdleWait {
        if fingerprint != self.fingerprint {
            IdleWait { fingerprint, quiet_since: now, ..self }
        } else {
            self
        }
    }

    /// Whether the fingerprint has stayed the same for long enough.
    pub open spec fn is_quiet(self, now: u64) -> bool {
        now - self.quiet_since >= self.quiet_ms
    }

    /// What to do at a time. Where no event wakes the wait between two looks,
    /// it sleeps until the quiet period may be over.
    pub open spec fn decision(self, now: u64, deadline: u64, poll: bool) -> WaitDecision {
        if self.is_quiet(now) {
            WaitDecision::Matched
        } else {
            let quiet_at = later(self.quiet_since, self.quiet_ms);
            match tick(now, deadline, poll) {
                WaitDecision::Sleep { ms } => if !poll && quiet_at > now && quiet_at - now < ms {
                    WaitDecision::Sleep { ms: (quiet_at - now) as u64 }
                } else {
                    WaitDecision::Sleep { ms }
                },
                other => other,
            }
        }
    }

    /// Looks at the fingerprint and decides what to do.
    pub fn look(&mut self, fingerprint: u64, now: u64, deadline: u64, poll: bool) -> (decision:
        WaitDecision)
        ensures
            *final(self) == old(self).after(fingerprint, now),
            decision == final(self).decision(now, deadline, poll),
    {
        if fingerprint != self.fingerprint {
            self.fingerprint = fingerprint;
            self.quiet_since = now;
        }
        if now >= self.quiet_since && now - self.quiet_since >= self.quiet_ms {
            return WaitDecision::Matched;
        }
        proof {
            if now < self.quiet_since {
                assert(!self.is_quiet(now));
            }
        }
        let quiet_at = deadline_after(self.quiet_since, self.quiet_ms);
        match wait_tick(now, deadline, poll) {
            WaitDecision::Sleep { ms } => {
                if !poll && quiet_at > now && quiet_at - now < ms {
                    WaitDecision::Sleep { ms: quiet_at - now }
                } else {
                    WaitDecision::Sleep { ms }
                }
            },
            other => other,
        }
    }
}

/// An idle wait after looks, each with a fingerprint and a time.
pub open spec fn after_looks(wait: IdleWait, looks: Seq<(u64, u64)>) -> IdleWait
    decreases looks.len(),
{
    if looks.len() == 0 {
        wait
    } else {
        after_looks(wait, looks.drop_last()).after(looks.last().0, looks.last().1)
    }
}

/// Where an idle wait is quiet, every look of the quiet period saw the same
/// fingerprint.
pub proof fn idle_means_unchanged(wait: IdleWait, looks: Seq<(u64, u64)>, at: int)
    requires
        looks.len() > 0,
        wait.quiet_since <= looks[0].1,
        forall|i: int, j: int| 0 <= i <= j < looks.len() ==> looks[i].1 <= looks[j].1,
        after_looks(wait, looks).is_quiet(looks.last().1),
        0 <= at < looks.len(),
        looks[at].1 + wait.quiet_ms > looks.last().1,
    ensures
        looks[at].0 == looks.last().0,
{
    lemma_looks(wait, looks, at);
}

/// Looks after the last change saw the last fingerprint.
proof fn lemma_looks(wait: IdleWait, looks: Seq<(u64, u64)>, at: int)
    requires
        looks.len() > 0,
        wait.quiet_since <= looks[0].1,
        forall|i: int, j: int| 0 <= i <= j < looks.len() ==> looks[i].1 <= looks[j].1,
        0 <= at < looks.len(),
    ensures
        after_looks(wait, looks).quiet_ms == wait.quiet_ms,
        after_looks(wait, looks).fingerprint == looks.last().0,
        after_looks(wait, looks).quiet_since <= looks.last().1,
        looks[at].1 > after_looks(wait, looks).quiet_since ==> looks[at].0 == looks.last().0,
    decreases looks.len(),
{
    let rest = looks.drop_last();
    if rest.len() == 0 {
        assert(after_looks(wait, rest) == wait);
    } else {
        assert(rest[0] == looks[0]);
        if at < rest.len() {
            lemma_looks(wait, rest, at);
            assert(rest[at] == looks[at]);
        } else {
            lemma_looks(wait, rest, 0);
        }
        assert(looks[rest.len() - 1].1 <= looks[rest.len() as int].1);
    }
}

/// A wait reports a match only where its condition holds and gives up only
/// at its deadline. Until then it sleeps for some time, never past the
/// deadline and, without events, never longer than the poll interval.
pub proof fn waits_are_bounded(
    baseline: u64,
    fingerprint: u64,
    idle: IdleWait,
    now: u64,
    deadline: u64,
    poll: bool,
)
    ensures
        match change_decision(baseline, fingerprint, now, deadline, poll) {
            WaitDecision::Matched => fingerprint != baseline,
            WaitDecision::TimedOut => now >= deadline,
            WaitDecision::Sleep { ms } => 0 < ms && now + ms <= deadline && (poll ==> ms
                <= POLL_MS),
        },
        match idle.decision(now, deadline, poll) {
            WaitDecision::Matched => idle.is_quiet(now),
            WaitDecision::TimedOut => now >= deadline,
            WaitDecision::Sleep { ms } => 0 < ms && now + ms <= deadline && (poll ==> ms
                <= POLL_MS),
        },
{
}

/// The first window that a selector means, from a place on.
pub open spec fn selected_from(
    windows: Seq<WindowInfo>,
    selector: WindowSelector,
    from: int,
) -> Option<WindowInfo>
    decreases windows.len() - from,
{
    if from >= windows.len() {
        None
    } else if types::selects(selector, windows[from]) {
        Some(windows[from])
    } else {
        selected_from(windows, selector, from + 1)
    }
}

/// The first window that a selector means.
pub fn select_window(windows: &Vec<WindowInfo>, selector: &WindowSelector) -> (found: Option<
    WindowInfo,
>)
    ensures
        found == selected_from(windows@, *selector, 0),
{
    let mut at: usize = 0;
    while at < windows.len()
        invariant
            at <= windows.len(),
            selected_from(windows@, *selector, 0) == selected_from(
                windows@,
                *selector,
                at as int,
            ),
        decreases windows.len() - at,
    {
        if selector.matches(&windows[at]) {
            return Some(windows[at].clone());
        }
        at += 1;
    }
    None
}

/// Whether a window is in a state: mapped, active and titled as asked.
pub open spec fn in_state(
    window: WindowInfo,
    active_window: Option<Seq<char>>,
    mapped: Option<bool>,
    active: Option<bool>,
    title_contains: Option<String>,
) -> bool {
    &&& mapped is Some ==> window.mapped == mapped->0
    &&& active is Some ==> (active_window == Some(window.window_ref@)) == active->0
    &&& title_contains is Some ==> text::occurs(
        text::lowercase(window.title@),
        text::lowercase(title_contains->0@),
    )
}

/// What a look at the windows says of a condition on them: whether it holds,
/// and of which window.
pub open spec fn window_condition(condition: WaitCondition, list: WindowList) -> Option<
    Option<WindowInfo>,
> {
    match condition {
        WaitCondition::Window { selector } => match selected_from(list.windows@, selector, 0) {
            Some(window) => Some(Some(window)),
            None => None,
        },
        WaitCondition::WindowState { window_ref, mapped, active, title_contains } =>
            match windows::window_from(list.windows@, window_ref@, 0) {
                Some(window) => if in_state(
                    window,
                    text::opt_text(list.active_window),
                    mapped,
                    active,
                    title_contains,
                ) {
                    Some(Some(window))
                } else {
                    None
                },
                None => None,
            },
        WaitCondition::Focus { window_ref } => if text::opt_text(list.active_window) == Some(
            window_ref@,
        ) {
            Some(windows::window_from(list.windows@, window_ref@, 0))
        } else {
            None
        },
        _ => None,
    }
}

/// Whether a condition on the windows holds, and of which window.
pub fn look_at_windows(condition: &WaitCondition, list: &WindowList) -> (found: Option<
    Option<WindowInfo>,
>)
    ensures
        found == window_condition(*condition, *list),
{
    match condition {
        WaitCondition::Window { selector } => match select_window(&list.windows, selector) {
            Some(window) => Some(Some(window)),
            None => None,
        },
        WaitCondition::WindowState { window_ref, mapped, active, title_contains } => {
            match find_window(&list.windows, window_ref.as_str()) {
                None => None,
                Some(window) => {
                    let mapped_met: bool = match mapped {
                        Some(wanted) => window.mapped == *wanted,
                        None => true,
                    };
                    let is_active: bool = is_text(&list.active_window, window.window_ref.as_str());
                    let active_met: bool = match active {
                        Some(wanted) => is_active == *wanted,
                        None => true,
                    };
                    let title_met: bool = match title_contains {
                        Some(title) => contains_text(
                            to_lowercase(window.title.as_str()).as_str(),
                            to_lowercase(title.as_str()).as_str(),
                        ),
                        None => true,
                    };
                    if mapped_met && active_met && title_met {
                        Some(Some(window.clone()))
                    } else {
                        None
                    }
                },
            }
        },
        WaitCondition::Focus { window_ref } => {
            if is_text(&list.active_window, window_ref.as_str()) {
                match find_window(&list.windows, window_ref.as_str()) {
                    Some(window) => Some(Some(window.clone())),
                    None => Some(None),
                }
            } else {
                None
            }
        },
        _ => None,
    }
}

/// Whether a window is gone: it cannot be read any more, or its reference
/// means another window now.
pub open spec fn is_closed(
    refs: windows::Refs,
    window_ref: Seq<char>,
    xid: u32,
    reading: WindowReading,
) -> bool {
    match reading {
        Err(_) => true,
        Ok(raw) => raw.pid is Err || raw.desktop is Err || refs.ref_of(xid) != window_ref,
    }
}

/// Whether a window is gone.
pub fn window_closed(
    refs: &mut WindowRefs,
    window_ref: &str,
    xid: u32,
    reading: WindowReading,
) -> (closed: bool)
    requires
        old(refs).well_formed(),
    ensures
        final(refs).well_formed(),
        final(refs)@ == (if reading is Ok {
            old(refs)@.seen(xid)
        } else {
            old(refs)@
        }),
        closed == is_closed(old(refs)@, window_ref@, xid, reading),
{
    match reading {
        Err(_) => true,
        Ok(raw) => match describe_window(refs, xid, raw) {
            Err(_) => true,
            Ok(window) => !same_text(window.window_ref.as_str(), window_ref),
        },
    }
}

/// How far a wait has come.
#[derive(Debug, Clone, Copy, PartialEq, Eq, Structural)]
pub enum WaitPhase {
    /// The first look gives the baseline of a wait for change.
    Baseline,
    /// The target is to differ from a baseline.
    Change { baseline: u64 },
    /// The first look gives the fingerprint of a wait for quiet.
    IdleStart { quiet_ms: u64 },
    /// The target is to stay as it is.
    Idle { wait: IdleWait },
    /// The windows are to meet the condition.
    Windows,
    /// A window is to be gone.
    Closed { xid: u32 },
}

/// What a look showed: the fingerprint of the target, the windows, or
/// whether the window is gone.
#[derive(Debug)]
pub enum WaitLook {
    Fingerprint { fingerprint: u64 },
    Windows { list: WindowList },
    Closed { closed: bool },
}

/// What comes of a look.
#[derive(Debug)]
pub enum WaitStep {
    Matched { window: Option<WindowInfo> },
    Sleep { ms: u64 },
    TimedOut,
}

/// A wait of the controller. Without damage events it polls.
#[derive(Debug)]
pub struct ControllerWait {
    pub condition: WaitCondition,
    pub deadline: u64,
    pub poll: bool,
    pub phase: WaitPhase,
}

/// A decision as a step, which is of no window.
pub open spec fn step_of(decision: WaitDecision) -> WaitStep {
    match decision {
        WaitDecision::Matched => WaitStep::Matched { window: None },
        WaitDecision::Sleep { ms } => WaitStep::Sleep { ms },
        WaitDecision::TimedOut => WaitStep::TimedOut,
    }
}

/// A decision as a step, which is of no window.
fn to_step(decision: WaitDecision) -> (step: WaitStep)
    ensures
        step == step_of(decision),
{
    match decision {
        WaitDecision::Matched => WaitStep::Matched { window: None },
        WaitDecision::Sleep { ms } => WaitStep::Sleep { ms },
        WaitDecision::TimedOut => WaitStep::TimedOut,
    }
}

impl ControllerWait {
    /// What a look leads to: the phase after it, and the step. A look that
    /// does not fit the phase shows nothing. After the look that gives the
    /// baseline the next one follows at once.
    pub open spec fn after(&self, look: WaitLook, now: u64) -> (WaitPhase, WaitStep) {
        let unmet = step_of(tick(now, self.deadline, self.poll));
        match (self.phase, look) {
            (WaitPhase::Baseline, WaitLook::Fingerprint { fingerprint }) => (
                WaitPhase::Change { baseline: fingerprint },
                WaitStep::Sleep { ms: 0 },
            ),
            (WaitPhase::Change { baseline }, WaitLook::Fingerprint { fingerprint }) => (
                self.phase,
                step_of(
                    change_decision(baseline, fingerprint, now, self.deadline, self.poll),
                ),
            ),
            (WaitPhase::IdleStart { quiet_ms }, WaitLook::Fingerprint { fingerprint }) => {
                let wait = IdleWait { quiet_ms, fingerprint, quiet_since: now };
                (WaitPhase::Idle { wait }, step_of(wait.decision(now, self.deadline, self.poll)))
            },
            (WaitPhase::Idle { wait }, WaitLook::Fingerprint { fingerprint }) => {
                let next = wait.after(fingerprint, now);
                (
                    WaitPhase::Idle { wait: next },
                    step_of(next.decision(now, self.deadline, self.poll)),
                )
            },
            (WaitPhase::Windows, WaitLook::Windows { list }) => (
                self.phase,
                match window_condition(self.condition, list) {
                    Some(window) => WaitStep::Matched { window },
                    None => unmet,
                },
            ),
            (WaitPhase::Closed { .. }, WaitLook::Closed { closed }) => (
                self.phase,
                if closed {
                    WaitStep::Matched { window: None }
                } else {
                    unmet
                },
            ),
            _ => (self.phase, unmet),
        }
    }

    /// Takes a look into account.
    pub fn step(&mut self, look: WaitLook, now: u64) -> (step: WaitStep)
        ensures
            step == old(self).after(look, now).1,
            final(self).phase == old(self).after(look, now).0,
            final(self).condition == old(self).condition,
            final(self).deadline == old(self).deadline,
            final(self).poll == old(self).poll,
    {
        let deadline: u64 = self.deadline;
        let poll: bool = self.poll;
        match (self.phase, look) {
            (WaitPhase::Baseline, WaitLook::Fingerprint { fingerprint }) => {
                self.phase = WaitPhase::Change { baseline: fingerprint };
                WaitStep::Sleep { ms: 0 }
            },
            (WaitPhase::Change { baseline }, WaitLook::Fingerprint { fingerprint }) => to_step(
                decide_change(baseline, fingerprint, now, deadline, poll),
            ),
            (WaitPhase::IdleStart { quiet_ms }, WaitLook::Fingerprint { fingerprint }) => {
                let mut wait = IdleWait { quiet_ms, fingerprint, quiet_since: now };
                let decision = wait.look(fingerprint, now, deadline, poll);
                self.phase = WaitPhase::Idle { wait };
                to_step(decision)
            },
            (WaitPhase::Idle { wait }, WaitLook::Fingerprint { fingerprint }) => {
                let mut next = wait;
                let decision = next.look(fingerprint, now, deadline, poll);
                self.phase = WaitPhase::Idle { wait: next };
                to_step(decision)
            },
            (WaitPhase::Windows, WaitLook::Windows { list }) => {
                match look_at_windows(&self.condition, &list) {
                    Some(window) => WaitStep::Matched { window },
                    None => to_step(wait_tick(now, deadline, poll)),
                }
            },
            (WaitPhase::Closed { .. }, WaitLook::Closed { closed }) => {
                if closed {
                    WaitStep::Matched { window: None }
                } else {
                    to_step(wait_tick(now, deadline, poll))
                }
            },
            _ => to_step(wait_tick(now, deadline, poll)),
        }
    }
}

/// The phase in which a wait begins, or why it cannot.
pub open spec fn first_phase(
    condition: WaitCondition,
    history: frames::Frames,
    bounds: Geometry,
    desktop_generation: u64,
    damage_events: bool,
) -> Result<WaitPhase, Seq<char>> {
    match condition {
        WaitCondition::Change { since_frame_id, target } => match since_frame_id {
            Some(frame_id) => match change_since(
                history,
                frame_id,
                target@,
                bounds,
                desktop_generation,
                damage_events,
            ) {
                Ok(base) => Ok(WaitPhase::Change { baseline: base.baseline }),
                Err(message) => Err(message),
            },
            None => Ok(WaitPhase::Baseline),
        },
        WaitCondition::Idle { quiet_ms, target } => Ok(WaitPhase::IdleStart { quiet_ms }),
        _ => Ok(WaitPhase::Windows),
    }
}

/// The damage that a watch for a wait starts with: some where the target
/// changed before the wait began.
pub open spec fn first_count(
    condition: WaitCondition,
    history: frames::Frames,
    bounds: Geometry,
    desktop_generation: u64,
    damage_events: bool,
) -> u64 {
    match condition {
        WaitCondition::Change { since_frame_id: Some(frame_id), target } => match change_since(
            history,
            frame_id,
            target@,
            bounds,
            desktop_generation,
            damage_events,
        ) {
            Ok(base) => match base.current {
                Some(count) => count,
                None => 0,
            },
            Err(_) => 0,
        },
        _ => 0,
    }
}

/// Begins a wait on a target with some bounds. Where there are damage events,
/// the watch counts them from the second part of the result on.
pub fn begin_wait(
    request: WaitRequest,
    history: &FrameHistory,
    refs: &WindowRefs,
    bounds: Geometry,
    desktop_generation: u64,
    damage_events: bool,
    now: u64,
) -> (result: Result<(ControllerWait, DamageWatch), ControllerError>)
    requires
        refs.well_formed(),
    ensures
        match (result, wait_problem(request, refs@)) {
            (Err(e), Some((code, message))) => error::final_error(e, code, message),
            (Ok(_), Some(_)) => false,
            (result, None) => match (
                result,
                first_phase(
                    request.condition,
                    history@,
                    bounds,
                    desktop_generation,
                    damage_events,
                ),
            ) {
                (Err(e), Err(message)) => error::retry_error(e, ErrorCode::StaleFrame, message),
                (Ok((wait, watch)), Ok(phase)) => {
                    &&& wait.condition == request.condition
                    &&& wait.deadline == later(now, request.timeout_ms)
                    &&& wait.poll == !damage_events
                    &&& match request.condition {
                        WaitCondition::WindowClosed { window_ref } => wait.phase is Closed
                            && refs@.was_issued(window_ref@, wait.phase->xid),
                        _ => wait.phase == phase,
                    }
                    &&& watch.bounds == bounds
                    &&& watch.count == first_count(
                        request.condition,
                        history@,
                        bounds,
                        desktop_generation,
                        damage_events,
                    )
                },
                _ => false,
            },
        },
{
    match check_wait(&request, refs) {
        Ok(()) => {},
        Err(e) => {
            return Err(e);
        },
    }
    let deadline = deadline_after(now, request.timeout_ms);
    let mut count: u64 = 0;
    let phase = match &request.condition {
        WaitCondition::Change { since_frame_id, target } => match since_frame_id {
            Some(frame_id) => match change_base(
                history,
                *frame_id,
                target,
                bounds,
                desktop_generation,
                damage_events,
            ) {
                Ok(base) => {
                    if let Some(current) = base.current {
                        count = current;
                    }
                    WaitPhase::Change { baseline: base.baseline }
                },
                Err(e) => {
                    return Err(e);
                },
            },
            None => WaitPhase::Baseline,
        },
        WaitCondition::Idle { quiet_ms, target: _ } => WaitPhase::IdleStart {
            quiet_ms: *quiet_ms,
        },
        WaitCondition::WindowClosed { window_ref } => match refs.lookup(window_ref.as_str()) {
            Some(xid) => WaitPhase::Closed { xid },
            None => WaitPhase::Windows,
        },
        _ => WaitPhase::Windows,
    };
    Ok(
        (
            ControllerWait {
                condition: request.condition,
                deadline,
                poll: !damage_events,
                phase,
            },
            DamageWatch { bounds, count },
        ),
    )
}

/// A wait for the state of a window is met by the window with the given
/// reference alone, and only where each constraint that is present holds,
/// whatever the others are.
pub proof fn window_states_meet_every_constraint(
    wait: ControllerWait,
    list: WindowList,
    now: u64,
    window_ref: String,
    mapped: Option<bool>,
    active: Option<bool>,
    title_contains: Option<String>,
)
    requires
        wait.phase is Windows,
        wait.condition == (WaitCondition::WindowState {
            window_ref,
            mapped,
            active,
            title_contains,
        }),
    ensures
        window_condition(wait.condition, list) is Some <==> wait.after(
            WaitLook::Windows { list },
            now,
        ).1 is Matched,
        wait.after(WaitLook::Windows { list }, now).1 matches WaitStep::Matched { window } ==> {
            &&& window is Some
            &&& list.windows@.contains(window->0)
            &&& window->0.window_ref@ == window_ref@
            &&& mapped is Some ==> window->0.mapped == mapped->0
            &&& active is Some ==> (active->0 <==> list.active_window is Some
                && list.active_window->0@ == window_ref@)
            &&& title_contains matches Some(title) ==> text::occurs(
                text::lowercase(window->0.title@),
                text::lowercase(title@),
            )
        },
{
    windows::references_mean_their_window(list.windows@, window_ref@, 0);
}

/// A wait for the state of a window is met as soon as the window with the
/// given reference is listed and no constraint fails.
pub proof fn window_states_are_noticed(
    wait: ControllerWait,
    list: WindowList,
    now: u64,
    window_ref: String,
    mapped: Option<bool>,
    active: Option<bool>,
    title_contains: Option<String>,
    at: int,
)
    requires
        wait.phase is Windows,
        wait.condition == (WaitCondition::WindowState {
            window_ref,
            mapped,
            active,
            title_contains,
        }),
        0 <= at < list.windows@.len(),
        list.windows@[at].window_ref@ == window_ref@,
        forall|i: int| 0 <= i < at ==> (#[trigger] list.windows@[i]).window_ref@ != window_ref@,
        mapped != Some(!list.windows@[at].mapped),
        active != Some(
            !(list.active_window is Some && list.active_window->0@ == window_ref@),
        ),
        title_contains is None || text::occurs(
            text::lowercase(list.windows@[at].title@),
            text::lowercase(title_contains->0@),
        ),
    ensures
        wait.after(WaitLook::Windows { list }, now).1 == (WaitStep::Matched {
            window: Some(list.windows@[at]),
        }),
{
    windows::references_mean_their_window(list.windows@, window_ref@, 0);
}

/// A wait for focus is met exactly where the named window is the active one,
/// and hands it out where it is listed.
pub proof fn focus_waits_for_the_active_window(
    wait: ControllerWait,
    list: WindowList,
    now: u64,
    window_ref: String,
)
    requires
        wait.phase is Windows,
        wait.condition == (WaitCondition::Focus { window_ref }),
    ensures
        wait.after(WaitLook::Windows { list }, now).1 is Matched <==> list.active_window is Some
            && list.active_window->0@ == window_ref@,
        wait.after(WaitLook::Windows { list }, now).1 matches WaitStep::Matched { window } ==> {
            &&& window matches Some(found) ==> list.windows@.contains(found)
                && found.window_ref@ == window_ref@
            &&& window is None ==> forall|i: int|
                0 <= i < list.windows@.len() ==> (#[trigger] list.windows@[i]).window_ref@
                    != window_ref@
        },
{
    windows::references_mean_their_window(list.windows@, window_ref@, 0);
}

/// A wait for a window is met exactly where some window fits the selector, and
/// hands out the first that does.
pub proof fn window_waits_find_the_first_match(
    wait: ControllerWait,
    list: WindowList,
    now: u64,
    selector: WindowSelector,
)
    requires
        wait.phase is Windows,
        wait.condition == (WaitCondition::Window { selector }),
    ensures
        match wait.after(WaitLook::Windows { list }, now).1 {
            WaitStep::Matched { window } => window is Some && exists|at: int|
                0 <= at < list.windows@.len() && window->0 == #[trigger] list.windows@[at]
                    && types::selects(selector, list.windows@[at]) && forall|i: int|
                    0 <= i < at ==> !types::selects(selector, #[trigger] list.windows@[i]),
            _ => forall|i: int|
                0 <= i < list.windows@.len() ==> !types::selects(
                    selector,
                    #[trigger] list.windows@[i],
                ),
        },
{
    lemma_selected_from(list.windows@, selector, 0);
}

/// What a search for a window finds, from a place on.
proof fn lemma_selected_from(windows: Seq<WindowInfo>, selector: WindowSelector, from: int)
    requires
        0 <= from,
    ensures
        match selected_from(windows, selector, from) {
            Some(window) => exists|at: int|
                from <= at < windows.len() && window == #[trigger] windows[at] && types::selects(
                    selector,
                    windows[at],
                ) && forall|i: int|
                    from <= i < at ==> !types::selects(selector, #[trigger] windows[i]),
            None => forall|i: int|
                from <= i < windows.len() ==> !types::selects(selector, #[trigger] windows[i]),
        },
    decreases windows.len() - from,
{
    if from < windows.len() && !types::selects(selector, windows[from]) {
        lemma_selected_from(windows, selector, from + 1);
    }
}

/// A wait that is not met gives up exactly at its deadline and until then
/// sleeps for some time: with events up to the deadline, without them for at
/// most fifty milliseconds.
pub proof fn unmet_waits_sleep_until_the_deadline(wait: ControllerWait, look: WaitLook, now: u64)
    requires
        !(wait.phase is Baseline),
        !(wait.after(look, now).1 is Matched),
    ensures
        now >= wait.deadline <==> wait.after(look, now).1 is TimedOut,
        wait.after(look, now).1 matches WaitStep::Sleep { ms } ==> {
            &&& 0 < ms <= wait.deadline - now
            &&& wait.poll ==> ms <= 50 && (ms == 50 || now + ms == wait.deadline)
            &&& !wait.poll ==> now + ms == wait.deadline || (wait.after(look, now).0 is Idle && now
                + ms == wait.after(look, now).0->wait.quiet_since + wait.after(
                look,
                now,
            ).0->wait.quiet_ms)
        },
{
}

/// A wait for change is met exactly where the target does not look as it did:
/// without a frame to compare with, as it did at the first look.
pub proof fn change_waits_compare_with_the_baseline(
    wait: ControllerWait,
    fingerprint: u64,
    baseline: u64,
    now: u64,
)
    requires
        wait.phase == (WaitPhase::Change { baseline }),
    ensures
        wait.after(WaitLook::Fingerprint { fingerprint }, now).1 is Matched <==> fingerprint
            != baseline,
        wait.after(WaitLook::Fingerprint { fingerprint }, now).0 == wait.phase,
        ({
            let first = ControllerWait { phase: WaitPhase::Baseline, ..wait };
            let (phase, step) = first.after(WaitLook::Fingerprint { fingerprint: baseline }, now);
            phase == wait.phase && step == (WaitStep::Sleep { ms: 0 })
        }),
{
}

/// A wait for a window to close is met exactly where the window is gone.
pub proof fn close_waits_for_the_window_to_go(wait: ControllerWait, closed: bool, now: u64)
    requires
        wait.phase is Closed,
    ensures
        wait.after(WaitLook::Closed { closed }, now).1 is Matched <==> closed,
        wait.after(WaitLook::Closed { closed }, now).0 == wait.phase,
{
}

/// A window whose reference still means it, and which can be read, is not
/// gone; one that cannot be read, or whose reference means another, is.
pub proof fn closed_windows_lost_their_reference(
    refs: windows::Refs,
    window_ref: Seq<char>,
    xid: u32,
    reading: WindowReading,
)
    requires
        refs.valid(),
    ensures
        reading is Err ==> is_closed(refs, window_ref, xid, reading),
        reading is Ok && (reading->Ok_0.pid is Err || reading->Ok_0.desktop is Err) ==> is_closed(
            refs,
            window_ref,
            xid,
            reading,
        ),
        reading is Ok && reading->Ok_0.pid is Ok && reading->Ok_0.desktop is Ok
            && refs.live.dom().contains(xid) ==> (is_closed(refs, window_ref, xid, reading)
            <==> window_ref != windows::handle(refs.live[xid])),
{
}

/// An idle wait is met once its target looked the same for the whole quiet
/// period, and not before: what it saw last it must have seen at every look,
/// since a look that lies as far back as the period is long.
pub proof fn quiet_targets_end_an_idle_wait(wait: IdleWait, looks: Seq<(u64, u64)>, from: int)
    requires
        0 <= from < looks.len(),
        forall|i: int, j: int| 0 <= i <= j < looks.len() ==> looks[i].1 <= looks[j].1,
        forall|i: int| from <= i < looks.len() ==> (#[trigger] looks[i]).0 == looks.last().0,
        wait.quiet_since <= looks[0].1,
    ensures
        looks.last().1 - looks[from].1 >= wait.quiet_ms ==> after_looks(wait, looks).is_quiet(
            looks.last().1,
        ),
        from > 0 && looks[from - 1].0 != looks.last().0 ==> (after_looks(wait, looks).is_quiet(
            looks.last().1,
        ) <==> looks.last().1 - looks[from].1 >= wait.quiet_ms),
    decreases looks.len(),
{
    lemma_quiet_since(wait, looks, from);
}

/// When the last fingerprint of some looks was seen first.
proof fn lemma_quiet_since(wait: IdleWait, looks: Seq<(u64, u64)>, from: int)
    requires
        0 <= from < looks.len(),
        forall|i: int, j: int| 0 <= i <= j < looks.len() ==> looks[i].1 <= looks[j].1,
        forall|i: int| from <= i < looks.len() ==> (#[trigger] looks[i]).0 == looks.last().0,
        wait.quiet_since <= looks[0].1,
    ensures
        after_looks(wait, looks).quiet_ms == wait.quiet_ms,
        after_looks(wait, looks).fingerprint == looks.last().0,
        after_looks(wait, looks).quiet_since <= looks[from].1,
        from > 0 && looks[from - 1].0 != looks.last().0 ==> after_looks(wait, looks).quiet_since
            == looks[from].1,
    decreases looks.len(),
{
    let rest = looks.drop_last();
    if rest.len() > 0 {
        assert(rest[0] == looks[0]);
        if from < rest.len() {
            assert(looks[rest.len() - 1].0 == looks.last().0);
            lemma_quiet_since(wait, rest, from);
        } else {
            lemma_quiet_since(wait, rest, rest.len() - 1);
            assert(looks[rest.len() - 1].1 <= looks[rest.len() as int].1);
        }
    } else {
        assert(after_looks(wait, rest) == wait);
    }
}

/// The phase of an idle wait follows its looks: the first look starts the
/// quiet period, and each look is met exactly where the period is over.
pub proof fn idle_waits_follow_their_looks(
    wait: ControllerWait,
    idle: IdleWait,
    fingerprint: u64,
    now: u64,
)
    requires
        wait.phase == (WaitPhase::Idle { wait: idle }),
        idle.quiet_since <= now,
    ensures
        ({
            let (phase, step) = wait.after(WaitLook::Fingerprint { fingerprint }, now);
            &&& phase is Idle
            &&& phase->wait.fingerprint == fingerprint
            &&& phase->wait.quiet_ms == idle.quiet_ms
            &&& phase->wait.quiet_since == (if fingerprint == idle.fingerprint {
                idle.quiet_since
            } else {
                now
            })
            &&& step is Matched <==> now - phase->wait.quiet_since >= idle.quiet_ms
        }),
        ({
            let first = ControllerWait {
                phase: WaitPhase::IdleStart { quiet_ms: idle.quiet_ms },
                ..wait
            };
            let (phase, step) = first.after(WaitLook::Fingerprint { fingerprint }, now);
            &&& phase == (WaitPhase::Idle {
                wait: IdleWait { quiet_ms: idle.quiet_ms, fingerprint, quiet_since: now },
            })
            &&& step is Matched <==> idle.quiet_ms == 0
        }),
{
}

/// A wait lasts as long as it was asked to, and one that asks for no time, for
/// more than a minute, for a quiet period longer than itself, or for a window
/// that never had a reference, does not begin.
pub proof fn waits_have_a_limit(request: WaitRequest, refs: windows::Refs, now: u64)
    ensures
        request.timeout_ms == 0 || request.timeout_ms > 60_000 ==> wait_problem(request, refs)
            is Some,
        request.condition matches WaitCondition::Idle { quiet_ms, target } && quiet_ms
            > request.timeout_ms ==> wait_problem(request, refs) is Some,
        wait_problem(request, refs) is None ==> {
            &&& 1 <= request.timeout_ms <= 60_000
            &&& request.condition matches WaitCondition::Idle { quiet_ms, target } ==> quiet_ms
                <= request.timeout_ms
            &&& now <= u64::MAX - 60_000 ==> later(now, request.timeout_ms) - now
                == request.timeout_ms
        },
        1 <= request.timeout_ms <= 60_000 && wait_problem(request, refs) is Some ==> {
            ||| request.condition matches WaitCondition::Idle { quiet_ms, target } && quiet_ms
                > request.timeout_ms
            ||| request.condition matches WaitCondition::WindowClosed { window_ref } && forall|
                place: int,
            |
                0 <= place < refs.issued.len() ==> #[trigger] windows::handle(place)
                    != window_ref@
        },
        request.condition matches WaitCondition::WindowClosed { window_ref } && (forall|
            place: int,
        |
            0 <= place < refs.issued.len() ==> #[trigger] windows::handle(place) != window_ref@)
            ==> wait_problem(request, refs) is Some,
{
    if let WaitCondition::WindowClosed { window_ref } = request.condition {
        if forall|xid: u32| !#[trigger] refs.was_issued(window_ref@, xid) {
            assert forall|place: int| 0 <= place < refs.issued.len() implies
                #[trigger] windows::handle(place) != window_ref@ by {
                assert(!refs.was_issued(window_ref@, refs.issued[place]));
            }
        }
    }
}

/// A wait for change since a frame starts out changed exactly where the frame
/// shows its target no longer as it is: it was damaged, or it lies elsewhere, or
/// the desktop changed. Without damage events it compares with what the frame
/// looked like. A frame that is not kept or shows another target is refused.
pub proof fn changes_since_a_frame_are_not_missed(
    history: frames::Frames,
    frame_id: u64,
    target: TargetView,
    bounds: Geometry,
    desktop_generation: u64,
    damage_events: bool,
)
    ensures
        ({
            let base = change_since(
                history,
                frame_id,
                target,
                bounds,
                desktop_generation,
                damage_events,
            );
            &&& base is Err <==> history.find(frame_id) is None || history.find(frame_id)->0.target
                != target
            &&& base is Ok && !damage_events ==> base->Ok_0.current is None && base->Ok_0.baseline
                == history.find(frame_id)->0.signature
            &&& base is Ok && damage_events ==> {
                &&& base->Ok_0.current is Some
                &&& base->Ok_0.current->0 == base->Ok_0.baseline <==> {
                    &&& history.find(frame_id)->0.damage.len() == 0
                    &&& history.find(frame_id)->0.bounds == bounds
                    &&& history.find(frame_id)->0.desktop_generation == desktop_generation
                }
            }
        }),
{
}

/// The watch of a wait for change counts from its start value on, and moves
/// away from the baseline with every damage of the watched part and no other.
pub proof fn damage_of_the_watched_part_is_a_change(watch: DamageWatch, part: Geometry)
    requires
        watch.count < u64::MAX,
    ensures
        watch.after(part).bounds == watch.bounds,
        watch.after(part).count == watch.count || watch.after(part).count == watch.count + 1,
        geometry::nonempty(watch.bounds) && geometry::nonempty(part) ==> (watch.after(part).count
            > watch.count <==> exists|x: int, y: int| #[trigger]
            geometry::covers(watch.bounds, x, y) && geometry::covers(part, x, y)),
{
    if geometry::nonempty(watch.bounds) && geometry::nonempty(part) {
        geometry::overlap_is_a_shared_pixel(watch.bounds, part);
    }
}

/// A wait for change since a frame is refused, as one that can be retried, where
/// the frame is no longer kept or shows another target. Without damage events it
/// compares with the signature of the frame; with them it is met at once exactly
/// where damage touched the frame since, or its bounds or the topology changed.
pub proof fn waits_since_a_frame_start_from_it(
    history: FrameHistory,
    frame_id: u64,
    target: ObserveTarget,
    bounds: Geometry,
    desktop_generation: u64,
    damage_events: bool,
    result: Result<ChangeBase, ControllerError>,
)
    requires
        call_ensures(
            change_base,
            (&history, frame_id, &target, bounds, desktop_generation, damage_events),
            result,
        ),
    ensures
        ({
            let found = history@.find(frame_id);
            let frame = found->0;
            &&& result is Ok <==> found is Some && frame.target == target@
            &&& result is Err ==> result->Err_0.code == ErrorCode::StaleFrame
                && result->Err_0.retryable
            &&& result is Ok && !damage_events ==> result->Ok_0.baseline == frame.signature
                && result->Ok_0.current is None
            &&& result is Ok && damage_events ==> {
                let base = result->Ok_0;
                &&& base.current is Some
                &&& base.current->0 != base.baseline <==> frame.damage.len() > 0 || frame.bounds
                    != bounds || frame.desktop_generation != desktop_generation
            }
        }),
{
}

} // verus!
