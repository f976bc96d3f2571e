//! Sessions: batches, semantic waits, and observations after an action.
//!
//! Times are nanoseconds of one clock.

use vstd::prelude::*;

use crate::accessibility;
use crate::accessibility::{
    AccessibilityActionRequest, AccessibilityActionResult, AccessibilityInfo, AccessibleNode,
    AccessibleValue, ActionObject, ElementRegistry, ElementSelector,
};
use crate::applications;
use crate::applications::{ApplicationCapabilities, LaunchAppRequest, LaunchAppResult};
use crate::controller;
use crate::controller::{Controller, DragEnds, PointerTarget, Situation};
use crate::error;
use crate::error::{ControllerError, ErrorCode, ErrorDetails, Fault};
use crate::ieee;
use crate::settle;
use crate::settle::final_request;
use crate::types::{
    ActionResult, Capabilities, ClickRequest, DragRequest, FocusWindowRequest, KeyRequest,
    MovePointerRequest, Observation, ObserveAfter, ObserveRequest, ObserveTarget, Position, ScrollRequest, StateGuard, TypeTextRequest, WaitCondition,
    WaitRequest, WaitResult, WindowActionRequest, WindowInfo, WindowSelector,
};
use crate::wait::MAX_TIMEOUT_MS;

verus! {

/// How many steps a batch may have.
pub const MAX_BATCH_STEPS: usize = 64;

/// The limits of a session.
#[derive(Debug, Clone, Copy, PartialEq, Eq, Structural)]
pub struct SessionLimits {
    pub frame_history: usize,
    pub max_batch_steps: usize,
    pub max_semantic_nodes: usize,
}

/// What a session offers.
#[derive(Debug)]
pub struct SessionCapabilities {
    pub x11: Capabilities,
    pub accessibility: AccessibilityInfo,
    pub applications: ApplicationCapabilities,
    pub limits: SessionLimits,
}

/// What a session offers, from what its parts offer.
pub fn session_capabilities(
    x11: Capabilities,
    accessibility: AccessibilityInfo,
    applications: ApplicationCapabilities,
) -> (capabilities: SessionCapabilities)
    ensures
        capabilities.x11 == x11,
        capabilities.accessibility == accessibility,
        capabilities.applications == applications,
        capabilities.limits.frame_history == crate::frames::FRAME_HISTORY_SIZE,
        capabilities.limits.max_batch_steps == MAX_BATCH_STEPS,
        capabilities.limits.max_semantic_nodes == accessibility::MAX_NODES,
{
    SessionCapabilities {
        x11,
        accessibility,
        applications,
        limits: SessionLimits {
            frame_history: crate::frames::FRAME_HISTORY_SIZE,
            max_batch_steps: MAX_BATCH_STEPS,
            max_semantic_nodes: accessibility::MAX_NODES,
        },
    }
}

/// The outcome of a semantic action and of the observation after it.
#[derive(Debug)]
pub struct AccessibilityActionOutput {
    pub action: AccessibilityActionResult,
    pub settled: bool,
    pub observation: Option<Observation>,
}

/// Asks for steps under one guard and one deadline.
#[derive(Debug)]
pub struct BatchRequest {
    pub steps: Vec<BatchStep>,
    pub guard: StateGuard,
    pub timeout_ms: u64,
    pub observe_after: Option<ObserveAfter>,
}

/// A step of a batch.
#[derive(Debug)]
pub enum BatchStep {
    FocusWindow { request: FocusWindowRequest },
    MovePointer { request: MovePointerRequest },
    Click { request: ClickRequest },
    Drag { request: DragRequest },
    Scroll { request: ScrollRequest },
    Key { request: KeyRequest },
    TypeText { request: TypeTextRequest },
    WindowAction { request: WindowActionRequest },
    AccessibilityAction { request: AccessibilityActionRequest },
    LaunchApp { request: LaunchAppRequest },
    WaitFor { request: SessionWaitRequest },
}

/// What a step came to.
#[derive(Debug)]
pub enum StepValue {
    Action(ActionResult),
    Semantic(AccessibilityActionResult),
    Launch(LaunchAppResult),
    Wait(SessionWaitResult),
}

/// A completed step.
#[derive(Debug)]
pub struct BatchStepResult {
    pub index: usize,
    pub value: StepValue,
}

/// The outcome of a batch.
#[derive(Debug)]
pub struct BatchResult {
    pub ok: bool,
    pub steps: Vec<BatchStepResult>,
    pub settled: bool,
    pub observation: Option<Observation>,
}

/// Asks to wait.
#[derive(Debug)]
pub struct SessionWaitRequest {
    pub condition: SessionWaitCondition,
    pub timeout_ms: u64,
    pub observe: bool,
}

/// What a session can wait for.
#[derive(Debug)]
pub enum SessionWaitCondition {
    FrameChanged { since_frame_id: Option<u64>, target: ObserveTarget },
    FrameIdle { quiet_ms: u64, target: ObserveTarget },
    WindowMatched { selector: WindowSelector },
    WindowState {
        window_ref: String,
        mapped: Option<bool>,
        active: Option<bool>,
        title_contains: Option<String>,
    },
    WindowClosed { window_ref: String },
    ElementMatched { selector: ElementSelector },
    ElementState {
        element_ref: String,
        states_all: Vec<String>,
        name_contains: Option<String>,
        text_contains: Option<String>,
        value: Option<ValueRange>,
    },
}

/// A range of numbers, as bit patterns of binary64 numbers. An absent bound is none.
#[derive(Debug, Clone, Copy, PartialEq, Eq, Structural)]
pub struct ValueRange {
    pub minimum: Option<u64>,
    pub maximum: Option<u64>,
}

impl ValueRange {
    /// Whether a value is there and lies in the range.
    pub open spec fn holds(self, value: Option<AccessibleValue>) -> bool {
        &&& value is Some
        &&& self.minimum is Some ==> ieee::at_most(self.minimum->0, value->0.current)
        &&& self.maximum is Some ==> ieee::at_most(value->0.current, self.maximum->0)
    }

    /// Whether a value is there and lies in the range.
    pub fn matches(&self, value: &Option<AccessibleValue>) -> (matched: bool)
        ensures
            matched == self.holds(*value),
    {
        match value {
            None => false,
            Some(value) => {
                let above: bool = match self.minimum {
                    Some(minimum) => ieee::le(minimum, value.current),
                    None => true,
                };
                let below: bool = match self.maximum {
                    Some(maximum) => ieee::le(value.current, maximum),
                    None => true,
                };
                above && below
            },
        }
    }
}

/// The outcome of a wait.
#[derive(Debug)]
pub struct SessionWaitResult {
    pub matched: bool,
    pub window: Option<WindowInfo>,
    pub element: Option<AccessibleNode>,
    pub observation: Option<Observation>,
}

impl SessionWaitResult {
    /// The outcome of a wait of the controller.
    pub fn x11(result: WaitResult) -> (outcome: Self)
        ensures
            outcome.matched == result.matched,
            outcome.window == result.window,
            outcome.element is None,
            outcome.observation == result.observation,
    {
        SessionWaitResult {
            matched: result.matched,
            window: result.window,
            element: None,
            observation: result.observation,
        }
    }

    /// The outcome of a wait for a frame.
    pub fn observation(observation: Option<Observation>) -> (outcome: Self)
        ensures
            outcome.matched,
            outcome.window is None,
            outcome.element is None,
            outcome.observation == observation,
    {
        SessionWaitResult { matched: true, window: None, element: None, observation }
    }

    /// The outcome of a wait for an element.
    pub fn element(element: AccessibleNode, observation: Option<Observation>) -> (outcome: Self)
        ensures
            outcome.matched,
            outcome.window is None,
            outcome.element == Some(element),
            outcome.observation == observation,
    {
        SessionWaitResult { matched: true, window: None, element: Some(element), observation }
    }
}

/// Whether a time limit can be had.
pub open spec fn valid_timeout(timeout_ms: u64) -> bool {
    1 <= timeout_ms <= MAX_TIMEOUT_MS
}

/// Refuses a time limit that cannot be had.
pub fn validate_timeout(timeout_ms: u64) -> (result: Result<(), ControllerError>)
    ensures
        match result {
            Ok(()) => valid_timeout(timeout_ms),
            Err(e) => !valid_timeout(timeout_ms) && error::final_error(
                e,
                ErrorCode::InvalidInput,
                "timeout_ms must be between 1 and 60000"@,
            ),
        },
{
    if timeout_ms == 0 || timeout_ms > MAX_TIMEOUT_MS {
        Err(ControllerError::new(ErrorCode::InvalidInput, "timeout_ms must be between 1 and 60000"))
    } else {
        Ok(())
    }
}

/// The time that is left until a deadline.
pub open spec fn time_left(deadline: u64, now: u64) -> int {
    if now >= deadline {
        0
    } else {
        deadline - now
    }
}

/// The time limit for what is left until a deadline, where anything is:
/// in whole milliseconds, within the limits.
pub open spec fn timeout_left(deadline: u64, now: u64) -> Option<u64> {
    let whole = time_left(deadline, now) / 1_000_000;
    if time_left(deadline, now) == 0 {
        None
    } else if whole < 1 {
        Some(1)
    } else if whole > MAX_TIMEOUT_MS {
        Some(MAX_TIMEOUT_MS)
    } else {
        Some(whole as u64)
    }
}

/// The time limit for what is left until a deadline, where anything is.
pub fn remaining_timeout_ms(deadline: u64, now: u64) -> (timeout: Option<u64>)
    ensures
        timeout == timeout_left(deadline, now),
{
    if now >= deadline {
        return None;
    }
    let whole: u64 = (deadline - now) / 1_000_000;
    if whole < 1 {
        Some(1)
    } else if whole > MAX_TIMEOUT_MS {
        Some(MAX_TIMEOUT_MS)
    } else {
        Some(whole)
    }
}

/// What the guard of a batch must cover.
#[derive(Debug)]
pub struct BatchGuardScope {
    pub require_frame: bool,
    pub include_current_pointer: bool,
    pub positions: Vec<Position>,
    pub semantic: bool,
}

/// What a guard must cover.
#[verifier::ext_equal]
pub struct Scope {
    pub require_frame: bool,
    pub include_current_pointer: bool,
    pub positions: Seq<Position>,
    pub semantic: bool,
}

impl View for BatchGuardScope {
    type V = Scope;

    open spec fn view(&self) -> Scope {
        Scope {
            require_frame: self.require_frame,
            include_current_pointer: self.include_current_pointer,
            positions: self.positions@,
            semantic: self.semantic,
        }
    }
}

/// What a guard must cover with one more step.
pub open spec fn widened(scope: Scope, step: BatchStep) -> Scope {
    match step {
        BatchStep::MovePointer { request } => if request.position is Screen {
            scope
        } else {
            Scope {
                require_frame: true,
                positions: scope.positions.push(request.position),
                ..scope
            }
        },
        BatchStep::Click { request } => match request.position {
            Some(position) => Scope {
                require_frame: true,
                positions: scope.positions.push(position),
                ..scope
            },
            None => Scope { require_frame: true, include_current_pointer: true, ..scope },
        },
        BatchStep::Drag { request } => Scope {
            require_frame: true,
            positions: scope.positions.push(request.from).push(request.to),
            ..scope
        },
        BatchStep::Scroll { request } => match request.position {
            Some(position) => Scope {
                require_frame: true,
                positions: scope.positions.push(position),
                ..scope
            },
            None => scope,
        },
        BatchStep::AccessibilityAction { .. } => Scope { semantic: true, ..scope },
        _ => scope,
    }
}

/// What the guard of some steps must cover.
pub open spec fn scope_of(steps: Seq<BatchStep>) -> Scope
    decreases steps.len(),
{
    if steps.len() == 0 {
        Scope {
            require_frame: false,
            include_current_pointer: false,
            positions: Seq::empty(),
            semantic: false,
        }
    } else {
        widened(scope_of(steps.drop_last()), steps.last())
    }
}

/// Whether a step needs a frame.
pub open spec fn needs_frame(step: BatchStep) -> bool {
    match step {
        BatchStep::MovePointer { request } => !(request.position is Screen),
        BatchStep::Click { .. } => true,
        BatchStep::Drag { .. } => true,
        BatchStep::Scroll { request } => request.position is Some,
        _ => false,
    }
}

/// The guard of a batch requires a frame exactly where one of its steps does,
/// and is semantic exactly where one of its steps is.
pub proof fn batch_guard_covers_every_step(steps: Seq<BatchStep>)
    ensures
        scope_of(steps).require_frame <==> exists|i: int|
            0 <= i < steps.len() && #[trigger] needs_frame(steps[i]),
        scope_of(steps).semantic <==> exists|i: int|
            0 <= i < steps.len() && #[trigger] steps[i] is AccessibilityAction,
    decreases steps.len(),
{
    if steps.len() > 0 {
        let rest = steps.drop_last();
        batch_guard_covers_every_step(rest);
        let last = steps.len() - 1;
        assert forall|i: int| 0 <= i < rest.len() implies rest[i] == steps[i] by {}
        if scope_of(rest).require_frame {
            let i = choose|i: int| 0 <= i < rest.len() && #[trigger] needs_frame(rest[i]);
            assert(needs_frame(steps[i]));
        }
        if scope_of(rest).semantic {
            let i = choose|i: int| 0 <= i < rest.len() && #[trigger] rest[i] is AccessibilityAction;
            assert(steps[i] is AccessibilityAction);
        }
        if needs_frame(steps[last]) {
            assert(needs_frame(steps[last]));
        }
        if exists|i: int| 0 <= i < steps.len() && #[trigger] needs_frame(steps[i]) {
            let i = choose|i: int| 0 <= i < steps.len() && #[trigger] needs_frame(steps[i]);
            if i < last {
                assert(needs_frame(rest[i]));
            }
        }
        if exists|i: int| 0 <= i < steps.len() && #[trigger] steps[i] is AccessibilityAction {
            let i = choose|i: int|
                0 <= i < steps.len() && #[trigger] steps[i] is AccessibilityAction;
            if i < last {
                assert(rest[i] is AccessibilityAction);
            }
        }
    }
}

/// What the guard of some steps must cover.
pub fn batch_guard_scope(steps: &Vec<BatchStep>) -> (scope: BatchGuardScope)
    ensures
        scope@ == scope_of(steps@),
{
    let mut scope = BatchGuardScope {
        require_frame: false,
        include_current_pointer: false,
        positions: Vec::new(),
        semantic: false,
    };
    let mut at: usize = 0;
    while at < steps.len()
        invariant
            at <= steps.len(),
            scope@ == scope_of(steps@.take(at as int)),
        decreases steps.len() - at,
    {
        assert(steps@.take(at + 1).drop_last() =~= steps@.take(at as int));
        assert(steps@.take(at + 1).last() == steps@[at as int]);
        match &steps[at] {
            BatchStep::MovePointer { request } => match &request.position {
                Position::Screen { .. } => {},
                _ => {
                    scope.require_frame = true;
                    scope.positions.push(request.position.clone());
                },
            },
            BatchStep::Click { request } => {
                scope.require_frame = true;
                if let Some(position) = &request.position {
                    scope.positions.push(position.clone());
                } else {
                    scope.include_current_pointer = true;
                }
            },
            BatchStep::Drag { request } => {
                scope.require_frame = true;
                scope.positions.push(request.from.clone());
                scope.positions.push(request.to.clone());
            },
            BatchStep::Scroll { request } => {
                if let Some(position) = &request.position {
                    scope.require_frame = true;
                    scope.positions.push(position.clone());
                }
            },
            BatchStep::AccessibilityAction { .. } => {
                scope.semantic = true;
            },
            _ => {},
        }
        at += 1;
    }
    assert(steps@.take(steps@.len() as int) =~= steps@);
    scope
}

/// Whether an error is another one within a batch: it says where the batch
/// stopped, what it had completed, and what the other one said.
pub open spec fn is_batch_error(
    e: ControllerError,
    cause: ControllerError,
    failed_step: int,
    completed: Seq<BatchStepResult>,
) -> bool {
    &&& e.code == cause.code
    &&& e.message == cause.message
    &&& e.retryable == cause.retryable
    &&& match e.details {
        Some(ErrorDetails::Batch { failed_step: at, completed_steps, cause: inner }) => {
            &&& at == failed_step
            &&& completed_steps@ == completed
            &&& match (inner, cause.details) {
                (Some(boxed), Some(details)) => *boxed == details,
                (None, None) => true,
                _ => false,
            }
        },
        _ => false,
    }
}

/// An error within a batch.
pub fn batch_error(cause: ControllerError, failed_step: usize, completed: Vec<BatchStepResult>)
    -> (e: ControllerError)
    ensures
        is_batch_error(e, cause, failed_step as int, completed@),
{
    let inner: Option<Box<ErrorDetails>> = match cause.details {
        Some(details) => Some(Box::new(details)),
        None => None,
    };
    ControllerError {
        code: cause.code,
        message: cause.message,
        retryable: cause.retryable,
        details: Some(
            ErrorDetails::Batch { failed_step, completed_steps: completed, cause: inner },
        ),
    }
}

/// Whether an error says that a batch took too long.
pub open spec fn is_batch_timeout(
    e: ControllerError,
    failed_step: int,
    completed: Seq<BatchStepResult>,
) -> bool {
    &&& e.code == ErrorCode::Timeout
    &&& e.message@ == "batch deadline exceeded"@
    &&& e.retryable
    &&& match e.details {
        Some(ErrorDetails::Batch { failed_step: at, completed_steps, cause }) => at == failed_step
            && completed_steps@ == completed && cause is None,
        _ => false,
    }
}

/// The error of a batch that took too long.
fn batch_timeout(failed_step: usize, completed: Vec<BatchStepResult>) -> (e: ControllerError)
    ensures
        is_batch_timeout(e, failed_step as int, completed@),
{
    let cause = ControllerError::new(ErrorCode::Timeout, "batch deadline exceeded").retryable(true);
    batch_error(cause, failed_step, completed)
}

/// What outside work under a deadline came to.
#[derive(Debug)]
pub enum Outcome<T> {
    Done(T),
    Failed(ControllerError),
    TimedOut,
}

/// A step as it is run in a batch: the guard of the batch replaces its own,
/// it is not observed, and it does not wait past the deadline.
pub open spec fn batch_form(step: BatchStep, guard: StateGuard, left_ms: u64) -> BatchStep {
    match step {
        BatchStep::FocusWindow { request } => BatchStep::FocusWindow {
            request: FocusWindowRequest { guard, observe_after: None, ..request },
        },
        BatchStep::MovePointer { request } => BatchStep::MovePointer {
            request: MovePointerRequest { guard, observe_after: None, ..request },
        },
        BatchStep::Click { request } => BatchStep::Click {
            request: ClickRequest { guard, observe_after: None, ..request },
        },
        BatchStep::Drag { request } => BatchStep::Drag {
            request: DragRequest { guard, observe_after: None, ..request },
        },
        BatchStep::Scroll { request } => BatchStep::Scroll {
            request: ScrollRequest { guard, observe_after: None, ..request },
        },
        BatchStep::Key { request } => BatchStep::Key {
            request: KeyRequest { guard, observe_after: None, ..request },
        },
        BatchStep::TypeText { request } => BatchStep::TypeText {
            request: TypeTextRequest { guard, observe_after: None, ..request },
        },
        BatchStep::WindowAction { request } => BatchStep::WindowAction {
            request: WindowActionRequest { guard, observe_after: None, ..request },
        },
        BatchStep::AccessibilityAction { request } => BatchStep::AccessibilityAction {
            request: AccessibilityActionRequest { guard, observe_after: None, ..request },
        },
        BatchStep::LaunchApp { request } => BatchStep::LaunchApp { request },
        BatchStep::WaitFor { request } => BatchStep::WaitFor {
            request: SessionWaitRequest {
                timeout_ms: if request.timeout_ms < left_ms {
                    request.timeout_ms
                } else {
                    left_ms
                },
                ..request
            },
        },
    }
}

/// The guard of a step, where it has one.
pub open spec fn step_guard(step: BatchStep) -> Option<StateGuard> {
    match step {
        BatchStep::FocusWindow { request } => Some(request.guard),
        BatchStep::MovePointer { request } => Some(request.guard),
        BatchStep::Click { request } => Some(request.guard),
        BatchStep::Drag { request } => Some(request.guard),
        BatchStep::Scroll { request } => Some(request.guard),
        BatchStep::Key { request } => Some(request.guard),
        BatchStep::TypeText { request } => Some(request.guard),
        BatchStep::WindowAction { request } => Some(request.guard),
        BatchStep::AccessibilityAction { request } => Some(request.guard),
        _ => None,
    }
}

/// The observation after a step, where it has one.
pub open spec fn step_after(step: BatchStep) -> Option<ObserveAfter> {
    match step {
        BatchStep::FocusWindow { request } => request.observe_after,
        BatchStep::MovePointer { request } => request.observe_after,
        BatchStep::Click { request } => request.observe_after,
        BatchStep::Drag { request } => request.observe_after,
        BatchStep::Scroll { request } => request.observe_after,
        BatchStep::Key { request } => request.observe_after,
        BatchStep::TypeText { request } => request.observe_after,
        BatchStep::WindowAction { request } => request.observe_after,
        BatchStep::AccessibilityAction { request } => request.observe_after,
        _ => None,
    }
}

/// Every step of a batch runs under the guard of the batch and without an
/// observation of its own, whatever its request says. A wait ends with the
/// batch.
pub proof fn steps_run_under_the_batch_guard(step: BatchStep, guard: StateGuard, left_ms: u64)
    ensures
        step_guard(step) is Some ==> step_guard(batch_form(step, guard, left_ms)) == Some(guard),
        step_after(batch_form(step, guard, left_ms)) is None,
        batch_form(step, guard, left_ms) matches BatchStep::WaitFor { request }
            ==> request.timeout_ms <= left_ms,
{
}

/// Prepares a step to be run in a batch.
pub fn prepare_step(step: BatchStep, guard: &StateGuard, left_ms: u64) -> (prepared: BatchStep)
    ensures
        prepared == batch_form(step, *guard, left_ms),
{
    match step {
        BatchStep::FocusWindow { request } => BatchStep::FocusWindow {
            request: FocusWindowRequest { guard: guard.clone(), observe_after: None, ..request },
        },
        BatchStep::MovePointer { request } => BatchStep::MovePointer {
            request: MovePointerRequest { guard: guard.clone(), observe_after: None, ..request },
        },
        BatchStep::Click { request } => BatchStep::Click {
            request: ClickRequest { guard: guard.clone(), observe_after: None, ..request },
        },
        BatchStep::Drag { request } => BatchStep::Drag {
            request: DragRequest { guard: guard.clone(), observe_after: None, ..request },
        },
        BatchStep::Scroll { request } => BatchStep::Scroll {
            request: ScrollRequest { guard: guard.clone(), observe_after: None, ..request },
        },
        BatchStep::Key { request } => BatchStep::Key {
            request: KeyRequest { guard: guard.clone(), observe_after: None, ..request },
        },
        BatchStep::TypeText { request } => BatchStep::TypeText {
            request: TypeTextRequest { guard: guard.clone(), observe_after: None, ..request },
        },
        BatchStep::WindowAction { request } => BatchStep::WindowAction {
            request: WindowActionRequest { guard: guard.clone(), observe_after: None, ..request },
        },
        BatchStep::AccessibilityAction { request } => BatchStep::AccessibilityAction {
            request: AccessibilityActionRequest {
                guard: guard.clone(),
                observe_after: None,
                ..request
            },
        },
        BatchStep::LaunchApp { request } => BatchStep::LaunchApp { request },
        BatchStep::WaitFor { request } => {
            let timeout_ms: u64 = if request.timeout_ms < left_ms {
                request.timeout_ms
            } else {
                left_ms
            };
            BatchStep::WaitFor { request: SessionWaitRequest { timeout_ms, ..request } }
        },
    }
}

/// How far a batch has come: it goes on, or it has stopped at a step.
pub enum Progress {
    Going { completed: Seq<BatchStepResult> },
    Stopped { failed_step: int, completed: Seq<BatchStepResult> },
}

/// The progress after a step of a batch that goes on.
pub open spec fn stepped(completed: Seq<BatchStepResult>, outcome: Outcome<StepValue>) -> Progress {
    match outcome {
        Outcome::Done(value) => Progress::Going {
            completed: completed.push(
                BatchStepResult { index: completed.len() as usize, value },
            ),
        },
        _ => Progress::Stopped { failed_step: completed.len() as int, completed },
    }
}

impl Progress {
    /// What was completed.
    pub open spec fn results(self) -> Seq<BatchStepResult> {
        match self {
            Progress::Going { completed } => completed,
            Progress::Stopped { completed, .. } => completed,
        }
    }
}

/// The progress of a batch after some steps. Nothing follows a failed step.
pub open spec fn progress(outcomes: Seq<Outcome<StepValue>>) -> Progress
    decreases outcomes.len(),
{
    if outcomes.len() == 0 {
        Progress::Going { completed: Seq::empty() }
    } else {
        match progress(outcomes.drop_last()) {
            Progress::Going { completed } => stepped(completed, outcomes.last()),
            stopped => stopped,
        }
    }
}

/// A batch stops at its first step that is not done. What it reports is the
/// number of that step, counted from zero, and the results of all the steps
/// before it, in order and under their own numbers.
pub proof fn batches_are_fail_fast(outcomes: Seq<Outcome<StepValue>>, failed: int)
    requires
        0 <= failed <= outcomes.len() <= MAX_BATCH_STEPS,
        forall|i: int| 0 <= i < failed ==> (#[trigger] outcomes[i]) is Done,
        failed < outcomes.len() ==> !(outcomes[failed] is Done),
    ensures
        failed < outcomes.len() ==> progress(outcomes) is Stopped
            && progress(outcomes)->failed_step == failed,
        failed == outcomes.len() ==> progress(outcomes) is Going,
        progress(outcomes).results().len() == failed,
        forall|i: int|
            0 <= i < failed ==> (#[trigger] progress(outcomes).results()[i]).index == i
                && progress(outcomes).results()[i].value == outcomes[i]->Done_0,
    decreases outcomes.len(),
{
    if outcomes.len() > 0 {
        let rest = outcomes.drop_last();
        assert forall|i: int| 0 <= i < rest.len() implies rest[i] == outcomes[i] by {}
        let before = if failed == outcomes.len() {
            failed - 1
        } else {
            failed
        };
        batches_are_fail_fast(rest, before);
        assert forall|i: int| 0 <= i < failed implies (
        #[trigger] progress(outcomes).results()[i]).index == i && progress(
            outcomes,
        ).results()[i].value == outcomes[i]->Done_0 by {
            assert(outcomes[i] is Done);
            if i < before {
                assert(progress(rest).results()[i].index == i);
                assert(progress(rest).results()[i].value == rest[i]->Done_0);
            }
        }
    }
}

/// A batch that is being run: the steps that wait, and what was completed.
#[derive(Debug)]
pub struct BatchRun {
    pub waiting: Vec<BatchStep>,
    pub completed: Vec<BatchStepResult>,
    pub guard: StateGuard,
    pub deadline: u64,
    pub observe_after: Option<ObserveAfter>,
}

/// What to do next in a batch.
#[derive(Debug)]
pub enum BatchAction {
    /// Run a step, for no longer than some nanoseconds.
    Run { step: BatchStep, left: u64 },
    /// All steps are done: release what is held.
    Release,
    /// Release what is held, and fail.
    ReleaseAndFail { e: ControllerError },
}

/// Whether a result is that of the work before the first step.
pub open spec fn is_prepared<T>(result: Result<T, BatchAction>, outcome: Outcome<T>) -> bool {
    match (result, outcome) {
        (Ok(value), Outcome::Done(done)) => value == done,
        (Err(BatchAction::ReleaseAndFail { e }), Outcome::Failed(cause)) => is_batch_error(
            e,
            cause,
            0,
            Seq::<BatchStepResult>::empty(),
        ),
        (Err(BatchAction::ReleaseAndFail { e }), Outcome::TimedOut) => is_batch_timeout(
            e,
            0,
            Seq::<BatchStepResult>::empty(),
        ),
        _ => false,
    }
}

/// Whether an action is the next one of a batch at a time.
pub open spec fn is_next(action: BatchAction, run: BatchRun, now: u64) -> bool {
    match action {
        BatchAction::Release => run.waiting@.len() == 0,
        BatchAction::ReleaseAndFail { e } => {
            &&& run.waiting@.len() > 0
            &&& time_left(run.deadline, now) == 0
            &&& is_batch_timeout(e, run.completed@.len() as int, run.completed@)
        },
        BatchAction::Run { step, left } => {
            &&& run.waiting@.len() > 0
            &&& left == time_left(run.deadline, now)
            &&& left > 0
            &&& step == batch_form(run.waiting@[0], run.guard, left / 1_000_000)
        },
    }
}

/// Whether an action is what a step that is not done leads to, and there is
/// none after a step that is.
pub open spec fn is_step_failure(
    failure: Option<BatchAction>,
    outcome: Outcome<StepValue>,
    completed: Seq<BatchStepResult>,
) -> bool {
    match (failure, outcome) {
        (None, Outcome::Done(_)) => true,
        (Some(BatchAction::ReleaseAndFail { e }), Outcome::Failed(cause)) => is_batch_error(
            e,
            cause,
            completed.len() as int,
            completed,
        ),
        (Some(BatchAction::ReleaseAndFail { e }), Outcome::TimedOut) => is_batch_timeout(
            e,
            completed.len() as int,
            completed,
        ),
        _ => false,
    }
}

/// Whether an action releases the keys and buttons that are held.
pub open spec fn releases(action: BatchAction) -> bool {
    action is Release || action is ReleaseAndFail
}

/// However a batch ends, it releases what is held: where the guard does not
/// hold or the first observation fails, where a step fails or takes too long,
/// where the deadline passes between two steps, and where all steps are done.
pub proof fn batches_release_on_every_exit<T>(
    preparation: Outcome<T>,
    prepared: Result<T, BatchAction>,
    run: BatchRun,
    now: u64,
    next: BatchAction,
    outcome: Outcome<StepValue>,
    failure: Option<BatchAction>,
)
    requires
        is_prepared(prepared, preparation),
        is_next(next, run, now),
        is_step_failure(failure, outcome, run.completed@),
    ensures
        !(preparation is Done) ==> prepared is Err && releases(prepared->Err_0),
        run.waiting@.len() == 0 || time_left(run.deadline, now) == 0 ==> releases(next),
        !(outcome is Done) ==> failure is Some && releases(failure->0),
{
}

/// The error of a result, where it is one.
pub open spec fn error_of<T>(result: Result<T, ControllerError>) -> Option<ControllerError> {
    match result {
        Ok(_) => None,
        Err(e) => Some(e),
    }
}

/// Whether a step of a batch is refused with an error, or admitted where there
/// is none, by the check that belongs to it. The check may change the
/// controller. A wait changes nothing on the display and is not checked.
pub open spec fn step_checked(
    step: BatchStep,
    stopped: bool,
    before: Controller,
    after: Controller,
    elements: ElementRegistry,
    situation: Situation,
    now: u64,
    refusal: Option<ControllerError>,
) -> bool {
    match step {
        BatchStep::FocusWindow { request } => after == before && exists|
            result: Result<WindowInfo, ControllerError>,
        | #[trigger]
            error::faulty_result(
                result,
                before.window_check(stopped, request.window_ref@, request.guard, situation),
            ) && refusal == error_of(result),
        BatchStep::WindowAction { request } => after == before && exists|
            result: Result<WindowInfo, ControllerError>,
        | #[trigger]
            error::faulty_result(
                result,
                before.window_check(stopped, request.window_ref@, request.guard, situation),
            ) && refusal == error_of(result),
        BatchStep::MovePointer { request } => exists|
            result: Result<PointerTarget, ControllerError>,
        | #[trigger]
            controller::checked(
                result,
                before,
                after,
                before.xtest_fault(stopped),
                1,
                now,
                before.move_check(stopped, request, situation),
            ) && refusal == error_of(result),
        BatchStep::Click { request } => exists|result: Result<PointerTarget, ControllerError>|
         #[trigger]
            controller::checked(
                result,
                before,
                after,
                before.early_click_fault(stopped, request),
                Controller::click_events(request),
                now,
                before.click_check(stopped, request, situation),
            ) && refusal == error_of(result),
        BatchStep::Drag { request } => exists|result: Result<DragEnds, ControllerError>| #[trigger]
            controller::checked(
                result,
                before,
                after,
                before.early_drag_fault(stopped, request),
                request.steps + 3,
                now,
                before.drag_check(stopped, request, situation),
            ) && refusal == error_of(result),
        BatchStep::Scroll { request } => exists|result: Result<PointerTarget, ControllerError>|
         #[trigger]
            controller::checked(
                result,
                before,
                after,
                before.early_scroll_fault(stopped, request),
                Controller::scroll_events(request),
                now,
                before.scroll_check(stopped, request, situation),
            ) && refusal == error_of(result),
        BatchStep::Key { request } => after == before && is_refusal(
            refusal,
            before.keyboard_fault(
                stopped,
                Controller::keys_fault(request),
                request.guard,
                situation,
            ),
        ),
        BatchStep::TypeText { request } => after == before && is_refusal(
            refusal,
            before.keyboard_fault(
                stopped,
                Controller::text_fault(request),
                request.guard,
                situation,
            ),
        ),
        BatchStep::AccessibilityAction { request } => after == before && exists|
            result: Result<ActionObject, ControllerError>,
        | #[trigger]
            accessibility::action_checked(result, stopped, elements, request) && refusal
                == error_of(result),
        BatchStep::LaunchApp { request } => after == before && exists|
            result: Result<String, ControllerError>,
        | #[trigger]
            applications::launch_checked(result, stopped, request) && refusal == error_of(result),
        BatchStep::WaitFor { .. } => after == before && refusal is None,
    }
}

/// Whether an error is the fault of a request, and there is none without one.
pub open spec fn is_refusal(refusal: Option<ControllerError>, expected: Option<Fault>) -> bool {
    match (refusal, expected) {
        (None, None) => true,
        (Some(e), Some(f)) => error::is_fault(e, f),
        _ => false,
    }
}

/// Once the emergency stop is latched, every step but a wait is refused for
/// it, whatever else holds: pointer, keyboard and window actions, actions on
/// elements, and launches. Nothing is charged for it.
pub proof fn latched_stop_refuses_every_mutation(
    step: BatchStep,
    before: Controller,
    after: Controller,
    elements: ElementRegistry,
    situation: Situation,
    now: u64,
    refusal: Option<ControllerError>,
)
    requires
        !(step is WaitFor),
        step_checked(step, true, before, after, elements, situation, now, refusal),
    ensures
        refusal matches Some(e) && e.code == ErrorCode::EmergencyStop && !e.retryable,
        after == before,
{
}

/// Why a batch cannot begin, if so.
pub open spec fn batch_problem(request: BatchRequest) -> Option<Seq<char>> {
    if request.steps@.len() == 0 || request.steps@.len() > MAX_BATCH_STEPS {
        Some("batch must contain between 1 and 64 steps"@)
    } else if !valid_timeout(request.timeout_ms) {
        Some("timeout_ms must be between 1 and 60000"@)
    } else {
        None
    }
}

/// A time after another, or the last there is.
pub open spec fn ns_later(now: u64, ms: u64) -> int {
    if now + ms * 1_000_000 > u64::MAX {
        u64::MAX as int
    } else {
        now + ms * 1_000_000
    }
}

/// The deadline of something that may take some milliseconds.
pub fn deadline_at(now: u64, ms: u64) -> (deadline: u64)
    ensures
        deadline == ns_later(now, ms),
{
    let wide: u128 = now as u128 + ms as u128 * 1_000_000;
    if wide > u64::MAX as u128 {
        u64::MAX
    } else {
        wide as u64
    }
}

impl BatchRun {
    /// Whether every completed step has its own number.
    pub open spec fn well_formed(&self) -> bool {
        forall|i: int|
            0 <= i < self.completed@.len() ==> (#[trigger] self.completed@[i]).index == i
    }

    /// Begins a batch. The guard of its steps counts as checked.
    pub fn begin(request: BatchRequest, now: u64) -> (result: Result<BatchRun, ControllerError>)
        ensures
            match (result, batch_problem(request)) {
                (Ok(run), None) => {
                    &&& run.well_formed()
                    &&& run.waiting == request.steps
                    &&& run.completed@.len() == 0
                    &&& run.guard == (StateGuard { prevalidated: true, ..request.guard })
                    &&& run.deadline == ns_later(now, request.timeout_ms)
                    &&& run.observe_after == request.observe_after
                },
                (Err(e), Some(message)) => error::final_error(e, ErrorCode::InvalidInput, message),
                _ => false,
            },
    {
        if request.steps.len() == 0 || request.steps.len() > MAX_BATCH_STEPS {
            return Err(
                ControllerError::new(
                    ErrorCode::InvalidInput,
                    "batch must contain between 1 and 64 steps",
                ),
            );
        }
        match validate_timeout(request.timeout_ms) {
            Ok(()) => {},
            Err(e) => {
                return Err(e);
            },
        }
        let deadline = deadline_at(now, request.timeout_ms);
        let guard = StateGuard {
            frame_id: request.guard.frame_id,
            accessibility_generation: request.guard.accessibility_generation,
            expected_active_window: request.guard.expected_active_window,
            prevalidated: true,
        };
        Ok(
            BatchRun {
                waiting: request.steps,
                completed: Vec::new(),
                guard,
                deadline,
                observe_after: request.observe_after,
            },
        )
    }

    /// What comes of the work before the first step: the check of the guard,
    /// or the observation to compare with. Where it is not done, the batch
    /// releases what is held, and fails.
    pub fn prepared<T>(outcome: Outcome<T>) -> (result: Result<T, BatchAction>)
        ensures
            is_prepared(result, outcome),
    {
        let none: Vec<BatchStepResult> = Vec::new();
        assert(none@ =~= Seq::<BatchStepResult>::empty());
        match outcome {
            Outcome::Done(value) => Ok(value),
            Outcome::Failed(cause) => Err(
                BatchAction::ReleaseAndFail { e: batch_error(cause, 0, none) },
            ),
            Outcome::TimedOut => Err(BatchAction::ReleaseAndFail { e: batch_timeout(0, none) }),
        }
    }

    /// What to do next: run the first step that waits, unless the deadline is
    /// past. Once the batch fails, what was completed is handed over.
    pub fn next(&mut self, now: u64) -> (action: BatchAction)
        requires
            old(self).well_formed(),
        ensures
            final(self).well_formed(),
            final(self).guard == old(self).guard,
            final(self).deadline == old(self).deadline,
            final(self).observe_after == old(self).observe_after,
            is_next(action, *old(self), now),
            match action {
                BatchAction::Release => *final(self) == *old(self),
                BatchAction::ReleaseAndFail { .. } => final(self).waiting == old(self).waiting
                    && final(self).completed@.len() == 0,
                BatchAction::Run { .. } => final(self).waiting@ == old(self).waiting@.drop_first()
                    && final(self).completed == old(self).completed,
            },
    {
        if self.waiting.len() == 0 {
            return BatchAction::Release;
        }
        if now >= self.deadline {
            let mut completed: Vec<BatchStepResult> = Vec::new();
            std::mem::swap(&mut completed, &mut self.completed);
            let failed: usize = completed.len();
            return BatchAction::ReleaseAndFail { e: batch_timeout(failed, completed) };
        }
        let left: u64 = self.deadline - now;
        let ghost before = self.waiting@;
        let first = self.waiting.remove(0);
        assert(self.waiting@ =~= before.drop_first());
        let step = prepare_step(first, &self.guard, left / 1_000_000);
        BatchAction::Run { step, left }
    }

    /// Takes in what a step came to. A step that did not complete ends the
    /// batch: nothing is rolled back, and what was completed is handed over.
    pub fn step_done(&mut self, outcome: Outcome<StepValue>) -> (failure: Option<BatchAction>)
        requires
            old(self).well_formed(),
        ensures
            final(self).well_formed(),
            final(self).guard == old(self).guard,
            final(self).deadline == old(self).deadline,
            final(self).observe_after == old(self).observe_after,
            final(self).waiting == old(self).waiting,
            match (stepped(old(self).completed@, outcome), failure) {
                (Progress::Going { completed }, None) => final(self).completed@ == completed,
                (Progress::Stopped { .. }, Some(_)) => final(self).completed@.len() == 0,
                _ => false,
            },
            is_step_failure(failure, outcome, old(self).completed@),
    {
        let index: usize = self.completed.len();
        match outcome {
            Outcome::Done(value) => {
                self.completed.push(BatchStepResult { index, value });
                None
            },
            Outcome::Failed(cause) => {
                let mut completed: Vec<BatchStepResult> = Vec::new();
                std::mem::swap(&mut completed, &mut self.completed);
                Some(BatchAction::ReleaseAndFail { e: batch_error(cause, index, completed) })
            },
            Outcome::TimedOut => {
                let mut completed: Vec<BatchStepResult> = Vec::new();
                std::mem::swap(&mut completed, &mut self.completed);
                Some(BatchAction::ReleaseAndFail { e: batch_timeout(index, completed) })
            },
        }
    }

    /// Takes in that all steps are done and what is held was released. The
    /// time that is left is for the observation.
    pub fn released(&mut self, outcome: Result<(), ControllerError>, now: u64) -> (result: Result<
        u64,
        ControllerError,
    >)
        ensures
            match (result, outcome) {
                (Err(e), Err(cause)) => is_batch_error(
                    e,
                    cause,
                    old(self).completed@.len() as int,
                    old(self).completed@,
                ),
                (Err(e), Ok(())) => time_left(old(self).deadline, now) == 0 && is_batch_timeout(
                    e,
                    old(self).completed@.len() as int,
                    old(self).completed@,
                ),
                (Ok(left), Ok(())) => left > 0 && left == time_left(old(self).deadline, now)
                    && *final(self) == *old(self),
                _ => false,
            },
    {
        let failed: usize = self.completed.len();
        match outcome {
            Err(cause) => {
                let mut completed: Vec<BatchStepResult> = Vec::new();
                std::mem::swap(&mut completed, &mut self.completed);
                Err(batch_error(cause, failed, completed))
            },
            Ok(()) => {
                if now >= self.deadline {
                    let mut completed: Vec<BatchStepResult> = Vec::new();
                    std::mem::swap(&mut completed, &mut self.completed);
                    return Err(batch_timeout(failed, completed));
                }
                Ok(self.deadline - now)
            },
        }
    }

    /// The outcome of a batch whose steps are all done, from its observation.
    pub fn finish(self, outcome: Outcome<(Option<Observation>, bool)>) -> (result: Result<
        BatchResult,
        ControllerError,
    >)
        ensures
            match (result, outcome) {
                (Ok(done), Outcome::Done((observation, settled))) => {
                    &&& done.ok
                    &&& done.steps == self.completed
                    &&& done.settled == settled
                    &&& done.observation == observation
                },
                (Err(e), Outcome::Failed(cause)) => is_batch_error(
                    e,
                    cause,
                    self.completed@.len() as int,
                    self.completed@,
                ),
                (Err(e), Outcome::TimedOut) => is_batch_timeout(
                    e,
                    self.completed@.len() as int,
                    self.completed@,
                ),
                _ => false,
            },
    {
        match outcome {
            Outcome::Done((observation, settled)) => Ok(
                BatchResult { ok: true, steps: self.completed, settled, observation },
            ),
            Outcome::Failed(cause) => {
                let failed: usize = self.completed.len();
                Err(batch_error(cause, failed, self.completed))
            },
            Outcome::TimedOut => {
                let failed: usize = self.completed.len();
                Err(batch_timeout(failed, self.completed))
            },
        }
    }
}

/// What is to be done after an action until its observation is there.
#[derive(Debug)]
pub enum AfterStep {
    /// Wait for a change of the target.
    WaitChange { request: WaitRequest },
    /// Wait until the target is quiet.
    WaitIdle { request: WaitRequest },
    /// Observe the target.
    Observe { request: ObserveRequest, settled: bool },
}

/// What a wait after an action came to.
#[derive(Debug)]
pub enum WaitOutcome {
    Met,
    TimedOut,
    Failed(ControllerError),
}

/// What a wait came to. A wait that gave up does not fail the action.
pub fn wait_outcome(result: Result<WaitResult, ControllerError>) -> (outcome: WaitOutcome)
    ensures
        match result {
            Ok(_) => outcome is Met,
            Err(e) => if e.code == ErrorCode::Timeout {
                outcome is TimedOut
            } else {
                outcome == WaitOutcome::Failed(e)
            },
        },
{
    match result {
        Ok(_) => WaitOutcome::Met,
        Err(e) => {
            if e.code == ErrorCode::Timeout {
                WaitOutcome::TimedOut
            } else {
                WaitOutcome::Failed(e)
            }
        },
    }
}

/// Why an observation after an action cannot be made, if so.
pub open spec fn after_problem(after: ObserveAfter) -> Option<Seq<char>> {
    if !valid_timeout(after.timeout_ms) {
        Some("observe_after.timeout_ms must be between 1 and 60000"@)
    } else if after.quiet_ms > after.timeout_ms {
        Some("observe_after.quiet_ms cannot exceed timeout_ms"@)
    } else {
        None
    }
}

/// Refuses an observation after an action that cannot be made.
pub fn check_after(after: &ObserveAfter) -> (result: Result<(), ControllerError>)
    ensures
        match (result, after_problem(*after)) {
            (Ok(()), None) => true,
            (Err(e), Some(message)) => error::final_error(e, ErrorCode::InvalidInput, message),
            _ => false,
        },
{
    if after.timeout_ms == 0 || after.timeout_ms > MAX_TIMEOUT_MS {
        return Err(
            ControllerError::new(
                ErrorCode::InvalidInput,
                "observe_after.timeout_ms must be between 1 and 60000",
            ),
        );
    }
    if after.quiet_ms > after.timeout_ms {
        return Err(
            ControllerError::new(
                ErrorCode::InvalidInput,
                "observe_after.quiet_ms cannot exceed timeout_ms",
            ),
        );
    }
    Ok(())
}

/// The way from an action to its observation.
#[derive(Debug)]
pub struct AfterAction {
    pub after: ObserveAfter,
    pub base_frame: Option<u64>,
    pub deadline: u64,
}

/// Whether a step is the observation after an action.
pub open spec fn is_observe(step: AfterStep, way: AfterAction, expected: bool) -> bool {
    match step {
        AfterStep::Observe { request, settled } => {
            &&& request.target == way.after.target
            &&& request.include_windows == way.after.include_windows
            &&& request.delivery == settle::after_delivery(way.after, way.base_frame)
            &&& settled == expected
        },
        _ => false,
    }
}

/// Whether a step is the wait for quiet after an action, or the observation
/// where no time is left for it.
pub open spec fn is_quiet_step(step: AfterStep, way: AfterAction, now: u64) -> bool {
    if time_left(way.deadline, now) == 0 {
        is_observe(step, way, false)
    } else {
        match step {
            AfterStep::WaitIdle { request } => {
                &&& Some(request.timeout_ms) == timeout_left(way.deadline, now)
                &&& !request.observe
                &&& match request.condition {
                    WaitCondition::Idle { quiet_ms, target } => quiet_ms == way.after.quiet_ms
                        && target == way.after.target,
                    _ => false,
                }
            },
            _ => false,
        }
    }
}

impl AfterAction {
    /// Begins the way from an action to its observation.
    pub fn begin(after: ObserveAfter, base_frame: Option<u64>, now: u64) -> (result: Result<
        (AfterAction, AfterStep),
        ControllerError,
    >)
        ensures
            match (result, after_problem(after)) {
                (Err(e), Some(message)) => error::final_error(e, ErrorCode::InvalidInput, message),
                (Ok((way, step)), None) => {
                    &&& way.after == after
                    &&& way.base_frame == base_frame
                    &&& way.deadline == ns_later(now, after.timeout_ms)
                    &&& if after.require_change {
                        match step {
                            AfterStep::WaitChange { request } => {
                                &&& request.timeout_ms == (match timeout_left(way.deadline, now) {
                                    Some(ms) => ms,
                                    None => 1,
                                })
                                &&& !request.observe
                                &&& match request.condition {
                                    WaitCondition::Change { since_frame_id, target } =>
                                        since_frame_id == base_frame && target == after.target,
                                    _ => false,
                                }
                            },
                            _ => false,
                        }
                    } else {
                        is_quiet_step(step, way, now)
                    }
                },
                _ => false,
            },
    {
        match check_after(&after) {
            Ok(()) => {},
            Err(e) => {
                return Err(e);
            },
        }
        let deadline = deadline_at(now, after.timeout_ms);
        let way = AfterAction { after, base_frame, deadline };
        let step = if way.after.require_change {
            let timeout_ms: u64 = match remaining_timeout_ms(deadline, now) {
                Some(ms) => ms,
                None => 1,
            };
            AfterStep::WaitChange {
                request: WaitRequest {
                    condition: WaitCondition::Change {
                        since_frame_id: base_frame,
                        target: way.after.target.clone(),
                    },
                    timeout_ms,
                    observe: false,
                },
            }
        } else {
            way.quiet(now)
        };
        Ok((way, step))
    }

    /// The wait for quiet, or the observation where no time is left for it.
    fn quiet(&self, now: u64) -> (step: AfterStep)
        ensures
            is_quiet_step(step, *self, now),
    {
        match remaining_timeout_ms(self.deadline, now) {
            Some(timeout_ms) => {
                AfterStep::WaitIdle {
                    request: WaitRequest {
                        condition: WaitCondition::Idle {
                            quiet_ms: self.after.quiet_ms,
                            target: self.after.target.clone(),
                        },
                        timeout_ms,
                        observe: false,
                    },
                }
            },
            None => self.observe(false),
        }
    }

    /// The observation after an action.
    fn observe(&self, settled: bool) -> (step: AfterStep)
        ensures
            is_observe(step, *self, settled),
    {
        AfterStep::Observe { request: final_request(&self.after, self.base_frame), settled }
    }

    /// What follows the wait for a change.
    pub fn changed(&self, outcome: WaitOutcome, now: u64) -> (result: Result<
        AfterStep,
        ControllerError,
    >)
        ensures
            match (result, outcome) {
                (Ok(step), WaitOutcome::Met) => is_quiet_step(step, *self, now),
                (Ok(step), WaitOutcome::TimedOut) => is_observe(step, *self, false),
                (Err(e), WaitOutcome::Failed(cause)) => e == cause,
                _ => false,
            },
    {
        match outcome {
            WaitOutcome::Met => Ok(self.quiet(now)),
            WaitOutcome::TimedOut => Ok(self.observe(false)),
            WaitOutcome::Failed(cause) => Err(cause),
        }
    }

    /// What follows the wait for quiet.
    pub fn quieted(&self, outcome: WaitOutcome) -> (result: Result<AfterStep, ControllerError>)
        ensures
            match (result, outcome) {
                (Ok(step), WaitOutcome::Met) => is_observe(step, *self, true),
                (Ok(step), WaitOutcome::TimedOut) => is_observe(step, *self, false),
                (Err(e), WaitOutcome::Failed(cause)) => e == cause,
                _ => false,
            },
    {
        match outcome {
            WaitOutcome::Met => Ok(self.observe(true)),
            WaitOutcome::TimedOut => Ok(self.observe(false)),
            WaitOutcome::Failed(cause) => Err(cause),
        }
    }
}

/// The limits of a session are 64 frames, 64 steps of a batch and 2000
/// elements of a snapshot, and its other parts are handed on as they are.
pub proof fn capabilities_name_the_limits(
    x11: Capabilities,
    accessibility: AccessibilityInfo,
    applications: ApplicationCapabilities,
    capabilities: SessionCapabilities,
)
    requires
        call_ensures(session_capabilities, (x11, accessibility, applications), capabilities),
    ensures
        capabilities.limits.frame_history == 64,
        capabilities.limits.max_batch_steps == 64,
        capabilities.limits.max_semantic_nodes == 2_000,
        capabilities.x11 == x11,
        capabilities.accessibility == accessibility,
        capabilities.applications == applications,
{
}

/// A value lies in a range exactly where there is a value and it is beyond
/// neither bound that is given.
pub proof fn values_lie_within_both_bounds(
    range: ValueRange,
    value: Option<AccessibleValue>,
    matched: bool,
)
    requires
        call_ensures(ValueRange::matches, (&range, &value), matched),
    ensures
        matched ==> value is Some,
        matched && range.minimum is Some ==> ieee::at_most(range.minimum->0, value->0.current),
        matched && range.maximum is Some ==> ieee::at_most(value->0.current, range.maximum->0),
        !matched && value is Some ==> range.minimum is Some && !ieee::at_most(
            range.minimum->0,
            value->0.current,
        ) || range.maximum is Some && !ieee::at_most(value->0.current, range.maximum->0),
{
}

/// The time limit for what is left until a deadline is all of it in whole
/// milliseconds, but at least one and at most a minute's; there is none once the
/// deadline is past.
pub proof fn remaining_time_is_kept(deadline: u64, now: u64, timeout: Option<u64>)
    requires
        call_ensures(remaining_timeout_ms, (deadline, now), timeout),
    ensures
        timeout is None <==> now >= deadline,
        timeout matches Some(ms) ==> {
            &&& 1 <= ms <= 60_000
            &&& deadline - now >= 1_000_000 ==> ms * 1_000_000 <= deadline - now
            &&& 1_000_000 <= deadline - now < 60_000_000_000 ==> deadline - now < (ms + 1)
                * 1_000_000
            &&& deadline - now >= 60_000_000_000 ==> ms == 60_000
            &&& deadline - now < 1_000_000 ==> ms == 1
        },
{
}

/// What the guard of steps must cover is what the first ones need and what the
/// others do, positions in the order of the steps.
pub proof fn scopes_add_up(first: Seq<BatchStep>, second: Seq<BatchStep>)
    ensures
        ({
            let a = scope_of(first);
            let b = scope_of(second);
            let all = scope_of(first + second);
            &&& all.positions == a.positions + b.positions
            &&& all.require_frame <==> a.require_frame || b.require_frame
            &&& all.include_current_pointer <==> a.include_current_pointer
                || b.include_current_pointer
            &&& all.semantic <==> a.semantic || b.semantic
        }),
    decreases second.len(),
{
    if second.len() == 0 {
        assert(first + second =~= first);
        assert(scope_of(first).positions + scope_of(second).positions =~= scope_of(
            first,
        ).positions);
    } else {
        assert((first + second).drop_last() =~= first + second.drop_last());
        scopes_add_up(first, second.drop_last());
        assert(scope_of(first + second).positions =~= scope_of(first).positions + scope_of(
            second,
        ).positions);
    }
}

/// What the guard of one step must cover: the positions of clicks, of scrolls
/// that have one and of movements within a window, both ends of a drag, and the
/// pointer for a click without a position.
pub proof fn scopes_cover_each_kind_of_step(step: BatchStep, scope: BatchGuardScope, steps: Vec<BatchStep>)
    requires
        call_ensures(batch_guard_scope, (&steps,), scope),
        steps@ == seq![step],
    ensures
        scope.positions@ == (match step {
            BatchStep::MovePointer { request } => if request.position is Screen {
                Seq::empty()
            } else {
                seq![request.position]
            },
            BatchStep::Click { request } => if request.position is Some {
                seq![request.position->0]
            } else {
                Seq::empty()
            },
            BatchStep::Drag { request } => seq![request.from, request.to],
            BatchStep::Scroll { request } => if request.position is Some {
                seq![request.position->0]
            } else {
                Seq::empty()
            },
            _ => Seq::empty(),
        }),
        scope.require_frame <==> {
            ||| step is Click
            ||| step is Drag
            ||| step matches BatchStep::Scroll { request } && request.position is Some
            ||| step matches BatchStep::MovePointer { request } && !(request.position is Screen)
        },
        scope.include_current_pointer <==> (step matches BatchStep::Click { request }
            && request.position is None),
        scope.semantic <==> step is AccessibilityAction,
{
    assert(seq![step].drop_last() =~= Seq::<BatchStep>::empty());
    assert(scope_of(Seq::<BatchStep>::empty()).positions =~= Seq::empty());
    assert(scope@ == widened(scope_of(Seq::<BatchStep>::empty()), step));
    match step {
        BatchStep::Drag { request } => {
            assert(scope.positions@ =~= seq![request.from, request.to]);
        },
        BatchStep::Click { request } => {
            if request.position is Some {
                assert(scope.positions@ =~= seq![request.position->0]);
            }
        },
        BatchStep::Scroll { request } => {
            if request.position is Some {
                assert(scope.positions@ =~= seq![request.position->0]);
            }
        },
        BatchStep::MovePointer { request } => {
            if !(request.position is Screen) {
                assert(scope.positions@ =~= seq![request.position]);
            }
        },
        _ => {},
    }
}

/// A step of a batch stays what it asks for: only its guard and its own
/// observation are replaced, and a wait is cut off at the deadline.
pub proof fn steps_keep_what_they_ask_for(
    step: BatchStep,
    guard: StateGuard,
    left_ms: u64,
    prepared: BatchStep,
)
    requires
        call_ensures(prepare_step, (step, &guard, left_ms), prepared),
    ensures
        match (step, prepared) {
            (
                BatchStep::FocusWindow { request: asked },
                BatchStep::FocusWindow { request: run },
            ) => run.window_ref == asked.window_ref && run.guard == guard
                && run.observe_after is None,
            (
                BatchStep::MovePointer { request: asked },
                BatchStep::MovePointer { request: run },
            ) => run.position == asked.position && run.guard == guard && run.observe_after is None,
            (BatchStep::Click { request: asked }, BatchStep::Click { request: run }) => run.position
                == asked.position && run.button == asked.button && run.count == asked.count
                && run.guard == guard && run.observe_after is None,
            (BatchStep::Drag { request: asked }, BatchStep::Drag { request: run }) => run.from
                == asked.from && run.to == asked.to && run.button == asked.button
                && run.duration_ms == asked.duration_ms && run.steps == asked.steps && run.guard
                == guard && run.observe_after is None,
            (BatchStep::Scroll { request: asked }, BatchStep::Scroll { request: run }) =>
                run.position == asked.position && run.dx == asked.dx && run.dy == asked.dy
                && run.guard == guard && run.observe_after is None,
            (BatchStep::Key { request: asked }, BatchStep::Key { request: run }) => run.keys
                == asked.keys && run.mode == asked.mode && run.guard == guard
                && run.observe_after is None,
            (BatchStep::TypeText { request: asked }, BatchStep::TypeText { request: run }) =>
                run.text == asked.text && run.method == asked.method && run.guard == guard
                && run.observe_after is None,
            (
                BatchStep::WindowAction { request: asked },
                BatchStep::WindowAction { request: run },
            ) => run.window_ref == asked.window_ref && run.action == asked.action && run.guard
                == guard && run.observe_after is None,
            (
                BatchStep::AccessibilityAction { request: asked },
                BatchStep::AccessibilityAction { request: run },
            ) => run.element_ref == asked.element_ref && run.action == asked.action && run.guard
                == guard && run.observe_after is None,
            (BatchStep::LaunchApp { request: asked }, BatchStep::LaunchApp { request: run }) => run
                == asked,
            (BatchStep::WaitFor { request: asked }, BatchStep::WaitFor { request: run }) =>
                run.condition == asked.condition && run.observe == asked.observe && (
            asked.timeout_ms <= left_ms ==> run.timeout_ms == asked.timeout_ms) && (
            asked.timeout_ms > left_ms ==> run.timeout_ms == left_ms),
            _ => false,
        },
{
}

/// A batch begins exactly where it has one to 64 steps and may take one
/// millisecond to one minute. Its steps wait in their order, its time runs from
/// its start, and its guard, once checked, counts for every step.
pub proof fn batches_begin_within_their_limits(
    request: BatchRequest,
    now: u64,
    result: Result<BatchRun, ControllerError>,
)
    requires
        call_ensures(BatchRun::begin, (request, now), result),
        now <= u64::MAX - 60_000_000_000,
    ensures
        result is Ok <==> 1 <= request.steps@.len() <= 64 && 1 <= request.timeout_ms <= 60_000,
        result is Err ==> result->Err_0.code == ErrorCode::InvalidInput,
        result matches Ok(run) ==> {
            &&& run.waiting@ == request.steps@
            &&& run.completed@.len() == 0
            &&& run.deadline == now + request.timeout_ms * 1_000_000
            &&& run.guard.prevalidated
            &&& run.guard.frame_id == request.guard.frame_id
            &&& run.guard.accessibility_generation == request.guard.accessibility_generation
            &&& run.guard.expected_active_window == request.guard.expected_active_window
            &&& run.observe_after == request.observe_after
        },
{
}

/// A batch runs its steps one after the other, each for as long as is left. It
/// is over where no step waits, and fails with a retryable timeout that names the
/// step where the deadline passes before one.
pub proof fn batches_run_their_steps_in_order(run: &mut BatchRun, now: u64, action: BatchAction)
    requires
        call_ensures(BatchRun::next, (run, now), action),
    ensures
        action is Release <==> old(run).waiting@.len() == 0,
        action is Run <==> old(run).waiting@.len() > 0 && now < old(run).deadline,
        action matches BatchAction::Run { step, left } ==> {
            &&& left == old(run).deadline - now
            &&& final(run).waiting@ == old(run).waiting@.skip(1)
            &&& final(run).completed == old(run).completed
            &&& step == batch_form(old(run).waiting@[0], old(run).guard, left / 1_000_000)
        },
        action matches BatchAction::ReleaseAndFail { e } ==> {
            &&& e.code == ErrorCode::Timeout
            &&& e.retryable
            &&& e.details is Some && e.details->0 is Batch
            &&& e.details->0->failed_step == old(run).completed@.len()
            &&& e.details->0->completed_steps@ == old(run).completed@
        },
{
    if action is Run {
        assert(old(run).waiting@.drop_first() =~= old(run).waiting@.skip(1));
    }
}

/// A step that is done is added to what was completed, under its number; one
/// that failed or took too long ends the batch with its own error, the number of
/// the step and the results before it.
pub proof fn steps_are_recorded_or_end_the_batch(
    run: &mut BatchRun,
    outcome: Outcome<StepValue>,
    failure: Option<BatchAction>,
)
    requires
        call_ensures(BatchRun::step_done, (run, outcome), failure),
        old(run).completed@.len() < 64,
    ensures
        failure is None <==> outcome is Done,
        outcome matches Outcome::Done(value) ==> {
            &&& final(run).completed@.len() == old(run).completed@.len() + 1
            &&& final(run).completed@.drop_last() == old(run).completed@
            &&& final(run).completed@.last().index == old(run).completed@.len()
            &&& final(run).completed@.last().value == value
        },
        final(run).waiting == old(run).waiting,
        !(outcome is Done) ==> {
            let e = failure->0->e;
            &&& failure is Some && failure->0 is ReleaseAndFail
            &&& e.details is Some && e.details->0 is Batch
            &&& e.details->0->failed_step == old(run).completed@.len()
            &&& e.details->0->completed_steps@ == old(run).completed@
            &&& outcome matches Outcome::Failed(cause) ==> e.code == cause.code && e.message
                == cause.message && e.retryable == cause.retryable
            &&& outcome is TimedOut ==> e.code == ErrorCode::Timeout && e.retryable
        },
{
    if outcome is Done {
        assert(final(run).completed@.drop_last() =~= old(run).completed@);
    }
}

/// A batch whose steps are all done has succeeded with all their results,
/// unless its observation fails or comes too late; then its error says so and
/// holds the results.
pub proof fn finished_batches_hold_every_result(
    run: BatchRun,
    outcome: Outcome<(Option<Observation>, bool)>,
    result: Result<BatchResult, ControllerError>,
)
    requires
        call_ensures(BatchRun::finish, (run, outcome), result),
    ensures
        result is Ok <==> outcome is Done,
        result matches Ok(done) ==> done.ok && done.steps@ == run.completed@ && done.observation
            == (outcome->Done_0).0 && done.settled == (outcome->Done_0).1,
        result matches Err(e) ==> {
            &&& e.details is Some && e.details->0 is Batch
            &&& e.details->0->failed_step == run.completed@.len()
            &&& e.details->0->completed_steps@ == run.completed@
            &&& outcome matches Outcome::Failed(cause) ==> e.code == cause.code && e.message
                == cause.message && e.retryable == cause.retryable
            &&& outcome is TimedOut ==> e.code == ErrorCode::Timeout && e.retryable
        },
{
}

/// Once what is held was released, the observation may take the time that is
/// left; a failed release, or no time left, ends the batch with all results.
pub proof fn released_batches_have_the_time_that_is_left(
    run: &mut BatchRun,
    outcome: Result<(), ControllerError>,
    now: u64,
    result: Result<u64, ControllerError>,
)
    requires
        call_ensures(BatchRun::released, (run, outcome, now), result),
    ensures
        result is Ok <==> outcome is Ok && now < old(run).deadline,
        result matches Ok(left) ==> left == old(run).deadline - now && *final(run) == *old(run),
        result matches Err(e) ==> {
            &&& e.details is Some && e.details->0 is Batch
            &&& e.details->0->failed_step == old(run).completed@.len()
            &&& e.details->0->completed_steps@ == old(run).completed@
            &&& outcome matches Err(cause) ==> e.code == cause.code
            &&& outcome is Ok ==> e.code == ErrorCode::Timeout
        },
{
}

/// A batch whose guard or first observation fails has failed at step zero,
/// with nothing completed.
pub proof fn unprepared_batches_completed_nothing<T>(
    outcome: Outcome<T>,
    result: Result<T, BatchAction>,
)
    requires
        call_ensures(BatchRun::prepared::<T>, (outcome,), result),
    ensures
        result is Ok <==> outcome is Done,
        result is Ok ==> result->Ok_0 == outcome->Done_0,
        result is Err ==> {
            let e = result->Err_0->e;
            &&& result->Err_0 is ReleaseAndFail
            &&& e.details is Some && e.details->0 is Batch
            &&& e.details->0->failed_step == 0
            &&& e.details->0->completed_steps@.len() == 0
            &&& outcome matches Outcome::Failed(cause) ==> e.code == cause.code && e.message
                == cause.message
            &&& outcome is TimedOut ==> e.code == ErrorCode::Timeout && e.retryable
        },
{
}

/// After an action, a change is waited for where one is required, since the
/// frame before the action; then quiet; then the target is observed. Where time
/// runs out it is observed at once, as not settled.
pub proof fn observations_follow_change_and_quiet(
    after: ObserveAfter,
    base_frame: Option<u64>,
    now: u64,
    way: AfterAction,
    step: AfterStep,
)
    requires
        call_ensures(
            AfterAction::begin,
            (after, base_frame, now),
            Ok::<(AfterAction, AfterStep), ControllerError>((way, step)),
        ),
        now <= u64::MAX - 60_000_000_000,
    ensures
        1 <= after.timeout_ms <= 60_000 && after.quiet_ms <= after.timeout_ms,
        way.after == after && way.base_frame == base_frame && way.deadline == now + after.timeout_ms
            * 1_000_000,
        after.require_change ==> {
            &&& step is WaitChange
            &&& step->WaitChange_request.timeout_ms == after.timeout_ms
            &&& !step->WaitChange_request.observe
            &&& step->WaitChange_request.condition is Change
            &&& step->WaitChange_request.condition->Change_since_frame_id == base_frame
            &&& step->WaitChange_request.condition->Change_target == after.target
        },
        !after.require_change ==> {
            &&& step is WaitIdle
            &&& step->WaitIdle_request.timeout_ms == after.timeout_ms
            &&& !step->WaitIdle_request.observe
            &&& step->WaitIdle_request.condition is Idle
            &&& step->WaitIdle_request.condition->Idle_quiet_ms == after.quiet_ms
            &&& step->WaitIdle_request.condition->Idle_target == after.target
        },
{
}

/// After a change the target is to be quiet, for the time that is left; where
/// no change or no quiet came in time the target is observed as not settled, and
/// where quiet came as settled. A failed wait fails the observation.
pub proof fn waits_after_an_action_lead_to_its_observation(
    way: AfterAction,
    outcome: WaitOutcome,
    now: u64,
    changed: Result<AfterStep, ControllerError>,
    quieted: Result<AfterStep, ControllerError>,
)
    requires
        call_ensures(AfterAction::changed, (&way, outcome, now), changed),
        call_ensures(AfterAction::quieted, (&way, outcome), quieted),
    ensures
        outcome is Failed ==> changed is Err && quieted is Err && changed->Err_0
            == outcome->Failed_0 && quieted->Err_0 == outcome->Failed_0,
        outcome is TimedOut ==> changed is Ok && changed->Ok_0 is Observe
            && !changed->Ok_0->settled,
        outcome is Met && now < way.deadline ==> changed is Ok && changed->Ok_0 is WaitIdle
            && changed->Ok_0->WaitIdle_request.condition is Idle
            && changed->Ok_0->WaitIdle_request.condition->Idle_quiet_ms == way.after.quiet_ms
            && changed->Ok_0->WaitIdle_request.condition->Idle_target == way.after.target,
        outcome is Met && now >= way.deadline ==> changed is Ok && changed->Ok_0 is Observe
            && !changed->Ok_0->settled,
        !(outcome is Failed) ==> {
            &&& quieted is Ok && quieted->Ok_0 is Observe
            &&& quieted->Ok_0->settled <==> outcome is Met
            &&& quieted->Ok_0->Observe_request.target == way.after.target
            &&& quieted->Ok_0->Observe_request.include_windows == way.after.include_windows
            &&& quieted->Ok_0->Observe_request.delivery is Delta <==> way.after.delivery
                == crate::types::AfterDelivery::Delta && way.base_frame is Some
            &&& quieted->Ok_0->Observe_request.delivery is Delta
                ==> quieted->Ok_0->Observe_request.delivery->since_frame_id == way.base_frame->0
        },
{
}

/// A wait after an action that gave up has timed out; any other error is one.
pub proof fn waits_that_give_up_have_timed_out(
    result: Result<WaitResult, ControllerError>,
    outcome: WaitOutcome,
)
    requires
        call_ensures(wait_outcome, (result,), outcome),
    ensures
        outcome is Met <==> result is Ok,
        outcome is TimedOut <==> result is Err && result->Err_0.code == ErrorCode::Timeout,
        outcome is Failed ==> outcome->Failed_0 == result->Err_0,
{
}

} // verus!
