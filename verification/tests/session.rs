use x11_mcp::accessibility::{
    AccessibilityActionRequest, AccessibilityInfo, AccessibilityMode, ElementAction,
};
use x11_mcp::applications::{ApplicationCapabilities, LaunchAppRequest, LaunchAppResult};
use x11_mcp::error::{ControllerError, ErrorCode, ErrorDetails};
use x11_mcp::link::{connect_timeout_error, element_request, element_window, Link, LinkStep};
use x11_mcp::session::{
    batch_guard_scope, check_after, prepare_step, remaining_timeout_ms, session_capabilities,
    validate_timeout, wait_outcome, AfterAction, AfterStep, BatchAction, BatchRequest, BatchRun,
    BatchStep, Outcome, SessionWaitCondition, SessionWaitRequest, SessionWaitResult, StepValue,
    WaitOutcome,
};
use x11_mcp::settle::{
    action_baseline, baseline_request, final_request, finish_action, SettleStep, Settling,
};
use x11_mcp::types::{
    AfterDelivery, Capabilities, ClickRequest, KeyMode, KeyRequest, MovePointerRequest,
    ObservationDelivery, ObserveAfter, ObserveTarget, Position, ScreenInfo, ScrollRequest,
    SecurityInfo, StateGuard, WaitCondition, WaitResult,
};

fn key(frame_id: u64) -> BatchStep {
    BatchStep::Key {
        request: KeyRequest {
            keys: vec!["A".to_owned()],
            mode: KeyMode::Press,
            guard: StateGuard {
                frame_id: Some(frame_id),
                ..StateGuard::default()
            },
            observe_after: Some(ObserveAfter::default()),
        },
    }
}

fn wait(timeout_ms: u64) -> BatchStep {
    BatchStep::WaitFor {
        request: SessionWaitRequest {
            condition: SessionWaitCondition::WindowClosed {
                window_ref: "window-1".to_owned(),
            },
            timeout_ms,
            observe: false,
        },
    }
}

fn batch(steps: Vec<BatchStep>, timeout_ms: u64) -> BatchRequest {
    BatchRequest {
        steps,
        guard: StateGuard {
            frame_id: Some(42),
            ..StateGuard::default()
        },
        timeout_ms,
        observe_after: None,
    }
}

fn launched(pid: u32) -> Outcome<StepValue> {
    Outcome::Done(StepValue::Launch(LaunchAppResult {
        launched: true,
        app_id: "a".to_owned(),
        name: "A".to_owned(),
        pid,
    }))
}

fn failure() -> ControllerError {
    ControllerError::new(ErrorCode::StaleWindow, "gone")
}

#[test]
fn batches_have_one_to_sixty_four_steps() {
    let empty = BatchRun::begin(batch(Vec::new(), 1_000), 0).unwrap_err();
    assert_eq!(empty.message, "batch must contain between 1 and 64 steps");
    let many = (0..65).map(|_| key(1)).collect();
    assert!(BatchRun::begin(batch(many, 1_000), 0).is_err());
    let most: Vec<BatchStep> = (0..64).map(|_| key(1)).collect();
    assert!(BatchRun::begin(batch(most, 60_000), 0).is_ok());
    assert_eq!(
        BatchRun::begin(batch(vec![key(1)], 60_001), 0)
            .unwrap_err()
            .code,
        ErrorCode::InvalidInput
    );
}

#[test]
fn steps_run_under_the_guard_of_their_batch() {
    let mut run = BatchRun::begin(batch(vec![key(7), wait(5_000)], 1_000), 0).unwrap();
    match run.next(0) {
        BatchAction::Run {
            step: BatchStep::Key { request },
            left,
        } => {
            assert_eq!(left, 1_000_000_000);
            assert_eq!(request.guard.frame_id, Some(42));
            assert!(request.guard.prevalidated);
            assert!(request.observe_after.is_none());
        }
        other => panic!("{other:?}"),
    }
    assert!(run.step_done(launched(1)).is_none());
    match run.next(400_000_000) {
        BatchAction::Run {
            step: BatchStep::WaitFor { request },
            ..
        } => assert_eq!(request.timeout_ms, 600),
        other => panic!("{other:?}"),
    }
    let shorter = prepare_step(wait(20), &StateGuard::default(), 600);
    assert!(matches!(
        shorter,
        BatchStep::WaitFor { request } if request.timeout_ms == 20
    ));
}

#[test]
fn batches_stop_at_the_first_failure() {
    let mut run = BatchRun::begin(batch(vec![key(1), key(1), key(1)], 1_000), 0).unwrap();
    assert!(matches!(run.next(0), BatchAction::Run { .. }));
    assert!(run.step_done(launched(5)).is_none());
    assert!(matches!(run.next(0), BatchAction::Run { .. }));
    match run.step_done(Outcome::Failed(failure())) {
        Some(BatchAction::ReleaseAndFail { e }) => {
            assert_eq!(e.code, ErrorCode::StaleWindow);
            assert_eq!(e.message, "gone");
            match e.details {
                Some(ErrorDetails::Batch {
                    failed_step,
                    completed_steps,
                    cause,
                }) => {
                    assert_eq!(failed_step, 1);
                    assert_eq!(completed_steps.len(), 1);
                    assert_eq!(completed_steps[0].index, 0);
                    assert!(matches!(
                        &completed_steps[0].value,
                        StepValue::Launch(result) if result.pid == 5
                    ));
                    assert!(cause.is_none());
                }
                other => panic!("{other:?}"),
            }
        }
        other => panic!("{other:?}"),
    }
}

#[test]
fn batches_end_at_their_deadline() {
    let mut run = BatchRun::begin(batch(vec![key(1), key(1)], 1), 0).unwrap();
    run.next(0);
    run.step_done(launched(5));
    match run.next(1_000_000) {
        BatchAction::ReleaseAndFail { e } => {
            assert_eq!(e.code, ErrorCode::Timeout);
            assert!(e.retryable);
            assert_eq!(e.message, "batch deadline exceeded");
            assert!(matches!(
                e.details,
                Some(ErrorDetails::Batch { failed_step: 1, .. })
            ));
        }
        other => panic!("{other:?}"),
    }
    match BatchRun::prepared::<()>(Outcome::TimedOut) {
        Err(BatchAction::ReleaseAndFail { e }) => {
            assert_eq!(e.code, ErrorCode::Timeout);
            assert!(matches!(
                e.details,
                Some(ErrorDetails::Batch { failed_step: 0, .. })
            ));
        }
        other => panic!("{other:?}"),
    }
    assert_eq!(BatchRun::prepared(Outcome::Done(7)).unwrap(), 7);
    let inner = failure().with_details(ErrorDetails::AccessibilityGeneration {
        expected_accessibility_generation: 1,
        accessibility_generation: 2,
    });
    match BatchRun::prepared::<()>(Outcome::Failed(inner)) {
        Err(BatchAction::ReleaseAndFail { e }) => match e.details {
            Some(ErrorDetails::Batch {
                failed_step,
                completed_steps,
                cause,
            }) => {
                assert_eq!(failed_step, 0);
                assert!(completed_steps.is_empty());
                assert!(matches!(
                    cause.as_deref(),
                    Some(ErrorDetails::AccessibilityGeneration { .. })
                ));
            }
            other => panic!("{other:?}"),
        },
        other => panic!("{other:?}"),
    }
}

#[test]
fn finished_batches_release_and_observe() {
    let mut run = BatchRun::begin(batch(vec![key(1)], 1_000), 0).unwrap();
    run.next(0);
    run.step_done(launched(5));
    assert!(matches!(run.next(2_000_000_000), BatchAction::Release));
    assert_eq!(run.released(Ok(()), 999_999_999).unwrap(), 1);
    let done = run.finish(Outcome::Done((None, false))).unwrap();
    assert!(done.ok);
    assert!(!done.settled);
    assert_eq!(done.steps.len(), 1);

    let mut stuck = BatchRun::begin(batch(vec![key(1)], 1_000), 0).unwrap();
    stuck.next(0);
    stuck.step_done(launched(5));
    assert!(matches!(
        stuck.released(Err(failure()), 0).unwrap_err().details,
        Some(ErrorDetails::Batch { failed_step: 1, .. })
    ));

    let mut late = BatchRun::begin(batch(vec![key(1)], 1_000), 0).unwrap();
    late.next(0);
    late.step_done(launched(5));
    assert_eq!(
        late.released(Ok(()), 1_000_000_000).unwrap_err().code,
        ErrorCode::Timeout
    );

    let mut unseen = BatchRun::begin(batch(vec![key(1)], 1_000), 0).unwrap();
    unseen.next(0);
    unseen.step_done(launched(5));
    let failed = unseen.finish(Outcome::Failed(failure())).unwrap_err();
    assert_eq!(failed.code, failure().code);
    match failed.details {
        Some(ErrorDetails::Batch {
            failed_step,
            completed_steps,
            cause,
        }) => {
            assert_eq!(failed_step, 1);
            assert_eq!(completed_steps.len(), 1);
            assert!(cause.is_none());
        }
        other => panic!("{other:?}"),
    }
}

#[test]
fn batch_guards_cover_targeted_steps() {
    let relative = Position::Window {
        window_ref: "window-1".to_owned(),
        x: 1,
        y: 2,
    };
    let steps = vec![
        BatchStep::LaunchApp {
            request: LaunchAppRequest {
                app_id: "a".to_owned(),
            },
        },
        BatchStep::MovePointer {
            request: MovePointerRequest {
                position: Position::Screen { x: 1, y: 1 },
                guard: StateGuard::default(),
                observe_after: None,
            },
        },
        key(1),
    ];
    let untargeted = batch_guard_scope(&steps);
    assert!(!untargeted.require_frame);
    assert!(untargeted.positions.is_empty());
    assert!(!untargeted.semantic);
    let steps = vec![
        BatchStep::MovePointer {
            request: MovePointerRequest {
                position: relative.clone(),
                guard: StateGuard::default(),
                observe_after: None,
            },
        },
        BatchStep::Click {
            request: ClickRequest::default(),
        },
        BatchStep::Scroll {
            request: ScrollRequest {
                position: Some(Position::Screen { x: 3, y: 4 }),
                dx: 0,
                dy: 1,
                guard: StateGuard::default(),
                observe_after: None,
            },
        },
        BatchStep::AccessibilityAction {
            request: AccessibilityActionRequest {
                element_ref: "e1".to_owned(),
                action: ElementAction::Focus,
                guard: StateGuard::default(),
                observe_after: None,
            },
        },
    ];
    let scope = batch_guard_scope(&steps);
    assert!(scope.require_frame);
    assert!(scope.include_current_pointer);
    assert!(scope.semantic);
    assert_eq!(
        scope.positions,
        vec![relative, Position::Screen { x: 3, y: 4 }]
    );
}

#[test]
fn remaining_times_stay_within_the_limits() {
    assert_eq!(remaining_timeout_ms(5, 5), None);
    assert_eq!(remaining_timeout_ms(6, 5), Some(1));
    assert_eq!(remaining_timeout_ms(7_500_000, 0), Some(7));
    assert_eq!(remaining_timeout_ms(u64::MAX, 0), Some(60_000));
    assert!(validate_timeout(1).is_ok());
    assert!(validate_timeout(0).is_err());
}

fn after(require_change: bool, delivery: AfterDelivery) -> ObserveAfter {
    ObserveAfter {
        require_change,
        delivery,
        ..ObserveAfter::default()
    }
}

#[test]
fn baselines_are_taken_where_they_are_compared() {
    assert!(baseline_request(&None).is_none());
    assert!(baseline_request(&Some(after(false, AfterDelivery::Full))).is_none());
    let delta = baseline_request(&Some(after(false, AfterDelivery::Delta))).unwrap();
    assert_eq!(delta.delivery, ObservationDelivery::Full);
    assert!(baseline_request(&Some(after(true, AfterDelivery::Full))).is_some());
    assert_eq!(
        action_baseline(true, &None).unwrap_err().code,
        ErrorCode::EmergencyStop
    );
}

#[test]
fn settling_timeouts_do_not_fail_an_action() {
    let (way, step) =
        AfterAction::begin(after(true, AfterDelivery::Delta), Some(12), 0).unwrap();
    match step {
        AfterStep::WaitChange { request } => {
            assert_eq!(request.timeout_ms, 3_000);
            assert!(matches!(
                request.condition,
                WaitCondition::Change {
                    since_frame_id: Some(12),
                    ..
                }
            ));
        }
        other => panic!("{other:?}"),
    }
    let timeout = Err(ControllerError::new(ErrorCode::Timeout, "late"));
    match way.changed(wait_outcome(timeout), 5).unwrap() {
        AfterStep::Observe { request, settled } => {
            assert!(!settled);
            assert_eq!(
                request.delivery,
                ObservationDelivery::Delta { since_frame_id: 12 }
            );
        }
        other => panic!("{other:?}"),
    }
    assert!(matches!(
        way.changed(WaitOutcome::Met, 0).unwrap(),
        AfterStep::WaitIdle { .. }
    ));
    assert!(matches!(
        way.changed(WaitOutcome::Met, 3_000_000_000).unwrap(),
        AfterStep::Observe { settled: false, .. }
    ));
    assert!(matches!(
        way.quieted(WaitOutcome::Met).unwrap(),
        AfterStep::Observe { settled: true, .. }
    ));
    assert_eq!(
        way.quieted(wait_outcome(Err(failure()))).unwrap_err().code,
        ErrorCode::StaleWindow
    );
}

#[test]
fn observations_after_actions_are_checked() {
    let long = ObserveAfter {
        timeout_ms: 60_001,
        ..ObserveAfter::default()
    };
    assert_eq!(
        check_after(&long).unwrap_err().message,
        "observe_after.timeout_ms must be between 1 and 60000"
    );
    let quiet = ObserveAfter {
        quiet_ms: 2,
        timeout_ms: 1,
        ..ObserveAfter::default()
    };
    assert_eq!(
        check_after(&quiet).unwrap_err().message,
        "observe_after.quiet_ms cannot exceed timeout_ms"
    );
}

#[test]
fn pictures_settle_once_changed_and_quiet() {
    let request = ObserveAfter {
        quiet_ms: 100,
        timeout_ms: 1_000,
        require_change: true,
        ..ObserveAfter::default()
    };
    let mut settling = Settling::begin(&request, Some(5), 5, 0).unwrap();
    assert_eq!(settling.step(500), SettleStep::Sleep { ms: 50 });
    settling.look(6, 500);
    assert_eq!(settling.step(550), SettleStep::Sleep { ms: 50 });
    settling.look(6, 600);
    assert_eq!(settling.step(600), SettleStep::Done { settled: true });
    let never = Settling::begin(&request, Some(5), 5, 0).unwrap();
    assert_eq!(never.step(980), SettleStep::Sleep { ms: 20 });
    assert_eq!(never.step(1_000), SettleStep::Done { settled: false });
    let changed = Settling::begin(&request, Some(4), 5, 0).unwrap();
    assert!(changed.change_seen);
    let impossible = ObserveAfter {
        quiet_ms: 2,
        timeout_ms: 1,
        ..ObserveAfter::default()
    };
    assert!(Settling::begin(&impossible, None, 0, 0).is_err());
}

#[test]
fn finished_actions_report_their_observation() {
    let bare = finish_action(None, vec!["careful".to_owned()]);
    assert!(bare.ok);
    assert!(bare.settled);
    assert!(bare.observation.is_none());
    assert_eq!(bare.warnings, vec!["careful"]);
    let request = ObserveAfter {
        target: ObserveTarget::Window {
            window_ref: "window-1".to_owned(),
        },
        delivery: AfterDelivery::Delta,
        ..ObserveAfter::default()
    };
    assert_eq!(
        final_request(&request, None).delivery,
        ObservationDelivery::Full
    );
    assert_eq!(
        final_request(&request, Some(3)).delivery,
        ObservationDelivery::Delta { since_frame_id: 3 }
    );
}

#[test]
fn automatic_links_start_without_a_bus() {
    let mut link = Link::new(AccessibilityMode::Auto);
    assert!(link.connects_at_start());
    assert!(link.started(Err(connect_timeout_error())).is_ok());
    let info = link.info();
    assert!(!info.available);
    assert_eq!(
        info.reason.as_deref(),
        Some("timed out connecting to the AT-SPI bus")
    );
    assert!(matches!(link.ensure(false), LinkStep::Connect));
    let refused = link
        .connected(Err(ControllerError::new(ErrorCode::Accessibility, "no bus")))
        .unwrap_err();
    assert_eq!(refused.code, ErrorCode::UnsupportedCapability);
    assert!(refused.retryable);
    assert_eq!(refused.message, "AT-SPI is unavailable: no bus");
    assert!(link.connected(Ok(())).is_ok());
    assert_eq!(link.reason, None);
    assert!(matches!(link.ensure(true), LinkStep::Use));
    assert!(matches!(link.ensure(false), LinkStep::Connect));
    assert_eq!(
        link.reason.as_deref(),
        Some("AT-SPI connection was lost; reconnecting")
    );
}

#[test]
fn required_and_disabled_links_decide_at_start() {
    let mut required = Link::new(AccessibilityMode::Required);
    assert!(required.started(Err(failure())).is_err());
    assert!(required.started(Ok(())).is_ok());
    assert!(required.linked);
    let mut disabled = Link::new(AccessibilityMode::Disabled);
    assert!(!disabled.connects_at_start());
    match disabled.ensure(false) {
        LinkStep::Refuse { e } => {
            assert_eq!(e.code, ErrorCode::UnsupportedCapability);
            assert_eq!(e.message, "accessibility support is disabled");
        }
        other => panic!("{other:?}"),
    }
    let request = element_request("e4");
    assert_eq!(request.max_nodes, 1);
    assert_eq!(element_window(&Vec::new()), None);
}

#[test]
fn sessions_report_their_limits() {
    let x11 = Capabilities {
        display: ":20".to_owned(),
        screen: ScreenInfo {
            width: 1,
            height: 1,
            depth: 24,
        },
        monitors: Vec::new(),
        extensions: Vec::new(),
        ewmh: false,
        security: SecurityInfo {
            window_allowlist_enabled: false,
            input_events_per_second: 200,
        },
    };
    let accessibility = AccessibilityInfo {
        available: false,
        generation: 0,
        reason: None,
    };
    let applications = ApplicationCapabilities {
        desktop_entry_launch: true,
        terminal_entries_excluded: true,
        allowlist_enabled: false,
    };
    let offered = session_capabilities(x11, accessibility, applications);
    assert_eq!(offered.limits.frame_history, 64);
    assert_eq!(offered.limits.max_batch_steps, 64);
    assert_eq!(offered.limits.max_semantic_nodes, 2_000);
    let outcome = SessionWaitResult::x11(WaitResult {
        matched: true,
        window: None,
        observation: None,
    });
    assert!(outcome.matched);
    assert!(SessionWaitResult::observation(None).matched);
}
