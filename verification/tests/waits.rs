use x11_mcp::accessibility::{
    AccessibilityRoot, AccessibleNode, AccessibleValue, ElementSelector,
};
use x11_mcp::element_wait::{plan_wait, Tick, WaitPlan};
use x11_mcp::error::{ControllerError, ErrorCode};
use x11_mcp::frames::FrameHistory;
use x11_mcp::session::{SessionWaitCondition, SessionWaitRequest, ValueRange};
use x11_mcp::types::{
    Geometry, ObserveTarget, WaitCondition, WaitRequest, WindowClass, WindowInfo, WindowList,
    WindowSelector,
};
use x11_mcp::wait::{
    begin_wait, check_wait, wait_timeout_error, window_closed, ControllerWait, WaitLook, WaitStep,
};
use x11_mcp::windows::{RawWindow, WindowRefs};

fn screen() -> Geometry {
    Geometry {
        x: 0,
        y: 0,
        width: 100,
        height: 100,
    }
}

fn request(condition: WaitCondition) -> WaitRequest {
    WaitRequest {
        condition,
        timeout_ms: 1_000,
        observe: false,
    }
}

fn begin(condition: WaitCondition, damage: bool) -> ControllerWait {
    begin_wait(
        request(condition),
        &FrameHistory::new(),
        &WindowRefs::new(),
        screen(),
        1,
        damage,
        0,
    )
    .unwrap()
    .0
}

fn look(fingerprint: u64) -> WaitLook {
    WaitLook::Fingerprint { fingerprint }
}

fn window(mapped: bool) -> WindowInfo {
    WindowInfo {
        window_ref: "window-1".to_owned(),
        xid: "0x00000001".to_owned(),
        title: "Ready now".to_owned(),
        class: WindowClass {
            instance: None,
            name: None,
        },
        pid: None,
        desktop: None,
        geometry: screen(),
        mapped,
    }
}

fn list(windows: Vec<WindowInfo>, active: Option<&str>) -> WaitLook {
    WaitLook::Windows {
        list: WindowList {
            desktop_generation: 1,
            active_window: active.map(str::to_owned),
            windows,
        },
    }
}

#[test]
fn idle_waits_end_when_nothing_changes() {
    let mut wait = begin(
        WaitCondition::Idle {
            quiet_ms: 100,
            target: ObserveTarget::Desktop,
        },
        false,
    );
    assert!(matches!(wait.step(look(1), 0), WaitStep::Sleep { ms: 50 }));
    assert!(matches!(wait.step(look(2), 50), WaitStep::Sleep { .. }));
    assert!(matches!(wait.step(look(2), 100), WaitStep::Sleep { .. }));
    assert!(matches!(
        wait.step(look(2), 150),
        WaitStep::Matched { window: None }
    ));
}

#[test]
fn waits_end_at_their_deadline() {
    let mut wait = begin(
        WaitCondition::Idle {
            quiet_ms: 100,
            target: ObserveTarget::Desktop,
        },
        false,
    );
    wait.step(look(1), 950);
    assert!(matches!(wait.step(look(2), 1_000), WaitStep::TimedOut));
    let timeout = wait_timeout_error();
    assert_eq!(timeout.code, ErrorCode::Timeout);
    assert!(timeout.retryable);
}

#[test]
fn changes_are_seen_against_a_baseline() {
    let mut wait = begin(
        WaitCondition::Change {
            since_frame_id: None,
            target: ObserveTarget::Desktop,
        },
        false,
    );
    assert!(matches!(wait.step(look(5), 0), WaitStep::Sleep { ms: 0 }));
    assert!(matches!(wait.step(look(5), 10), WaitStep::Sleep { .. }));
    assert!(matches!(wait.step(look(6), 60), WaitStep::Matched { .. }));
}

#[test]
fn changes_since_a_frame_count_its_damage() {
    let mut history = FrameHistory::new();
    let frame_id = history.record(ObserveTarget::Desktop, screen(), 1, 44);
    let condition = || WaitCondition::Change {
        since_frame_id: Some(frame_id),
        target: ObserveTarget::Desktop,
    };
    let refs = WindowRefs::new();
    let (mut wait, watch) =
        begin_wait(request(condition()), &history, &refs, screen(), 1, true, 0).unwrap();
    assert_eq!(watch.count, 0);
    assert!(matches!(
        wait.step(look(watch.count), 0),
        WaitStep::Sleep { .. }
    ));
    history.damage(Geometry {
        x: 1,
        y: 1,
        width: 1,
        height: 1,
    });
    let (mut wait, watch) =
        begin_wait(request(condition()), &history, &refs, screen(), 1, true, 0).unwrap();
    assert!(matches!(
        wait.step(look(watch.count), 0),
        WaitStep::Matched { .. }
    ));
    let expired = begin_wait(
        request(WaitCondition::Change {
            since_frame_id: Some(9),
            target: ObserveTarget::Desktop,
        }),
        &history,
        &refs,
        screen(),
        1,
        true,
        0,
    )
    .unwrap_err();
    assert_eq!(expired.code, ErrorCode::StaleFrame);
    assert_eq!(expired.message, "frame 9 is not in the 64-frame history");
    assert!(expired.retryable);
    let other = begin_wait(
        request(WaitCondition::Change {
            since_frame_id: Some(frame_id),
            target: ObserveTarget::Region {
                x: 0,
                y: 0,
                width: 10,
                height: 10,
            },
        }),
        &history,
        &refs,
        screen(),
        1,
        true,
        0,
    )
    .unwrap_err();
    assert_eq!(other.code, ErrorCode::StaleFrame);
    assert_eq!(other.message, "frame 1 was observed with another target");
    assert!(other.retryable);
    assert_eq!(history.latest(), frame_id);
}

#[test]
fn damage_watches_count_within_their_bounds() {
    let (_, mut watch) = begin_wait(
        request(WaitCondition::Idle {
            quiet_ms: 1,
            target: ObserveTarget::Desktop,
        }),
        &FrameHistory::new(),
        &WindowRefs::new(),
        screen(),
        1,
        true,
        0,
    )
    .unwrap();
    watch.note(Geometry {
        x: 200,
        y: 0,
        width: 5,
        height: 5,
    });
    assert_eq!(watch.count, 0);
    watch.note(screen());
    assert_eq!(watch.count, 1);
}

#[test]
fn windows_are_awaited_by_selector_and_state() {
    let mut matched = begin(
        WaitCondition::Window {
            selector: WindowSelector {
                title_contains: Some("ready".to_owned()),
                ..WindowSelector::default()
            },
        },
        true,
    );
    assert!(matches!(
        matched.step(list(Vec::new(), None), 0),
        WaitStep::Sleep { .. }
    ));
    match matched.step(list(vec![window(true)], None), 10) {
        WaitStep::Matched { window: Some(info) } => assert_eq!(info.window_ref, "window-1"),
        other => panic!("{other:?}"),
    }
    let mut state = begin(
        WaitCondition::WindowState {
            window_ref: "window-1".to_owned(),
            mapped: Some(true),
            active: Some(true),
            title_contains: Some("READY".to_owned()),
        },
        true,
    );
    assert!(matches!(
        state.step(list(vec![window(true)], None), 0),
        WaitStep::Sleep { .. }
    ));
    assert!(matches!(
        state.step(list(vec![window(true)], Some("window-1")), 0),
        WaitStep::Matched { .. }
    ));
}

#[test]
fn closed_windows_are_gone_or_reused() {
    let mut refs = WindowRefs::new();
    refs.ref_for(40);
    let (mut wait, _) = begin_wait(
        request(WaitCondition::WindowClosed {
            window_ref: "window-1".to_owned(),
        }),
        &FrameHistory::new(),
        &refs,
        screen(),
        1,
        true,
        0,
    )
    .unwrap();
    assert!(matches!(
        wait.step(WaitLook::Closed { closed: false }, 0),
        WaitStep::Sleep { .. }
    ));
    assert!(matches!(
        wait.step(WaitLook::Closed { closed: true }, 0),
        WaitStep::Matched { window: None }
    ));
    let reading = RawWindow {
        viewable: true,
        x: 0,
        y: 0,
        width: 1,
        height: 1,
        net_name: None,
        name: None,
        class: None,
        pid: Ok(None),
        desktop: Ok(None),
    };
    assert!(!window_closed(&mut refs, "window-1", 40, Ok(reading)));
    let gone = Err(ControllerError::x11("read window attributes", "gone"));
    assert!(window_closed(&mut refs, "window-1", 40, gone));
    let unknown = check_wait(
        &request(WaitCondition::WindowClosed {
            window_ref: "window-9".to_owned(),
        }),
        &refs,
    )
    .unwrap_err();
    assert_eq!(unknown.code, ErrorCode::StaleWindow);
}

#[test]
fn wait_times_are_limited() {
    let refs = WindowRefs::new();
    for timeout_ms in [0, 60_001] {
        let refused = check_wait(
            &WaitRequest {
                condition: WaitCondition::Window {
                    selector: WindowSelector::default(),
                },
                timeout_ms,
                observe: false,
            },
            &refs,
        )
        .unwrap_err();
        assert_eq!(refused.message, "timeout_ms must be between 1 and 60000");
    }
}

fn node(value: Option<f64>) -> AccessibleNode {
    AccessibleNode {
        element_ref: "e1".to_owned(),
        parent_ref: None,
        window_ref: None,
        role: "slider".to_owned(),
        name: "Volume".to_owned(),
        description: String::new(),
        states: vec!["enabled".to_owned()],
        bounds: None,
        interfaces: Vec::new(),
        actions: Vec::new(),
        text: Some("Half way".to_owned()),
        value: value.map(|current| AccessibleValue {
            current: current.to_bits(),
            minimum: 0.0f64.to_bits(),
            maximum: 1.0f64.to_bits(),
            increment: 0.1f64.to_bits(),
        }),
    }
}

#[test]
fn value_ranges_bound_numbers() {
    let range = |minimum: Option<f64>, maximum: Option<f64>| ValueRange {
        minimum: minimum.map(f64::to_bits),
        maximum: maximum.map(f64::to_bits),
    };
    let half = node(Some(0.5)).value;
    assert!(range(Some(0.5), Some(0.5)).matches(&half));
    assert!(range(None, None).matches(&half));
    assert!(!range(Some(0.6), None).matches(&half));
    assert!(!range(None, Some(-1.0)).matches(&half));
    assert!(!range(None, None).matches(&None));
    assert!(range(Some(-0.0), None).matches(&node(Some(0.0)).value));
    assert!(!range(Some(f64::NAN), None).matches(&half));
}

#[test]
fn element_waits_look_at_the_first_element() {
    let plan = plan_wait(
        SessionWaitRequest {
            condition: SessionWaitCondition::ElementState {
                element_ref: "e1".to_owned(),
                states_all: vec!["ENABLED".to_owned()],
                name_contains: Some("vol".to_owned()),
                text_contains: Some("way".to_owned()),
                value: Some(ValueRange {
                    minimum: Some(0.25f64.to_bits()),
                    maximum: None,
                }),
            },
            timeout_ms: 100,
            observe: true,
        },
        1_000,
    )
    .unwrap();
    let wait = match plan {
        WaitPlan::Element { wait } => wait,
        other => panic!("{other:?}"),
    };
    assert_eq!(wait.deadline, 100_001_000);
    let request = wait.request();
    assert!(matches!(request.root, AccessibilityRoot::Element { .. }));
    assert!(request.include_text);
    assert_eq!((request.max_depth, request.max_nodes), (0, 1));
    assert!(wait.look(Vec::new()).is_none());
    assert!(wait.look(vec![node(Some(0.1))]).is_none());
    assert!(wait.look(vec![node(None)]).is_none());
    assert_eq!(
        wait.look(vec![node(Some(0.5))]).unwrap().element_ref,
        "e1"
    );
    assert_eq!(
        wait.tick(true, 1_000).unwrap(),
        Tick::AwaitEvent { ns: 100_000_000 }
    );
    assert_eq!(
        wait.tick(false, 1_000).unwrap(),
        Tick::Sleep { ns: 50_000_000 }
    );
    assert_eq!(
        wait.tick(false, 100_000_000).unwrap(),
        Tick::Sleep { ns: 1_000 }
    );
    let over = wait.tick(true, 100_001_000).unwrap_err();
    assert_eq!(over.code, ErrorCode::Timeout);
    assert!(wait.awaited(true).is_ok());
    assert!(wait.awaited(false).unwrap_err().retryable);
    assert!(wait.observation().is_some());
}

#[test]
fn session_waits_are_handed_to_the_controller() {
    let request = |condition, timeout_ms| SessionWaitRequest {
        condition,
        timeout_ms,
        observe: true,
    };
    match plan_wait(
        request(
            SessionWaitCondition::FrameIdle {
                quiet_ms: 150,
                target: ObserveTarget::Desktop,
            },
            3_000,
        ),
        0,
    )
    .unwrap()
    {
        WaitPlan::Frame { request } => {
            assert!(request.observe);
            assert_eq!(request.timeout_ms, 3_000);
            assert!(matches!(
                request.condition,
                WaitCondition::Idle { quiet_ms: 150, .. }
            ));
        }
        other => panic!("{other:?}"),
    }
    assert!(matches!(
        plan_wait(
            request(
                SessionWaitCondition::WindowClosed {
                    window_ref: "window-3".to_owned()
                },
                3_000
            ),
            0
        ),
        Ok(WaitPlan::Window { .. })
    ));
    let matched = plan_wait(
        request(
            SessionWaitCondition::ElementMatched {
                selector: ElementSelector {
                    name_contains: Some("zenity".to_owned()),
                    states_all: vec!["enabled".to_owned()],
                    ..ElementSelector::default()
                },
            },
            5_000,
        ),
        0,
    )
    .unwrap();
    match matched {
        WaitPlan::Element { wait } => {
            let selector = wait.request().selector.unwrap();
            assert_eq!(selector.name_contains.as_deref(), Some("zenity"));
            assert_eq!(selector.states_all, vec!["enabled"]);
            assert!(wait.look(vec![node(None)]).is_some());
        }
        other => panic!("{other:?}"),
    }
    assert_eq!(
        plan_wait(
            request(
                SessionWaitCondition::WindowClosed {
                    window_ref: "window-3".to_owned()
                },
                0
            ),
            0
        )
        .unwrap_err()
        .message,
        "timeout_ms must be between 1 and 60000"
    );
}
