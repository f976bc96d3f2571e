use x11_mcp::controller::{Controller, DragEnds, PointerTarget, Situation};
use x11_mcp::error::{ControllerError, ErrorCode, ErrorDetails};
use x11_mcp::input::{
    focus_command, move_to, plan_click, plan_drag, plan_move, plan_scroll, validate_window_size,
    window_command, InputStep, TextPlan, WindowAtoms, WindowCommand,
};
use x11_mcp::keyboard::KeyboardMap;
use x11_mcp::setup::{
    check_rate, describe_display, describe_monitors, extension_names, is_present, parse_chord,
    MonitorReading,
};
use x11_mcp::types::{
    Capabilities, ClickRequest, ControllerConfig, DragRequest, ExtensionInfo, Geometry, KeyMode,
    KeyRequest, MovePointerRequest, ObserveTarget, PointerInfo, Position, ScreenInfo,
    ScrollRequest, StateGuard, TextMethod, TypeTextRequest, WindowAction, WindowClass, WindowInfo,
    WindowList,
};

fn config(allow: &[&str], rate: u32) -> ControllerConfig {
    ControllerConfig {
        display: ":20".to_owned(),
        allow_window_classes: allow.iter().map(|glob| (*glob).to_owned()).collect(),
        max_input_events_per_second: rate,
        paste_chord: vec!["CTRL".to_owned(), "V".to_owned()],
    }
}

fn capabilities(config: &ControllerConfig) -> Capabilities {
    let screen = ScreenInfo {
        width: 800,
        height: 600,
        depth: 24,
    };
    let extensions = vec![
        ExtensionInfo {
            name: "xtest".to_owned(),
            present: true,
        },
        ExtensionInfo {
            name: "damage".to_owned(),
            present: true,
        },
    ];
    describe_display(
        config,
        screen,
        describe_monitors(&Vec::new(), screen),
        extensions,
        true,
    )
}

fn controller_with(allow: &[&str], rate: u32) -> Controller {
    let config = config(allow, rate);
    Controller::new(&config, &capabilities(&config), 0).unwrap()
}

fn controller() -> Controller {
    controller_with(&[], 200)
}

fn window(window_ref: &str, class: &str, geometry: Geometry) -> WindowInfo {
    WindowInfo {
        window_ref: window_ref.to_owned(),
        xid: "0x00000001".to_owned(),
        title: "Title".to_owned(),
        class: WindowClass {
            instance: Some(class.to_owned()),
            name: None,
        },
        pid: None,
        desktop: None,
        geometry,
        mapped: true,
    }
}

fn area(x: i32, y: i32, width: u32, height: u32) -> Geometry {
    Geometry {
        x,
        y,
        width,
        height,
    }
}

fn desktop(windows: Vec<WindowInfo>, active: Option<&str>) -> WindowList {
    WindowList {
        desktop_generation: 1,
        active_window: active.map(str::to_owned),
        windows,
    }
}

fn situation(list: WindowList) -> Situation {
    Situation {
        windows: Ok(list),
        pointer: Ok(PointerInfo { x: 5, y: 6 }),
        local: (0, 0),
        local_to: (0, 0),
        fresh_signature: None,
    }
}

fn guard(frame_id: u64) -> StateGuard {
    StateGuard {
        frame_id: Some(frame_id),
        ..StateGuard::default()
    }
}

fn observed(controller: &mut Controller) -> u64 {
    controller
        .history
        .record(ObserveTarget::Desktop, area(0, 0, 800, 600), 1, 99)
}

fn keyboard() -> KeyboardMap {
    KeyboardMap {
        first_keycode: 8,
        keysyms_per_keycode: 2,
        keysyms: vec![97, 65, 0xffe1, 0, 0xffe3, 0, 118, 86],
        keycodes_per_modifier: 1,
        modifier_keycodes: vec![9, 0, 10, 0, 0, 0, 0, 0],
    }
}

#[test]
fn clicks_require_a_frame() {
    let mut controller = controller();
    let refused = controller
        .check_click(
            false,
            &ClickRequest::default(),
            situation(desktop(Vec::new(), None)), 0)
        .unwrap_err();
    assert_eq!(refused.code, ErrorCode::PreconditionFailed);
    assert!(refused.retryable);
    assert_eq!(
        refused.message,
        "this action requires guard.frame_id from a current observation"
    );
    assert!(matches!(
        refused.details,
        Some(ErrorDetails::DesktopState {
            latest_frame_id: 0,
            ..
        })
    ));
    let frame_id = observed(&mut controller);
    let request = ClickRequest {
        guard: guard(frame_id),
        ..ClickRequest::default()
    };
    let target = controller
        .check_click(false, &request, situation(desktop(Vec::new(), None)), 0)
        .unwrap();
    assert_eq!(
        target,
        PointerTarget {
            x: 5,
            y: 6,
            moves: false
        }
    );
}

#[test]
fn damage_invalidates_a_guard() {
    let mut controller = controller();
    let frame_id = observed(&mut controller);
    controller.history.damage(area(10, 10, 30, 20));
    let request = ClickRequest {
        guard: guard(frame_id),
        ..ClickRequest::default()
    };
    let stale = controller
        .check_click(false, &request, situation(desktop(Vec::new(), None)), 0)
        .unwrap_err();
    assert_eq!(stale.code, ErrorCode::PreconditionFailed);
    assert_eq!(stale.message, "pixels changed since frame 1");
}

#[test]
fn guards_name_the_active_window() {
    let mut controller = controller();
    let frame_id = observed(&mut controller);
    let request = ClickRequest {
        guard: StateGuard {
            expected_active_window: Some("window-1".to_owned()),
            ..guard(frame_id)
        },
        ..ClickRequest::default()
    };
    let refused = controller
        .check_click(
            false,
            &request,
            situation(desktop(Vec::new(), Some("window-2"))), 0)
        .unwrap_err();
    assert_eq!(
        refused.message,
        "active window does not match guard.expected_active_window"
    );
}

#[test]
fn screen_movement_needs_no_frame() {
    let mut controller = controller();
    let request = MovePointerRequest {
        position: Position::Screen { x: 50, y: 60 },
        guard: StateGuard::default(),
        observe_after: None,
    };
    let target = controller
        .check_move(false, &request, situation(desktop(Vec::new(), None)), 0)
        .unwrap();
    let plan = plan_move(target);
    assert_eq!(plan.steps, vec![InputStep::Motion { x: 50, y: 60 }]);
    let outside = MovePointerRequest {
        position: Position::Screen { x: 800, y: 0 },
        guard: StateGuard::default(),
        observe_after: None,
    };
    assert_eq!(
        controller
            .check_move(false, &outside, situation(desktop(Vec::new(), None)), 0)
            .unwrap_err()
            .message,
        "screen coordinate (800, 0) is outside 800x600"
    );
}

#[test]
fn a_latched_stop_refuses_input() {
    let controller = controller();
    let request = KeyRequest {
        keys: vec!["A".to_owned()],
        mode: KeyMode::Press,
        guard: StateGuard::default(),
        observe_after: None,
    };
    let refused = controller
        .check_key(true, &request, situation(desktop(Vec::new(), None)))
        .unwrap_err();
    assert_eq!(refused.code, ErrorCode::EmergencyStop);
    assert!(controller
        .check_key(false, &request, situation(desktop(Vec::new(), None)))
        .is_ok());
}

#[test]
fn input_needs_the_test_extension() {
    let mut controller = controller();
    controller.xtest = false;
    let request = KeyRequest {
        keys: vec!["A".to_owned()],
        mode: KeyMode::Press,
        guard: StateGuard::default(),
        observe_after: None,
    };
    assert_eq!(
        controller
            .check_key(false, &request, situation(desktop(Vec::new(), None)))
            .unwrap_err()
            .code,
        ErrorCode::UnsupportedCapability
    );
}

#[test]
fn allowlists_decide_by_the_topmost_window() {
    let mut controller = controller_with(&["fire*"], 200);
    let frame_id = observed(&mut controller);
    let below = window("window-1", "firefox", area(0, 0, 100, 100));
    let above = window("window-2", "xterm", area(0, 0, 10, 10));
    let request = |x: i32| ClickRequest {
        position: Some(Position::Screen { x, y: 5 }),
        guard: guard(frame_id),
        ..ClickRequest::default()
    };
    let list = || desktop(vec![below.clone(), above.clone()], Some("window-1"));
    assert!(controller
        .check_click(false, &request(50), situation(list()), 0)
        .is_ok());
    let denied = controller
        .check_click(false, &request(5), situation(list()), 0)
        .unwrap_err();
    assert_eq!(denied.code, ErrorCode::AccessDenied);
    assert_eq!(
        denied.message,
        "window window-2 is not permitted by --allow-window-class"
    );
    assert!(controller
        .check_click(false, &request(500), situation(list()), 0)
        .is_err());
    let keys = KeyRequest {
        keys: vec!["A".to_owned()],
        mode: KeyMode::Press,
        guard: StateGuard::default(),
        observe_after: None,
    };
    assert!(controller
        .check_key(false, &keys, situation(list()))
        .is_ok());
    assert!(controller
        .check_key(
            false,
            &keys,
            situation(desktop(
                vec![below.clone(), above.clone()],
                Some("window-2")
            ))
        )
        .is_err());
}

#[test]
fn minimized_windows_admit_no_clicks() {
    let mut controller = controller_with(&["fire*"], 200);
    let frame_id = observed(&mut controller);
    let visible = window("window-1", "xterm", area(0, 0, 100, 100));
    let mut minimized = window("window-2", "firefox", area(0, 0, 100, 100));
    let request = ClickRequest {
        position: Some(Position::Screen { x: 5, y: 5 }),
        guard: guard(frame_id),
        ..ClickRequest::default()
    };
    let list = |top: &WindowInfo| desktop(vec![visible.clone(), top.clone()], None);
    assert!(controller
        .check_click(false, &request, situation(list(&minimized)), 0)
        .is_ok());
    minimized.mapped = false;
    let denied = controller
        .check_click(false, &request, situation(list(&minimized)), 0)
        .unwrap_err();
    assert_eq!(
        denied.message,
        "window window-1 is not permitted by --allow-window-class"
    );
}

#[test]
fn elements_are_acted_on_within_permitted_windows() {
    let restricted = controller_with(&["firefox"], 200);
    let windows = vec![
        window("window-1", "firefox", area(0, 0, 10, 10)),
        window("window-2", "xterm", area(0, 0, 10, 10)),
    ];
    let of = |name: &str| Some(name.to_owned());
    assert!(restricted.check_element(&of("window-1"), &windows).is_ok());
    assert_eq!(
        restricted
            .check_element(&of("window-2"), &windows)
            .unwrap_err()
            .code,
        ErrorCode::AccessDenied
    );
    assert_eq!(
        restricted
            .check_element(&None, &windows)
            .unwrap_err()
            .message,
        "semantic element cannot be associated with an allowlisted window"
    );
    assert!(controller().check_element(&None, &windows).is_ok());
}

#[test]
fn window_positions_stay_within_their_windows() {
    let mut controller = controller();
    let frame_id = observed(&mut controller);
    let windows = vec![window("window-1", "x", area(100, 50, 20, 10))];
    let request = |x: i32| MovePointerRequest {
        position: Position::Window {
            window_ref: "window-1".to_owned(),
            x,
            y: 3,
        },
        guard: guard(frame_id),
        observe_after: None,
    };
    let target = controller
        .check_move(false, &request(19), situation(desktop(windows.clone(), None)), 0)
        .unwrap();
    assert_eq!((target.x, target.y), (119, 53));
    assert_eq!(
        controller
            .check_move(false, &request(20), situation(desktop(windows.clone(), None)), 0)
            .unwrap_err()
            .message,
        "window coordinates are outside the referenced window"
    );
    let relative = |x: f64| MovePointerRequest {
        position: Position::WindowRelative {
            window_ref: "window-1".to_owned(),
            x: x.to_bits(),
            y: 0.0f64.to_bits(),
        },
        guard: guard(frame_id),
        observe_after: None,
    };
    let mut here = situation(desktop(windows.clone(), None));
    here.local = (10, 0);
    let target = controller.check_move(false, &relative(0.5), here, 0).unwrap();
    assert_eq!((target.x, target.y), (110, 50));
    assert!(controller
        .check_move(
            false,
            &relative(1.5),
            situation(desktop(windows.clone(), None)), 0)
        .is_err());
    let gone = controller
        .check_move(false, &request(1), situation(desktop(Vec::new(), None)), 0)
        .unwrap_err();
    assert_eq!(gone.code, ErrorCode::StaleWindow);
}

#[test]
fn batch_guards_cover_every_position() {
    let mut controller = controller();
    let frame_id = controller
        .history
        .record(ObserveTarget::Desktop, area(0, 0, 100, 100), 1, 9);
    let positions = vec![
        Position::Screen { x: 10, y: 10 },
        Position::Screen { x: 200, y: 10 },
    ];
    let refused = controller
        .check_scope(
            &guard(frame_id),
            true,
            false,
            &positions,
            &vec![(0, 0), (0, 0)],
            situation(desktop(Vec::new(), None)),
        )
        .unwrap_err();
    assert_eq!(refused.message, "frame 1 does not cover the action point");
    assert!(controller
        .check_scope(
            &guard(frame_id),
            true,
            true,
            &positions[..1].to_vec(),
            &vec![(0, 0)],
            situation(desktop(Vec::new(), None)),
        )
        .is_ok());
    let mut blind = situation(desktop(Vec::new(), None));
    blind.pointer = Err(ControllerError::x11("read pointer", "gone"));
    assert_eq!(
        controller
            .check_scope(&guard(frame_id), true, true, &Vec::new(), &Vec::new(), blind)
            .unwrap_err()
            .code,
        ErrorCode::X11
    );
}

#[test]
fn clicks_press_and_release() {
    let target = PointerTarget {
        x: 7,
        y: 8,
        moves: true,
    };
    let request = ClickRequest {
        count: 2,
        button: 3,
        ..ClickRequest::default()
    };
    let plan = plan_click(&request, target);
    assert!(plan.failure.is_none());
    let shown: Vec<InputStep> = plan
        .steps
        .iter()
        .copied()
        .filter(|step| matches!(step, InputStep::Motion { .. } | InputStep::Button { .. }))
        .collect();
    assert_eq!(
        shown,
        vec![
            InputStep::Motion { x: 7, y: 8 },
            InputStep::Button {
                button: 3,
                pressed: true
            },
            InputStep::Button {
                button: 3,
                pressed: false
            },
            InputStep::Button {
                button: 3,
                pressed: true
            },
            InputStep::Button {
                button: 3,
                pressed: false
            },
        ]
    );
}

#[test]
fn bursts_are_limited() {
    let mut controller = controller_with(&[], 4);
    let frame_id = observed(&mut controller);
    let request = |x: i32, count: u8| ClickRequest {
        position: Some(Position::Screen { x, y: 1 }),
        count,
        guard: guard(frame_id),
        ..ClickRequest::default()
    };
    let here = || situation(desktop(Vec::new(), None));
    let refused = controller
        .check_click(false, &request(1, 2), here(), 0)
        .unwrap_err();
    assert_eq!(refused.code, ErrorCode::RateLimited);
    assert!(refused.retryable);
    assert_eq!(
        refused.message,
        "operation needs 5 input events; limit is 4 events per second"
    );
    let outside = controller
        .check_click(false, &request(900, 1), here(), 0)
        .unwrap_err();
    assert_eq!(outside.code, ErrorCode::InvalidInput);
    assert_eq!(
        controller
            .check_click(false, &request(1, 1), here(), 0)
            .unwrap_err()
            .code,
        ErrorCode::RateLimited
    );
    assert!(controller
        .check_click(false, &request(1, 1), here(), 500_000_000)
        .is_ok());
}

#[test]
fn scrolling_ticks_along_both_axes() {
    let mut controller = controller();
    let request = ScrollRequest {
        position: None,
        dx: -1,
        dy: 1,
        guard: StateGuard::default(),
        observe_after: None,
    };
    let here = PointerTarget {
        x: 1,
        y: 1,
        moves: false,
    };
    let plan = plan_scroll(&request, here);
    let buttons: Vec<(u8, bool)> = plan
        .steps
        .iter()
        .filter_map(|step| match step {
            InputStep::Button { button, pressed } => Some((*button, *pressed)),
            _ => None,
        })
        .collect();
    assert_eq!(buttons.len(), 4);
    assert!(buttons.contains(&(6, true)));
    assert!(buttons.contains(&(5, true)));
    let none = ScrollRequest {
        dx: 0,
        dy: 0,
        ..request
    };
    assert_eq!(
        controller
            .check_scroll(false, &none, situation(desktop(Vec::new(), None)), 0)
            .unwrap_err()
            .message,
        "scroll must contain between 1 and 100 total ticks"
    );
}

#[test]
fn drags_hold_their_button_until_the_end() {
    let mut controller = controller();
    let frame_id = observed(&mut controller);
    let request = DragRequest {
        from: Position::Screen { x: 1, y: 2 },
        to: Position::Screen { x: 5, y: 6 },
        steps: 2,
        duration_ms: 10,
        guard: guard(frame_id),
        ..DragRequest::default()
    };
    let ends: DragEnds = controller
        .check_drag(false, &request, situation(desktop(Vec::new(), None)), 0)
        .unwrap();
    let plan = plan_drag(&request, ends, &vec![(3, 4), (5, 6)]);
    assert_eq!(
        plan.steps,
        vec![
            InputStep::Motion { x: 1, y: 2 },
            InputStep::Button {
                button: 1,
                pressed: true
            },
            InputStep::HoldButton { button: 1 },
            InputStep::Motion { x: 3, y: 4 },
            InputStep::Pause { ms: 5 },
            InputStep::Motion { x: 5, y: 6 },
            InputStep::Pause { ms: 5 },
            InputStep::Button {
                button: 1,
                pressed: false
            },
            InputStep::DropButton { button: 1 },
        ]
    );
    for step in &plan.steps[..4] {
        controller.held.note(*step);
    }
    assert_eq!(
        controller.held.release(),
        vec![InputStep::Button {
            button: 1,
            pressed: false
        }]
    );
    assert!(controller.held.release().is_empty());
    let none = DragRequest {
        steps: 0,
        ..DragRequest::default()
    };
    assert_eq!(
        controller
            .check_drag(false, &none, situation(desktop(Vec::new(), None)), 0)
            .unwrap_err()
            .message,
        "button must be non-zero and drag steps must be between 1 and 100"
    );
}

#[test]
fn failed_requests_leave_nothing_held() {
    let mut controller = controller();
    controller.held.note(InputStep::HoldKey { keycode: 9 });
    controller.held.note(InputStep::HoldKey { keycode: 9 });
    assert!(controller.held.after_request(false).is_empty());
    assert_eq!(
        controller.held.after_request(true),
        vec![InputStep::Key {
            keycode: 9,
            pressed: false
        }]
    );
}

#[test]
fn chords_are_pressed_in_order_and_released_in_reverse() {
    let mut controller = controller();
    let request = KeyRequest {
        keys: vec!["CTRL".to_owned(), "a".to_owned()],
        mode: KeyMode::Press,
        guard: StateGuard::default(),
        observe_after: None,
    };
    let plan = controller.plan_key(&request, &keyboard(), 0).unwrap();
    let keys: Vec<(u8, bool)> = plan
        .steps
        .iter()
        .filter_map(|step| match step {
            InputStep::Key { keycode, pressed } => Some((*keycode, *pressed)),
            _ => None,
        })
        .collect();
    assert_eq!(keys, vec![(10, true), (8, true), (8, false), (10, false)]);
    let paste = controller
        .plan_paste(&vec!["CTRL".to_owned(), "V".to_owned()], &keyboard(), 0)
        .unwrap();
    assert_eq!(paste.steps.len(), 4);
    let empty = KeyRequest {
        keys: Vec::new(),
        ..request
    };
    assert_eq!(
        controller
            .check_key(false, &empty, situation(desktop(Vec::new(), None)))
            .unwrap_err()
            .message,
        "keys must contain between 1 and 16 key names"
    );
}

#[test]
fn text_is_typed_where_every_character_has_a_key() {
    let mut controller = controller();
    let request = |text: &str, method| TypeTextRequest {
        text: text.to_owned(),
        method,
        guard: StateGuard::default(),
        observe_after: None,
    };
    match controller
        .plan_text(&request("aA", TextMethod::Auto), &keyboard(), 0)
        .unwrap()
    {
        TextPlan::Type(plan) => {
            let keys: Vec<(u8, bool)> = plan
                .steps
                .iter()
                .filter_map(|step| match step {
                    InputStep::Key { keycode, pressed } => Some((*keycode, *pressed)),
                    _ => None,
                })
                .collect();
            assert_eq!(
                keys,
                vec![
                    (8, true),
                    (8, false),
                    (9, true),
                    (8, true),
                    (8, false),
                    (9, false)
                ]
            );
        }
        TextPlan::Paste => panic!("every character has a key"),
    }
    assert!(matches!(
        controller.plan_text(&request("é", TextMethod::Auto), &keyboard(), 0),
        Ok(TextPlan::Paste)
    ));
    assert!(matches!(
        controller.plan_text(&request("a", TextMethod::Clipboard), &keyboard(), 0),
        Ok(TextPlan::Paste)
    ));
    assert!(controller
        .plan_text(&request("é", TextMethod::Keystrokes), &keyboard(), 0)
        .is_err());
}

#[test]
fn windows_are_commanded_through_their_manager() {
    let atoms = WindowAtoms {
        net_active_window: 1,
        net_moveresize_window: 2,
        net_wm_state: 3,
        net_wm_state_maximized_vert: 4,
        net_wm_state_maximized_horz: 5,
        wm_change_state: 6,
        wm_protocols: 7,
        wm_delete_window: 8,
    };
    let place = area(10, 20, 30, 40);
    assert_eq!(
        focus_command(77, true, &atoms),
        WindowCommand::RootMessage {
            xid: 77,
            kind: 1,
            data: (1, 0, 0, 0, 0)
        }
    );
    assert_eq!(
        focus_command(77, false, &atoms),
        WindowCommand::SetFocus { xid: 77 }
    );
    assert_eq!(
        window_command(77, WindowAction::Minimize, place, true, &atoms, &Vec::new()).unwrap(),
        WindowCommand::RootMessage {
            xid: 77,
            kind: 6,
            data: (3, 0, 0, 0, 0)
        }
    );
    assert_eq!(
        window_command(
            77,
            WindowAction::Close { force: false },
            place,
            true,
            &atoms,
            &vec![8]
        )
        .unwrap(),
        WindowCommand::WindowMessage {
            xid: 77,
            kind: 7,
            data: (8, 0, 0, 0, 0)
        }
    );
    assert_eq!(
        window_command(
            77,
            WindowAction::Close { force: true },
            place,
            true,
            &atoms,
            &Vec::new()
        )
        .unwrap(),
        WindowCommand::Kill { xid: 77 }
    );
    assert_eq!(
        window_command(
            77,
            WindowAction::Close { force: false },
            place,
            true,
            &atoms,
            &Vec::new()
        )
        .unwrap_err()
        .code,
        ErrorCode::UnsupportedCapability
    );
    assert_eq!(
        window_command(
            77,
            WindowAction::Resize {
                width: 50,
                height: 60
            },
            place,
            false,
            &atoms,
            &Vec::new()
        )
        .unwrap(),
        WindowCommand::Configure {
            xid: 77,
            x: 10,
            y: 20,
            width: Some(50),
            height: Some(60)
        }
    );
    assert_eq!(
        validate_window_size(0, 5).unwrap_err().message,
        "window width and height must be between 1 and 65535"
    );
}

#[test]
fn pointer_coordinates_fit_the_protocol() {
    assert_eq!(
        move_to(-5, 32_767).unwrap(),
        InputStep::Motion { x: -5, y: 32_767 }
    );
    assert!(move_to(32_768, 0).is_err());
}

#[test]
fn monitors_go_by_name_or_number() {
    let screen = ScreenInfo {
        width: 800,
        height: 600,
        depth: 24,
    };
    let alone = describe_monitors(&Vec::new(), screen);
    assert_eq!(alone.len(), 1);
    assert_eq!(alone[0].name, "screen");
    assert_eq!(alone[0].geometry, area(0, 0, 800, 600));
    let reading = |name: Option<&[u8]>| MonitorReading {
        name: name.map(<[u8]>::to_vec),
        primary: false,
        x: -5,
        y: 0,
        width: 10,
        height: 20,
    };
    let named = describe_monitors(&vec![reading(Some(b"HDMI-\xff")), reading(None)], screen);
    assert_eq!(named[0].name, "HDMI-\u{fffd}");
    assert_eq!(named[1].name, "monitor-2");
    assert_eq!(named[1].geometry, area(-5, 0, 10, 20));
}

#[test]
fn startup_options_are_checked() {
    assert_eq!(
        parse_chord(" CTRL + shift++V").unwrap(),
        vec!["CTRL", "shift", "V"]
    );
    assert_eq!(
        parse_chord(" + ").unwrap_err(),
        "--paste-chord must contain at least one key"
    );
    assert!(check_rate(1).is_ok());
    assert!(check_rate(0).is_err());
    assert_eq!(extension_names().len(), 7);
    let config = config(&[], 5);
    let offered = capabilities(&config);
    assert!(is_present(&offered.extensions, "damage"));
    assert!(!is_present(&offered.extensions, "randr"));
    assert!(!offered.security.window_allowlist_enabled);
    let bad = ControllerConfig {
        allow_window_classes: vec!["[".to_owned()],
        ..config
    };
    let refused = Controller::new(&bad, &offered, 0).unwrap_err();
    assert_eq!(refused.code, ErrorCode::InvalidInput);
    assert!(refused
        .message
        .starts_with("invalid window-class glob \"[\": "));
}

#[test]
fn targets_are_clipped_to_the_screen() {
    let controller = controller();
    let windows = vec![window("window-1", "x", area(-10, 590, 50, 50))];
    assert_eq!(
        controller
            .resolve_observe_target(&ObserveTarget::Desktop, &windows)
            .unwrap(),
        area(0, 0, 800, 600)
    );
    assert_eq!(
        controller
            .resolve_observe_target(
                &ObserveTarget::Window {
                    window_ref: "window-1".to_owned()
                },
                &windows
            )
            .unwrap(),
        area(0, 590, 40, 10)
    );
    assert_eq!(
        controller
            .resolve_observe_target(
                &ObserveTarget::Region {
                    x: 900,
                    y: 0,
                    width: 5,
                    height: 5
                },
                &windows
            )
            .unwrap_err()
            .code,
        ErrorCode::InvalidInput
    );
    assert_eq!(
        controller
            .resolve_observe_target(
                &ObserveTarget::Window {
                    window_ref: "window-9".to_owned()
                },
                &windows
            )
            .unwrap_err()
            .message,
        "unknown or stale window reference: window-9"
    );
}
