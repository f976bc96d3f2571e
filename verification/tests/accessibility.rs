use x11_mcp::accessibility::{
    accessibility_generation_error, accessibility_info, action_index, action_outcome, check_action,
    check_value,
    root_object, stale_or_accessibility, validate_guard, validate_snapshot_request,
    AccessibilityActionRequest, AccessibilityRoot, AccessibilitySnapshotRequest, AccessibleNode,
    BusObject, ElementAction, ElementRegistry, ElementSelector, ProcessIds, RootObject, MAX_DEPTH,
    MAX_NODES, MAX_TEXT_LIMIT,
};
use x11_mcp::error::{ErrorCode, ErrorDetails};
use x11_mcp::geometry::associate_window;
use x11_mcp::snapshot::{
    finish_snapshot, text_end, Children, RawNode, SnapshotWalk, WalkStep,
};
use x11_mcp::types::{Geometry, StateGuard, WindowClass, WindowInfo};

fn node() -> AccessibleNode {
    AccessibleNode {
        element_ref: "e1".to_owned(),
        parent_ref: None,
        window_ref: Some("window-1".to_owned()),
        role: "push button".to_owned(),
        name: "Save document".to_owned(),
        description: String::new(),
        states: vec!["enabled".to_owned(), "focusable".to_owned()],
        bounds: None,
        interfaces: vec!["action".to_owned()],
        actions: vec!["click".to_owned()],
        text: None,
        value: None,
    }
}

fn window(window_ref: &str, pid: u32, geometry: Geometry) -> WindowInfo {
    WindowInfo {
        window_ref: window_ref.to_owned(),
        xid: "0x00000001".to_owned(),
        title: String::new(),
        class: WindowClass {
            instance: None,
            name: None,
        },
        pid: Some(pid),
        desktop: None,
        geometry,
        mapped: true,
    }
}

fn object(name: &str, path: &str) -> BusObject {
    BusObject {
        name: Some(name.to_owned()),
        path: path.to_owned(),
    }
}

fn raw(name: &str) -> RawNode {
    RawNode {
        name: Some(name.to_owned()),
        description: None,
        role: Some("push button".to_owned()),
        states: Some(vec!["enabled".to_owned()]),
        interfaces: vec!["action".to_owned(), "component".to_owned()],
        has_action: true,
        has_component: true,
        has_value: false,
        has_text: false,
        actions: Some(vec!["click".to_owned()]),
        extents: Some((10, 20, 30, 40)),
        current: Some(0),
        minimum: Some(0),
        maximum: Some(0),
        increment: Some(0),
        text: Some("hidden".to_owned()),
    }
}

#[test]
fn selector_matches_window_role_name_states_and_action() {
    let selector = ElementSelector {
        window_ref: Some("window-1".to_owned()),
        role: Some("PUSH BUTTON".to_owned()),
        name_contains: Some("save".to_owned()),
        states_all: vec!["ENABLED".to_owned()],
        action: Some("CLICK".to_owned()),
    };
    assert!(selector.matches(&node()));
    assert!(!ElementSelector {
        states_all: vec!["checked".to_owned()],
        ..selector
    }
    .matches(&node()));
}

#[test]
fn association_prefers_pid_and_rejects_ambiguity() {
    let bounds = Geometry {
        x: 20,
        y: 20,
        width: 10,
        height: 10,
    };
    let geometry = Geometry {
        x: 0,
        y: 0,
        width: 100,
        height: 100,
    };
    let windows = vec![
        window("window-1", 10, geometry),
        window("window-2", 20, geometry),
    ];
    assert_eq!(
        associate_window(bounds, Some(20), &windows).as_deref(),
        Some("window-2")
    );
    assert_eq!(associate_window(bounds, None, &windows), None);

    let duplicate_pid = vec![
        window("window-1", 20, geometry),
        window("window-2", 20, geometry),
    ];
    assert_eq!(associate_window(bounds, Some(20), &duplicate_pid), None);
}

#[test]
fn validates_snapshot_limits() {
    assert_eq!(
        validate_snapshot_request(&AccessibilitySnapshotRequest {
            max_depth: MAX_DEPTH + 1,
            ..AccessibilitySnapshotRequest::default()
        })
        .expect_err("depth limit")
        .code,
        ErrorCode::InvalidInput
    );
    assert_eq!(
        validate_snapshot_request(&AccessibilitySnapshotRequest {
            max_nodes: MAX_NODES + 1,
            ..AccessibilitySnapshotRequest::default()
        })
        .expect_err("node limit")
        .code,
        ErrorCode::InvalidInput
    );
    assert_eq!(
        validate_snapshot_request(&AccessibilitySnapshotRequest {
            text_limit: MAX_TEXT_LIMIT + 1,
            ..AccessibilitySnapshotRequest::default()
        })
        .expect_err("text limit")
        .code,
        ErrorCode::InvalidInput
    );
}

#[test]
fn limits_are_admitted_up_to_their_ends() {
    assert!(validate_snapshot_request(&AccessibilitySnapshotRequest {
        max_depth: 32,
        max_nodes: 2_000,
        text_limit: 4_096,
        ..AccessibilitySnapshotRequest::default()
    })
    .is_ok());
    let none = validate_snapshot_request(&AccessibilitySnapshotRequest {
        max_nodes: 0,
        ..AccessibilitySnapshotRequest::default()
    })
    .unwrap_err();
    assert_eq!(none.message, "max_nodes must be between 1 and 2000");
}

#[test]
fn elements_keep_their_references() {
    let mut registry = ElementRegistry::new();
    assert_eq!(registry.generation(), 1);
    assert_eq!(registry.ensure_ref(":1.5", "/a"), "e1");
    assert_eq!(registry.generation(), 2);
    assert_eq!(registry.ensure_ref(":1.5", "/b"), "e2");
    assert_eq!(registry.ensure_ref(":1.5", "/a"), "e1");
    assert_eq!(registry.generation(), 3);
    assert_eq!(
        registry.lookup("e2"),
        Some((":1.5".to_owned(), "/b".to_owned()))
    );
    assert_eq!(registry.lookup("e3"), None);
}

#[test]
fn generations_follow_the_topology() {
    let mut registry = ElementRegistry::new();
    let lines = || vec!["b".to_owned(), "a".to_owned()];
    assert_eq!(registry.compare_topology(lines()), 1);
    assert_eq!(
        registry.compare_topology(vec!["a".to_owned(), "b".to_owned()]),
        1
    );
    assert_eq!(registry.compare_topology(vec!["a".to_owned()]), 2);
    registry.invalidate();
    assert_eq!(registry.generation(), 3);
    assert_eq!(registry.compare_topology(lines()), 3);
}

#[test]
fn semantic_guards_name_the_present_generation() {
    let guard = |generation| StateGuard {
        accessibility_generation: generation,
        ..StateGuard::default()
    };
    assert!(validate_guard(&guard(Some(4)), 4).is_ok());
    let stale = validate_guard(&guard(Some(3)), 4).unwrap_err();
    assert_eq!(stale.code, ErrorCode::PreconditionFailed);
    assert!(stale.retryable);
    assert!(matches!(
        stale.details,
        Some(ErrorDetails::AccessibilityGeneration {
            expected_accessibility_generation: 3,
            accessibility_generation: 4,
        })
    ));
    assert_eq!(
        validate_guard(&guard(None), 4).unwrap_err().message,
        "semantic actions require guard.accessibility_generation"
    );
    assert_eq!(
        accessibility_generation_error(1, 2).message,
        "accessibility topology changed since the guarded snapshot"
    );
}

#[test]
fn actions_name_a_known_element_under_a_current_guard() {
    let mut registry = ElementRegistry::new();
    let element_ref = registry.ensure_ref(":1.5", "/a");
    let request = |element_ref: &str, generation, prevalidated| AccessibilityActionRequest {
        element_ref: element_ref.to_owned(),
        action: ElementAction::Focus,
        guard: StateGuard {
            accessibility_generation: generation,
            prevalidated,
            ..StateGuard::default()
        },
        observe_after: None,
    };
    let found = check_action(false, &registry, &request(&element_ref, Some(2), false)).unwrap();
    assert_eq!(found.path, "/a");
    assert_eq!(found.generation, 2);
    assert!(check_action(false, &registry, &request(&element_ref, None, true)).is_ok());
    assert_eq!(
        check_action(false, &registry, &request(&element_ref, None, false))
            .unwrap_err()
            .code,
        ErrorCode::PreconditionFailed
    );
    let unknown = check_action(false, &registry, &request("e9", Some(2), false)).unwrap_err();
    assert_eq!(unknown.code, ErrorCode::StaleElement);
    assert!(unknown.retryable);
    assert_eq!(unknown.message, "unknown or stale element reference: e9");
    let outcome = action_outcome(false, &request(&element_ref, Some(2), false), &found);
    assert!(!outcome.ok);
    assert_eq!(outcome.element_ref, element_ref);
    assert_eq!(outcome.accessibility_generation, 2);
}

#[test]
fn a_latched_stop_refuses_actions_on_elements() {
    let mut registry = ElementRegistry::new();
    let element_ref = registry.ensure_ref(":1.5", "/a");
    let actions = vec![
        ElementAction::Invoke { name: None },
        ElementAction::Focus,
        ElementAction::SetText {
            text: "text".to_owned(),
        },
        ElementAction::SetValue { value: 0 },
    ];
    for action in actions {
        let request = AccessibilityActionRequest {
            element_ref: element_ref.clone(),
            action,
            guard: StateGuard {
                accessibility_generation: Some(registry.generation()),
                ..StateGuard::default()
            },
            observe_after: None,
        };
        assert!(check_action(false, &registry, &request).is_ok());
        let refused = check_action(true, &registry, &request).unwrap_err();
        assert_eq!(refused.code, ErrorCode::EmergencyStop);
        assert!(!refused.retryable);
        assert_eq!(
            refused.message,
            "input is disabled because the emergency stop is latched"
        );
    }
}

#[test]
fn invokes_the_named_or_the_first_action() {
    let actions = vec!["press".to_owned(), "Click".to_owned()];
    assert_eq!(action_index(&actions, &None).unwrap(), 0);
    assert_eq!(action_index(&actions, &Some("CLICK".to_owned())).unwrap(), 1);
    assert_eq!(
        action_index(&actions, &Some("hold \"on\"".to_owned()))
            .unwrap_err()
            .message,
        "element does not expose action Some(\"hold \\\"on\\\"\")"
    );
}

#[test]
fn values_are_finite() {
    assert!(check_value((-1.5f64).to_bits()).is_ok());
    assert!(check_value(f64::INFINITY.to_bits()).is_err());
    assert_eq!(
        check_value(f64::NAN.to_bits()).unwrap_err().message,
        "semantic value must be finite"
    );
}

#[test]
fn failures_of_unknown_objects_are_stale() {
    let stale = stale_or_accessibility("e1", "org.freedesktop.DBus.Error.UnknownObject: gone");
    assert_eq!(stale.code, ErrorCode::StaleElement);
    assert_eq!(
        stale.message,
        "element e1 is stale: org.freedesktop.DBus.Error.UnknownObject: gone"
    );
    let other = stale_or_accessibility("e1", "broken pipe");
    assert_eq!(other.code, ErrorCode::Accessibility);
    assert!(other.retryable);
}

#[test]
fn roots_are_the_registry_or_an_element() {
    let mut registry = ElementRegistry::new();
    registry.ensure_ref(":1.5", "/a");
    assert!(matches!(
        root_object(&registry, &AccessibilityRoot::Desktop),
        Ok(RootObject::Children)
    ));
    let known = AccessibilityRoot::Element {
        element_ref: "e1".to_owned(),
    };
    match root_object(&registry, &known) {
        Ok(RootObject::Object { name, path }) => {
            assert_eq!(name, ":1.5");
            assert_eq!(path, "/a");
        }
        other => panic!("{other:?}"),
    }
    let unknown = AccessibilityRoot::Element {
        element_ref: "e2".to_owned(),
    };
    assert_eq!(
        root_object(&registry, &unknown).unwrap_err().code,
        ErrorCode::StaleElement
    );
}

#[test]
fn a_lost_stream_is_reported() {
    assert_eq!(accessibility_info(true, 7).reason, None);
    let lost = accessibility_info(false, 7);
    assert!(!lost.available);
    assert_eq!(
        lost.reason.as_deref(),
        Some("AT-SPI event stream disconnected")
    );
}

#[test]
fn processes_are_asked_for_once() {
    let mut ids = ProcessIds::new();
    assert_eq!(ids.find(":1.5"), None);
    ids.note(":1.5", Some(77));
    ids.note(":1.6", None);
    assert_eq!(ids.find(":1.5"), Some(Some(77)));
    assert_eq!(ids.find(":1.6"), Some(None));
}

#[test]
fn walks_visit_breadth_first_and_report_cuts() {
    let mut registry = ElementRegistry::new();
    let request = AccessibilitySnapshotRequest {
        max_depth: 1,
        ..AccessibilitySnapshotRequest::default()
    };
    let screen = Geometry {
        x: 0,
        y: 0,
        width: 100,
        height: 100,
    };
    let windows = vec![window("window-1", 7, screen)];
    let null = BusObject {
        name: None,
        path: "/null".to_owned(),
    };
    let mut walk = SnapshotWalk::begin(&request, vec![object(":1.1", "/r"), null]);
    let first = match walk.next() {
        WalkStep::Visit { pending } => pending,
        WalkStep::Done => panic!("a root waits"),
    };
    walk.visit(
        &mut registry,
        first,
        Ok(raw("Root")),
        Children::Listed {
            objects: vec![object(":1.1", "/c")],
        },
        Some(7),
        &windows,
    )
    .unwrap();
    let second = match walk.next() {
        WalkStep::Visit { pending } => pending,
        WalkStep::Done => panic!("a child waits"),
    };
    assert_eq!(second.depth, 1);
    assert_eq!(second.parent_ref.as_deref(), Some("e1"));
    walk.visit(
        &mut registry,
        second,
        Ok(raw("Child")),
        Children::Counted { count: 3 },
        Some(7),
        &windows,
    )
    .unwrap();
    assert!(matches!(walk.next(), WalkStep::Done));
    let snapshot = finish_snapshot(&mut registry, walk, &request);
    assert!(snapshot.truncated);
    assert_eq!(snapshot.nodes.len(), 2);
    let child = &snapshot.nodes[1];
    assert_eq!(child.element_ref, "e2");
    assert_eq!(child.parent_ref.as_deref(), Some("e1"));
    assert_eq!(child.window_ref.as_deref(), Some("window-1"));
    assert_eq!(child.name, "Child");
    assert_eq!(child.description, "");
    assert_eq!(child.text, None);
    assert_eq!(child.value, None);
    assert_eq!(child.actions, vec!["click".to_owned()]);
    assert_eq!(
        child.bounds,
        Some(Geometry {
            x: 10,
            y: 20,
            width: 30,
            height: 40,
        })
    );
}

#[test]
fn snapshots_stop_at_their_node_limit() {
    let mut registry = ElementRegistry::new();
    let request = AccessibilitySnapshotRequest {
        max_nodes: 1,
        selector: Some(ElementSelector {
            role: Some("label".to_owned()),
            ..ElementSelector::default()
        }),
        ..AccessibilitySnapshotRequest::default()
    };
    let mut walk =
        SnapshotWalk::begin(&request, vec![object(":1.1", "/a"), object(":1.1", "/b")]);
    if let WalkStep::Visit { pending } = walk.next() {
        walk.visit(
            &mut registry,
            pending,
            Ok(raw("A")),
            Children::Unknown,
            None,
            &Vec::new(),
        )
        .unwrap();
    }
    assert!(matches!(walk.next(), WalkStep::Done));
    let snapshot = finish_snapshot(&mut registry, walk, &request);
    assert!(snapshot.truncated);
    assert!(snapshot.nodes.is_empty());
}

#[test]
fn text_is_read_up_to_its_limit() {
    assert_eq!(text_end(Some(10), 4), 4);
    assert_eq!(text_end(Some(3), 4), 3);
    assert_eq!(text_end(Some(-1), 4), 0);
    assert_eq!(text_end(None, 4), 0);
}
