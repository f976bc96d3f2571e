use x11_mcp::error::{ControllerError, ErrorCode};
use x11_mcp::types::{
    Geometry, ListWindowsRequest, WindowClass, WindowInfo, WindowList, WindowSelector,
};
use x11_mcp::windows::{
    describe_window, find_window, first_value, list_desktop, list_windows, parse_class,
    resolve_window, window_at, window_order, RawWindow, Topology, WindowRefs,
};

fn raw(title: Option<&str>) -> RawWindow {
    RawWindow {
        viewable: true,
        x: -3,
        y: 4,
        width: 50,
        height: 60,
        net_name: title.map(|text| text.as_bytes().to_vec()),
        name: Some(b"plain".to_vec()),
        class: Some(b"navigator\0Firefox\0".to_vec()),
        pid: Ok(Some(vec![77])),
        desktop: Ok(None),
    }
}

fn window(window_ref: &str, title: &str, mapped: bool, geometry: Geometry) -> WindowInfo {
    WindowInfo {
        window_ref: window_ref.to_owned(),
        xid: "0x00000001".to_owned(),
        title: title.to_owned(),
        class: WindowClass {
            instance: Some("navigator".to_owned()),
            name: Some("Firefox".to_owned()),
        },
        pid: Some(7),
        desktop: None,
        geometry,
        mapped,
    }
}

fn area(x: i32, y: i32, width: u32, height: u32) -> Geometry {
    Geometry {
        x,
        y,
        width,
        height,
    }
}

#[test]
fn windows_keep_their_references() {
    let mut refs = WindowRefs::new();
    assert_eq!(refs.ref_for(40), "window-1");
    assert_eq!(refs.ref_for(41), "window-2");
    assert_eq!(refs.ref_for(40), "window-1");
    refs.retain(&vec![41]);
    assert_eq!(refs.current(40), None);
    assert_eq!(refs.current(41).as_deref(), Some("window-2"));
    assert_eq!(refs.lookup("window-1"), Some(40));
    assert_eq!(refs.ref_for(40), "window-3");
    refs.forget(41);
    assert_eq!(refs.current(41), None);
    assert_eq!(refs.ref_for(41), "window-4");
    assert_eq!(refs.lookup("window-9"), None);
}

#[test]
fn windows_are_described_from_their_properties() {
    let mut refs = WindowRefs::new();
    let info = describe_window(&mut refs, 0x1a, raw(Some("Tïtle"))).unwrap();
    assert_eq!(info.window_ref, "window-1");
    assert_eq!(info.xid, "0x0000001a");
    assert_eq!(info.title, "Tïtle");
    assert_eq!(info.class.instance.as_deref(), Some("navigator"));
    assert_eq!(info.class.name.as_deref(), Some("Firefox"));
    assert_eq!(info.pid, Some(77));
    assert_eq!(info.desktop, None);
    assert_eq!(info.geometry, area(-3, 4, 50, 60));
    assert!(info.mapped);
    let plain = describe_window(&mut refs, 0x1a, raw(None)).unwrap();
    assert_eq!(plain.title, "plain");
    let broken = RawWindow {
        pid: Err(ControllerError::x11("read window property", "gone")),
        ..raw(None)
    };
    assert_eq!(
        describe_window(&mut refs, 0x1b, broken).unwrap_err().code,
        ErrorCode::X11
    );
}

#[test]
fn class_names_are_separated_by_zeros() {
    let class = parse_class(&b"\0one\0\0two\0three".to_vec());
    assert_eq!(class.instance.as_deref(), Some("one"));
    assert_eq!(class.name.as_deref(), Some("two"));
    let none = parse_class(&Vec::new());
    assert_eq!(none.instance, None);
    assert_eq!(none.name, None);
    assert_eq!(first_value(&Some(vec![3, 4])), Some(3));
    assert_eq!(first_value(&Some(Vec::new())), None);
}

#[test]
fn desktops_list_the_windows_that_can_be_read() {
    let mut refs = WindowRefs::new();
    refs.ref_for(9);
    let gone = Err(ControllerError::x11("read window attributes", "gone"));
    let (windows, active) = list_desktop(
        &mut refs,
        &vec![40, 41, 42],
        vec![Ok(raw(None)), gone, Ok(raw(Some("Top")))],
        Ok(Some(vec![42])),
    )
    .unwrap();
    assert_eq!(windows.len(), 2);
    assert_eq!(windows[1].title, "Top");
    assert_eq!(active, Some(windows[1].window_ref.clone()));
    assert_eq!(refs.current(9), None);
    let failed = list_desktop(
        &mut refs,
        &Vec::new(),
        Vec::new(),
        Err(ControllerError::x11("read window property", "gone")),
    );
    assert!(failed.is_err());
}

#[test]
fn the_stacking_order_comes_first() {
    assert_eq!(
        window_order(Some(vec![1]), Some(vec![2]), Some(vec![3])),
        vec![1]
    );
    assert_eq!(window_order(None, Some(vec![2]), Some(vec![3])), vec![2]);
    assert_eq!(window_order(None, None, Some(vec![3])), vec![3]);
    assert!(window_order(None, None, None).is_empty());
}

#[test]
fn generations_count_topologies() {
    let mut topology = Topology::new();
    assert_eq!(topology.generation, 1);
    topology.update(Some(b"[]".to_vec()));
    assert_eq!(topology.generation, 1);
    topology.update(Some(b"[1]".to_vec()));
    assert_eq!(topology.generation, 2);
    topology.update(Some(b"[1]".to_vec()));
    assert_eq!(topology.generation, 2);
    topology.update(None);
    assert_eq!(topology.generation, 3);
    assert_eq!(topology.signature, Some(0));
}

#[test]
fn lists_are_filtered() {
    let list = || WindowList {
        desktop_generation: 4,
        active_window: None,
        windows: vec![
            window("window-1", "Mail", true, area(0, 0, 5, 5)),
            window("window-2", "News", false, area(0, 0, 5, 5)),
        ],
    };
    let mapped = list_windows(list(), &ListWindowsRequest::default());
    assert_eq!(mapped.windows.len(), 1);
    assert_eq!(mapped.desktop_generation, 4);
    let request = ListWindowsRequest {
        selector: Some(WindowSelector {
            title_contains: Some("nEw".to_owned()),
            ..WindowSelector::default()
        }),
        include_unmapped: true,
    };
    let found = list_windows(list(), &request);
    assert_eq!(found.windows[0].window_ref, "window-2");
}

#[test]
fn selectors_ignore_case() {
    let info = window("window-1", "Mail – Inbox", true, area(0, 0, 5, 5));
    let matches = |selector: WindowSelector| selector.matches(&info);
    assert!(matches(WindowSelector::default()));
    assert!(matches(WindowSelector {
        class: Some("FIREFOX".to_owned()),
        ..WindowSelector::default()
    }));
    assert!(matches(WindowSelector {
        class_contains: Some("naviga".to_owned()),
        pid: Some(7),
        ..WindowSelector::default()
    }));
    assert!(!matches(WindowSelector {
        class: Some("fire".to_owned()),
        ..WindowSelector::default()
    }));
    assert!(!matches(WindowSelector {
        pid: Some(8),
        ..WindowSelector::default()
    }));
}

#[test]
fn references_are_resolved() {
    let mut refs = WindowRefs::new();
    refs.ref_for(40);
    let windows = vec![window("window-5", "A", true, area(0, 0, 5, 5))];
    assert_eq!(
        resolve_window(&windows, &refs, "window-5").unwrap().title,
        "A"
    );
    assert!(find_window(&windows, "window-1").is_none());
    assert_eq!(
        resolve_window(&windows, &refs, "window-1")
            .unwrap_err()
            .message,
        "window reference is stale: window-1"
    );
    assert_eq!(
        resolve_window(&windows, &refs, "nonsense")
            .unwrap_err()
            .message,
        "unknown or stale window reference: nonsense"
    );
}

#[test]
fn the_topmost_window_is_the_last() {
    let windows = vec![
        window("window-1", "A", true, area(0, 0, 10, 10)),
        window("window-2", "B", true, area(5, 5, 10, 10)),
    ];
    assert_eq!(window_at(&windows, 7, 7).unwrap().window_ref, "window-2");
    assert_eq!(window_at(&windows, 2, 2).unwrap().window_ref, "window-1");
    assert!(window_at(&windows, 15, 15).is_none());
}

#[test]
fn unmapped_windows_are_not_topmost() {
    let windows = vec![
        window("window-1", "A", true, area(0, 0, 10, 10)),
        window("window-2", "B", false, area(0, 0, 10, 10)),
    ];
    assert_eq!(window_at(&windows, 5, 5).unwrap().window_ref, "window-1");
    assert!(window_at(&windows[1..].to_vec(), 5, 5).is_none());
}
