use x11_mcp::error::ErrorCode;
use x11_mcp::geometry::{
    associate_window, clip_geometry, covers_point, extents_to_geometry, geometries_overlap,
    intersect,
};
use x11_mcp::types::{Geometry, WindowClass, WindowInfo};

fn geometry(x: i32, y: i32, width: u32, height: u32) -> Geometry {
    Geometry {
        x,
        y,
        width,
        height,
    }
}

#[test]
fn clips_partially_visible_geometry() {
    assert_eq!(
        clip_geometry(
            Geometry {
                x: -10,
                y: 10,
                width: 30,
                height: 40,
            },
            100,
            100,
        )
        .expect("visible region"),
        Geometry {
            x: 0,
            y: 10,
            width: 20,
            height: 40,
        }
    );
}

#[test]
fn refuses_empty_and_invisible_regions() {
    let empty = clip_geometry(geometry(0, 0, 0, 5), 10, 10).unwrap_err();
    assert_eq!(empty.code, ErrorCode::InvalidInput);
    assert_eq!(empty.message, "capture dimensions must be non-zero");
    let outside = clip_geometry(geometry(10, 0, 5, 5), 10, 10).unwrap_err();
    assert_eq!(outside.message, "capture region is outside the screen");
    assert!(!outside.retryable);
}

#[test]
fn touching_rectangles_share_no_pixel() {
    assert!(!geometries_overlap(
        geometry(0, 0, 10, 10),
        geometry(10, 0, 10, 10)
    ));
    assert!(geometries_overlap(
        geometry(0, 0, 11, 10),
        geometry(10, 9, 10, 10)
    ));
    assert_eq!(
        intersect(geometry(0, 0, 11, 10), geometry(10, 9, 10, 10)),
        Some(geometry(10, 9, 1, 1))
    );
    assert_eq!(
        intersect(geometry(0, 0, 10, 10), geometry(10, 0, 10, 10)),
        None
    );
    assert!(covers_point(geometry(5, 5, 2, 2), 6, 6));
    assert!(!covers_point(geometry(5, 5, 2, 2), 7, 6));
}

#[test]
fn extents_need_pixels() {
    assert_eq!(
        extents_to_geometry((1, -2, 3, 4)),
        Some(geometry(1, -2, 3, 4))
    );
    assert_eq!(extents_to_geometry((1, 2, 0, 4)), None);
    assert_eq!(extents_to_geometry((1, 2, 3, -1)), None);
}

fn window(window_ref: &str, pid: Option<u32>, bounds: Geometry) -> WindowInfo {
    WindowInfo {
        window_ref: window_ref.to_owned(),
        xid: "0x1".to_owned(),
        title: "Window".to_owned(),
        class: WindowClass {
            instance: None,
            name: None,
        },
        pid,
        desktop: None,
        geometry: bounds,
        mapped: true,
    }
}

#[test]
fn one_overlapping_window_needs_no_process() {
    let windows = vec![
        window("window-1", Some(1), geometry(0, 0, 10, 10)),
        window("window-2", None, geometry(50, 0, 10, 10)),
    ];
    assert_eq!(
        associate_window(geometry(5, 5, 2, 2), Some(9), &windows),
        Some("window-1".to_owned())
    );
    assert_eq!(
        associate_window(geometry(20, 5, 2, 2), None, &windows),
        None
    );
}
