use x11_mcp::capture::CapturedImage;
use x11_mcp::error::ErrorCode;
use x11_mcp::frames::{frame_signature, FrameHistory};
use x11_mcp::guard::guarded_bounds;
use x11_mcp::observe::{finish_observation, plan_observation, CapturePlan};
use x11_mcp::types::{
    Geometry, Observation, ObservationDelivery, ObserveRequest, ObserveTarget, PointerInfo,
    StateGuard, WindowList,
};

fn area(x: i32, y: i32, width: u32, height: u32) -> Geometry {
    Geometry {
        x,
        y,
        width,
        height,
    }
}

fn screen() -> Geometry {
    area(0, 0, 100, 100)
}

fn list() -> WindowList {
    WindowList {
        desktop_generation: 1,
        active_window: None,
        windows: Vec::new(),
    }
}

fn image(level: u8) -> CapturedImage {
    CapturedImage {
        rgb: vec![level, level, level],
        png: vec![level],
    }
}

fn observe(history: &mut FrameHistory, request: ObserveRequest, damage: bool) -> Observation {
    let plan = plan_observation(history, &request, screen(), 1, damage).unwrap();
    let captures = plan.areas(screen()).iter().map(|_| image(7)).collect();
    finish_observation(
        history,
        request,
        screen(),
        plan,
        captures,
        PointerInfo { x: 1, y: 2 },
        list(),
    )
}

fn delta(since_frame_id: u64) -> ObserveRequest {
    ObserveRequest {
        delivery: ObservationDelivery::Delta { since_frame_id },
        ..ObserveRequest::default()
    }
}

#[test]
fn full_observations_hold_one_image() {
    let mut history = FrameHistory::new();
    let first = observe(&mut history, ObserveRequest::default(), true);
    assert_eq!(first.metadata.frame_id, 1);
    assert!(first.complete);
    assert_eq!(first.images, vec![vec![7]]);
    assert_eq!(first.patches.len(), 1);
    assert_eq!(first.patches[0].bounds, screen());
    assert_eq!(first.patches[0].image_index, 0);
    assert_eq!(first.base_frame_id, None);
    assert_eq!(history.latest(), 1);
}

#[test]
fn undamaged_deltas_are_empty() {
    let mut history = FrameHistory::new();
    let base = observe(&mut history, ObserveRequest::default(), true);
    let empty = observe(&mut history, delta(base.metadata.frame_id), true);
    assert!(empty.patches.is_empty());
    assert!(empty.images.is_empty());
    assert_eq!(empty.base_frame_id, Some(1));
    assert_eq!(empty.metadata.frame_id, 2);
    assert!(!empty.complete);
}

#[test]
fn deltas_show_the_damaged_parts() {
    let mut history = FrameHistory::new();
    observe(&mut history, ObserveRequest::default(), true);
    history.damage(area(10, 10, 5, 5));
    history.damage(area(50, 50, 200, 5));
    let changed = observe(&mut history, delta(1), true);
    assert_eq!(changed.patches.len(), 2);
    assert_eq!(changed.images.len(), 2);
    for (index, patch) in changed.patches.iter().enumerate() {
        assert_eq!(patch.image_index, index);
    }
    assert_eq!(changed.patches[1].bounds, area(50, 50, 50, 5));
}

#[test]
fn large_damage_is_delivered_whole() {
    let mut history = FrameHistory::new();
    observe(&mut history, ObserveRequest::default(), true);
    history.damage(area(0, 0, 100, 60));
    let plan = plan_observation(&history, &delta(1), screen(), 1, true).unwrap();
    assert!(matches!(plan, CapturePlan::Full));
    let mut scattered = FrameHistory::new();
    observe(&mut scattered, ObserveRequest::default(), true);
    for row in 0..17 {
        scattered.damage(area(0, row * 5, 1, 1));
    }
    let plan = plan_observation(&scattered, &delta(1), screen(), 1, true).unwrap();
    assert!(matches!(plan, CapturePlan::Full));
}

#[test]
fn changed_bounds_or_topology_are_delivered_whole() {
    let mut history = FrameHistory::new();
    observe(&mut history, ObserveRequest::default(), true);
    assert!(matches!(
        plan_observation(&history, &delta(1), area(0, 0, 50, 50), 1, true),
        Ok(CapturePlan::Full)
    ));
    assert!(matches!(
        plan_observation(&history, &delta(1), screen(), 2, true),
        Ok(CapturePlan::Full)
    ));
}

#[test]
fn incompatible_bases_are_stale() {
    let mut history = FrameHistory::new();
    observe(&mut history, ObserveRequest::default(), true);
    let other = ObserveRequest {
        target: ObserveTarget::Region {
            x: 0,
            y: 0,
            width: 10,
            height: 10,
        },
        include_windows: false,
        delivery: ObservationDelivery::Delta { since_frame_id: 1 },
    };
    let refused = plan_observation(&history, &other, screen(), 1, true).unwrap_err();
    assert_eq!(refused.code, ErrorCode::StaleFrame);
    assert!(refused.retryable);
    for _ in 0..64 {
        observe(&mut history, ObserveRequest::default(), true);
    }
    let expired = plan_observation(&history, &delta(1), screen(), 1, true).unwrap_err();
    assert_eq!(expired.code, ErrorCode::StaleFrame);
    assert_eq!(expired.message, "frame 1 is not in the 64-frame history");
    assert!(expired.retryable);
    assert!(history.find(2).is_some());
}

#[test]
fn without_damage_events_frames_are_compared() {
    let mut history = FrameHistory::new();
    observe(&mut history, ObserveRequest::default(), false);
    let plan = plan_observation(&history, &delta(1), screen(), 1, false).unwrap();
    assert!(matches!(plan, CapturePlan::Compare { .. }));
    let same = observe(&mut history, delta(1), false);
    assert!(same.images.is_empty());
    let request = delta(1);
    let plan = plan_observation(&history, &request, screen(), 1, false).unwrap();
    let changed = finish_observation(
        &mut history,
        request,
        screen(),
        plan,
        vec![image(8)],
        PointerInfo { x: 0, y: 0 },
        list(),
    );
    assert!(changed.complete);
    assert_eq!(changed.images, vec![vec![8]]);
}

#[test]
fn signatures_tell_pixels_and_topologies_apart() {
    let first = frame_signature(vec![1, 2, 3], 1);
    assert_eq!(first, frame_signature(vec![1, 2, 3], 1));
    assert_ne!(first, frame_signature(vec![1, 2, 4], 1));
    assert_ne!(first, frame_signature(vec![1, 2, 3], 2));
    let mut bytes = vec![1u8, 2, 3];
    bytes.extend_from_slice(&1u64.to_ne_bytes());
    assert_eq!(first, xxhash_rust::xxh3::xxh3_64(&bytes));
}

#[test]
fn guards_name_what_to_capture_anew() {
    let mut history = FrameHistory::new();
    observe(&mut history, ObserveRequest::default(), false);
    let guard = |frame_id, prevalidated| StateGuard {
        frame_id,
        prevalidated,
        ..StateGuard::default()
    };
    assert_eq!(guarded_bounds(&guard(Some(1), false), &history), Some(screen()));
    assert_eq!(guarded_bounds(&guard(Some(1), true), &history), None);
    assert_eq!(guarded_bounds(&guard(Some(2), false), &history), None);
    assert_eq!(guarded_bounds(&guard(None, false), &history), None);
}
