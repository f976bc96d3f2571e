//! State guards: whether the desktop still is what a request was made for.

use vstd::prelude::*;

use crate::error;
use crate::error::{error3, ControllerError, ErrorCode, ErrorDetails, Fault};
use crate::frames;
use crate::frames::FrameHistory;
use crate::geometry;
use crate::geometry::covers_point;
use crate::observe;
use crate::text;
use crate::text::{format_decimal, is_text};
use crate::types::{clone_opt, Geometry, StateGuard};

verus! {

/// Whether bounds cover every point of a list.
pub open spec fn covers_all(bounds: Geometry, points: Seq<(i32, i32)>) -> bool {
    forall|i: int|
        0 <= i < points.len() ==> geometry::covers(
            bounds,
            (#[trigger] points[i]).0 as int,
            points[i].1 as int,
        )
}

/// Whether the pixels of a frame changed since: where a fresh signature was
/// taken, whether it differs, and else whether any damage touched the frame.
pub open spec fn pixels_changed(frame: frames::Frame, fresh_signature: Option<u64>) -> bool {
    match fresh_signature {
        Some(signature) => signature != frame.signature,
        None => frame.damage.len() > 0,
    }
}

/// Why a guard does not hold, if so.
pub open spec fn guard_problem(
    guard: StateGuard,
    require_frame: bool,
    points: Seq<(i32, i32)>,
    history: frames::Frames,
    desktop_generation: u64,
    active_window: Option<Seq<char>>,
    fresh_signature: Option<u64>,
) -> Option<Seq<char>> {
    if guard.prevalidated {
        None
    } else if guard.expected_active_window is Some && text::opt_text(guard.expected_active_window)
        != active_window {
        Some("active window does not match guard.expected_active_window"@)
    } else {
        match guard.frame_id {
            None => if require_frame {
                Some("this action requires guard.frame_id from a current observation"@)
            } else {
                None
            },
            Some(frame_id) => match history.find(frame_id) {
                None => Some(observe::expired_frame(frame_id)),
                Some(frame) => if frame.desktop_generation != desktop_generation {
                    Some("desktop topology changed since frame "@ + text::decimal(frame_id as nat))
                } else if !covers_all(frame.bounds, points) {
                    Some(
                        "frame "@ + text::decimal(frame_id as nat)
                            + " does not cover the action point"@,
                    )
                } else if pixels_changed(frame, fresh_signature) {
                    Some("pixels changed since frame "@ + text::decimal(frame_id as nat))
                } else {
                    None
                },
            },
        }
    }
}

/// The fault of a guard that does not hold, if so.
pub open spec fn guard_fault(
    guard: StateGuard,
    require_frame: bool,
    points: Seq<(i32, i32)>,
    history: frames::Frames,
    desktop_generation: u64,
    active_window: Option<Seq<char>>,
    fresh_signature: Option<u64>,
) -> Option<Fault> {
    match guard_problem(
        guard,
        require_frame,
        points,
        history,
        desktop_generation,
        active_window,
        fresh_signature,
    ) {
        Some(message) => Some(
            Fault::Guard {
                message,
                latest_frame_id: history.latest,
                desktop_generation,
                active_window,
            },
        ),
        None => None,
    }
}

/// A guard that holds names a frame where one is required. The frame is in
/// the history, has the present topology, covers the points, and nothing
/// that was damaged since touches it.
pub proof fn held_guard_is_current(
    guard: StateGuard,
    points: Seq<(i32, i32)>,
    history: frames::Frames,
    desktop_generation: u64,
    active_window: Option<Seq<char>>,
    observed: frames::Frame,
    parts: Seq<Geometry>,
    at: int,
    x: int,
    y: int,
)
    requires
        !guard.prevalidated,
        guard_problem(guard, true, points, history, desktop_generation, active_window, None) is None,
        guard.frame_id is Some ==> history.find(guard.frame_id->0) == Some(
            observed.damaged_by(parts),
        ),
        observed.valid(),
        0 <= at < parts.len(),
        geometry::covers(observed.bounds, x, y),
    ensures
        guard.frame_id is Some,
        observed.damaged_by(parts).desktop_generation == desktop_generation,
        covers_all(observed.damaged_by(parts).bounds, points),
        !geometry::covers(parts[at], x, y),
        guard.expected_active_window is Some ==> active_window == text::opt_text(
            guard.expected_active_window,
        ),
{
    frames::undamaged_frame_is_current(observed, parts, at, x, y);
}

/// Whether bounds cover every point of a list.
fn covers_points(bounds: Geometry, points: &Vec<(i32, i32)>) -> (all: bool)
    ensures
        all == covers_all(bounds, points@),
{
    let mut at: usize = 0;
    while at < points.len()
        invariant
            at <= points.len(),
            forall|i: int|
                0 <= i < at ==> geometry::covers(
                    bounds,
                    (#[trigger] points@[i]).0 as int,
                    points@[i].1 as int,
                ),
        decreases points.len() - at,
    {
        let point = points[at];
        if !covers_point(bounds, point.0, point.1) {
            assert(points@[at as int] == point);
            return false;
        }
        at += 1;
    }
    true
}

/// The bounds to capture anew for a guard, where it names a frame of the history.
pub fn guarded_bounds(guard: &StateGuard, history: &FrameHistory) -> (bounds: Option<Geometry>)
    ensures
        bounds == (match guard.frame_id {
            Some(frame_id) => match history@.find(frame_id) {
                Some(frame) => if guard.prevalidated {
                    None
                } else {
                    Some(frame.bounds)
                },
                None => None,
            },
            None => None,
        }),
{
    if guard.prevalidated {
        return None;
    }
    match guard.frame_id {
        Some(frame_id) => match history.find(frame_id) {
            Some(record) => Some(record.bounds),
            None => None,
        },
        None => None,
    }
}

/// Refuses a request whose guard does not hold.
pub fn validate_state_guard(
    guard: &StateGuard,
    require_frame: bool,
    points: &Vec<(i32, i32)>,
    history: &FrameHistory,
    desktop_generation: u64,
    active_window: &Option<String>,
    fresh_signature: Option<u64>,
) -> (result: Result<(), ControllerError>)
    ensures
        match (
            result,
            guard_fault(
                *guard,
                require_frame,
                points@,
                history@,
                desktop_generation,
                text::opt_text(*active_window),
                fresh_signature,
            ),
        ) {
            (Ok(()), None) => true,
            (Err(e), Some(fault)) => error::is_fault(e, fault),
            _ => false,
        },
{
    if guard.prevalidated {
        return Ok(());
    }
    let problem: ControllerError = match &guard.expected_active_window {
        Some(expected) if !is_text(active_window, expected.as_str()) => ControllerError::new(
            ErrorCode::PreconditionFailed,
            "active window does not match guard.expected_active_window",
        ),
        _ => match guard.frame_id {
            None => {
                if !require_frame {
                    return Ok(());
                }
                ControllerError::new(
                    ErrorCode::PreconditionFailed,
                    "this action requires guard.frame_id from a current observation",
                )
            },
            Some(frame_id) => {
                let number = format_decimal(frame_id);
                match history.find(frame_id) {
                    None => error3(
                        ErrorCode::PreconditionFailed,
                        "frame ",
                        number.as_str(),
                        " is not in the 64-frame history",
                    ),
                    Some(frame) => {
                        let changed: bool = match fresh_signature {
                            Some(signature) => signature != frame.signature,
                            None => frame.damage.len() > 0,
                        };
                        if frame.desktop_generation != desktop_generation {
                            error::error2(
                                ErrorCode::PreconditionFailed,
                                "desktop topology changed since frame ",
                                number.as_str(),
                            )
                        } else if !covers_points(frame.bounds, points) {
                            error3(
                                ErrorCode::PreconditionFailed,
                                "frame ",
                                number.as_str(),
                                " does not cover the action point",
                            )
                        } else if changed {
                            error::error2(
                                ErrorCode::PreconditionFailed,
                                "pixels changed since frame ",
                                number.as_str(),
                            )
                        } else {
                            return Ok(());
                        }
                    },
                }
            },
        },
    };
    Err(
        problem.retryable(true).with_details(
            ErrorDetails::DesktopState {
                latest_frame_id: history.latest(),
                desktop_generation,
                active_window: clone_opt(active_window),
            },
        ),
    )
}

/// A guard holds exactly where a batch has checked it, or where the expected
/// window is the active one, a frame is named if one is required, and a named
/// frame is still kept, has the present topology, covers every point, and looks
/// as it did: by a fresh look where one was taken, and else by the damage since.
/// A guard that does not hold can be retried, and is told the present state.
pub proof fn guards_hold_exactly_where_the_desktop_is_as_expected(
    guard: StateGuard,
    require_frame: bool,
    points: Vec<(i32, i32)>,
    history: FrameHistory,
    desktop_generation: u64,
    active_window: Option<String>,
    fresh_signature: Option<u64>,
    result: Result<(), ControllerError>,
)
    requires
        call_ensures(
            validate_state_guard,
            (
                &guard,
                require_frame,
                &points,
                &history,
                desktop_generation,
                &active_window,
                fresh_signature,
            ),
            result,
        ),
    ensures
        ({
            let focused = guard.expected_active_window is None || (active_window is Some
                && active_window->0@ == guard.expected_active_window->0@);
            let frame = history@.find(guard.frame_id->0)->0;
            let covered = forall|i: int|
                0 <= i < points@.len() ==> frame.bounds.x <= (#[trigger] points@[i]).0
                    < frame.bounds.x + frame.bounds.width && frame.bounds.y <= points@[i].1
                    < frame.bounds.y + frame.bounds.height;
            let current = {
                &&& history@.find(guard.frame_id->0) is Some
                &&& frame.desktop_generation == desktop_generation
                &&& covered
                &&& fresh_signature is Some ==> fresh_signature->0 == frame.signature
                &&& fresh_signature is None ==> frame.damage.len() == 0
            };
            &&& result is Ok <==> guard.prevalidated || (focused && (if guard.frame_id is Some {
                current
            } else {
                !require_frame
            }))
            &&& result is Err ==> {
                let e = result->Err_0;
                &&& e.code == ErrorCode::PreconditionFailed
                &&& e.retryable
                &&& e.details is Some && e.details->0 is DesktopState
                &&& e.details->0->latest_frame_id == history@.latest
                &&& e.details->0->desktop_generation == desktop_generation
                &&& text::opt_text(e.details->0->active_window) == text::opt_text(active_window)
            }
        }),
{
    let frame = history@.find(guard.frame_id->0)->0;
    assert(covers_all(frame.bounds, points@) <==> forall|i: int|
        0 <= i < points@.len() ==> frame.bounds.x <= (#[trigger] points@[i]).0 < frame.bounds.x
            + frame.bounds.width && frame.bounds.y <= points@[i].1 < frame.bounds.y
            + frame.bounds.height);
}

/// A guard whose frame is kept is looked at anew within the bounds of that
/// frame; one that a batch has checked is not.
pub proof fn guarded_frames_are_looked_at_anew(
    guard: StateGuard,
    history: FrameHistory,
    bounds: Option<Geometry>,
)
    requires
        call_ensures(guarded_bounds, (&guard, &history), bounds),
    ensures
        bounds is Some <==> !guard.prevalidated && guard.frame_id is Some && history@.find(
            guard.frame_id->0,
        ) is Some,
        bounds is Some ==> bounds->0 == history@.find(guard.frame_id->0)->0.bounds,
{
}

} // verus!
