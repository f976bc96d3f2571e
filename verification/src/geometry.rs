//! Rectangles of the screen.

use vstd::prelude::*;

use crate::error;
use crate::error::{ControllerError, ErrorCode};
use crate::types::{Geometry, WindowInfo};

verus! {

/// The first column to the right of a rectangle.
pub open spec fn right(g: Geometry) -> int {
    g.x + g.width
}

/// The first row below a rectangle.
pub open spec fn bottom(g: Geometry) -> int {
    g.y + g.height
}

/// Whether a rectangle covers a pixel.
pub open spec fn covers(g: Geometry, x: int, y: int) -> bool {
    g.x <= x < right(g) && g.y <= y < bottom(g)
}

/// Whether a rectangle has pixels.
pub open spec fn nonempty(g: Geometry) -> bool {
    g.width > 0 && g.height > 0
}

/// The number of pixels of a rectangle.
pub open spec fn area(g: Geometry) -> int {
    g.width * g.height
}

/// Whether two rectangles have a pixel in common, as their edges show it.
pub open spec fn overlap(a: Geometry, b: Geometry) -> bool {
    a.x < right(b) && b.x < right(a) && a.y < bottom(b) && b.y < bottom(a)
}

/// Whether one rectangle lies within another.
pub open spec fn within(inner: Geometry, outer: Geometry) -> bool {
    outer.x <= inner.x && outer.y <= inner.y && right(inner) <= right(outer) && bottom(inner)
        <= bottom(outer)
}

/// Rectangles with pixels overlap exactly where they share a pixel.
pub proof fn overlap_is_a_shared_pixel(a: Geometry, b: Geometry)
    requires
        nonempty(a),
        nonempty(b),
    ensures
        overlap(a, b) <==> exists|x: int, y: int| #[trigger] covers(a, x, y) && covers(b, x, y),
        overlap(a, b) == overlap(b, a),
{
    if overlap(a, b) {
        let x = if a.x < b.x {
            b.x as int
        } else {
            a.x as int
        };
        let y = if a.y < b.y {
            b.y as int
        } else {
            a.y as int
        };
        assert(covers(a, x, y) && covers(b, x, y));
    }
}

/// Whether two rectangles have a pixel in common.
pub fn geometries_overlap(left: Geometry, right: Geometry) -> (overlapping: bool)
    ensures
        overlapping == overlap(left, right),
{
    let left_right: i64 = left.x as i64 + left.width as i64;
    let right_right: i64 = right.x as i64 + right.width as i64;
    let left_bottom: i64 = left.y as i64 + left.height as i64;
    let right_bottom: i64 = right.y as i64 + right.height as i64;
    (left.x as i64) < right_right && (right.x as i64) < left_right && (left.y as i64) < right_bottom
        && (right.y as i64) < left_bottom
}

/// Whether a rectangle covers a pixel.
pub fn covers_point(g: Geometry, x: i32, y: i32) -> (covered: bool)
    ensures
        covered == covers(g, x as int, y as int),
{
    x >= g.x && y >= g.y && (x as i64) < g.x as i64 + g.width as i64 && (y as i64) < g.y as i64
        + g.height as i64
}

/// The part of a rectangle that the screen shows, where it shows some.
pub open spec fn visible_part(g: Geometry, screen_width: u32, screen_height: u32) -> Option<
    Geometry,
> {
    let left = if g.x > 0 {
        g.x as int
    } else {
        0
    };
    let top = if g.y > 0 {
        g.y as int
    } else {
        0
    };
    let end = if right(g) < screen_width {
        right(g)
    } else {
        screen_width as int
    };
    let floor = if bottom(g) < screen_height {
        bottom(g)
    } else {
        screen_height as int
    };
    if left < end && top < floor {
        Some(
            Geometry {
                x: left as i32,
                y: top as i32,
                width: (end - left) as u32,
                height: (floor - top) as u32,
            },
        )
    } else {
        None
    }
}

/// Clips a rectangle to the screen.
pub fn clip_geometry(geometry: Geometry, screen_width: u32, screen_height: u32) -> (result: Result<
    Geometry,
    ControllerError,
>)
    ensures
        match result {
            Ok(part) => nonempty(geometry) && visible_part(geometry, screen_width, screen_height)
                == Some(part),
            Err(e) => if !nonempty(geometry) {
                error::final_error(
                    e,
                    ErrorCode::InvalidInput,
                    "capture dimensions must be non-zero"@,
                )
            } else {
                visible_part(geometry, screen_width, screen_height) is None && error::final_error(
                    e,
                    ErrorCode::InvalidInput,
                    "capture region is outside the screen"@,
                )
            },
        },
{
    if geometry.width == 0 || geometry.height == 0 {
        return Err(
            ControllerError::new(ErrorCode::InvalidInput, "capture dimensions must be non-zero"),
        );
    }
    let x: i32 = if geometry.x > 0 {
        geometry.x
    } else {
        0
    };
    let y: i32 = if geometry.y > 0 {
        geometry.y
    } else {
        0
    };
    let right: i64 = geometry.x as i64 + geometry.width as i64;
    let bottom: i64 = geometry.y as i64 + geometry.height as i64;
    let clipped_right: i64 = if right < screen_width as i64 {
        right
    } else {
        screen_width as i64
    };
    let clipped_bottom: i64 = if bottom < screen_height as i64 {
        bottom
    } else {
        screen_height as i64
    };
    if clipped_right <= x as i64 || clipped_bottom <= y as i64 {
        return Err(
            ControllerError::new(ErrorCode::InvalidInput, "capture region is outside the screen"),
        );
    }
    Ok(
        Geometry {
            x,
            y,
            width: (clipped_right - x as i64) as u32,
            height: (clipped_bottom - y as i64) as u32,
        },
    )
}

/// A clipped rectangle covers exactly the pixels that both the rectangle and the screen have.
pub proof fn clipping_keeps_the_visible_pixels(
    geometry: Geometry,
    screen_width: u32,
    screen_height: u32,
    x: int,
    y: int,
)
    ensures
        match visible_part(geometry, screen_width, screen_height) {
            Some(part) => nonempty(part) && (covers(part, x, y) <==> covers(geometry, x, y) && 0
                <= x < screen_width && 0 <= y < screen_height),
            None => !(covers(geometry, x, y) && 0 <= x < screen_width && 0 <= y < screen_height),
        },
{
}

/// The common part of two rectangles, where there is one.
pub open spec fn common_part(a: Geometry, b: Geometry) -> Option<Geometry> {
    let left = if a.x > b.x {
        a.x as int
    } else {
        b.x as int
    };
    let top = if a.y > b.y {
        a.y as int
    } else {
        b.y as int
    };
    let end = if right(a) < right(b) {
        right(a)
    } else {
        right(b)
    };
    let floor = if bottom(a) < bottom(b) {
        bottom(a)
    } else {
        bottom(b)
    };
    if left < end && top < floor {
        Some(
            Geometry {
                x: left as i32,
                y: top as i32,
                width: (end - left) as u32,
                height: (floor - top) as u32,
            },
        )
    } else {
        None
    }
}

/// The common part of two rectangles.
pub fn intersect(a: Geometry, b: Geometry) -> (part: Option<Geometry>)
    ensures
        part == common_part(a, b),
{
    let left: i32 = if a.x > b.x {
        a.x
    } else {
        b.x
    };
    let top: i32 = if a.y > b.y {
        a.y
    } else {
        b.y
    };
    let a_right: i64 = a.x as i64 + a.width as i64;
    let b_right: i64 = b.x as i64 + b.width as i64;
    let a_bottom: i64 = a.y as i64 + a.height as i64;
    let b_bottom: i64 = b.y as i64 + b.height as i64;
    let end: i64 = if a_right < b_right {
        a_right
    } else {
        b_right
    };
    let floor: i64 = if a_bottom < b_bottom {
        a_bottom
    } else {
        b_bottom
    };
    if (left as i64) < end && (top as i64) < floor {
        Some(
            Geometry {
                x: left,
                y: top,
                width: (end - left as i64) as u32,
                height: (floor - top as i64) as u32,
            },
        )
    } else {
        None
    }
}

/// The common part of two rectangles covers exactly the pixels that both cover.
pub proof fn common_part_is_the_shared_pixels(a: Geometry, b: Geometry, x: int, y: int)
    ensures
        match common_part(a, b) {
            Some(part) => nonempty(part) && within(part, a) && within(part, b) && (covers(
                part,
                x,
                y,
            ) <==> covers(a, x, y) && covers(b, x, y)),
            None => !(covers(a, x, y) && covers(b, x, y)),
        },
{
}

/// The rectangle of semantic extents, which must have pixels.
pub open spec fn extents_geometry(extents: (i32, i32, i32, i32)) -> Option<Geometry> {
    if extents.2 > 0 && extents.3 > 0 {
        Some(
            Geometry {
                x: extents.0,
                y: extents.1,
                width: extents.2 as u32,
                height: extents.3 as u32,
            },
        )
    } else {
        None
    }
}

/// The rectangle of extents given as x, y, width and height.
pub fn extents_to_geometry(extents: (i32, i32, i32, i32)) -> (geometry: Option<Geometry>)
    ensures
        geometry == extents_geometry(extents),
{
    let (x, y, width, height) = extents;
    if width > 0 && height > 0 {
        Some(Geometry { x, y, width: width as u32, height: height as u32 })
    } else {
        None
    }
}

/// Whether a window is shown and overlaps some bounds.
pub open spec fn shown_over(window: WindowInfo, bounds: Geometry) -> bool {
    window.mapped && overlap(bounds, window.geometry)
}

/// Whether a window is shown, overlaps some bounds and belongs to a process.
pub open spec fn owned_over(window: WindowInfo, bounds: Geometry, pid: u32) -> bool {
    shown_over(window, bounds) && window.pid == Some(pid)
}

/// The only place where a property holds, if there is exactly one.
pub open spec fn only_place(len: int, holds: spec_fn(int) -> bool, at: int) -> bool {
    0 <= at < len && holds(at) && forall|i: int| 0 <= i < len && #[trigger] holds(i) ==> i == at
}

/// Whether a window is the one that a semantic element belongs to.
///
/// Among the shown windows that overlap the element, those of the element's
/// process come first: exactly one of them is the element's window, and two
/// make the element ambiguous. Where none is of that process, exactly one
/// overlapping window is the element's.
pub open spec fn associated(
    windows: Seq<WindowInfo>,
    bounds: Geometry,
    process_id: Option<u32>,
    at: int,
) -> bool {
    if process_id is Some && exists|i: int|
        0 <= i < windows.len() && #[trigger] owned_over(windows[i], bounds, process_id->0) {
        only_place(
            windows.len() as int,
            |i: int| owned_over(windows[i], bounds, process_id->0),
            at,
        )
    } else {
        only_place(windows.len() as int, |i: int| shown_over(windows[i], bounds), at)
    }
}

/// The window that a semantic element belongs to, where that is unambiguous.
pub fn associate_window(
    bounds: Geometry,
    process_id: Option<u32>,
    windows: &Vec<WindowInfo>,
) -> (window_ref: Option<String>)
    ensures
        match window_ref {
            Some(found) => exists|at: int|
                #[trigger] associated(windows@, bounds, process_id, at) && found
                    == windows@[at].window_ref,
            None => forall|at: int| !#[trigger] associated(windows@, bounds, process_id, at),
        },
{
    let mut owned: Option<usize> = None;
    let mut owned_twice: bool = false;
    let mut shown: Option<usize> = None;
    let mut shown_twice: bool = false;
    let mut at: usize = 0;
    while at < windows.len()
        invariant
            at <= windows.len(),
            owned matches Some(i) ==> i < at && process_id is Some && owned_over(
                windows@[i as int],
                bounds,
                process_id->0,
            ),
            owned is None ==> !owned_twice && (process_id is Some ==> forall|i: int|
                0 <= i < at ==> !#[trigger] owned_over(windows@[i], bounds, process_id->0)),
            owned is Some && !owned_twice ==> forall|i: int|
                0 <= i < at && #[trigger] owned_over(windows@[i], bounds, process_id->0) ==> i
                    == owned->0,
            owned_twice ==> exists|i: int|
                0 <= i < at && i != owned->0 && #[trigger] owned_over(
                    windows@[i],
                    bounds,
                    process_id->0,
                ),
            shown matches Some(i) ==> i < at && shown_over(windows@[i as int], bounds),
            shown is None ==> !shown_twice && forall|i: int|
                0 <= i < at ==> !#[trigger] shown_over(windows@[i], bounds),
            shown is Some && !shown_twice ==> forall|i: int|
                0 <= i < at && #[trigger] shown_over(windows@[i], bounds) ==> i == shown->0,
            shown_twice ==> exists|i: int|
                0 <= i < at && i != shown->0 && #[trigger] shown_over(windows@[i], bounds),
        decreases windows.len() - at,
    {
        let window = &windows[at];
        if window.mapped && geometries_overlap(bounds, window.geometry) {
            assert(shown_over(windows@[at as int], bounds));
            match shown {
                Some(_) => {
                    shown_twice = true;
                },
                None => {
                    shown = Some(at);
                },
            }
            if let Some(pid) = process_id {
                if let Some(actual) = window.pid {
                    if actual == pid {
                        assert(owned_over(windows@[at as int], bounds, pid));
                        match owned {
                            Some(_) => {
                                owned_twice = true;
                            },
                            None => {
                                owned = Some(at);
                            },
                        }
                    }
                }
            }
        }
        at += 1;
    }
    let ghost mine = |i: int| owned_over(windows@[i], bounds, process_id->0);
    let ghost over = |i: int| shown_over(windows@[i], bounds);
    if let Some(place) = owned {
        assert(mine(place as int));
        if owned_twice {
            let ghost other = choose|i: int|
                0 <= i < windows@.len() && i != place && #[trigger] owned_over(
                    windows@[i],
                    bounds,
                    process_id->0,
                );
            assert(mine(other));
            assert forall|i: int| !#[trigger] associated(windows@, bounds, process_id, i) by {
                assert(owned_over(windows@[place as int], bounds, process_id->0));
                if associated(windows@, bounds, process_id, i) {
                    assert(only_place(windows@.len() as int, mine, i));
                }
            }
            return None;
        }
        assert(only_place(windows@.len() as int, mine, place as int));
        assert(associated(windows@, bounds, process_id, place as int));
        return Some(windows[place].window_ref.clone());
    }
    match shown {
        Some(place) => {
            assert(over(place as int));
            if shown_twice {
                let ghost other = choose|i: int|
                    0 <= i < windows@.len() && i != place && #[trigger] shown_over(
                        windows@[i],
                        bounds,
                    );
                assert(over(other));
                assert forall|i: int| !#[trigger] associated(windows@, bounds, process_id, i) by {
                    if associated(windows@, bounds, process_id, i) {
                        assert(only_place(windows@.len() as int, over, i));
                    }
                }
                None
            } else {
                assert(only_place(windows@.len() as int, over, place as int));
                assert(associated(windows@, bounds, process_id, place as int));
                Some(windows[place].window_ref.clone())
            }
        },
        None => {
            assert forall|i: int| !#[trigger] associated(windows@, bounds, process_id, i) by {
                if associated(windows@, bounds, process_id, i) {
                    assert(only_place(windows@.len() as int, over, i));
                    assert(over(i));
                }
            }
            None
        },
    }
}

/// A semantic element belongs to at most one window.
pub proof fn association_is_unambiguous(
    windows: Seq<WindowInfo>,
    bounds: Geometry,
    process_id: Option<u32>,
    first: int,
    second: int,
)
    requires
        associated(windows, bounds, process_id, first),
        associated(windows, bounds, process_id, second),
    ensures
        first == second,
{
}

/// An element belongs to a window that is shown and overlaps it: to the only
/// one of its process, where its process has any there, and else to the only one
/// there. Where there are several, it belongs to none.
pub proof fn elements_belong_to_the_only_window(
    windows: Seq<WindowInfo>,
    bounds: Geometry,
    process_id: Option<u32>,
    at: int,
    first: int,
    second: int,
)
    ensures
        ({
            let there = |i: int|
                0 <= i < windows.len() && windows[i].mapped && overlap(bounds, windows[i].geometry);
            let own = |i: int|
                there(i) && process_id is Some && windows[i].pid is Some && windows[i].pid->0
                    == process_id->0;
            let belongs = associated(windows, bounds, process_id, at);
            &&& own(at) && (forall|i: int| i != at ==> !#[trigger] own(i)) ==> belongs
            &&& there(at) && (forall|i: int| i != at ==> !#[trigger] there(i)) ==> belongs
            &&& belongs ==> there(at)
            &&& belongs && own(first) ==> first == at
            &&& belongs && there(first) && first != at ==> own(at)
            &&& own(first) && own(second) && first != second ==> !belongs
        }),
{
    let there = |i: int|
        0 <= i < windows.len() && windows[i].mapped && overlap(bounds, windows[i].geometry);
    let own = |i: int|
        there(i) && process_id is Some && windows[i].pid is Some && windows[i].pid->0
            == process_id->0;
    let mine = |i: int| owned_over(windows[i], bounds, process_id->0);
    let over = |i: int| shown_over(windows[i], bounds);
    assert forall|i: int| 0 <= i < windows.len() implies there(i) == #[trigger] over(i) by {}
    assert forall|i: int| 0 <= i < windows.len() && process_id is Some implies own(i)
        == #[trigger] mine(i) by {}
    let owned = process_id is Some && exists|i: int|
        0 <= i < windows.len() && #[trigger] owned_over(windows[i], bounds, process_id->0);
    if owned {
        assert(associated(windows, bounds, process_id, at) == only_place(
            windows.len() as int,
            mine,
            at,
        ));
        let i = choose|i: int|
            0 <= i < windows.len() && #[trigger] owned_over(windows[i], bounds, process_id->0);
        assert(mine(i));
        assert(own(i));
    } else {
        assert(associated(windows, bounds, process_id, at) == only_place(
            windows.len() as int,
            over,
            at,
        ));
        assert forall|i: int| !#[trigger] own(i) by {
            if own(i) {
                assert(owned_over(windows[i], bounds, process_id->0));
            }
        }
    }
    if own(at) && forall|i: int| i != at ==> !#[trigger] own(i) {
        assert(owned_over(windows[at], bounds, process_id->0));
        assert forall|i: int| 0 <= i < windows.len() && #[trigger] mine(i) implies i == at by {
            assert(own(i));
        }
    }
    if there(at) && forall|i: int| i != at ==> !#[trigger] there(i) {
        assert forall|i: int| 0 <= i < windows.len() && #[trigger] over(i) implies i == at by {
            assert(there(i));
        }
        assert forall|i: int| 0 <= i < windows.len() && #[trigger] mine(i) implies i == at by {
            assert(over(i));
            assert(there(i));
        }
        if owned {
            let i = choose|i: int|
                0 <= i < windows.len() && #[trigger] owned_over(windows[i], bounds, process_id->0);
            assert(mine(i));
            assert(i == at);
        }
        assert(associated(windows, bounds, process_id, at));
    }
    if associated(windows, bounds, process_id, at) {
        if own(first) {
            assert(owned_over(windows[first], bounds, process_id->0));
            assert(mine(first));
        }
        if own(second) {
            assert(mine(second));
        }
        if there(first) && first != at && !owned {
            assert(over(first));
        }
        if owned {
            assert(mine(at));
        } else {
            assert(over(at));
        }
    }
}

/// A capture is clipped to exactly the pixels that the rectangle and the
/// screen share, and refused where they share none.
pub proof fn captures_are_clipped_to_the_screen(
    geometry: Geometry,
    screen_width: u32,
    screen_height: u32,
    result: Result<Geometry, ControllerError>,
    x: int,
    y: int,
)
    requires
        call_ensures(clip_geometry, (geometry, screen_width, screen_height), result),
    ensures
        match result {
            Ok(part) => part.width > 0 && part.height > 0 && ((part.x <= x < part.x + part.width
                && part.y <= y < part.y + part.height) <==> (geometry.x <= x < geometry.x
                + geometry.width && geometry.y <= y < geometry.y + geometry.height && 0 <= x
                < screen_width && 0 <= y < screen_height)),
            Err(e) => e.code == ErrorCode::InvalidInput && !(geometry.x <= x < geometry.x
                + geometry.width && geometry.y <= y < geometry.y + geometry.height && 0 <= x
                < screen_width && 0 <= y < screen_height),
        },
{
}

/// Rectangles overlap exactly where some pixel lies in both.
pub proof fn overlapping_is_sharing_a_pixel(a: Geometry, b: Geometry, overlapping: bool)
    requires
        call_ensures(geometries_overlap, (a, b), overlapping),
        a.width > 0 && a.height > 0 && b.width > 0 && b.height > 0,
    ensures
        overlapping <==> exists|x: int, y: int|
            #![trigger covers(a, x, y)]
            a.x <= x < a.x + a.width && a.y <= y < a.y + a.height && b.x <= x < b.x + b.width && b.y
                <= y < b.y + b.height && covers(a, x, y),
{
    overlap_is_a_shared_pixel(a, b);
}

} // verus!
