//! The checks that every mutation passes before any input is sent.

use vstd::prelude::*;

use crate::allowlist;
use crate::allowlist::Allowlist;
use crate::error;
use crate::error::{fault, ControllerError, ErrorCode, Fault};
use crate::frames::FrameHistory;
use crate::guard;
use crate::guard::validate_state_guard;
use crate::ieee;
use crate::rate;
use crate::rate::RateLimiter;
use crate::text;
use crate::text::{format_decimal, format_signed};
use crate::types::{
    ClickRequest, DragRequest, KeyRequest, MovePointerRequest, PointerInfo, Position,
    ScrollRequest, StateGuard, TypeTextRequest, WindowInfo, WindowList,
};
use crate::windows;
use crate::windows::{find_window, resolve_window, window_at, Topology, WindowRefs};

verus! {

/// What a controller knows of its display and remembers of its session.
#[derive(Debug)]
pub struct Controller {
    pub allowlist: Allowlist,
    pub screen_width: u16,
    pub screen_height: u16,
    pub xtest: bool,
    pub ewmh: bool,
    pub refs: WindowRefs,
    pub topology: Topology,
    pub history: FrameHistory,
    pub limiter: RateLimiter,
    pub held: HeldInput,
}

/// The keys and buttons that are held down until they are released, each once.
#[derive(Debug)]
pub struct HeldInput {
    pub keys: Vec<u8>,
    pub buttons: Vec<u8>,
}

/// What was read of the desktop for an action. `local` and `local_to` are the
/// rounded offsets of window-relative positions within their windows.
#[derive(Debug)]
pub struct Situation {
    pub windows: Result<WindowList, ControllerError>,
    pub pointer: Result<PointerInfo, ControllerError>,
    pub local: (i32, i32),
    pub local_to: (i32, i32),
    pub fresh_signature: Option<u64>,
}

/// Where a pointer action takes place, and whether the pointer moves there.
#[derive(Debug, Clone, Copy, PartialEq, Eq, Structural)]
pub struct PointerTarget {
    pub x: i32,
    pub y: i32,
    pub moves: bool,
}

/// Where a drag begins and ends.
#[derive(Debug, Clone, Copy, PartialEq, Eq, Structural)]
pub struct DragEnds {
    pub from: PointerTarget,
    pub to: PointerTarget,
}

/// The nearest 32-bit number.
pub open spec fn clamped(n: int) -> i32 {
    if n < i32::MIN {
        i32::MIN
    } else if n > i32::MAX {
        i32::MAX
    } else {
        n as i32
    }
}

/// The sum of two 32-bit numbers, or the nearest 32-bit number.
fn saturating_sum(a: i32, b: i32) -> (sum: i32)
    ensures
        sum == clamped(a + b),
{
    let wide: i64 = a as i64 + b as i64;
    if wide < i32::MIN as i64 {
        i32::MIN
    } else if wide > i32::MAX as i64 {
        i32::MAX
    } else {
        wide as i32
    }
}

/// Why mutations are refused, if the emergency stop is latched.
pub open spec fn stop_fault(stopped: bool) -> Option<Fault> {
    if stopped {
        Some(
            fault(
                ErrorCode::EmergencyStop,
                "input is disabled because the emergency stop is latched"@,
            ),
        )
    } else {
        None
    }
}

/// Refuses mutations once the emergency stop is latched.
pub fn ensure_mutation_allowed(stopped: bool) -> (result: Result<(), ControllerError>)
    ensures
        match (result, stop_fault(stopped)) {
            (Ok(()), None) => true,
            (Err(e), Some(f)) => error::is_fault(e, f),
            _ => false,
        },
{
    if stopped {
        Err(
            ControllerError::new(
                ErrorCode::EmergencyStop,
                "input is disabled because the emergency stop is latched",
            ),
        )
    } else {
        Ok(())
    }
}

/// Whether only the limiter of a controller changed, by a request for events.
pub open spec fn paid(before: Controller, after: Controller, count: int, now: u64) -> bool {
    &&& after == (Controller { limiter: after.limiter, ..before })
    &&& after.limiter.well_formed()
    &&& after.limiter@ == before.limiter@.after(count, now as int)
}

/// Whether the limiter admits some events.
pub open spec fn affordable(before: Controller, count: int, now: u64) -> bool {
    before.limiter@.admits(count, now as int)
}

/// Whether an error refuses some events for their number.
pub open spec fn too_many(e: ControllerError, before: Controller, count: int) -> bool {
    error::retry_error(e, ErrorCode::RateLimited, rate::refusal(count, before.limiter@.rate))
}

/// Whether a result is that of a checked action. What is wrong with the
/// request itself is found first. Then the limiter is asked for its events,
/// and only then is its place looked for.
pub open spec fn checked<T>(
    result: Result<T, ControllerError>,
    before: Controller,
    after: Controller,
    early: Option<Fault>,
    count: int,
    now: u64,
    expected: Result<T, Fault>,
) -> bool {
    match early {
        Some(f) => after == before && result is Err && error::is_fault(result->Err_0, f),
        None => {
            &&& paid(before, after, count, now)
            &&& if affordable(before, count, now) {
                error::faulty_result(result, expected)
            } else {
                result is Err && too_many(result->Err_0, before, count)
            }
        },
    }
}

impl Controller {
    /// Asks the limiter for events.
    pub(crate) fn spend(&mut self, count: u32, now: u64) -> (result: Result<(), ControllerError>)
        requires
            old(self).well_formed(),
        ensures
            final(self).well_formed(),
            paid(*old(self), *final(self), count as int, now),
            match result {
                Ok(()) => affordable(*old(self), count as int, now),
                Err(e) => !affordable(*old(self), count as int, now) && too_many(
                    e,
                    *old(self),
                    count as int,
                ),
            },
    {
        self.limiter.consume(count, now)
    }

    /// Whether the parts of the controller are sound.
    pub open spec fn well_formed(&self) -> bool {
        &&& self.allowlist.well_formed()
        &&& self.refs.well_formed()
        &&& self.history.well_formed()
        &&& self.limiter.well_formed()
    }

    /// Why input cannot be sent, if so.
    pub open spec fn xtest_fault(&self, stopped: bool) -> Option<Fault> {
        if stopped {
            stop_fault(stopped)
        } else if !self.xtest {
            Some(
                fault(
                    ErrorCode::UnsupportedCapability,
                    "the XTEST extension is unavailable on this display"@,
                ),
            )
        } else {
            None
        }
    }

    /// Refuses input that cannot be sent.
    pub fn ensure_xtest(&self, stopped: bool) -> (result: Result<(), ControllerError>)
        ensures
            match (result, self.xtest_fault(stopped)) {
                (Ok(()), None) => true,
                (Err(e), Some(f)) => error::is_fault(e, f),
                _ => false,
            },
    {
        match ensure_mutation_allowed(stopped) {
            Ok(()) => {},
            Err(e) => {
                return Err(e);
            },
        }
        if !self.xtest {
            return Err(
                ControllerError::new(
                    ErrorCode::UnsupportedCapability,
                    "the XTEST extension is unavailable on this display",
                ),
            );
        }
        Ok(())
    }

    /// Why a point may not be acted on, if so: with an allowlist, the topmost
    /// window there must be permitted.
    pub open spec fn point_fault(&self, windows: Seq<WindowInfo>, x: i32, y: i32) -> Option<Fault> {
        if !self.allowlist.restricts() {
            None
        } else {
            match windows::topmost(windows, x, y, windows.len() as int) {
                None => Some(
                    fault(
                        ErrorCode::AccessDenied,
                        "coordinate does not resolve to an allowlisted window"@,
                    ),
                ),
                Some(window) => self.window_fault(window),
            }
        }
    }

    /// Why a window may not be acted on, if so.
    pub open spec fn window_fault(&self, window: WindowInfo) -> Option<Fault> {
        if self.allowlist.permits_class(window.class) {
            None
        } else {
            Some(fault(ErrorCode::AccessDenied, allowlist::window_denied(window.window_ref@)))
        }
    }

    /// Refuses a point that may not be acted on.
    pub fn ensure_point_allowed(&self, windows: &Vec<WindowInfo>, x: i32, y: i32) -> (result:
        Result<(), ControllerError>)
        requires
            self.well_formed(),
        ensures
            match (result, self.point_fault(windows@, x, y)) {
                (Ok(()), None) => true,
                (Err(e), Some(f)) => error::is_fault(e, f),
                _ => false,
            },
    {
        if !self.allowlist.is_enabled() {
            return Ok(());
        }
        match window_at(windows, x, y) {
            None => Err(
                ControllerError::new(
                    ErrorCode::AccessDenied,
                    "coordinate does not resolve to an allowlisted window",
                ),
            ),
            Some(window) => self.allowlist.ensure_window_allowed(window),
        }
    }

    /// Why the keyboard may not be used, if so: with an allowlist, the focused
    /// window must be known and permitted.
    pub open spec fn focus_fault(&self, list: WindowList) -> Option<Fault> {
        if !self.allowlist.restricts() {
            None
        } else {
            match list.active_window {
                None => Some(
                    fault(
                        ErrorCode::AccessDenied,
                        "keyboard input is blocked because no allowlisted window is focused"@,
                    ),
                ),
                Some(active) => match windows::window_from(list.windows@, active@, 0) {
                    None => Some(
                        fault(
                            ErrorCode::AccessDenied,
                            "keyboard input is blocked because the focused window is unknown"@,
                        ),
                    ),
                    Some(window) => self.window_fault(window),
                },
            }
        }
    }

    /// Refuses the keyboard where it may not be used.
    pub fn ensure_focused_allowed(&self, list: &WindowList) -> (result: Result<
        (),
        ControllerError,
    >)
        requires
            self.well_formed(),
        ensures
            match (result, self.focus_fault(*list)) {
                (Ok(()), None) => true,
                (Err(e), Some(f)) => error::is_fault(e, f),
                _ => false,
            },
    {
        if !self.allowlist.is_enabled() {
            return Ok(());
        }
        match &list.active_window {
            None => Err(
                ControllerError::new(
                    ErrorCode::AccessDenied,
                    "keyboard input is blocked because no allowlisted window is focused",
                ),
            ),
            Some(active) => match find_window(&list.windows, active.as_str()) {
                None => Err(
                    ControllerError::new(
                        ErrorCode::AccessDenied,
                        "keyboard input is blocked because the focused window is unknown",
                    ),
                ),
                Some(window) => self.allowlist.ensure_window_allowed(window),
            },
        }
    }

    /// A point of the screen, or why it is none.
    pub open spec fn screen_point(&self, x: i32, y: i32) -> Result<(i32, i32), Fault> {
        if x < 0 || y < 0 || x >= self.screen_width || y >= self.screen_height {
            Err(
                fault(
                    ErrorCode::InvalidInput,
                    "screen coordinate ("@ + text::signed_decimal(x as int) + ", "@
                        + text::signed_decimal(y as int) + ") is outside "@ + text::decimal(
                        self.screen_width as nat,
                    ) + "x"@ + text::decimal(self.screen_height as nat),
                ),
            )
        } else {
            Ok((x, y))
        }
    }

    /// Refuses a point outside the screen.
    fn on_screen(&self, x: i32, y: i32) -> (result: Result<(i32, i32), ControllerError>)
        ensures
            error::faulty_result(result, self.screen_point(x, y)),
    {
        if x < 0 || y < 0 || x >= self.screen_width as i32 || y >= self.screen_height as i32 {
            let message = "screen coordinate (".to_owned().concat(format_signed(x).as_str()).concat(
                ", ",
            ).concat(format_signed(y).as_str()).concat(") is outside ").concat(
                format_decimal(self.screen_width as u64).as_str(),
            ).concat("x").concat(format_decimal(self.screen_height as u64).as_str());
            return Err(ControllerError::new(ErrorCode::InvalidInput, message.as_str()));
        }
        Ok((x, y))
    }

    /// A window that a reference means and that may be acted on, or why there is none.
    pub open spec fn usable_window(&self, windows: Seq<WindowInfo>, window_ref: Seq<char>) -> Result<
        WindowInfo,
        Fault,
    > {
        match windows::window_from(windows, window_ref, 0) {
            None => Err(
                fault(ErrorCode::StaleWindow, windows::stale_ref(self.refs@, window_ref)),
            ),
            Some(window) => match self.window_fault(window) {
                Some(f) => Err(f),
                None => Ok(window),
            },
        }
    }

    /// The window that a reference means, where it may be acted on.
    pub fn use_window(&self, windows: &Vec<WindowInfo>, window_ref: &str) -> (result: Result<
        WindowInfo,
        ControllerError,
    >)
        requires
            self.well_formed(),
        ensures
            error::faulty_result(result, self.usable_window(windows@, window_ref@)),
    {
        match resolve_window(windows, &self.refs, window_ref) {
            Err(e) => Err(e),
            Ok(window) => match self.allowlist.ensure_window_allowed(&window) {
                Err(e) => Err(e),
                Ok(()) => Ok(window),
            },
        }
    }

    /// The screen point of a position, or why it has none.
    pub open spec fn position_point(
        &self,
        position: Position,
        windows: Seq<WindowInfo>,
        local: (i32, i32),
    ) -> Result<(i32, i32), Fault> {
        match position {
            Position::Screen { x, y } => match self.screen_point(x, y) {
                Err(f) => Err(f),
                Ok(point) => match self.point_fault(windows, x, y) {
                    Some(f) => Err(f),
                    None => Ok(point),
                },
            },
            Position::Window { window_ref, x, y } => match self.usable_window(
                windows,
                window_ref@,
            ) {
                Err(f) => Err(f),
                Ok(window) => if x < 0 || y < 0 || x >= window.geometry.width || y
                    >= window.geometry.height {
                    Err(
                        fault(
                            ErrorCode::InvalidInput,
                            "window coordinates are outside the referenced window"@,
                        ),
                    )
                } else {
                    self.screen_point(clamped(window.geometry.x + x), clamped(window.geometry.y + y))
                },
            },
            Position::WindowRelative { window_ref, x, y } => if !ieee::is_fraction(x)
                || !ieee::is_fraction(y) {
                Err(
                    fault(
                        ErrorCode::InvalidInput,
                        "window-relative coordinates must be finite values between 0 and 1"@,
                    ),
                )
            } else {
                match self.usable_window(windows, window_ref@) {
                    Err(f) => Err(f),
                    Ok(window) => self.screen_point(
                        clamped(window.geometry.x + local.0),
                        clamped(window.geometry.y + local.1),
                    ),
                }
            },
        }
    }

    /// The screen point of a position.
    pub fn resolve_position(
        &self,
        position: &Position,
        windows: &Vec<WindowInfo>,
        local: (i32, i32),
    ) -> (result: Result<(i32, i32), ControllerError>)
        requires
            self.well_formed(),
        ensures
            error::faulty_result(result, self.position_point(*position, windows@, local)),
    {
        match position {
            Position::Screen { x, y } => match self.on_screen(*x, *y) {
                Err(e) => Err(e),
                Ok(point) => match self.ensure_point_allowed(windows, *x, *y) {
                    Err(e) => Err(e),
                    Ok(()) => Ok(point),
                },
            },
            Position::Window { window_ref, x, y } => match self.use_window(
                windows,
                window_ref.as_str(),
            ) {
                Err(e) => Err(e),
                Ok(window) => {
                    if *x < 0 || *y < 0 || *x as i64 >= window.geometry.width as i64 || *y as i64
                        >= window.geometry.height as i64 {
                        return Err(
                            ControllerError::new(
                                ErrorCode::InvalidInput,
                                "window coordinates are outside the referenced window",
                            ),
                        );
                    }
                    self.on_screen(
                        saturating_sum(window.geometry.x, *x),
                        saturating_sum(window.geometry.y, *y),
                    )
                },
            },
            Position::WindowRelative { window_ref, x, y } => {
                if !ieee::fraction(*x) || !ieee::fraction(*y) {
                    return Err(
                        ControllerError::new(
                            ErrorCode::InvalidInput,
                            "window-relative coordinates must be finite values between 0 and 1",
                        ),
                    );
                }
                match self.use_window(windows, window_ref.as_str()) {
                    Err(e) => Err(e),
                    Ok(window) => self.on_screen(
                        saturating_sum(window.geometry.x, local.0),
                        saturating_sum(window.geometry.y, local.1),
                    ),
                }
            },
        }
    }

    /// Where an action at an optional position takes place, or why nowhere.
    pub open spec fn action_target(
        &self,
        position: Option<Position>,
        windows: Seq<WindowInfo>,
        pointer: Result<PointerInfo, ControllerError>,
        local: (i32, i32),
    ) -> Result<PointerTarget, Fault> {
        match position {
            Some(place) => match self.position_point(place, windows, local) {
                Err(f) => Err(f),
                Ok((x, y)) => Ok(PointerTarget { x, y, moves: true }),
            },
            None => match pointer {
                Err(e) => Err(Fault::Given(e)),
                Ok(at) => match self.point_fault(windows, at.x, at.y) {
                    Some(f) => Err(f),
                    None => Ok(PointerTarget { x: at.x, y: at.y, moves: false }),
                },
            },
        }
    }

    /// Where an action at an optional position takes place.
    fn find_target(
        &self,
        position: &Option<Position>,
        windows: &Vec<WindowInfo>,
        pointer: Result<PointerInfo, ControllerError>,
        local: (i32, i32),
    ) -> (result: Result<PointerTarget, ControllerError>)
        requires
            self.well_formed(),
        ensures
            error::faulty_result(result, self.action_target(*position, windows@, pointer, local)),
    {
        match position {
            Some(place) => match self.resolve_position(place, windows, local) {
                Err(e) => Err(e),
                Ok((x, y)) => Ok(PointerTarget { x, y, moves: true }),
            },
            None => match pointer {
                Err(e) => Err(e),
                Ok(at) => match self.ensure_point_allowed(windows, at.x, at.y) {
                    Err(e) => Err(e),
                    Ok(()) => Ok(PointerTarget { x: at.x, y: at.y, moves: false }),
                },
            },
        }
    }

    /// Why a guard does not hold at these points, if so.
    pub open spec fn guard_fault(
        &self,
        state: StateGuard,
        require_frame: bool,
        points: Seq<(i32, i32)>,
        list: WindowList,
        fresh_signature: Option<u64>,
    ) -> Option<Fault> {
        guard::guard_fault(
            state,
            require_frame,
            points,
            self.history@,
            list.desktop_generation,
            text::opt_text(list.active_window),
            fresh_signature,
        )
    }

    /// Refuses a guard that does not hold at these points.
    pub fn check_guard(
        &self,
        state: &StateGuard,
        require_frame: bool,
        points: &Vec<(i32, i32)>,
        list: &WindowList,
        fresh_signature: Option<u64>,
    ) -> (result: Result<(), ControllerError>)
        ensures
            match (
                result,
                self.guard_fault(*state, require_frame, points@, *list, fresh_signature),
            ) {
                (Ok(()), None) => true,
                (Err(e), Some(f)) => error::is_fault(e, f),
                _ => false,
            },
    {
        validate_state_guard(
            state,
            require_frame,
            points,
            &self.history,
            list.desktop_generation,
            &list.active_window,
            fresh_signature,
        )
    }

    /// Where a guarded action takes place, or why nowhere.
    pub open spec fn guarded_target(
        &self,
        position: Option<Position>,
        state: StateGuard,
        require_frame: bool,
        situation: Situation,
    ) -> Result<PointerTarget, Fault> {
        match situation.windows {
            Err(e) => Err(Fault::Given(e)),
            Ok(list) => match self.action_target(
                position,
                list.windows@,
                situation.pointer,
                situation.local,
            ) {
                Err(f) => Err(f),
                Ok(target) => match self.guard_fault(
                    state,
                    require_frame,
                    seq![(target.x, target.y)],
                    list,
                    situation.fresh_signature,
                ) {
                    Some(f) => Err(f),
                    None => Ok(target),
                },
            },
        }
    }

    /// Where a guarded action takes place.
    fn guard_target(
        &self,
        position: &Option<Position>,
        state: &StateGuard,
        require_frame: bool,
        situation: Situation,
    ) -> (result: Result<PointerTarget, ControllerError>)
        requires
            self.well_formed(),
        ensures
            error::faulty_result(
                result,
                self.guarded_target(*position, *state, require_frame, situation),
            ),
    {
        let list = match situation.windows {
            Ok(list) => list,
            Err(e) => {
                return Err(e);
            },
        };
        let target = match self.find_target(
            position,
            &list.windows,
            situation.pointer,
            situation.local,
        ) {
            Ok(target) => target,
            Err(e) => {
                return Err(e);
            },
        };
        let points = vec![(target.x, target.y)];
        assert(points@ =~= seq![(target.x, target.y)]);
        match self.check_guard(state, require_frame, &points, &list, situation.fresh_signature) {
            Ok(()) => Ok(target),
            Err(e) => Err(e),
        }
    }

    /// The points of some positions, or why one has none.
    pub open spec fn position_points(
        &self,
        positions: Seq<Position>,
        windows: Seq<WindowInfo>,
        locals: Seq<(i32, i32)>,
    ) -> Result<Seq<(i32, i32)>, Fault>
        decreases positions.len(),
    {
        if positions.len() == 0 {
            Ok(Seq::empty())
        } else {
            match self.position_points(positions.drop_last(), windows, locals) {
                Err(f) => Err(f),
                Ok(points) => match self.position_point(
                    positions.last(),
                    windows,
                    locals[positions.len() - 1],
                ) {
                    Err(f) => Err(f),
                    Ok(point) => Ok(points.push(point)),
                },
            }
        }
    }

    /// A position without a point leaves the whole list without points.
    proof fn lemma_position_points_fail(
        &self,
        positions: Seq<Position>,
        windows: Seq<WindowInfo>,
        locals: Seq<(i32, i32)>,
        end: int,
    )
        requires
            0 <= end <= positions.len(),
            self.position_points(positions.take(end), windows, locals) is Err,
        ensures
            self.position_points(positions, windows, locals) == self.position_points(
                positions.take(end),
                windows,
                locals,
            ),
        decreases positions.len() - end,
    {
        if end == positions.len() {
            assert(positions.take(end) =~= positions);
        } else {
            assert(positions.take(end + 1).drop_last() =~= positions.take(end));
            self.lemma_position_points_fail(positions, windows, locals, end + 1);
        }
    }

    /// The points of some positions.
    fn resolve_positions(
        &self,
        positions: &Vec<Position>,
        windows: &Vec<WindowInfo>,
        locals: &Vec<(i32, i32)>,
    ) -> (result: Result<Vec<(i32, i32)>, ControllerError>)
        requires
            self.well_formed(),
            locals@.len() == positions@.len(),
        ensures
            match (result, self.position_points(positions@, windows@, locals@)) {
                (Ok(points), Ok(expected)) => points@ == expected,
                (Err(e), Err(f)) => error::is_fault(e, f),
                _ => false,
            },
    {
        let mut points: Vec<(i32, i32)> = Vec::new();
        let mut at: usize = 0;
        assert(positions@.take(0) =~= Seq::empty());
        while at < positions.len()
            invariant
                at <= positions.len(),
                self.well_formed(),
                locals@.len() == positions@.len(),
                self.position_points(positions@.take(at as int), windows@, locals@) == Ok::<
                    Seq<(i32, i32)>,
                    Fault,
                >(points@),
            decreases positions.len() - at,
        {
            assert(positions@.take(at + 1).drop_last() =~= positions@.take(at as int));
            assert(positions@.take(at + 1).last() == positions@[at as int]);
            match self.resolve_position(&positions[at], windows, locals[at]) {
                Ok(point) => {
                    points.push(point);
                },
                Err(e) => {
                    proof {
                        self.lemma_position_points_fail(
                            positions@,
                            windows@,
                            locals@,
                            at + 1,
                        );
                    }
                    return Err(e);
                },
            }
            at += 1;
        }
        assert(positions@.take(positions@.len() as int) =~= positions@);
        Ok(points)
    }

    /// The points that a guard must cover, or why there are none: those of
    /// some positions, and that of the pointer where it counts.
    pub open spec fn scope_points(
        &self,
        positions: Seq<Position>,
        locals: Seq<(i32, i32)>,
        with_pointer: bool,
        list: WindowList,
        pointer: Result<PointerInfo, ControllerError>,
    ) -> Result<Seq<(i32, i32)>, Fault> {
        match self.position_points(positions, list.windows@, locals) {
            Err(f) => Err(f),
            Ok(points) => if with_pointer {
                match pointer {
                    Err(e) => Err(Fault::Given(e)),
                    Ok(at) => Ok(points.push((at.x, at.y))),
                }
            } else {
                Ok(points)
            },
        }
    }

    /// Why the guard of several actions does not hold, if so.
    pub open spec fn scope_fault(
        &self,
        state: StateGuard,
        require_frame: bool,
        with_pointer: bool,
        positions: Seq<Position>,
        locals: Seq<(i32, i32)>,
        situation: Situation,
    ) -> Option<Fault> {
        match situation.windows {
            Err(e) => Some(Fault::Given(e)),
            Ok(list) => match self.scope_points(
                positions,
                locals,
                with_pointer,
                list,
                situation.pointer,
            ) {
                Err(f) => Some(f),
                Ok(points) => self.guard_fault(
                    state,
                    require_frame,
                    points,
                    list,
                    situation.fresh_signature,
                ),
            },
        }
    }

    /// Refuses several actions whose guard does not hold. `locals` holds the
    /// rounded offsets of the window-relative positions.
    pub fn check_scope(
        &self,
        state: &StateGuard,
        require_frame: bool,
        with_pointer: bool,
        positions: &Vec<Position>,
        locals: &Vec<(i32, i32)>,
        situation: Situation,
    ) -> (result: Result<(), ControllerError>)
        requires
            self.well_formed(),
            locals@.len() == positions@.len(),
        ensures
            match (
                result,
                self.scope_fault(
                    *state,
                    require_frame,
                    with_pointer,
                    positions@,
                    locals@,
                    situation,
                ),
            ) {
                (Ok(()), None) => true,
                (Err(e), Some(f)) => error::is_fault(e, f),
                _ => false,
            },
    {
        let list = match situation.windows {
            Ok(list) => list,
            Err(e) => {
                return Err(e);
            },
        };
        let mut points = match self.resolve_positions(positions, &list.windows, locals) {
            Ok(points) => points,
            Err(e) => {
                return Err(e);
            },
        };
        if with_pointer {
            match situation.pointer {
                Ok(at) => {
                    points.push((at.x, at.y));
                },
                Err(e) => {
                    return Err(e);
                },
            }
        }
        self.check_guard(state, require_frame, &points, &list, situation.fresh_signature)
    }

    /// Why an element cannot be acted on under the allowlist, if so: without
    /// a list every element can, and under one those whose window is permitted.
    pub open spec fn element_fault(
        &self,
        window_ref: Option<Seq<char>>,
        windows: Seq<WindowInfo>,
    ) -> Option<Fault> {
        if !self.allowlist.restricts() {
            None
        } else {
            match window_ref {
                None => Some(
                    fault(
                        ErrorCode::AccessDenied,
                        "semantic element cannot be associated with an allowlisted window"@,
                    ),
                ),
                Some(window) => match self.usable_window(windows, window) {
                    Err(f) => Some(f),
                    Ok(_) => None,
                },
            }
        }
    }

    /// Refuses to act on an element that is not within a permitted window.
    pub fn check_element(&self, window_ref: &Option<String>, windows: &Vec<WindowInfo>) -> (result:
        Result<(), ControllerError>)
        requires
            self.well_formed(),
        ensures
            match (result, self.element_fault(text::opt_text(*window_ref), windows@)) {
                (Ok(()), None) => true,
                (Err(e), Some(f)) => error::is_fault(e, f),
                _ => false,
            },
    {
        if !self.allowlist.is_enabled() {
            return Ok(());
        }
        match window_ref {
            None => Err(
                ControllerError::new(
                    ErrorCode::AccessDenied,
                    "semantic element cannot be associated with an allowlisted window",
                ),
            ),
            Some(window) => match self.use_window(windows, window.as_str()) {
                Ok(_) => Ok(()),
                Err(e) => Err(e),
            },
        }
    }

    /// Under an allowlist, an element can be acted on only where it belongs to
    /// a window that is there and is permitted.
    pub proof fn semantic_actions_stay_within_the_allowlist(
        &self,
        window_ref: Option<Seq<char>>,
        windows: Seq<WindowInfo>,
    )
        requires
            self.allowlist.restricts(),
            self.element_fault(window_ref, windows) is None,
        ensures
            window_ref is Some,
            windows::window_from(windows, window_ref->0, 0) matches Some(window)
                && self.allowlist.permits_class(window.class),
    {
    }

    /// Whether a pointer movement needs a frame: it does within a window.
    pub open spec fn movement_needs_frame(position: Position) -> bool {
        !(position is Screen)
    }

    /// What a pointer movement is checked to be, or why it is refused.
    pub open spec fn move_check(
        &self,
        stopped: bool,
        request: MovePointerRequest,
        situation: Situation,
    ) -> Result<PointerTarget, Fault> {
        match self.xtest_fault(stopped) {
            Some(f) => Err(f),
            None => self.guarded_target(
                Some(request.position),
                request.guard,
                Self::movement_needs_frame(request.position),
                situation,
            ),
        }
    }

    /// Checks a pointer movement.
    pub fn check_move(
        &mut self,
        stopped: bool,
        request: &MovePointerRequest,
        situation: Situation,
        now: u64,
    ) -> (result: Result<PointerTarget, ControllerError>)
        requires
            old(self).well_formed(),
        ensures
            final(self).well_formed(),
            checked(
                result,
                *old(self),
                *final(self),
                old(self).xtest_fault(stopped),
                1,
                now,
                old(self).move_check(stopped, *request, situation),
            ),
    {
        match self.ensure_xtest(stopped) {
            Ok(()) => {},
            Err(e) => {
                return Err(e);
            },
        }
        match self.spend(1, now) {
            Ok(()) => {},
            Err(e) => {
                return Err(e);
            },
        }
        let needs_frame: bool = match &request.position {
            Position::Screen { .. } => false,
            _ => true,
        };
        let position = Some(request.position.clone());
        self.guard_target(&position, &request.guard, needs_frame, situation)
    }

    /// Why the numbers of a click are refused, if so.
    pub open spec fn click_fault(request: ClickRequest) -> Option<Fault> {
        if request.button == 0 || request.count == 0 || request.count > 10 {
            Some(
                fault(
                    ErrorCode::InvalidInput,
                    "button must be non-zero and count must be between 1 and 10"@,
                ),
            )
        } else {
            None
        }
    }

    /// Why a click is refused before its place is looked for, if so.
    pub open spec fn early_click_fault(&self, stopped: bool, request: ClickRequest) -> Option<
        Fault,
    > {
        match self.xtest_fault(stopped) {
            Some(f) => Some(f),
            None => Self::click_fault(request),
        }
    }

    /// How many events a click has: a movement, and two for each click.
    pub open spec fn click_events(request: ClickRequest) -> int {
        request.count * 2 + (if request.position is Some {
            1int
        } else {
            0int
        })
    }

    /// What a click is checked to be, or why it is refused.
    pub open spec fn click_check(
        &self,
        stopped: bool,
        request: ClickRequest,
        situation: Situation,
    ) -> Result<PointerTarget, Fault> {
        match self.early_click_fault(stopped, request) {
            Some(f) => Err(f),
            None => self.guarded_target(request.position, request.guard, true, situation),
        }
    }

    /// Checks a click.
    pub fn check_click(
        &mut self,
        stopped: bool,
        request: &ClickRequest,
        situation: Situation,
        now: u64,
    ) -> (result: Result<PointerTarget, ControllerError>)
        requires
            old(self).well_formed(),
        ensures
            final(self).well_formed(),
            checked(
                result,
                *old(self),
                *final(self),
                old(self).early_click_fault(stopped, *request),
                Self::click_events(*request),
                now,
                old(self).click_check(stopped, *request, situation),
            ),
    {
        match self.ensure_xtest(stopped) {
            Ok(()) => {},
            Err(e) => {
                return Err(e);
            },
        }
        if request.button == 0 || request.count == 0 || request.count > 10 {
            return Err(
                ControllerError::new(
                    ErrorCode::InvalidInput,
                    "button must be non-zero and count must be between 1 and 10",
                ),
            );
        }
        let moved: u32 = if request.position.is_some() {
            1
        } else {
            0
        };
        match self.spend(request.count as u32 * 2 + moved, now) {
            Ok(()) => {},
            Err(e) => {
                return Err(e);
            },
        }
        self.guard_target(&request.position, &request.guard, true, situation)
    }

    /// Why the numbers of a drag are refused, if so.
    pub open spec fn drag_fault(request: DragRequest) -> Option<Fault> {
        if request.button == 0 || request.steps == 0 || request.steps > 100 {
            Some(
                fault(
                    ErrorCode::InvalidInput,
                    "button must be non-zero and drag steps must be between 1 and 100"@,
                ),
            )
        } else if request.duration_ms > 10_000 {
            Some(fault(ErrorCode::InvalidInput, "drag duration cannot exceed 10000 ms"@))
        } else {
            None
        }
    }

    /// Why a drag is refused before its ends are looked for, if so.
    pub open spec fn early_drag_fault(&self, stopped: bool, request: DragRequest) -> Option<Fault> {
        match self.xtest_fault(stopped) {
            Some(f) => Some(f),
            None => Self::drag_fault(request),
        }
    }

    /// What a drag is checked to be, or why it is refused.
    pub open spec fn drag_check(
        &self,
        stopped: bool,
        request: DragRequest,
        situation: Situation,
    ) -> Result<DragEnds, Fault> {
        match self.early_drag_fault(stopped, request) {
            Some(f) => Err(f),
            None => match situation.windows {
                Err(e) => Err(Fault::Given(e)),
                Ok(list) => match self.position_point(
                    request.from,
                    list.windows@,
                    situation.local,
                ) {
                    Err(f) => Err(f),
                    Ok(from) => match self.position_point(
                        request.to,
                        list.windows@,
                        situation.local_to,
                    ) {
                        Err(f) => Err(f),
                        Ok(to) => match self.guard_fault(
                            request.guard,
                            true,
                            seq![from, to],
                            list,
                            situation.fresh_signature,
                        ) {
                            Some(f) => Err(f),
                            None => Ok(
                                DragEnds {
                                    from: PointerTarget { x: from.0, y: from.1, moves: true },
                                    to: PointerTarget { x: to.0, y: to.1, moves: true },
                                },
                            ),
                        },
                    },
                },
            },
        }
    }

    /// Checks a drag.
    pub fn check_drag(
        &mut self,
        stopped: bool,
        request: &DragRequest,
        situation: Situation,
        now: u64,
    ) -> (result: Result<DragEnds, ControllerError>)
        requires
            old(self).well_formed(),
        ensures
            final(self).well_formed(),
            checked(
                result,
                *old(self),
                *final(self),
                old(self).early_drag_fault(stopped, *request),
                request.steps + 3,
                now,
                old(self).drag_check(stopped, *request, situation),
            ),
    {
        match self.ensure_xtest(stopped) {
            Ok(()) => {},
            Err(e) => {
                return Err(e);
            },
        }
        if request.button == 0 || request.steps == 0 || request.steps > 100 {
            return Err(
                ControllerError::new(
                    ErrorCode::InvalidInput,
                    "button must be non-zero and drag steps must be between 1 and 100",
                ),
            );
        }
        if request.duration_ms > 10_000 {
            return Err(
                ControllerError::new(
                    ErrorCode::InvalidInput,
                    "drag duration cannot exceed 10000 ms",
                ),
            );
        }
        match self.spend(request.steps as u32 + 3, now) {
            Ok(()) => {},
            Err(e) => {
                return Err(e);
            },
        }
        let list = match situation.windows {
            Ok(list) => list,
            Err(e) => {
                return Err(e);
            },
        };
        let from = match self.resolve_position(&request.from, &list.windows, situation.local) {
            Ok(point) => point,
            Err(e) => {
                return Err(e);
            },
        };
        let to = match self.resolve_position(&request.to, &list.windows, situation.local_to) {
            Ok(point) => point,
            Err(e) => {
                return Err(e);
            },
        };
        let points = vec![from, to];
        assert(points@ =~= seq![from, to]);
        match self.check_guard(&request.guard, true, &points, &list, situation.fresh_signature) {
            Ok(()) => Ok(
                DragEnds {
                    from: PointerTarget { x: from.0, y: from.1, moves: true },
                    to: PointerTarget { x: to.0, y: to.1, moves: true },
                },
            ),
            Err(e) => Err(e),
        }
    }

    /// How many ticks a scroll has.
    pub open spec fn scroll_ticks(request: ScrollRequest) -> int {
        (if request.dx < 0 {
            -request.dx
        } else {
            request.dx as int
        }) + (if request.dy < 0 {
            -request.dy
        } else {
            request.dy as int
        })
    }

    /// Why a scroll is refused before its place is looked for, if so.
    pub open spec fn early_scroll_fault(&self, stopped: bool, request: ScrollRequest) -> Option<
        Fault,
    > {
        match self.xtest_fault(stopped) {
            Some(f) => Some(f),
            None => if Self::scroll_ticks(request) == 0 || Self::scroll_ticks(request) > 100 {
                Some(
                    fault(
                        ErrorCode::InvalidInput,
                        "scroll must contain between 1 and 100 total ticks"@,
                    ),
                )
            } else {
                None
            },
        }
    }

    /// How many events a scroll has: a movement, and two for each tick.
    pub open spec fn scroll_events(request: ScrollRequest) -> int {
        Self::scroll_ticks(request) * 2 + (if request.position is Some {
            1int
        } else {
            0int
        })
    }

    /// What a scroll is checked to be, or why it is refused. Only a scroll at
    /// a position needs a frame.
    pub open spec fn scroll_check(
        &self,
        stopped: bool,
        request: ScrollRequest,
        situation: Situation,
    ) -> Result<PointerTarget, Fault> {
        match self.early_scroll_fault(stopped, request) {
            Some(f) => Err(f),
            None => self.guarded_target(
                request.position,
                request.guard,
                request.position is Some,
                situation,
            ),
        }
    }

    /// Checks a scroll.
    pub fn check_scroll(
        &mut self,
        stopped: bool,
        request: &ScrollRequest,
        situation: Situation,
        now: u64,
    ) -> (result: Result<PointerTarget, ControllerError>)
        requires
            old(self).well_formed(),
        ensures
            final(self).well_formed(),
            checked(
                result,
                *old(self),
                *final(self),
                old(self).early_scroll_fault(stopped, *request),
                Self::scroll_events(*request),
                now,
                old(self).scroll_check(stopped, *request, situation),
            ),
    {
        match self.ensure_xtest(stopped) {
            Ok(()) => {},
            Err(e) => {
                return Err(e);
            },
        }
        let ticks: u64 = magnitude(request.dx) + magnitude(request.dy);
        if ticks == 0 || ticks > 100 {
            return Err(
                ControllerError::new(
                    ErrorCode::InvalidInput,
                    "scroll must contain between 1 and 100 total ticks",
                ),
            );
        }
        let positioned: bool = request.position.is_some();
        let moved: u32 = if positioned {
            1
        } else {
            0
        };
        match self.spend(ticks as u32 * 2 + moved, now) {
            Ok(()) => {},
            Err(e) => {
                return Err(e);
            },
        }
        self.guard_target(&request.position, &request.guard, positioned, situation)
    }

    /// Why the keyboard is refused for a request, if so.
    pub open spec fn keyboard_fault(
        &self,
        stopped: bool,
        size: Option<Fault>,
        state: StateGuard,
        situation: Situation,
    ) -> Option<Fault> {
        match self.xtest_fault(stopped) {
            Some(f) => Some(f),
            None => match situation.windows {
                Err(e) => Some(Fault::Given(e)),
                Ok(list) => match self.focus_fault(list) {
                    Some(f) => Some(f),
                    None => match size {
                        Some(f) => Some(f),
                        None => self.guard_fault(
                            state,
                            false,
                            Seq::empty(),
                            list,
                            situation.fresh_signature,
                        ),
                    },
                },
            },
        }
    }

    /// Why a number of keys is refused, if so.
    pub open spec fn keys_fault(request: KeyRequest) -> Option<Fault> {
        if request.keys@.len() == 0 || request.keys@.len() > 16 {
            Some(
                fault(
                    ErrorCode::InvalidInput,
                    "keys must contain between 1 and 16 key names"@,
                ),
            )
        } else {
            None
        }
    }

    /// Why a length of text is refused, if so.
    pub open spec fn text_fault(request: TypeTextRequest) -> Option<Fault> {
        if vstd::utf8::encode_utf8(request.text@).len() > 1_048_576 {
            Some(fault(ErrorCode::InvalidInput, "text cannot exceed 1 MiB"@))
        } else {
            None
        }
    }

    /// Checks a key chord.
    pub fn check_key(&self, stopped: bool, request: &KeyRequest, situation: Situation) -> (result:
        Result<(), ControllerError>)
        requires
            self.well_formed(),
        ensures
            match (
                result,
                self.keyboard_fault(stopped, Self::keys_fault(*request), request.guard, situation),
            ) {
                (Ok(()), None) => true,
                (Err(e), Some(f)) => error::is_fault(e, f),
                _ => false,
            },
    {
        let list = match self.focused_list(stopped, situation.windows) {
            Ok(list) => list,
            Err(e) => {
                return Err(e);
            },
        };
        if request.keys.len() == 0 || request.keys.len() > 16 {
            return Err(
                ControllerError::new(
                    ErrorCode::InvalidInput,
                    "keys must contain between 1 and 16 key names",
                ),
            );
        }
        let points: Vec<(i32, i32)> = Vec::new();
        assert(points@ =~= Seq::empty());
        self.check_guard(&request.guard, false, &points, &list, situation.fresh_signature)
    }

    /// Checks a request to type text.
    pub fn check_text(&self, stopped: bool, request: &TypeTextRequest, situation: Situation) -> (result:
        Result<(), ControllerError>)
        requires
            self.well_formed(),
        ensures
            match (
                result,
                self.keyboard_fault(stopped, Self::text_fault(*request), request.guard, situation),
            ) {
                (Ok(()), None) => true,
                (Err(e), Some(f)) => error::is_fault(e, f),
                _ => false,
            },
    {
        let list = match self.focused_list(stopped, situation.windows) {
            Ok(list) => list,
            Err(e) => {
                return Err(e);
            },
        };
        if request.text.as_str().as_bytes().len() > 1_048_576 {
            return Err(ControllerError::new(ErrorCode::InvalidInput, "text cannot exceed 1 MiB"));
        }
        let points: Vec<(i32, i32)> = Vec::new();
        assert(points@ =~= Seq::empty());
        self.check_guard(&request.guard, false, &points, &list, situation.fresh_signature)
    }

    /// The windows, where input can be sent to the focused one.
    fn focused_list(&self, stopped: bool, windows: Result<WindowList, ControllerError>) -> (result:
        Result<WindowList, ControllerError>)
        requires
            self.well_formed(),
        ensures
            match result {
                Ok(list) => self.xtest_fault(stopped) is None && windows is Ok && list
                    == windows->Ok_0 && self.focus_fault(list) is None,
                Err(e) => match self.xtest_fault(stopped) {
                    Some(f) => error::is_fault(e, f),
                    None => match windows {
                        Err(given) => e == given,
                        Ok(list) => match self.focus_fault(list) {
                            Some(f) => error::is_fault(e, f),
                            None => false,
                        },
                    },
                },
            },
    {
        match self.ensure_xtest(stopped) {
            Ok(()) => {},
            Err(e) => {
                return Err(e);
            },
        }
        let list = match windows {
            Ok(list) => list,
            Err(e) => {
                return Err(e);
            },
        };
        match self.ensure_focused_allowed(&list) {
            Ok(()) => Ok(list),
            Err(e) => Err(e),
        }
    }

    /// What an action on a window is checked to be, or why it is refused.
    pub open spec fn window_check(
        &self,
        stopped: bool,
        window_ref: Seq<char>,
        state: StateGuard,
        situation: Situation,
    ) -> Result<WindowInfo, Fault> {
        match stop_fault(stopped) {
            Some(f) => Err(f),
            None => match situation.windows {
                Err(e) => Err(Fault::Given(e)),
                Ok(list) => match self.usable_window(list.windows@, window_ref) {
                    Err(f) => Err(f),
                    Ok(window) => match self.guard_fault(
                        state,
                        false,
                        Seq::empty(),
                        list,
                        situation.fresh_signature,
                    ) {
                        Some(f) => Err(f),
                        None => Ok(window),
                    },
                },
            },
        }
    }

    /// Checks an action on a window.
    pub fn check_window(
        &self,
        stopped: bool,
        window_ref: &str,
        state: &StateGuard,
        situation: Situation,
    ) -> (result: Result<WindowInfo, ControllerError>)
        requires
            self.well_formed(),
        ensures
            error::faulty_result(
                result,
                self.window_check(stopped, window_ref@, *state, situation),
            ),
    {
        match ensure_mutation_allowed(stopped) {
            Ok(()) => {},
            Err(e) => {
                return Err(e);
            },
        }
        let list = match situation.windows {
            Ok(list) => list,
            Err(e) => {
                return Err(e);
            },
        };
        let window = match self.use_window(&list.windows, window_ref) {
            Ok(window) => window,
            Err(e) => {
                return Err(e);
            },
        };
        let points: Vec<(i32, i32)> = Vec::new();
        assert(points@ =~= Seq::empty());
        match self.check_guard(state, false, &points, &list, situation.fresh_signature) {
            Ok(()) => Ok(window),
            Err(e) => Err(e),
        }
    }
}

/// The magnitude of a number.
fn magnitude(n: i32) -> (size: u64)
    ensures
        size == (if n < 0 {
            -n
        } else {
            n as int
        }),
{
    if n < 0 {
        (-(n as i64)) as u64
    } else {
        n as u64
    }
}

impl Controller {
    /// Once the emergency stop is latched, the pointer, the keyboard and
    /// windows are refused for it, whatever else holds.
    pub proof fn latched_stop_refuses_all_input(
        &self,
        movement: MovePointerRequest,
        click: ClickRequest,
        drag: DragRequest,
        scroll: ScrollRequest,
        size: Option<Fault>,
        window_ref: Seq<char>,
        state: StateGuard,
        situation: Situation,
    )
        ensures
            stop_fault(true) is Some,
            self.move_check(true, movement, situation) == Err::<PointerTarget, Fault>(
                stop_fault(true)->0,
            ),
            self.click_check(true, click, situation) == Err::<PointerTarget, Fault>(
                stop_fault(true)->0,
            ),
            self.drag_check(true, drag, situation) == Err::<DragEnds, Fault>(stop_fault(true)->0),
            self.scroll_check(true, scroll, situation) == Err::<PointerTarget, Fault>(
                stop_fault(true)->0,
            ),
            self.keyboard_fault(true, size, state, situation) == stop_fault(true),
            self.window_check(true, window_ref, state, situation) == Err::<WindowInfo, Fault>(
                stop_fault(true)->0,
            ),
    {
    }

    /// Clicks, drags, scrolls at a position and movements within a window are
    /// refused where their guard names no frame.
    pub proof fn targeted_actions_need_a_frame(
        &self,
        stopped: bool,
        movement: MovePointerRequest,
        click: ClickRequest,
        drag: DragRequest,
        scroll: ScrollRequest,
        situation: Situation,
    )
        requires
            !movement.guard.prevalidated && movement.guard.frame_id is None,
            !click.guard.prevalidated && click.guard.frame_id is None,
            !drag.guard.prevalidated && drag.guard.frame_id is None,
            !scroll.guard.prevalidated && scroll.guard.frame_id is None,
        ensures
            !(movement.position is Screen) ==> self.move_check(stopped, movement, situation) is Err,
            self.click_check(stopped, click, situation) is Err,
            self.drag_check(stopped, drag, situation) is Err,
            scroll.position is Some ==> self.scroll_check(stopped, scroll, situation) is Err,
    {
    }

    /// Whether a pointer action takes place within a permitted window: the
    /// one that its position names, or else the topmost one at its target.
    pub open spec fn permitted_at(
        &self,
        position: Option<Position>,
        target: PointerTarget,
        windows: Seq<WindowInfo>,
    ) -> bool {
        match match position {
            Some(Position::Window { window_ref, .. }) => windows::window_from(
                windows,
                window_ref@,
                0,
            ),
            Some(Position::WindowRelative { window_ref, .. }) => windows::window_from(
                windows,
                window_ref@,
                0,
            ),
            _ => windows::topmost(windows, target.x, target.y, windows.len() as int),
        } {
            Some(window) => self.allowlist.permits_class(window.class),
            None => false,
        }
    }

    /// With an allowlist, an admitted movement, click, drag or scroll takes
    /// place within a permitted window, a drag at both its ends, and admitted
    /// keyboard input goes to a permitted window.
    pub proof fn input_stays_within_the_allowlist(
        &self,
        stopped: bool,
        movement: MovePointerRequest,
        click: ClickRequest,
        drag: DragRequest,
        scroll: ScrollRequest,
        size: Option<Fault>,
        state: StateGuard,
        situation: Situation,
    )
        requires
            self.allowlist.restricts(),
        ensures
            self.move_check(stopped, movement, situation) matches Ok(target)
                ==> self.permitted_at(
                Some(movement.position),
                target,
                situation.windows->Ok_0.windows@,
            ),
            self.click_check(stopped, click, situation) matches Ok(target) ==> self.permitted_at(
                click.position,
                target,
                situation.windows->Ok_0.windows@,
            ),
            self.drag_check(stopped, drag, situation) matches Ok(ends) ==> self.permitted_at(
                Some(drag.from),
                ends.from,
                situation.windows->Ok_0.windows@,
            ) && self.permitted_at(Some(drag.to), ends.to, situation.windows->Ok_0.windows@),
            self.scroll_check(stopped, scroll, situation) matches Ok(target)
                ==> self.permitted_at(
                scroll.position,
                target,
                situation.windows->Ok_0.windows@,
            ),
            self.keyboard_fault(stopped, size, state, situation) is None ==> {
                let list = situation.windows->Ok_0;
                let focused = windows::window_from(list.windows@, list.active_window->0@, 0);
                list.active_window is Some && focused is Some && self.allowlist.permits_class(
                    focused->0.class,
                )
            },
    {
    }

    /// An admitted movement, drag, or click or scroll at a position stays on
    /// the screen.
    pub proof fn targets_are_on_the_screen(
        &self,
        stopped: bool,
        movement: MovePointerRequest,
        click: ClickRequest,
        drag: DragRequest,
        scroll: ScrollRequest,
        situation: Situation,
    )
        ensures
            self.move_check(stopped, movement, situation) matches Ok(target) ==> 0 <= target.x
                < self.screen_width && 0 <= target.y < self.screen_height,
            click.position is Some ==> (self.click_check(stopped, click, situation) matches Ok(
                target,
            ) ==> 0 <= target.x < self.screen_width && 0 <= target.y < self.screen_height),
            self.drag_check(stopped, drag, situation) matches Ok(ends) ==> 0 <= ends.from.x
                < self.screen_width && 0 <= ends.from.y < self.screen_height && 0 <= ends.to.x
                < self.screen_width && 0 <= ends.to.y < self.screen_height,
            scroll.position is Some ==> (self.scroll_check(stopped, scroll, situation) matches Ok(
                target,
            ) ==> 0 <= target.x < self.screen_width && 0 <= target.y < self.screen_height),
    {
    }
}

impl Controller {
    /// A position means the screen point that it names, or that point of its
    /// window: always one on the screen, and within the window where an offset
    /// is given in pixels.
    pub proof fn positions_mean_their_point(
        &self,
        position: Position,
        windows: Vec<WindowInfo>,
        local: (i32, i32),
        result: Result<(i32, i32), ControllerError>,
    )
        requires
            call_ensures(
                Controller::resolve_position,
                (self, &position, &windows, local),
                result,
            ),
        ensures
            result matches Ok((x, y)) ==> {
                &&& 0 <= x < self.screen_width && 0 <= y < self.screen_height
                &&& match position {
                    Position::Screen { x: to_x, y: to_y } => x == to_x && y == to_y,
                    Position::Window { window_ref, x: dx, y: dy } => exists|at: int|
                        0 <= at < windows@.len() && (#[trigger] windows@[at]).window_ref@
                            == window_ref@ && 0 <= dx < windows@[at].geometry.width && 0 <= dy
                            < windows@[at].geometry.height && x == windows@[at].geometry.x + dx && y
                            == windows@[at].geometry.y + dy && self.allowlist.permits_class(
                            windows@[at].class,
                        ),
                    Position::WindowRelative { window_ref, x: fx, y: fy } => ieee::is_fraction(fx)
                        && ieee::is_fraction(fy) && exists|at: int|
                        0 <= at < windows@.len() && (#[trigger] windows@[at]).window_ref@
                            == window_ref@ && x == windows@[at].geometry.x + local.0 && y
                            == windows@[at].geometry.y + local.1 && self.allowlist.permits_class(
                            windows@[at].class,
                        ),
                }
            },
    {
        match position {
            Position::Window { window_ref, .. } => {
                windows::references_mean_their_window(windows@, window_ref@, 0);
            },
            Position::WindowRelative { window_ref, .. } => {
                windows::references_mean_their_window(windows@, window_ref@, 0);
            },
            _ => {},
        }
    }

    /// A position is refused only where there is a reason: a point outside the
    /// screen, outside its window, in a window that is gone or not permitted, or
    /// given by what is no fraction.
    pub proof fn usable_positions_are_not_refused(
        &self,
        position: Position,
        windows: Vec<WindowInfo>,
        local: (i32, i32),
        result: Result<(i32, i32), ControllerError>,
        at: int,
    )
        requires
            call_ensures(
                Controller::resolve_position,
                (self, &position, &windows, local),
                result,
            ),
        ensures
            position matches Position::Screen { x, y } ==> (0 <= x < self.screen_width && 0 <= y
                < self.screen_height && self.point_fault(windows@, x, y) is None ==> result
                == Ok::<(i32, i32), ControllerError>((x, y))),
            0 <= at < windows@.len() && self.allowlist.permits_class(windows@[at].class) ==> {
                let window = windows@[at];
                let first = |window_ref: String|
                    window.window_ref@ == window_ref@ && forall|i: int|
                        0 <= i < at ==> (#[trigger] windows@[i]).window_ref@ != window_ref@;
                let seen = |x: int, y: int|
                    0 <= x < self.screen_width && 0 <= y < self.screen_height;
                &&& position matches Position::Window { window_ref, x, y } ==> (first(window_ref)
                    && 0 <= x < window.geometry.width && 0 <= y < window.geometry.height && seen(
                    window.geometry.x + x,
                    window.geometry.y + y,
                ) ==> result is Ok)
                &&& position matches Position::WindowRelative { window_ref, x, y } ==> (first(
                    window_ref,
                ) && ieee::is_fraction(x) && ieee::is_fraction(y) && seen(
                    window.geometry.x + local.0,
                    window.geometry.y + local.1,
                ) ==> result is Ok)
            },
    {
        match position {
            Position::Window { window_ref, .. } => {
                windows::references_mean_their_window(windows@, window_ref@, 0);
            },
            Position::WindowRelative { window_ref, .. } => {
                windows::references_mean_their_window(windows@, window_ref@, 0);
            },
            _ => {},
        }
    }

    /// A point may be acted on exactly where the allowlist restricts nothing or
    /// the topmost mapped window there is permitted.
    pub proof fn points_are_permitted_by_the_topmost_window(
        &self,
        windows: Vec<WindowInfo>,
        x: i32,
        y: i32,
        result: Result<(), ControllerError>,
    )
        requires
            call_ensures(Controller::ensure_point_allowed, (self, &windows, x, y), result),
        ensures
            !self.allowlist.restricts() ==> result is Ok,
            self.allowlist.restricts() ==> (result is Ok <==> match windows::topmost(
                windows@,
                x,
                y,
                windows@.len() as int,
            ) {
                Some(window) => self.allowlist.permits_class(window.class),
                None => false,
            }),
            result is Err ==> result->Err_0.code == ErrorCode::AccessDenied,
            result is Ok <==> self.point_fault(windows@, x, y) is None,
    {
    }

    /// The keyboard may be used exactly where the allowlist restricts nothing
    /// or the active window is listed and permitted.
    pub proof fn the_keyboard_is_permitted_by_the_active_window(
        &self,
        list: WindowList,
        result: Result<(), ControllerError>,
    )
        requires
            call_ensures(Controller::ensure_focused_allowed, (self, &list), result),
        ensures
            !self.allowlist.restricts() ==> result is Ok,
            self.allowlist.restricts() && result is Ok ==> list.active_window is Some && exists|
                at: int,
            |
                0 <= at < list.windows@.len() && (#[trigger] list.windows@[at]).window_ref@
                    == list.active_window->0@ && self.allowlist.permits_class(
                    list.windows@[at].class,
                ),
            self.allowlist.restricts() && result is Err ==> result->Err_0.code
                == ErrorCode::AccessDenied && (list.active_window is None || (forall|at: int|
                0 <= at < list.windows@.len() ==> (#[trigger] list.windows@[at]).window_ref@
                    != list.active_window->0@) || (exists|at: int|
                0 <= at < list.windows@.len() && (#[trigger] list.windows@[at]).window_ref@
                    == list.active_window->0@ && !self.allowlist.permits_class(
                    list.windows@[at].class,
                ))),
            result is Ok <==> self.focus_fault(list) is None,
    {
        if let Some(active) = list.active_window {
            windows::references_mean_their_window(list.windows@, active@, 0);
        }
    }

    /// An action at no position takes place where the pointer is, without
    /// moving it; one at a position moves the pointer to the point that the
    /// position means.
    pub proof fn actions_take_place_where_asked(
        &self,
        position: Option<Position>,
        windows: Seq<WindowInfo>,
        pointer: Result<PointerInfo, ControllerError>,
        local: (i32, i32),
    )
        ensures
            ({
                let target = self.action_target(position, windows, pointer, local);
                &&& position is None && target is Ok ==> pointer is Ok && target->Ok_0.x
                    == pointer->Ok_0.x && target->Ok_0.y == pointer->Ok_0.y && !target->Ok_0.moves
                &&& position is None && pointer is Ok && self.point_fault(
                    windows,
                    pointer->Ok_0.x,
                    pointer->Ok_0.y,
                ) is None ==> target is Ok
                &&& position is Some ==> (target is Ok <==> self.position_point(
                    position->0,
                    windows,
                    local,
                ) is Ok)
                &&& position is Some && target is Ok ==> target->Ok_0.moves && (
                target->Ok_0.x, target->Ok_0.y) == self.position_point(
                    position->0,
                    windows,
                    local,
                )->Ok_0
            }),
    {
    }

    /// A click is admitted exactly where input can be sent, its button is a
    /// button, it clicks one to ten times, its events are affordable, its place
    /// can be used, and its guard names a frame that still holds there. It is
    /// charged for two events a click and one for a movement.
    pub proof fn clicks_are_admitted_as_they_should(
        controller: &mut Controller,
        stopped: bool,
        request: ClickRequest,
        situation: Situation,
        now: u64,
        result: Result<PointerTarget, ControllerError>,
    )
        requires
            call_ensures(
                Controller::check_click,
                (controller, stopped, &request, situation, now),
                result,
            ),
        ensures
            ({
                let before = *old(controller);
                let events = 2 * request.count + (if request.position is Some {
                    1int
                } else {
                    0int
                });
                let ready = !stopped && before.xtest && request.button != 0 && 1 <= request.count
                    <= 10;
                let list = situation.windows->Ok_0;
                let place = before.action_target(
                    request.position,
                    list.windows@,
                    situation.pointer,
                    situation.local,
                );
                let point = seq![(place->Ok_0.x, place->Ok_0.y)];
                &&& result is Ok <==> ready && before.limiter@.admits(events, now as int)
                    && situation.windows is Ok && place is Ok && before.guard_fault(
                    request.guard,
                    true,
                    point,
                    list,
                    situation.fresh_signature,
                ) is None
                &&& result is Ok ==> result->Ok_0 == place->Ok_0
                &&& stopped ==> result->Err_0.code == ErrorCode::EmergencyStop
                &&& !ready ==> *final(controller) == before
                &&& ready ==> final(controller).limiter@ == before.limiter@.after(
                    events,
                    now as int,
                )
                &&& ready && !before.limiter@.admits(events, now as int) ==> result->Err_0.code
                    == ErrorCode::RateLimited && result->Err_0.retryable
            }),
    {
    }

    /// A movement is admitted exactly where input can be sent, one event is
    /// affordable, its place can be used, and its guard holds there, with a
    /// frame where the place is within a window.
    pub proof fn movements_are_admitted_as_they_should(
        controller: &mut Controller,
        stopped: bool,
        request: MovePointerRequest,
        situation: Situation,
        now: u64,
        result: Result<PointerTarget, ControllerError>,
    )
        requires
            call_ensures(
                Controller::check_move,
                (controller, stopped, &request, situation, now),
                result,
            ),
        ensures
            ({
                let before = *old(controller);
                let ready = !stopped && before.xtest;
                let list = situation.windows->Ok_0;
                let place = before.position_point(
                    request.position,
                    list.windows@,
                    situation.local,
                );
                &&& result is Ok <==> ready && before.limiter@.admits(1, now as int)
                    && situation.windows is Ok && place is Ok && before.guard_fault(
                    request.guard,
                    request.position is Window || request.position is WindowRelative,
                    seq![place->Ok_0],
                    list,
                    situation.fresh_signature,
                ) is None
                &&& result is Ok ==> (result->Ok_0.x, result->Ok_0.y) == place->Ok_0
                    && result->Ok_0.moves
                &&& stopped ==> result->Err_0.code == ErrorCode::EmergencyStop
                &&& !ready ==> *final(controller) == before
                &&& ready ==> final(controller).limiter@ == before.limiter@.after(1, now as int)
            }),
    {
        let before = *old(controller);
        let place = before.position_point(
            request.position,
            situation.windows->Ok_0.windows@,
            situation.local,
        );
        assert(seq![(place->Ok_0.0, place->Ok_0.1)] =~= seq![place->Ok_0]);
    }

    /// A drag is admitted exactly where input can be sent, its button is a
    /// button, it has one to a hundred steps and takes at most ten seconds, its
    /// events are affordable, both its ends can be used, and its guard names a
    /// frame that still holds at both.
    pub proof fn drags_are_admitted_as_they_should(
        controller: &mut Controller,
        stopped: bool,
        request: DragRequest,
        situation: Situation,
        now: u64,
        result: Result<DragEnds, ControllerError>,
    )
        requires
            call_ensures(
                Controller::check_drag,
                (controller, stopped, &request, situation, now),
                result,
            ),
        ensures
            ({
                let before = *old(controller);
                let ready = !stopped && before.xtest && request.button != 0 && 1 <= request.steps
                    <= 100 && request.duration_ms <= 10_000;
                let list = situation.windows->Ok_0;
                let from = before.position_point(request.from, list.windows@, situation.local);
                let to = before.position_point(request.to, list.windows@, situation.local_to);
                &&& result is Ok <==> ready && before.limiter@.admits(
                    request.steps + 3,
                    now as int,
                ) && situation.windows is Ok && from is Ok && to is Ok && before.guard_fault(
                    request.guard,
                    true,
                    seq![from->Ok_0, to->Ok_0],
                    list,
                    situation.fresh_signature,
                ) is None
                &&& result is Ok ==> (result->Ok_0.from.x, result->Ok_0.from.y) == from->Ok_0 && (
                result->Ok_0.to.x, result->Ok_0.to.y) == to->Ok_0
                &&& stopped ==> result->Err_0.code == ErrorCode::EmergencyStop
                &&& !ready ==> *final(controller) == before
                &&& ready ==> final(controller).limiter@ == before.limiter@.after(
                    request.steps + 3,
                    now as int,
                )
            }),
    {
    }

    /// A scroll is admitted exactly where input can be sent, it has one to a
    /// hundred ticks in all, its events are affordable, its place can be used,
    /// and its guard holds there, with a frame where it has a position. It is
    /// charged for two events a tick and one for a movement.
    pub proof fn scrolls_are_admitted_as_they_should(
        controller: &mut Controller,
        stopped: bool,
        request: ScrollRequest,
        situation: Situation,
        now: u64,
        result: Result<PointerTarget, ControllerError>,
    )
        requires
            call_ensures(
                Controller::check_scroll,
                (controller, stopped, &request, situation, now),
                result,
            ),
        ensures
            ({
                let before = *old(controller);
                let columns = if request.dx < 0 {
                    -request.dx
                } else {
                    request.dx as int
                };
                let rows = if request.dy < 0 {
                    -request.dy
                } else {
                    request.dy as int
                };
                let events = 2 * (columns + rows) + (if request.position is Some {
                    1int
                } else {
                    0int
                });
                let ready = !stopped && before.xtest && 1 <= columns + rows <= 100;
                let list = situation.windows->Ok_0;
                let place = before.action_target(
                    request.position,
                    list.windows@,
                    situation.pointer,
                    situation.local,
                );
                let point = seq![(place->Ok_0.x, place->Ok_0.y)];
                &&& result is Ok <==> ready && before.limiter@.admits(events, now as int)
                    && situation.windows is Ok && place is Ok && before.guard_fault(
                    request.guard,
                    request.position is Some,
                    point,
                    list,
                    situation.fresh_signature,
                ) is None
                &&& result is Ok ==> result->Ok_0 == place->Ok_0
                &&& stopped ==> result->Err_0.code == ErrorCode::EmergencyStop
                &&& !ready ==> *final(controller) == before
                &&& ready ==> final(controller).limiter@ == before.limiter@.after(
                    events,
                    now as int,
                )
            }),
    {
    }

    /// A chord or a text is admitted exactly where input can be sent, the
    /// active window is permitted, the guard holds, and the chord has one to 16
    /// keys or the text at most a mebibyte. No frame is needed.
    pub proof fn keyboard_input_is_admitted_as_it_should(
        &self,
        stopped: bool,
        chord: KeyRequest,
        typing: TypeTextRequest,
        situation: Situation,
        pressed: Result<(), ControllerError>,
        typed: Result<(), ControllerError>,
    )
        requires
            call_ensures(Controller::check_key, (self, stopped, &chord, situation), pressed),
            call_ensures(Controller::check_text, (self, stopped, &typing, situation), typed),
        ensures
            ({
                let list = situation.windows->Ok_0;
                let ready = !stopped && self.xtest && situation.windows is Ok && self.focus_fault(
                    list,
                ) is None;
                let holds = |state: StateGuard|
                    self.guard_fault(
                        state,
                        false,
                        Seq::empty(),
                        list,
                        situation.fresh_signature,
                    ) is None;
                &&& pressed is Ok <==> ready && holds(chord.guard) && 1 <= chord.keys@.len() <= 16
                &&& typed is Ok <==> ready && holds(typing.guard) && vstd::utf8::encode_utf8(
                    typing.text@,
                ).len() <= 1_048_576
                &&& stopped ==> pressed->Err_0.code == ErrorCode::EmergencyStop && typed->Err_0.code
                    == ErrorCode::EmergencyStop
            }),
    {
    }

    /// A window is acted on exactly where the stop is not latched, its
    /// reference means a listed window, that window is permitted, and the guard
    /// holds. It is the window that the reference means.
    pub proof fn window_actions_are_admitted_as_they_should(
        &self,
        stopped: bool,
        window_ref: &str,
        state: StateGuard,
        situation: Situation,
        result: Result<WindowInfo, ControllerError>,
    )
        requires
            call_ensures(
                Controller::check_window,
                (self, stopped, window_ref, &state, situation),
                result,
            ),
        ensures
            ({
                let list = situation.windows->Ok_0;
                let meant = windows::window_from(list.windows@, window_ref@, 0);
                &&& result is Ok <==> !stopped && situation.windows is Ok && meant is Some
                    && self.allowlist.permits_class(meant->0.class) && self.guard_fault(
                    state,
                    false,
                    Seq::empty(),
                    list,
                    situation.fresh_signature,
                ) is None
                &&& result is Ok ==> result->Ok_0.window_ref@ == window_ref@
                    && list.windows@.contains(result->Ok_0)
                &&& stopped ==> result->Err_0.code == ErrorCode::EmergencyStop
                &&& !stopped && situation.windows is Ok && meant is None ==> result->Err_0.code
                    == ErrorCode::StaleWindow
                &&& !stopped && situation.windows is Ok && meant is Some
                    && !self.allowlist.permits_class(meant->0.class) ==> result->Err_0.code
                    == ErrorCode::AccessDenied
            }),
    {
        if situation.windows is Ok {
            windows::references_mean_their_window(
                situation.windows->Ok_0.windows@,
                window_ref@,
                0,
            );
        }
    }

    /// An element may be acted on exactly where the allowlist restricts
    /// nothing, or its window is known, listed and permitted.
    pub proof fn elements_are_permitted_by_their_window(
        &self,
        window_ref: Option<String>,
        windows: Vec<WindowInfo>,
        result: Result<(), ControllerError>,
    )
        requires
            call_ensures(Controller::check_element, (self, &window_ref, &windows), result),
        ensures
            !self.allowlist.restricts() ==> result is Ok,
            self.allowlist.restricts() ==> (result is Ok <==> window_ref is Some && (
            match windows::window_from(windows@, window_ref->0@, 0) {
                Some(window) => self.allowlist.permits_class(window.class),
                None => false,
            })),
            self.allowlist.restricts() && window_ref is None ==> result->Err_0.code
                == ErrorCode::AccessDenied,
    {
    }

    /// A guard means the same wherever it is checked: with the history of the
    /// controller, and the generation and the active window of the desktop.
    pub proof fn guards_are_checked_against_the_desktop(
        &self,
        state: StateGuard,
        require_frame: bool,
        points: Seq<(i32, i32)>,
        list: WindowList,
        fresh_signature: Option<u64>,
    )
        ensures
            ({
                let focused = state.expected_active_window is None || (list.active_window is Some
                    && list.active_window->0@ == state.expected_active_window->0@);
                let kept = self.history@.find(state.frame_id->0);
                let current = kept is Some && kept->0.desktop_generation == list.desktop_generation
                    && guard::covers_all(kept->0.bounds, points) && (fresh_signature is Some
                    ==> fresh_signature->0 == kept->0.signature) && (fresh_signature is None
                    ==> kept->0.damage.len() == 0);
                self.guard_fault(state, require_frame, points, list, fresh_signature) is None
                    <==> state.prevalidated || (focused && (if state.frame_id is Some {
                    current
                } else {
                    !require_frame
                }))
            }),
    {
    }

    /// The guard of several actions must hold at every one of their points,
    /// and at the pointer where that counts.
    pub proof fn scopes_cover_every_point(
        &self,
        state: StateGuard,
        require_frame: bool,
        with_pointer: bool,
        positions: Vec<Position>,
        locals: Vec<(i32, i32)>,
        situation: Situation,
        result: Result<(), ControllerError>,
        at: int,
    )
        requires
            call_ensures(
                Controller::check_scope,
                (self, &state, require_frame, with_pointer, &positions, &locals, situation),
                result,
            ),
            result is Ok,
        ensures
            situation.windows is Ok,
            ({
                let list = situation.windows->Ok_0;
                let frame = self.history@.find(state.frame_id->0)->0;
                let covered = |point: (i32, i32)|
                    frame.bounds.x <= point.0 < frame.bounds.x + frame.bounds.width
                        && frame.bounds.y <= point.1 < frame.bounds.y + frame.bounds.height;
                &&& 0 <= at < positions@.len() ==> self.position_point(
                    positions@[at],
                    list.windows@,
                    locals@[at],
                ) is Ok
                &&& with_pointer ==> situation.pointer is Ok
                &&& !state.prevalidated && require_frame ==> state.frame_id is Some
                &&& !state.prevalidated && state.frame_id is Some ==> {
                    &&& self.history@.find(state.frame_id->0) is Some
                    &&& frame.desktop_generation == list.desktop_generation
                    &&& 0 <= at < positions@.len() ==> covered(
                        self.position_point(positions@[at], list.windows@, locals@[at])->Ok_0,
                    )
                    &&& with_pointer ==> covered(
                        (situation.pointer->Ok_0.x, situation.pointer->Ok_0.y),
                    )
                }
            }),
    {
        let list = situation.windows->Ok_0;
        self.lemma_position_points(positions@, list.windows@, locals@, at);
        let points = self.scope_points(
            positions@,
            locals@,
            with_pointer,
            list,
            situation.pointer,
        )->Ok_0;
        if 0 <= at < positions@.len() {
            assert(points[at] == self.position_point(
                positions@[at],
                list.windows@,
                locals@[at],
            )->Ok_0);
        }
        if with_pointer {
            assert(points[points.len() - 1] == (
                situation.pointer->Ok_0.x,
                situation.pointer->Ok_0.y,
            ));
        }
    }

    /// The points of positions are those of each.
    proof fn lemma_position_points(
        &self,
        positions: Seq<Position>,
        windows: Seq<WindowInfo>,
        locals: Seq<(i32, i32)>,
        at: int,
    )
        ensures
            self.position_points(positions, windows, locals) matches Ok(points) ==> {
                &&& points.len() == positions.len()
                &&& 0 <= at < positions.len() ==> self.position_point(
                    positions[at],
                    windows,
                    locals[at],
                ) == Ok::<(i32, i32), Fault>(points[at])
            },
        decreases positions.len(),
    {
        if positions.len() > 0 {
            self.lemma_position_points(positions.drop_last(), windows, locals, at);
        }
    }

    /// Input can be sent exactly where the stop is not latched and the display
    /// can take synthetic input; a latched stop refuses every mutation.
    pub proof fn input_needs_the_display_and_no_stop(
        &self,
        stopped: bool,
        sent: Result<(), ControllerError>,
        allowed: Result<(), ControllerError>,
    )
        requires
            call_ensures(Controller::ensure_xtest, (self, stopped), sent),
            call_ensures(ensure_mutation_allowed, (stopped,), allowed),
        ensures
            allowed is Ok <==> !stopped,
            sent is Ok <==> !stopped && self.xtest,
            stopped ==> allowed->Err_0.code == ErrorCode::EmergencyStop && sent->Err_0.code
                == ErrorCode::EmergencyStop && !allowed->Err_0.retryable && !sent->Err_0.retryable,
            !stopped && !self.xtest ==> sent->Err_0.code == ErrorCode::UnsupportedCapability,
    {
    }
}

} // verus!
