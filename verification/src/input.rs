//! The input that an action sends, step by step.

use vstd::prelude::*;

use crate::controller;
use crate::controller::{Controller, DragEnds, HeldInput, PointerTarget};
use crate::error;
use crate::error::{fault, ControllerError, ErrorCode, Fault};
use crate::keyboard;
use crate::keyboard::{push_unique, KeyEvent, KeyStroke, KeyboardMap};
use crate::text;
use crate::types::{
    ClickRequest, DragRequest, Geometry, KeyMode, KeyRequest, ScrollRequest, TextMethod,
    TypeTextRequest, WindowAction,
};
use crate::windows::has_value;

verus! {

/// One step of an action: an input event to send, a pause, or a change of
/// what is held down until it is released.
#[derive(Debug, Clone, Copy, PartialEq, Eq, Structural)]
pub enum InputStep {
    Motion { x: i16, y: i16 },
    Button { button: u8, pressed: bool },
    Key { keycode: u8, pressed: bool },
    Pause { ms: u64 },
    HoldKey { keycode: u8 },
    DropKey { keycode: u8 },
    HoldButton { button: u8 },
    DropButton { button: u8 },
}

/// The steps of an action, and why it fails after them, if so.
#[derive(Debug)]
pub struct InputPlan {
    pub steps: Vec<InputStep>,
    pub failure: Option<ControllerError>,
}

/// What an input plan says.
pub struct Planned {
    pub steps: Seq<InputStep>,
    pub failure: Option<Fault>,
}

/// Whether a plan is the one that a specification names.
pub open spec fn is_plan(plan: InputPlan, expected: Planned) -> bool {
    &&& plan.steps@ == expected.steps
    &&& match (plan.failure, expected.failure) {
        (None, None) => true,
        (Some(e), Some(f)) => error::is_fault(e, f),
        _ => false,
    }
}

/// Whether a result is a plan that was paid for, or the refusal to pay.
pub open spec fn paid_plan(
    result: Result<InputPlan, ControllerError>,
    before: Controller,
    count: int,
    now: u64,
    expected: Planned,
) -> bool {
    match result {
        Ok(plan) => controller::affordable(before, count, now) && is_plan(plan, expected),
        Err(e) => {
            &&& !controller::affordable(before, count, now)
            &&& controller::too_many(e, before, count)
        },
    }
}

/// The step that moves the pointer, or why it cannot be moved there.
pub open spec fn motion(x: i32, y: i32) -> Result<InputStep, Fault> {
    if !(-32768 <= x <= 32767) {
        Err(fault(ErrorCode::InvalidInput, "pointer x coordinate is out of range"@))
    } else if !(-32768 <= y <= 32767) {
        Err(fault(ErrorCode::InvalidInput, "pointer y coordinate is out of range"@))
    } else {
        Ok(InputStep::Motion { x: x as i16, y: y as i16 })
    }
}

/// The step that moves the pointer.
pub fn move_to(x: i32, y: i32) -> (result: Result<InputStep, ControllerError>)
    ensures
        error::faulty_result(result, motion(x, y)),
{
    if x < -32768 || x > 32767 {
        return Err(
            ControllerError::new(ErrorCode::InvalidInput, "pointer x coordinate is out of range"),
        );
    }
    if y < -32768 || y > 32767 {
        return Err(
            ControllerError::new(ErrorCode::InvalidInput, "pointer y coordinate is out of range"),
        );
    }
    Ok(InputStep::Motion { x: x as i16, y: y as i16 })
}

/// A button that is pressed and released.
pub open spec fn press(button: u8) -> Seq<InputStep> {
    seq![
        InputStep::Button { button, pressed: true },
        InputStep::Button { button, pressed: false },
    ]
}

/// A number of clicks, with a pause between two.
pub open spec fn clicks(button: u8, count: int) -> Seq<InputStep>
    decreases count,
{
    if count <= 0 {
        Seq::empty()
    } else if count == 1 {
        press(button)
    } else {
        clicks(button, count - 1).push(InputStep::Pause { ms: 50 }) + press(button)
    }
}

/// A number of scroll ticks.
pub open spec fn ticks(button: u8, count: int) -> Seq<InputStep>
    decreases count,
{
    if count <= 0 {
        Seq::empty()
    } else {
        ticks(button, count - 1) + press(button)
    }
}

/// The ticks along one axis.
pub open spec fn axis(amount: i32, negative: u8, positive: u8) -> Seq<InputStep> {
    if amount < 0 {
        ticks(negative, -amount)
    } else {
        ticks(positive, amount as int)
    }
}

/// The ticks of a scroll: up or down first, then left or right.
pub open spec fn scroll_steps(dx: i32, dy: i32) -> Seq<InputStep> {
    axis(dy, 4, 5) + axis(dx, 6, 7)
}

/// Steps at a target: after a movement, where the pointer moves.
pub open spec fn at_target(target: PointerTarget, steps: Seq<InputStep>) -> Planned {
    if target.moves {
        match motion(target.x, target.y) {
            Err(f) => Planned { steps: Seq::empty(), failure: Some(f) },
            Ok(step) => Planned { steps: seq![step] + steps, failure: None },
        }
    } else {
        Planned { steps, failure: None }
    }
}

/// The steps along the path of a drag, up to a point that cannot be reached.
pub open spec fn path_plan(path: Seq<(i32, i32)>, pause: u64) -> Planned
    decreases path.len(),
{
    if path.len() == 0 {
        Planned { steps: Seq::empty(), failure: None }
    } else {
        let before = path_plan(path.drop_last(), pause);
        if before.failure is Some {
            before
        } else {
            match motion(path.last().0, path.last().1) {
                Err(f) => Planned { steps: before.steps, failure: Some(f) },
                Ok(step) => Planned {
                    steps: if pause > 0 {
                        before.steps.push(step).push(InputStep::Pause { ms: pause })
                    } else {
                        before.steps.push(step)
                    },
                    failure: None,
                },
            }
        }
    }
}

/// A drag: the button is held from the start of the path to its end.
pub open spec fn drag_plan(
    button: u8,
    from: PointerTarget,
    path: Seq<(i32, i32)>,
    pause: u64,
) -> Planned {
    match motion(from.x, from.y) {
        Err(f) => Planned { steps: Seq::empty(), failure: Some(f) },
        Ok(step) => {
            let start = seq![
                step,
                InputStep::Button { button, pressed: true },
                InputStep::HoldButton { button },
            ];
            let way = path_plan(path, pause);
            if way.failure is Some {
                Planned { steps: start + way.steps, failure: way.failure }
            } else {
                Planned {
                    steps: (start + way.steps).push(
                        InputStep::Button { button, pressed: false },
                    ).push(InputStep::DropButton { button }),
                    failure: None,
                }
            }
        },
    }
}

/// The steps of key events.
pub open spec fn key_steps(events: Seq<KeyEvent>) -> Seq<InputStep> {
    events.map_values(
        |event: KeyEvent| InputStep::Key { keycode: event.keycode, pressed: event.pressed },
    )
}

/// The keys of a chord that are not held yet go down and are held.
pub open spec fn down_steps(held: Seq<u8>, codes: Seq<u8>) -> Seq<InputStep>
    decreases codes.len(),
{
    if codes.len() == 0 {
        Seq::empty()
    } else {
        let before = down_steps(held, codes.drop_last());
        if held.contains(codes.last()) {
            before
        } else {
            before.push(InputStep::HoldKey { keycode: codes.last() }).push(
                InputStep::Key { keycode: codes.last(), pressed: true },
            )
        }
    }
}

/// The keys of a chord go up in reverse order and are no longer held.
pub open spec fn up_steps(codes: Seq<u8>) -> Seq<InputStep>
    decreases codes.len(),
{
    if codes.len() == 0 {
        Seq::empty()
    } else {
        seq![
            InputStep::Key { keycode: codes.last(), pressed: false },
            InputStep::DropKey { keycode: codes.last() },
        ] + up_steps(codes.drop_last())
    }
}

/// The steps of a chord.
pub open spec fn chord_steps(held: Seq<u8>, codes: Seq<u8>, mode: KeyMode) -> Seq<InputStep> {
    match mode {
        KeyMode::Press => key_steps(keyboard::tap(codes)),
        KeyMode::Down => down_steps(held, codes),
        KeyMode::Up => up_steps(codes),
    }
}

/// The nearest unsigned 32-bit number.
pub open spec fn capped(n: int) -> int {
    if n > u32::MAX {
        u32::MAX as int
    } else {
        n
    }
}

/// How many events a chord is charged for.
pub open spec fn chord_events(codes: Seq<u8>, mode: KeyMode) -> int {
    match mode {
        KeyMode::Press => capped(codes.len() as int * 2),
        _ => capped(codes.len() as int),
    }
}

/// The number of keys, or twice that, as a number of events.
fn events_of(keys: usize, twice: bool) -> (count: u32)
    ensures
        count == capped(if twice {
            keys * 2
        } else {
            keys as int
        }),
{
    let wide: u128 = if twice {
        keys as u128 * 2
    } else {
        keys as u128
    };
    if wide > u32::MAX as u128 {
        u32::MAX
    } else {
        wide as u32
    }
}

/// Adds a pressed and released button to some steps.
fn push_press(steps: &mut Vec<InputStep>, button: u8)
    ensures
        final(steps)@ == old(steps)@ + press(button),
{
    steps.push(InputStep::Button { button, pressed: true });
    steps.push(InputStep::Button { button, pressed: false });
    assert(steps@ =~= old(steps)@ + press(button));
}

/// Adds ticks along one axis to some steps.
fn push_axis(steps: &mut Vec<InputStep>, amount: i32, negative: u8, positive: u8)
    requires
        -100 <= amount <= 100,
    ensures
        final(steps)@ == old(steps)@ + axis(amount, negative, positive),
{
    let button: u8 = if amount < 0 {
        negative
    } else {
        positive
    };
    let count: i32 = if amount < 0 {
        -amount
    } else {
        amount
    };
    let mut done: i32 = 0;
    assert(old(steps)@ =~= old(steps)@ + ticks(button, 0));
    while done < count
        invariant
            0 <= done <= count,
            steps@ == old(steps)@ + ticks(button, done as int),
        decreases count - done,
    {
        push_press(steps, button);
        assert(steps@ =~= old(steps)@ + ticks(button, done + 1));
        done += 1;
    }
}

/// Adds the keys of a chord to some steps, pressed and released.
fn push_tap(steps: &mut Vec<InputStep>, codes: &Vec<u8>)
    ensures
        final(steps)@ == old(steps)@ + key_steps(keyboard::tap(codes@)),
{
    let ghost all = old(steps)@ + key_steps(keyboard::tap(codes@));
    let ghost start = old(steps)@.len();
    let mut at: usize = 0;
    while at < codes.len()
        invariant
            at <= codes.len(),
            start == old(steps)@.len(),
            all == old(steps)@ + key_steps(keyboard::tap(codes@)),
            steps@ == all.take(start + at),
        decreases codes.len() - at,
    {
        steps.push(InputStep::Key { keycode: codes[at], pressed: true });
        assert(steps@ =~= all.take(start + at + 1));
        at += 1;
    }
    let mut left: usize = codes.len();
    while left > 0
        invariant
            left <= codes.len(),
            start == old(steps)@.len(),
            all == old(steps)@ + key_steps(keyboard::tap(codes@)),
            steps@ == all.take(start + codes.len() + (codes.len() - left)),
        decreases left,
    {
        steps.push(InputStep::Key { keycode: codes[left - 1], pressed: false });
        assert(steps@ =~= all.take(start + codes.len() + (codes.len() - left) + 1));
        left -= 1;
    }
    assert(steps@ =~= all);
}

/// Plans a checked pointer movement.
pub fn plan_move(target: PointerTarget) -> (plan: InputPlan)
    ensures
        is_plan(plan, at_target((PointerTarget { moves: true, ..target }), Seq::empty())),
{
    match move_to(target.x, target.y) {
        Err(e) => InputPlan { steps: Vec::new(), failure: Some(e) },
        Ok(step) => {
            let steps = vec![step];
            assert(steps@ =~= seq![step] + Seq::empty());
            InputPlan { steps, failure: None }
        },
    }
}

/// Plans a checked click.
pub fn plan_click(request: &ClickRequest, target: PointerTarget) -> (plan: InputPlan)
    ensures
        is_plan(plan, at_target(target, clicks(request.button, request.count as int))),
{
    let mut steps: Vec<InputStep> = Vec::new();
    if target.moves {
        match move_to(target.x, target.y) {
            Err(e) => {
                return InputPlan { steps, failure: Some(e) };
            },
            Ok(step) => {
                steps.push(step);
            },
        }
    }
    let ghost start = steps@;
    let mut done: u8 = 0;
    assert(start =~= start + clicks(request.button, 0));
    while done < request.count
        invariant
            done <= request.count,
            steps@ == start + clicks(request.button, done as int),
        decreases request.count - done,
    {
        if done > 0 {
            steps.push(InputStep::Pause { ms: 50 });
        }
        push_press(&mut steps, request.button);
        assert(steps@ =~= start + clicks(request.button, done + 1));
        done += 1;
    }
    proof {
        let all = clicks(request.button, request.count as int);
        if target.moves {
            assert(start =~= seq![motion(target.x, target.y)->Ok_0]);
        } else {
            assert(steps@ =~= all);
        }
    }
    InputPlan { steps, failure: None }
}

/// Plans a checked scroll.
pub fn plan_scroll(request: &ScrollRequest, target: PointerTarget) -> (plan: InputPlan)
    requires
        Controller::scroll_ticks(*request) <= 100,
    ensures
        is_plan(plan, at_target(target, axis(request.dy, 4, 5) + axis(request.dx, 6, 7))),
{
    let mut steps: Vec<InputStep> = Vec::new();
    if target.moves {
        match move_to(target.x, target.y) {
            Err(e) => {
                return InputPlan { steps, failure: Some(e) };
            },
            Ok(step) => {
                steps.push(step);
            },
        }
    }
    let ghost start = steps@;
    push_axis(&mut steps, request.dy, 4, 5);
    push_axis(&mut steps, request.dx, 6, 7);
    proof {
        let all = axis(request.dy, 4, 5) + axis(request.dx, 6, 7);
        assert(steps@ =~= start + all);
        if target.moves {
            assert(start =~= seq![motion(target.x, target.y)->Ok_0]);
        } else {
            assert(steps@ =~= all);
        }
    }
    InputPlan { steps, failure: None }
}

/// Plans a checked drag along a path with one point for each of its steps.
pub fn plan_drag(request: &DragRequest, ends: DragEnds, path: &Vec<(i32, i32)>) -> (plan: InputPlan)
    requires
        request.steps > 0,
    ensures
        is_plan(
            plan,
            drag_plan(
                request.button,
                ends.from,
                path@,
                request.duration_ms / request.steps as u64,
            ),
        ),
{
    let button: u8 = request.button;
    let pause: u64 = request.duration_ms / request.steps as u64;
    let mut steps: Vec<InputStep> = Vec::new();
    match move_to(ends.from.x, ends.from.y) {
        Err(e) => {
            return InputPlan { steps, failure: Some(e) };
        },
        Ok(step) => {
            steps.push(step);
        },
    }
    steps.push(InputStep::Button { button, pressed: true });
    steps.push(InputStep::HoldButton { button });
    let ghost start = steps@;
    assert(start =~= seq![
        motion(ends.from.x, ends.from.y)->Ok_0,
        InputStep::Button { button, pressed: true },
        InputStep::HoldButton { button },
    ]);
    if let Some(e) = push_path(&mut steps, path, pause) {
        return InputPlan { steps, failure: Some(e) };
    }
    steps.push(InputStep::Button { button, pressed: false });
    steps.push(InputStep::DropButton { button });
    InputPlan { steps, failure: None }
}

impl Controller {
    /// Plans a checked key chord.
    pub fn plan_key(&mut self, request: &KeyRequest, map: &KeyboardMap, now: u64) -> (result: Result<
        InputPlan,
        ControllerError,
    >)
        requires
            old(self).well_formed(),
        ensures
            final(self).well_formed(),
            match map.chord(text::texts(request.keys@)) {
                Err((code, message)) => *final(self) == *old(self) && result is Err
                    && error::final_error(result->Err_0, code, message),
                Ok(codes) => controller::paid(
                    *old(self),
                    *final(self),
                    chord_events(codes, request.mode),
                    now,
                ) && paid_plan(
                    result,
                    *old(self),
                    chord_events(codes, request.mode),
                    now,
                    (Planned {
                        steps: chord_steps(old(self).held.keys@, codes, request.mode),
                        failure: None,
                    }),
                ),
            },
    {
        let codes = match map.chord_keycodes(&request.keys) {
            Ok(codes) => codes,
            Err(e) => {
                return Err(e);
            },
        };
        let twice: bool = match request.mode {
            KeyMode::Press => true,
            _ => false,
        };
        match self.spend(events_of(codes.len(), twice), now) {
            Ok(()) => {},
            Err(e) => {
                return Err(e);
            },
        }
        let mut steps: Vec<InputStep> = Vec::new();
        match request.mode {
            KeyMode::Press => {
                push_tap(&mut steps, &codes);
                assert(steps@ =~= key_steps(keyboard::tap(codes@)));
            },
            KeyMode::Down => {
                let mut at: usize = 0;
                while at < codes.len()
                    invariant
                        at <= codes.len(),
                        steps@ == down_steps(self.held.keys@, codes@.take(at as int)),
                    decreases codes.len() - at,
                {
                    assert(codes@.take(at + 1).drop_last() =~= codes@.take(at as int));
                    if !has_key(&self.held.keys, codes[at]) {
                        steps.push(InputStep::HoldKey { keycode: codes[at] });
                        steps.push(InputStep::Key { keycode: codes[at], pressed: true });
                    }
                    at += 1;
                }
                assert(codes@.take(codes@.len() as int) =~= codes@);
            },
            KeyMode::Up => {
                let mut left: usize = codes.len();
                assert(codes@.take(codes@.len() as int) =~= codes@);
                assert(up_steps(codes@) =~= steps@ + up_steps(codes@.take(left as int)));
                while left > 0
                    invariant
                        left <= codes.len(),
                        up_steps(codes@) == steps@ + up_steps(codes@.take(left as int)),
                    decreases left,
                {
                    let ghost before = steps@;
                    assert(codes@.take(left as int).drop_last() =~= codes@.take(left - 1));
                    steps.push(InputStep::Key { keycode: codes[left - 1], pressed: false });
                    steps.push(InputStep::DropKey { keycode: codes[left - 1] });
                    assert(before + up_steps(codes@.take(left as int)) =~= steps@ + up_steps(
                        codes@.take(left - 1),
                    ));
                    left -= 1;
                }
                assert(steps@ =~= up_steps(codes@));
            },
        }
        Ok(InputPlan { steps, failure: None })
    }

    /// Plans the chord that pastes.
    pub fn plan_paste(&mut self, chord: &Vec<String>, map: &KeyboardMap, now: u64) -> (result: Result<
        InputPlan,
        ControllerError,
    >)
        requires
            old(self).well_formed(),
        ensures
            final(self).well_formed(),
            match map.chord(text::texts(chord@)) {
                Err((code, message)) => *final(self) == *old(self) && result is Err
                    && error::final_error(result->Err_0, code, message),
                Ok(codes) => controller::paid(
                    *old(self),
                    *final(self),
                    chord_events(codes, KeyMode::Press),
                    now,
                ) && paid_plan(
                    result,
                    *old(self),
                    chord_events(codes, KeyMode::Press),
                    now,
                    (Planned { steps: key_steps(keyboard::tap(codes)), failure: None }),
                ),
            },
    {
        let codes = match map.chord_keycodes(chord) {
            Ok(codes) => codes,
            Err(e) => {
                return Err(e);
            },
        };
        match self.spend(events_of(codes.len(), true), now) {
            Ok(()) => {},
            Err(e) => {
                return Err(e);
            },
        }
        let mut steps: Vec<InputStep> = Vec::new();
        push_tap(&mut steps, &codes);
        assert(steps@ =~= key_steps(keyboard::tap(codes@)));
        Ok(InputPlan { steps, failure: None })
    }
}

/// A path fails where a part at its start fails, and after the same steps.
proof fn lemma_path_fails(path: Seq<(i32, i32)>, pause: u64, end: int)
    requires
        0 <= end <= path.len(),
        path_plan(path.take(end), pause).failure is Some,
    ensures
        path_plan(path, pause) == path_plan(path.take(end), pause),
    decreases path.len() - end,
{
    if end == path.len() {
        assert(path.take(end) =~= path);
    } else {
        assert(path.take(end + 1).drop_last() =~= path.take(end));
        lemma_path_fails(path, pause, end + 1);
    }
}

/// Adds the steps along a path to some steps, up to a point that cannot be reached.
fn push_path(steps: &mut Vec<InputStep>, path: &Vec<(i32, i32)>, pause: u64) -> (failure: Option<
    ControllerError,
>)
    ensures
        final(steps)@ == old(steps)@ + path_plan(path@, pause).steps,
        match (failure, path_plan(path@, pause).failure) {
            (None, None) => true,
            (Some(e), Some(f)) => error::is_fault(e, f),
            _ => false,
        },
{
    let ghost start = old(steps)@;
    let mut at: usize = 0;
    assert(start =~= start + path_plan(path@.take(0), pause).steps);
    while at < path.len()
        invariant
            at <= path.len(),
            start == old(steps)@,
            path_plan(path@.take(at as int), pause).failure is None,
            steps@ == start + path_plan(path@.take(at as int), pause).steps,
        decreases path.len() - at,
    {
        let point = path[at];
        assert(path@.take(at + 1).drop_last() =~= path@.take(at as int));
        assert(path@.take(at + 1).last() == point);
        match move_to(point.0, point.1) {
            Err(e) => {
                proof {
                    lemma_path_fails(path@, pause, at + 1);
                }
                return Some(e);
            },
            Ok(step) => {
                steps.push(step);
                if pause > 0 {
                    steps.push(InputStep::Pause { ms: pause });
                }
                assert(steps@ =~= start + path_plan(path@.take(at + 1), pause).steps);
            },
        }
        at += 1;
    }
    assert(path@.take(path@.len() as int) =~= path@);
    None
}

/// Whether a list holds a keycode.
fn has_key(list: &Vec<u8>, value: u8) -> (found: bool)
    ensures
        found == list@.contains(value),
{
    let mut at: usize = 0;
    while at < list.len()
        invariant
            at <= list.len(),
            forall|i: int| 0 <= i < at ==> list@[i] != value,
        decreases list.len() - at,
    {
        if list[at] == value {
            assert(list@[at as int] == value);
            return true;
        }
        at += 1;
    }
    false
}

/// The steps of one stroke within its modifiers, or why they cannot be given.
pub open spec fn stroke_steps(map: KeyboardMap, stroke: KeyStroke) -> Result<
    Seq<InputStep>,
    Fault,
> {
    if stroke.mode_switch && map.mode_switch_key() is Err {
        Err(fault((map.mode_switch_key()->Err_0).0, (map.mode_switch_key()->Err_0).1))
    } else if stroke.shift && map.shift_key() is Err {
        Err(fault((map.shift_key()->Err_0).0, (map.shift_key()->Err_0).1))
    } else {
        let mode = if stroke.mode_switch {
            seq![map.mode_switch_key()->Ok_0]
        } else {
            Seq::empty()
        };
        let modifiers = if stroke.shift {
            mode.push(map.shift_key()->Ok_0)
        } else {
            mode
        };
        Ok(key_steps(keyboard::tap(modifiers.push(stroke.keycode))))
    }
}

/// The steps of some strokes, up to one that cannot be given.
pub open spec fn typed(map: KeyboardMap, strokes: Seq<KeyStroke>) -> Planned
    decreases strokes.len(),
{
    if strokes.len() == 0 {
        Planned { steps: Seq::empty(), failure: None }
    } else {
        let before = typed(map, strokes.drop_last());
        if before.failure is Some {
            before
        } else {
            match stroke_steps(map, strokes.last()) {
                Err(f) => Planned { steps: before.steps, failure: Some(f) },
                Ok(steps) => Planned { steps: before.steps + steps, failure: None },
            }
        }
    }
}

/// How many events some strokes are charged for.
pub open spec fn stroke_events(strokes: Seq<KeyStroke>) -> int
    decreases strokes.len(),
{
    if strokes.len() == 0 {
        0
    } else {
        stroke_events(strokes.drop_last()) + 2 + (if strokes.last().shift {
            2int
        } else {
            0int
        }) + (if strokes.last().mode_switch {
            2int
        } else {
            0int
        })
    }
}

/// Strokes that fail do so where a part at their start fails, after the same steps.
proof fn lemma_typed_fails(map: KeyboardMap, strokes: Seq<KeyStroke>, end: int)
    requires
        0 <= end <= strokes.len(),
        typed(map, strokes.take(end)).failure is Some,
    ensures
        typed(map, strokes) == typed(map, strokes.take(end)),
    decreases strokes.len() - end,
{
    if end == strokes.len() {
        assert(strokes.take(end) =~= strokes);
    } else {
        assert(strokes.take(end + 1).drop_last() =~= strokes.take(end));
        lemma_typed_fails(map, strokes, end + 1);
    }
}

/// Adds the steps of one stroke to some steps.
fn push_stroke(steps: &mut Vec<InputStep>, map: &KeyboardMap, stroke: KeyStroke) -> (failure: Option<
    ControllerError,
>)
    ensures
        match (failure, stroke_steps(*map, stroke)) {
            (None, Ok(added)) => final(steps)@ == old(steps)@ + added,
            (Some(e), Err(f)) => error::is_fault(e, f) && final(steps)@ == old(steps)@,
            _ => false,
        },
{
    let mut codes: Vec<u8> = Vec::new();
    if stroke.mode_switch {
        match map.mode_switch_keycode() {
            Ok(keycode) => {
                codes.push(keycode);
            },
            Err(e) => {
                return Some(e);
            },
        }
    }
    assert(codes@ =~= (if stroke.mode_switch {
        seq![map.mode_switch_key()->Ok_0]
    } else {
        Seq::empty()
    }));
    if stroke.shift {
        match map.shift_keycode() {
            Ok(keycode) => {
                codes.push(keycode);
            },
            Err(e) => {
                return Some(e);
            },
        }
    }
    codes.push(stroke.keycode);
    push_tap(steps, &codes);
    None
}

/// How a text is to be typed.
#[derive(Debug)]
pub enum TextPlan {
    /// By these key events.
    Type(InputPlan),
    /// By the clipboard.
    Paste,
}

/// Whether a text goes through the clipboard.
pub open spec fn pastes(request: TypeTextRequest, map: KeyboardMap) -> bool {
    match request.method {
        TextMethod::Auto => map.strokes(request.text@) is None,
        TextMethod::Keystrokes => false,
        TextMethod::Clipboard => true,
    }
}

impl Controller {
    /// Plans how a checked text is typed.
    pub fn plan_text(&mut self, request: &TypeTextRequest, map: &KeyboardMap, now: u64) -> (result:
        Result<TextPlan, ControllerError>)
        requires
            old(self).well_formed(),
            request.text@.len() <= 1_048_576,
        ensures
            final(self).well_formed(),
            if pastes(*request, *map) {
                *final(self) == *old(self) && result == Ok::<TextPlan, ControllerError>(
                    TextPlan::Paste,
                )
            } else {
                match map.strokes(request.text@) {
                    None => *final(self) == *old(self) && result is Err && error::final_error(
                        result->Err_0,
                        ErrorCode::UnsupportedCapability,
                        "text contains characters unavailable in the active keyboard map"@,
                    ),
                    Some(strokes) => {
                        let count = stroke_events(strokes);
                        &&& controller::paid(*old(self), *final(self), count, now)
                        &&& match result {
                            Ok(TextPlan::Type(plan)) => controller::affordable(*old(self), count, now)
                                && is_plan(plan, typed(*map, strokes)),
                            Ok(TextPlan::Paste) => false,
                            Err(e) => !controller::affordable(*old(self), count, now) && controller::too_many(
                                e,
                                *old(self),
                                count,
                            ),
                        }
                    },
                }
            },
    {
        let strokes = map.text_strokes(request.text.as_str());
        let use_clipboard: bool = match request.method {
            TextMethod::Auto => strokes.is_none(),
            TextMethod::Keystrokes => false,
            TextMethod::Clipboard => true,
        };
        if use_clipboard {
            return Ok(TextPlan::Paste);
        }
        let strokes = match strokes {
            Some(strokes) => strokes,
            None => {
                return Err(
                    ControllerError::new(
                        ErrorCode::UnsupportedCapability,
                        "text contains characters unavailable in the active keyboard map",
                    ),
                );
            },
        };
        proof {
            lemma_strokes_len(*map, request.text@);
        }
        let count = count_events(&strokes);
        match self.spend(count, now) {
            Ok(()) => {},
            Err(e) => {
                return Err(e);
            },
        }
        let plan = type_strokes(map, &strokes);
        Ok(TextPlan::Type(plan))
    }
}

/// A text has as many strokes as characters.
proof fn lemma_strokes_len(map: KeyboardMap, text: Seq<char>)
    ensures
        map.strokes(text) matches Some(strokes) ==> strokes.len() == text.len(),
    decreases text.len(),
{
    if text.len() > 0 {
        lemma_strokes_len(map, text.drop_last());
    }
}

/// How many events some strokes are charged for.
fn count_events(strokes: &Vec<KeyStroke>) -> (count: u32)
    requires
        strokes@.len() <= 1_048_576,
    ensures
        count == stroke_events(strokes@),
{
    let mut count: u32 = 0;
    let mut at: usize = 0;
    while at < strokes.len()
        invariant
            at <= strokes.len() <= 1_048_576,
            count == stroke_events(strokes@.take(at as int)),
            count <= at * 6,
        decreases strokes.len() - at,
    {
        assert(strokes@.take(at + 1).drop_last() =~= strokes@.take(at as int));
        let stroke = strokes[at];
        count = count + 2;
        if stroke.shift {
            count = count + 2;
        }
        if stroke.mode_switch {
            count = count + 2;
        }
        at += 1;
    }
    assert(strokes@.take(strokes@.len() as int) =~= strokes@);
    count
}

/// The steps of some strokes.
fn type_strokes(map: &KeyboardMap, strokes: &Vec<KeyStroke>) -> (plan: InputPlan)
    ensures
        is_plan(plan, typed(*map, strokes@)),
{
    let mut steps: Vec<InputStep> = Vec::new();
    let mut at: usize = 0;
    while at < strokes.len()
        invariant
            at <= strokes.len(),
            typed(*map, strokes@.take(at as int)).failure is None,
            steps@ == typed(*map, strokes@.take(at as int)).steps,
        decreases strokes.len() - at,
    {
        assert(strokes@.take(at + 1).drop_last() =~= strokes@.take(at as int));
        assert(strokes@.take(at + 1).last() == strokes@[at as int]);
        if let Some(e) = push_stroke(&mut steps, map, strokes[at]) {
            proof {
                lemma_typed_fails(*map, strokes@, at + 1);
            }
            return InputPlan { steps, failure: Some(e) };
        }
        at += 1;
    }
    assert(strokes@.take(strokes@.len() as int) =~= strokes@);
    InputPlan { steps, failure: None }
}

/// The place of a value in a list, from a place on.
pub open spec fn place_from(values: Seq<u8>, value: u8, from: int) -> Option<int>
    decreases values.len() - from,
{
    if from >= values.len() {
        None
    } else if values[from] == value {
        Some(from)
    } else {
        place_from(values, value, from + 1)
    }
}

/// A list without a value.
pub open spec fn without(values: Seq<u8>, value: u8) -> Seq<u8> {
    match place_from(values, value, 0) {
        Some(at) => values.remove(at),
        None => values,
    }
}

/// Takes a value out of a list.
fn take_out(values: &mut Vec<u8>, value: u8)
    ensures
        final(values)@ == without(old(values)@, value),
{
    let mut at: usize = 0;
    while at < values.len()
        invariant
            at <= values.len(),
            *values == *old(values),
            place_from(values@, value, 0) == place_from(values@, value, at as int),
        decreases values.len() - at,
    {
        if values[at] == value {
            let _ = values.remove(at);
            return;
        }
        at += 1;
    }
}

/// The keys and buttons that are held, each as a list.
pub struct Held {
    pub keys: Seq<u8>,
    pub buttons: Seq<u8>,
}

impl Held {
    /// What is held after a step.
    pub open spec fn after(self, step: InputStep) -> Held {
        match step {
            InputStep::HoldKey { keycode } => Held {
                keys: keyboard::with_unique(self.keys, keycode),
                ..self
            },
            InputStep::DropKey { keycode } => Held { keys: without(self.keys, keycode), ..self },
            InputStep::HoldButton { button } => Held {
                buttons: keyboard::with_unique(self.buttons, button),
                ..self
            },
            InputStep::DropButton { button } => Held {
                buttons: without(self.buttons, button),
                ..self
            },
            _ => self,
        }
    }

    /// What is held after some steps.
    pub open spec fn after_all(self, steps: Seq<InputStep>) -> Held
        decreases steps.len(),
    {
        if steps.len() == 0 {
            self
        } else {
            self.after_all(steps.drop_last()).after(steps.last())
        }
    }

    /// The steps that release everything: keys first.
    pub open spec fn release_steps(self) -> Seq<InputStep> {
        self.keys.map_values(|keycode: u8| InputStep::Key { keycode, pressed: false })
            + self.buttons.map_values(|button: u8| InputStep::Button { button, pressed: false })
    }
}

impl View for HeldInput {
    type V = Held;

    open spec fn view(&self) -> Held {
        Held { keys: self.keys@, buttons: self.buttons@ }
    }
}

impl HeldInput {
    /// Nothing is held.
    pub fn new() -> (held: Self)
        ensures
            held.keys@.len() == 0,
            held.buttons@.len() == 0,
    {
        HeldInput { keys: Vec::new(), buttons: Vec::new() }
    }

    /// Notes that a step was taken.
    pub fn note(&mut self, step: InputStep)
        ensures
            final(self)@ == old(self)@.after(step),
    {
        match step {
            InputStep::HoldKey { keycode } => push_unique(&mut self.keys, keycode),
            InputStep::DropKey { keycode } => take_out(&mut self.keys, keycode),
            InputStep::HoldButton { button } => push_unique(&mut self.buttons, button),
            InputStep::DropButton { button } => take_out(&mut self.buttons, button),
            _ => {},
        }
    }

    /// The steps that release everything that is held. Nothing is held afterwards.
    pub fn release(&mut self) -> (steps: Vec<InputStep>)
        ensures
            steps@ == old(self)@.release_steps(),
            final(self).keys@.len() == 0,
            final(self).buttons@.len() == 0,
    {
        let ghost all = self@.release_steps();
        let mut steps: Vec<InputStep> = Vec::new();
        let mut at: usize = 0;
        while at < self.keys.len()
            invariant
                at <= self.keys.len(),
                *self == *old(self),
                all == self@.release_steps(),
                steps@ == all.take(at as int),
            decreases self.keys.len() - at,
        {
            steps.push(InputStep::Key { keycode: self.keys[at], pressed: false });
            assert(steps@ =~= all.take(at + 1));
            at += 1;
        }
        let keys: usize = self.keys.len();
        let mut at: usize = 0;
        while at < self.buttons.len()
            invariant
                at <= self.buttons.len(),
                *self == *old(self),
                keys == self.keys@.len(),
                all == self@.release_steps(),
                steps@ == all.take(keys + at),
            decreases self.buttons.len() - at,
        {
            steps.push(InputStep::Button { button: self.buttons[at], pressed: false });
            assert(steps@ =~= all.take(keys + at + 1));
            at += 1;
        }
        assert(steps@ =~= all);
        self.keys = Vec::new();
        self.buttons = Vec::new();
        steps
    }
}

impl HeldInput {
    /// The steps that follow a request: one that failed leaves nothing held.
    pub fn after_request(&mut self, failed: bool) -> (steps: Vec<InputStep>)
        ensures
            if failed {
                &&& steps@ == old(self)@.release_steps()
                &&& final(self).keys@.len() == 0
                &&& final(self).buttons@.len() == 0
            } else {
                &&& steps@.len() == 0
                &&& *final(self) == *old(self)
            },
    {
        if failed {
            self.release()
        } else {
            Vec::new()
        }
    }
}

/// Steps in turn change what is held in turn.
proof fn lemma_after_concat(held: Held, first: Seq<InputStep>, second: Seq<InputStep>)
    ensures
        held.after_all(first + second) == held.after_all(first).after_all(second),
    decreases second.len(),
{
    if second.len() == 0 {
        assert(first + second =~= first);
    } else {
        assert((first + second).drop_last() =~= first + second.drop_last());
        lemma_after_concat(held, first, second.drop_last());
    }
}

/// Steps along a path do not change what is held.
proof fn lemma_path_holds_nothing(held: Held, path: Seq<(i32, i32)>, pause: u64)
    ensures
        held.after_all(path_plan(path, pause).steps) == held,
    decreases path.len(),
{
    if path.len() > 0 {
        lemma_path_holds_nothing(held, path.drop_last(), pause);
        let before = path_plan(path.drop_last(), pause);
        if before.failure is None {
            match motion(path.last().0, path.last().1) {
                Err(_) => {},
                Ok(step) => {
                    let moved = before.steps.push(step);
                    assert(moved.drop_last() =~= before.steps);
                    assert(held.after_all(moved) == held);
                    if pause > 0 {
                        let paused = moved.push(InputStep::Pause { ms: pause });
                        assert(paused.drop_last() =~= moved);
                    }
                },
            }
        }
    }
}

/// A drag that runs to its end leaves held what was held before, and one
/// that fails on its way leaves its button held, so that it is released: no
/// button stays down unnoticed.
pub proof fn drags_hold_their_button(
    held: Held,
    button: u8,
    from: PointerTarget,
    path: Seq<(i32, i32)>,
    pause: u64,
)
    requires
        !held.buttons.contains(button),
    ensures
        ({
            let plan = drag_plan(button, from, path, pause);
            let after = held.after_all(plan.steps);
            &&& after.keys == held.keys
            &&& plan.failure is None ==> after.buttons == held.buttons
            &&& plan.failure is Some && plan.steps.len() > 0 ==> after.buttons
                == held.buttons.push(button)
        }),
{
    let s0 = Seq::<InputStep>::empty();
    assert(held.after_all(s0) == held);
    match motion(from.x, from.y) {
        Err(_) => {},
        Ok(step) => {
            let s1 = s0.push(step);
            let s2 = s1.push(InputStep::Button { button, pressed: true });
            let start = s2.push(InputStep::HoldButton { button });
            assert(s1.drop_last() =~= s0);
            assert(s2.drop_last() =~= s1);
            assert(start.drop_last() =~= s2);
            assert(held.after_all(s1) == held);
            assert(held.after_all(s2) == held);
            let holding = held.after_all(start);
            assert(holding.buttons == held.buttons.push(button));
            let way = path_plan(path, pause);
            lemma_after_concat(held, start, way.steps);
            lemma_path_holds_nothing(holding, path, pause);
            assert(start =~= seq![
                step,
                InputStep::Button { button, pressed: true },
                InputStep::HoldButton { button },
            ]);
            if way.failure is None {
                let moved = start + way.steps;
                let up = moved.push(InputStep::Button { button, pressed: false });
                let dropped = up.push(InputStep::DropButton { button });
                assert(up.drop_last() =~= moved);
                assert(dropped.drop_last() =~= up);
                assert(held.after_all(up) == holding);
                assert(held.after_all(dropped) == holding.after(dropped.last()));
                lemma_place_of_last(held.buttons, button, 0);
                assert(holding.buttons.remove(held.buttons.len() as int) =~= held.buttons);
            }
        },
    }
}

/// A value that was just added to a list stands at its end.
proof fn lemma_place_of_last(values: Seq<u8>, value: u8, from: int)
    requires
        !values.contains(value),
        0 <= from <= values.len(),
    ensures
        place_from(values.push(value), value, from) == Some(values.len() as int),
    decreases values.len() - from,
{
    if from < values.len() {
        assert(values.contains(values[from]));
        lemma_place_of_last(values, value, from + 1);
    }
}

/// Atoms of the display that window commands use.
#[derive(Debug, Clone, Copy, PartialEq, Eq, Structural)]
pub struct WindowAtoms {
    pub net_active_window: u32,
    pub net_moveresize_window: u32,
    pub net_wm_state: u32,
    pub net_wm_state_maximized_vert: u32,
    pub net_wm_state_maximized_horz: u32,
    pub wm_change_state: u32,
    pub wm_protocols: u32,
    pub wm_delete_window: u32,
}

/// A request that changes a window.
#[derive(Debug, Clone, Copy, PartialEq, Eq)]
pub enum WindowCommand {
    /// A message to the window manager.
    RootMessage { xid: u32, kind: u32, data: (u32, u32, u32, u32, u32) },
    /// A message to the window itself.
    WindowMessage { xid: u32, kind: u32, data: (u32, u32, u32, u32, u32) },
    /// Input focus, without a window manager.
    SetFocus { xid: u32 },
    /// A new place and size on top of the others, without a window manager.
    Configure { xid: u32, x: i32, y: i32, width: Option<u32>, height: Option<u32> },
    /// The end of the window's client.
    Kill { xid: u32 },
}

/// A signed number in the bits of an unsigned one.
pub open spec fn unsigned(n: i32) -> u32 {
    if n < 0 {
        (n + 0x1_0000_0000) as u32
    } else {
        n as u32
    }
}

/// A signed number in the bits of an unsigned one.
fn to_unsigned(n: i32) -> (bits: u32)
    ensures
        bits == unsigned(n),
{
    if n < 0 {
        (n as i64 + 0x1_0000_0000) as u32
    } else {
        n as u32
    }
}

/// The command that focuses a window.
pub fn focus_command(xid: u32, ewmh: bool, atoms: &WindowAtoms) -> (command: WindowCommand)
    ensures
        command == (if ewmh {
            WindowCommand::RootMessage { xid, kind: atoms.net_active_window, data: (1, 0, 0, 0, 0) }
        } else {
            WindowCommand::SetFocus { xid }
        }),
{
    if ewmh {
        WindowCommand::RootMessage { xid, kind: atoms.net_active_window, data: (1, 0, 0, 0, 0) }
    } else {
        WindowCommand::SetFocus { xid }
    }
}

/// Whether a window size is one that the protocol can hold.
pub open spec fn valid_size(width: u32, height: u32) -> bool {
    1 <= width <= 65535 && 1 <= height <= 65535
}

/// Refuses a window size that the protocol cannot hold.
pub fn validate_window_size(width: u32, height: u32) -> (result: Result<(), ControllerError>)
    ensures
        match result {
            Ok(()) => valid_size(width, height),
            Err(e) => !valid_size(width, height) && error::final_error(
                e,
                ErrorCode::InvalidInput,
                "window width and height must be between 1 and 65535"@,
            ),
        },
{
    if width == 0 || height == 0 || width > 65535 || height > 65535 {
        Err(
            ControllerError::new(
                ErrorCode::InvalidInput,
                "window width and height must be between 1 and 65535",
            ),
        )
    } else {
        Ok(())
    }
}

/// The command that moves a window and may resize it. The first number of
/// the message names the source of the request and the values that it sets.
pub open spec fn placement(
    xid: u32,
    ewmh: bool,
    atoms: WindowAtoms,
    x: i32,
    y: i32,
    size: Option<(u32, u32)>,
) -> WindowCommand {
    if ewmh {
        WindowCommand::RootMessage {
            xid,
            kind: atoms.net_moveresize_window,
            data: match size {
                Some((width, height)) => (0x2f00, unsigned(x), unsigned(y), width, height),
                None => (0x2300, unsigned(x), unsigned(y), 0, 0),
            },
        }
    } else {
        WindowCommand::Configure {
            xid,
            x,
            y,
            width: match size {
                Some((width, _)) => Some(width),
                None => None,
            },
            height: match size {
                Some((_, height)) => Some(height),
                None => None,
            },
        }
    }
}

/// The command that moves a window and may resize it.
pub fn move_resize_window(
    xid: u32,
    ewmh: bool,
    atoms: &WindowAtoms,
    x: i32,
    y: i32,
    size: Option<(u32, u32)>,
) -> (command: WindowCommand)
    ensures
        command == placement(xid, ewmh, *atoms, x, y, size),
{
    if ewmh {
        let data = match size {
            Some((width, height)) => (0x2f00, to_unsigned(x), to_unsigned(y), width, height),
            None => (0x2300, to_unsigned(x), to_unsigned(y), 0, 0),
        };
        WindowCommand::RootMessage { xid, kind: atoms.net_moveresize_window, data }
    } else {
        match size {
            Some((width, height)) => WindowCommand::Configure {
                xid,
                x,
                y,
                width: Some(width),
                height: Some(height),
            },
            None => WindowCommand::Configure { xid, x, y, width: None, height: None },
        }
    }
}

/// The command for an action on a window, or why there is none.
pub open spec fn action_command(
    xid: u32,
    action: WindowAction,
    geometry: Geometry,
    ewmh: bool,
    atoms: WindowAtoms,
    protocols: Seq<u32>,
) -> Result<WindowCommand, Fault> {
    let bad_size = fault(
        ErrorCode::InvalidInput,
        "window width and height must be between 1 and 65535"@,
    );
    match action {
        WindowAction::Move { x, y } => Ok(placement(xid, ewmh, atoms, x, y, None)),
        WindowAction::Resize { width, height } => if valid_size(width, height) {
            Ok(placement(xid, ewmh, atoms, geometry.x, geometry.y, Some((width, height))))
        } else {
            Err(bad_size)
        },
        WindowAction::MoveResize { x, y, width, height } => if valid_size(width, height) {
            Ok(placement(xid, ewmh, atoms, x, y, Some((width, height))))
        } else {
            Err(bad_size)
        },
        WindowAction::Minimize => Ok(
            WindowCommand::RootMessage { xid, kind: atoms.wm_change_state, data: (3, 0, 0, 0, 0) },
        ),
        WindowAction::Maximize => maximized(xid, ewmh, atoms, 1),
        WindowAction::Restore => maximized(xid, ewmh, atoms, 0),
        WindowAction::Close { force } => if protocols.contains(atoms.wm_delete_window) {
            Ok(
                WindowCommand::WindowMessage {
                    xid,
                    kind: atoms.wm_protocols,
                    data: (atoms.wm_delete_window, 0, 0, 0, 0),
                },
            )
        } else if force {
            Ok(WindowCommand::Kill { xid })
        } else {
            Err(
                fault(
                    ErrorCode::UnsupportedCapability,
                    "window does not support WM_DELETE_WINDOW; retry with force=true to kill its X11 client"@,
                ),
            )
        },
    }
}

/// The command that adds or removes the maximized state.
pub open spec fn maximized(xid: u32, ewmh: bool, atoms: WindowAtoms, action: u32) -> Result<
    WindowCommand,
    Fault,
> {
    if ewmh {
        Ok(
            WindowCommand::RootMessage {
                xid,
                kind: atoms.net_wm_state,
                data: (
                    action,
                    atoms.net_wm_state_maximized_vert,
                    atoms.net_wm_state_maximized_horz,
                    2,
                    0,
                ),
            },
        )
    } else {
        Err(
            fault(
                ErrorCode::UnsupportedCapability,
                "maximize and restore require an EWMH window manager"@,
            ),
        )
    }
}

/// The command that adds or removes the maximized state.
pub fn change_maximized_state(xid: u32, ewmh: bool, atoms: &WindowAtoms, action: u32) -> (result:
    Result<WindowCommand, ControllerError>)
    ensures
        error::faulty_result(result, maximized(xid, ewmh, *atoms, action)),
{
    if !ewmh {
        return Err(
            ControllerError::new(
                ErrorCode::UnsupportedCapability,
                "maximize and restore require an EWMH window manager",
            ),
        );
    }
    Ok(
        WindowCommand::RootMessage {
            xid,
            kind: atoms.net_wm_state,
            data: (
                action,
                atoms.net_wm_state_maximized_vert,
                atoms.net_wm_state_maximized_horz,
                2,
                0,
            ),
        },
    )
}

/// The command that closes a window: a request where the window takes part
/// in closing, else by force.
pub fn close_window(xid: u32, force: bool, atoms: &WindowAtoms, protocols: &Vec<u32>) -> (result:
    Result<WindowCommand, ControllerError>)
    ensures
        error::faulty_result(
            result,
            action_command(
                xid,
                WindowAction::Close { force },
                (Geometry { x: 0, y: 0, width: 0, height: 0 }),
                false,
                *atoms,
                protocols@,
            ),
        ),
{
    if has_value(protocols, atoms.wm_delete_window) {
        Ok(
            WindowCommand::WindowMessage {
                xid,
                kind: atoms.wm_protocols,
                data: (atoms.wm_delete_window, 0, 0, 0, 0),
            },
        )
    } else if force {
        Ok(WindowCommand::Kill { xid })
    } else {
        Err(
            ControllerError::new(
                ErrorCode::UnsupportedCapability,
                "window does not support WM_DELETE_WINDOW; retry with force=true to kill its X11 client",
            ),
        )
    }
}

/// The command for an action on a window of some geometry. `protocols` are
/// the ways in which the window takes part in its management.
pub fn window_command(
    xid: u32,
    action: WindowAction,
    geometry: Geometry,
    ewmh: bool,
    atoms: &WindowAtoms,
    protocols: &Vec<u32>,
) -> (result: Result<WindowCommand, ControllerError>)
    ensures
        error::faulty_result(
            result,
            action_command(xid, action, geometry, ewmh, *atoms, protocols@),
        ),
{
    match action {
        WindowAction::Move { x, y } => Ok(move_resize_window(xid, ewmh, atoms, x, y, None)),
        WindowAction::Resize { width, height } => match validate_window_size(width, height) {
            Err(e) => Err(e),
            Ok(()) => Ok(
                move_resize_window(
                    xid,
                    ewmh,
                    atoms,
                    geometry.x,
                    geometry.y,
                    Some((width, height)),
                ),
            ),
        },
        WindowAction::MoveResize { x, y, width, height } => match validate_window_size(
            width,
            height,
        ) {
            Err(e) => Err(e),
            Ok(()) => Ok(move_resize_window(xid, ewmh, atoms, x, y, Some((width, height)))),
        },
        WindowAction::Minimize => Ok(
            WindowCommand::RootMessage { xid, kind: atoms.wm_change_state, data: (3, 0, 0, 0, 0) },
        ),
        WindowAction::Maximize => change_maximized_state(xid, ewmh, atoms, 1),
        WindowAction::Restore => change_maximized_state(xid, ewmh, atoms, 0),
        WindowAction::Close { force } => close_window(xid, force, atoms, protocols),
    }
}

/// A click is pressed and released as often as asked, with a pause of fifty
/// milliseconds between two, and with no other button.
pub proof fn clicks_press_and_release(button: u8, count: int, at: int)
    requires
        0 <= count,
    ensures
        clicks(button, count).len() == (if count == 0 {
            0
        } else {
            3 * count - 1
        }),
        0 <= at < clicks(button, count).len() ==> clicks(button, count)[at] == (if at % 3 == 0 {
            InputStep::Button { button, pressed: true }
        } else if at % 3 == 1 {
            InputStep::Button { button, pressed: false }
        } else {
            InputStep::Pause { ms: 50 }
        }),
    decreases count,
{
    if count > 1 {
        clicks_press_and_release(button, count - 1, at);
        let before = clicks(button, count - 1);
        assert(before.len() == 3 * (count - 1) - 1);
        assert(clicks(button, count) == before.push(InputStep::Pause { ms: 50 }) + press(button));
    } else if count == 1 {
        assert(clicks(button, 1) == press(button));
    }
}

/// A scroll presses and releases one button for each tick: 4 and 5 for up and
/// down, then 6 and 7 for left and right.
pub proof fn scrolls_tick_towards_their_side(dx: i32, dy: i32, at: int)
    ensures
        ({
            let up = if dy < 0 {
                -dy
            } else {
                dy as int
            };
            let aside = if dx < 0 {
                -dx
            } else {
                dx as int
            };
            let steps = scroll_steps(dx, dy);
            &&& steps.len() == 2 * up + 2 * aside
            &&& 0 <= at < up ==> steps[2 * at] == (InputStep::Button {
                button: if dy < 0 {
                    4
                } else {
                    5
                },
                pressed: true,
            }) && steps[2 * at + 1] == (InputStep::Button {
                button: if dy < 0 {
                    4
                } else {
                    5
                },
                pressed: false,
            })
            &&& 0 <= at < aside ==> steps[2 * up + 2 * at] == (InputStep::Button {
                button: if dx < 0 {
                    6
                } else {
                    7
                },
                pressed: true,
            }) && steps[2 * up + 2 * at + 1] == (InputStep::Button {
                button: if dx < 0 {
                    6
                } else {
                    7
                },
                pressed: false,
            })
        }),
{
    if dy < 0 {
        lemma_ticks(4, -dy, at);
    } else {
        lemma_ticks(5, dy as int, at);
    }
    if dx < 0 {
        lemma_ticks(6, -dx, at);
    } else {
        lemma_ticks(7, dx as int, at);
    }
}

/// What the steps of some ticks are.
proof fn lemma_ticks(button: u8, count: int, at: int)
    requires
        0 <= count,
    ensures
        ticks(button, count).len() == 2 * count,
        0 <= at < count ==> ticks(button, count)[2 * at] == (InputStep::Button {
            button,
            pressed: true,
        }) && ticks(button, count)[2 * at + 1] == (InputStep::Button { button, pressed: false }),
    decreases count,
{
    if count > 0 {
        lemma_ticks(button, count - 1, at);
    }
}

/// Where an action moves the pointer, it moves it to its target first, and a
/// target that the protocol cannot hold stops the action before any step.
/// Where it does not move, its steps are all there is.
pub proof fn pointers_move_before_they_act(target: PointerTarget, steps: Seq<InputStep>)
    ensures
        ({
            let plan = at_target(target, steps);
            let reachable = -32768 <= target.x <= 32767 && -32768 <= target.y <= 32767;
            &&& !target.moves ==> plan.failure is None && plan.steps == steps
            &&& target.moves && reachable ==> {
                &&& plan.failure is None
                &&& plan.steps.len() == steps.len() + 1
                &&& plan.steps[0] is Motion
                &&& plan.steps[0]->Motion_x == target.x
                &&& plan.steps[0]->Motion_y == target.y
                &&& plan.steps.drop_first() == steps
            }
            &&& target.moves && !reachable ==> plan.failure is Some && plan.steps.len() == 0
        }),
{
    if target.moves {
        let plan = at_target(target, steps);
        if plan.failure is None {
            assert(plan.steps.drop_first() =~= steps);
        }
    }
}

/// A drag moves to its start, presses its button there, goes through every
/// point of its path in order with a pause after each, and releases the button
/// at the end.
pub proof fn drags_follow_their_path(
    button: u8,
    from: PointerTarget,
    path: Seq<(i32, i32)>,
    pause: u64,
    at: int,
)
    ensures
        ({
            let plan = drag_plan(button, from, path, pause);
            let stride = if pause > 0 {
                2int
            } else {
                1int
            };
            let reachable = |x: i32, y: i32| -32768 <= x <= 32767 && -32768 <= y <= 32767;
            &&& plan.failure is None <==> reachable(from.x, from.y) && forall|i: int|
                0 <= i < path.len() ==> reachable(
                    (#[trigger] path[i]).0,
                    path[i].1,
                )
            &&& plan.failure is None ==> {
                &&& plan.steps.len() == 5 + stride * path.len()
                &&& plan.steps[0] is Motion && plan.steps[0]->Motion_x == from.x
                    && plan.steps[0]->Motion_y == from.y
                &&& plan.steps[1] == (InputStep::Button { button, pressed: true })
                &&& plan.steps[2] == (InputStep::HoldButton { button })
                &&& 0 <= at < path.len() ==> {
                    let step = plan.steps[3 + stride * at];
                    &&& step is Motion && step->Motion_x == path[at].0 && step->Motion_y
                        == path[at].1
                    &&& pause > 0 ==> plan.steps[4 + stride * at] == (InputStep::Pause { ms: pause })
                }
                &&& plan.steps[plan.steps.len() - 2] == (InputStep::Button {
                    button,
                    pressed: false,
                })
                &&& plan.steps.last() == (InputStep::DropButton { button })
            }
        }),
{
    lemma_path_steps(path, pause, at);
}

/// What the steps along a path are.
proof fn lemma_path_steps(path: Seq<(i32, i32)>, pause: u64, at: int)
    ensures
        ({
            let plan = path_plan(path, pause);
            let stride = if pause > 0 {
                2int
            } else {
                1int
            };
            let reachable = |x: i32, y: i32| -32768 <= x <= 32767 && -32768 <= y <= 32767;
            &&& plan.failure is None <==> forall|i: int|
                0 <= i < path.len() ==> reachable(
                    (#[trigger] path[i]).0,
                    path[i].1,
                )
            &&& plan.failure is None ==> {
                &&& plan.steps.len() == stride * path.len()
                &&& 0 <= at < path.len() ==> {
                    let step = plan.steps[stride * at];
                    &&& step is Motion && step->Motion_x == path[at].0 && step->Motion_y
                        == path[at].1
                    &&& pause > 0 ==> plan.steps[1 + stride * at] == (InputStep::Pause { ms: pause })
                }
            }
        }),
    decreases path.len(),
{
    if path.len() > 0 {
        let rest = path.drop_last();
        lemma_path_steps(rest, pause, at);
        let reachable = |x: i32, y: i32| -32768 <= x <= 32767 && -32768 <= y <= 32767;
        if forall|i: int| 0 <= i < path.len() ==> reachable((#[trigger] path[i]).0, path[i].1) {
            assert forall|i: int| 0 <= i < rest.len() implies reachable(
                (#[trigger] rest[i]).0,
                rest[i].1,
            ) by {
                assert(rest[i] == path[i]);
            }
            assert(reachable(path[path.len() - 1].0, path[path.len() - 1].1));
        }
        if path_plan(path, pause).failure is None {
            assert forall|i: int| 0 <= i < path.len() implies reachable(
                (#[trigger] path[i]).0,
                path[i].1,
            ) by {
                if i < rest.len() {
                    assert(rest[i] == path[i]);
                }
            }
        }
    }
}

/// A stroke presses its modifiers, then its key, and releases them in reverse:
/// Shift next to the key, and the modifier for the third level around both.
pub proof fn strokes_tap_their_key(map: KeyboardMap, stroke: KeyStroke)
    ensures
        match stroke_steps(map, stroke) {
            Ok(steps) => {
                let keys = 1 + (if stroke.shift {
                    1int
                } else {
                    0int
                }) + (if stroke.mode_switch {
                    1int
                } else {
                    0int
                });
                &&& steps.len() == 2 * keys
                &&& steps[keys - 1] == (InputStep::Key { keycode: stroke.keycode, pressed: true })
                &&& steps[keys] == (InputStep::Key { keycode: stroke.keycode, pressed: false })
                &&& stroke.shift ==> map.shift_key() is Ok && steps[keys - 2] == (InputStep::Key {
                    keycode: map.shift_key()->Ok_0,
                    pressed: true,
                }) && steps[keys + 1] == (InputStep::Key {
                    keycode: map.shift_key()->Ok_0,
                    pressed: false,
                })
                &&& stroke.mode_switch ==> map.mode_switch_key() is Ok && steps[0]
                    == (InputStep::Key {
                    keycode: map.mode_switch_key()->Ok_0,
                    pressed: true,
                }) && steps[2 * keys - 1] == (InputStep::Key {
                    keycode: map.mode_switch_key()->Ok_0,
                    pressed: false,
                })
            },
            Err(_) => stroke.mode_switch && map.mode_switch_key() is Err || stroke.shift
                && map.shift_key() is Err,
        },
{
}

/// Typing goes stroke by stroke: the steps of some strokes followed by others
/// are the steps of the first followed by those of the others, and one stroke
/// by itself is tapped once.
pub proof fn typing_goes_stroke_by_stroke(
    map: KeyboardMap,
    first: Seq<KeyStroke>,
    second: Seq<KeyStroke>,
    stroke: KeyStroke,
)
    ensures
        typed(map, first).failure is None ==> {
            &&& typed(map, first + second).steps == typed(map, first).steps + typed(
                map,
                second,
            ).steps
            &&& typed(map, first + second).failure == typed(map, second).failure
        },
        typed(map, first).failure is Some ==> typed(map, first + second) == typed(map, first),
        match stroke_steps(map, stroke) {
            Ok(steps) => typed(map, seq![stroke]).failure is None && typed(
                map,
                seq![stroke],
            ).steps == steps,
            Err(f) => typed(map, seq![stroke]).failure == Some(f) && typed(
                map,
                seq![stroke],
            ).steps.len() == 0,
        },
    decreases second.len(),
{
    assert(seq![stroke].drop_last() =~= Seq::<KeyStroke>::empty());
    assert(typed(map, Seq::<KeyStroke>::empty()).steps.len() == 0);
    if let Ok(steps) = stroke_steps(map, stroke) {
        assert(typed(map, seq![stroke]).steps =~= steps);
    }
    if second.len() == 0 {
        assert(first + second =~= first);
        assert(typed(map, first).steps + typed(map, second).steps =~= typed(map, first).steps);
    } else {
        let all = first + second;
        assert(all.drop_last() =~= first + second.drop_last());
        typing_goes_stroke_by_stroke(map, first, second.drop_last(), stroke);
        assert(all.last() == second.last());
        if typed(map, first).failure is None && typed(map, second.drop_last()).failure is None {
            if let Ok(steps) = stroke_steps(map, second.last()) {
                assert(typed(map, first).steps + (typed(map, second.drop_last()).steps + steps)
                    =~= (typed(map, first).steps + typed(map, second.drop_last()).steps) + steps);
            }
        }
    }
}

/// Where no stroke fails, typing takes as many steps as it is charged for, and
/// the steps of each stroke stand at its own place: after those of the strokes
/// before it, also where its neighbours are the same.
pub proof fn every_stroke_is_typed(map: KeyboardMap, strokes: Seq<KeyStroke>, at: int)
    requires
        typed(map, strokes).failure is None,
    ensures
        typed(map, strokes).steps.len() == stroke_events(strokes),
        0 <= at < strokes.len() ==> {
            let start = stroke_events(strokes.take(at));
            let end = stroke_events(strokes.take(at + 1));
            &&& end - start == 2 + (if strokes[at].shift {
                2int
            } else {
                0int
            }) + (if strokes[at].mode_switch {
                2int
            } else {
                0int
            })
            &&& 0 <= start < end <= typed(map, strokes).steps.len()
            &&& stroke_steps(map, strokes[at]) is Ok
            &&& typed(map, strokes).steps.subrange(start, end) == stroke_steps(
                map,
                strokes[at],
            )->Ok_0
        },
    decreases strokes.len(),
{
    if strokes.len() > 0 {
        let rest = strokes.drop_last();
        every_stroke_is_typed(map, rest, at);
        let last = strokes.last();
        strokes_tap_their_key(map, last);
        assert(strokes.take(strokes.len() as int) =~= strokes);
        assert(strokes.take(strokes.len() - 1) =~= rest);
        if 0 <= at < rest.len() {
            assert(rest.take(at) =~= strokes.take(at));
            assert(rest.take(at + 1) =~= strokes.take(at + 1));
            let start = stroke_events(strokes.take(at));
            let end = stroke_events(strokes.take(at + 1));
            assert(typed(map, strokes).steps.subrange(start, end) =~= typed(
                map,
                rest,
            ).steps.subrange(start, end));
        } else if at == rest.len() {
            lemma_stroke_events(rest);
            assert(strokes.take(at + 1).drop_last() =~= rest);
            let start = stroke_events(rest);
            let end = stroke_events(strokes);
            assert(typed(map, strokes).steps.subrange(start, end) =~= stroke_steps(
                map,
                last,
            )->Ok_0);
        }
    }
}

/// Strokes are not charged for less than nothing.
proof fn lemma_stroke_events(strokes: Seq<KeyStroke>)
    ensures
        0 <= stroke_events(strokes),
    decreases strokes.len(),
{
    if strokes.len() > 0 {
        lemma_stroke_events(strokes.drop_last());
    }
}

/// A text goes through the clipboard where that is asked for, or where nothing
/// is asked for and some character has no stroke; it never does where
/// keystrokes are asked for.
pub proof fn pasting_is_the_last_resort(request: TypeTextRequest, map: KeyboardMap)
    ensures
        request.method == TextMethod::Clipboard ==> pastes(request, map),
        request.method == TextMethod::Keystrokes ==> !pastes(request, map),
        request.method == TextMethod::Auto ==> (pastes(request, map) <==> exists|i: int|
            0 <= i < request.text@.len() && map.stroke_of(
                keyboard::keysym_of(#[trigger] request.text@[i]) as u32,
            ) is None),
{
    map.texts_are_typed_by_character(request.text@);
}

/// A chord that goes down presses the keys that are not held yet, each once,
/// and then holds all of them.
pub proof fn keys_stay_down(held: Held, codes: Seq<u8>, key: u8)
    ensures
        held.after_all(down_steps(held.keys, codes)).buttons == held.buttons,
        held.after_all(down_steps(held.keys, codes)).keys.contains(key) <==> held.keys.contains(key)
            || codes.contains(key),
        down_steps(held.keys, codes).contains(InputStep::Key { keycode: key, pressed: true })
            <==> codes.contains(key) && !held.keys.contains(key),
        !down_steps(held.keys, codes).contains(InputStep::Key { keycode: key, pressed: false }),
        codes.no_duplicates() ==> forall|i: int, j: int|
            0 <= i < j < down_steps(held.keys, codes).len() ==> down_steps(held.keys, codes)[i]
                != down_steps(held.keys, codes)[j],
    decreases codes.len(),
{
    let steps = down_steps(held.keys, codes);
    if codes.len() > 0 {
        let rest = codes.drop_last();
        let last = codes.last();
        let before = down_steps(held.keys, rest);
        keys_stay_down(held, rest, key);
        keys_stay_down(held, rest, last);
        assert(codes =~= rest.push(last));
        assert(codes.contains(key) <==> rest.contains(key) || last == key) by {
            if rest.contains(key) {
                assert(codes[rest.index_of(key)] == key);
            }
            if last == key {
                assert(codes[codes.len() - 1] == key);
            }
        }
        if !held.keys.contains(last) {
            let hold = InputStep::HoldKey { keycode: last };
            let down = InputStep::Key { keycode: last, pressed: true };
            let holding = before.push(hold);
            assert(steps == holding.push(down));
            assert(holding.drop_last() =~= before);
            assert(steps.drop_last() =~= holding);
            assert(held.after_all(holding) == held.after_all(before).after(hold));
            assert(held.after_all(steps) == held.after_all(holding).after(down));
            lemma_unique(held.after_all(before).keys, last, key);
            lemma_pushed(before, hold);
            lemma_pushed(holding, down);
            if codes.no_duplicates() {
                assert(rest.no_duplicates());
                assert(!rest.contains(last)) by {
                    if rest.contains(last) {
                        assert(codes[rest.index_of(last)] == codes[codes.len() - 1]);
                    }
                }
                lemma_holds(held.keys, rest, last);
                assert(!before.contains(hold));
                assert(!before.contains(down));
                assert forall|i: int, j: int| 0 <= i < j < steps.len() implies steps[i]
                    != steps[j] by {
                    if j < before.len() {
                        assert(before[i] != before[j]);
                    } else if i < before.len() {
                        assert(before.contains(before[i]));
                    }
                }
            }
        } else {
            if codes.no_duplicates() {
                assert(rest.no_duplicates());
            }
        }
    }
}

/// A list with one more value holds that value and what it held.
proof fn lemma_pushed(steps: Seq<InputStep>, step: InputStep)
    ensures
        forall|other: InputStep| #[trigger]
            steps.push(step).contains(other) <==> steps.contains(other) || other == step,
{
    assert forall|other: InputStep| #[trigger] steps.push(step).contains(other)
        <==> steps.contains(other) || other == step by {
        if steps.contains(other) {
            assert(steps.push(step)[steps.index_of(other)] == other);
        }
        if other == step {
            assert(steps.push(step)[steps.len() as int] == other);
        }
    }
}

/// A list with a value added once holds that value and what it held.
proof fn lemma_unique(values: Seq<u8>, value: u8, other: u8)
    ensures
        keyboard::with_unique(values, value).contains(other) <==> values.contains(other) || other
            == value,
{
    if !values.contains(value) {
        if values.contains(other) {
            assert(values.push(value)[values.index_of(other)] == other);
        }
        if other == value {
            assert(values.push(value)[values.len() as int] == other);
        }
    }
}

/// Only keys of a chord are held by it.
proof fn lemma_holds(held: Seq<u8>, codes: Seq<u8>, key: u8)
    requires
        !codes.contains(key),
    ensures
        !down_steps(held, codes).contains(InputStep::HoldKey { keycode: key }),
    decreases codes.len(),
{
    if codes.len() > 0 {
        let rest = codes.drop_last();
        assert(!rest.contains(key)) by {
            if rest.contains(key) {
                assert(codes[rest.index_of(key)] == key);
            }
        }
        assert(codes[codes.len() - 1] != key);
        lemma_holds(held, rest, key);
        if !held.contains(codes.last()) {
            let before = down_steps(held, rest);
            lemma_pushed(before, InputStep::HoldKey { keycode: codes.last() });
            lemma_pushed(
                before.push(InputStep::HoldKey { keycode: codes.last() }),
                InputStep::Key { keycode: codes.last(), pressed: true },
            );
        }
    }
}

/// A chord that goes up releases its keys, the last one first, and presses
/// none; afterwards none of them is held, and every other key is as it was.
pub proof fn keys_come_up(held: Held, codes: Seq<u8>, at: int, key: u8)
    requires
        held.keys.no_duplicates(),
    ensures
        up_steps(codes).len() == 2 * codes.len(),
        0 <= at < codes.len() ==> up_steps(codes)[2 * at] == (InputStep::Key {
            keycode: codes[codes.len() - 1 - at],
            pressed: false,
        }) && up_steps(codes)[2 * at + 1] == (InputStep::DropKey {
            keycode: codes[codes.len() - 1 - at],
        }),
        held.after_all(up_steps(codes)).keys.no_duplicates(),
        held.after_all(up_steps(codes)).buttons == held.buttons,
        held.after_all(up_steps(codes)).keys.contains(key) <==> held.keys.contains(key)
            && !codes.contains(key),
    decreases codes.len(),
{
    if codes.len() > 0 {
        let rest = codes.drop_last();
        let last = codes.last();
        let up = InputStep::Key { keycode: last, pressed: false };
        let dropped = InputStep::DropKey { keycode: last };
        let start = seq![up, dropped];
        lemma_after_concat(held, start, up_steps(rest));
        assert(start.drop_last() =~= seq![up]);
        assert(seq![up].drop_last() =~= Seq::<InputStep>::empty());
        assert(held.after_all(Seq::<InputStep>::empty()) == held);
        assert(held.after_all(seq![up]) == held);
        let next = held.after(dropped);
        assert(held.after_all(start) == next);
        lemma_without(held.keys, last, key);
        keys_come_up(next, rest, at - 1, key);
        assert(codes.contains(key) <==> rest.contains(key) || last == key) by {
            if rest.contains(key) {
                assert(codes[rest.index_of(key)] == key);
            }
            if last == key {
                assert(codes[codes.len() - 1] == key);
            }
            if codes.contains(key) && last != key {
                assert(rest[codes.index_of(key)] == key);
            }
        }
    } else {
        assert(held.after_all(up_steps(codes)) == held);
    }
}

/// A list without repeats, with a value taken out, lacks that value alone.
proof fn lemma_without(values: Seq<u8>, value: u8, other: u8)
    requires
        values.no_duplicates(),
    ensures
        without(values, value).no_duplicates(),
        without(values, value).contains(other) <==> values.contains(other) && other != value,
{
    lemma_place_from(values, value, 0);
    if let Some(at) = place_from(values, value, 0) {
        let rest = values.remove(at);
        if values.contains(other) && other != value {
            let i = values.index_of(other);
            assert(rest[if i < at {
                i
            } else {
                i - 1
            }] == other);
        }
        if rest.contains(other) {
            let i = rest.index_of(other);
            assert(values[if i < at {
                i
            } else {
                i + 1
            }] == other);
        }
    }
}

/// Where a search for a value ends.
proof fn lemma_place_from(values: Seq<u8>, value: u8, from: int)
    requires
        0 <= from,
    ensures
        match place_from(values, value, from) {
            Some(at) => from <= at < values.len() && values[at] == value,
            None => forall|i: int| from <= i < values.len() ==> values[i] != value,
        },
    decreases values.len() - from,
{
    if from < values.len() && values[from] != value {
        lemma_place_from(values, value, from + 1);
    }
}

/// Releasing what is held lets go of every held key and every held button,
/// each once, keys first, and presses nothing.
pub proof fn releases_let_go_of_everything(held: Held, at: int)
    ensures
        held.release_steps().len() == held.keys.len() + held.buttons.len(),
        0 <= at < held.keys.len() ==> held.release_steps()[at] == (InputStep::Key {
            keycode: held.keys[at],
            pressed: false,
        }),
        0 <= at < held.buttons.len() ==> held.release_steps()[held.keys.len() + at]
            == (InputStep::Button { button: held.buttons[at], pressed: false }),
{
}

/// A chord is charged for one event for each key that goes down or up, so a
/// pressed chord for two: as many as it has steps.
pub proof fn chords_are_charged_by_event(held: Seq<u8>, codes: Seq<u8>)
    requires
        2 * codes.len() <= u32::MAX,
    ensures
        chord_events(codes, KeyMode::Press) == 2 * codes.len(),
        chord_events(codes, KeyMode::Down) == codes.len(),
        chord_events(codes, KeyMode::Up) == codes.len(),
        chord_steps(held, codes, KeyMode::Press).len() == chord_events(codes, KeyMode::Press),
        forall|i: int|
            0 <= i < codes.len() ==> #[trigger] chord_steps(held, codes, KeyMode::Press)[i]
                == (InputStep::Key { keycode: codes[i], pressed: true }),
        forall|i: int|
            0 <= i < codes.len() ==> #[trigger] chord_steps(held, codes, KeyMode::Press)[codes.len()
                + i] == (InputStep::Key {
                keycode: codes[codes.len() - 1 - i],
                pressed: false,
            }),
        chord_steps(held, codes, KeyMode::Down) == down_steps(held, codes),
        chord_steps(held, codes, KeyMode::Up) == up_steps(codes),
{
}

/// Under a window manager, maximizing asks it to add the two maximized states
/// (1 is add) and restoring to remove them (0 is remove), as a request of a
/// pager (2); minimizing asks for the iconic state (3). Without a window manager
/// there is nothing to ask for maximizing or restoring.
pub proof fn state_commands_name_their_state(
    xid: u32,
    action: WindowAction,
    geometry: Geometry,
    ewmh: bool,
    atoms: WindowAtoms,
    protocols: Vec<u32>,
    result: Result<WindowCommand, ControllerError>,
)
    requires
        call_ensures(window_command, (xid, action, geometry, ewmh, &atoms, &protocols), result),
    ensures
        action is Maximize && ewmh ==> result == Ok::<WindowCommand, ControllerError>(
            WindowCommand::RootMessage {
                xid,
                kind: atoms.net_wm_state,
                data: (
                    1,
                    atoms.net_wm_state_maximized_vert,
                    atoms.net_wm_state_maximized_horz,
                    2,
                    0,
                ),
            },
        ),
        action is Restore && ewmh ==> result == Ok::<WindowCommand, ControllerError>(
            WindowCommand::RootMessage {
                xid,
                kind: atoms.net_wm_state,
                data: (
                    0,
                    atoms.net_wm_state_maximized_vert,
                    atoms.net_wm_state_maximized_horz,
                    2,
                    0,
                ),
            },
        ),
        (action is Maximize || action is Restore) && !ewmh ==> result is Err && result->Err_0.code
            == ErrorCode::UnsupportedCapability,
        action is Minimize ==> result == Ok::<WindowCommand, ControllerError>(
            WindowCommand::RootMessage { xid, kind: atoms.wm_change_state, data: (3, 0, 0, 0, 0) },
        ),
{
}

/// The states of a window after a message that adds (1) or removes (0) two of
/// them.
pub open spec fn states_after(states: Set<u32>, data: (u32, u32, u32, u32, u32)) -> Set<u32> {
    if data.0 == 1 {
        states.insert(data.1).insert(data.2)
    } else if data.0 == 0 {
        states.remove(data.1).remove(data.2)
    } else {
        states
    }
}

/// A window is maximized both ways after it was maximized, and neither way
/// after it was restored; its other states stay.
pub proof fn restoring_undoes_maximizing(
    xid: u32,
    geometry: Geometry,
    atoms: WindowAtoms,
    protocols: Vec<u32>,
    up: Result<WindowCommand, ControllerError>,
    down: Result<WindowCommand, ControllerError>,
    states: Set<u32>,
    other: u32,
)
    requires
        call_ensures(
            window_command,
            (xid, WindowAction::Maximize, geometry, true, &atoms, &protocols),
            up,
        ),
        call_ensures(
            window_command,
            (xid, WindowAction::Restore, geometry, true, &atoms, &protocols),
            down,
        ),
        other != atoms.net_wm_state_maximized_vert,
        other != atoms.net_wm_state_maximized_horz,
    ensures
        up is Ok && up->Ok_0 is RootMessage && up->Ok_0->RootMessage_kind == atoms.net_wm_state,
        down is Ok && down->Ok_0 is RootMessage && down->Ok_0->RootMessage_kind
            == atoms.net_wm_state,
        ({
            let above = states_after(states, up->Ok_0->RootMessage_data);
            let below = states_after(above, down->Ok_0->RootMessage_data);
            &&& above.contains(atoms.net_wm_state_maximized_vert)
            &&& above.contains(atoms.net_wm_state_maximized_horz)
            &&& !below.contains(atoms.net_wm_state_maximized_vert)
            &&& !below.contains(atoms.net_wm_state_maximized_horz)
            &&& above.contains(other) == states.contains(other)
            &&& below.contains(other) == states.contains(other)
        }),
{
}

/// Whether an unsigned number stands for a signed one in two's complement.
pub open spec fn same_bits(bits: u32, n: i32) -> bool {
    bits == n || bits == n + 0x1_0000_0000
}

/// Moving and resizing ask for exactly the values that they name, with the
/// window's place kept where only a size is named. To a window manager the
/// first number tells the source (0x2000) and that the place (0x100 and 0x200)
/// or also the size (0x400 and 0x800) is set. A size that the protocol cannot
/// hold is refused.
pub proof fn placements_set_what_they_name(
    xid: u32,
    action: WindowAction,
    geometry: Geometry,
    ewmh: bool,
    atoms: WindowAtoms,
    protocols: Vec<u32>,
    result: Result<WindowCommand, ControllerError>,
    x: i32,
    y: i32,
    size: Option<(u32, u32)>,
)
    requires
        call_ensures(window_command, (xid, action, geometry, ewmh, &atoms, &protocols), result),
        match action {
            WindowAction::Move { x: to_x, y: to_y } => x == to_x && y == to_y && size is None,
            WindowAction::Resize { width, height } => x == geometry.x && y == geometry.y && size
                == Some((width, height)),
            WindowAction::MoveResize { x: to_x, y: to_y, width, height } => x == to_x && y == to_y
                && size == Some((width, height)),
            _ => false,
        },
    ensures
        result is Ok <==> (size matches Some((width, height)) ==> 1 <= width <= 65535 && 1 <= height
            <= 65535),
        result is Err ==> result->Err_0.code == ErrorCode::InvalidInput,
        result is Ok && !ewmh ==> result->Ok_0 == (WindowCommand::Configure {
            xid,
            x,
            y,
            width: if size is Some {
                Some((size->0).0)
            } else {
                None
            },
            height: if size is Some {
                Some((size->0).1)
            } else {
                None
            },
        }),
        result is Ok && ewmh ==> {
            let command = result->Ok_0;
            &&& command is RootMessage
            &&& command->RootMessage_xid == xid
            &&& command->RootMessage_kind == atoms.net_moveresize_window
            &&& same_bits(command->RootMessage_data.1, x)
            &&& same_bits(command->RootMessage_data.2, y)
            &&& size is None ==> command->RootMessage_data.0 == 0x2000 + 0x100 + 0x200
                && command->RootMessage_data.3 == 0 && command->RootMessage_data.4 == 0
            &&& size is Some ==> command->RootMessage_data.0 == 0x2000 + 0x100 + 0x200 + 0x400
                + 0x800 && command->RootMessage_data.3 == (size->0).0 && command->RootMessage_data.4
                == (size->0).1
        },
{
}

/// A window is asked to close where it takes part in closing, whether or not
/// force is allowed; its client is killed only by force, and only where the
/// window does not take part.
pub proof fn closing_asks_before_it_kills(
    xid: u32,
    force: bool,
    geometry: Geometry,
    ewmh: bool,
    atoms: WindowAtoms,
    protocols: Vec<u32>,
    result: Result<WindowCommand, ControllerError>,
)
    requires
        call_ensures(
            window_command,
            (xid, WindowAction::Close { force }, geometry, ewmh, &atoms, &protocols),
            result,
        ),
    ensures
        ({
            let asked = exists|i: int|
                0 <= i < protocols@.len() && #[trigger] protocols@[i] == atoms.wm_delete_window;
            &&& asked ==> result == Ok::<WindowCommand, ControllerError>(
                WindowCommand::WindowMessage {
                    xid,
                    kind: atoms.wm_protocols,
                    data: (atoms.wm_delete_window, 0, 0, 0, 0),
                },
            )
            &&& !asked && force ==> result == Ok::<WindowCommand, ControllerError>(
                WindowCommand::Kill { xid },
            )
            &&& !asked && !force ==> result is Err && result->Err_0.code
                == ErrorCode::UnsupportedCapability
        }),
{
}

/// Focusing asks the window manager to activate the window, as a request of an
/// application (1), and without one sets the input focus.
pub proof fn focusing_activates_the_window(
    xid: u32,
    ewmh: bool,
    atoms: WindowAtoms,
    command: WindowCommand,
)
    requires
        call_ensures(focus_command, (xid, ewmh, &atoms), command),
    ensures
        ewmh ==> command == (WindowCommand::RootMessage {
            xid,
            kind: atoms.net_active_window,
            data: (1, 0, 0, 0, 0),
        }),
        !ewmh ==> command == (WindowCommand::SetFocus { xid }),
{
}

/// The plan of a movement is the movement, to the target and nowhere else.
pub proof fn movements_go_to_their_target(target: PointerTarget, plan: InputPlan)
    requires
        call_ensures(plan_move, (target,), plan),
    ensures
        plan.failure is None <==> -32768 <= target.x <= 32767 && -32768 <= target.y <= 32767,
        plan.failure is None ==> plan.steps@.len() == 1 && plan.steps@[0] is Motion
            && plan.steps@[0]->Motion_x == target.x && plan.steps@[0]->Motion_y == target.y,
        plan.failure is Some ==> plan.steps@.len() == 0,
{
}

/// The plan of a click moves to the target where it is to, and then presses
/// and releases the asked button as often as asked, and no other.
pub proof fn planned_clicks_are_as_asked(
    request: ClickRequest,
    target: PointerTarget,
    plan: InputPlan,
    at: int,
)
    requires
        call_ensures(plan_click, (&request, target), plan),
        plan.failure is None,
        request.count > 0,
    ensures
        ({
            let start = if target.moves {
                1int
            } else {
                0int
            };
            &&& plan.steps@.len() == start + 3 * request.count - 1
            &&& target.moves ==> plan.steps@[0] is Motion && plan.steps@[0]->Motion_x == target.x
                && plan.steps@[0]->Motion_y == target.y
            &&& 0 <= at < request.count ==> plan.steps@[start + 3 * at] == (InputStep::Button {
                button: request.button,
                pressed: true,
            }) && plan.steps@[start + 3 * at + 1] == (InputStep::Button {
                button: request.button,
                pressed: false,
            })
            &&& 0 <= at < request.count - 1 ==> plan.steps@[start + 3 * at + 2]
                == (InputStep::Pause { ms: 50 })
        }),
{
    let count = request.count as int;
    clicks_press_and_release(request.button, count, 3 * at);
    clicks_press_and_release(request.button, count, 3 * at + 1);
    clicks_press_and_release(request.button, count, 3 * at + 2);
    pointers_move_before_they_act(target, clicks(request.button, count));
}

/// The plan of a scroll moves to the target where it is to, and then ticks
/// towards the asked sides as often as asked.
#[verifier::rlimit(40)]
pub proof fn planned_scrolls_are_as_asked(
    request: ScrollRequest,
    target: PointerTarget,
    plan: InputPlan,
    at: int,
)
    requires
        call_ensures(plan_scroll, (&request, target), plan),
        plan.failure is None,
    ensures
        ({
            let start = if target.moves {
                1int
            } else {
                0int
            };
            let rows = if request.dy < 0 {
                -request.dy
            } else {
                request.dy as int
            };
            let columns = if request.dx < 0 {
                -request.dx
            } else {
                request.dx as int
            };
            let down = InputStep::Button { button: if request.dy < 0 {
                4
            } else {
                5
            }, pressed: true };
            let right = InputStep::Button { button: if request.dx < 0 {
                6
            } else {
                7
            }, pressed: true };
            &&& plan.steps@.len() == start + 2 * rows + 2 * columns
            &&& target.moves ==> plan.steps@[0] is Motion && plan.steps@[0]->Motion_x == target.x
                && plan.steps@[0]->Motion_y == target.y
            &&& 0 <= at < rows ==> plan.steps@[start + 2 * at] == down
            &&& 0 <= at < columns ==> plan.steps@[start + 2 * rows + 2 * at] == right
        }),
{
    scrolls_tick_towards_their_side(request.dx, request.dy, at);
    pointers_move_before_they_act(target, scroll_steps(request.dx, request.dy));
}

/// The plan of a drag holds the asked button from the start to the last point
/// of the path, and takes no longer than asked.
pub proof fn planned_drags_are_as_asked(
    request: DragRequest,
    ends: DragEnds,
    path: Vec<(i32, i32)>,
    plan: InputPlan,
    at: int,
)
    requires
        call_ensures(plan_drag, (&request, ends, &path), plan),
        request.steps > 0,
        plan.failure is None,
    ensures
        ({
            let pause = request.duration_ms / request.steps as u64;
            let stride = if pause > 0 {
                2int
            } else {
                1int
            };
            let steps = plan.steps@;
            &&& steps.len() == 5 + stride * path@.len()
            &&& steps[0] is Motion && steps[0]->Motion_x == ends.from.x && steps[0]->Motion_y
                == ends.from.y
            &&& steps[1] == (InputStep::Button { button: request.button, pressed: true })
            &&& steps[steps.len() - 2] == (InputStep::Button {
                button: request.button,
                pressed: false,
            })
            &&& 0 <= at < path@.len() ==> {
                let step = steps[3 + stride * at];
                &&& step is Motion && step->Motion_x == path@[at].0 && step->Motion_y == path@[at].1
                &&& pause > 0 ==> steps[4 + stride * at] == (InputStep::Pause { ms: pause })
            }
            &&& pause * request.steps <= request.duration_ms
            &&& request.duration_ms < (pause + 1) * request.steps
        }),
{
    drags_follow_their_path(
        request.button,
        ends.from,
        path@,
        request.duration_ms / request.steps as u64,
        at,
    );
    let steps = request.steps as int;
    let whole = request.duration_ms as int;
    vstd::arithmetic::div_mod::lemma_fundamental_div_mod(whole, steps);
    assert((whole / steps) * steps <= whole < (whole / steps + 1) * steps) by (nonlinear_arith)
        requires
            whole == steps * (whole / steps) + whole % steps,
            0 <= whole % steps < steps,
    ;
}

/// Typing a text presses and releases the key of each of its characters, one
/// character after the other: nothing is left out where two neighbours are the
/// same, and what is sent is what is charged.
pub proof fn texts_are_typed_in_full(
    controller: &mut Controller,
    request: TypeTextRequest,
    map: KeyboardMap,
    now: u64,
    plan: InputPlan,
    at: int,
)
    requires
        call_ensures(
            Controller::plan_text,
            (controller, &request, &map, now),
            Ok::<TextPlan, ControllerError>(TextPlan::Type(plan)),
        ),
        plan.failure is None,
    ensures
        map.strokes(request.text@) is Some,
        ({
            let strokes = map.strokes(request.text@)->0;
            let plain = forall|i: int|
                0 <= i < strokes.len() ==> !(#[trigger] strokes[i]).shift && !strokes[i].mode_switch;
            &&& strokes.len() == request.text@.len()
            &&& plan.steps@.len() == stroke_events(strokes)
            &&& plain ==> plan.steps@.len() == 2 * request.text@.len()
            &&& 0 <= at < request.text@.len() ==> {
                let stroke = strokes[at];
                let before = stroke_events(strokes.take(at)) + (if stroke.shift {
                    1int
                } else {
                    0int
                }) + (if stroke.mode_switch {
                    1int
                } else {
                    0int
                });
                &&& map.stroke_of(keyboard::keysym_of(request.text@[at]) as u32) == Some(stroke)
                &&& plan.steps@[before] == (InputStep::Key {
                    keycode: stroke.keycode,
                    pressed: true,
                })
                &&& plan.steps@[before + 1] == (InputStep::Key {
                    keycode: stroke.keycode,
                    pressed: false,
                })
                &&& plain ==> before == 2 * at
            }
        }),
{
    let text = request.text@;
    map.texts_are_typed_by_character(text);
    let strokes = map.strokes(text)->0;
    every_stroke_is_typed(map, strokes, at);
    if forall|i: int|
        0 <= i < strokes.len() ==> !(#[trigger] strokes[i]).shift && !strokes[i].mode_switch {
        lemma_plain_events(strokes, strokes.len() as int);
        assert(strokes.take(strokes.len() as int) =~= strokes);
        if 0 <= at < text.len() {
            lemma_plain_events(strokes, at);
        }
    }
    if 0 <= at < text.len() {
        let _ = text[at];
        strokes_tap_their_key(map, strokes[at]);
        let start = stroke_events(strokes.take(at));
        let end = stroke_events(strokes.take(at + 1));
        let own = plan.steps@.subrange(start, end);
        let keys = (end - start) / 2;
        assert(own[keys - 1] == plan.steps@[start + keys - 1]);
        assert(own[keys] == plan.steps@[start + keys]);
    }
}

/// Strokes without modifiers are two events each.
proof fn lemma_plain_events(strokes: Seq<KeyStroke>, end: int)
    requires
        0 <= end <= strokes.len(),
        forall|i: int|
            0 <= i < strokes.len() ==> !(#[trigger] strokes[i]).shift && !strokes[i].mode_switch,
    ensures
        stroke_events(strokes.take(end)) == 2 * end,
    decreases end,
{
    if end > 0 {
        lemma_plain_events(strokes, end - 1);
        assert(strokes.take(end).drop_last() =~= strokes.take(end - 1));
        assert(strokes.take(end).last() == strokes[end - 1]);
    }
}

/// A text that can be typed, and whose events are affordable, is typed or
/// pasted as asked, and refused only where keystrokes are asked for and some
/// character has none, or where it is too much at once.
pub proof fn texts_are_typed_or_pasted_as_asked(
    controller: &mut Controller,
    request: TypeTextRequest,
    map: KeyboardMap,
    now: u64,
    result: Result<TextPlan, ControllerError>,
)
    requires
        call_ensures(Controller::plan_text, (controller, &request, &map, now), result),
    ensures
        ({
            let typable = forall|i: int|
                0 <= i < request.text@.len() ==> map.stroke_of(
                    keyboard::keysym_of(#[trigger] request.text@[i]) as u32,
                ) is Some;
            &&& request.method == TextMethod::Clipboard || (request.method == TextMethod::Auto
                && !typable) <==> result is Ok && result->Ok_0 is Paste
            &&& request.method == TextMethod::Keystrokes && !typable ==> result is Err
                && result->Err_0.code == ErrorCode::UnsupportedCapability
            &&& request.method != TextMethod::Clipboard && typable ==> {
                ||| result is Ok && result->Ok_0 is Type
                ||| result is Err && result->Err_0.code == ErrorCode::RateLimited
                ||| result is Err && result->Err_0.code == ErrorCode::InvalidInput
            }
        }),
{
    map.texts_are_typed_by_character(request.text@);
    pasting_is_the_last_resort(request, map);
}

/// A request that failed lets go of every key and then of every button that is
/// held, each in the order in which it was pressed; one that succeeded leaves
/// everything as it is.
pub proof fn failed_requests_leave_nothing_held(
    held: &mut HeldInput,
    failed: bool,
    steps: Vec<InputStep>,
    at: int,
)
    requires
        call_ensures(HeldInput::after_request, (held, failed), steps),
    ensures
        !failed ==> steps@.len() == 0 && *final(held) == *old(held),
        failed ==> {
            let keys = old(held).keys@.len() as int;
            &&& final(held).keys@.len() == 0 && final(held).buttons@.len() == 0
            &&& steps@.len() == keys + old(held).buttons@.len()
            &&& 0 <= at < keys ==> steps@[at] == (InputStep::Key {
                keycode: old(held).keys@[at],
                pressed: false,
            })
            &&& 0 <= at < old(held).buttons@.len() ==> steps@[keys + at] == (InputStep::Button {
                button: old(held).buttons@[at],
                pressed: false,
            })
        },
{
}

} // verus!
