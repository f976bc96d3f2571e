//! Requests, replies and descriptions of the desktop.

use vstd::prelude::*;

use crate::text;
use crate::text::{contains_text, to_lowercase};

verus! {

/// What a controller is configured with.
#[derive(Debug)]
pub struct ControllerConfig {
    pub display: String,
    pub allow_window_classes: Vec<String>,
    pub max_input_events_per_second: u32,
    pub paste_chord: Vec<String>,
}

/// Whether an X11 extension is present, under its short name.
#[derive(Debug)]
pub struct ExtensionInfo {
    pub name: String,
    pub present: bool,
}

/// What the display offers.
#[derive(Debug)]
pub struct Capabilities {
    pub display: String,
    pub screen: ScreenInfo,
    pub monitors: Vec<MonitorInfo>,
    pub extensions: Vec<ExtensionInfo>,
    pub ewmh: bool,
    pub security: SecurityInfo,
}

/// The size and depth of the screen.
#[derive(Debug, Clone, Copy, PartialEq, Eq, Structural)]
pub struct ScreenInfo {
    pub width: u16,
    pub height: u16,
    pub depth: u8,
}

/// One monitor.
#[derive(Debug)]
pub struct MonitorInfo {
    pub name: String,
    pub primary: bool,
    pub geometry: Geometry,
}

/// The active safety controls.
#[derive(Debug, Clone, Copy, PartialEq, Eq, Structural)]
pub struct SecurityInfo {
    pub window_allowlist_enabled: bool,
    pub input_events_per_second: u32,
}

/// A rectangle in screen coordinates.
#[derive(Debug, Clone, Copy, PartialEq, Eq, Structural)]
pub struct Geometry {
    pub x: i32,
    pub y: i32,
    pub width: u32,
    pub height: u32,
}

/// The instance and class names of a window.
#[derive(Debug, PartialEq, Eq)]
pub struct WindowClass {
    pub instance: Option<String>,
    pub name: Option<String>,
}

impl Clone for WindowClass {
    fn clone(&self) -> (copy: Self)
        ensures
            copy == *self,
    {
        WindowClass { instance: clone_opt(&self.instance), name: clone_opt(&self.name) }
    }
}

/// Copies an optional text.
pub(crate) fn clone_opt(text: &Option<String>) -> (copy: Option<String>)
    ensures
        copy == *text,
{
    match text {
        Some(value) => Some(value.clone()),
        None => None,
    }
}

/// What is known of one window.
#[derive(Debug, PartialEq, Eq)]
pub struct WindowInfo {
    pub window_ref: String,
    pub xid: String,
    pub title: String,
    pub class: WindowClass,
    pub pid: Option<u32>,
    pub desktop: Option<u32>,
    pub geometry: Geometry,
    pub mapped: bool,
}

impl Clone for WindowInfo {
    fn clone(&self) -> (copy: Self)
        ensures
            copy == *self,
    {
        WindowInfo {
            window_ref: self.window_ref.clone(),
            xid: self.xid.clone(),
            title: self.title.clone(),
            class: self.class.clone(),
            pid: self.pid,
            desktop: self.desktop,
            geometry: self.geometry,
            mapped: self.mapped,
        }
    }
}

/// What is known of one window, with its texts as sequences.
#[verifier::ext_equal]
pub struct WindowView {
    pub window_ref: Seq<char>,
    pub xid: Seq<char>,
    pub title: Seq<char>,
    pub instance: Option<Seq<char>>,
    pub name: Option<Seq<char>>,
    pub pid: Option<u32>,
    pub desktop: Option<u32>,
    pub geometry: Geometry,
    pub mapped: bool,
}

impl View for WindowInfo {
    type V = WindowView;

    open spec fn view(&self) -> WindowView {
        WindowView {
            window_ref: self.window_ref@,
            xid: self.xid@,
            title: self.title@,
            instance: text::opt_text(self.class.instance),
            name: text::opt_text(self.class.name),
            pid: self.pid,
            desktop: self.desktop,
            geometry: self.geometry,
            mapped: self.mapped,
        }
    }
}

/// What is known of some windows.
pub open spec fn window_views(windows: Seq<WindowInfo>) -> Seq<WindowView> {
    windows.map_values(|window: WindowInfo| window@)
}

/// Which windows are meant. An absent field admits every window.
#[derive(Debug)]
pub struct WindowSelector {
    pub title_contains: Option<String>,
    pub class: Option<String>,
    pub class_contains: Option<String>,
    pub pid: Option<u32>,
}

impl Default for WindowSelector {
    fn default() -> (selector: Self)
        ensures
            selector.title_contains is None,
            selector.class is None,
            selector.class_contains is None,
            selector.pid is None,
    {
        WindowSelector { title_contains: None, class: None, class_contains: None, pid: None }
    }
}

/// Which windows to list.
#[derive(Debug)]
pub struct ListWindowsRequest {
    pub selector: Option<WindowSelector>,
    pub include_unmapped: bool,
}

impl Default for ListWindowsRequest {
    fn default() -> (request: Self)
        ensures
            request.selector is None,
            !request.include_unmapped,
    {
        ListWindowsRequest { selector: None, include_unmapped: false }
    }
}

/// The windows of the desktop from bottom to top.
#[derive(Debug)]
pub struct WindowList {
    pub desktop_generation: u64,
    pub active_window: Option<String>,
    pub windows: Vec<WindowInfo>,
}

/// A point of the desktop.
///
/// The coordinates of `WindowRelative` are fractions of the window's extent,
/// held as the bit patterns of binary64 numbers.
#[allow(inconsistent_fields)]
#[derive(Debug, PartialEq, Eq)]
pub enum Position {
    Screen { x: i32, y: i32 },
    Window { window_ref: String, x: i32, y: i32 },
    WindowRelative { window_ref: String, x: u64, y: u64 },
}

impl Clone for Position {
    fn clone(&self) -> (copy: Self)
        ensures
            copy == *self,
    {
        match self {
            Position::Screen { x, y } => Position::Screen { x: *x, y: *y },
            Position::Window { window_ref, x, y } => Position::Window {
                window_ref: window_ref.clone(),
                x: *x,
                y: *y,
            },
            Position::WindowRelative { window_ref, x, y } => Position::WindowRelative {
                window_ref: window_ref.clone(),
                x: *x,
                y: *y,
            },
        }
    }
}

/// The part of the desktop that an observation covers.
#[derive(Debug, PartialEq, Eq)]
pub enum ObserveTarget {
    Desktop,
    Window { window_ref: String },
    Region { x: i32, y: i32, width: u32, height: u32 },
}

impl Default for ObserveTarget {
    fn default() -> (target: Self)
        ensures
            target is Desktop,
    {
        ObserveTarget::Desktop
    }
}

impl Clone for ObserveTarget {
    fn clone(&self) -> (copy: Self)
        ensures
            copy == *self,
    {
        match self {
            ObserveTarget::Desktop => ObserveTarget::Desktop,
            ObserveTarget::Window { window_ref } => ObserveTarget::Window {
                window_ref: window_ref.clone(),
            },
            ObserveTarget::Region { x, y, width, height } => ObserveTarget::Region {
                x: *x,
                y: *y,
                width: *width,
                height: *height,
            },
        }
    }
}

/// What an observation target says, with its text as a sequence.
pub enum TargetView {
    Desktop,
    Window { window_ref: Seq<char> },
    Region { x: i32, y: i32, width: u32, height: u32 },
}

impl View for ObserveTarget {
    type V = TargetView;

    open spec fn view(&self) -> TargetView {
        match self {
            ObserveTarget::Desktop => TargetView::Desktop,
            ObserveTarget::Window { window_ref } => TargetView::Window { window_ref: window_ref@ },
            ObserveTarget::Region { x, y, width, height } => TargetView::Region {
                x: *x,
                y: *y,
                width: *width,
                height: *height,
            },
        }
    }
}

impl ObserveTarget {
    /// Whether two targets are the same.
    pub fn same(&self, other: &ObserveTarget) -> (same: bool)
        ensures
            same == (self@ == other@),
    {
        match (self, other) {
            (ObserveTarget::Desktop, ObserveTarget::Desktop) => true,
            (
                ObserveTarget::Window { window_ref: first },
                ObserveTarget::Window { window_ref: second },
            ) => text::same_text(first.as_str(), second.as_str()),
            (
                ObserveTarget::Region { x, y, width, height },
                ObserveTarget::Region { x: other_x, y: other_y, width: other_w, height: other_h },
            ) => *x == *other_x && *y == *other_y && *width == *other_w && *height == *other_h,
            _ => false,
        }
    }
}

/// How an observation is delivered: whole, or as the change since a frame.
#[derive(Debug, Clone, Copy, PartialEq, Eq, Structural)]
pub enum ObservationDelivery {
    Full,
    Delta { since_frame_id: u64 },
}

impl Default for ObservationDelivery {
    fn default() -> (delivery: Self)
        ensures
            delivery == ObservationDelivery::Full,
    {
        ObservationDelivery::Full
    }
}

/// What to observe.
#[derive(Debug)]
pub struct ObserveRequest {
    pub target: ObserveTarget,
    pub include_windows: bool,
    pub delivery: ObservationDelivery,
}

impl Default for ObserveRequest {
    fn default() -> (request: Self)
        ensures
            request.target is Desktop,
            request.include_windows,
            request.delivery == ObservationDelivery::Full,
    {
        ObserveRequest {
            target: ObserveTarget::Desktop,
            include_windows: true,
            delivery: ObservationDelivery::Full,
        }
    }
}

/// Where the pointer is.
#[derive(Debug, Clone, Copy, PartialEq, Eq, Structural)]
pub struct PointerInfo {
    pub x: i32,
    pub y: i32,
}

/// The desktop state that goes with a frame.
#[derive(Debug)]
pub struct ObservationMetadata {
    pub frame_id: u64,
    pub desktop_generation: u64,
    pub bounds: Geometry,
    pub pointer: PointerInfo,
    pub active_window: Option<String>,
    pub windows: Vec<WindowInfo>,
}

/// One image of an observation and the part of the screen that it shows.
#[derive(Debug, Clone, Copy, PartialEq, Eq, Structural)]
pub struct FramePatch {
    pub bounds: Geometry,
    pub image_index: usize,
}

/// A frame: its metadata, and its images as PNG files.
#[derive(Debug)]
pub struct Observation {
    pub metadata: ObservationMetadata,
    pub base_frame_id: Option<u64>,
    pub complete: bool,
    pub patches: Vec<FramePatch>,
    pub images: Vec<Vec<u8>>,
    pub signature: u64,
}

/// How the observation after an action is delivered.
#[derive(Debug, Clone, Copy, PartialEq, Eq, Structural)]
pub enum AfterDelivery {
    Full,
    Delta,
}

/// What to observe once an action has settled.
#[derive(Debug)]
pub struct ObserveAfter {
    pub quiet_ms: u64,
    pub timeout_ms: u64,
    pub require_change: bool,
    pub target: ObserveTarget,
    pub include_windows: bool,
    pub delivery: AfterDelivery,
}

impl Default for ObserveAfter {
    fn default() -> (after: Self)
        ensures
            after.quiet_ms == 150,
            after.timeout_ms == 3_000,
            !after.require_change,
            after.target is Desktop,
            after.include_windows,
            after.delivery == AfterDelivery::Full,
    {
        ObserveAfter {
            quiet_ms: 150,
            timeout_ms: 3_000,
            require_change: false,
            target: ObserveTarget::Desktop,
            include_windows: true,
            delivery: AfterDelivery::Full,
        }
    }
}

/// The state that a mutation expects. `prevalidated` marks a guard that a batch has checked.
#[derive(Debug, PartialEq, Eq)]
pub struct StateGuard {
    pub frame_id: Option<u64>,
    pub accessibility_generation: Option<u64>,
    pub expected_active_window: Option<String>,
    pub prevalidated: bool,
}

impl Default for StateGuard {
    fn default() -> (guard: Self)
        ensures
            guard.frame_id is None,
            guard.accessibility_generation is None,
            guard.expected_active_window is None,
            !guard.prevalidated,
    {
        StateGuard {
            frame_id: None,
            accessibility_generation: None,
            expected_active_window: None,
            prevalidated: false,
        }
    }
}

impl Clone for StateGuard {
    fn clone(&self) -> (copy: Self)
        ensures
            copy == *self,
    {
        StateGuard {
            frame_id: self.frame_id,
            accessibility_generation: self.accessibility_generation,
            expected_active_window: clone_opt(&self.expected_active_window),
            prevalidated: self.prevalidated,
        }
    }
}

/// Asks to focus a window.
#[derive(Debug)]
pub struct FocusWindowRequest {
    pub window_ref: String,
    pub guard: StateGuard,
    pub observe_after: Option<ObserveAfter>,
}

/// Asks to move the pointer.
#[derive(Debug)]
pub struct MovePointerRequest {
    pub position: Position,
    pub guard: StateGuard,
    pub observe_after: Option<ObserveAfter>,
}

/// Asks for clicks at a position, or where the pointer is.
#[derive(Debug)]
pub struct ClickRequest {
    pub position: Option<Position>,
    pub button: u8,
    pub count: u8,
    pub guard: StateGuard,
    pub observe_after: Option<ObserveAfter>,
}

impl Default for ClickRequest {
    fn default() -> (request: Self)
        ensures
            request.position is None,
            request.button == 1,
            request.count == 1,
            request.guard.frame_id is None,
            request.guard.accessibility_generation is None,
            request.guard.expected_active_window is None,
            !request.guard.prevalidated,
            request.observe_after is None,
    {
        ClickRequest {
            position: None,
            button: 1,
            count: 1,
            guard: StateGuard::default(),
            observe_after: None,
        }
    }
}

/// Asks for a drag.
#[derive(Debug)]
pub struct DragRequest {
    pub from: Position,
    pub to: Position,
    pub button: u8,
    pub duration_ms: u64,
    pub steps: u16,
    pub guard: StateGuard,
    pub observe_after: Option<ObserveAfter>,
}

impl Default for DragRequest {
    fn default() -> (request: Self)
        ensures
            request.from == (Position::Screen { x: 0, y: 0 }),
            request.to == (Position::Screen { x: 0, y: 0 }),
            request.button == 1,
            request.duration_ms == 300,
            request.steps == 10,
            request.guard.frame_id is None,
            request.guard.accessibility_generation is None,
            request.guard.expected_active_window is None,
            !request.guard.prevalidated,
            request.observe_after is None,
    {
        DragRequest {
            from: Position::Screen { x: 0, y: 0 },
            to: Position::Screen { x: 0, y: 0 },
            button: 1,
            duration_ms: 300,
            steps: 10,
            guard: StateGuard::default(),
            observe_after: None,
        }
    }
}

/// Asks for scroll ticks at a position, or where the pointer is.
#[derive(Debug)]
pub struct ScrollRequest {
    pub position: Option<Position>,
    pub dx: i32,
    pub dy: i32,
    pub guard: StateGuard,
    pub observe_after: Option<ObserveAfter>,
}

/// What to do with the keys of a chord.
#[derive(Debug, Clone, Copy, PartialEq, Eq, Structural)]
pub enum KeyMode {
    Press,
    Down,
    Up,
}

/// Asks for a key chord.
#[derive(Debug)]
pub struct KeyRequest {
    pub keys: Vec<String>,
    pub mode: KeyMode,
    pub guard: StateGuard,
    pub observe_after: Option<ObserveAfter>,
}

/// How text is typed.
#[derive(Debug, Clone, Copy, PartialEq, Eq, Structural)]
pub enum TextMethod {
    Auto,
    Keystrokes,
    Clipboard,
}

/// Asks to type text.
#[derive(Debug)]
pub struct TypeTextRequest {
    pub text: String,
    pub method: TextMethod,
    pub guard: StateGuard,
    pub observe_after: Option<ObserveAfter>,
}

/// What to do with a window.
#[derive(Debug, Clone, Copy, PartialEq, Eq, Structural)]
pub enum WindowAction {
    Move { x: i32, y: i32 },
    Resize { width: u32, height: u32 },
    MoveResize { x: i32, y: i32, width: u32, height: u32 },
    Minimize,
    Maximize,
    Restore,
    Close { force: bool },
}

/// Asks for an action on a window.
#[derive(Debug)]
pub struct WindowActionRequest {
    pub window_ref: String,
    pub action: WindowAction,
    pub guard: StateGuard,
    pub observe_after: Option<ObserveAfter>,
}

/// What a controller can wait for.
#[derive(Debug)]
pub enum WaitCondition {
    Change { since_frame_id: Option<u64>, target: ObserveTarget },
    Idle { quiet_ms: u64, target: ObserveTarget },
    Window { selector: WindowSelector },
    WindowState {
        window_ref: String,
        mapped: Option<bool>,
        active: Option<bool>,
        title_contains: Option<String>,
    },
    Focus { window_ref: String },
    WindowClosed { window_ref: String },
}

/// The quiet period of an idle wait that names none.
pub fn default_quiet_ms() -> (ms: u64)
    ensures
        ms == 150,
{
    150
}

/// Asks to wait.
#[derive(Debug)]
pub struct WaitRequest {
    pub condition: WaitCondition,
    pub timeout_ms: u64,
    pub observe: bool,
}

/// The time limit of a wait that names none.
pub fn default_timeout_ms() -> (ms: u64)
    ensures
        ms == 3_000,
{
    3_000
}

/// The default of a switch that is on unless turned off.
pub fn default_true() -> (on: bool)
    ensures
        on,
{
    true
}

/// The outcome of an action.
#[derive(Debug)]
pub struct ActionResult {
    pub ok: bool,
    pub settled: bool,
    pub observation: Option<Observation>,
    pub warnings: Vec<String>,
}

/// The outcome of a wait.
#[derive(Debug)]
pub struct WaitResult {
    pub matched: bool,
    pub window: Option<WindowInfo>,
    pub observation: Option<Observation>,
}

/// Whether an optional name equals a wanted name but for case.
pub open spec fn name_is(name: Option<String>, wanted: Seq<char>) -> bool {
    name is Some && text::lowercase(name->0@) == text::lowercase(wanted)
}

/// Whether an optional name holds a wanted part but for case.
pub open spec fn name_has(name: Option<String>, wanted: Seq<char>) -> bool {
    name is Some && text::occurs(text::lowercase(name->0@), text::lowercase(wanted))
}

/// Whether a window is one that a selector means.
pub open spec fn selects(selector: WindowSelector, window: WindowInfo) -> bool {
    &&& selector.title_contains is Some ==> text::occurs(
        text::lowercase(window.title@),
        text::lowercase(selector.title_contains->0@),
    )
    &&& selector.class is Some ==> name_is(window.class.instance, selector.class->0@) || name_is(
        window.class.name,
        selector.class->0@,
    )
    &&& selector.class_contains is Some ==> name_has(
        window.class.instance,
        selector.class_contains->0@,
    ) || name_has(window.class.name, selector.class_contains->0@)
    &&& selector.pid is Some ==> window.pid == selector.pid
}

/// Whether an optional name equals a name in lowercase, but for case.
fn lowercase_is(name: &Option<String>, wanted: &String, Ghost(given): Ghost<Seq<char>>) -> (same:
    bool)
    requires
        wanted@ == text::lowercase(given),
    ensures
        same == name_is(*name, given),
{
    match name {
        Some(value) => to_lowercase(value.as_str()) == *wanted,
        None => false,
    }
}

/// Whether an optional name holds a part in lowercase, but for case.
fn lowercase_has(
    name: &Option<String>,
    wanted: &String,
    Ghost(given): Ghost<Seq<char>>,
) -> (found: bool)
    requires
        wanted@ == text::lowercase(given),
    ensures
        found == name_has(*name, given),
{
    match name {
        Some(value) => contains_text(to_lowercase(value.as_str()).as_str(), wanted.as_str()),
        None => false,
    }
}

impl WindowSelector {
    /// Whether a window is one that this selector means. Titles and class
    /// names are compared without regard to case.
    #[must_use]
    pub fn matches(&self, window: &WindowInfo) -> (matched: bool)
        ensures
            matched == selects(*self, *window),
    {
        if let Some(title) = &self.title_contains {
            if !contains_text(
                to_lowercase(window.title.as_str()).as_str(),
                to_lowercase(title.as_str()).as_str(),
            ) {
                return false;
            }
        }
        if let Some(class) = &self.class {
            let wanted = to_lowercase(class.as_str());
            if !lowercase_is(&window.class.instance, &wanted, Ghost(class@)) && !lowercase_is(
                &window.class.name,
                &wanted,
                Ghost(class@),
            ) {
                return false;
            }
        }
        if let Some(class) = &self.class_contains {
            let wanted = to_lowercase(class.as_str());
            if !lowercase_has(&window.class.instance, &wanted, Ghost(class@)) && !lowercase_has(
                &window.class.name,
                &wanted,
                Ghost(class@),
            ) {
                return false;
            }
        }
        if let Some(pid) = self.pid {
            match window.pid {
                Some(actual) => {
                    if actual != pid {
                        return false;
                    }
                },
                None => {
                    return false;
                },
            }
        }
        true
    }
}

/// A window selector means a window exactly where each of its fields that is
/// present holds by itself: the title holds a part, one of the two class names
/// is or holds a text, all but for case, and the process is the given one.
pub proof fn window_selectors_need_every_field(
    selector: WindowSelector,
    window: WindowInfo,
    matched: bool,
)
    requires
        call_ensures(WindowSelector::matches, (&selector, &window), matched),
    ensures
        ({
            let small = |name: String| text::lowercase(name@);
            let titled = text::occurs(small(window.title), small(selector.title_contains->0));
            let named = {
                ||| window.class.instance is Some && small(window.class.instance->0) == small(
                    selector.class->0,
                )
                ||| window.class.name is Some && small(window.class.name->0) == small(
                    selector.class->0,
                )
            };
            let partly_named = {
                ||| window.class.instance is Some && text::occurs(
                    small(window.class.instance->0),
                    small(selector.class_contains->0),
                )
                ||| window.class.name is Some && text::occurs(
                    small(window.class.name->0),
                    small(selector.class_contains->0),
                )
            };
            &&& matched && selector.title_contains is Some ==> titled
            &&& matched && selector.class is Some ==> named
            &&& matched && selector.class_contains is Some ==> partly_named
            &&& matched && selector.pid is Some ==> window.pid is Some && window.pid->0
                == selector.pid->0
            &&& !matched ==> {
                ||| selector.title_contains is Some && !titled
                ||| selector.class is Some && !named
                ||| selector.class_contains is Some && !partly_named
                ||| selector.pid is Some && (window.pid is None || window.pid->0 != selector.pid->0)
            }
        }),
        matched == selects(selector, window),
{
}

/// Two targets are the same exactly where they are of one kind and name the
/// same window or the same rectangle.
pub proof fn targets_are_compared_whole(first: ObserveTarget, second: ObserveTarget, same: bool)
    requires
        call_ensures(ObserveTarget::same, (&first, &second), same),
    ensures
        same <==> match (first, second) {
            (ObserveTarget::Desktop, ObserveTarget::Desktop) => true,
            (
                ObserveTarget::Window { window_ref: one },
                ObserveTarget::Window { window_ref: other },
            ) => one@ == other@,
            (
                ObserveTarget::Region { x, y, width, height },
                ObserveTarget::Region { x: to_x, y: to_y, width: to_width, height: to_height },
            ) => x == to_x && y == to_y && width == to_width && height == to_height,
            _ => false,
        },
        same <==> first@ == second@,
{
}

} // verus!
