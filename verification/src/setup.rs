//! What is found out about a display when a controller starts.

use vstd::prelude::*;

use crate::allowlist;
use crate::allowlist::Allowlist;
use crate::controller::{Controller, HeldInput};
use crate::error;
use crate::error::{ControllerError, ErrorCode};
use crate::frames::FrameHistory;
use crate::geometry;
use crate::geometry::clip_geometry;
use crate::rate::RateLimiter;
use crate::text;
use crate::text::{format_wide, from_utf8_lossy, same_text, split, texts, trim};
use crate::types::{
    Capabilities, ControllerConfig, ExtensionInfo, Geometry, MonitorInfo, ObserveTarget,
    ScreenInfo, SecurityInfo, WindowInfo,
};
use crate::windows::{resolve_window, Topology, WindowRefs};

verus! {

/// The extensions that are looked for: the short name of each, and the name
/// under which a display knows it.
pub fn extension_names() -> (names: Vec<(&'static str, &'static str)>)
    ensures
        names@ == seq![
            ("xtest", "XTEST"),
            ("randr", "RANDR"),
            ("xfixes", "XFIXES"),
            ("damage", "DAMAGE"),
            ("shm", "MIT-SHM"),
            ("composite", "Composite"),
            ("xkb", "XKEYBOARD"),
        ],
{
    vec![
        ("xtest", "XTEST"),
        ("randr", "RANDR"),
        ("xfixes", "XFIXES"),
        ("damage", "DAMAGE"),
        ("shm", "MIT-SHM"),
        ("composite", "Composite"),
        ("xkb", "XKEYBOARD"),
    ]
}

/// Whether an extension is among those that are present, from a place on.
pub open spec fn present_from(
    extensions: Seq<ExtensionInfo>,
    name: Seq<char>,
    from: int,
) -> bool
    decreases extensions.len() - from,
{
    if from >= extensions.len() {
        false
    } else if extensions[from].name@ == name {
        extensions[from].present
    } else {
        present_from(extensions, name, from + 1)
    }
}

/// Whether an extension is present, by its short name.
pub fn is_present(extensions: &Vec<ExtensionInfo>, name: &str) -> (present: bool)
    ensures
        present == present_from(extensions@, name@, 0),
{
    let mut at: usize = 0;
    while at < extensions.len()
        invariant
            at <= extensions.len(),
            present_from(extensions@, name@, 0) == present_from(extensions@, name@, at as int),
        decreases extensions.len() - at,
    {
        if same_text(extensions[at].name.as_str(), name) {
            return extensions[at].present;
        }
        at += 1;
    }
    false
}

/// What was read of a monitor. The name is that of its atom, where it could be had.
#[derive(Debug)]
pub struct MonitorReading {
    pub name: Option<Vec<u8>>,
    pub primary: bool,
    pub x: i16,
    pub y: i16,
    pub width: u16,
    pub height: u16,
}

/// Whether a monitor is described as it was read. One without a name goes by
/// its number, counted from one.
pub open spec fn describes(info: MonitorInfo, reading: MonitorReading, place: int) -> bool {
    &&& info.name@ == (match reading.name {
        Some(bytes) => text::utf8_lossy(bytes@),
        None => "monitor-"@ + text::decimal((place + 1) as nat),
    })
    &&& info.primary == reading.primary
    &&& info.geometry == (Geometry {
        x: reading.x as i32,
        y: reading.y as i32,
        width: reading.width as u32,
        height: reading.height as u32,
    })
}

/// Describes the monitors. Without any, the screen counts as one.
pub fn describe_monitors(readings: &Vec<MonitorReading>, screen: ScreenInfo) -> (monitors: Vec<
    MonitorInfo,
>)
    ensures
        if readings@.len() == 0 {
            &&& monitors@.len() == 1
            &&& monitors@[0].name@ == "screen"@
            &&& monitors@[0].primary
            &&& monitors@[0].geometry == (Geometry {
                x: 0,
                y: 0,
                width: screen.width as u32,
                height: screen.height as u32,
            })
        } else {
            &&& monitors@.len() == readings@.len()
            &&& forall|i: int|
                0 <= i < readings@.len() ==> describes(#[trigger] monitors@[i], readings@[i], i)
        },
{
    let mut monitors: Vec<MonitorInfo> = Vec::new();
    let mut at: usize = 0;
    while at < readings.len()
        invariant
            at <= readings.len(),
            monitors@.len() == at,
            forall|i: int| 0 <= i < at ==> describes(#[trigger] monitors@[i], readings@[i], i),
        decreases readings.len() - at,
    {
        let reading = &readings[at];
        let name: String = match &reading.name {
            Some(bytes) => from_utf8_lossy(bytes),
            None => "monitor-".to_owned().concat(format_wide(at as u128 + 1).as_str()),
        };
        monitors.push(
            MonitorInfo {
                name,
                primary: reading.primary,
                geometry: Geometry {
                    x: reading.x as i32,
                    y: reading.y as i32,
                    width: reading.width as u32,
                    height: reading.height as u32,
                },
            },
        );
        at += 1;
    }
    if monitors.len() == 0 {
        monitors.push(
            MonitorInfo {
                name: "screen".to_owned(),
                primary: true,
                geometry: Geometry {
                    x: 0,
                    y: 0,
                    width: screen.width as u32,
                    height: screen.height as u32,
                },
            },
        );
    }
    monitors
}

/// What a display offers to a controller.
pub fn describe_display(
    config: &ControllerConfig,
    screen: ScreenInfo,
    monitors: Vec<MonitorInfo>,
    extensions: Vec<ExtensionInfo>,
    ewmh: bool,
) -> (capabilities: Capabilities)
    ensures
        capabilities.display == config.display,
        capabilities.screen == screen,
        capabilities.monitors == monitors,
        capabilities.extensions == extensions,
        capabilities.ewmh == ewmh,
        capabilities.security.window_allowlist_enabled == (config.allow_window_classes@.len() > 0),
        capabilities.security.input_events_per_second == config.max_input_events_per_second,
{
    Capabilities {
        display: config.display.clone(),
        screen,
        monitors,
        extensions,
        ewmh,
        security: SecurityInfo {
            window_allowlist_enabled: config.allow_window_classes.len() > 0,
            input_events_per_second: config.max_input_events_per_second,
        },
    }
}

impl Controller {
    /// A controller at the start of its session. `now` is in nanoseconds.
    pub fn new(config: &ControllerConfig, capabilities: &Capabilities, now: u64) -> (result: Result<
        Controller,
        ControllerError,
    >)
        ensures
            match (
                result,
                allowlist::allowlist_problem(
                    texts(config.allow_window_classes@),
                    "invalid window-class glob "@,
                    "build window-class allowlist: "@,
                ),
            ) {
                (Ok(controller), None) => {
                    &&& controller.well_formed()
                    &&& controller.allowlist.patterns() == texts(config.allow_window_classes@)
                    &&& controller.screen_width == capabilities.screen.width
                    &&& controller.screen_height == capabilities.screen.height
                    &&& controller.xtest == present_from(capabilities.extensions@, "xtest"@, 0)
                    &&& controller.ewmh == capabilities.ewmh
                    &&& controller.refs@.issued.len() == 0
                    &&& controller.refs@.live == Map::<u32, int>::empty()
                    &&& controller.topology.generation == 1
                    &&& controller.topology.signature is None
                    &&& controller.history@.latest == 0
                    &&& controller.history@.frames.len() == 0
                    &&& controller.limiter@.rate == (if config.max_input_events_per_second == 0 {
                        1
                    } else {
                        config.max_input_events_per_second as int
                    })
                    &&& controller.limiter@.parts == controller.limiter@.full()
                    &&& controller.limiter@.refilled_at == now
                    &&& controller.held.keys@.len() == 0
                    &&& controller.held.buttons@.len() == 0
                },
                (Err(e), Some(message)) => error::final_error(e, ErrorCode::InvalidInput, message),
                _ => false,
            },
    {
        match Allowlist::build(
            &config.allow_window_classes,
            "invalid window-class glob ",
            "build window-class allowlist: ",
        ) {
            Err(e) => Err(e),
            Ok(allowlist) => Ok(
                Controller {
                    allowlist,
                    screen_width: capabilities.screen.width,
                    screen_height: capabilities.screen.height,
                    xtest: is_present(&capabilities.extensions, "xtest"),
                    ewmh: capabilities.ewmh,
                    refs: WindowRefs::new(),
                    topology: Topology::new(),
                    history: FrameHistory::new(),
                    limiter: RateLimiter::new(config.max_input_events_per_second, now),
                    held: HeldInput::new(),
                },
            ),
        }
    }

    /// The part of the screen that a target shows, or why it shows none.
    pub open spec fn target_part(&self, target: ObserveTarget, windows: Seq<WindowInfo>) -> Result<
        Geometry,
        (ErrorCode, Seq<char>),
    > {
        match target {
            ObserveTarget::Desktop => Ok(
                Geometry {
                    x: 0,
                    y: 0,
                    width: self.screen_width as u32,
                    height: self.screen_height as u32,
                },
            ),
            ObserveTarget::Window { window_ref } => match crate::windows::window_from(
                windows,
                window_ref@,
                0,
            ) {
                Some(window) => self.clipped(window.geometry),
                None => Err(
                    (
                        ErrorCode::StaleWindow,
                        crate::windows::stale_ref(self.refs@, window_ref@),
                    ),
                ),
            },
            ObserveTarget::Region { x, y, width, height } => self.clipped(
                Geometry { x, y, width, height },
            ),
        }
    }

    /// The part of a rectangle that is on the screen, or why there is none.
    pub open spec fn clipped(&self, part: Geometry) -> Result<Geometry, (ErrorCode, Seq<char>)> {
        if !geometry::nonempty(part) {
            Err((ErrorCode::InvalidInput, "capture dimensions must be non-zero"@))
        } else {
            match geometry::visible_part(
                part,
                self.screen_width as u32,
                self.screen_height as u32,
            ) {
                Some(visible) => Ok(visible),
                None => Err((ErrorCode::InvalidInput, "capture region is outside the screen"@)),
            }
        }
    }

    /// The part of the screen that a target shows.
    pub fn resolve_observe_target(&self, target: &ObserveTarget, windows: &Vec<WindowInfo>) -> (result:
        Result<Geometry, ControllerError>)
        requires
            self.well_formed(),
        ensures
            match (result, self.target_part(*target, windows@)) {
                (Ok(part), Ok(expected)) => part == expected,
                (Err(e), Err((code, message))) => error::final_error(e, code, message),
                _ => false,
            },
    {
        let width: u32 = self.screen_width as u32;
        let height: u32 = self.screen_height as u32;
        match target {
            ObserveTarget::Desktop => Ok(Geometry { x: 0, y: 0, width, height }),
            ObserveTarget::Window { window_ref } => match resolve_window(
                windows,
                &self.refs,
                window_ref.as_str(),
            ) {
                Ok(window) => clip_geometry(window.geometry, width, height),
                Err(e) => Err(e),
            },
            ObserveTarget::Region { x, y, width: wide, height: high } => clip_geometry(
                Geometry { x: *x, y: *y, width: *wide, height: *high },
                width,
                height,
            ),
        }
    }

    /// What a target shows lies on the screen.
    pub proof fn captures_stay_on_the_screen(
        &self,
        target: ObserveTarget,
        windows: Seq<WindowInfo>,
        x: int,
        y: int,
    )
        requires
            self.target_part(target, windows) is Ok,
            geometry::covers(self.target_part(target, windows)->Ok_0, x, y),
        ensures
            0 <= x < self.screen_width,
            0 <= y < self.screen_height,
    {
    }
}

/// The key names of a chord in which they are joined by a plus sign.
pub open spec fn chord_names(parts: Seq<Seq<char>>) -> Seq<Seq<char>>
    decreases parts.len(),
{
    if parts.len() == 0 {
        Seq::empty()
    } else if text::trimmed(parts.last()).len() > 0 {
        chord_names(parts.drop_last()).push(text::trimmed(parts.last()))
    } else {
        chord_names(parts.drop_last())
    }
}

/// The key names of a chord in which they are joined by a plus sign. A chord
/// without any is refused.
pub fn parse_chord(chord: &str) -> (result: Result<Vec<String>, String>)
    ensures
        match result {
            Ok(keys) => keys@.len() > 0 && texts(keys@) == chord_names(text::pieces(chord@, '+')),
            Err(message) => chord_names(text::pieces(chord@, '+')).len() == 0 && message@
                == "--paste-chord must contain at least one key"@,
        },
{
    let parts = split(chord, '+');
    let ghost all = texts(parts@);
    let mut keys: Vec<String> = Vec::new();
    let mut at: usize = 0;
    assert(texts(keys@) =~= Seq::empty());
    while at < parts.len()
        invariant
            at <= parts.len(),
            all == texts(parts@),
            texts(keys@) == chord_names(all.take(at as int)),
        decreases parts.len() - at,
    {
        assert(all.take(at + 1).drop_last() =~= all.take(at as int));
        assert(all.take(at + 1).last() == parts@[at as int]@);
        let key = trim(parts[at].as_str());
        if !key.as_str().is_empty() {
            let ghost before = keys@;
            let ghost name = key@;
            keys.push(key);
            assert(texts(keys@) =~= texts(before).push(name));
        }
        at += 1;
    }
    assert(all.take(all.len() as int) =~= all);
    if keys.len() == 0 {
        Err("--paste-chord must contain at least one key".to_owned())
    } else {
        Ok(keys)
    }
}

/// Refuses a rate limit that admits nothing.
pub fn check_rate(max_input_events_per_second: u32) -> (result: Result<(), String>)
    ensures
        match result {
            Ok(()) => max_input_events_per_second > 0,
            Err(message) => max_input_events_per_second == 0 && message@
                == "--max-input-events-per-second must be greater than zero"@,
        },
{
    if max_input_events_per_second == 0 {
        Err("--max-input-events-per-second must be greater than zero".to_owned())
    } else {
        Ok(())
    }
}

/// An extension is present exactly where the first entry under its name says so.
pub proof fn extensions_are_found_by_name(
    extensions: Vec<ExtensionInfo>,
    name: &str,
    present: bool,
    at: int,
)
    requires
        call_ensures(is_present, (&extensions, name), present),
    ensures
        0 <= at < extensions@.len() && extensions@[at].name@ == name@ && (forall|i: int|
            0 <= i < at ==> (#[trigger] extensions@[i]).name@ != name@) ==> present
            == extensions@[at].present,
        (forall|i: int| 0 <= i < extensions@.len() ==> (#[trigger] extensions@[i]).name@ != name@)
            ==> !present,
{
    lemma_present_from(extensions@, name@, 0, at);
}

/// Where a search for an extension ends.
proof fn lemma_present_from(
    extensions: Seq<ExtensionInfo>,
    name: Seq<char>,
    from: int,
    at: int,
)
    requires
        0 <= from,
    ensures
        from <= at < extensions.len() && extensions[at].name@ == name && (forall|i: int|
            from <= i < at ==> (#[trigger] extensions[i]).name@ != name) ==> present_from(
            extensions,
            name,
            from,
        ) == extensions[at].present,
        (forall|i: int| from <= i < extensions.len() ==> (#[trigger] extensions[i]).name@ != name)
            ==> !present_from(extensions, name, from),
    decreases extensions.len() - from,
{
    if from < extensions.len() && extensions[from].name@ != name {
        lemma_present_from(extensions, name, from + 1, at);
    }
}

/// The extensions that are looked for have the names under which a display
/// knows them.
pub proof fn extensions_have_their_names(names: Vec<(&'static str, &'static str)>)
    requires
        call_ensures(extension_names, (), names),
    ensures
        names@.len() == 7,
        names@.contains(("xtest", "XTEST")),
        names@.contains(("randr", "RANDR")),
        names@.contains(("xfixes", "XFIXES")),
        names@.contains(("damage", "DAMAGE")),
        names@.contains(("shm", "MIT-SHM")),
        names@.contains(("composite", "Composite")),
        names@.contains(("xkb", "XKEYBOARD")),
{
    assert(names@[0] == ("xtest", "XTEST"));
    assert(names@[1] == ("randr", "RANDR"));
    assert(names@[2] == ("xfixes", "XFIXES"));
    assert(names@[3] == ("damage", "DAMAGE"));
    assert(names@[4] == ("shm", "MIT-SHM"));
    assert(names@[5] == ("composite", "Composite"));
    assert(names@[6] == ("xkb", "XKEYBOARD"));
}

/// Every monitor is described, in order, with its own name or its number from
/// one on; without monitors the whole screen is one.
pub proof fn monitors_are_described_as_read(
    readings: Vec<MonitorReading>,
    screen: ScreenInfo,
    monitors: Vec<MonitorInfo>,
    at: int,
)
    requires
        call_ensures(describe_monitors, (&readings, screen), monitors),
    ensures
        readings@.len() == 0 ==> monitors@.len() == 1 && monitors@[0].primary
            && monitors@[0].geometry.x == 0 && monitors@[0].geometry.y == 0
            && monitors@[0].geometry.width == screen.width && monitors@[0].geometry.height
            == screen.height,
        readings@.len() > 0 ==> monitors@.len() == readings@.len(),
        0 <= at < readings@.len() ==> {
            let info = monitors@[at];
            let reading = readings@[at];
            &&& info.primary == reading.primary
            &&& info.geometry.x == reading.x && info.geometry.y == reading.y
            &&& info.geometry.width == reading.width && info.geometry.height == reading.height
            &&& reading.name is Some ==> info.name@ == text::utf8_lossy(reading.name->0@)
            &&& reading.name is None ==> info.name@ == "monitor-"@ + text::decimal(
                (at + 1) as nat,
            )
        },
{
    if 0 <= at < readings@.len() {
        let _ = monitors@[at];
    }
}

/// A display is described as it was found, and with the safety controls that
/// are in force.
pub proof fn displays_are_described_as_found(
    config: ControllerConfig,
    screen: ScreenInfo,
    monitors: Vec<MonitorInfo>,
    extensions: Vec<ExtensionInfo>,
    ewmh: bool,
    capabilities: Capabilities,
)
    requires
        call_ensures(
            describe_display,
            (&config, screen, monitors, extensions, ewmh),
            capabilities,
        ),
    ensures
        capabilities.display@ == config.display@,
        capabilities.screen == screen,
        capabilities.monitors == monitors,
        capabilities.extensions == extensions,
        capabilities.ewmh == ewmh,
        capabilities.security.window_allowlist_enabled <==> config.allow_window_classes@.len() > 0,
        capabilities.security.input_events_per_second == config.max_input_events_per_second,
{
}

impl Controller {
    /// A controller starts with the configured allowlist and rate, on the screen
    /// of its display, with nothing held, observed or referred to.
    pub proof fn controllers_start_as_configured(
        config: ControllerConfig,
        capabilities: Capabilities,
        now: u64,
        controller: Controller,
        at: int,
    )
        requires
            call_ensures(
                Controller::new,
                (&config, &capabilities, now),
                Ok::<Controller, ControllerError>(controller),
            ),
        ensures
            controller.allowlist.restricts() <==> config.allow_window_classes@.len() > 0,
            0 <= at < config.allow_window_classes@.len() ==> controller.allowlist.patterns()[at]
                == config.allow_window_classes@[at]@,
            controller.screen_width == capabilities.screen.width,
            controller.screen_height == capabilities.screen.height,
            controller.ewmh == capabilities.ewmh,
            config.max_input_events_per_second > 0 ==> controller.limiter@.rate
                == config.max_input_events_per_second,
            controller.limiter@.parts == controller.limiter@.rate * 1_000_000_000,
            controller.history@.frames.len() == 0 && controller.history@.latest == 0,
            controller.refs@.issued.len() == 0,
            controller.held.keys@.len() == 0 && controller.held.buttons@.len() == 0,
            0 <= at < capabilities.extensions@.len() && capabilities.extensions@[at].name@
                == "xtest"@ && (forall|i: int|
                0 <= i < at ==> (#[trigger] capabilities.extensions@[i]).name@ != "xtest"@)
                ==> controller.xtest == capabilities.extensions@[at].present,
    {
        lemma_present_from(capabilities.extensions@, "xtest"@, 0, at);
        assert(texts(config.allow_window_classes@).len() == config.allow_window_classes@.len());
    }

    /// An observation of the desktop covers the screen, one of a window or a
    /// region exactly those of its pixels that are on the screen.
    pub proof fn observations_cover_their_target(
        &self,
        target: ObserveTarget,
        windows: Vec<WindowInfo>,
        part: Geometry,
        x: int,
        y: int,
    )
        requires
            call_ensures(
                Controller::resolve_observe_target,
                (self, &target, &windows),
                Ok::<Geometry, ControllerError>(part),
            ),
        ensures
            ({
                let on_screen = 0 <= x < self.screen_width && 0 <= y < self.screen_height;
                match target {
                    ObserveTarget::Desktop => geometry::covers(part, x, y) <==> on_screen,
                    ObserveTarget::Region { x: left, y: top, width, height } => geometry::covers(
                        part,
                        x,
                        y,
                    ) <==> on_screen && left <= x < left + width && top <= y < top + height,
                    ObserveTarget::Window { window_ref } => exists|at: int|
                        0 <= at < windows@.len() && (#[trigger] windows@[at]).window_ref@
                            == window_ref@ && (geometry::covers(part, x, y) <==> on_screen
                            && geometry::covers(windows@[at].geometry, x, y)),
                }
            }),
    {
        match target {
            ObserveTarget::Desktop => {},
            ObserveTarget::Region { x: left, y: top, width, height } => {
                geometry::clipping_keeps_the_visible_pixels(
                    Geometry { x: left, y: top, width, height },
                    self.screen_width as u32,
                    self.screen_height as u32,
                    x,
                    y,
                );
            },
            ObserveTarget::Window { window_ref } => {
                crate::windows::references_mean_their_window(windows@, window_ref@, 0);
                let window = crate::windows::window_from(windows@, window_ref@, 0)->0;
                geometry::clipping_keeps_the_visible_pixels(
                    window.geometry,
                    self.screen_width as u32,
                    self.screen_height as u32,
                    x,
                    y,
                );
            },
        }
    }

    /// An observation is refused only where its window is gone or its target
    /// has no pixel on the screen.
    pub proof fn visible_targets_are_not_refused(
        &self,
        target: ObserveTarget,
        windows: Vec<WindowInfo>,
        result: Result<Geometry, ControllerError>,
        x: int,
        y: int,
    )
        requires
            call_ensures(Controller::resolve_observe_target, (self, &target, &windows), result),
            0 <= x < self.screen_width,
            0 <= y < self.screen_height,
        ensures
            target is Desktop ==> result is Ok,
            target matches ObserveTarget::Region { x: left, y: top, width, height } ==> (left <= x
                < left + width && top <= y < top + height ==> result is Ok),
            target matches ObserveTarget::Window { window_ref } ==> {
                let meant = crate::windows::window_from(windows@, window_ref@, 0);
                &&& meant is None ==> result is Err && result->Err_0.code == ErrorCode::StaleWindow
                &&& meant is Some && geometry::covers(meant->0.geometry, x, y) ==> result is Ok
            },
    {
        match target {
            ObserveTarget::Desktop => {},
            ObserveTarget::Region { x: left, y: top, width, height } => {
                geometry::clipping_keeps_the_visible_pixels(
                    Geometry { x: left, y: top, width, height },
                    self.screen_width as u32,
                    self.screen_height as u32,
                    x,
                    y,
                );
            },
            ObserveTarget::Window { window_ref } => {
                let window = crate::windows::window_from(windows@, window_ref@, 0)->0;
                geometry::clipping_keeps_the_visible_pixels(
                    window.geometry,
                    self.screen_width as u32,
                    self.screen_height as u32,
                    x,
                    y,
                );
            },
        }
    }
}

/// A chord consists of the key names between its plus signs, without white
/// space around them and without empty ones, in order.
pub proof fn chords_are_split_at_plus_signs(chord: &str, result: Result<Vec<String>, String>)
    requires
        call_ensures(parse_chord, (chord,), result),
    ensures
        ({
            let names = text::pieces(chord@, '+').map_values(
                |part: Seq<char>| text::trimmed(part),
            ).filter(|name: Seq<char>| name.len() > 0);
            &&& result is Ok <==> names.len() > 0
            &&& result is Ok ==> texts(result->Ok_0@) == names
        }),
{
    lemma_chord_names(text::pieces(chord@, '+'));
    if let Ok(keys) = result {
        assert(texts(keys@).len() == keys@.len());
    }
}

/// The names of a chord are its parts, trimmed and not empty.
proof fn lemma_chord_names(parts: Seq<Seq<char>>)
    ensures
        chord_names(parts) == parts.map_values(|part: Seq<char>| text::trimmed(part)).filter(
            |name: Seq<char>| name.len() > 0,
        ),
    decreases parts.len(),
{
    reveal(Seq::filter);
    let all = parts.map_values(|part: Seq<char>| text::trimmed(part));
    if parts.len() > 0 {
        lemma_chord_names(parts.drop_last());
        assert(all.drop_last() =~= parts.drop_last().map_values(
            |part: Seq<char>| text::trimmed(part),
        ));
    }
}

} // verus!
