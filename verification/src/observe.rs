//! Observations: which parts of the screen to capture, and what to deliver.

use vstd::prelude::*;

use crate::capture::CapturedImage;
use crate::damage;
use crate::damage::is_mostly_damaged;
use crate::error;
use crate::error::{error3, ControllerError, ErrorCode};
use crate::frames;
use crate::frames::{frame_signature, FrameHistory, MAX_PATCHES};
use crate::geometry;
use crate::text;
use crate::text::format_decimal;
use crate::types::{
    FramePatch, Geometry, Observation, ObservationDelivery, ObservationMetadata, ObserveRequest,
    PointerInfo, TargetView, WindowList,
};

verus! {

/// What to capture for an observation.
#[derive(Debug)]
pub enum CapturePlan {
    /// The whole target.
    Full,
    /// Nothing: the target is as it was in a frame of this signature.
    Unchanged { signature: u64 },
    /// The parts that were damaged.
    Patches { areas: Vec<Geometry> },
    /// The whole target, which may be as it was in a frame of this signature.
    Compare { signature: u64 },
}

/// What a capture plan says.
#[verifier::ext_equal]
pub enum Plan {
    Full,
    Unchanged { signature: u64 },
    Patches { areas: Seq<Geometry> },
    Compare { signature: u64 },
}

impl View for CapturePlan {
    type V = Plan;

    open spec fn view(&self) -> Plan {
        match self {
            CapturePlan::Full => Plan::Full,
            CapturePlan::Unchanged { signature } => Plan::Unchanged { signature: *signature },
            CapturePlan::Patches { areas } => Plan::Patches { areas: areas@ },
            CapturePlan::Compare { signature } => Plan::Compare { signature: *signature },
        }
    }
}

/// What a delta from a frame needs. A target that moved, a changed topology,
/// too many patches or too large an area take a whole frame. Without damage
/// events the whole target is compared.
pub open spec fn delta_plan(
    base: frames::Frame,
    bounds: Geometry,
    desktop_generation: u64,
    damage_events: bool,
) -> Plan {
    if base.bounds != bounds || base.desktop_generation != desktop_generation {
        Plan::Full
    } else if !damage_events {
        Plan::Compare { signature: base.signature }
    } else if base.damage.len() == 0 {
        Plan::Unchanged { signature: base.signature }
    } else if base.damage.len() > MAX_PATCHES || damage::mostly_damaged(base.damage, bounds) {
        Plan::Full
    } else {
        Plan::Patches { areas: base.damage }
    }
}

/// What an observation needs, or why its base cannot be used.
pub open spec fn observation_plan(
    history: frames::Frames,
    target: TargetView,
    delivery: ObservationDelivery,
    bounds: Geometry,
    desktop_generation: u64,
    damage_events: bool,
) -> Result<Plan, Seq<char>> {
    match delivery {
        ObservationDelivery::Full => Ok(Plan::Full),
        ObservationDelivery::Delta { since_frame_id } => match history.find(since_frame_id) {
            None => Err(expired_frame(since_frame_id)),
            Some(base) => if base.target != target {
                Err(
                    "frame "@ + text::decimal(since_frame_id as nat)
                        + " was observed with another target"@,
                )
            } else {
                Ok(delta_plan(base, bounds, desktop_generation, damage_events))
            },
        },
    }
}

/// What is said of a frame that left the history.
pub open spec fn expired_frame(frame_id: u64) -> Seq<char> {
    "frame "@ + text::decimal(frame_id as nat) + " is not in the 64-frame history"@
}

/// The error for a frame that left the history.
pub(crate) fn expired_frame_error(frame_id: u64) -> (e: ControllerError)
    ensures
        error::retry_error(e, ErrorCode::StaleFrame, expired_frame(frame_id)),
{
    let number = format_decimal(frame_id);
    error3(
        ErrorCode::StaleFrame,
        "frame ",
        number.as_str(),
        " is not in the 64-frame history",
    ).retryable(true)
}

/// What is said of a frame of another target.
pub open spec fn other_target(frame_id: u64) -> Seq<char> {
    "frame "@ + text::decimal(frame_id as nat) + " was observed with another target"@
}

/// The error for a frame of another target.
pub(crate) fn other_target_error(frame_id: u64) -> (e: ControllerError)
    ensures
        error::retry_error(e, ErrorCode::StaleFrame, other_target(frame_id)),
{
    let number = format_decimal(frame_id);
    error3(
        ErrorCode::StaleFrame,
        "frame ",
        number.as_str(),
        " was observed with another target",
    ).retryable(true)
}

/// A delta shows all that was damaged since its base, and no more patches
/// than it may: nothing was damaged where it is empty, and every damaged
/// pixel of the target lies in a patch where it has patches. Patches lie
/// within the target, do not overlap and make up less than six tenths of it.
pub proof fn deltas_show_all_damage(
    base: frames::Frame,
    parts: Seq<Geometry>,
    at: int,
    x: int,
    y: int,
    desktop_generation: u64,
)
    requires
        base.valid(),
        0 <= at < parts.len(),
        geometry::covers(parts[at], x, y),
        geometry::covers(base.bounds, x, y),
    ensures
        match delta_plan(base.damaged_by(parts), base.bounds, desktop_generation, true) {
            Plan::Full => true,
            Plan::Unchanged { .. } => false,
            Plan::Compare { .. } => false,
            Plan::Patches { areas } => {
                &&& damage::any_covers(areas, x, y)
                &&& damage::all_within(areas, base.bounds)
                &&& damage::disjoint(areas)
                &&& areas.len() <= MAX_PATCHES
                &&& !damage::mostly_damaged(areas, base.bounds)
            },
        },
{
    frames::damage_is_kept(base, parts, at, x, y);
}

/// Decides what to capture for an observation.
pub fn plan_observation(
    history: &FrameHistory,
    request: &ObserveRequest,
    bounds: Geometry,
    desktop_generation: u64,
    damage_events: bool,
) -> (result: Result<CapturePlan, ControllerError>)
    ensures
        match (
            result,
            observation_plan(
                history@,
                request.target@,
                request.delivery,
                bounds,
                desktop_generation,
                damage_events,
            ),
        ) {
            (Ok(plan), Ok(expected)) => plan@ == expected,
            (Err(e), Err(message)) => error::retry_error(e, ErrorCode::StaleFrame, message),
            _ => false,
        },
{
    let since: u64 = match request.delivery {
        ObservationDelivery::Full => {
            return Ok(CapturePlan::Full);
        },
        ObservationDelivery::Delta { since_frame_id } => since_frame_id,
    };
    let base = match history.find(since) {
        Some(base) => base,
        None => {
            return Err(expired_frame_error(since));
        },
    };
    if !base.target.same(&request.target) {
        return Err(other_target_error(since));
    }
    if base.bounds != bounds || base.desktop_generation != desktop_generation {
        return Ok(CapturePlan::Full);
    }
    if !damage_events {
        return Ok(CapturePlan::Compare { signature: base.signature });
    }
    if base.damage.len() == 0 {
        return Ok(CapturePlan::Unchanged { signature: base.signature });
    }
    if base.damage.len() > MAX_PATCHES || is_mostly_damaged(&base.damage, bounds) {
        return Ok(CapturePlan::Full);
    }
    let areas = copy_areas(&base.damage);
    Ok(CapturePlan::Patches { areas })
}

/// Copies a list of rectangles.
fn copy_areas(areas: &Vec<Geometry>) -> (copy: Vec<Geometry>)
    ensures
        copy@ == areas@,
{
    let mut copy: Vec<Geometry> = Vec::new();
    let mut at: usize = 0;
    while at < areas.len()
        invariant
            at <= areas.len(),
            copy@ == areas@.take(at as int),
        decreases areas.len() - at,
    {
        copy.push(areas[at]);
        assert(areas@.take(at + 1) =~= areas@.take(at as int).push(areas@[at as int]));
        at += 1;
    }
    assert(areas@.take(areas@.len() as int) =~= areas@);
    copy
}

/// The rectangles that a plan captures, in order.
pub open spec fn captured_areas(plan: Plan, bounds: Geometry) -> Seq<Geometry> {
    match plan {
        Plan::Unchanged { .. } => Seq::empty(),
        Plan::Patches { areas } => areas,
        _ => seq![bounds],
    }
}

impl CapturePlan {
    /// The rectangles to capture, in order.
    pub fn areas(&self, bounds: Geometry) -> (areas: Vec<Geometry>)
        ensures
            areas@ == captured_areas(self@, bounds),
    {
        match self {
            CapturePlan::Unchanged { .. } => Vec::new(),
            CapturePlan::Patches { areas } => copy_areas(areas),
            _ => vec![bounds],
        }
    }
}

/// The pixels of some images, one after the other.
pub open spec fn all_pixels(captures: Seq<CapturedImage>) -> Seq<u8>
    decreases captures.len(),
{
    if captures.len() == 0 {
        Seq::empty()
    } else {
        all_pixels(captures.drop_last()) + captures.last().rgb@
    }
}

/// The signature of what was captured, or of what was found unchanged.
pub open spec fn observed_signature(
    plan: Plan,
    captures: Seq<CapturedImage>,
    desktop_generation: u64,
) -> u64 {
    match plan {
        Plan::Unchanged { signature } => signature,
        _ => frames::signature_of(all_pixels(captures), desktop_generation),
    }
}

/// Whether an observation shows no change.
pub open spec fn shows_no_change(
    plan: Plan,
    captures: Seq<CapturedImage>,
    desktop_generation: u64,
) -> bool {
    match plan {
        Plan::Unchanged { .. } => true,
        Plan::Compare { signature } => signature == observed_signature(
            plan,
            captures,
            desktop_generation,
        ),
        _ => false,
    }
}

/// The patches of an observation: the rectangles of its images, in order.
pub open spec fn patches_of(areas: Seq<Geometry>) -> Seq<FramePatch> {
    Seq::new(
        areas.len(),
        |i: int| FramePatch { bounds: areas[i], image_index: i as usize },
    )
}

/// Records a captured frame and makes up its observation.
pub fn finish_observation(
    history: &mut FrameHistory,
    request: ObserveRequest,
    bounds: Geometry,
    plan: CapturePlan,
    captures: Vec<CapturedImage>,
    pointer: PointerInfo,
    list: WindowList,
) -> (observation: Observation)
    requires
        old(history).well_formed(),
        captures@.len() == captured_areas(plan@, bounds).len(),
    ensures
        final(history).well_formed(),
        observation.metadata.frame_id == old(history)@.next_id(),
        observation.metadata.desktop_generation == list.desktop_generation,
        observation.metadata.bounds == bounds,
        observation.metadata.pointer == pointer,
        observation.metadata.active_window == list.active_window,
        observation.metadata.windows@ == (if request.include_windows {
            list.windows@
        } else {
            Seq::empty()
        }),
        observation.base_frame_id == (match request.delivery {
            ObservationDelivery::Full => None,
            ObservationDelivery::Delta { since_frame_id } => Some(since_frame_id),
        }),
        observation.signature == observed_signature(plan@, captures@, list.desktop_generation),
        final(history)@ == old(history)@.recorded(
            (frames::Frame {
                frame_id: observation.metadata.frame_id,
                target: request.target@,
                bounds,
                desktop_generation: list.desktop_generation,
                signature: observation.signature,
                damage: Seq::empty(),
            }),
        ),
        if shows_no_change(plan@, captures@, list.desktop_generation) {
            !observation.complete && observation.patches@.len() == 0 && observation.images@.len()
                == 0
        } else {
            &&& observation.complete == !(plan is Patches)
            &&& observation.patches@ == patches_of(captured_areas(plan@, bounds))
            &&& observation.images@.len() == captures@.len()
            &&& forall|i: int|
                0 <= i < captures@.len() ==> (#[trigger] observation.images@[i])@
                    == captures@[i].png@
        },
{
    let ghost taken = captures@;
    let areas = plan.areas(bounds);
    let (images, pixels) = split_captures(captures);
    let generation: u64 = list.desktop_generation;
    let signature: u64 = match &plan {
        CapturePlan::Unchanged { signature } => *signature,
        _ => frame_signature(pixels, generation),
    };
    let unchanged: bool = match &plan {
        CapturePlan::Unchanged { .. } => true,
        CapturePlan::Compare { signature: base } => *base == signature,
        _ => false,
    };
    let complete: bool = match &plan {
        CapturePlan::Patches { .. } => false,
        _ => !unchanged,
    };
    let base_frame_id = match request.delivery {
        ObservationDelivery::Full => None,
        ObservationDelivery::Delta { since_frame_id } => Some(since_frame_id),
    };
    let frame_id = history.record(request.target, bounds, generation, signature);
    let mut patches: Vec<FramePatch> = Vec::new();
    if !unchanged {
        let mut at: usize = 0;
        while at < areas.len()
            invariant
                at <= areas.len(),
                patches@ == patches_of(areas@).take(at as int),
            decreases areas.len() - at,
        {
            patches.push(FramePatch { bounds: areas[at], image_index: at });
            assert(patches@ =~= patches_of(areas@).take(at + 1));
            at += 1;
        }
        assert(patches_of(areas@).take(areas@.len() as int) =~= patches_of(areas@));
    }
    let images = if unchanged {
        Vec::new()
    } else {
        images
    };
    let windows = if request.include_windows {
        list.windows
    } else {
        Vec::new()
    };
    Observation {
        metadata: ObservationMetadata {
            frame_id,
            desktop_generation: generation,
            bounds,
            pointer,
            active_window: list.active_window,
            windows,
        },
        base_frame_id,
        complete,
        patches,
        images,
        signature,
    }
}

/// The files of some images, and their pixels one after the other.
fn split_captures(captures: Vec<CapturedImage>) -> (parts: (Vec<Vec<u8>>, Vec<u8>))
    ensures
        parts.0@.len() == captures@.len(),
        forall|i: int|
            0 <= i < captures@.len() ==> (#[trigger] parts.0@[i])@ == captures@[i].png@,
        parts.1@ == all_pixels(captures@),
{
    let ghost all = captures@;
    let mut rest: Vec<CapturedImage> = captures;
    let mut images: Vec<Vec<u8>> = Vec::new();
    let mut pixels: Vec<u8> = Vec::new();
    while rest.len() > 0
        invariant
            images@.len() + rest@.len() == all.len(),
            rest@ == all.skip(images@.len() as int),
            forall|i: int| 0 <= i < images@.len() ==> (#[trigger] images@[i])@ == all[i].png@,
            pixels@ == all_pixels(all.take(images@.len() as int)),
        decreases rest.len(),
    {
        let ghost done = images@.len() as int;
        let image = rest.remove(0);
        assert(image == all[done]);
        assert(rest@ =~= all.skip(done + 1));
        assert(all.take(done + 1).drop_last() =~= all.take(done));
        let mut rgb: Vec<u8> = image.rgb;
        pixels.append(&mut rgb);
        images.push(image.png);
    }
    assert(all.take(all.len() as int) =~= all);
    (images, pixels)
}

/// A full observation takes the whole target. A delta needs a kept base frame
/// of the same target; it takes the whole target where that moved, the topology
/// changed, or more than 16 parts or six tenths of it were damaged, else just
/// the damaged parts, and nothing where nothing was damaged. Without damage
/// events the whole target is compared with the base.
pub proof fn deltas_are_planned_from_their_base(
    history: FrameHistory,
    request: ObserveRequest,
    bounds: Geometry,
    desktop_generation: u64,
    damage_events: bool,
    result: Result<CapturePlan, ControllerError>,
)
    requires
        call_ensures(
            plan_observation,
            (&history, &request, bounds, desktop_generation, damage_events),
            result,
        ),
    ensures
        request.delivery is Full ==> result is Ok && result->Ok_0 is Full,
        request.delivery matches ObservationDelivery::Delta { since_frame_id } ==> {
            let kept = history@.find(since_frame_id);
            let base = kept->0;
            let same = base.bounds == bounds && base.desktop_generation == desktop_generation;
            let much = base.damage.len() > 16 || 10 * damage::total_area(base.damage) >= 6 * (
            bounds.width * bounds.height);
            &&& result is Ok <==> kept is Some && base.target == request.target@
            &&& result is Err ==> result->Err_0.code == ErrorCode::StaleFrame
                && result->Err_0.retryable
            &&& result is Ok ==> {
                let plan = result->Ok_0;
                &&& !same ==> plan is Full
                &&& same && !damage_events ==> plan is Compare && plan->Compare_signature
                    == base.signature
                &&& same && damage_events && base.damage.len() == 0 ==> plan is Unchanged
                    && plan->Unchanged_signature == base.signature
                &&& same && damage_events && base.damage.len() > 0 && much ==> plan is Full
                &&& same && damage_events && base.damage.len() > 0 && !much ==> plan is Patches
                    && plan->areas@ == base.damage
            }
        },
{
}

/// An observation shows what was captured: one image for each patch, in order
/// and numbered from zero. It is complete unless it is a delta of patches or
/// shows no change, and then it has neither patches nor images. It is numbered
/// after the last frame, names its base, and becomes a frame of the history.
pub proof fn observations_show_what_was_captured(
    history: &mut FrameHistory,
    request: ObserveRequest,
    bounds: Geometry,
    plan: CapturePlan,
    captures: Vec<CapturedImage>,
    pointer: PointerInfo,
    list: WindowList,
    observation: Observation,
    at: int,
)
    requires
        call_ensures(
            finish_observation,
            (history, request, bounds, plan, captures, pointer, list),
            observation,
        ),
        captures@.len() == captured_areas(plan@, bounds).len(),
    ensures
        plan is Unchanged ==> !observation.complete && observation.patches@.len() == 0
            && observation.images@.len() == 0 && observation.signature == plan->Unchanged_signature,
        plan is Full ==> observation.complete && observation.patches@.len() == 1
            && observation.patches@[0].bounds == bounds,
        plan is Patches ==> !observation.complete && observation.patches@.len()
            == plan->areas@.len() && (0 <= at < plan->areas@.len()
            ==> observation.patches@[at].bounds == plan->areas@[at]),
        plan is Compare ==> (observation.complete <==> observation.signature
            != plan->Compare_signature) && observation.patches@.len() == (if observation.complete {
            1nat
        } else {
            0nat
        }),
        observation.images@.len() == observation.patches@.len(),
        0 <= at < observation.patches@.len() ==> observation.patches@[at].image_index == at
            && observation.images@[at]@ == captures@[at].png@,
        request.delivery is Full ==> observation.base_frame_id is None,
        request.delivery matches ObservationDelivery::Delta { since_frame_id } ==> observation.base_frame_id
            == Some(since_frame_id),
        observation.metadata.bounds == bounds && observation.metadata.pointer == pointer
            && observation.metadata.active_window == list.active_window
            && observation.metadata.desktop_generation == list.desktop_generation,
        request.include_windows ==> observation.metadata.windows@ == list.windows@,
        !request.include_windows ==> observation.metadata.windows@.len() == 0,
        final(history)@.latest == observation.metadata.frame_id,
        old(history)@.latest < u64::MAX ==> observation.metadata.frame_id == old(history)@.latest
            + 1,
        ({
            let frame = final(history)@.frames.last();
            &&& frame.frame_id == observation.metadata.frame_id
            &&& frame.target == request.target@
            &&& frame.bounds == bounds
            &&& frame.desktop_generation == list.desktop_generation
            &&& frame.signature == observation.signature
            &&& frame.damage.len() == 0
        }),
{
    if 0 <= at < observation.patches@.len() {
        assert(at < captures.len());
        assert(at as usize == at);
        let _ = observation.images@[at];
    }
}

/// The images of a frame follow each other in its signature, with the desktop
/// generation after them.
pub proof fn signatures_cover_all_pixels(
    first: Seq<CapturedImage>,
    second: Seq<CapturedImage>,
    image: CapturedImage,
)
    ensures
        all_pixels(first + second) == all_pixels(first) + all_pixels(second),
        all_pixels(seq![image]) == image.rgb@,
    decreases second.len(),
{
    assert(seq![image].drop_last() =~= Seq::<CapturedImage>::empty());
    assert(all_pixels(Seq::<CapturedImage>::empty()) =~= Seq::empty());
    assert(all_pixels(seq![image]) =~= image.rgb@);
    if second.len() == 0 {
        assert(first + second =~= first);
        assert(all_pixels(first) + all_pixels(second) =~= all_pixels(first));
    } else {
        assert((first + second).drop_last() =~= first + second.drop_last());
        signatures_cover_all_pixels(first, second.drop_last(), image);
        assert(all_pixels(first + second) =~= all_pixels(first) + all_pixels(second));
    }
}

} // verus!
