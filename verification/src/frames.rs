//! The frame history: what was observed, and what was damaged since.

use vstd::bytes::{spec_u64_to_le_bytes, u64_to_le_bytes};
use vstd::prelude::*;

use crate::damage;
use crate::damage::coalesce;
use crate::geometry;
use crate::geometry::intersect;
use crate::types::{Geometry, ObserveTarget, TargetView};

verus! {

/// How many frames the history holds.
pub const FRAME_HISTORY_SIZE: usize = 64;

/// How many patches a delta may have.
pub const MAX_PATCHES: usize = 16;

/// What `xxhash_rust::xxh3::xxh3_64` returns for some bytes.
pub uninterp spec fn xxh3(bytes: Seq<u8>) -> u64;

/// `xxhash_rust::xxh3::xxh3_64`, a hash of the bytes.
#[verifier::external_body]
pub(crate) fn hash_bytes(bytes: &Vec<u8>) -> (hash: u64)
    ensures
        hash == xxh3(bytes@),
{
    xxhash_rust::xxh3::xxh3_64(bytes)
}

/// The signature of a frame: a hash of its pixels and of the desktop generation.
pub open spec fn signature_of(rgb: Seq<u8>, desktop_generation: u64) -> u64 {
    xxh3(rgb + spec_u64_to_le_bytes(desktop_generation))
}

/// The signature of a frame.
pub fn frame_signature(rgb: Vec<u8>, desktop_generation: u64) -> (signature: u64)
    ensures
        signature == signature_of(rgb@, desktop_generation),
{
    let mut bytes: Vec<u8> = rgb;
    let mut generation = u64_to_le_bytes(desktop_generation);
    bytes.append(&mut generation);
    hash_bytes(&bytes)
}

/// A frame of the history, and what was damaged within it since.
#[derive(Debug)]
pub struct FrameRecord {
    pub frame_id: u64,
    pub target: ObserveTarget,
    pub bounds: Geometry,
    pub desktop_generation: u64,
    pub signature: u64,
    pub damage: Vec<Geometry>,
}

/// What a frame record says.
#[verifier::ext_equal]
pub struct Frame {
    pub frame_id: u64,
    pub target: TargetView,
    pub bounds: Geometry,
    pub desktop_generation: u64,
    pub signature: u64,
    pub damage: Seq<Geometry>,
}

impl View for FrameRecord {
    type V = Frame;

    open spec fn view(&self) -> Frame {
        Frame {
            frame_id: self.frame_id,
            target: self.target@,
            bounds: self.bounds,
            desktop_generation: self.desktop_generation,
            signature: self.signature,
            damage: self.damage@,
        }
    }
}

impl Frame {
    /// The frame after some part of the screen was damaged.
    pub open spec fn damaged(self, part: Geometry) -> Frame {
        match geometry::common_part(self.bounds, part) {
            Some(common) => Frame { damage: damage::coalesced(self.damage, common), ..self },
            None => self,
        }
    }

    /// The frame after some parts of the screen were damaged in turn.
    pub open spec fn damaged_by(self, parts: Seq<Geometry>) -> Frame
        decreases parts.len(),
    {
        if parts.len() == 0 {
            self
        } else {
            self.damaged_by(parts.drop_last()).damaged(parts.last())
        }
    }

    /// Whether the damage of the frame has pixels, lies within it and does not overlap.
    pub open spec fn valid(self) -> bool {
        damage::all_within(self.damage, self.bounds) && damage::disjoint(self.damage)
    }
}

/// Every pixel of a frame that was damaged since is covered by the damage
/// that the frame keeps, whatever was damaged in between. The kept damage
/// lies within the frame and does not overlap.
pub proof fn damage_is_kept(frame: Frame, parts: Seq<Geometry>, at: int, x: int, y: int)
    requires
        frame.valid(),
        0 <= at < parts.len(),
        geometry::covers(parts[at], x, y),
        geometry::covers(frame.bounds, x, y),
    ensures
        frame.damaged_by(parts).valid(),
        frame.damaged_by(parts).bounds == frame.bounds,
        damage::any_covers(frame.damaged_by(parts).damage, x, y),
    decreases parts.len(),
{
    let rest = parts.drop_last();
    lemma_damaged_by(frame, rest);
    let before = frame.damaged_by(rest);
    lemma_damaged(before, parts.last());
    if at < rest.len() {
        damage_is_kept(frame, rest, at, x, y);
        assert(damage::any_covers(before.damage, x, y));
    } else {
        geometry::common_part_is_the_shared_pixels(frame.bounds, parts.last(), x, y);
    }
}

/// Damage keeps a frame valid, and covers what it covered.
proof fn lemma_damaged(frame: Frame, part: Geometry)
    requires
        frame.valid(),
    ensures
        frame.damaged(part).valid(),
        frame.damaged(part).bounds == frame.bounds,
        forall|x: int, y: int|
            damage::any_covers(frame.damage, x, y) || (geometry::common_part(frame.bounds, part)
                is Some && geometry::covers(geometry::common_part(frame.bounds, part)->0, x, y))
                ==> #[trigger] damage::any_covers(frame.damaged(part).damage, x, y),
{
    geometry::common_part_is_the_shared_pixels(frame.bounds, part, 0, 0);
    match geometry::common_part(frame.bounds, part) {
        Some(common) => {
            damage::coalescing_covers(frame.damage, common, frame.bounds);
        },
        None => {},
    }
}

/// Damage in turn keeps a frame valid.
proof fn lemma_damaged_by(frame: Frame, parts: Seq<Geometry>)
    requires
        frame.valid(),
    ensures
        frame.damaged_by(parts).valid(),
        frame.damaged_by(parts).bounds == frame.bounds,
    decreases parts.len(),
{
    if parts.len() > 0 {
        lemma_damaged_by(frame, parts.drop_last());
        lemma_damaged(frame.damaged_by(parts.drop_last()), parts.last());
    }
}

/// A frame without damage was not damaged: nothing since touched it.
pub proof fn undamaged_frame_is_current(frame: Frame, parts: Seq<Geometry>, at: int, x: int, y: int)
    requires
        frame.valid(),
        frame.damaged_by(parts).damage.len() == 0,
        0 <= at < parts.len(),
        geometry::covers(frame.bounds, x, y),
    ensures
        !geometry::covers(parts[at], x, y),
{
    if geometry::covers(parts[at], x, y) {
        damage_is_kept(frame, parts, at, x, y);
    }
}

/// The frames that can still be referred to, oldest first.
#[derive(Debug)]
pub struct FrameHistory {
    latest: u64,
    records: Vec<FrameRecord>,
}

/// What a frame history says: the newest identifier and the frames.
#[verifier::ext_equal]
pub struct Frames {
    pub latest: u64,
    pub frames: Seq<Frame>,
}

impl View for FrameHistory {
    type V = Frames;

    closed spec fn view(&self) -> Frames {
        Frames { latest: self.latest, frames: self.records@.map_values(|r: FrameRecord| r@) }
    }
}

/// The frame with an identifier, from a place on.
pub open spec fn frame_from(frames: Seq<Frame>, frame_id: u64, from: int) -> Option<int>
    decreases frames.len() - from,
{
    if from >= frames.len() {
        None
    } else if frames[from].frame_id == frame_id {
        Some(from)
    } else {
        frame_from(frames, frame_id, from + 1)
    }
}

impl Frames {
    /// The frame with an identifier.
    pub open spec fn find(self, frame_id: u64) -> Option<Frame> {
        match frame_from(self.frames, frame_id, 0) {
            Some(at) => Some(self.frames[at]),
            None => None,
        }
    }

    /// The identifier of the next frame.
    pub open spec fn next_id(self) -> u64 {
        if self.latest < u64::MAX {
            (self.latest + 1) as u64
        } else {
            u64::MAX
        }
    }

    /// The history after one more frame. The oldest frame leaves a full history.
    pub open spec fn recorded(self, frame: Frame) -> Frames {
        let all = self.frames.push(frame);
        Frames {
            latest: frame.frame_id,
            frames: if all.len() > FRAME_HISTORY_SIZE {
                all.drop_first()
            } else {
                all
            },
        }
    }

    /// The history after some part of the screen was damaged.
    pub open spec fn damaged(self, part: Geometry) -> Frames {
        Frames { frames: self.frames.map_values(|frame: Frame| frame.damaged(part)), ..self }
    }

    /// Whether the history holds no more frames than it may, each valid, and
    /// their identifiers count up to the newest.
    pub open spec fn valid(self) -> bool {
        &&& self.frames.len() <= FRAME_HISTORY_SIZE
        &&& forall|i: int| 0 <= i < self.frames.len() ==> (#[trigger] self.frames[i]).valid()
        &&& self.latest < u64::MAX ==> forall|i: int|
            0 <= i < self.frames.len() ==> (#[trigger] self.frames[i]).frame_id
                == self.latest - (self.frames.len() - 1 - i)
    }
}

/// What a search for a frame finds.
proof fn lemma_frame_from(frames: Seq<Frame>, frame_id: u64, from: int)
    requires
        0 <= from <= frames.len(),
    ensures
        match frame_from(frames, frame_id, from) {
            Some(at) => from <= at < frames.len() && frames[at].frame_id == frame_id,
            None => forall|i: int|
                from <= i < frames.len() ==> (#[trigger] frames[i]).frame_id != frame_id,
        },
    decreases frames.len() - from,
{
    if from < frames.len() && frames[from].frame_id != frame_id {
        lemma_frame_from(frames, frame_id, from + 1);
    }
}

/// A history that has seen all its frames since it was empty has exactly the
/// newest frames, up to its size: an older frame is not found, a newer one is.
pub proof fn newest_frames_are_found(history: Frames, frame_id: u64)
    requires
        history.valid(),
        history.latest < u64::MAX,
    ensures
        history.find(frame_id) is Some <==> history.latest - history.frames.len() < frame_id
            <= history.latest,
        history.find(frame_id) matches Some(frame) ==> frame.frame_id == frame_id && frame.valid(),
{
    lemma_frame_from(history.frames, frame_id, 0);
    if history.latest - history.frames.len() < frame_id <= history.latest {
        let at = frame_id - history.latest + history.frames.len() - 1;
        assert(history.frames[at].frame_id == frame_id);
    }
}

/// Recording a frame keeps the history valid, and damage does.
pub proof fn history_stays_valid(history: Frames, frame: Frame, part: Geometry)
    requires
        history.valid(),
        frame.frame_id == history.next_id(),
        frame.valid(),
    ensures
        history.recorded(frame).valid(),
        history.damaged(part).valid(),
{
    let next = history.recorded(frame);
    assert forall|i: int| 0 <= i < next.frames.len() implies (#[trigger] next.frames[i]).valid() by {
        let place = if history.frames.len() + 1 > FRAME_HISTORY_SIZE {
            i + 1
        } else {
            i
        };
        if place < history.frames.len() {
            assert(next.frames[i] == history.frames[place]);
        } else {
            assert(next.frames[i] == frame);
        }
    }
    if next.latest < u64::MAX {
        assert forall|i: int| 0 <= i < next.frames.len() implies (#[trigger] next.frames[i]).frame_id
            == next.latest - (next.frames.len() - 1 - i) by {
            let place = if history.frames.len() + 1 > FRAME_HISTORY_SIZE {
                i + 1
            } else {
                i
            };
            if place < history.frames.len() {
                assert(next.frames[i] == history.frames[place]);
            }
        }
    }
    let worn = history.damaged(part);
    assert forall|i: int| 0 <= i < worn.frames.len() implies (#[trigger] worn.frames[i]).valid() by {
        lemma_damaged(history.frames[i], part);
    }
    assert forall|i: int| 0 <= i < worn.frames.len() implies (#[trigger] worn.frames[i]).frame_id
        == history.frames[i].frame_id by {}
}

impl FrameHistory {
    /// Whether the history is one that recording and damage give.
    pub open spec fn well_formed(&self) -> bool {
        self@.valid()
    }

    /// An empty history.
    pub fn new() -> (history: Self)
        ensures
            history.well_formed(),
            history@.latest == 0,
            history@.frames.len() == 0,
    {
        FrameHistory { latest: 0, records: Vec::new() }
    }

    /// The identifier of the newest frame.
    pub fn latest(&self) -> (frame_id: u64)
        ensures
            frame_id == self@.latest,
    {
        self.latest
    }

    /// The frame with an identifier.
    pub fn find(&self, frame_id: u64) -> (record: Option<&FrameRecord>)
        ensures
            match (record, self@.find(frame_id)) {
                (Some(found), Some(frame)) => found@ == frame,
                (None, None) => true,
                _ => false,
            },
    {
        let mut at: usize = 0;
        while at < self.records.len()
            invariant
                at <= self.records.len(),
                frame_from(self@.frames, frame_id, 0) == frame_from(
                    self@.frames,
                    frame_id,
                    at as int,
                ),
            decreases self.records.len() - at,
        {
            assert(self@.frames[at as int] == self.records@[at as int]@);
            if self.records[at].frame_id == frame_id {
                return Some(&self.records[at]);
            }
            at += 1;
        }
        None
    }

    /// Records a frame without damage under the next identifier.
    pub fn record(
        &mut self,
        target: ObserveTarget,
        bounds: Geometry,
        desktop_generation: u64,
        signature: u64,
    ) -> (frame_id: u64)
        requires
            old(self).well_formed(),
        ensures
            final(self).well_formed(),
            frame_id == old(self)@.next_id(),
            final(self)@ == old(self)@.recorded(
                (Frame {
                    frame_id,
                    target: target@,
                    bounds,
                    desktop_generation,
                    signature,
                    damage: Seq::empty(),
                }),
            ),
    {
        let ghost before = self@;
        let frame_id: u64 = if self.latest < u64::MAX {
            self.latest + 1
        } else {
            u64::MAX
        };
        let record = FrameRecord {
            frame_id,
            target,
            bounds,
            desktop_generation,
            signature,
            damage: Vec::new(),
        };
        let ghost frame = record@;
        assert(frame.damage =~= Seq::empty());
        proof {
            history_stays_valid(before, frame, bounds);
        }
        self.latest = frame_id;
        self.records.push(record);
        assert(self@.frames =~= before.frames.push(frame));
        if self.records.len() > FRAME_HISTORY_SIZE {
            let ghost full = self@.frames;
            let _ = self.records.remove(0);
            assert(self@.frames =~= full.drop_first());
        }
        frame_id
    }

    /// Notes that some part of the screen was damaged.
    pub fn damage(&mut self, part: Geometry)
        requires
            old(self).well_formed(),
        ensures
            final(self).well_formed(),
            final(self)@ == old(self)@.damaged(part),
    {
        let ghost before = self@;
        let ghost old_records = self.records@;
        let mut at: usize = 0;
        while at < self.records.len()
            invariant
                at <= self.records.len(),
                self.latest == before.latest,
                before.valid(),
                self.records@.len() == old_records.len(),
                before.frames == old_records.map_values(|r: FrameRecord| r@),
                forall|i: int|
                    0 <= i < at ==> (#[trigger] self.records@[i])@ == before.frames[i].damaged(
                        part,
                    ),
                forall|i: int|
                    at <= i < self.records@.len() ==> (#[trigger] self.records@[i])@
                        == before.frames[i],
            decreases self.records.len() - at,
        {
            assert(self.records@[at as int]@ == before.frames[at as int]);
            assert(before.frames[at as int].valid());
            let record = &mut self.records[at];
            if let Some(common) = intersect(record.bounds, part) {
                proof {
                    geometry::common_part_is_the_shared_pixels(record.bounds, part, 0, 0);
                }
                let ghost bounds = record.bounds;
                coalesce(&mut record.damage, common, Ghost(bounds));
            }
            at += 1;
        }
        assert(self@.frames =~= before.damaged(part).frames);
        proof {
            lemma_damage_keeps_valid(before, part);
        }
    }
}

/// Damage keeps a history valid.
proof fn lemma_damage_keeps_valid(history: Frames, part: Geometry)
    requires
        history.valid(),
    ensures
        history.damaged(part).valid(),
{
    let frame = Frame {
        frame_id: history.next_id(),
        target: TargetView::Desktop,
        bounds: part,
        desktop_generation: 0,
        signature: 0,
        damage: Seq::empty(),
    };
    history_stays_valid(history, frame, part);
}

/// Frames are numbered one after the other, the newest 64 are kept, and a
/// recorded frame is found as it was recorded, without damage.
pub proof fn recorded_frames_are_kept(
    history: &mut FrameHistory,
    target: ObserveTarget,
    bounds: Geometry,
    desktop_generation: u64,
    signature: u64,
    frame_id: u64,
    other: u64,
)
    requires
        call_ensures(
            FrameHistory::record,
            (history, target, bounds, desktop_generation, signature),
            frame_id,
        ),
        old(history)@.valid(),
        old(history)@.latest < u64::MAX - 1,
    ensures
        frame_id == old(history)@.latest + 1,
        final(history)@.latest == frame_id,
        final(history)@.frames.len() == (if old(history)@.frames.len() < 64 {
            old(history)@.frames.len() + 1
        } else {
            64
        }),
        final(history)@.find(frame_id) is Some,
        ({
            let frame = final(history)@.find(frame_id)->0;
            &&& frame.frame_id == frame_id
            &&& frame.target == target@
            &&& frame.bounds == bounds
            &&& frame.desktop_generation == desktop_generation
            &&& frame.signature == signature
            &&& frame.damage.len() == 0
        }),
        other != frame_id && other + 64 > frame_id ==> final(history)@.find(other) == old(
            history,
        )@.find(other),
        other + 64 <= frame_id ==> final(history)@.find(other) is None,
{
    let before = old(history)@;
    let after = final(history)@;
    let added = Frame {
        frame_id,
        target: target@,
        bounds,
        desktop_generation,
        signature,
        damage: Seq::empty(),
    };
    history_stays_valid(before, added, bounds);
    newest_frames_are_found(before, other);
    newest_frames_are_found(after, other);
    newest_frames_are_found(after, frame_id);
    lemma_frame_from(after.frames, frame_id, 0);
    lemma_frame_from(after.frames, other, 0);
    lemma_frame_from(before.frames, other, 0);
    let shift = if before.frames.len() + 1 > FRAME_HISTORY_SIZE {
        1int
    } else {
        0int
    };
    assert forall|i: int| 0 <= i < after.frames.len() - 1 implies after.frames[i]
        == before.frames[i + shift] by {}
    assert(after.frames.last() == added);
    let place = frame_from(after.frames, frame_id, 0)->0;
    assert(after.frames[place].frame_id == after.latest - (after.frames.len() - 1 - place));
    assert(place == after.frames.len() - 1);
    if other != frame_id && other + 64 > frame_id && after.find(other) is Some {
        let there = frame_from(after.frames, other, 0)->0;
        assert(after.frames[there].frame_id == after.latest - (after.frames.len() - 1 - there));
        assert(before.find(other) is Some);
        let here = frame_from(before.frames, other, 0)->0;
        assert(before.frames[here].frame_id == before.latest - (before.frames.len() - 1 - here));
        assert(here == there + shift);
    }
}

/// Damage reaches every kept frame that it touches, and changes nothing else
/// of any frame: an untouched frame stays as it is.
pub proof fn damage_reaches_the_frames_it_touches(
    history: &mut FrameHistory,
    part: Geometry,
    result: (),
    at: int,
)
    requires
        call_ensures(FrameHistory::damage, (history, part), result),
        0 <= at < old(history)@.frames.len(),
        old(history)@.frames[at].valid(),
    ensures
        final(history)@.latest == old(history)@.latest,
        final(history)@.frames.len() == old(history)@.frames.len(),
        ({
            let before = old(history)@.frames[at];
            let after = final(history)@.frames[at];
            &&& after.frame_id == before.frame_id
            &&& after.target == before.target
            &&& after.bounds == before.bounds
            &&& after.desktop_generation == before.desktop_generation
            &&& after.signature == before.signature
            &&& geometry::common_part(before.bounds, part) is None ==> after == before
            &&& geometry::common_part(before.bounds, part) is Some ==> after.damage.len() > 0
        }),
{
    let before = old(history)@.frames[at];
    geometry::common_part_is_the_shared_pixels(before.bounds, part, 0, 0);
    if let Some(common) = geometry::common_part(before.bounds, part) {
        damage::coalescing_covers(before.damage, common, before.bounds);
    }
}

/// A search for a frame finds the frame of that number, or there is none.
pub proof fn frames_are_found_by_number(history: Frames, frame_id: u64)
    ensures
        match history.find(frame_id) {
            Some(frame) => frame.frame_id == frame_id && history.frames.contains(frame),
            None => forall|i: int|
                0 <= i < history.frames.len() ==> (#[trigger] history.frames[i]).frame_id
                    != frame_id,
        },
{
    lemma_frame_from(history.frames, frame_id, 0);
}

/// A look for a frame finds the one that the history holds under its number,
/// and none where it holds none.
pub proof fn kept_frames_are_found(
    history: FrameHistory,
    frame_id: u64,
    record: Option<&FrameRecord>,
)
    requires
        call_ensures(FrameHistory::find, (&history, frame_id), record),
    ensures
        record is None ==> forall|i: int|
            0 <= i < history@.frames.len() ==> (#[trigger] history@.frames[i]).frame_id
                != frame_id,
        record is Some ==> record->0@.frame_id == frame_id && history@.frames.contains(record->0@),
{
    lemma_frame_from(history@.frames, frame_id, 0);
}

} // verus!
