//! Windows: their references, their descriptions and the desktop topology.

use vstd::prelude::*;

use crate::error;
use crate::error::{error2, ControllerError, ErrorCode};
use crate::frames;
use crate::frames::hash_bytes;
use crate::geometry;
use crate::geometry::covers_point;
use crate::text;
use crate::text::{format_hex, format_wide, from_utf8_lossy, same_text};
use crate::types;
use crate::types::{Geometry, ListWindowsRequest, WindowClass, WindowInfo, WindowList};

verus! {

/// A reference that was given out, the window that it was given for, and
/// whether it still means that window.
#[derive(Debug)]
struct IssuedRef {
    handle: String,
    xid: u32,
    live: bool,
}

/// The window references of a session, in the order in which they were given out.
#[derive(Debug)]
pub struct WindowRefs {
    issued: Vec<IssuedRef>,
}

/// What a session's window references say: the window of each reference that
/// was given out, and the place of the reference of each known window.
#[verifier::ext_equal]
pub struct Refs {
    pub issued: Seq<u32>,
    pub live: Map<u32, int>,
}

/// The text of the reference at a place: they are numbered from one.
pub open spec fn handle(place: int) -> Seq<char> {
    "window-"@ + text::decimal((place + 1) as nat)
}

/// References at different places have different texts.
pub proof fn handles_are_distinct(first: int, second: int)
    requires
        0 <= first,
        0 <= second,
        handle(first) == handle(second),
    ensures
        first == second,
{
    let prefix = "window-"@;
    assert(handle(first).skip(prefix.len() as int) =~= text::decimal((first + 1) as nat));
    assert(handle(second).skip(prefix.len() as int) =~= text::decimal((second + 1) as nat));
    text::lemma_decimal_injective((first + 1) as nat, (second + 1) as nat);
}

impl Refs {
    /// Whether every known window has a reference that was given out for it.
    pub open spec fn valid(self) -> bool {
        forall|xid: u32| #[trigger]
            self.live.dom().contains(xid) ==> 0 <= self.live[xid] < self.issued.len()
                && self.issued[self.live[xid]] == xid
    }

    /// The references after a window was seen.
    pub open spec fn seen(self, xid: u32) -> Refs {
        if self.live.dom().contains(xid) {
            self
        } else {
            Refs {
                issued: self.issued.push(xid),
                live: self.live.insert(xid, self.issued.len() as int),
            }
        }
    }

    /// The reference of a window after it was seen.
    pub open spec fn ref_of(self, xid: u32) -> Seq<char> {
        handle(self.seen(xid).live[xid])
    }

    /// The references after all but some windows were forgotten.
    pub open spec fn retained(self, current: Seq<u32>) -> Refs {
        Refs {
            live: self.live.restrict(Set::new(|xid: u32| current.contains(xid))),
            ..self
        }
    }

    /// The references after a window was forgotten.
    pub open spec fn forgotten(self, xid: u32) -> Refs {
        Refs { live: self.live.remove(xid), ..self }
    }

    /// Whether a text is a reference that was ever given out, for this window.
    pub open spec fn was_issued(self, window_ref: Seq<char>, xid: u32) -> bool {
        exists|place: int|
            0 <= place < self.issued.len() && window_ref == #[trigger] handle(place)
                && self.issued[place] == xid
    }
}

/// A window keeps its reference for as long as it is known: seeing it again
/// gives the same reference, and seeing other windows does not change it.
pub proof fn references_are_stable(refs: Refs, xid: u32, other: u32)
    requires
        refs.valid(),
    ensures
        refs.seen(xid).valid(),
        refs.seen(xid).seen(xid) == refs.seen(xid),
        refs.seen(xid).ref_of(xid) == refs.ref_of(xid),
        refs.seen(xid).seen(other).ref_of(xid) == refs.ref_of(xid),
{
    assert(refs.seen(xid).live.dom().contains(xid));
}

/// A reference is never given out for a second window: that of a window
/// that was not known differs from every reference given out before.
pub proof fn references_are_not_reused(refs: Refs, xid: u32, place: int)
    requires
        refs.valid(),
        !refs.live.dom().contains(xid),
        0 <= place < refs.issued.len(),
    ensures
        refs.ref_of(xid) != handle(place),
        refs.seen(xid).issued.take(refs.issued.len() as int) == refs.issued,
{
    assert(refs.seen(xid).live[xid] == refs.issued.len());
    if refs.ref_of(xid) == handle(place) {
        handles_are_distinct(refs.issued.len() as int, place);
    }
    assert(refs.seen(xid).issued.take(refs.issued.len() as int) =~= refs.issued);
}

/// Forgetting windows leaves the references of the others.
pub proof fn forgetting_keeps_the_others(refs: Refs, gone: u32, current: Seq<u32>, xid: u32)
    requires
        refs.valid(),
        refs.live.dom().contains(xid),
    ensures
        refs.forgotten(gone).valid(),
        refs.retained(current).valid(),
        xid != gone ==> refs.forgotten(gone).ref_of(xid) == refs.ref_of(xid),
        current.contains(xid) ==> refs.retained(current).ref_of(xid) == refs.ref_of(xid),
{
}

impl WindowRefs {
    /// Whether the reference at a place means a window.
    spec fn means(&self, place: int, xid: u32) -> bool {
        0 <= place < self.issued@.len() && self.issued@[place].live && self.issued@[place].xid
            == xid
    }

    /// Whether the references are sound: texts are those of their places, and
    /// no window has two.
    pub closed spec fn well_formed(&self) -> bool {
        &&& forall|i: int|
            0 <= i < self.issued@.len() ==> (#[trigger] self.issued@[i]).handle@ == handle(i)
        &&& forall|i: int, j: int, xid: u32| #[trigger]
            self.means(i, xid) && #[trigger] self.means(j, xid) ==> i == j
    }
}

impl View for WindowRefs {
    type V = Refs;

    closed spec fn view(&self) -> Refs {
        Refs {
            issued: self.issued@.map_values(|entry: IssuedRef| entry.xid),
            live: Map::new(
                |xid: u32| exists|place: int| self.means(place, xid),
                |xid: u32| choose|place: int| self.means(place, xid),
            ),
        }
    }
}

impl WindowRefs {
    /// No references.
    pub fn new() -> (refs: Self)
        ensures
            refs.well_formed(),
            refs@.issued.len() == 0,
            refs@.live == Map::<u32, int>::empty(),
    {
        let refs = WindowRefs { issued: Vec::new() };
        assert(refs@.live =~= Map::<u32, int>::empty());
        refs
    }

    /// References are valid throughout: every window that has one has it from
    /// those that were given out.
    pub proof fn references_are_valid(&self)
        requires
            self.well_formed(),
        ensures
            self@.valid(),
    {
        assert forall|xid: u32| #[trigger] self@.live.dom().contains(xid) implies 0
            <= self@.live[xid] < self@.issued.len() && self@.issued[self@.live[xid]] == xid by {
            assert(self.means(self@.live[xid], xid));
        }
    }

    /// The reference of a window, where the window is known.
    pub fn current(&self, xid: u32) -> (found: Option<String>)
        requires
            self.well_formed(),
        ensures
            match found {
                Some(window_ref) => self@.live.dom().contains(xid) && window_ref@ == handle(
                    self@.live[xid],
                ),
                None => !self@.live.dom().contains(xid),
            },
    {
        let mut at: usize = 0;
        while at < self.issued.len()
            invariant
                at <= self.issued.len(),
                self.well_formed(),
                forall|i: int| 0 <= i < at ==> !#[trigger] self.means(i, xid),
            decreases self.issued.len() - at,
        {
            if self.issued[at].live && self.issued[at].xid == xid {
                assert(self.means(at as int, xid));
                return Some(self.issued[at].handle.clone());
            }
            at += 1;
        }
        None
    }

    /// The reference of a window, which is given out where the window is not known.
    pub fn ref_for(&mut self, xid: u32) -> (window_ref: String)
        requires
            old(self).well_formed(),
        ensures
            final(self).well_formed(),
            final(self)@ == old(self)@.seen(xid),
            window_ref@ == old(self)@.ref_of(xid),
    {
        if let Some(window_ref) = self.current(xid) {
            return window_ref;
        }
        let ghost before = *self;
        let place: usize = self.issued.len();
        let number = format_wide(place as u128 + 1);
        let window_ref = "window-".to_owned().concat(number.as_str());
        assert(window_ref@ == handle(place as int));
        self.issued.push(IssuedRef { handle: window_ref.clone(), xid, live: true });
        proof {
            assert forall|i: int, known: u32| #[trigger] self.means(i, known) <==> before.means(
                i,
                known,
            ) || (i == place && known == xid) by {}
            assert(!exists|i: int| before.means(i, xid));
            assert(self@.issued =~= before@.issued.push(xid));
            assert(self.means(place as int, xid));
            let expected = before@.live.insert(xid, place as int);
            assert forall|known: u32| #[trigger] self@.live.dom().contains(known)
                <==> expected.dom().contains(known) by {
                if before@.live.dom().contains(known) {
                    assert(self.means(before@.live[known], known));
                }
                if self@.live.dom().contains(known) {
                    assert(self.means(self@.live[known], known));
                }
            }
            assert forall|known: u32| #[trigger] expected.dom().contains(known) implies
                self@.live[known] == expected[known] by {
                assert(self@.live.dom().contains(known));
                assert(self.means(self@.live[known], known));
                if known != xid {
                    assert(before.means(before@.live[known], known));
                    assert(self.means(before@.live[known], known));
                }
            }
            assert(self@.live =~= expected);
        }
        window_ref
    }

    /// References that mean fewer windows, and otherwise stay as they are.
    proof fn lemma_fewer(before: WindowRefs, after: WindowRefs, kept: Set<u32>)
        requires
            before.well_formed(),
            after.issued@.len() == before.issued@.len(),
            forall|i: int|
                0 <= i < after.issued@.len() ==> (#[trigger] after.issued@[i]).handle
                    == before.issued@[i].handle && after.issued@[i].xid == before.issued@[i].xid
                    && after.issued@[i].live == (before.issued@[i].live && kept.contains(
                    before.issued@[i].xid,
                )),
        ensures
            after.well_formed(),
            after@.issued == before@.issued,
            after@.live == before@.live.restrict(kept),
    {
        assert forall|i: int, xid: u32| #[trigger] after.means(i, xid) <==> before.means(i, xid)
            && kept.contains(xid) by {}
        assert(after@.issued =~= before@.issued);
        let expected = before@.live.restrict(kept);
        assert forall|xid: u32| #[trigger] after@.live.dom().contains(xid)
            <==> expected.dom().contains(xid) by {
            if after@.live.dom().contains(xid) {
                assert(after.means(after@.live[xid], xid));
                assert(before.means(after@.live[xid], xid));
            }
            if expected.dom().contains(xid) {
                assert(before.means(before@.live[xid], xid));
                assert(after.means(before@.live[xid], xid));
            }
        }
        assert forall|xid: u32| #[trigger] expected.dom().contains(xid) implies after@.live[xid]
            == expected[xid] by {
            assert(before.means(before@.live[xid], xid));
            assert(after.means(before@.live[xid], xid));
            assert(after.means(after@.live[xid], xid));
        }
        assert(after@.live =~= expected);
    }

    /// Forgets the windows that are not in a list.
    pub fn retain(&mut self, current: &Vec<u32>)
        requires
            old(self).well_formed(),
        ensures
            final(self).well_formed(),
            final(self)@ == old(self)@.retained(current@),
    {
        let ghost before = *self;
        let ghost kept = Set::new(|xid: u32| current@.contains(xid));
        let mut at: usize = 0;
        while at < self.issued.len()
            invariant
                at <= self.issued.len(),
                self.issued@.len() == before.issued@.len(),
                kept == Set::new(|xid: u32| current@.contains(xid)),
                forall|i: int|
                    0 <= i < self.issued@.len() ==> (#[trigger] self.issued@[i]).handle
                        == before.issued@[i].handle && self.issued@[i].xid == before.issued@[i].xid
                        && self.issued@[i].live == (before.issued@[i].live && (i >= at
                        || kept.contains(before.issued@[i].xid))),
            decreases self.issued.len() - at,
        {
            if !has_value(current, self.issued[at].xid) {
                let entry = &mut self.issued[at];
                entry.live = false;
            }
            at += 1;
        }
        proof {
            Self::lemma_fewer(before, *self, kept);
        }
    }

    /// Forgets a window.
    pub fn forget(&mut self, xid: u32)
        requires
            old(self).well_formed(),
        ensures
            final(self).well_formed(),
            final(self)@ == old(self)@.forgotten(xid),
    {
        let ghost before = *self;
        let ghost kept = Set::new(|known: u32| known != xid);
        let mut at: usize = 0;
        while at < self.issued.len()
            invariant
                at <= self.issued.len(),
                self.issued@.len() == before.issued@.len(),
                kept == Set::new(|known: u32| known != xid),
                forall|i: int|
                    0 <= i < self.issued@.len() ==> (#[trigger] self.issued@[i]).handle
                        == before.issued@[i].handle && self.issued@[i].xid == before.issued@[i].xid
                        && self.issued@[i].live == (before.issued@[i].live && (i >= at
                        || kept.contains(before.issued@[i].xid))),
            decreases self.issued.len() - at,
        {
            if self.issued[at].xid == xid {
                let entry = &mut self.issued[at];
                entry.live = false;
            }
            at += 1;
        }
        proof {
            Self::lemma_fewer(before, *self, kept);
            assert(self@.live =~= before@.live.remove(xid));
        }
    }

    /// The window that a reference was given out for.
    pub fn lookup(&self, window_ref: &str) -> (found: Option<u32>)
        requires
            self.well_formed(),
        ensures
            match found {
                Some(xid) => self@.was_issued(window_ref@, xid),
                None => forall|xid: u32| !#[trigger] self@.was_issued(window_ref@, xid),
            },
    {
        let mut at: usize = 0;
        while at < self.issued.len()
            invariant
                self.well_formed(),
                at <= self.issued.len(),
                forall|i: int| 0 <= i < at ==> #[trigger] handle(i) != window_ref@,
            decreases self.issued.len() - at,
        {
            assert(self.issued@[at as int].handle@ == handle(at as int));
            if same_text(self.issued[at].handle.as_str(), window_ref) {
                let xid = self.issued[at].xid;
                assert(self@.issued[at as int] == xid);
                return Some(xid);
            }
            at += 1;
        }
        None
    }
}

/// Whether a list holds a value.
pub fn has_value(list: &Vec<u32>, value: u32) -> (found: bool)
    ensures
        found == list@.contains(value),
{
    let mut at: usize = 0;
    while at < list.len()
        invariant
            at <= list.len(),
            forall|i: int| 0 <= i < at ==> list@[i] != value,
        decreases list.len() - at,
    {
        if list[at] == value {
            assert(list@[at as int] == value);
            return true;
        }
        at += 1;
    }
    false
}

/// What the display says of a window. The process and desktop numbers are
/// read last, and each may fail on its own.
#[derive(Debug)]
pub struct RawWindow {
    pub viewable: bool,
    pub x: i16,
    pub y: i16,
    pub width: u16,
    pub height: u16,
    pub net_name: Option<Vec<u8>>,
    pub name: Option<Vec<u8>>,
    pub class: Option<Vec<u8>>,
    pub pid: Result<Option<Vec<u32>>, ControllerError>,
    pub desktop: Result<Option<Vec<u32>>, ControllerError>,
}

/// The place of the first zero byte, from a place on.
pub open spec fn zero_from(bytes: Seq<u8>, from: int) -> int
    decreases bytes.len() - from,
{
    if from >= bytes.len() || bytes[from] == 0 {
        from
    } else {
        zero_from(bytes, from + 1)
    }
}

/// The parts of some bytes between zero bytes that are not empty, from a place on.
pub open spec fn parts_from(bytes: Seq<u8>, from: int) -> Seq<Seq<u8>>
    decreases bytes.len() + 1 - from,
    via parts_shrink
{
    if from >= bytes.len() {
        Seq::empty()
    } else {
        let end = zero_from(bytes, from);
        let rest = parts_from(bytes, end + 1);
        if end > from {
            seq![bytes.subrange(from, end)] + rest
        } else {
            rest
        }
    }
}

#[via_fn]
proof fn parts_shrink(bytes: Seq<u8>, from: int) {
    if from < bytes.len() {
        lemma_zero_from(bytes, from);
    }
}

/// Where a search for a zero byte ends.
proof fn lemma_zero_from(bytes: Seq<u8>, from: int)
    requires
        from <= bytes.len(),
    ensures
        from <= zero_from(bytes, from) <= bytes.len(),
    decreases bytes.len() - from,
{
    if from < bytes.len() && bytes[from] != 0 {
        lemma_zero_from(bytes, from + 1);
    }
}

/// The text of an optional part.
pub open spec fn part_text(parts: Seq<Seq<u8>>, at: int) -> Option<Seq<char>> {
    if at < parts.len() {
        Some(text::utf8_lossy(parts[at]))
    } else {
        None
    }
}

/// Copies a range of bytes.
fn copy_bytes(bytes: &Vec<u8>, start: usize, end: usize) -> (copy: Vec<u8>)
    requires
        start <= end <= bytes.len(),
    ensures
        copy@ == bytes@.subrange(start as int, end as int),
{
    let mut copy: Vec<u8> = Vec::new();
    let mut at: usize = start;
    while at < end
        invariant
            start <= at <= end <= bytes.len(),
            copy@ == bytes@.subrange(start as int, at as int),
        decreases end - at,
    {
        copy.push(bytes[at]);
        assert(copy@ =~= bytes@.subrange(start as int, at + 1));
        at += 1;
    }
    copy
}

/// The instance and class names that a `WM_CLASS` value holds.
pub fn parse_class(bytes: &Vec<u8>) -> (class: WindowClass)
    ensures
        text::opt_text(class.instance) == part_text(parts_from(bytes@, 0), 0),
        text::opt_text(class.name) == part_text(parts_from(bytes@, 0), 1),
{
    let mut names: Vec<String> = Vec::new();
    let mut start: usize = 0;
    while start < bytes.len() && names.len() < 2
        invariant
            start <= bytes.len() || parts_from(bytes@, start as int).len() == 0,
            names@.len() <= 2,
            parts_from(bytes@, 0).len() == names@.len() + parts_from(bytes@, start as int).len(),
            forall|i: int|
                0 <= i < names@.len() ==> (#[trigger] names@[i])@ == text::utf8_lossy(
                    parts_from(bytes@, 0)[i],
                ),
            forall|i: int|
                0 <= i < parts_from(bytes@, start as int).len() ==> #[trigger] parts_from(
                    bytes@,
                    start as int,
                )[i] == parts_from(bytes@, 0)[names@.len() + i],
        decreases bytes.len() - start,
    {
        let mut end: usize = start;
        while end < bytes.len() && bytes[end] != 0
            invariant
                start <= end <= bytes.len(),
                zero_from(bytes@, start as int) == zero_from(bytes@, end as int),
            decreases bytes.len() - end,
        {
            end += 1;
        }
        assert(zero_from(bytes@, start as int) == end);
        let ghost here = parts_from(bytes@, start as int);
        let ghost rest = parts_from(bytes@, end + 1);
        if end > start {
            let part = copy_bytes(bytes, start, end);
            assert(here =~= seq![part@] + rest);
            assert(here[0] == part@);
            names.push(from_utf8_lossy(&part));
            assert forall|i: int| 0 <= i < rest.len() implies #[trigger] rest[i] == parts_from(
                bytes@,
                0,
            )[names@.len() + i] by {
                assert(rest[i] == here[i + 1]);
            }
        }
        if end >= bytes.len() {
            assert(rest.len() == 0);
            start = end;
            assert(parts_from(bytes@, start as int).len() == 0);
        } else {
            start = end + 1;
        }
    }
    let ghost all = parts_from(bytes@, 0);
    if names.len() == 0 {
        WindowClass { instance: None, name: None }
    } else if names.len() == 1 {
        WindowClass { instance: Some(names[0].clone()), name: None }
    } else {
        WindowClass { instance: Some(names[0].clone()), name: Some(names[1].clone()) }
    }
}

/// The first number of an optional list.
pub open spec fn first_of(list: Option<Vec<u32>>) -> Option<u32> {
    match list {
        Some(values) => if values@.len() > 0 {
            Some(values@[0])
        } else {
            None
        },
        None => None,
    }
}

/// The first number of an optional list.
pub fn first_value(list: &Option<Vec<u32>>) -> (value: Option<u32>)
    ensures
        value == first_of(*list),
{
    match list {
        Some(values) => {
            if values.len() > 0 {
                Some(values[0])
            } else {
                None
            }
        },
        None => None,
    }
}

/// The title of a window: of its two names, the first that is there.
pub open spec fn raw_title(raw: RawWindow) -> Seq<char> {
    match raw.net_name {
        Some(bytes) => text::utf8_lossy(bytes@),
        None => match raw.name {
            Some(bytes) => text::utf8_lossy(bytes@),
            None => Seq::empty(),
        },
    }
}

/// The names that an optional `WM_CLASS` value holds.
pub open spec fn raw_names(raw: RawWindow) -> Seq<Seq<u8>> {
    match raw.class {
        Some(bytes) => parts_from(bytes@, 0),
        None => Seq::empty(),
    }
}

/// The description of a window.
pub open spec fn description(refs: Refs, xid: u32, raw: RawWindow) -> types::WindowView {
    types::WindowView {
        window_ref: refs.ref_of(xid),
        xid: "0x"@ + text::hex_digits(xid as nat, 8),
        title: raw_title(raw),
        instance: part_text(raw_names(raw), 0),
        name: part_text(raw_names(raw), 1),
        pid: first_of(raw.pid->Ok_0),
        desktop: first_of(raw.desktop->Ok_0),
        geometry: Geometry {
            x: raw.x as i32,
            y: raw.y as i32,
            width: raw.width as u32,
            height: raw.height as u32,
        },
        mapped: raw.viewable,
    }
}

/// Describes a window. The window gets its reference before its process and
/// desktop numbers are looked at.
pub fn describe_window(refs: &mut WindowRefs, xid: u32, raw: RawWindow) -> (result: Result<
    WindowInfo,
    ControllerError,
>)
    requires
        old(refs).well_formed(),
    ensures
        final(refs).well_formed(),
        final(refs)@ == old(refs)@.seen(xid),
        match result {
            Ok(info) => raw.pid is Ok && raw.desktop is Ok && info@ == description(
                old(refs)@,
                xid,
                raw,
            ),
            Err(e) => if raw.pid is Err {
                e == raw.pid->Err_0
            } else {
                raw.desktop is Err && e == raw.desktop->Err_0
            },
        },
{
    let title = match &raw.net_name {
        Some(bytes) => from_utf8_lossy(bytes),
        None => match &raw.name {
            Some(bytes) => from_utf8_lossy(bytes),
            None => String::new(),
        },
    };
    assert(title@ =~= raw_title(raw));
    let class = match &raw.class {
        Some(bytes) => parse_class(bytes),
        None => WindowClass { instance: None, name: None },
    };
    let window_ref = refs.ref_for(xid);
    let pid = match raw.pid {
        Ok(values) => first_value(&values),
        Err(e) => {
            return Err(e);
        },
    };
    let desktop = match raw.desktop {
        Ok(values) => first_value(&values),
        Err(e) => {
            return Err(e);
        },
    };
    let number = format_hex(xid, 8);
    Ok(
        WindowInfo {
            window_ref,
            xid: "0x".to_owned().concat(number.as_str()),
            title,
            class,
            pid,
            desktop,
            geometry: Geometry {
                x: raw.x as i32,
                y: raw.y as i32,
                width: raw.width as u32,
                height: raw.height as u32,
            },
            mapped: raw.viewable,
        },
    )
}

/// What was read of a window, or why it could not be read.
pub type WindowReading = Result<RawWindow, ControllerError>;

/// The references and descriptions after some windows were read in turn.
/// Windows that could not be read are left out.
pub open spec fn listed(refs: Refs, xids: Seq<u32>, readings: Seq<WindowReading>) -> (
    Refs,
    Seq<types::WindowView>,
)
    decreases xids.len(),
{
    if xids.len() == 0 || readings.len() == 0 {
        (refs, Seq::empty())
    } else {
        let (before, list) = listed(refs, xids.drop_last(), readings.drop_last());
        match readings.last() {
            Err(_) => (before, list),
            Ok(raw) => (
                before.seen(xids.last()),
                if raw.pid is Ok && raw.desktop is Ok {
                    list.push(description(before, xids.last(), raw))
                } else {
                    list
                },
            ),
        }
    }
}

/// The reference of the active window, where it is known.
pub open spec fn active_ref(refs: Refs, active: Option<Vec<u32>>) -> Option<Seq<char>> {
    match first_of(active) {
        Some(xid) => if refs.live.dom().contains(xid) {
            Some(handle(refs.live[xid]))
        } else {
            None
        },
        None => None,
    }
}

/// Lists the windows of the desktop from what was read of each, in stacking
/// order. Windows that are gone are forgotten first.
pub fn list_desktop(
    refs: &mut WindowRefs,
    xids: &Vec<u32>,
    readings: Vec<WindowReading>,
    active: Result<Option<Vec<u32>>, ControllerError>,
) -> (result: Result<(Vec<WindowInfo>, Option<String>), ControllerError>)
    requires
        old(refs).well_formed(),
        readings@.len() == xids@.len(),
    ensures
        final(refs).well_formed(),
        final(refs)@ == listed(old(refs)@.retained(xids@), xids@, readings@).0,
        match result {
            Ok((windows, active_window)) => {
                &&& active is Ok
                &&& types::window_views(windows@) == listed(
                    old(refs)@.retained(xids@),
                    xids@,
                    readings@,
                ).1
                &&& text::opt_text(active_window) == active_ref(final(refs)@, active->Ok_0)
            },
            Err(e) => active is Err && e == active->Err_0,
        },
{
    refs.retain(xids);
    let ghost start = refs@;
    let ghost all = readings@;
    let mut rest: Vec<WindowReading> = readings;
    let mut windows: Vec<WindowInfo> = Vec::new();
    let mut at: usize = 0;
    while at < xids.len()
        invariant
            at <= xids.len(),
            all.len() == xids@.len(),
            rest@ == all.skip(at as int),
            refs.well_formed(),
            refs@ == listed(start, xids@.take(at as int), all.take(at as int)).0,
            types::window_views(windows@) == listed(
                start,
                xids@.take(at as int),
                all.take(at as int),
            ).1,
        decreases xids.len() - at,
    {
        let ghost before = refs@;
        let ghost known = windows@;
        assert(xids@.take(at + 1).drop_last() =~= xids@.take(at as int));
        assert(all.take(at + 1).drop_last() =~= all.take(at as int));
        let reading = rest.remove(0);
        assert(reading == all[at as int]);
        assert(rest@ =~= all.skip(at + 1));
        if let Ok(raw) = reading {
            if let Ok(window) = describe_window(refs, xids[at], raw) {
                windows.push(window);
                assert(types::window_views(windows@) =~= types::window_views(known).push(window@));
            }
        }
        at += 1;
    }
    assert(xids@.take(xids@.len() as int) =~= xids@);
    assert(all.take(all.len() as int) =~= all);
    let active = match active {
        Ok(active) => active,
        Err(e) => {
            return Err(e);
        },
    };
    let active_window = match first_value(&active) {
        Some(xid) => refs.current(xid),
        None => None,
    };
    Ok((windows, active_window))
}

/// The windows in stacking order: of three sources, the first that is there.
pub fn window_order(
    stacking: Option<Vec<u32>>,
    clients: Option<Vec<u32>>,
    children: Option<Vec<u32>>,
) -> (order: Vec<u32>)
    ensures
        order@ == (match (stacking, clients, children) {
            (Some(list), _, _) => list@,
            (None, Some(list), _) => list@,
            (None, None, Some(list)) => list@,
            (None, None, None) => Seq::empty(),
        }),
{
    if let Some(list) = stacking {
        return list;
    }
    if let Some(list) = clients {
        return list;
    }
    match children {
        Some(list) => list,
        None => Vec::new(),
    }
}

/// The topology of the desktop: a generation that counts its changes.
#[derive(Debug)]
pub struct Topology {
    pub generation: u64,
    pub signature: Option<u64>,
}

impl Topology {
    /// The topology after a signature of it was taken.
    pub open spec fn after(self, signature: u64) -> Topology {
        let changed = self.signature is Some && self.signature->0 != signature;
        Topology {
            generation: if changed && self.generation < u64::MAX {
                (self.generation + 1) as u64
            } else {
                self.generation
            },
            signature: Some(signature),
        }
    }

    /// A topology that was not looked at yet.
    pub fn new() -> (topology: Self)
        ensures
            topology.generation == 1,
            topology.signature is None,
    {
        Topology { generation: 1, signature: None }
    }

    /// Takes a signature of the topology.
    pub fn sign(&mut self, signature: u64)
        ensures
            *final(self) == old(self).after(signature),
    {
        if let Some(previous) = self.signature {
            if previous != signature && self.generation < u64::MAX {
                self.generation = self.generation + 1;
            }
        }
        self.signature = Some(signature);
    }

    /// Looks at the topology in a serialized form, where it has one.
    pub fn update(&mut self, serialized: Option<Vec<u8>>)
        ensures
            *final(self) == old(self).after(
                match serialized {
                    Some(bytes) => frames::xxh3(bytes@),
                    None => 0,
                },
            ),
    {
        let signature: u64 = match serialized {
            Some(bytes) => hash_bytes(&bytes),
            None => 0,
        };
        self.sign(signature);
    }
}

/// The generation never falls, and rises exactly where the signature
/// changes: an unchanged desktop keeps its generation.
pub proof fn generations_count_changes(topology: Topology, signature: u64)
    ensures
        topology.after(signature).generation >= topology.generation,
        topology.signature == Some(signature) ==> topology.after(signature) == topology,
        topology.generation < u64::MAX ==> (topology.after(signature).generation
            > topology.generation <==> topology.signature is Some && topology.signature->0
            != signature),
{
}

/// Whether a window is one that a listing asks for.
pub open spec fn wanted(window: WindowInfo, request: ListWindowsRequest) -> bool {
    &&& request.include_unmapped || window.mapped
    &&& request.selector is Some ==> types::selects(request.selector->0, window)
}

/// The windows that a listing asks for, in order.
pub open spec fn wanted_windows(windows: Seq<WindowInfo>, request: ListWindowsRequest) -> Seq<
    WindowInfo,
>
    decreases windows.len(),
{
    if windows.len() == 0 {
        Seq::empty()
    } else {
        let rest = wanted_windows(windows.drop_last(), request);
        if wanted(windows.last(), request) {
            rest.push(windows.last())
        } else {
            rest
        }
    }
}

/// Keeps the windows that a listing asks for.
pub fn list_windows(list: WindowList, request: &ListWindowsRequest) -> (result: WindowList)
    ensures
        result.desktop_generation == list.desktop_generation,
        result.active_window == list.active_window,
        result.windows@ == wanted_windows(list.windows@, *request),
{
    let mut windows: Vec<WindowInfo> = Vec::new();
    let mut at: usize = 0;
    while at < list.windows.len()
        invariant
            at <= list.windows.len(),
            windows@ == wanted_windows(list.windows@.take(at as int), *request),
        decreases list.windows.len() - at,
    {
        assert(list.windows@.take(at + 1).drop_last() =~= list.windows@.take(at as int));
        let window = &list.windows[at];
        let selected: bool = match &request.selector {
            Some(selector) => selector.matches(window),
            None => true,
        };
        if (request.include_unmapped || window.mapped) && selected {
            windows.push(window.clone());
        }
        at += 1;
    }
    assert(list.windows@.take(list.windows@.len() as int) =~= list.windows@);
    WindowList {
        desktop_generation: list.desktop_generation,
        active_window: list.active_window,
        windows,
    }
}

/// The first window with a reference, from a place on.
pub open spec fn window_from(windows: Seq<WindowInfo>, window_ref: Seq<char>, from: int) -> Option<
    WindowInfo,
>
    decreases windows.len() - from,
{
    if from >= windows.len() {
        None
    } else if windows[from].window_ref@ == window_ref {
        Some(windows[from])
    } else {
        window_from(windows, window_ref, from + 1)
    }
}

/// The window with a reference.
pub fn find_window<'a>(windows: &'a Vec<WindowInfo>, window_ref: &str) -> (found: Option<
    &'a WindowInfo,
>)
    ensures
        match (found, window_from(windows@, window_ref@, 0)) {
            (Some(window), Some(expected)) => *window == expected,
            (None, None) => true,
            _ => false,
        },
{
    let mut at: usize = 0;
    while at < windows.len()
        invariant
            at <= windows.len(),
            window_from(windows@, window_ref@, 0) == window_from(
                windows@,
                window_ref@,
                at as int,
            ),
        decreases windows.len() - at,
    {
        if same_text(windows[at].window_ref.as_str(), window_ref) {
            return Some(&windows[at]);
        }
        at += 1;
    }
    None
}

/// What is said of a reference that means no window.
pub open spec fn stale_ref(refs: Refs, window_ref: Seq<char>) -> Seq<char> {
    if exists|xid: u32| #[trigger] refs.was_issued(window_ref, xid) {
        "window reference is stale: "@ + window_ref
    } else {
        "unknown or stale window reference: "@ + window_ref
    }
}

/// The window that a reference means.
pub fn resolve_window(windows: &Vec<WindowInfo>, refs: &WindowRefs, window_ref: &str) -> (result:
    Result<WindowInfo, ControllerError>)
    requires
        refs.well_formed(),
    ensures
        match (result, window_from(windows@, window_ref@, 0)) {
            (Ok(window), Some(expected)) => window == expected,
            (Err(e), None) => error::final_error(
                e,
                ErrorCode::StaleWindow,
                stale_ref(refs@, window_ref@),
            ),
            _ => false,
        },
{
    if let Some(window) = find_window(windows, window_ref) {
        return Ok(window.clone());
    }
    if refs.lookup(window_ref).is_some() {
        Err(error2(ErrorCode::StaleWindow, "window reference is stale: ", window_ref))
    } else {
        Err(error2(ErrorCode::StaleWindow, "unknown or stale window reference: ", window_ref))
    }
}

/// The topmost window that shows at a point, among the first windows of a
/// list that goes from bottom to top. An unmapped window does not show, so it
/// is passed over on purpose: a minimized window must not decide about a click
/// that goes to the window that is seen there.
pub open spec fn topmost(windows: Seq<WindowInfo>, x: i32, y: i32, count: int) -> Option<WindowInfo>
    decreases count,
{
    if count <= 0 {
        None
    } else if windows[count - 1].mapped && geometry::covers(
        windows[count - 1].geometry,
        x as int,
        y as int,
    ) {
        Some(windows[count - 1])
    } else {
        topmost(windows, x, y, count - 1)
    }
}

/// The topmost window that shows at a point.
pub fn window_at<'a>(windows: &'a Vec<WindowInfo>, x: i32, y: i32) -> (found: Option<
    &'a WindowInfo,
>)
    ensures
        match (found, topmost(windows@, x, y, windows@.len() as int)) {
            (Some(window), Some(expected)) => *window == expected,
            (None, None) => true,
            _ => false,
        },
{
    let mut count: usize = windows.len();
    while count > 0
        invariant
            count <= windows.len(),
            topmost(windows@, x, y, windows@.len() as int) == topmost(
                windows@,
                x,
                y,
                count as int,
            ),
        decreases count,
    {
        if windows[count - 1].mapped && covers_point(windows[count - 1].geometry, x, y) {
            return Some(&windows[count - 1]);
        }
        count -= 1;
    }
    None
}

/// A reference means the first window of a list that carries it, and no
/// window where none does.
pub proof fn references_mean_their_window(windows: Seq<WindowInfo>, window_ref: Seq<char>, from: int)
    requires
        0 <= from,
    ensures
        match window_from(windows, window_ref, from) {
            Some(window) => exists|at: int|
                from <= at < windows.len() && window == #[trigger] windows[at] && window.window_ref@
                    == window_ref && forall|i: int|
                    from <= i < at ==> (#[trigger] windows[i]).window_ref@ != window_ref,
            None => forall|i: int|
                from <= i < windows.len() ==> (#[trigger] windows[i]).window_ref@ != window_ref,
        },
    decreases windows.len() - from,
{
    if from < windows.len() && windows[from].window_ref@ != window_ref {
        references_mean_their_window(windows, window_ref, from + 1);
        if let Some(window) = window_from(windows, window_ref, from + 1) {
            let at = choose|at: int|
                from + 1 <= at < windows.len() && window == #[trigger] windows[at]
                    && window.window_ref@ == window_ref && forall|i: int|
                    from + 1 <= i < at ==> (#[trigger] windows[i]).window_ref@ != window_ref;
            assert forall|i: int| from <= i < at implies (#[trigger] windows[i]).window_ref@
                != window_ref by {}
        }
    }
}

/// A listing holds every window that is mapped, or any where unmapped ones are
/// asked for, and that fits the selector: all of them, once each and in
/// stacking order, and no other.
pub proof fn listings_are_complete(
    list: WindowList,
    request: ListWindowsRequest,
    result: WindowList,
    at: int,
)
    requires
        call_ensures(list_windows, (list, &request), result),
    ensures
        result.windows@ == list.windows@.filter(
            |window: WindowInfo|
                {
                    &&& window.mapped || request.include_unmapped
                    &&& request.selector matches Some(selector) ==> types::selects(selector, window)
                },
        ),
        0 <= at < list.windows@.len() && (list.windows@[at].mapped || request.include_unmapped) && (
        request.selector is None || types::selects(request.selector->0, list.windows@[at]))
            ==> result.windows@.contains(list.windows@[at]),
        result.active_window == list.active_window,
        result.desktop_generation == list.desktop_generation,
{
    let fits = |window: WindowInfo|
        {
            &&& window.mapped || request.include_unmapped
            &&& request.selector matches Some(selector) ==> types::selects(selector, window)
        };
    lemma_wanted_windows(list.windows@, request, fits);
    list.windows@.filter_lemma(fits);
}

/// The windows that a listing asks for are those that fit.
proof fn lemma_wanted_windows(
    windows: Seq<WindowInfo>,
    request: ListWindowsRequest,
    fits: spec_fn(WindowInfo) -> bool,
)
    requires
        forall|window: WindowInfo| #[trigger] fits(window) == wanted(window, request),
    ensures
        wanted_windows(windows, request) == windows.filter(fits),
    decreases windows.len(),
{
    reveal(Seq::filter);
    if windows.len() > 0 {
        lemma_wanted_windows(windows.drop_last(), request, fits);
        assert(fits(windows.last()) == wanted(windows.last(), request));
    }
}

/// A window is described as it was read: with its own reference, its number,
/// the newer of its names as its title, its process and desktop, its place and
/// size, and as mapped where it can be seen.
pub proof fn windows_are_described_as_read(
    refs: &mut WindowRefs,
    xid: u32,
    raw: RawWindow,
    info: WindowInfo,
)
    requires
        call_ensures(
            describe_window,
            (refs, xid, raw),
            Ok::<WindowInfo, ControllerError>(info),
        ),
    ensures
        info.window_ref@ == old(refs)@.ref_of(xid),
        info.window_ref@ == handle(final(refs)@.live[xid]),
        info.xid@ == "0x"@ + text::hex_digits(xid as nat, 8),
        raw.net_name is Some ==> info.title@ == text::utf8_lossy(raw.net_name->0@),
        raw.net_name is None && raw.name is Some ==> info.title@ == text::utf8_lossy(raw.name->0@),
        raw.net_name is None && raw.name is None ==> info.title@.len() == 0,
        raw.class is None ==> info.class.instance is None && info.class.name is None,
        info.pid is Some <==> raw.pid->Ok_0 is Some && raw.pid->Ok_0->0@.len() > 0,
        info.pid is Some ==> info.pid->0 == raw.pid->Ok_0->0@[0],
        info.desktop is Some <==> raw.desktop->Ok_0 is Some && raw.desktop->Ok_0->0@.len() > 0,
        info.desktop is Some ==> info.desktop->0 == raw.desktop->Ok_0->0@[0],
        info.geometry.x == raw.x && info.geometry.y == raw.y && info.geometry.width == raw.width
            && info.geometry.height == raw.height,
        info.mapped == raw.viewable,
{
    assert(info@.title == raw_title(raw));
}

/// The instance and class names of a window are the first two parts of its
/// class value, which ends each with a zero byte.
pub proof fn class_names_are_read_in_order(
    instance: Seq<u8>,
    name: Seq<u8>,
    bytes: Vec<u8>,
    class: WindowClass,
)
    requires
        call_ensures(parse_class, (&bytes,), class),
        bytes@ == instance.push(0).add(name.push(0)),
        instance.len() > 0,
        name.len() > 0,
        !instance.contains(0),
        !name.contains(0),
    ensures
        class.instance is Some && class.instance->0@ == text::utf8_lossy(instance),
        class.name is Some && class.name->0@ == text::utf8_lossy(name),
{
    let all = bytes@;
    let first = instance.len() as int;
    let second = first + 1 + name.len();
    assert forall|i: int| 0 <= i < first implies all[i] != 0 by {
        assert(all[i] == instance[i]);
        assert(instance.contains(instance[i]));
    }
    assert(all[first] == 0);
    assert forall|i: int| first + 1 <= i < second implies all[i] != 0 by {
        assert(all[i] == name[i - first - 1]);
        assert(name.contains(name[i - first - 1]));
    }
    assert(all[second] == 0);
    lemma_zero_at(all, 0, first);
    lemma_zero_at(all, first + 1, second);
    assert(all.subrange(0, first) =~= instance);
    assert(all.subrange(first + 1, second) =~= name);
    assert(parts_from(all, second + 1).len() == 0);
    let rest = parts_from(all, first + 1);
    assert(rest =~= seq![name]);
    assert(parts_from(all, 0) =~= seq![instance] + rest);
}

/// A search for a zero byte ends at the first one.
proof fn lemma_zero_at(bytes: Seq<u8>, from: int, end: int)
    requires
        0 <= from <= end < bytes.len(),
        forall|i: int| from <= i < end ==> bytes[i] != 0,
        bytes[end] == 0,
    ensures
        zero_from(bytes, from) == end,
    decreases end - from,
{
    if from < end {
        lemma_zero_at(bytes, from + 1, end);
    }
}

/// The desktop lists every window that could be read, once and in the order
/// of the display, each under the reference that means it.
pub proof fn every_readable_window_is_listed(
    refs: &mut WindowRefs,
    xids: Vec<u32>,
    readings: Vec<WindowReading>,
    active: Result<Option<Vec<u32>>, ControllerError>,
    windows: Vec<WindowInfo>,
    active_window: Option<String>,
    at: int,
)
    requires
        call_ensures(
            list_desktop,
            (refs, &xids, readings, active),
            Ok::<(Vec<WindowInfo>, Option<String>), ControllerError>((windows, active_window)),
        ),
        readings@.len() == xids@.len(),
        old(refs)@.valid(),
    ensures
        ({
            let readable = xids@.zip_with(readings@).filter(
                |pair: (u32, WindowReading)|
                    pair.1 is Ok && pair.1->Ok_0.pid is Ok && pair.1->Ok_0.desktop is Ok,
            );
            &&& windows@.len() == readable.len()
            &&& 0 <= at < readable.len() ==> {
                let (xid, reading) = readable[at];
                let raw = reading->Ok_0;
                &&& final(refs)@.live.dom().contains(xid)
                &&& windows@[at].window_ref@ == handle(final(refs)@.live[xid])
                &&& windows@[at].xid@ == "0x"@ + text::hex_digits(xid as nat, 8)
                &&& windows@[at].mapped == raw.viewable
                &&& windows@[at].title@ == raw_title(raw)
                &&& windows@[at].geometry.x == raw.x && windows@[at].geometry.y == raw.y
                &&& windows@[at].geometry.width == raw.width && windows@[at].geometry.height
                    == raw.height
            }
        }),
        active is Ok,
        active_window is Some <==> active->Ok_0 is Some && active->Ok_0->0@.len() > 0
            && final(refs)@.live.dom().contains(active->Ok_0->0@[0]),
        active_window is Some ==> active_window->0@ == handle(
            final(refs)@.live[active->Ok_0->0@[0]],
        ),
{
    let start = old(refs)@.retained(xids@);
    let list = listed(start, xids@, readings@).1;
    lemma_listed(start, xids@, readings@, at);
    assert(types::window_views(windows@).len() == windows@.len());
    if 0 <= at < list.len() {
        assert(types::window_views(windows@)[at] == windows@[at]@);
    }
}

/// What a list of windows holds.
proof fn lemma_listed(refs: Refs, xids: Seq<u32>, readings: Seq<WindowReading>, at: int)
    requires
        readings.len() == xids.len(),
        refs.valid(),
    ensures
        ({
            let readable = xids.zip_with(readings).filter(
                |pair: (u32, WindowReading)|
                    pair.1 is Ok && pair.1->Ok_0.pid is Ok && pair.1->Ok_0.desktop is Ok,
            );
            let (after, list) = listed(refs, xids, readings);
            &&& after.valid()
            &&& list.len() == readable.len()
            &&& 0 <= at < readable.len() ==> {
                let (xid, reading) = readable[at];
                let raw = reading->Ok_0;
                &&& after.live.dom().contains(xid)
                &&& list[at].window_ref == handle(after.live[xid])
                &&& list[at].xid == "0x"@ + text::hex_digits(xid as nat, 8)
                &&& list[at].mapped == raw.viewable
                &&& list[at].title == raw_title(raw)
                &&& list[at].geometry.x == raw.x && list[at].geometry.y == raw.y
                &&& list[at].geometry.width == raw.width && list[at].geometry.height == raw.height
            }
        }),
    decreases xids.len(),
{
    reveal(Seq::filter);
    let pairs = xids.zip_with(readings);
    if xids.len() > 0 {
        let rest = xids.drop_last();
        lemma_listed(refs, rest, readings.drop_last(), at);
        assert(pairs.drop_last() =~= rest.zip_with(readings.drop_last()));
        assert(pairs.last() == (xids.last(), readings.last()));
        let before = listed(refs, rest, readings.drop_last()).0;
        references_are_stable(before, xids.last(), xids.last());
    } else {
        assert(pairs =~= Seq::empty());
    }
}

/// The window at a point is the topmost mapped one that covers it: no window
/// above it does, and there is none only where no mapped window covers the point.
pub proof fn the_topmost_window_is_found(
    windows: Vec<WindowInfo>,
    x: i32,
    y: i32,
    found: Option<&WindowInfo>,
)
    requires
        call_ensures(window_at, (&windows, x, y), found),
    ensures
        match found {
            Some(window) => exists|at: int|
                0 <= at < windows@.len() && *window == #[trigger] windows@[at] && window.mapped
                    && geometry::covers(window.geometry, x as int, y as int) && forall|above: int|
                    at < above < windows@.len() ==> !((#[trigger] windows@[above]).mapped
                        && geometry::covers(windows@[above].geometry, x as int, y as int)),
            None => forall|at: int|
                0 <= at < windows@.len() ==> !((#[trigger] windows@[at]).mapped && geometry::covers(
                    windows@[at].geometry,
                    x as int,
                    y as int,
                )),
        },
{
    lemma_topmost(windows@, x, y, windows@.len() as int);
}

/// What a search from the top finds.
proof fn lemma_topmost(windows: Seq<WindowInfo>, x: i32, y: i32, count: int)
    requires
        0 <= count <= windows.len(),
    ensures
        match topmost(windows, x, y, count) {
            Some(window) => exists|at: int|
                0 <= at < count && window == #[trigger] windows[at] && window.mapped
                    && geometry::covers(window.geometry, x as int, y as int) && forall|above: int|
                    at < above < count ==> !((#[trigger] windows[above]).mapped
                        && geometry::covers(windows[above].geometry, x as int, y as int)),
            None => forall|at: int|
                0 <= at < count ==> !((#[trigger] windows[at]).mapped && geometry::covers(
                    windows[at].geometry,
                    x as int,
                    y as int,
                )),
        },
    decreases count,
{
    if count > 0 {
        lemma_topmost(windows, x, y, count - 1);
    }
}

/// The windows are those that the window manager lists in stacking order, else
/// its clients, else the children of the root.
pub proof fn windows_come_from_the_best_source(
    stacking: Option<Vec<u32>>,
    clients: Option<Vec<u32>>,
    children: Option<Vec<u32>>,
    order: Vec<u32>,
)
    requires
        call_ensures(window_order, (stacking, clients, children), order),
    ensures
        stacking is Some ==> order@ == stacking->0@,
        stacking is None && clients is Some ==> order@ == clients->0@,
        stacking is None && clients is None && children is Some ==> order@ == children->0@,
        stacking is None && clients is None && children is None ==> order@.len() == 0,
{
}

/// A reference resolves to the first listed window that carries it; where none
/// does, the reference is stale.
pub proof fn references_resolve_or_are_stale(
    windows: Vec<WindowInfo>,
    refs: WindowRefs,
    window_ref: String,
    given: &str,
    result: Result<WindowInfo, ControllerError>,
)
    requires
        call_ensures(resolve_window, (&windows, &refs, given), result),
        given@ == window_ref@,
    ensures
        match result {
            Ok(window) => windows@.contains(window) && window.window_ref@ == window_ref@,
            Err(e) => e.code == ErrorCode::StaleWindow && forall|i: int|
                0 <= i < windows@.len() ==> (#[trigger] windows@[i]).window_ref@ != window_ref@,
        },
{
    references_mean_their_window(windows@, window_ref@, 0);
}

/// The class names of a described window are those that its class value is
/// read as.
pub proof fn windows_have_their_class_names(
    refs: &mut WindowRefs,
    xid: u32,
    raw: RawWindow,
    info: WindowInfo,
    class: WindowClass,
)
    requires
        call_ensures(
            describe_window,
            (refs, xid, raw),
            Ok::<WindowInfo, ControllerError>(info),
        ),
        raw.class is Some,
        call_ensures(parse_class, (&raw.class->0,), class),
    ensures
        text::opt_text(info.class.instance) == text::opt_text(class.instance),
        text::opt_text(info.class.name) == text::opt_text(class.name),
{
    assert(info@.instance == text::opt_text(info.class.instance));
    assert(info@.name == text::opt_text(info.class.name));
}

/// No part of a class value is empty, and none holds a zero byte.
pub proof fn class_parts_are_not_empty(bytes: Seq<u8>, from: int, at: int)
    requires
        0 <= from,
        0 <= at < parts_from(bytes, from).len(),
    ensures
        parts_from(bytes, from)[at].len() > 0,
        !parts_from(bytes, from)[at].contains(0),
    decreases bytes.len() + 1 - from,
{
    if from < bytes.len() {
        lemma_zero_from(bytes, from);
        let end = zero_from(bytes, from);
        let rest = parts_from(bytes, end + 1);
        let shift = if end > from {
            1int
        } else {
            0int
        };
        if at >= shift {
            class_parts_are_not_empty(bytes, end + 1, at - shift);
        } else if bytes.subrange(from, end).contains(0) {
            let i = bytes.subrange(from, end).index_of(0);
            assert(bytes[from + i] == 0);
            lemma_no_zero_before(bytes, from, from + i);
        }
    }
}

/// A search for a zero byte passes over none.
proof fn lemma_no_zero_before(bytes: Seq<u8>, from: int, at: int)
    requires
        0 <= from <= at < bytes.len(),
        bytes[at] == 0,
    ensures
        zero_from(bytes, from) <= at,
    decreases at - from,
{
    if from < at {
        lemma_no_zero_before(bytes, from + 1, at);
    }
}

} // verus!
