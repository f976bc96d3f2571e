//! The clipboard: what is served to other clients, how its earlier contents
//! are read, and how they come back after a paste.

use vstd::prelude::*;

use crate::error;
use crate::error::{ControllerError, ErrorCode};
use crate::types::Geometry;

verus! {

/// No atom and no window.
pub const NONE: u32 = 0;

/// How long to wait for other clients, in milliseconds.
pub const CLIPBOARD_TIMEOUT_MS: u64 = 1_000;

/// How long to sleep while no event is pending, in milliseconds.
pub const EVENT_POLL_MS: u64 = 10;

/// Atoms of the display that the clipboard uses.
#[derive(Debug, Clone, Copy, PartialEq, Eq, Structural)]
pub struct ClipboardAtoms {
    pub clipboard: u32,
    pub targets: u32,
    pub text: u32,
    pub utf8_string: u32,
    pub string: u32,
}

/// What another client asks of a selection.
#[derive(Debug, Clone, Copy, PartialEq, Eq, Structural)]
pub struct SelectionRequest {
    pub requestor: u32,
    pub selection: u32,
    pub target: u32,
    pub property: u32,
    pub time: u32,
    pub sequence: u16,
}

/// A property to write for a requestor.
#[derive(Debug)]
pub enum PropertyWrite {
    /// The targets that can be had, as atoms.
    Targets { property: u32, atoms: Vec<u32> },
    /// The contents, as bytes of a type.
    Text { property: u32, kind: u32, bytes: Vec<u8> },
}

/// What a requestor is given: a property, and the notice that names it, or
/// none where the request is refused.
#[derive(Debug)]
pub struct SelectionReply {
    pub write: Option<PropertyWrite>,
    pub accepted: u32,
}

/// The property that a request means: older clients name none.
pub open spec fn reply_property(request: SelectionRequest) -> u32 {
    if request.property == NONE {
        request.target
    } else {
        request.property
    }
}

/// Whether a request is for the contents as text.
pub open spec fn asks_for_text(request: SelectionRequest, atoms: ClipboardAtoms) -> bool {
    request.target == atoms.utf8_string || request.target == atoms.text || request.target
        == atoms.string
}

/// Whether a reply is right for a request while the clipboard has some contents.
pub open spec fn right_reply(
    reply: SelectionReply,
    request: SelectionRequest,
    atoms: ClipboardAtoms,
    content: Option<Seq<u8>>,
) -> bool {
    if request.selection != atoms.clipboard || content is None {
        reply.write is None && reply.accepted == NONE
    } else if request.target == atoms.targets {
        &&& reply.accepted == reply_property(request)
        &&& reply.write is Some
        &&& match reply.write->0 {
            PropertyWrite::Targets { property, atoms: list } => property == reply_property(request)
                && list@ == seq![atoms.targets, atoms.utf8_string, atoms.text, atoms.string],
            PropertyWrite::Text { .. } => false,
        }
    } else if asks_for_text(request, atoms) {
        &&& reply.accepted == reply_property(request)
        &&& reply.write is Some
        &&& match reply.write->0 {
            PropertyWrite::Targets { .. } => false,
            PropertyWrite::Text { property, kind, bytes } => property == reply_property(request)
                && kind == request.target && bytes@ == content->0,
        }
    } else {
        reply.write is None && reply.accepted == NONE
    }
}

/// The contents as a sequence.
pub open spec fn content_view(content: Option<Vec<u8>>) -> Option<Seq<u8>> {
    match content {
        Some(bytes) => Some(bytes@),
        None => None,
    }
}

/// Copies bytes.
fn copy_bytes(bytes: &Vec<u8>) -> (copy: Vec<u8>)
    ensures
        copy@ == bytes@,
{
    let mut copy: Vec<u8> = Vec::new();
    let mut at: usize = 0;
    while at < bytes.len()
        invariant
            at <= bytes.len(),
            copy@ == bytes@.take(at as int),
        decreases bytes.len() - at,
    {
        copy.push(bytes[at]);
        assert(bytes@.take(at + 1) =~= bytes@.take(at as int).push(bytes@[at as int]));
        at += 1;
    }
    assert(bytes@.take(bytes@.len() as int) =~= bytes@);
    copy
}

/// What a requestor is given.
pub fn serve_selection_request(
    request: SelectionRequest,
    atoms: &ClipboardAtoms,
    content: &Option<Vec<u8>>,
) -> (reply: SelectionReply)
    ensures
        right_reply(reply, request, *atoms, content_view(*content)),
{
    let property: u32 = if request.property == NONE {
        request.target
    } else {
        request.property
    };
    let bytes = match content {
        Some(bytes) => bytes,
        None => {
            return SelectionReply { write: None, accepted: NONE };
        },
    };
    if request.selection != atoms.clipboard {
        return SelectionReply { write: None, accepted: NONE };
    }
    if request.target == atoms.targets {
        let list = vec![atoms.targets, atoms.utf8_string, atoms.text, atoms.string];
        assert(list@ =~= seq![atoms.targets, atoms.utf8_string, atoms.text, atoms.string]);
        return SelectionReply {
            write: Some(PropertyWrite::Targets { property, atoms: list }),
            accepted: property,
        };
    }
    if request.target == atoms.utf8_string || request.target == atoms.text || request.target
        == atoms.string {
        return SelectionReply {
            write: Some(
                PropertyWrite::Text { property, kind: request.target, bytes: copy_bytes(bytes) },
            ),
            accepted: property,
        };
    }
    SelectionReply { write: None, accepted: NONE }
}

/// An event of the display, as far as it matters here.
#[derive(Debug, Clone, Copy, PartialEq, Eq, Structural)]
pub enum DisplayEvent {
    SelectionNotify { requestor: u32, selection: u32, property: u32 },
    SelectionRequest { request: SelectionRequest },
    SelectionClear { selection: u32 },
    DestroyNotify { window: u32 },
    Damage { part: Geometry },
    Other,
}

/// What to do with an event while no one waits for the clipboard.
#[derive(Debug, Clone, Copy, PartialEq, Eq, Structural)]
pub enum EventAction {
    Serve { request: SelectionRequest },
    ForgetClipboard,
    ForgetWindow { xid: u32 },
    NoteDamage { part: Geometry },
    Ignore,
}

/// What to do with an event while no one waits for the clipboard.
pub fn handle_event(event: DisplayEvent, atoms: &ClipboardAtoms) -> (action: EventAction)
    ensures
        action == (match event {
            DisplayEvent::SelectionRequest { request } => EventAction::Serve { request },
            DisplayEvent::SelectionClear { selection } => if selection == atoms.clipboard {
                EventAction::ForgetClipboard
            } else {
                EventAction::Ignore
            },
            DisplayEvent::DestroyNotify { window } => EventAction::ForgetWindow { xid: window },
            DisplayEvent::Damage { part } => EventAction::NoteDamage { part },
            _ => EventAction::Ignore,
        }),
{
    match event {
        DisplayEvent::SelectionRequest { request } => EventAction::Serve { request },
        DisplayEvent::SelectionClear { selection } => {
            if selection == atoms.clipboard {
                EventAction::ForgetClipboard
            } else {
                EventAction::Ignore
            }
        },
        DisplayEvent::DestroyNotify { window } => EventAction::ForgetWindow { xid: window },
        DisplayEvent::Damage { part } => EventAction::NoteDamage { part },
        _ => EventAction::Ignore,
    }
}

/// What was read of the clipboard: its contents, and whether that worked.
#[derive(Debug)]
pub struct ClipboardReading {
    pub previous: Option<Vec<u8>>,
    pub read: bool,
}

/// Whether a reading is a failure.
pub open spec fn failed_reading(reading: ClipboardReading) -> bool {
    reading.previous is None && !reading.read
}

/// How a reading begins: it is done at once, or the owner is to be asked.
#[derive(Debug)]
pub enum ReadStart {
    Done { reading: ClipboardReading },
    AskOwner,
}

/// How a reading begins, from the owner of the clipboard where that could be
/// found out. Without an owner there are no contents, and its own contents
/// the controller knows.
pub fn begin_read(owner: Option<u32>, own_window: u32, content: &Option<Vec<u8>>) -> (start:
    ReadStart)
    ensures
        match start {
            ReadStart::AskOwner => owner is Some && owner->0 != NONE && owner->0 != own_window,
            ReadStart::Done { reading } => match owner {
                None => failed_reading(reading),
                Some(window) => if window == NONE {
                    reading.read && reading.previous is None
                } else {
                    window == own_window && reading.read && content_view(reading.previous)
                        == content_view(*content)
                },
            },
        },
{
    match owner {
        None => ReadStart::Done { reading: ClipboardReading { previous: None, read: false } },
        Some(window) => {
            if window == NONE {
                ReadStart::Done { reading: ClipboardReading { previous: None, read: true } }
            } else if window == own_window {
                let previous = match content {
                    Some(bytes) => Some(copy_bytes(bytes)),
                    None => None,
                };
                ReadStart::Done { reading: ClipboardReading { previous, read: true } }
            } else {
                ReadStart::AskOwner
            }
        },
    }
}

/// What to do while the owner's answer is awaited.
#[derive(Debug, Clone, Copy, PartialEq, Eq, Structural)]
pub enum ReadAction {
    /// Take the contents from a property.
    Fetch { property: u32 },
    /// Give another client what it asks for.
    Serve { request: SelectionRequest },
    /// The contents of the controller are no longer the clipboard.
    Forget,
    /// Look at the next event.
    Next,
    Sleep { ms: u64 },
    GiveUp,
}

/// What an event, or the absence of one, leads to while the owner's answer is
/// awaited.
pub open spec fn read_action(
    event: Option<DisplayEvent>,
    own_window: u32,
    clipboard: u32,
    now: u64,
    deadline: u64,
) -> ReadAction {
    match event {
        None => if now >= deadline {
            ReadAction::GiveUp
        } else {
            ReadAction::Sleep { ms: EVENT_POLL_MS }
        },
        Some(DisplayEvent::SelectionNotify { requestor, selection, property }) => if requestor
            == own_window && selection == clipboard {
            if property == NONE {
                ReadAction::GiveUp
            } else {
                ReadAction::Fetch { property }
            }
        } else {
            ReadAction::Next
        },
        Some(DisplayEvent::SelectionRequest { request }) => ReadAction::Serve { request },
        Some(DisplayEvent::SelectionClear { selection }) => if selection == clipboard {
            ReadAction::Forget
        } else {
            ReadAction::Next
        },
        _ => ReadAction::Next,
    }
}

/// What to do while the owner's answer is awaited.
pub fn step_read(
    event: Option<DisplayEvent>,
    own_window: u32,
    clipboard: u32,
    now: u64,
    deadline: u64,
) -> (action: ReadAction)
    ensures
        action == read_action(event, own_window, clipboard, now, deadline),
{
    match event {
        None => {
            if now >= deadline {
                ReadAction::GiveUp
            } else {
                ReadAction::Sleep { ms: EVENT_POLL_MS }
            }
        },
        Some(DisplayEvent::SelectionNotify { requestor, selection, property }) => {
            if requestor == own_window && selection == clipboard {
                if property == NONE {
                    ReadAction::GiveUp
                } else {
                    ReadAction::Fetch { property }
                }
            } else {
                ReadAction::Next
            }
        },
        Some(DisplayEvent::SelectionRequest { request }) => ReadAction::Serve { request },
        Some(DisplayEvent::SelectionClear { selection }) => {
            if selection == clipboard {
                ReadAction::Forget
            } else {
                ReadAction::Next
            }
        },
        _ => ReadAction::Next,
    }
}

/// The contents that a property held. They are kept only where nothing was
/// left over.
pub fn finish_read(value: Vec<u8>, bytes_after: u32) -> (reading: ClipboardReading)
    ensures
        bytes_after != 0 ==> failed_reading(reading),
        bytes_after == 0 ==> reading.read && content_view(reading.previous) == Some(value@),
{
    if bytes_after != 0 {
        ClipboardReading { previous: None, read: false }
    } else {
        ClipboardReading { previous: Some(value), read: true }
    }
}

/// What to do after the paste chord, until the contents are asked for.
#[derive(Debug, Clone, Copy, PartialEq, Eq, Structural)]
pub enum PasteAction {
    /// Give a client what it asks for, and be done where it is the clipboard.
    Serve { request: SelectionRequest, done: bool },
    /// The contents are no longer the clipboard: be done.
    Forget,
    Next,
    Sleep { ms: u64 },
    /// No one asked: be done.
    GiveUp,
}

/// What an event, or the absence of one, leads to after the paste chord.
pub open spec fn paste_action(
    event: Option<DisplayEvent>,
    clipboard: u32,
    now: u64,
    deadline: u64,
) -> PasteAction {
    match event {
        None => if now >= deadline {
            PasteAction::GiveUp
        } else {
            PasteAction::Sleep { ms: EVENT_POLL_MS }
        },
        Some(DisplayEvent::SelectionRequest { request }) => PasteAction::Serve {
            request,
            done: request.selection == clipboard,
        },
        Some(DisplayEvent::SelectionClear { selection }) => if selection == clipboard {
            PasteAction::Forget
        } else {
            PasteAction::Next
        },
        _ => PasteAction::Next,
    }
}

/// What to do after the paste chord.
pub fn step_paste(event: Option<DisplayEvent>, clipboard: u32, now: u64, deadline: u64) -> (action:
    PasteAction)
    ensures
        action == paste_action(event, clipboard, now, deadline),
{
    match event {
        None => {
            if now >= deadline {
                PasteAction::GiveUp
            } else {
                PasteAction::Sleep { ms: EVENT_POLL_MS }
            }
        },
        Some(DisplayEvent::SelectionRequest { request }) => PasteAction::Serve {
            request,
            done: request.selection == clipboard,
        },
        Some(DisplayEvent::SelectionClear { selection }) => {
            if selection == clipboard {
                PasteAction::Forget
            } else {
                PasteAction::Next
            }
        },
        _ => PasteAction::Next,
    }
}

/// Refuses to paste where another client owns the clipboard.
pub fn check_owner(owner: u32, own_window: u32) -> (result: Result<(), ControllerError>)
    ensures
        match result {
            Ok(()) => owner == own_window,
            Err(e) => owner != own_window && error::final_error(
                e,
                ErrorCode::X11,
                "failed to acquire CLIPBOARD selection"@,
            ),
        },
{
    if owner != own_window {
        Err(ControllerError::new(ErrorCode::X11, "failed to acquire CLIPBOARD selection"))
    } else {
        Ok(())
    }
}

/// What becomes of the clipboard after a paste.
#[derive(Debug)]
pub struct Restoration {
    /// The contents of the clipboard from now on.
    pub content: Option<Vec<u8>>,
    /// Whether to give up the ownership.
    pub release: bool,
    /// What the action warns of.
    pub warnings: Vec<String>,
}

/// Restores the clipboard: its earlier contents come back where they were
/// read, and else it has no owner. What could not be read is warned of.
pub fn restore_clipboard(reading: ClipboardReading) -> (restoration: Restoration)
    ensures
        content_view(restoration.content) == content_view(reading.previous),
        restoration.release == (reading.previous is None),
        reading.read ==> restoration.warnings@.len() == 0,
        !reading.read ==> restoration.warnings@.len() == 1 && restoration.warnings@[0]@
            == "previous clipboard contents could not be restored"@,
{
    let mut warnings: Vec<String> = Vec::new();
    if !reading.read {
        warnings.push("previous clipboard contents could not be restored".to_owned());
    }
    let release: bool = reading.previous.is_none();
    Restoration { content: reading.previous, release, warnings }
}

/// A request for the clipboard is given its contents, as they are and in the
/// asked type, or the list of types; a request for anything else, or without
/// contents, is refused.
pub proof fn requests_are_given_the_contents(
    request: SelectionRequest,
    atoms: ClipboardAtoms,
    content: Option<Vec<u8>>,
    reply: SelectionReply,
)
    requires
        call_ensures(serve_selection_request, (request, &atoms, &content), reply),
    ensures
        ({
            let property = if request.property == 0 {
                request.target
            } else {
                request.property
            };
            let ours = request.selection == atoms.clipboard && content is Some;
            let for_types = ours && request.target == atoms.targets;
            let for_text = ours && !for_types && (request.target == atoms.utf8_string
                || request.target == atoms.text || request.target == atoms.string);
            &&& for_types ==> reply.accepted == property && reply.write is Some
                && reply.write->0 is Targets && reply.write->0->Targets_property == property
                && reply.write->0->atoms@ == seq![
                atoms.targets,
                atoms.utf8_string,
                atoms.text,
                atoms.string,
            ]
            &&& for_text ==> reply.accepted == property && reply.write is Some
                && reply.write->0 is Text && reply.write->0->Text_property == property
                && reply.write->0->kind == request.target && reply.write->0->bytes@ == content->0@
            &&& !for_types && !for_text ==> reply.accepted == 0 && reply.write is None
        }),
{
}

/// Events are handled by their kind: requests are served, a lost clipboard and
/// destroyed windows are forgotten, damage is noted, and the rest is ignored.
pub proof fn events_are_handled_by_kind(
    event: DisplayEvent,
    atoms: ClipboardAtoms,
    action: EventAction,
)
    requires
        call_ensures(handle_event, (event, &atoms), action),
    ensures
        action is Serve <==> event is SelectionRequest,
        action is Serve ==> action->request == event->request,
        action is ForgetClipboard <==> (event matches DisplayEvent::SelectionClear { selection }
            && selection == atoms.clipboard),
        action is ForgetWindow <==> event is DestroyNotify,
        action is ForgetWindow ==> action->xid == event->window,
        action is NoteDamage <==> event is Damage,
        action is NoteDamage ==> action->NoteDamage_part == event->Damage_part,
{
}

/// The earlier contents are those of the controller where it owns the
/// clipboard, none where no one does, and else those that the owner gives.
pub proof fn earlier_contents_come_from_their_owner(
    owner: Option<u32>,
    own_window: u32,
    content: Option<Vec<u8>>,
    start: ReadStart,
)
    requires
        call_ensures(begin_read, (owner, own_window, &content), start),
    ensures
        start is AskOwner <==> owner is Some && owner->0 != 0 && owner->0 != own_window,
        start is Done ==> {
            let reading = start->reading;
            &&& reading.read <==> owner is Some
            &&& owner is None || owner->0 == 0 ==> reading.previous is None
            &&& owner is Some && owner->0 != 0 && owner->0 == own_window ==> content_view(
                reading.previous,
            ) == content_view(content)
        },
{
}

/// While the owner's answer is awaited, its answer ends the wait: with its
/// contents, or without where it has none to give. Others are served meanwhile,
/// and after the deadline the wait is given up.
pub proof fn answers_end_the_reading(
    event: Option<DisplayEvent>,
    own_window: u32,
    clipboard: u32,
    now: u64,
    deadline: u64,
    action: ReadAction,
)
    requires
        call_ensures(step_read, (event, own_window, clipboard, now, deadline), action),
    ensures
        event is None ==> (action is GiveUp <==> now >= deadline),
        event is None && now < deadline ==> action == (ReadAction::Sleep { ms: 10 }),
        event matches Some(DisplayEvent::SelectionNotify { requestor, selection, property }) ==> {
            let answer = requestor == own_window && selection == clipboard;
            &&& answer && property != 0 ==> action == (ReadAction::Fetch { property })
            &&& answer && property == 0 ==> action is GiveUp
            &&& !answer ==> action is Next
        },
        event matches Some(DisplayEvent::SelectionRequest { request }) ==> action
            == (ReadAction::Serve { request }),
        event matches Some(DisplayEvent::SelectionClear { selection }) ==> (action is Forget
            <==> selection == clipboard),
{
}

/// After the paste chord, the first request for the clipboard is the paste and
/// ends the wait, as does the loss of the clipboard; other requests are served,
/// and after the deadline the wait is given up.
pub proof fn the_first_request_is_the_paste(
    event: Option<DisplayEvent>,
    clipboard: u32,
    now: u64,
    deadline: u64,
    action: PasteAction,
)
    requires
        call_ensures(step_paste, (event, clipboard, now, deadline), action),
    ensures
        event is None ==> (action is GiveUp <==> now >= deadline),
        event is None && now < deadline ==> action == (PasteAction::Sleep { ms: 10 }),
        event matches Some(DisplayEvent::SelectionRequest { request }) ==> action is Serve
            && action->request == request && (action->done <==> request.selection == clipboard),
        event matches Some(DisplayEvent::SelectionClear { selection }) ==> (action is Forget
            <==> selection == clipboard),
        !(event matches Some(DisplayEvent::SelectionRequest { request })) ==> !(action is Serve),
{
}

/// What was read of the clipboard comes back after the paste, byte for byte;
/// where nothing was there it has no owner, and what could not be read is warned
/// of. A reading that is not whole is none.
pub proof fn pasting_gives_the_clipboard_back(
    value: Vec<u8>,
    bytes_after: u32,
    reading: ClipboardReading,
    restoration: Restoration,
)
    requires
        call_ensures(finish_read, (value, bytes_after), reading),
        call_ensures(restore_clipboard, (reading,), restoration),
    ensures
        bytes_after == 0 ==> restoration.content is Some && restoration.content->0@ == value@
            && !restoration.release && restoration.warnings@.len() == 0,
        bytes_after != 0 ==> restoration.content is None && restoration.release
            && restoration.warnings@.len() == 1,
{
}

/// The clipboard is restored to what was read, and released where nothing was.
pub proof fn restorations_follow_the_reading(reading: ClipboardReading, restoration: Restoration)
    requires
        call_ensures(restore_clipboard, (reading,), restoration),
    ensures
        restoration.release <==> reading.previous is None,
        content_view(restoration.content) == content_view(reading.previous),
        restoration.warnings@.len() > 0 <==> !reading.read,
{
}

/// A text is pasted only while the controller owns the clipboard.
pub proof fn pasting_needs_the_clipboard(
    owner: u32,
    own_window: u32,
    result: Result<(), ControllerError>,
)
    requires
        call_ensures(check_owner, (owner, own_window), result),
    ensures
        result is Ok <==> owner == own_window,
        result is Err ==> result->Err_0.code == ErrorCode::X11,
{
}

} // verus!
