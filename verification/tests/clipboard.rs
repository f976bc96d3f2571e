use x11_mcp::clipboard::{
    begin_read, check_owner, finish_read, handle_event, restore_clipboard,
    serve_selection_request, step_paste, step_read, ClipboardAtoms, ClipboardReading,
    DisplayEvent, EventAction, PasteAction, PropertyWrite, ReadAction, ReadStart, SelectionRequest,
};
use x11_mcp::error::ErrorCode;
use x11_mcp::types::Geometry;

fn atoms() -> ClipboardAtoms {
    ClipboardAtoms {
        clipboard: 10,
        targets: 11,
        text: 12,
        utf8_string: 13,
        string: 31,
    }
}

fn request(target: u32, property: u32) -> SelectionRequest {
    SelectionRequest {
        requestor: 5,
        selection: 10,
        target,
        property,
        time: 99,
        sequence: 1,
    }
}

#[test]
fn clients_are_given_the_contents() {
    let content = Some(b"hello".to_vec());
    let reply = serve_selection_request(request(13, 40), &atoms(), &content);
    assert_eq!(reply.accepted, 40);
    match reply.write {
        Some(PropertyWrite::Text {
            property,
            kind,
            bytes,
        }) => {
            assert_eq!((property, kind), (40, 13));
            assert_eq!(bytes, b"hello");
        }
        other => panic!("{other:?}"),
    }
    let offered = serve_selection_request(request(11, 40), &atoms(), &content);
    match offered.write {
        Some(PropertyWrite::Targets { property, atoms }) => {
            assert_eq!(property, 40);
            assert!(atoms.contains(&13));
            assert!(atoms.contains(&11));
        }
        other => panic!("{other:?}"),
    }
    let legacy = serve_selection_request(request(13, 0), &atoms(), &content);
    assert_eq!(legacy.accepted, 13);
    let unknown = serve_selection_request(request(77, 40), &atoms(), &content);
    assert!(unknown.write.is_none());
    assert_eq!(unknown.accepted, 0);
    let empty = serve_selection_request(request(13, 40), &atoms(), &None);
    assert_eq!(empty.accepted, 0);
}

#[test]
fn events_lead_to_what_they_concern() {
    assert!(matches!(
        handle_event(DisplayEvent::SelectionClear { selection: 10 }, &atoms()),
        EventAction::ForgetClipboard
    ));
    assert!(matches!(
        handle_event(DisplayEvent::SelectionClear { selection: 3 }, &atoms()),
        EventAction::Ignore
    ));
    assert!(matches!(
        handle_event(DisplayEvent::DestroyNotify { window: 8 }, &atoms()),
        EventAction::ForgetWindow { xid: 8 }
    ));
    let part = Geometry {
        x: 1,
        y: 2,
        width: 3,
        height: 4,
    };
    assert!(matches!(
        handle_event(DisplayEvent::Damage { part }, &atoms()),
        EventAction::NoteDamage { .. }
    ));
    assert!(matches!(
        handle_event(
            DisplayEvent::SelectionRequest {
                request: request(13, 40)
            },
            &atoms()
        ),
        EventAction::Serve { .. }
    ));
}

#[test]
fn readings_start_with_the_owner() {
    let own = Some(b"mine".to_vec());
    match begin_read(Some(7), 7, &own) {
        ReadStart::Done { reading } => {
            assert!(reading.read);
            assert_eq!(reading.previous.as_deref(), Some(&b"mine"[..]));
        }
        other => panic!("{other:?}"),
    }
    assert!(matches!(begin_read(Some(8), 7, &own), ReadStart::AskOwner));
    match begin_read(Some(0), 7, &own) {
        ReadStart::Done { reading } => {
            assert!(reading.read);
            assert!(reading.previous.is_none());
        }
        other => panic!("{other:?}"),
    }
    match begin_read(None, 7, &own) {
        ReadStart::Done { reading } => assert!(!reading.read),
        other => panic!("{other:?}"),
    }
}

#[test]
fn readings_await_the_answer() {
    let notify = |requestor, property| {
        Some(DisplayEvent::SelectionNotify {
            requestor,
            selection: 10,
            property,
        })
    };
    assert_eq!(
        step_read(notify(7, 55), 7, 10, 0, 100),
        ReadAction::Fetch { property: 55 }
    );
    assert_eq!(step_read(notify(7, 0), 7, 10, 0, 100), ReadAction::GiveUp);
    assert_eq!(step_read(notify(6, 55), 7, 10, 0, 100), ReadAction::Next);
    assert!(matches!(
        step_read(None, 7, 10, 99, 100),
        ReadAction::Sleep { .. }
    ));
    assert_eq!(step_read(None, 7, 10, 100, 100), ReadAction::GiveUp);
    let kept = finish_read(b"text".to_vec(), 0);
    assert_eq!(kept.previous.as_deref(), Some(&b"text"[..]));
    let cut = finish_read(b"text".to_vec(), 9);
    assert!(!cut.read);
    assert!(cut.previous.is_none());
}

#[test]
fn pastes_await_a_request() {
    let asked = Some(DisplayEvent::SelectionRequest {
        request: request(13, 40),
    });
    assert!(matches!(
        step_paste(asked, 10, 0, 100),
        PasteAction::Serve { done: true, .. }
    ));
    assert_eq!(
        step_paste(
            Some(DisplayEvent::SelectionClear { selection: 10 }),
            10,
            0,
            100
        ),
        PasteAction::Forget
    );
    assert_eq!(step_paste(None, 10, 100, 100), PasteAction::GiveUp);
    assert!(check_owner(7, 7).is_ok());
    let lost = check_owner(8, 7).unwrap_err();
    assert_eq!(lost.code, ErrorCode::X11);
    assert_eq!(lost.message, "failed to acquire CLIPBOARD selection");
}

#[test]
fn earlier_contents_come_back() {
    let back = restore_clipboard(ClipboardReading {
        previous: Some(b"old".to_vec()),
        read: true,
    });
    assert_eq!(back.content.as_deref(), Some(&b"old"[..]));
    assert!(!back.release);
    assert!(back.warnings.is_empty());
    let lost = restore_clipboard(ClipboardReading {
        previous: None,
        read: false,
    });
    assert!(lost.release);
    assert_eq!(
        lost.warnings,
        vec!["previous clipboard contents could not be restored"]
    );
}
