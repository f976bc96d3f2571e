use x11_mcp::error::ErrorCode;
use x11_mcp::keyboard::{char_to_keysym, named_keysyms, KeyStroke, KeyboardMap};

#[test]
fn unicode_keysym_uses_x11_encoding() {
    assert_eq!(char_to_keysym('A'), 65);
    assert_eq!(char_to_keysym('世'), 0x0100_4e16);
}

fn map() -> KeyboardMap {
    KeyboardMap {
        first_keycode: 8,
        keysyms_per_keycode: 4,
        keysyms: vec![
            0xff0d, 0, 0, 0, // Return
            97, 65, 0xe6, 0xc6, // a A ae AE
            0xffe1, 0, 0, 0, // Shift
            0xffe3, 0, 0, 0, // Control
        ],
        keycodes_per_modifier: 1,
        modifier_keycodes: vec![10, 0, 0, 0, 0, 0, 0, 92],
    }
}

#[test]
fn key_names_are_normalized() {
    let keyboard = map();
    let stroke = keyboard.named_key(" enter ").unwrap();
    assert_eq!(
        stroke,
        KeyStroke {
            keycode: 8,
            shift: false,
            mode_switch: false
        }
    );
    assert_eq!(keyboard.named_key("A").unwrap().keycode, 9);
    assert!(!keyboard.named_key("A").unwrap().shift);
    let unknown = keyboard.named_key("nonsense").unwrap_err();
    assert_eq!(unknown.code, ErrorCode::InvalidInput);
    assert_eq!(unknown.message, "unknown key name: nonsense");
    let absent = keyboard.named_key("page-up").unwrap_err();
    assert_eq!(absent.code, ErrorCode::UnsupportedCapability);
    assert_eq!(
        absent.message,
        "key is not present in the active keyboard map: page-up"
    );
    assert_eq!(named_keysyms().len(), 37);
}

#[test]
fn chords_list_each_key_once_with_its_modifiers_first() {
    let keyboard = map();
    assert_eq!(
        keyboard
            .chord_keycodes(&vec!["CTRL".to_owned(), "æ".to_owned(), "a".to_owned()])
            .unwrap(),
        vec![11, 92, 9]
    );
    assert_eq!(
        keyboard
            .chord_keycodes(&vec!["shift".to_owned(), "Shift".to_owned()])
            .unwrap(),
        vec![10]
    );
}

#[test]
fn text_has_strokes_only_where_each_character_has_one() {
    let keyboard = map();
    let strokes = keyboard.text_strokes("aA").unwrap();
    assert_eq!(strokes.len(), 2);
    assert!(strokes[1].shift);
    assert!(keyboard.text_strokes("ab").is_none());
    let upper = keyboard.text_strokes("Æ").unwrap();
    assert_eq!(
        upper[0],
        KeyStroke {
            keycode: 9,
            shift: true,
            mode_switch: true
        }
    );
    assert_eq!(keyboard.shift_keycode().unwrap(), 10);
    assert_eq!(keyboard.mode_switch_keycode().unwrap(), 92);
}

#[test]
fn there_are_eight_modifiers() {
    let keyboard = map();
    assert_eq!(keyboard.modifier_keycode(0), Some(10));
    assert_eq!(keyboard.modifier_keycode(1), None);
    assert_eq!(keyboard.modifier_keycode(7), Some(92));
    assert_eq!(keyboard.modifier_keycode(8), None);
    assert_eq!(keyboard.modifier_keycode(usize::MAX), None);
}
