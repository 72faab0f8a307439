use lib::keyboard::{keycode_to_char, Keyboard, VirtioInputEvent, EV_KEY, KEY_LEFTSHIFT, KEY_RIGHTSHIFT};

fn key(code: u16, value: u32) -> VirtioInputEvent {
    VirtioInputEvent { type_: EV_KEY, code, value }
}

#[test]
fn key_codes_map_to_a_us_layout() {
    assert_eq!(keycode_to_char(2, false), Some(b'1'));
    assert_eq!(keycode_to_char(10, false), Some(b'9'));
    assert_eq!(keycode_to_char(11, false), Some(b'0'));
    assert_eq!(keycode_to_char(14, false), Some(0x08));
    assert_eq!(keycode_to_char(15, false), Some(b'\t'));
    assert_eq!(keycode_to_char(16, false), Some(b'q'));
    assert_eq!(keycode_to_char(28, false), Some(b'\n'));
    assert_eq!(keycode_to_char(30, false), Some(b'a'));
    assert_eq!(keycode_to_char(43, false), Some(b'\\'));
    assert_eq!(keycode_to_char(53, false), Some(b'/'));
    assert_eq!(keycode_to_char(57, false), Some(b' '));
    assert_eq!(keycode_to_char(1, false), None);
    assert_eq!(keycode_to_char(29, false), None);
    assert_eq!(keycode_to_char(42, false), None);
    assert_eq!(keycode_to_char(58, true), None);
}

#[test]
fn shift_gives_capitals_and_symbols() {
    assert_eq!(keycode_to_char(30, true), Some(b'A'));
    assert_eq!(keycode_to_char(50, true), Some(b'M'));
    assert_eq!(keycode_to_char(2, true), Some(b'!'));
    assert_eq!(keycode_to_char(3, true), Some(b'@'));
    assert_eq!(keycode_to_char(11, true), Some(b')'));
    assert_eq!(keycode_to_char(12, true), Some(b'_'));
    assert_eq!(keycode_to_char(13, true), Some(b'+'));
    assert_eq!(keycode_to_char(26, true), Some(b'{'));
    assert_eq!(keycode_to_char(27, true), Some(b'}'));
    assert_eq!(keycode_to_char(39, true), Some(b':'));
    assert_eq!(keycode_to_char(40, true), Some(b'"'));
    assert_eq!(keycode_to_char(41, true), Some(b'~'));
    assert_eq!(keycode_to_char(43, true), Some(b'|'));
    assert_eq!(keycode_to_char(51, true), Some(b'<'));
    assert_eq!(keycode_to_char(52, true), Some(b'>'));
    assert_eq!(keycode_to_char(53, true), Some(b'?'));
    assert_eq!(keycode_to_char(28, true), Some(b'\n'));
    assert_eq!(keycode_to_char(57, true), Some(b' '));
}

#[test]
fn shift_is_held_between_press_and_release() {
    let mut k = Keyboard::new();
    assert!(!k.shift_pressed);
    assert_eq!(k.handle_event(key(30, 1)), Some(b'a'));
    assert_eq!(k.handle_event(key(KEY_LEFTSHIFT, 1)), None);
    assert!(k.shift_pressed);
    assert_eq!(k.handle_event(key(30, 1)), Some(b'A'));
    assert_eq!(k.handle_event(key(30, 2)), Some(b'A'));
    assert_eq!(k.handle_event(key(KEY_LEFTSHIFT, 0)), None);
    assert!(!k.shift_pressed);
    assert_eq!(k.handle_event(key(30, 1)), Some(b'a'));
    assert_eq!(k.handle_event(key(KEY_RIGHTSHIFT, 2)), None);
    assert_eq!(k.handle_event(key(2, 1)), Some(b'!'));
}

#[test]
fn releases_and_other_events_give_nothing() {
    let mut k = Keyboard::new();
    assert_eq!(k.handle_event(key(30, 0)), None);
    assert_eq!(k.handle_event(key(30, 3)), None);
    assert_eq!(k.handle_event(VirtioInputEvent { type_: 0, code: 30, value: 1 }), None);
    assert_eq!(k.handle_event(VirtioInputEvent { type_: 2, code: KEY_LEFTSHIFT, value: 1 }), None);
    assert!(!k.shift_pressed);
}
