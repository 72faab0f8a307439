use lib::console::{
    clear_screen, move_cursor, read_key, scan_key, serial_bytes, Key, KeyScan, KeyStep, LineEditor, LineEvent,
};

#[test]
fn plain_bytes_are_one_byte_keys() {
    assert_eq!(read_key(&[Some(b'a'), Some(b'x')]), Some((Key::Char(b'a'), 1)));
    assert_eq!(read_key(&[Some(0x13)]), Some((Key::CtrlS, 1)));
    assert_eq!(read_key(&[Some(0x11)]), Some((Key::CtrlQ, 1)));
    assert_eq!(read_key(&[Some(0x0d)]), Some((Key::Enter, 1)));
    assert_eq!(read_key(&[Some(0x7f)]), Some((Key::Backspace, 1)));
    assert_eq!(read_key(&[Some(0x08)]), Some((Key::Backspace, 1)));
    assert_eq!(read_key(&[Some(0x0a)]), Some((Key::Char(0x0a), 1)));
    assert_eq!(read_key(&[Some(0x01)]), Some((Key::Char(0x01), 1)));
    assert_eq!(read_key(&[Some(0xe9)]), Some((Key::Char(0xe9), 1)));
}

#[test]
fn escape_sequences_name_the_cursor_keys() {
    assert_eq!(read_key(&[Some(0x1b), Some(b'['), Some(b'A')]), Some((Key::Up, 3)));
    assert_eq!(read_key(&[Some(0x1b), Some(b'['), Some(b'B')]), Some((Key::Down, 3)));
    assert_eq!(read_key(&[Some(0x1b), Some(b'['), Some(b'C')]), Some((Key::Right, 3)));
    assert_eq!(read_key(&[Some(0x1b), Some(b'['), Some(b'D')]), Some((Key::Left, 3)));
    assert_eq!(read_key(&[Some(0x1b), Some(b'['), Some(b'H')]), Some((Key::Home, 3)));
    assert_eq!(read_key(&[Some(0x1b), Some(b'['), Some(b'F')]), Some((Key::End, 3)));
    assert_eq!(read_key(&[Some(0x1b), Some(b'['), Some(b'3'), Some(b'~')]), Some((Key::Delete, 4)));
    assert_eq!(read_key(&[Some(0x1b), Some(b'['), Some(b'3'), None]), Some((Key::Delete, 4)));
}

#[test]
fn a_broken_escape_sequence_is_a_plain_escape() {
    assert_eq!(read_key(&[Some(0x1b), None]), Some((Key::Char(0x1b), 2)));
    assert_eq!(read_key(&[Some(0x1b), Some(b'x')]), Some((Key::Char(0x1b), 2)));
    assert_eq!(read_key(&[Some(0x1b), Some(b'['), None]), Some((Key::Char(0x1b), 3)));
    assert_eq!(read_key(&[Some(0x1b), Some(b'['), Some(b'Z')]), Some((Key::Char(0x1b), 3)));
}

#[test]
fn the_first_read_waits_for_a_byte() {
    assert_eq!(read_key(&[None, None, Some(b'q')]), Some((Key::Char(b'q'), 3)));
    assert_eq!(read_key(&[None, None]), None);
    assert_eq!(read_key(&[]), None);
    assert_eq!(read_key(&[Some(0x1b)]), None);
    assert_eq!(read_key(&[Some(0x1b), Some(b'[')]), None);
}

#[test]
fn scan_steps() {
    assert_eq!(scan_key(KeyScan::Start, None), KeyStep::More(KeyScan::Start));
    assert_eq!(scan_key(KeyScan::Start, Some(0x1b)), KeyStep::More(KeyScan::Esc));
    assert_eq!(scan_key(KeyScan::Esc, Some(b'[')), KeyStep::More(KeyScan::Csi));
    assert_eq!(scan_key(KeyScan::Csi, Some(b'3')), KeyStep::More(KeyScan::CsiDelete));
    assert_eq!(scan_key(KeyScan::CsiDelete, Some(b'x')), KeyStep::Done(Key::Delete));
}

#[test]
fn a_key_takes_at_most_four_reads() {
    let inputs = [Some(0x1b), Some(b'['), Some(b'3'), Some(b'~'), Some(b'a')];
    let (_, n) = read_key(&inputs).unwrap();
    assert_eq!(n, 4);
}

#[test]
fn typing_fills_the_line_and_keeps_one_byte_free() {
    let mut ed = LineEditor::new(4);
    assert_eq!(ed.feed(b'a'), LineEvent::Echo(b'a'));
    assert_eq!(ed.feed(b'b'), LineEvent::Echo(b'b'));
    assert_eq!(ed.feed(b'c'), LineEvent::Echo(b'c'));
    assert_eq!(ed.feed(b'd'), LineEvent::Ignored);
    assert_eq!(ed.line(), b"abc");
    assert_eq!(ed.feed(b'\r'), LineEvent::Submit(3));
}

#[test]
fn backspace_and_control_bytes() {
    let mut ed = LineEditor::new(16);
    assert_eq!(ed.feed(0x7f), LineEvent::Ignored);
    assert_eq!(ed.feed(b'l'), LineEvent::Echo(b'l'));
    assert_eq!(ed.feed(b's'), LineEvent::Echo(b's'));
    assert_eq!(ed.feed(0x08), LineEvent::Erase);
    assert_eq!(ed.line(), b"l");
    assert_eq!(ed.feed(0x01), LineEvent::Ignored);
    assert_eq!(ed.feed(0x1b), LineEvent::Ignored);
    assert_eq!(ed.feed(b'\n'), LineEvent::Submit(1));
    assert_eq!(ed.feed(0x03), LineEvent::Cancel);
    assert_eq!(ed.line(), b"l");
}

#[test]
fn typing_then_erasing_keeps_the_length() {
    let mut ed = LineEditor::new(8);
    ed.feed(b'x');
    let before = ed.line().to_vec();
    assert_eq!(ed.feed(b'y'), LineEvent::Echo(b'y'));
    assert_eq!(ed.feed(0x7f), LineEvent::Erase);
    assert_eq!(ed.line(), before.as_slice());
}

#[test]
fn an_empty_buffer_takes_no_bytes() {
    let mut ed = LineEditor::new(1);
    assert_eq!(ed.feed(b'a'), LineEvent::Ignored);
    assert_eq!(ed.feed(b'\r'), LineEvent::Submit(0));
}

#[test]
fn line_feeds_go_out_with_carriage_returns() {
    assert_eq!(serial_bytes(b"a\nb\n"), b"a\r\nb\r\n".to_vec());
    assert_eq!(serial_bytes(b"\r\n"), b"\r\r\n".to_vec());
    assert_eq!(serial_bytes(b""), Vec::<u8>::new());
}

#[test]
fn terminal_control_sequences() {
    assert_eq!(clear_screen(), b"\x1b[2J\x1b[H".to_vec());
    assert_eq!(move_cursor(0, 0), b"\x1b[1;1H".to_vec());
    assert_eq!(move_cursor(21, 79), b"\x1b[22;80H".to_vec());
}
