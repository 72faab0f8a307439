use lib::console::{read_key, Key};
use lib::editor::{format_err, Editor};
use lib::fs::{FileSystem, FsError, MAX_FILE_SIZE};

fn booted() -> FileSystem {
    let mut fs = FileSystem::new();
    fs.init();
    fs
}

fn read_all(fs: &FileSystem, path: &str) -> Vec<u8> {
    let mut buf = vec![0u8; MAX_FILE_SIZE];
    let n = fs.read_file(path, &mut buf).unwrap();
    buf.truncate(n);
    buf
}

fn lines(ed: &Editor) -> Vec<Vec<u8>> {
    (0..ed.line_count()).map(|r| ed.line(r).to_vec()).collect()
}

fn type_text(ed: &mut Editor, fs: &mut FileSystem, s: &str) {
    for b in s.bytes() {
        assert!(!ed.handle_key(Key::Char(b), fs));
    }
}

#[test]
fn no_name_opens_nothing() {
    let fs = booted();
    assert!(Editor::open(&fs, "").is_none());
}

#[test]
fn a_new_file_opens_as_one_empty_line() {
    let fs = booted();
    let ed = Editor::open(&fs, "new.txt").unwrap();
    assert_eq!(lines(&ed), vec![Vec::<u8>::new()]);
    assert_eq!(ed.cursor(), (0, 0));
    assert_eq!(ed.offset(), 0);
    assert!(!ed.is_dirty());
    assert_eq!(ed.file_name(), (&b"new.txt"[..], true));
    assert_eq!(ed.status(), b"");
}

#[test]
fn an_existing_file_loads_line_by_line() {
    let fs = booted();
    let ed = Editor::open(&fs, "/readme.txt").unwrap();
    assert_eq!(lines(&ed), vec![b"Welcome to RxV6.".to_vec(), b"Type 'help' for commands.".to_vec()]);
}

#[test]
fn a_directory_opens_as_an_empty_buffer() {
    let fs = booted();
    let ed = Editor::open(&fs, "/home").unwrap();
    assert_eq!(lines(&ed), vec![Vec::<u8>::new()]);
}

#[test]
fn loading_keeps_an_unterminated_last_line_and_cuts_long_lines() {
    let mut fs = booted();
    fs.create_file("/t").unwrap();
    let mut data = vec![b'x'; 100];
    data.extend_from_slice(b"\n\nend");
    fs.write_file("/t", &data).unwrap();
    let ed = Editor::open(&fs, "/t").unwrap();
    assert_eq!(lines(&ed), vec![vec![b'x'; 80], vec![], b"end".to_vec()]);
}

#[test]
fn loading_keeps_at_most_sixty_four_lines() {
    let mut fs = booted();
    fs.create_file("/t").unwrap();
    let data = "l\n".repeat(70);
    fs.write_file("/t", data.as_bytes()).unwrap();
    let ed = Editor::open(&fs, "/t").unwrap();
    assert_eq!(ed.line_count(), 64);
}

#[test]
fn typing_enter_and_saving_writes_the_file() {
    let mut fs = booted();
    let mut ed = Editor::open(&fs, "/tmp/n.txt").unwrap();
    type_text(&mut ed, &mut fs, "hi");
    assert!(!ed.handle_key(Key::Enter, &mut fs));
    type_text(&mut ed, &mut fs, "yo");
    assert!(ed.is_dirty());
    assert!(!fs.path_exists("/tmp/n.txt"));
    assert!(!ed.handle_key(Key::CtrlS, &mut fs));
    assert!(!ed.is_dirty());
    assert_eq!(ed.status(), b"Saved.");
    assert_eq!(read_all(&fs, "/tmp/n.txt"), b"hi\nyo\n".to_vec());
    assert!(!ed.handle_key(Key::Left, &mut fs));
    assert_eq!(ed.status(), b"");
    assert!(ed.handle_key(Key::CtrlQ, &mut fs));
}

#[test]
fn save_then_load_gives_back_the_lines() {
    let mut fs = booted();
    let mut ed = Editor::open(&fs, "/tmp/r").unwrap();
    type_text(&mut ed, &mut fs, "first");
    ed.handle_key(Key::Enter, &mut fs);
    ed.handle_key(Key::Enter, &mut fs);
    type_text(&mut ed, &mut fs, "third");
    ed.handle_key(Key::CtrlS, &mut fs);
    let again = Editor::open(&fs, "/tmp/r").unwrap();
    assert_eq!(lines(&again), lines(&ed));
}

#[test]
fn a_failed_save_shows_the_error() {
    let mut fs = booted();
    let mut ed = Editor::open(&fs, "/home").unwrap();
    type_text(&mut ed, &mut fs, "x");
    ed.handle_key(Key::CtrlS, &mut fs);
    assert_eq!(ed.status(), b"Error: not a file");
    assert!(ed.is_dirty());
    let mut ed2 = Editor::open(&fs, "/nowhere/x").unwrap();
    ed2.handle_key(Key::CtrlS, &mut fs);
    assert_eq!(ed2.status(), b"Error: not found");
}

#[test]
fn a_buffer_over_the_file_limit_is_not_saved() {
    let mut fs = booted();
    let mut ed = Editor::open(&fs, "/tmp/big").unwrap();
    for _ in 0..63 {
        type_text(&mut ed, &mut fs, &"z".repeat(79));
        ed.handle_key(Key::Enter, &mut fs);
    }
    type_text(&mut ed, &mut fs, &"z".repeat(79));
    assert_eq!(ed.line_count(), 64);
    ed.handle_key(Key::CtrlS, &mut fs);
    assert_eq!(ed.status(), b"File too large!");
    assert!(!fs.path_exists("/tmp/big"));
}

#[test]
fn a_line_holds_at_most_seventy_nine_typed_bytes() {
    let mut fs = booted();
    let mut ed = Editor::open(&fs, "f").unwrap();
    type_text(&mut ed, &mut fs, &"a".repeat(85));
    assert_eq!(ed.line(0).len(), 79);
    assert_eq!(ed.cursor(), (0, 79));
}

#[test]
fn only_printable_bytes_are_typed() {
    let mut fs = booted();
    let mut ed = Editor::open(&fs, "f").unwrap();
    ed.handle_key(Key::Char(0x1b), &mut fs);
    ed.handle_key(Key::Char(b'\t'), &mut fs);
    ed.handle_key(Key::Char(0x7f), &mut fs);
    assert_eq!(ed.line(0), b"");
    assert!(!ed.is_dirty());
}

#[test]
fn typing_in_the_middle_inserts() {
    let mut fs = booted();
    let mut ed = Editor::open(&fs, "f").unwrap();
    type_text(&mut ed, &mut fs, "ac");
    ed.handle_key(Key::Left, &mut fs);
    type_text(&mut ed, &mut fs, "b");
    assert_eq!(ed.line(0), b"abc");
    assert_eq!(ed.cursor(), (0, 2));
}

#[test]
fn type_then_backspace_restores_the_line() {
    let mut fs = booted();
    let mut ed = Editor::open(&fs, "/readme.txt").unwrap();
    ed.handle_key(Key::Right, &mut fs);
    ed.handle_key(Key::Right, &mut fs);
    let before = lines(&ed);
    ed.handle_key(Key::Char(b'Q'), &mut fs);
    ed.handle_key(Key::Backspace, &mut fs);
    assert_eq!(lines(&ed), before);
    assert_eq!(ed.cursor(), (0, 2));
    assert!(ed.is_dirty());
}

#[test]
fn enter_then_backspace_restores_the_line() {
    let mut fs = booted();
    let mut ed = Editor::open(&fs, "/readme.txt").unwrap();
    for _ in 0..7 {
        ed.handle_key(Key::Right, &mut fs);
    }
    ed.handle_key(Key::Enter, &mut fs);
    assert_eq!(lines(&ed)[0], b"Welcome".to_vec());
    assert_eq!(lines(&ed)[1], b" to RxV6.".to_vec());
    assert_eq!(ed.cursor(), (1, 0));
    ed.handle_key(Key::Backspace, &mut fs);
    assert_eq!(lines(&ed), vec![b"Welcome to RxV6.".to_vec(), b"Type 'help' for commands.".to_vec()]);
    assert_eq!(ed.cursor(), (0, 7));
}

#[test]
fn delete_removes_at_the_cursor_and_joins_lines() {
    let mut fs = booted();
    let mut ed = Editor::open(&fs, "/readme.txt").unwrap();
    ed.handle_key(Key::Delete, &mut fs);
    assert_eq!(ed.line(0), b"elcome to RxV6.");
    ed.handle_key(Key::End, &mut fs);
    ed.handle_key(Key::Delete, &mut fs);
    assert_eq!(lines(&ed), vec![b"elcome to RxV6.Type 'help' for commands.".to_vec()]);
    ed.handle_key(Key::End, &mut fs);
    ed.handle_key(Key::Delete, &mut fs);
    assert_eq!(ed.line_count(), 1);
}

#[test]
fn lines_too_long_to_join_stay_apart() {
    let mut fs = booted();
    let mut ed = Editor::open(&fs, "f").unwrap();
    type_text(&mut ed, &mut fs, &"a".repeat(50));
    ed.handle_key(Key::Enter, &mut fs);
    type_text(&mut ed, &mut fs, &"b".repeat(50));
    ed.handle_key(Key::Home, &mut fs);
    ed.handle_key(Key::Backspace, &mut fs);
    assert_eq!(ed.line_count(), 2);
    assert_eq!(ed.cursor(), (1, 0));
}

#[test]
fn backspace_at_the_top_left_does_nothing() {
    let mut fs = booted();
    let mut ed = Editor::open(&fs, "/readme.txt").unwrap();
    ed.handle_key(Key::Backspace, &mut fs);
    assert!(!ed.is_dirty());
    assert_eq!(ed.line(0), b"Welcome to RxV6.");
}

#[test]
fn vertical_moves_keep_the_cursor_in_its_line() {
    let mut fs = booted();
    let mut ed = Editor::open(&fs, "/readme.txt").unwrap();
    ed.handle_key(Key::Down, &mut fs);
    ed.handle_key(Key::End, &mut fs);
    assert_eq!(ed.cursor(), (1, 25));
    ed.handle_key(Key::Up, &mut fs);
    assert_eq!(ed.cursor(), (0, 16));
    ed.handle_key(Key::Up, &mut fs);
    assert_eq!(ed.cursor(), (0, 16));
    ed.handle_key(Key::Right, &mut fs);
    assert_eq!(ed.cursor(), (0, 16));
    ed.handle_key(Key::Home, &mut fs);
    ed.handle_key(Key::Left, &mut fs);
    assert_eq!(ed.cursor(), (0, 0));
    ed.handle_key(Key::Down, &mut fs);
    ed.handle_key(Key::Down, &mut fs);
    assert_eq!(ed.cursor(), (1, 0));
}

#[test]
fn rendering_a_new_buffer() {
    let fs = booted();
    let mut ed = Editor::open(&fs, "new.txt").unwrap();
    let mut want = String::from("\x1b[H\x1b[K\r\n");
    for _ in 0..21 {
        want.push_str("\x1b[K~\r\n");
    }
    want.push_str("\x1b[7m\x1b[K new.txt | L1/1\x1b[0m\r\n");
    want.push_str("\x1b[K ^S Save  ^Q Quit\x1b[1;1H");
    assert_eq!(String::from_utf8(ed.render()).unwrap(), want);
}

#[test]
fn rendering_shows_changes_and_status() {
    let mut fs = booted();
    let mut ed = Editor::open(&fs, "/tmp/s").unwrap();
    type_text(&mut ed, &mut fs, "ab");
    let out = String::from_utf8(ed.render()).unwrap();
    assert!(out.contains("\x1b[7m\x1b[K /tmp/s [+] | L1/1\x1b[0m\r\n"));
    assert!(out.ends_with("\x1b[1;3H"));
    ed.handle_key(Key::CtrlS, &mut fs);
    let out = String::from_utf8(ed.render()).unwrap();
    assert!(out.contains("\x1b[7m\x1b[K /tmp/s | L1/1  Saved.\x1b[0m\r\n"));
}

#[test]
fn rendering_scrolls_to_the_cursor() {
    let mut fs = booted();
    let mut ed = Editor::open(&fs, "f").unwrap();
    for _ in 0..30 {
        ed.handle_key(Key::Enter, &mut fs);
    }
    assert_eq!(ed.cursor(), (30, 0));
    let out = String::from_utf8(ed.render()).unwrap();
    assert_eq!(ed.offset(), 9);
    assert!(out.ends_with("\x1b[22;1H"));
    for _ in 0..30 {
        ed.handle_key(Key::Up, &mut fs);
    }
    ed.render();
    assert_eq!(ed.offset(), 0);
}

#[test]
fn error_status_texts() {
    assert_eq!(format_err(&FsError::NotAFile), b"Error: not a file".to_vec());
    assert_eq!(format_err(&FsError::DirNotEmpty), b"Error: directory not empty".to_vec());
}

#[test]
fn opening_and_saving_without_edits_keeps_the_file() {
    let mut fs = booted();
    let before = read_all(&fs, "/readme.txt");
    let mut ed = Editor::open(&fs, "/readme.txt").unwrap();
    assert!(!ed.handle_key(Key::CtrlS, &mut fs));
    assert_eq!(ed.status(), b"Saved.");
    assert_eq!(read_all(&fs, "/readme.txt"), before);
}

#[test]
fn a_session_without_save_leaves_the_files_alone() {
    let mut fs = booted();
    let mut ed = Editor::open(&fs, "/tmp/never").unwrap();
    for key in [Key::Char(b'x'), Key::Enter, Key::Char(b'y'), Key::Backspace, Key::Up, Key::Delete] {
        assert!(!ed.handle_key(key, &mut fs));
    }
    assert!(ed.handle_key(Key::CtrlQ, &mut fs));
    assert!(!fs.path_exists("/tmp/never"));
    assert_eq!(read_all(&fs, "/readme.txt"), b"Welcome to RxV6.\nType 'help' for commands.\n".to_vec());
}

#[test]
fn editing_steps_can_be_called_directly() {
    let mut fs = booted();
    let mut ed = Editor::open(&fs, "/tmp/d").unwrap();
    ed.insert_char(b'a');
    ed.insert_char(b'b');
    ed.insert_newline();
    ed.insert_char(b'c');
    assert_eq!(lines(&ed), vec![b"ab".to_vec(), b"c".to_vec()]);
    ed.delete_back();
    ed.delete_back();
    assert_eq!(lines(&ed), vec![b"ab".to_vec()]);
    ed.handle_key(Key::Home, &mut fs);
    ed.delete_forward();
    assert_eq!(lines(&ed), vec![b"b".to_vec()]);
    ed.set_status(b"hello");
    assert_eq!(ed.status(), b"hello");
    ed.save(&mut fs);
    assert_eq!(read_all(&fs, "/tmp/d"), b"b\n".to_vec());
    let loaded: Vec<Vec<u8>> = lib::editor::load_content(b"one\ntwo");
    assert_eq!(loaded, vec![b"one".to_vec(), b"two".to_vec()]);
}

#[test]
fn a_byte_session_without_ctrl_s_leaves_the_files_alone() {
    let mut fs = booted();
    let mut ed = Editor::open(&fs, "/tmp/never").unwrap();
    let bytes: Vec<Option<u8>> = b"ab\r\x1b[A\x1b[3~\x7fz\x11".iter().map(|&b| Some(b)).collect();
    let mut at = 0;
    let mut quit = false;
    while at < bytes.len() && !quit {
        let (key, used) = read_key(&bytes[at..]).unwrap();
        at += used;
        quit = ed.handle_key(key, &mut fs);
    }
    assert!(quit);
    assert_eq!(at, bytes.len());
    assert!(!fs.path_exists("/tmp/never"));
    assert_eq!(read_all(&fs, "/readme.txt"), b"Welcome to RxV6.\nType 'help' for commands.\n".to_vec());
}
