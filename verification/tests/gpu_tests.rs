use lib::gpu::{Screen, BG, FG, FONT_LEN};

const MARK: u32 = 0x0012_3456;

fn test_font() -> Vec<u8> {
    let mut font = vec![0u8; FONT_LEN];
    font[65 * 8] = 0b0000_0011;
    font[65 * 8 + 7] = 0b1000_0000;
    font
}

fn screen() -> Screen {
    Screen::new(test_font())
}

#[test]
fn a_new_screen_is_black_with_the_cursor_home() {
    let s = screen();
    assert_eq!(s.cursor(), (0, 0));
    assert_eq!(s.framebuffer().len(), 480000);
    assert!(s.framebuffer().iter().all(|&p| p == 0));
}

#[test]
fn pixels_off_screen_are_ignored() {
    let mut s = screen();
    s.put_pixel(799, 599, MARK);
    s.put_pixel(800, 0, MARK);
    s.put_pixel(0, 600, MARK);
    assert_eq!(s.pixel(799, 599), MARK);
    assert_eq!(s.framebuffer().iter().filter(|&&p| p == MARK).count(), 1);
}

#[test]
fn a_rectangle_is_clipped_to_the_screen() {
    let mut s = screen();
    s.draw_rect(790, 590, 20, 20, MARK);
    assert_eq!(s.pixel(790, 590), MARK);
    assert_eq!(s.pixel(799, 599), MARK);
    assert_eq!(s.pixel(789, 590), 0);
    assert_eq!(s.framebuffer().iter().filter(|&&p| p == MARK).count(), 100);
    s.draw_rect(10, 10, 0, 5, 7);
    assert_eq!(s.pixel(10, 10), 0);
}

#[test]
fn a_glyph_is_drawn_at_twice_its_size() {
    let mut s = screen();
    s.put_char('A');
    for (x, y) in [(0, 0), (1, 0), (0, 1), (1, 1), (2, 0), (3, 1), (14, 14), (15, 15)] {
        assert_eq!(s.pixel(x, y), FG, "pixel {} {}", x, y);
    }
    for (x, y) in [(4, 0), (0, 2), (13, 14), (14, 13), (8, 8)] {
        assert_eq!(s.pixel(x, y), BG, "pixel {} {}", x, y);
    }
    assert_eq!(s.pixel(16, 0), 0);
    assert_eq!(s.pixel(0, 16), 0);
    assert_eq!(s.cursor(), (16, 0));
}

#[test]
fn line_feed_return_and_backspace_move_the_cursor() {
    let mut s = screen();
    s.print_str("AA");
    assert_eq!(s.cursor(), (32, 0));
    s.put_char('\x08');
    assert_eq!(s.cursor(), (16, 0));
    assert_eq!(s.pixel(16, 0), BG);
    assert_eq!(s.pixel(0, 0), FG);
    s.put_char('\n');
    assert_eq!(s.cursor(), (0, 16));
    s.put_char('\x08');
    assert_eq!(s.cursor(), (784, 0));
    s.print_str("\r");
    assert_eq!(s.cursor(), (0, 0));
    s.put_char('\x08');
    assert_eq!(s.cursor(), (0, 0));
    assert_eq!(s.pixel(0, 0), BG);
}

#[test]
fn characters_past_ascii_are_skipped() {
    let mut s = screen();
    s.put_char('é');
    assert_eq!(s.cursor(), (0, 0));
    assert!(s.framebuffer().iter().all(|&p| p == 0));
}

#[test]
fn the_cursor_wraps_at_the_right_edge() {
    let mut s = screen();
    for _ in 0..49 {
        s.put_char('B');
    }
    assert_eq!(s.cursor(), (784, 0));
    s.put_char('B');
    assert_eq!(s.cursor(), (0, 16));
}

#[test]
fn the_screen_scrolls_up_one_row_of_cells() {
    let mut s = screen();
    s.put_pixel(5, 20, MARK);
    for _ in 0..37 {
        s.put_char('\n');
    }
    assert_eq!(s.cursor(), (0, 592));
    assert_eq!(s.pixel(5, 20), MARK);
    s.put_char('\n');
    assert_eq!(s.cursor(), (0, 592));
    assert_eq!(s.pixel(5, 4), MARK);
    assert_eq!(s.pixel(5, 20), 0);
    assert_eq!(s.pixel(0, 584), BG);
    assert_eq!(s.pixel(799, 599), BG);
    assert_eq!(s.pixel(799, 583), 0);
}

#[test]
fn escape_sequences_clear_and_place() {
    let mut s = screen();
    s.print_str("\x1b[2J");
    assert!(s.framebuffer().iter().all(|&p| p == BG));
    assert_eq!(s.cursor(), (0, 0));
    s.print_str("\x1b[3;5H");
    assert_eq!(s.cursor(), (64, 32));
    s.print_str("\x1b[5H");
    assert_eq!(s.cursor(), (0, 64));
    s.print_str("\x1b[H");
    assert_eq!(s.cursor(), (0, 0));
    s.print_str("\x1b[1J\x1bX\x1b[7m");
    assert_eq!(s.cursor(), (0, 0));
    assert!(s.framebuffer().iter().all(|&p| p == BG));
    s.print_str("\x1b[K");
    assert_eq!(s.cursor(), (0, 0));
    s.print_str("A");
    assert_eq!(s.cursor(), (16, 0));
}

#[test]
fn printing_in_two_parts_is_printing_the_whole() {
    let mut a = screen();
    a.print_str("AB\x1b[2");
    a.print_str(";3HA\n");
    let mut b = screen();
    b.print_str("AB\x1b[2;3HA\n");
    assert_eq!(a.cursor(), b.cursor());
    assert_eq!(a.cursor(), (0, 32));
    assert!(a.framebuffer() == b.framebuffer());
}

#[test]
fn drawing_with_colours() {
    let mut s = screen();
    s.draw_char('A', 1, 2);
    assert_eq!(s.pixel(0, 0), 1);
    assert_eq!(s.pixel(4, 0), 2);
    s.draw_char('\x08', 1, 3);
    assert_eq!(s.pixel(0, 0), 3);
}
