//! The text console drawn on the framebuffer: pixels, rectangles, glyphs of
//! an 8x8 font shown at twice their size, scrolling, and the few terminal
//! escape sequences that the shell and the editor send.
use vstd::prelude::*;
use vstd::string::StrSliceExecFns;

verus! {

/// Width of the framebuffer, in pixels.
pub const WIDTH: u32 = 800;

/// Height of the framebuffer, in pixels.
pub const HEIGHT: u32 = 600;

/// Pixels in the framebuffer.
pub const FB_LEN: usize = 480000;

pub const CHAR_WIDTH: u32 = 8;
pub const CHAR_HEIGHT: u32 = 8;
pub const SCALE: u32 = 2;

/// Side of a character cell on screen, in pixels.
pub const CELL: u32 = 16;

/// Pixels in one row of character cells.
pub const LINE_PIXELS: usize = 12800;

/// Text colour.
pub const FG: u32 = 0xFFFFFFFF;

/// Background colour.
pub const BG: u32 = 0xFF0000FF;

/// Bytes in the font: 8 rows for each of 128 characters.
pub const FONT_LEN: usize = 1024;

/// The console's state.
pub struct Screen {
    fb: Vec<u32>,
    cursor_x: u32,
    cursor_y: u32,
    ansi_state: u8,
    ansi_param: u32,
    ansi_param2: u32,
    font: Vec<u8>,
}

/// The abstract console: the pixels (row after row), the cursor's pixel
/// position, the state of the escape-sequence reader with its two numbers,
/// and the font.
#[verifier::ext_equal]
pub struct ScreenView {
    pub fb: Seq<u32>,
    pub cursor_x: u32,
    pub cursor_y: u32,
    pub ansi_state: u8,
    pub p1: u32,
    pub p2: u32,
    pub font: Seq<u8>,
}

impl View for Screen {
    type V = ScreenView;

    closed spec fn view(&self) -> ScreenView {
        ScreenView {
            fb: self.fb@,
            cursor_x: self.cursor_x,
            cursor_y: self.cursor_y,
            ansi_state: self.ansi_state,
            p1: self.ansi_param,
            p2: self.ansi_param2,
            font: self.font@,
        }
    }
}

pub open spec fn screen_wf(s: ScreenView) -> bool {
    s.fb.len() == FB_LEN && s.font.len() == FONT_LEN
}

/// `x` reduced to 32 bits, as wrapping arithmetic gives it.
pub open spec fn wrap32(x: int) -> u32 {
    (x % 0x1_0000_0000) as u32
}

/// How far pixel column (or row) `p` lies after `origin`, counting around
/// the 32-bit wrap.
pub open spec fn offset32(p: int, origin: u32) -> int {
    (p - origin) % 0x1_0000_0000
}

/// Whether pixel `k` lies in the `w` by `h` rectangle whose corner is
/// `(x, y)`, counting coordinates around the 32-bit wrap.
pub open spec fn in_rect(k: int, x: u32, y: u32, w: int, h: int) -> bool {
    offset32(k % 800, x) < w && offset32(k / 800, y) < h
}

/// The pixels with one set, if `(x, y)` is on screen.
pub open spec fn put_pixel_spec(fb: Seq<u32>, x: u32, y: u32, color: u32) -> Seq<u32> {
    if x < WIDTH && y < HEIGHT {
        fb.update(y * 800 + x, color)
    } else {
        fb
    }
}

/// The pixels with a rectangle filled, its on-screen part only.
pub open spec fn rect_spec(fb: Seq<u32>, x: u32, y: u32, w: int, h: int, color: u32) -> Seq<u32> {
    Seq::new(fb.len(), |k: int| if in_rect(k, x, y, w, h) { color } else { fb[k] })
}

/// Whether bit `col` of font row byte `b` is set.
pub open spec fn font_bit(b: u8, col: int) -> bool {
    (b >> (col as u8)) & 1 == 1
}

/// The colour of pixel `(u, v)` of the 16 by 16 cell of character `ch`.
pub open spec fn glyph_color(font: Seq<u8>, ch: int, u: int, v: int, fg: u32, bg: u32) -> u32 {
    if font_bit(font[ch * 8 + v / 2], u / 2) {
        fg
    } else {
        bg
    }
}

/// The pixels with character `ch` drawn in the cell whose corner is
/// `(x, y)`.
pub open spec fn glyph_spec(fb: Seq<u32>, font: Seq<u8>, ch: int, x: u32, y: u32, fg: u32, bg: u32) -> Seq<u32> {
    Seq::new(
        fb.len(),
        |k: int|
            if in_rect(k, x, y, 16, 16) {
                glyph_color(font, ch, offset32(k % 800, x), offset32(k / 800, y), fg, bg)
            } else {
                fb[k]
            },
    )
}

/// The pixels moved up by one row of cells, the freed bottom row painted in
/// the background colour.
pub open spec fn scrolled(fb: Seq<u32>) -> Seq<u32> {
    Seq::new(fb.len(), |k: int| if k < FB_LEN - LINE_PIXELS { fb[k + LINE_PIXELS] } else { BG })
}

/// Once the cursor has gone below the last row, scroll by one row of cells.
pub open spec fn check_scroll_spec(s: ScreenView) -> ScreenView {
    if s.cursor_y >= HEIGHT {
        ScreenView { fb: scrolled(s.fb), cursor_y: (s.cursor_y - CELL) as u32, ..s }
    } else {
        s
    }
}

/// Draw one character at the cursor: a line feed moves to the start of
/// the next row (scrolling if needed), a carriage return to the start of
/// the row, a backspace one cell back (to the end of the row above from the
/// first column) and blanks that cell; characters from 128 up are skipped;
/// other characters are drawn and the cursor advances, wrapping to the next
/// row at the right edge.
pub open spec fn draw_char_spec(s: ScreenView, c: char, fg: u32, bg: u32) -> ScreenView {
    if c == '\n' {
        check_scroll_spec(ScreenView { cursor_x: 0, cursor_y: wrap32(s.cursor_y + CELL), ..s })
    } else if c == '\r' {
        ScreenView { cursor_x: 0, ..s }
    } else if c == '\x08' {
        let (x2, y2) = if s.cursor_x >= CELL {
            ((s.cursor_x - CELL) as u32, s.cursor_y)
        } else if s.cursor_y >= CELL {
            ((WIDTH - CELL) as u32, (s.cursor_y - CELL) as u32)
        } else {
            (s.cursor_x, s.cursor_y)
        };
        ScreenView { fb: rect_spec(s.fb, x2, y2, 16, 16, bg), cursor_x: x2, cursor_y: y2, ..s }
    } else if (c as u32) >= 128 {
        s
    } else {
        let fb2 = glyph_spec(s.fb, s.font, c as u32 as int, s.cursor_x, s.cursor_y, fg, bg);
        let x2 = wrap32(s.cursor_x + CELL);
        if x2 >= WIDTH {
            check_scroll_spec(ScreenView { fb: fb2, cursor_x: 0, cursor_y: wrap32(s.cursor_y + CELL), ..s })
        } else {
            ScreenView { fb: fb2, cursor_x: x2, ..s }
        }
    }
}

/// The digit value of `c`, if it is an ASCII digit.
pub open spec fn is_digit(c: char) -> bool {
    '0' <= c && c <= '9'
}

/// The cursor placed at text row `row` and column `col` (counted from 1;
/// 0 counts as 1).
pub open spec fn place_spec(s: ScreenView, row: u32, col: u32) -> ScreenView {
    let r = if row > 0 { row - 1 } else { 0 };
    let c = if col > 0 { col - 1 } else { 0 };
    ScreenView { cursor_y: wrap32(r * 16), cursor_x: wrap32(c * 16), ansi_state: 0, ..s }
}

/// One character sent to the console: outside an escape sequence it is
/// drawn, except the escape byte, which starts one; `ESC [` reads up to two
/// numbers separated by `;`; `J` with the number 2 clears the screen and
/// homes the cursor, `H` moves the cursor to the given row and column; any
/// other character ends the sequence.
pub open spec fn put_char_spec(s: ScreenView, c: char) -> ScreenView {
    if s.ansi_state == 0 {
        if c == '\x1b' {
            ScreenView { ansi_state: 1, ..s }
        } else {
            draw_char_spec(s, c, FG, BG)
        }
    } else if s.ansi_state == 1 {
        if c == '[' {
            ScreenView { ansi_state: 2, p1: 0, p2: 0, ..s }
        } else {
            ScreenView { ansi_state: 0, ..s }
        }
    } else if s.ansi_state == 2 {
        if is_digit(c) {
            ScreenView { p1: wrap32(s.p1 * 10 + (c as u32 - '0' as u32)), ..s }
        } else if c == ';' {
            ScreenView { ansi_state: 3, ..s }
        } else if c == 'J' {
            if s.p1 == 2 {
                ScreenView { fb: rect_spec(s.fb, 0, 0, 800, 600, BG), cursor_x: 0, cursor_y: 0, ansi_state: 0, ..s }
            } else {
                ScreenView { ansi_state: 0, ..s }
            }
        } else if c == 'H' {
            place_spec(s, s.p1, 0)
        } else {
            ScreenView { ansi_state: 0, ..s }
        }
    } else if s.ansi_state == 3 {
        if is_digit(c) {
            ScreenView { p2: wrap32(s.p2 * 10 + (c as u32 - '0' as u32)), ..s }
        } else if c == 'H' {
            place_spec(s, s.p1, s.p2)
        } else {
            ScreenView { ansi_state: 0, ..s }
        }
    } else {
        s
    }
}

/// A string sent to the console, character by character.
pub open spec fn print_spec(s: ScreenView, cs: Seq<char>) -> ScreenView
    decreases cs.len(),
{
    if cs.len() == 0 {
        s
    } else {
        print_spec(put_char_spec(s, cs[0]), cs.drop_first())
    }
}

/// Pixel `k` is the one at `(x + a, y + b)`, counting around the 32-bit
/// wrap, exactly when its offsets from `(x, y)` are `a` and `b`.
pub proof fn lemma_pixel_at(k: int, x: u32, y: u32, a: int, b: int)
    requires
        0 <= k < FB_LEN,
        0 <= a < 0x1_0000_0000,
        0 <= b < 0x1_0000_0000,
    ensures
        (wrap32(x + a) < WIDTH && wrap32(y + b) < HEIGHT && k == wrap32(y + b) * 800 + wrap32(x + a)) <==> (
        offset32(k % 800, x) == a && offset32(k / 800, y) == b),
{
    let px = k % 800;
    let py = k / 800;
    assert(0 <= px < 800 && 0 <= py < 600);
    assert(k == py * 800 + px);
    let X = wrap32(x + a);
    let Y = wrap32(y + b);
    assert(X == (x + a) % 0x1_0000_0000);
    assert((x + a < 0x1_0000_0000 ==> X == x + a) && (x + a >= 0x1_0000_0000 ==> X == x + a - 0x1_0000_0000));
    assert((y + b < 0x1_0000_0000 ==> Y == y + b) && (y + b >= 0x1_0000_0000 ==> Y == y + b - 0x1_0000_0000));
    if offset32(px, x) == a && offset32(py, y) == b {
        assert(px - x >= 0 ==> px - x == a);
        assert(px - x < 0 ==> px - x + 0x1_0000_0000 == a);
        assert(py - y >= 0 ==> py - y == b);
        assert(py - y < 0 ==> py - y + 0x1_0000_0000 == b);
        assert(X == px);
        assert(Y == py);
    }
    if X < WIDTH && Y < HEIGHT && k == Y * 800 + X {
        assert(px == X && py == Y) by {
            vstd::arithmetic::div_mod::lemma_fundamental_div_mod_converse(k, 800, Y as int, X as int);
        }
    }
}

/// Adding to a wrapped sum wraps like adding to the sum.
pub proof fn lemma_wrap_add(a: int, d: int)
    ensures
        wrap32(wrap32(a) + d) == wrap32(a + d),
{
    vstd::arithmetic::div_mod::lemma_add_mod_noop_right(d, a, 0x1_0000_0000);
    assert(wrap32(a) as int == a % 0x1_0000_0000);
}

/// A bit test by mask is a bit test by shift.
pub proof fn lemma_font_bit(b: u8, col: u8)
    requires
        col < 8,
    ensures
        (b & (1u8 << col) != 0) == font_bit(b, col as int),
{
    assert((b & (1u8 << col) != 0) == ((b >> col) & 1 == 1)) by (bit_vector)
        requires
            col < 8,
    ;
}

impl Screen {
    /// A black screen, the cursor at the top left, drawing with `font`:
    /// eight row bytes for each of the first 128 characters, the lowest bit
    /// the leftmost pixel.
    pub fn new(font: Vec<u8>) -> (s: Self)
        requires
            font@.len() == FONT_LEN,
        ensures
            s@.fb == Seq::new(FB_LEN as nat, |k: int| 0u32),
            s@.cursor_x == 0,
            s@.cursor_y == 0,
            s@.ansi_state == 0,
            s@.p1 == 0,
            s@.p2 == 0,
            s@.font == font@,
            screen_wf(s@),
    {
        let mut fb: Vec<u32> = Vec::new();
        let mut i: usize = 0;
        while i < FB_LEN
            invariant
                i <= FB_LEN,
                fb@ =~= Seq::new(i as nat, |k: int| 0u32),
            decreases FB_LEN - i,
        {
            fb.push(0u32);
            i = i + 1;
        }
        Screen { fb, cursor_x: 0, cursor_y: 0, ansi_state: 0, ansi_param: 0, ansi_param2: 0, font }
    }

    /// The colour of pixel `(x, y)`.
    pub fn pixel(&self, x: u32, y: u32) -> (c: u32)
        requires
            screen_wf(self@),
            x < WIDTH,
            y < HEIGHT,
        ensures
            c == self@.fb[y * 800 + x],
    {
        self.fb[(y * WIDTH + x) as usize]
    }

    /// The pixels, row after row.
    pub fn framebuffer(&self) -> (fb: &[u32])
        ensures
            fb@ == self@.fb,
    {
        self.fb.as_slice()
    }

    /// The cursor's pixel position.
    pub fn cursor(&self) -> (xy: (u32, u32))
        ensures
            xy.0 == self@.cursor_x,
            xy.1 == self@.cursor_y,
    {
        (self.cursor_x, self.cursor_y)
    }

    /// Set pixel `(x, y)` if it is on screen.
    pub fn put_pixel(&mut self, x: u32, y: u32, color: u32)
        requires
            screen_wf(old(self)@),
        ensures
            final(self)@ == (ScreenView { fb: put_pixel_spec(old(self)@.fb, x, y, color), ..old(self)@ }),
    {
        if x < WIDTH && y < HEIGHT {
            self.fb[(y * WIDTH + x) as usize] = color;
        }
        assert(self@ =~= (ScreenView { fb: put_pixel_spec(old(self)@.fb, x, y, color), ..old(self)@ }));
    }

    /// Fill the on-screen part of the `w` by `h` rectangle whose corner is
    /// `(x, y)`; coordinates past the 32-bit range wrap around.
    pub fn draw_rect(&mut self, x: u32, y: u32, w: u32, h: u32, color: u32)
        requires
            screen_wf(old(self)@),
        ensures
            final(self)@ == (ScreenView { fb: rect_spec(old(self)@.fb, x, y, w as int, h as int, color), ..old(self)@ }),
    {
        let ghost s0 = self@;
        let mut i: u32 = 0;
        while i < w
            invariant
                screen_wf(self@),
                screen_wf(s0),
                self@ == (ScreenView { fb: self@.fb, ..s0 }),
                i <= w,
                forall|k: int| 0 <= k < FB_LEN ==> #[trigger] self@.fb[k] == rect_spec(s0.fb, x, y, i as int, h as int, color)[k],
            decreases w - i,
        {
            let mut j: u32 = 0;
            while j < h
                invariant
                    screen_wf(self@),
                    screen_wf(s0),
                    self@ == (ScreenView { fb: self@.fb, ..s0 }),
                    i < w,
                    j <= h,
                    forall|k: int| 0 <= k < FB_LEN ==> #[trigger] self@.fb[k] == (if in_rect(k, x, y, i as int, h as int)
                        || (offset32(k % 800, x) == i && offset32(k / 800, y) < j) { color } else { s0.fb[k] }),
                decreases h - j,
            {
                let ghost before = self@.fb;
                self.put_pixel(x.wrapping_add(i), y.wrapping_add(j), color);
                proof {
                    assert forall|k: int| 0 <= k < FB_LEN implies #[trigger] self@.fb[k] == (if in_rect(k, x, y, i as int, h as int)
                        || (offset32(k % 800, x) == i && offset32(k / 800, y) < j + 1) { color } else { s0.fb[k] }) by {
                        lemma_pixel_at(k, x, y, i as int, j as int);
                        assert(before[k] == (if in_rect(k, x, y, i as int, h as int)
                            || (offset32(k % 800, x) == i && offset32(k / 800, y) < j) { color } else { s0.fb[k] }));
                    }
                }
                j = j + 1;
            }
            proof {
                assert forall|k: int| 0 <= k < FB_LEN implies #[trigger] self@.fb[k] == rect_spec(s0.fb, x, y, i + 1, h as int, color)[k] by {
                    assert(self@.fb[k] == (if in_rect(k, x, y, i as int, h as int)
                        || (offset32(k % 800, x) == i && offset32(k / 800, y) < h) { color } else { s0.fb[k] }));
                }
            }
            i = i + 1;
        }
        assert(self@.fb =~= rect_spec(s0.fb, x, y, w as int, h as int, color));
        assert(self@ =~= (ScreenView { fb: rect_spec(s0.fb, x, y, w as int, h as int, color), ..s0 }));
    }
}

impl Screen {
    /// Fill the 2 by 2 block at offsets `a`, `a + 1` and `b`, `b + 1` from
    /// `(x, y)`, on screen, counting around the 32-bit wrap.
    fn put_block(&mut self, x: u32, y: u32, a: u32, b: u32, color: u32)
        requires
            screen_wf(old(self)@),
            a < 0xffff_ffff,
            b < 0xffff_ffff,
        ensures
            final(self)@ == (ScreenView { fb: final(self)@.fb, ..old(self)@ }),
            screen_wf(final(self)@),
            forall|k: int| 0 <= k < FB_LEN ==> #[trigger] final(self)@.fb[k] == (if (offset32(k % 800, x) == a
                || offset32(k % 800, x) == a + 1) && (offset32(k / 800, y) == b || offset32(k / 800, y) == b + 1) {
                color
            } else {
                old(self)@.fb[k]
            }),
    {
        let ghost s0 = self@;
        let px = x.wrapping_add(a);
        let py = y.wrapping_add(b);
        let px1 = px.wrapping_add(1);
        let py1 = py.wrapping_add(1);
        proof {
            lemma_wrap_add(x + a, 1);
            lemma_wrap_add(y + b, 1);
            assert(px == wrap32(x + a));
            assert(py == wrap32(y + b));
            assert(px1 == wrap32(x + a + 1));
            assert(py1 == wrap32(y + b + 1));
        }
        self.put_pixel(px, py, color);
        self.put_pixel(px1, py, color);
        self.put_pixel(px, py1, color);
        self.put_pixel(px1, py1, color);
        proof {
            assert forall|k: int| 0 <= k < FB_LEN implies #[trigger] self@.fb[k] == (if (offset32(k % 800, x) == a
                || offset32(k % 800, x) == a + 1) && (offset32(k / 800, y) == b || offset32(k / 800, y) == b + 1) {
                color
            } else {
                s0.fb[k]
            }) by {
                lemma_pixel_at(k, x, y, a as int, b as int);
                lemma_pixel_at(k, x, y, a + 1, b as int);
                lemma_pixel_at(k, x, y, a as int, b + 1);
                lemma_pixel_at(k, x, y, a + 1, b + 1);
            }
        }
    }

    /// Scroll by one row of cells once the cursor has gone below the last
    /// row.
    fn check_scroll(&mut self)
        requires
            screen_wf(old(self)@),
        ensures
            final(self)@ == check_scroll_spec(old(self)@),
            screen_wf(final(self)@),
    {
        if self.cursor_y >= HEIGHT {
            let ghost s0 = self@;
            let mut i: usize = LINE_PIXELS;
            while i < FB_LEN
                invariant
                    screen_wf(self@),
                    s0.fb.len() == FB_LEN,
                    self@ == (ScreenView { fb: self@.fb, ..s0 }),
                    LINE_PIXELS <= i <= FB_LEN,
                    forall|k: int| 0 <= k < i - LINE_PIXELS ==> #[trigger] self@.fb[k] == s0.fb[k + LINE_PIXELS],
                    forall|k: int| i - LINE_PIXELS <= k < FB_LEN ==> #[trigger] self@.fb[k] == s0.fb[k],
                decreases FB_LEN - i,
            {
                let v = self.fb[i];
                self.fb[i - LINE_PIXELS] = v;
                i = i + 1;
            }
            let mut j: usize = FB_LEN - LINE_PIXELS;
            while j < FB_LEN
                invariant
                    screen_wf(self@),
                    s0.fb.len() == FB_LEN,
                    self@ == (ScreenView { fb: self@.fb, ..s0 }),
                    FB_LEN - LINE_PIXELS <= j <= FB_LEN,
                    forall|k: int| 0 <= k < FB_LEN - LINE_PIXELS ==> #[trigger] self@.fb[k] == s0.fb[k + LINE_PIXELS],
                    forall|k: int| FB_LEN - LINE_PIXELS <= k < j ==> #[trigger] self@.fb[k] == BG,
                decreases FB_LEN - j,
            {
                self.fb[j] = BG;
                j = j + 1;
            }
            self.cursor_y = self.cursor_y - CELL;
            assert(self@.fb =~= scrolled(s0.fb));
            assert(self@ =~= check_scroll_spec(s0));
        }
    }

    /// Draw one character at the cursor, in `fg` on `bg`.
    pub fn draw_char(&mut self, c: char, fg: u32, bg: u32)
        requires
            screen_wf(old(self)@),
        ensures
            final(self)@ == draw_char_spec(old(self)@, c, fg, bg),
            screen_wf(final(self)@),
    {
        let ghost s0 = self@;
        if c == '\n' {
            self.cursor_x = 0;
            self.cursor_y = self.cursor_y.wrapping_add(CELL);
            assert(self@ =~= (ScreenView { cursor_x: 0, cursor_y: wrap32(s0.cursor_y + CELL), ..s0 }));
            self.check_scroll();
            return;
        } else if c == '\r' {
            self.cursor_x = 0;
            assert(self@ =~= draw_char_spec(s0, c, fg, bg));
            return;
        } else if c == '\x08' {
            if self.cursor_x >= CELL {
                self.cursor_x = self.cursor_x - CELL;
            } else if self.cursor_y >= CELL {
                self.cursor_y = self.cursor_y - CELL;
                self.cursor_x = WIDTH - CELL;
            }
            let x = self.cursor_x;
            let y = self.cursor_y;
            self.draw_rect(x, y, CELL, CELL, bg);
            assert(self@ =~= draw_char_spec(s0, c, fg, bg));
            return;
        }
        let code = c as u32;
        if code >= 128 {
            return;
        }
        let idx = code as usize;
        let x = self.cursor_x;
        let y = self.cursor_y;
        let ghost ch = idx as int;
        let mut row: u32 = 0;
        while row < 8
            invariant
                screen_wf(self@),
                screen_wf(s0),
                self@ == (ScreenView { fb: self@.fb, ..s0 }),
                x == s0.cursor_x,
                y == s0.cursor_y,
                idx < 128,
                ch == idx as int,
                row <= 8,
                forall|k: int| 0 <= k < FB_LEN ==> #[trigger] self@.fb[k] == (if in_rect(k, x, y, 16, 16)
                    && offset32(k / 800, y) / 2 < row {
                    glyph_color(s0.font, ch, offset32(k % 800, x), offset32(k / 800, y), fg, bg)
                } else {
                    s0.fb[k]
                }),
            decreases 8 - row,
        {
            let bits = self.font[idx * 8 + row as usize];
            let mut col: u32 = 0;
            while col < 8
                invariant
                    screen_wf(self@),
                    screen_wf(s0),
                    self@ == (ScreenView { fb: self@.fb, ..s0 }),
                    x == s0.cursor_x,
                    y == s0.cursor_y,
                    idx < 128,
                    ch == idx as int,
                    row < 8,
                    bits == s0.font[ch * 8 + row],
                    col <= 8,
                    forall|k: int| 0 <= k < FB_LEN ==> #[trigger] self@.fb[k] == (if in_rect(k, x, y, 16, 16) && (
                    offset32(k / 800, y) / 2 < row || (offset32(k / 800, y) / 2 == row && offset32(k % 800, x) / 2
                        < col)) {
                        glyph_color(s0.font, ch, offset32(k % 800, x), offset32(k / 800, y), fg, bg)
                    } else {
                        s0.fb[k]
                    }),
                decreases 8 - col,
            {
                let color = if bits & (1u8 << (col as u8)) != 0 { fg } else { bg };
                proof {
                    lemma_font_bit(bits, col as u8);
                }
                let ghost before = self@.fb;
                self.put_block(x, y, col * 2, row * 2, color);
                proof {
                    assert forall|k: int| 0 <= k < FB_LEN implies #[trigger] self@.fb[k] == (if in_rect(k, x, y, 16, 16) && (
                    offset32(k / 800, y) / 2 < row || (offset32(k / 800, y) / 2 == row && offset32(k % 800, x) / 2
                        < col + 1)) {
                        glyph_color(s0.font, ch, offset32(k % 800, x), offset32(k / 800, y), fg, bg)
                    } else {
                        s0.fb[k]
                    }) by {
                        let u = offset32(k % 800, x);
                        let v = offset32(k / 800, y);
                        assert(before[k] == (if in_rect(k, x, y, 16, 16) && (v / 2 < row || (v / 2 == row && u / 2 < col))
                            { glyph_color(s0.font, ch, u, v, fg, bg) } else { s0.fb[k] }));
                        if (u == col * 2 || u == col * 2 + 1) && (v == row * 2 || v == row * 2 + 1) {
                            assert(u / 2 == col && v / 2 == row);
                            assert(glyph_color(s0.font, ch, u, v, fg, bg) == color);
                        }
                    }
                }
                col = col + 1;
            }
            row = row + 1;
        }
        let ghost fb2 = glyph_spec(s0.fb, s0.font, ch, x, y, fg, bg);
        assert(self@.fb =~= fb2);
        assert(c as u32 as int == ch);
        let x2 = x.wrapping_add(CELL);
        if x2 >= WIDTH {
            self.cursor_x = 0;
            self.cursor_y = y.wrapping_add(CELL);
            assert(self@ =~= (ScreenView { fb: fb2, cursor_x: 0, cursor_y: wrap32(s0.cursor_y + CELL), ..s0 }));
            self.check_scroll();
        } else {
            self.cursor_x = x2;
            assert(self@ =~= draw_char_spec(s0, c, fg, bg));
        }
    }
}


impl Screen {
    /// The cursor placed at text row `row` and column `col`, counted from 1.
    fn place(&mut self, row: u32, col: u32)
        requires
            screen_wf(old(self)@),
        ensures
            final(self)@ == place_spec(old(self)@, row, col),
            screen_wf(final(self)@),
    {
        let r = if row > 0 { row - 1 } else { 0 };
        let c = if col > 0 { col - 1 } else { 0 };
        self.cursor_y = r.wrapping_mul(CELL);
        self.cursor_x = c.wrapping_mul(CELL);
        self.ansi_state = 0;
        assert(self@ =~= place_spec(old(self)@, row, col));
    }

    /// Send one character to the console.
    pub fn put_char(&mut self, c: char)
        requires
            screen_wf(old(self)@),
        ensures
            final(self)@ == put_char_spec(old(self)@, c),
            screen_wf(final(self)@),
    {
        let ghost s0 = self@;
        if self.ansi_state == 0 {
            if c == '\x1b' {
                self.ansi_state = 1;
                assert(self@ =~= put_char_spec(s0, c));
            } else {
                self.draw_char(c, FG, BG);
            }
        } else if self.ansi_state == 1 {
            if c == '[' {
                self.ansi_state = 2;
                self.ansi_param = 0;
                self.ansi_param2 = 0;
            } else {
                self.ansi_state = 0;
            }
            assert(self@ =~= put_char_spec(s0, c));
        } else if self.ansi_state == 2 {
            if c >= '0' && c <= '9' {
                let d = (c as u32) - ('0' as u32);
                self.ansi_param = self.ansi_param.wrapping_mul(10).wrapping_add(d);
                proof {
                    lemma_wrap_add(s0.p1 * 10, d as int);
                }
                assert(self@ =~= put_char_spec(s0, c));
            } else if c == ';' {
                self.ansi_state = 3;
                assert(self@ =~= put_char_spec(s0, c));
            } else if c == 'J' {
                if self.ansi_param == 2 {
                    self.draw_rect(0, 0, WIDTH, HEIGHT, BG);
                    self.cursor_x = 0;
                    self.cursor_y = 0;
                }
                self.ansi_state = 0;
                assert(self@ =~= put_char_spec(s0, c));
            } else if c == 'H' {
                let p = self.ansi_param;
                self.place(p, 0);
            } else {
                self.ansi_state = 0;
                assert(self@ =~= put_char_spec(s0, c));
            }
        } else if self.ansi_state == 3 {
            if c >= '0' && c <= '9' {
                let d = (c as u32) - ('0' as u32);
                self.ansi_param2 = self.ansi_param2.wrapping_mul(10).wrapping_add(d);
                proof {
                    lemma_wrap_add(s0.p2 * 10, d as int);
                }
                assert(self@ =~= put_char_spec(s0, c));
            } else if c == 'H' {
                let p = self.ansi_param;
                let q = self.ansi_param2;
                self.place(p, q);
            } else {
                self.ansi_state = 0;
                assert(self@ =~= put_char_spec(s0, c));
            }
        }
    }

    /// Send a string to the console.
    pub fn print_str(&mut self, s: &str)
        requires
            screen_wf(old(self)@),
        ensures
            final(self)@ == print_spec(old(self)@, s@),
            screen_wf(final(self)@),
    {
        let n = s.unicode_len();
        let mut i: usize = 0;
        assert(s@.skip(0) =~= s@);
        while i < n
            invariant
                n == s@.len(),
                i <= n,
                screen_wf(self@),
                print_spec(old(self)@, s@) == print_spec(self@, s@.skip(i as int)),
            decreases n - i,
        {
            let c = s.get_char(i);
            assert(s@.skip(i as int)[0] == c);
            assert(s@.skip(i as int).drop_first() =~= s@.skip(i + 1));
            self.put_char(c);
            i = i + 1;
        }
    }
}


/// Printing two strings one after the other is printing them joined.
pub proof fn law_print_concat(s: ScreenView, a: Seq<char>, b: Seq<char>)
    ensures
        print_spec(s, a + b) == print_spec(print_spec(s, a), b),
    decreases a.len(),
{
    if a.len() == 0 {
        assert(a + b =~= b);
    } else {
        assert((a + b).drop_first() =~= a.drop_first() + b);
        assert((a + b)[0] == a[0]);
        law_print_concat(put_char_spec(s, a[0]), a.drop_first(), b);
    }
}

/// Drawing a rectangle leaves every pixel outside it as it was.
pub proof fn law_rect_outside(fb: Seq<u32>, x: u32, y: u32, w: int, h: int, color: u32, k: int)
    requires
        0 <= k < fb.len(),
        !in_rect(k, x, y, w, h),
    ensures
        rect_spec(fb, x, y, w, h, color)[k] == fb[k],
{
}

/// Whether every character of `ds` is a decimal digit.
pub open spec fn all_digits(ds: Seq<char>) -> bool {
    forall|i: int| 0 <= i < ds.len() ==> '0' <= #[trigger] ds[i] <= '9'
}

/// The number that the decimal digits `ds` write, most significant first
/// (0 for no digits).
pub open spec fn digits_value(ds: Seq<char>) -> nat
    decreases ds.len(),
{
    if ds.len() == 0 {
        0
    } else {
        digits_value(ds.drop_last()) * 10 + (ds.last() as int - '0' as int) as nat
    }
}

/// Printing one character is sending it to the console.
proof fn lemma_print_one(s: ScreenView, c: char)
    ensures
        print_spec(s, seq![c]) == put_char_spec(s, c),
{
    assert(seq![c].drop_first() =~= Seq::<char>::empty());
    assert(print_spec(put_char_spec(s, c), Seq::<char>::empty()) == put_char_spec(s, c));
}

/// The digits of the first number of an escape sequence, read from 0,
/// leave that number and nothing else changed.
proof fn lemma_read_first(s: ScreenView, ds: Seq<char>)
    requires
        s.ansi_state == 2,
        s.p1 == 0,
        all_digits(ds),
        digits_value(ds) < 0x1_0000_0000,
    ensures
        print_spec(s, ds) == (ScreenView { p1: digits_value(ds) as u32, ..s }),
    decreases ds.len(),
{
    if ds.len() == 0 {
        assert(print_spec(s, ds) =~= (ScreenView { p1: 0, ..s }));
    } else {
        let dl = ds.drop_last();
        let c = ds.last();
        assert(dl + seq![c] =~= ds);
        assert(all_digits(dl)) by {
            assert forall|i: int| 0 <= i < dl.len() implies '0' <= #[trigger] dl[i] <= '9' by {
                assert(dl[i] == ds[i]);
            }
        }
        assert('0' <= ds[ds.len() - 1] <= '9');
        lemma_read_first(s, dl);
        law_print_concat(s, dl, seq![c]);
        lemma_print_one(print_spec(s, dl), c);
        let v = digits_value(ds) as int;
        assert(wrap32(v) == v as u32) by {
            vstd::arithmetic::div_mod::lemma_small_mod(v as nat, 0x1_0000_0000);
        }
    }
}

/// The digits of the second number of an escape sequence, read from 0,
/// leave that number and nothing else changed.
proof fn lemma_read_second(s: ScreenView, ds: Seq<char>)
    requires
        s.ansi_state == 3,
        s.p2 == 0,
        all_digits(ds),
        digits_value(ds) < 0x1_0000_0000,
    ensures
        print_spec(s, ds) == (ScreenView { p2: digits_value(ds) as u32, ..s }),
    decreases ds.len(),
{
    if ds.len() == 0 {
        assert(print_spec(s, ds) =~= (ScreenView { p2: 0, ..s }));
    } else {
        let dl = ds.drop_last();
        let c = ds.last();
        assert(dl + seq![c] =~= ds);
        assert(all_digits(dl)) by {
            assert forall|i: int| 0 <= i < dl.len() implies '0' <= #[trigger] dl[i] <= '9' by {
                assert(dl[i] == ds[i]);
            }
        }
        assert('0' <= ds[ds.len() - 1] <= '9');
        lemma_read_second(s, dl);
        law_print_concat(s, dl, seq![c]);
        lemma_print_one(print_spec(s, dl), c);
        let v = digits_value(ds) as int;
        assert(wrap32(v) == v as u32) by {
            vstd::arithmetic::div_mod::lemma_small_mod(v as nat, 0x1_0000_0000);
        }
    }
}

/// `ESC [ r ; c H` moves the cursor to text row `r` and column `c`
/// (counted from 1, 0 or no digits counting as 1), each the decimal value
/// of its digits, in cells of 16 pixels: the cursor ends at pixel column
/// `(c - 1) * 16` and pixel row `(r - 1) * 16`, the sequence is over, and
/// nothing is drawn.
pub proof fn law_cursor_position(s: ScreenView, rd: Seq<char>, cd: Seq<char>)
    requires
        s.ansi_state == 0,
        all_digits(rd),
        all_digits(cd),
        digits_value(rd) < 0x1000_0000,
        digits_value(cd) < 0x1000_0000,
    ensures
        ({
            let t = print_spec(s, seq!['\x1b', '['] + rd + seq![';'] + cd + seq!['H']);
            let r = digits_value(rd);
            let c = digits_value(cd);
            &&& t.cursor_y == (if r > 0 { r - 1 } else { 0 }) * 16
            &&& t.cursor_x == (if c > 0 { c - 1 } else { 0 }) * 16
            &&& t.ansi_state == 0
            &&& t.fb == s.fb
        }),
{
    let a = seq!['\x1b', '['];
    let x1 = a + rd;
    let x2 = x1 + seq![';'];
    let x3 = x2 + cd;
    assert(a =~= seq!['\x1b'] + seq!['[']);
    law_print_concat(s, seq!['\x1b'], seq!['[']);
    lemma_print_one(s, '\x1b');
    lemma_print_one(put_char_spec(s, '\x1b'), '[');
    let s1 = print_spec(s, a);
    assert(s1 == (ScreenView { ansi_state: 2, p1: 0, p2: 0, ..s }));
    law_print_concat(s, a, rd);
    lemma_read_first(s1, rd);
    let s2 = print_spec(s, x1);
    law_print_concat(s, x1, seq![';']);
    lemma_print_one(s2, ';');
    let s3 = print_spec(s, x2);
    assert(s3 == (ScreenView { ansi_state: 3, p1: digits_value(rd) as u32, p2: 0, ..s }));
    law_print_concat(s, x2, cd);
    lemma_read_second(s3, cd);
    let s4 = print_spec(s, x3);
    law_print_concat(s, x3, seq!['H']);
    lemma_print_one(s4, 'H');
    let r = digits_value(rd);
    let c = digits_value(cd);
    assert(wrap32((if r > 0 { r - 1 } else { 0 }) * 16) == (if r > 0 { r - 1 } else { 0 }) * 16) by {
        vstd::arithmetic::div_mod::lemma_small_mod(((if r > 0 { r - 1 } else { 0 }) * 16) as nat, 0x1_0000_0000);
    }
    assert(wrap32((if c > 0 { c - 1 } else { 0 }) * 16) == (if c > 0 { c - 1 } else { 0 }) * 16) by {
        vstd::arithmetic::div_mod::lemma_small_mod(((if c > 0 { c - 1 } else { 0 }) * 16) as nat, 0x1_0000_0000);
    }
}

/// `ESC [ r H` moves the cursor to the start of text row `r` (counted from
/// 1, 0 or no digits counting as 1): pixel column 0 and pixel row
/// `(r - 1) * 16`; the sequence is over and nothing is drawn.
pub proof fn law_cursor_row(s: ScreenView, rd: Seq<char>)
    requires
        s.ansi_state == 0,
        all_digits(rd),
        digits_value(rd) < 0x1000_0000,
    ensures
        ({
            let t = print_spec(s, seq!['\x1b', '['] + rd + seq!['H']);
            let r = digits_value(rd);
            &&& t.cursor_y == (if r > 0 { r - 1 } else { 0 }) * 16
            &&& t.cursor_x == 0
            &&& t.ansi_state == 0
            &&& t.fb == s.fb
        }),
{
    let a = seq!['\x1b', '['];
    let x1 = a + rd;
    assert(a =~= seq!['\x1b'] + seq!['[']);
    law_print_concat(s, seq!['\x1b'], seq!['[']);
    lemma_print_one(s, '\x1b');
    lemma_print_one(put_char_spec(s, '\x1b'), '[');
    let s1 = print_spec(s, a);
    assert(s1 == (ScreenView { ansi_state: 2, p1: 0, p2: 0, ..s }));
    law_print_concat(s, a, rd);
    lemma_read_first(s1, rd);
    law_print_concat(s, x1, seq!['H']);
    lemma_print_one(print_spec(s, x1), 'H');
    let r = digits_value(rd);
    assert(wrap32((if r > 0 { r - 1 } else { 0 }) * 16) == (if r > 0 { r - 1 } else { 0 }) * 16) by {
        vstd::arithmetic::div_mod::lemma_small_mod(((if r > 0 { r - 1 } else { 0 }) * 16) as nat, 0x1_0000_0000);
    }
    assert(wrap32(0) == 0) by {
        vstd::arithmetic::div_mod::lemma_small_mod(0, 0x1_0000_0000);
    }
}

} // verus!
