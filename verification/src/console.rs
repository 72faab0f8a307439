//! Keyboard input for the console: decoding of terminal escape sequences
//! into keys, and the line editor behind the shell prompt.
use vstd::prelude::*;
use vstd::string::StringSliceAdditionalSpecFns;
use crate::text::{decimal, push_decimal, push_str};

verus! {

/// A key as the text editor sees it.
#[derive(Clone, Copy, PartialEq, Eq, Structural, Debug)]
pub enum Key {
    Char(u8),
    Up,
    Down,
    Left,
    Right,
    Home,
    End,
    Delete,
    Backspace,
    Enter,
    CtrlS,
    CtrlQ,
}

/// How far a key's byte sequence has been read.
#[derive(Clone, Copy, PartialEq, Eq, Structural, Debug)]
pub enum KeyScan {
    /// Waiting for the first byte of a key.
    Start,
    /// An escape byte was read.
    Esc,
    /// An escape byte and `[` were read.
    Csi,
    /// The sequence for the delete key was read up to its final byte.
    CsiDelete,
}

/// What one byte, or the lack of one, does to a key being read.
#[derive(Clone, Copy, PartialEq, Eq, Structural, Debug)]
pub enum KeyStep {
    /// More input is needed; the scan is now in this state.
    More(KeyScan),
    /// The key is complete.
    Done(Key),
}

/// The key that a lone first byte stands for.
pub open spec fn plain_key(c: u8) -> Key {
    if c == 0x13 {
        Key::CtrlS
    } else if c == 0x11 {
        Key::CtrlQ
    } else if c == 0x0d {
        Key::Enter
    } else if c == 0x7f || c == 0x08 {
        Key::Backspace
    } else {
        Key::Char(c)
    }
}

/// One step of reading a key. In the first state the read blocks, so the
/// lack of a byte changes nothing; after an escape byte, a missing byte
/// (the wait timed out) ends the key as a plain escape.
pub open spec fn scan_key_spec(state: KeyScan, input: Option<u8>) -> KeyStep {
    match state {
        KeyScan::Start => match input {
            None => KeyStep::More(KeyScan::Start),
            Some(c) => if c == 0x1b {
                KeyStep::More(KeyScan::Esc)
            } else {
                KeyStep::Done(plain_key(c))
            },
        },
        KeyScan::Esc => match input {
            Some(c) => if c == 0x5b {
                KeyStep::More(KeyScan::Csi)
            } else {
                KeyStep::Done(Key::Char(0x1b))
            },
            None => KeyStep::Done(Key::Char(0x1b)),
        },
        KeyScan::Csi => match input {
            Some(c) => if c == 0x41 {
                KeyStep::Done(Key::Up)
            } else if c == 0x42 {
                KeyStep::Done(Key::Down)
            } else if c == 0x43 {
                KeyStep::Done(Key::Right)
            } else if c == 0x44 {
                KeyStep::Done(Key::Left)
            } else if c == 0x48 {
                KeyStep::Done(Key::Home)
            } else if c == 0x46 {
                KeyStep::Done(Key::End)
            } else if c == 0x33 {
                KeyStep::More(KeyScan::CsiDelete)
            } else {
                KeyStep::Done(Key::Char(0x1b))
            },
            None => KeyStep::Done(Key::Char(0x1b)),
        },
        KeyScan::CsiDelete => KeyStep::Done(Key::Delete),
    }
}

/// One step of reading a key: `input` is the byte that arrived, or `None`
/// when the wait for one ran out.
pub fn scan_key(state: KeyScan, input: Option<u8>) -> (r: KeyStep)
    ensures
        r == scan_key_spec(state, input),
{
    match state {
        KeyScan::Start => match input {
            None => KeyStep::More(KeyScan::Start),
            Some(c) => {
                if c == 0x1b {
                    KeyStep::More(KeyScan::Esc)
                } else if c == 0x13 {
                    KeyStep::Done(Key::CtrlS)
                } else if c == 0x11 {
                    KeyStep::Done(Key::CtrlQ)
                } else if c == 0x0d {
                    KeyStep::Done(Key::Enter)
                } else if c == 0x7f || c == 0x08 {
                    KeyStep::Done(Key::Backspace)
                } else {
                    KeyStep::Done(Key::Char(c))
                }
            },
        },
        KeyScan::Esc => match input {
            Some(c) => {
                if c == 0x5b {
                    KeyStep::More(KeyScan::Csi)
                } else {
                    KeyStep::Done(Key::Char(0x1b))
                }
            },
            None => KeyStep::Done(Key::Char(0x1b)),
        },
        KeyScan::Csi => match input {
            Some(c) => {
                if c == 0x41 {
                    KeyStep::Done(Key::Up)
                } else if c == 0x42 {
                    KeyStep::Done(Key::Down)
                } else if c == 0x43 {
                    KeyStep::Done(Key::Right)
                } else if c == 0x44 {
                    KeyStep::Done(Key::Left)
                } else if c == 0x48 {
                    KeyStep::Done(Key::Home)
                } else if c == 0x46 {
                    KeyStep::Done(Key::End)
                } else if c == 0x33 {
                    KeyStep::More(KeyScan::CsiDelete)
                } else {
                    KeyStep::Done(Key::Char(0x1b))
                }
            },
            None => KeyStep::Done(Key::Char(0x1b)),
        },
        KeyScan::CsiDelete => KeyStep::Done(Key::Delete),
    }
}

/// The key read from the results of successive reads `inputs`, starting in
/// `state`, with the number of results it took; `None` when the results run
/// out before the key is complete.
pub open spec fn decode_from(state: KeyScan, inputs: Seq<Option<u8>>) -> Option<(Key, nat)>
    decreases inputs.len(),
{
    if inputs.len() == 0 {
        None
    } else {
        match scan_key_spec(state, inputs[0]) {
            KeyStep::Done(k) => Some((k, 1)),
            KeyStep::More(next) => match decode_from(next, inputs.drop_first()) {
                Some((k, n)) => Some((k, n + 1)),
                None => None,
            },
        }
    }
}

/// The key read from the results of successive reads, each a byte or
/// `None` for a read that ran out of time, and the number of results the
/// key took; `None` when they run out before the key is complete.
pub fn read_key(inputs: &[Option<u8>]) -> (r: Option<(Key, usize)>)
    ensures
        match decode_from(KeyScan::Start, inputs@) {
            Some((k, n)) => r == Some((k, n as usize)),
            None => r is None,
        },
{
    let mut state = KeyScan::Start;
    let mut i: usize = 0;
    let len = inputs.len();
    assert(inputs@.skip(0) =~= inputs@);
    while i < len
        invariant
            len == inputs@.len(),
            i <= len,
            decode_from(KeyScan::Start, inputs@) == (match decode_from(state, inputs@.skip(i as int)) {
                Some((k, n)) => Some((k, (n + i) as nat)),
                None => None,
            }),
        decreases len - i,
    {
        let ghost rest = inputs@.skip(i as int);
        assert(rest[0] == inputs@[i as int]);
        assert(rest.drop_first() =~= inputs@.skip(i + 1));
        match scan_key(state, inputs[i]) {
            KeyStep::Done(k) => {
                return Some((k, i + 1));
            },
            KeyStep::More(next) => {
                state = next;
            },
        }
        i = i + 1;
    }
    assert(inputs@.skip(len as int).len() == 0);
    None
}

/// What a byte typed at the prompt does, for the caller to show.
#[derive(Clone, Copy, PartialEq, Eq, Structural, Debug)]
pub enum LineEvent {
    /// Nothing changed.
    Ignored,
    /// The byte was added to the line; echo it.
    Echo(u8),
    /// The last byte was taken off the line; erase it on screen.
    Erase,
    /// The line is complete with this many bytes; move to a new line.
    Submit(usize),
    /// The line was abandoned; it counts as empty.
    Cancel,
}

/// A line being typed: a buffer of fixed size, of which one byte is kept
/// free, and the number of bytes typed so far.
pub struct LineEditor {
    buf: Vec<u8>,
    len: usize,
}

/// The abstract line editor: the buffer and the number of bytes typed.
pub struct LineView {
    pub buf: Seq<u8>,
    pub len: nat,
}

impl View for LineEditor {
    type V = LineView;

    closed spec fn view(&self) -> LineView {
        LineView { buf: self.buf@, len: self.len as nat }
    }
}

/// What typing `c` does: a line end submits the line, backspace or delete
/// takes off the last byte, Ctrl-C abandons the line, and another byte from
/// space up is added while a byte of the buffer is left free.
pub open spec fn feed_spec(s: LineView, c: u8) -> (LineView, LineEvent) {
    if c == 0x0d || c == 0x0a {
        (s, LineEvent::Submit(s.len as usize))
    } else if c == 0x7f || c == 0x08 {
        if s.len > 0 {
            (LineView { len: (s.len - 1) as nat, ..s }, LineEvent::Erase)
        } else {
            (s, LineEvent::Ignored)
        }
    } else if c == 0x03 {
        (s, LineEvent::Cancel)
    } else if c >= 0x20 && s.len + 1 < s.buf.len() {
        (LineView { buf: s.buf.update(s.len as int, c), len: s.len + 1 }, LineEvent::Echo(c))
    } else {
        (s, LineEvent::Ignored)
    }
}

impl LineEditor {
    /// An empty line in a zeroed buffer of `cap` bytes.
    pub fn new(cap: usize) -> (r: Self)
        ensures
            r@.buf == Seq::new(cap as nat, |i: int| 0u8),
            r@.len == 0,
    {
        let mut buf: Vec<u8> = Vec::new();
        let mut i: usize = 0;
        while i < cap
            invariant
                i <= cap,
                buf@ =~= Seq::new(i as nat, |j: int| 0u8),
            decreases cap - i,
        {
            buf.push(0u8);
            i = i + 1;
        }
        LineEditor { buf, len: 0 }
    }

    /// The bytes typed so far.
    pub fn line(&self) -> (r: &[u8])
        requires
            self@.len <= self@.buf.len(),
        ensures
            r@ == self@.buf.subrange(0, self@.len as int),
    {
        vstd::slice::slice_subrange(self.buf.as_slice(), 0, self.len)
    }

    /// Take one typed byte.
    pub fn feed(&mut self, c: u8) -> (r: LineEvent)
        requires
            old(self)@.len <= old(self)@.buf.len(),
            old(self)@.buf.len() >= 1 || c < 0x20 || c == 0x7f,
        ensures
            (final(self)@, r) == feed_spec(old(self)@, c),
            final(self)@.len <= final(self)@.buf.len(),
    {
        if c == 0x0d || c == 0x0a {
            return LineEvent::Submit(self.len);
        }
        if c == 0x7f || c == 0x08 {
            if self.len > 0 {
                self.len = self.len - 1;
                return LineEvent::Erase;
            }
            return LineEvent::Ignored;
        }
        if c == 0x03 {
            return LineEvent::Cancel;
        }
        if c >= 0x20 && self.len < self.buf.len() - 1 {
            let i = self.len;
            self.buf[i] = c;
            self.len = i + 1;
            return LineEvent::Echo(c);
        }
        LineEvent::Ignored
    }
}

/// The bytes the serial line gets for text `s`: each line feed preceded by
/// a carriage return.
pub open spec fn serial_spec(s: Seq<u8>) -> Seq<u8>
    decreases s.len(),
{
    if s.len() == 0 {
        seq![]
    } else {
        serial_spec(s.drop_last()) + (if s.last() == 10u8 { seq![13u8, 10u8] } else { seq![s.last()] })
    }
}

/// The bytes the serial line gets for text `s`.
pub fn serial_bytes(s: &[u8]) -> (r: Vec<u8>)
    ensures
        r@ == serial_spec(s@),
{
    let mut out: Vec<u8> = Vec::new();
    let mut i: usize = 0;
    assert(s@.take(0) =~= seq![]);
    while i < s.len()
        invariant
            i <= s@.len(),
            out@ == serial_spec(s@.take(i as int)),
        decreases s@.len() - i,
    {
        assert(s@.take(i + 1).drop_last() =~= s@.take(i as int));
        let b = s[i];
        if b == 10u8 {
            out.push(13u8);
        }
        out.push(b);
        assert(out@ =~= serial_spec(s@.take(i + 1)));
        i = i + 1;
    }
    assert(s@.take(s@.len() as int) =~= s@);
    out
}

/// The escape sequence that clears the terminal and puts the cursor at the
/// top left.
pub fn clear_screen() -> (r: Vec<u8>)
    ensures
        r@ == "\x1b[2J\x1b[H".spec_bytes(),
{
    let mut out: Vec<u8> = Vec::new();
    push_str(&mut out, "\x1b[2J\x1b[H");
    out
}

/// The escape sequence that puts the terminal's cursor at row `row` and
/// column `col`, both counted from 0.
pub fn move_cursor(row: usize, col: usize) -> (r: Vec<u8>)
    requires
        row < usize::MAX,
        col < usize::MAX,
    ensures
        r@ == "\x1b[".spec_bytes() + decimal((row + 1) as nat) + ";".spec_bytes() + decimal((col + 1) as nat)
            + "H".spec_bytes(),
{
    let mut out: Vec<u8> = Vec::new();
    push_str(&mut out, "\x1b[");
    push_decimal(&mut out, (row + 1) as u64);
    push_str(&mut out, ";");
    push_decimal(&mut out, (col + 1) as u64);
    push_str(&mut out, "H");
    out
}

/// A key, once complete, took at least one read and no more than there were.
pub proof fn lemma_decode_len(state: KeyScan, inputs: Seq<Option<u8>>)
    ensures
        decode_from(state, inputs) matches Some((k, n)) ==> 1 <= n <= inputs.len(),
    decreases inputs.len(),
{
    if inputs.len() > 0 {
        if let KeyStep::More(next) = scan_key_spec(state, inputs[0]) {
            lemma_decode_len(next, inputs.drop_first());
        }
    }
}

/// The keys read one after another from the results of successive reads,
/// each key starting afresh where the one before it ended; a key still
/// incomplete when the results run out is not among them.
pub open spec fn decode_keys(inputs: Seq<Option<u8>>) -> Seq<Key>
    decreases inputs.len(),
{
    match decode_from(KeyScan::Start, inputs) {
        Some((k, n)) => {
            proof {
                lemma_decode_len(KeyScan::Start, inputs);
            }
            seq![k] + decode_keys(inputs.skip(n as int))
        },
        None => Seq::empty(),
    }
}

/// A key read from a byte that is not an escape takes that one byte and is
/// the byte's plain meaning.
pub proof fn law_plain_byte_key(c: u8, rest: Seq<Option<u8>>)
    requires
        c != 0x1b,
    ensures
        decode_from(KeyScan::Start, seq![Some(c)] + rest) == Some((plain_key(c), 1nat)),
{
    assert((seq![Some(c)] + rest)[0] == Some(c));
}

/// Once its first byte has arrived, a key takes at most four reads.
pub proof fn law_key_length(inputs: Seq<Option<u8>>)
    requires
        inputs.len() > 0,
        inputs[0] is Some,
    ensures
        decode_from(KeyScan::Start, inputs) matches Some((k, n)) ==> 1 <= n <= 4,
{
    lemma_key_rest(KeyScan::Esc, inputs.drop_first());
}

/// After the first byte, the rest of a key takes at most three reads after
/// an escape, two after `ESC [`, and one more for the delete key.
proof fn lemma_key_rest(state: KeyScan, inputs: Seq<Option<u8>>)
    requires
        state != KeyScan::Start,
    ensures
        decode_from(state, inputs) matches Some((k, n)) ==> 1 <= n <= (match state {
            KeyScan::Esc => 3nat,
            KeyScan::Csi => 2nat,
            _ => 1nat,
        }),
    decreases inputs.len(),
{
    if inputs.len() > 0 {
        if let KeyStep::More(next) = scan_key_spec(state, inputs[0]) {
            lemma_key_rest(next, inputs.drop_first());
        }
    }
}

/// Typing a byte that is kept and then backspace leaves the line as long
/// as it was.
pub proof fn law_type_then_erase(s: LineView, c: u8)
    requires
        c >= 0x20,
        c != 0x7f,
        s.len + 1 < s.buf.len(),
    ensures
        feed_spec(feed_spec(s, c).0, 0x7f).0.len == s.len,
        feed_spec(s, c).1 == LineEvent::Echo(c),
        feed_spec(feed_spec(s, c).0, 0x7f).1 == LineEvent::Erase,
{
}

/// Only the byte 0x13 reads as Ctrl-S: a key read as Ctrl-S ends with that
/// byte, so input without it never saves in the editor.
pub proof fn law_ctrl_s_byte(state: KeyScan, inputs: Seq<Option<u8>>)
    ensures
        decode_from(state, inputs) matches Some((k, n)) ==> (k == Key::CtrlS ==> 1 <= n <= inputs.len()
            && inputs[n - 1] == Some(0x13u8)),
    decreases inputs.len(),
{
    if inputs.len() > 0 {
        if let KeyStep::More(next) = scan_key_spec(state, inputs[0]) {
            law_ctrl_s_byte(next, inputs.drop_first());
            if let Some((k, n)) = decode_from(next, inputs.drop_first()) {
                if k == Key::CtrlS {
                    assert(inputs.drop_first()[n - 1] == inputs[n as int]);
                }
            }
        }
    }
}

/// Reads without the byte 0x13 give no Ctrl-S key: of the keys read from
/// them one after another, none is Ctrl-S.
pub proof fn law_no_ctrl_s_key(inputs: Seq<Option<u8>>)
    requires
        forall|i: int| 0 <= i < inputs.len() ==> #[trigger] inputs[i] != Some(0x13u8),
    ensures
        forall|i: int| 0 <= i < decode_keys(inputs).len() ==> #[trigger] decode_keys(inputs)[i] != Key::CtrlS,
    decreases inputs.len(),
{
    if let Some((k, n)) = decode_from(KeyScan::Start, inputs) {
        lemma_decode_len(KeyScan::Start, inputs);
        law_ctrl_s_byte(KeyScan::Start, inputs);
        let rest = inputs.skip(n as int);
        assert forall|i: int| 0 <= i < rest.len() implies #[trigger] rest[i] != Some(0x13u8) by {
            assert(rest[i] == inputs[i + n]);
        }
        law_no_ctrl_s_key(rest);
        assert(k != Key::CtrlS) by {
            if k == Key::CtrlS {
                assert(inputs[n - 1] == Some(0x13u8));
            }
        }
        assert forall|i: int| 0 <= i < decode_keys(inputs).len() implies #[trigger] decode_keys(inputs)[i] != Key::CtrlS by {
            assert(decode_keys(inputs) == seq![k] + decode_keys(rest));
            if i > 0 {
                assert(decode_keys(inputs)[i] == decode_keys(rest)[i - 1]);
            }
        }
    }
}

} // verus!
