//! The full-screen text editor: a buffer of at most 64 lines of at most 80
//! bytes, a cursor, a scroll offset, the name of the file being edited and a
//! status message.
use vstd::prelude::*;
use vstd::string::StringSliceAdditionalSpecFns;
use crate::console::{Key, decode_keys, law_no_ctrl_s_key};
use crate::text::{utf8_str, decimal, push_decimal, push_bytes, push_str};
use vstd::utf8::valid_utf8;
use crate::fs::{FileSystem, FsError, FsView, NodeKind, fs_wf, resolve, create_spec, write_spec, fs_error_text, MAX_FILE_SIZE};

verus! {

/// Lines shown on screen at once.
pub const ROWS: usize = 22;

/// Most lines the buffer holds.
pub const MAX_LINES: usize = 64;

/// Longest line, in bytes.
pub const MAX_LINE_LEN: usize = 80;

/// Longest status message and longest file name kept, in bytes.
pub const TEXT_CAP: usize = 64;

/// The editor's state.
pub struct Editor {
    lines: Vec<Vec<u8>>,
    cur_r: usize,
    cur_c: usize,
    offset: usize,
    dirty: bool,
    fname: Vec<u8>,
    fname_valid: bool,
    status: Vec<u8>,
}

/// The abstract editor: the lines, the cursor's row and column, the first
/// row shown, whether there are unsaved changes, the file name (cut to 64
/// bytes, and whether that cut left it readable as text) and the status
/// message.
#[verifier::ext_equal]
pub struct EditorView {
    pub lines: Seq<Seq<u8>>,
    pub cur_r: nat,
    pub cur_c: nat,
    pub offset: nat,
    pub dirty: bool,
    pub fname: Seq<u8>,
    pub fname_valid: bool,
    pub status: Seq<u8>,
}

impl View for Editor {
    type V = EditorView;

    closed spec fn view(&self) -> EditorView {
        EditorView {
            lines: Seq::new(self.lines@.len(), |i: int| self.lines@[i]@),
            cur_r: self.cur_r as nat,
            cur_c: self.cur_c as nat,
            offset: self.offset as nat,
            dirty: self.dirty,
            fname: self.fname@,
            fname_valid: self.fname_valid,
            status: self.status@,
        }
    }
}

/// What every state of the editor keeps: one to 64 lines of at most 80
/// bytes, the cursor on a line and at most at its end, the scroll offset a
/// line index, and short texts.
pub open spec fn ed_wf(e: EditorView) -> bool {
    &&& 1 <= e.lines.len() <= MAX_LINES
    &&& forall|i: int| 0 <= i < e.lines.len() ==> #[trigger] e.lines[i].len() <= MAX_LINE_LEN
    &&& e.cur_r < e.lines.len()
    &&& e.cur_c <= e.lines[e.cur_r as int].len()
    &&& e.offset < MAX_LINES
    &&& e.fname.len() <= TEXT_CAP
    &&& e.status.len() <= TEXT_CAP
}

/// `s` cut to at most `n` bytes.
pub open spec fn trunc(s: Seq<u8>, n: nat) -> Seq<u8> {
    if s.len() <= n {
        s
    } else {
        s.take(n as int)
    }
}

/// Type byte `c` at the cursor, unless the line already holds 79 bytes.
pub open spec fn insert_char_spec(e: EditorView, c: u8) -> EditorView {
    let line = e.lines[e.cur_r as int];
    if line.len() >= MAX_LINE_LEN - 1 {
        e
    } else {
        EditorView {
            lines: e.lines.update(e.cur_r as int, line.insert(e.cur_c as int, c)),
            cur_c: e.cur_c + 1,
            dirty: true,
            ..e
        }
    }
}

/// Break the line at the cursor, unless the buffer is full; the cursor
/// goes to the start of the new line.
pub open spec fn insert_newline_spec(e: EditorView) -> EditorView {
    if e.lines.len() >= MAX_LINES {
        e
    } else {
        let r = e.cur_r as int;
        let line = e.lines[r];
        EditorView {
            lines: e.lines.take(r) + seq![line.take(e.cur_c as int), line.skip(e.cur_c as int)] + e.lines.skip(r + 1),
            cur_r: e.cur_r + 1,
            cur_c: 0,
            dirty: true,
            ..e
        }
    }
}

/// Backspace: remove the byte before the cursor, or at the start of a line
/// join it to the line above if the two fit in one line.
pub open spec fn delete_back_spec(e: EditorView) -> EditorView {
    let r = e.cur_r as int;
    let line = e.lines[r];
    if e.cur_c > 0 {
        EditorView {
            lines: e.lines.update(r, line.remove(e.cur_c - 1)),
            cur_c: (e.cur_c - 1) as nat,
            dirty: true,
            ..e
        }
    } else if e.cur_r > 0 {
        let prev = e.lines[r - 1];
        if prev.len() + line.len() <= MAX_LINE_LEN {
            EditorView {
                lines: e.lines.take(r - 1) + seq![prev + line] + e.lines.skip(r + 1),
                cur_r: (e.cur_r - 1) as nat,
                cur_c: prev.len(),
                dirty: true,
                ..e
            }
        } else {
            e
        }
    } else {
        e
    }
}

/// Delete: remove the byte at the cursor, or at the end of a line join the
/// next line to it if the two fit in one line.
pub open spec fn delete_forward_spec(e: EditorView) -> EditorView {
    let r = e.cur_r as int;
    let line = e.lines[r];
    if e.cur_c < line.len() {
        EditorView { lines: e.lines.update(r, line.remove(e.cur_c as int)), dirty: true, ..e }
    } else if e.cur_r + 1 < e.lines.len() {
        let next = e.lines[r + 1];
        if line.len() + next.len() <= MAX_LINE_LEN {
            EditorView { lines: e.lines.take(r) + seq![line + next] + e.lines.skip(r + 2), dirty: true, ..e }
        } else {
            e
        }
    } else {
        e
    }
}

/// Move the first row shown so that the cursor's row is on screen.
pub open spec fn scroll_spec(e: EditorView) -> EditorView {
    let off1 = if e.cur_r < e.offset { e.cur_r } else { e.offset };
    let off2 = if e.cur_r >= off1 + ROWS { (e.cur_r - ROWS + 1) as nat } else { off1 };
    EditorView { offset: off2, ..e }
}

/// Where the last line of `p` starts: just after its last line feed.
pub open spec fn line_start(p: Seq<u8>) -> nat
    decreases p.len(),
{
    if p.len() == 0 {
        0
    } else if p.last() == 10u8 {
        p.len()
    } else {
        line_start(p.drop_last())
    }
}

/// The lines of `p` that a line feed ends, without their line feeds.
pub open spec fn complete_lines(p: Seq<u8>) -> Seq<Seq<u8>>
    decreases p.len(),
{
    if p.len() == 0 {
        seq![]
    } else if p.last() == 10u8 {
        let q = p.drop_last();
        complete_lines(q).push(q.subrange(line_start(q) as int, q.len() as int))
    } else {
        complete_lines(p.drop_last())
    }
}

/// The buffer that file content `d` loads into: its lines cut to 80 bytes,
/// at most 64 of them, an unterminated last line kept, and one empty line
/// when there is nothing else.
pub open spec fn load_lines(d: Seq<u8>) -> Seq<Seq<u8>> {
    let cl = complete_lines(d).map_values(|l: Seq<u8>| trunc(l, MAX_LINE_LEN as nat));
    if cl.len() >= MAX_LINES {
        cl.take(MAX_LINES as int)
    } else {
        let t = d.subrange(line_start(d) as int, d.len() as int);
        let ls = if t.len() > 0 { cl.push(trunc(t, MAX_LINE_LEN as nat)) } else { cl };
        if ls.len() == 0 { seq![seq![]] } else { ls }
    }
}

/// The file content the buffer saves as: each line followed by a line feed.
pub open spec fn serialize(lines: Seq<Seq<u8>>) -> Seq<u8>
    decreases lines.len(),
{
    if lines.len() == 0 {
        seq![]
    } else {
        serialize(lines.drop_last()) + lines.last() + seq![10u8]
    }
}

/// The status text shown for a refused save.
pub open spec fn error_status(e: FsError) -> Seq<u8> {
    trunc("Error: ".spec_bytes() + vstd::utf8::encode_utf8(fs_error_text(e)), TEXT_CAP as nat)
}

/// Save the buffer to its file, creating the file if its name names
/// nothing: refused with a status message when the text exceeds the file
/// size limit; a file name that the cut to 64 bytes left unreadable saves
/// under the empty path. On success the buffer counts as saved.
pub open spec fn save_spec(e: EditorView, fs: FsView) -> (EditorView, FsView) {
    let data = serialize(e.lines);
    if data.len() > MAX_FILE_SIZE {
        (EditorView { status: trunc("File too large!".spec_bytes(), TEXT_CAP as nat), ..e }, fs)
    } else {
        let name = if e.fname_valid { e.fname } else { seq![] };
        let fs1 = if resolve(fs, name) is Ok { fs } else { create_spec(fs, name, NodeKind::File).0 };
        let (fs2, r) = write_spec(fs1, name, data);
        match r {
            Ok(_) => (EditorView { dirty: false, status: trunc("Saved.".spec_bytes(), TEXT_CAP as nat), ..e }, fs2),
            Err(err) => (EditorView { status: error_status(err), ..e }, fs2),
        }
    }
}

/// What a key does: the status message is cleared first; Ctrl-Q ends the
/// session (the `bool`), Ctrl-S saves, the arrows, Home and End move the
/// cursor (keeping it within its line), Enter, Backspace and Delete edit,
/// and a printable byte is typed; other keys do nothing.
pub open spec fn key_spec(e0: EditorView, fs: FsView, key: Key) -> (EditorView, FsView, bool) {
    let e = EditorView { status: seq![], ..e0 };
    let r = e.cur_r;
    match key {
        Key::CtrlQ => (e, fs, true),
        Key::CtrlS => {
            let (e2, fs2) = save_spec(e, fs);
            (e2, fs2, false)
        },
        Key::Up => if r > 0 {
            let l = e.lines[r - 1].len();
            (EditorView { cur_r: (r - 1) as nat, cur_c: if e.cur_c < l { e.cur_c } else { l }, ..e }, fs, false)
        } else {
            (e, fs, false)
        },
        Key::Down => if r + 1 < e.lines.len() {
            let l = e.lines[r as int + 1].len();
            (EditorView { cur_r: r + 1, cur_c: if e.cur_c < l { e.cur_c } else { l }, ..e }, fs, false)
        } else {
            (e, fs, false)
        },
        Key::Left => if e.cur_c > 0 {
            (EditorView { cur_c: (e.cur_c - 1) as nat, ..e }, fs, false)
        } else {
            (e, fs, false)
        },
        Key::Right => if e.cur_c < e.lines[r as int].len() {
            (EditorView { cur_c: e.cur_c + 1, ..e }, fs, false)
        } else {
            (e, fs, false)
        },
        Key::Home => (EditorView { cur_c: 0, ..e }, fs, false),
        Key::End => (EditorView { cur_c: e.lines[r as int].len(), ..e }, fs, false),
        Key::Enter => (insert_newline_spec(e), fs, false),
        Key::Backspace => (delete_back_spec(e), fs, false),
        Key::Delete => (delete_forward_spec(e), fs, false),
        Key::Char(c) => if 0x20 <= c < 0x7f {
            (insert_char_spec(e, c), fs, false)
        } else {
            (e, fs, false)
        },
    }
}

/// The editor opened on the file named by the bytes `f`: an empty buffer
/// at the top, unless `f` names a file, whose content is loaded.
pub open spec fn open_spec(fs: FsView, f: Seq<u8>, valid: bool) -> EditorView {
    let lines = match resolve(fs, f) {
        Ok(i) => if fs.nodes[i as int].kind == NodeKind::File {
            load_lines(trunc(fs.nodes[i as int].data, MAX_FILE_SIZE as nat))
        } else {
            seq![seq![]]
        },
        Err(_) => seq![seq![]],
    };
    EditorView {
        lines: lines,
        cur_r: 0,
        cur_c: 0,
        offset: 0,
        dirty: false,
        fname: trunc(f, TEXT_CAP as nat),
        fname_valid: valid,
        status: seq![],
    }
}

pub proof fn lemma_line_start_bound(p: Seq<u8>)
    ensures
        line_start(p) <= p.len(),
    decreases p.len(),
{
    if p.len() > 0 && p.last() != 10u8 {
        lemma_line_start_bound(p.drop_last());
    }
}

/// Taking one more byte of `d`.
pub proof fn lemma_lines_step(d: Seq<u8>, i: int)
    requires
        0 <= i < d.len(),
    ensures
        d.take(i + 1).drop_last() =~= d.take(i),
        d.take(i + 1).last() == d[i],
        d[i] == 10u8 ==> line_start(d.take(i + 1)) == i + 1,
        d[i] == 10u8 ==> complete_lines(d.take(i + 1)) == complete_lines(d.take(i)).push(
            d.subrange(line_start(d.take(i)) as int, i),
        ),
        d[i] != 10u8 ==> line_start(d.take(i + 1)) == line_start(d.take(i)),
        d[i] != 10u8 ==> complete_lines(d.take(i + 1)) == complete_lines(d.take(i)),
{
    assert(d.take(i + 1).drop_last() =~= d.take(i));
    lemma_line_start_bound(d.take(i));
    assert(d.take(i).subrange(line_start(d.take(i)) as int, i) =~= d.subrange(line_start(d.take(i)) as int, i));
}

/// The complete lines of a prefix of `d` start the complete lines of `d`.
pub proof fn lemma_complete_lines_prefix(d: Seq<u8>, j: int)
    requires
        0 <= j <= d.len(),
    ensures
        complete_lines(d.take(j)).len() <= complete_lines(d).len(),
        forall|k: int| 0 <= k < complete_lines(d.take(j)).len() ==> #[trigger] complete_lines(d.take(j))[k]
            == complete_lines(d)[k],
    decreases d.len() - j,
{
    if j < d.len() {
        lemma_lines_step(d, j);
        lemma_complete_lines_prefix(d, j + 1);
        let a = complete_lines(d.take(j));
        let b = complete_lines(d.take(j + 1));
        assert forall|k: int| 0 <= k < a.len() implies #[trigger] a[k] == complete_lines(d)[k] by {
            assert(a[k] == b[k]);
        }
    } else {
        assert(d.take(j) =~= d);
    }
}

pub proof fn lemma_serialize_len_prefix(lines: Seq<Seq<u8>>, i: int)
    requires
        0 <= i <= lines.len(),
    ensures
        serialize(lines.take(i)).len() <= serialize(lines).len(),
    decreases lines.len() - i,
{
    if i < lines.len() {
        assert(lines.take(i + 1).drop_last() =~= lines.take(i));
        lemma_serialize_len_prefix(lines, i + 1);
    } else {
        assert(lines.take(i) =~= lines);
    }
}

/// `a` followed by `b`, both copied.
fn concat_bytes(a: &[u8], b: &[u8]) -> (r: Vec<u8>)
    ensures
        r@ == a@ + b@,
{
    let mut r = vstd::slice::slice_to_vec(a);
    let mut i: usize = 0;
    while i < b.len()
        invariant
            i <= b@.len(),
            r@ =~= a@ + b@.take(i as int),
        decreases b@.len() - i,
    {
        r.push(b[i]);
        i = i + 1;
    }
    assert(b@.take(b@.len() as int) =~= b@);
    r
}

/// The first `n` bytes of `a`, or all of them when there are fewer.
fn prefix(a: &[u8], n: usize) -> (r: Vec<u8>)
    ensures
        r@ == trunc(a@, n as nat),
{
    let len = if a.len() < n { a.len() } else { n };
    let r = vstd::slice::slice_to_vec(vstd::slice::slice_subrange(a, 0, len));
    assert(r@ =~= trunc(a@, n as nat));
    r
}

/// The status text for a refused save: `Error: ` and the error's text.
pub fn format_err(e: &FsError) -> (r: Vec<u8>)
    ensures
        r@ == "Error: ".spec_bytes() + vstd::utf8::encode_utf8(fs_error_text(*e)),
{
    concat_bytes("Error: ".as_bytes(), e.message().as_bytes())
}


impl Editor {
    /// Type byte `c` at the cursor.
    pub fn insert_char(&mut self, c: u8)
        requires
            ed_wf(old(self)@),
        ensures
            final(self)@ == insert_char_spec(old(self)@, c),
            ed_wf(final(self)@),
    {
        let r = self.cur_r;
        let len = self.lines[r].len();
        if len >= MAX_LINE_LEN - 1 {
            return;
        }
        let col = self.cur_c;
        self.lines[r].insert(col, c);
        self.cur_c = col + 1;
        self.dirty = true;
        assert(self@ =~= insert_char_spec(old(self)@, c));
        assert forall|i: int| 0 <= i < self@.lines.len() implies #[trigger] self@.lines[i].len() <= MAX_LINE_LEN by {
            if i != r {
                assert(self@.lines[i] == old(self)@.lines[i]);
            }
        }
    }

    /// Break the line at the cursor.
    pub fn insert_newline(&mut self)
        requires
            ed_wf(old(self)@),
        ensures
            final(self)@ == insert_newline_spec(old(self)@),
            ed_wf(final(self)@),
    {
        if self.lines.len() >= MAX_LINES {
            return;
        }
        let r = self.cur_r;
        let col = self.cur_c;
        let tail = self.lines[r].split_off(col);
        self.lines.insert(r + 1, tail);
        self.cur_r = r + 1;
        self.cur_c = 0;
        self.dirty = true;
        let ghost e = old(self)@;
        let ghost line = e.lines[r as int];
        assert(self@.lines =~= e.lines.take(r as int) + seq![line.take(col as int), line.skip(col as int)]
            + e.lines.skip(r + 1));
        assert(self@ =~= insert_newline_spec(e));
        assert forall|i: int| 0 <= i < self@.lines.len() implies #[trigger] self@.lines[i].len() <= MAX_LINE_LEN by {
            if i < r {
                assert(self@.lines[i] == e.lines[i]);
            } else if i > r + 1 {
                assert(self@.lines[i] == e.lines[i - 1]);
            }
        }
    }

    /// Backspace.
    pub fn delete_back(&mut self)
        requires
            ed_wf(old(self)@),
        ensures
            final(self)@ == delete_back_spec(old(self)@),
            ed_wf(final(self)@),
    {
        let ghost e = old(self)@;
        let r = self.cur_r;
        if self.cur_c > 0 {
            let col = self.cur_c;
            self.lines[r].remove(col - 1);
            self.cur_c = col - 1;
            self.dirty = true;
            assert(self@ =~= delete_back_spec(e));
            assert forall|i: int| 0 <= i < self@.lines.len() implies #[trigger] self@.lines[i].len() <= MAX_LINE_LEN by {
                if i != r {
                    assert(self@.lines[i] == e.lines[i]);
                }
            }
        } else if r > 0 {
            let prev_len = self.lines[r - 1].len();
            let cur_len = self.lines[r].len();
            assert(e.lines[r - 1].len() <= MAX_LINE_LEN && e.lines[r as int].len() <= MAX_LINE_LEN);
            if prev_len + cur_len <= MAX_LINE_LEN {
                let mut cur = self.lines.remove(r);
                self.lines[r - 1].append(&mut cur);
                self.cur_r = r - 1;
                self.cur_c = prev_len;
                self.dirty = true;
                assert(self@.lines =~= e.lines.take(r - 1) + seq![e.lines[r - 1] + e.lines[r as int]]
                    + e.lines.skip(r + 1));
                assert(self@ =~= delete_back_spec(e));
                assert forall|i: int| 0 <= i < self@.lines.len() implies #[trigger] self@.lines[i].len() <= MAX_LINE_LEN by {
                    if i < r - 1 {
                        assert(self@.lines[i] == e.lines[i]);
                    } else if i > r - 1 {
                        assert(self@.lines[i] == e.lines[i + 1]);
                    }
                }
            }
        }
    }

    /// Delete.
    pub fn delete_forward(&mut self)
        requires
            ed_wf(old(self)@),
        ensures
            final(self)@ == delete_forward_spec(old(self)@),
            ed_wf(final(self)@),
    {
        let ghost e = old(self)@;
        let r = self.cur_r;
        let len = self.lines[r].len();
        if self.cur_c < len {
            let col = self.cur_c;
            self.lines[r].remove(col);
            self.dirty = true;
            assert(self@ =~= delete_forward_spec(e));
            assert forall|i: int| 0 <= i < self@.lines.len() implies #[trigger] self@.lines[i].len() <= MAX_LINE_LEN by {
                if i != r {
                    assert(self@.lines[i] == e.lines[i]);
                }
            }
        } else if r + 1 < self.lines.len() {
            let next_len = self.lines[r + 1].len();
            assert(e.lines[r + 1].len() <= MAX_LINE_LEN && e.lines[r as int].len() <= MAX_LINE_LEN);
            if len + next_len <= MAX_LINE_LEN {
                let mut next = self.lines.remove(r + 1);
                self.lines[r].append(&mut next);
                self.dirty = true;
                assert(self@.lines =~= e.lines.take(r as int) + seq![e.lines[r as int] + e.lines[r + 1]]
                    + e.lines.skip(r + 2));
                assert(self@ =~= delete_forward_spec(e));
                assert forall|i: int| 0 <= i < self@.lines.len() implies #[trigger] self@.lines[i].len() <= MAX_LINE_LEN by {
                    if i < r {
                        assert(self@.lines[i] == e.lines[i]);
                    } else if i > r {
                        assert(self@.lines[i] == e.lines[i + 1]);
                    }
                }
            }
        }
    }

    /// Bring the cursor's row on screen.
    pub fn scroll(&mut self)
        requires
            ed_wf(old(self)@),
        ensures
            final(self)@ == scroll_spec(old(self)@),
            ed_wf(final(self)@),
            final(self)@.offset <= final(self)@.cur_r < final(self)@.offset + ROWS,
    {
        if self.cur_r < self.offset {
            self.offset = self.cur_r;
        }
        if self.cur_r >= self.offset + ROWS {
            self.offset = self.cur_r - ROWS + 1;
        }
        assert(self@ =~= scroll_spec(old(self)@));
    }
}

/// The byte strings held in a vector of vectors.
pub open spec fn lines_view(v: Seq<Vec<u8>>) -> Seq<Seq<u8>> {
    Seq::new(v.len(), |k: int| v[k]@)
}

/// The buffer that file content `data` loads into.
pub fn load_content(data: &[u8]) -> (r: Vec<Vec<u8>>)
    ensures
        lines_view(r@) == load_lines(data@),
{
    let ghost d = data@;
    let len = data.len();
    let mut lines: Vec<Vec<u8>> = Vec::new();
    let mut start: usize = 0;
    let mut i: usize = 0;
    assert(d.take(0) =~= seq![]);
    assert(lines_view(lines@) =~= complete_lines(d.take(0)).map_values(|l: Seq<u8>| trunc(l, MAX_LINE_LEN as nat)));
    while i < len
        invariant
            len == d.len(),
            d == data@,
            i <= len,
            lines_view(lines@) == complete_lines(d.take(i as int)).map_values(|l: Seq<u8>| trunc(l, MAX_LINE_LEN as nat)),
            start == line_start(d.take(i as int)),
            start <= i,
            lines@.len() < MAX_LINES,
        decreases len - i,
    {
        proof {
            lemma_lines_step(d, i as int);
            lemma_line_start_bound(d.take(i as int));
        }
        if data[i] == 10u8 {
            let l = if i - start < MAX_LINE_LEN { i - start } else { MAX_LINE_LEN };
            let line = vstd::slice::slice_to_vec(vstd::slice::slice_subrange(data, start, start + l));
            let ghost seg = d.subrange(start as int, i as int);
            assert(line@ =~= trunc(seg, MAX_LINE_LEN as nat));
            let ghost old_lines = lines@;
            lines.push(line);
            proof {
                let f = |l: Seq<u8>| trunc(l, MAX_LINE_LEN as nat);
                assert(complete_lines(d.take(i + 1)) == complete_lines(d.take(i as int)).push(seg));
                assert(complete_lines(d.take(i as int)).push(seg).map_values(f) =~= complete_lines(d.take(i as int)).map_values(f).push(f(seg)));
                assert(lines_view(lines@) =~= lines_view(old_lines).push(line@));
            }
            assert(lines_view(lines@) =~= complete_lines(d.take(i + 1)).map_values(|l: Seq<u8>| trunc(l, MAX_LINE_LEN as nat)));
            start = i + 1;
            if lines.len() >= MAX_LINES {
                proof {
                    lemma_complete_lines_prefix(d, i + 1);
                    let cl = complete_lines(d).map_values(|l: Seq<u8>| trunc(l, MAX_LINE_LEN as nat));
                    let pre = complete_lines(d.take(i + 1));
                    assert forall|k: int| 0 <= k < MAX_LINES implies #[trigger] lines_view(lines@)[k] == cl.take(MAX_LINES as int)[k] by {
                        assert(pre[k] == complete_lines(d)[k]);
                    }
                    assert(lines_view(lines@) =~= cl.take(MAX_LINES as int));
                }
                return lines;
            }
        }
        i = i + 1;
    }
    assert(d.take(len as int) =~= d);
    if start < len {
        let l = if len - start < MAX_LINE_LEN { len - start } else { MAX_LINE_LEN };
        let line = vstd::slice::slice_to_vec(vstd::slice::slice_subrange(data, start, start + l));
        assert(line@ =~= trunc(d.subrange(start as int, len as int), MAX_LINE_LEN as nat));
        lines.push(line);
    }
    if lines.len() == 0 {
        lines.push(Vec::new());
    }
    assert(lines_view(lines@) =~= load_lines(d));
    lines
}

impl Editor {
    /// Show `msg`, cut to 64 bytes, as the status message.
    pub fn set_status(&mut self, msg: &[u8])
        requires
            ed_wf(old(self)@),
        ensures
            final(self)@ == (EditorView { status: trunc(msg@, TEXT_CAP as nat), ..old(self)@ }),
            ed_wf(final(self)@),
    {
        self.status = prefix(msg, TEXT_CAP);
        assert(self@ =~= (EditorView { status: trunc(msg@, TEXT_CAP as nat), ..old(self)@ }));
    }

    /// Save the buffer to its file.
    pub fn save(&mut self, fs: &mut FileSystem)
        requires
            ed_wf(old(self)@),
            fs_wf(old(fs)@),
        ensures
            (final(self)@, final(fs)@) == save_spec(old(self)@, old(fs)@),
            ed_wf(final(self)@),
            fs_wf(final(fs)@),
    {
        let ghost e = self@;
        let n = self.lines.len();
        let mut buf: Vec<u8> = Vec::new();
        let mut i: usize = 0;
        assert(e.lines.take(0) =~= seq![]);
        while i < n
            invariant
                e == self@,
                e == old(self)@,
                fs@ == old(fs)@,
                fs_wf(fs@),
                ed_wf(e),
                n == e.lines.len(),
                i <= n,
                buf@ == serialize(e.lines.take(i as int)),
                buf@.len() <= MAX_FILE_SIZE,
            decreases n - i,
        {
            assert(e.lines.take(i + 1).drop_last() =~= e.lines.take(i as int));
            let len = self.lines[i].len();
            assert(e.lines[i as int].len() <= MAX_LINE_LEN);
            if buf.len() + len + 1 > MAX_FILE_SIZE {
                proof {
                    lemma_serialize_len_prefix(e.lines, i + 1);
                }
                self.set_status("File too large!".as_bytes());
                return;
            }
            let mut k: usize = 0;
            while k < len
                invariant
                    e == self@,
                    i < n,
                    n == e.lines.len(),
                    len == e.lines[i as int].len(),
                    k <= len,
                    buf@ =~= serialize(e.lines.take(i as int)) + e.lines[i as int].take(k as int),
                decreases len - k,
            {
                buf.push(self.lines[i][k]);
                k = k + 1;
            }
            buf.push(10u8);
            assert(e.lines[i as int].take(len as int) =~= e.lines[i as int]);
            assert(buf@ =~= serialize(e.lines.take(i + 1)));
            i = i + 1;
        }
        assert(e.lines.take(n as int) =~= e.lines);
        let name: Vec<u8> = if self.fname_valid { vstd::slice::slice_to_vec(self.fname.as_slice()) } else { Vec::new() };
        assert(name@ =~= (if e.fname_valid { e.fname } else { seq![] }));
        if !fs.exists_bytes(name.as_slice()) {
            let _ = fs.create_file_bytes(name.as_slice());
        }
        match fs.write_file_bytes(name.as_slice(), buf.as_slice()) {
            Ok(()) => {
                self.dirty = false;
                self.set_status("Saved.".as_bytes());
            },
            Err(err) => {
                let msg = format_err(&err);
                self.set_status(msg.as_slice());
            },
        }
    }

    /// Take one key; returns whether the session ends.
    pub fn handle_key(&mut self, key: Key, fs: &mut FileSystem) -> (quit: bool)
        requires
            ed_wf(old(self)@),
            fs_wf(old(fs)@),
        ensures
            (final(self)@, final(fs)@, quit) == key_spec(old(self)@, old(fs)@, key),
            ed_wf(final(self)@),
            fs_wf(final(fs)@),
    {
        self.status = Vec::new();
        let ghost e = self@;
        assert(e =~= (EditorView { status: seq![], ..old(self)@ }));
        let r = self.cur_r;
        match key {
            Key::CtrlQ => {
                return true;
            },
            Key::CtrlS => {
                self.save(fs);
            },
            Key::Up => {
                if r > 0 {
                    let l = self.lines[r - 1].len();
                    self.cur_r = r - 1;
                    if self.cur_c > l {
                        self.cur_c = l;
                    }
                }
            },
            Key::Down => {
                if r + 1 < self.lines.len() {
                    let l = self.lines[r + 1].len();
                    self.cur_r = r + 1;
                    if self.cur_c > l {
                        self.cur_c = l;
                    }
                }
            },
            Key::Left => {
                if self.cur_c > 0 {
                    self.cur_c = self.cur_c - 1;
                }
            },
            Key::Right => {
                if self.cur_c < self.lines[r].len() {
                    self.cur_c = self.cur_c + 1;
                }
            },
            Key::Home => {
                self.cur_c = 0;
            },
            Key::End => {
                self.cur_c = self.lines[r].len();
            },
            Key::Enter => {
                self.insert_newline();
            },
            Key::Backspace => {
                self.delete_back();
            },
            Key::Delete => {
                self.delete_forward();
            },
            Key::Char(c) => {
                if c >= 0x20 && c < 0x7f {
                    self.insert_char(c);
                }
            },
        }
        assert(self@ =~= key_spec(old(self)@, old(fs)@, key).0);
        false
    }

    /// The editor opened on the file `filename`; `None` when no name is given.
    pub fn open(fs: &FileSystem, filename: &str) -> (r: Option<Editor>)
        requires
            fs_wf(fs@),
        ensures
            filename@.len() == 0 <==> r is None,
            r matches Some(ed) ==> ed@ == open_spec(fs@, filename.spec_bytes(),
                filename.spec_bytes().len() <= TEXT_CAP || vstd::utf8::is_char_boundary(filename.spec_bytes(), TEXT_CAP as int))
                && ed_wf(ed@),
    {
        if filename.is_empty() {
            return None;
        }
        let bytes = filename.as_bytes();
        let valid = bytes.len() <= TEXT_CAP || filename.is_char_boundary(TEXT_CAP);
        let mut lines: Vec<Vec<u8>> = Vec::new();
        lines.push(Vec::new());
        let ghost f = filename.spec_bytes();
        let ghost expect = match resolve(fs@, f) {
            Ok(i) => if fs@.nodes[i as int].kind == NodeKind::File {
                load_lines(trunc(fs@.nodes[i as int].data, MAX_FILE_SIZE as nat))
            } else {
                seq![seq![]]
            },
            Err(_) => seq![seq![]],
        };
        assert(lines_view(lines@) =~= seq![seq![]]);
        if fs.exists_bytes(bytes) && !fs.is_directory_bytes(bytes) {
            match fs.read_file_bytes(bytes, MAX_FILE_SIZE) {
                Ok(data) => {
                    let ghost nd = fs@.nodes[resolve(fs@, f)->Ok_0 as int].data;
                    assert(data@ =~= trunc(nd, MAX_FILE_SIZE as nat));
                    lines = load_content(data.as_slice());
                },
                Err(_) => {},
            }
        }
        assert(lines_view(lines@) == expect);
        let ed = Editor {
            lines,
            cur_r: 0,
            cur_c: 0,
            offset: 0,
            dirty: false,
            fname: prefix(bytes, TEXT_CAP),
            fname_valid: valid,
            status: Vec::new(),
        };
        assert(ed@ =~= open_spec(fs@, filename.spec_bytes(), valid));
        Some(ed)
    }

    /// The number of lines.
    pub fn line_count(&self) -> (n: usize)
        ensures
            n == self@.lines.len(),
    {
        self.lines.len()
    }

    /// The bytes of line `r`.
    pub fn line(&self, r: usize) -> (l: &[u8])
        requires
            r < self@.lines.len(),
        ensures
            l@ == self@.lines[r as int],
    {
        self.lines[r].as_slice()
    }

    /// The cursor's row and column.
    pub fn cursor(&self) -> (rc: (usize, usize))
        ensures
            rc.0 == self@.cur_r,
            rc.1 == self@.cur_c,
    {
        (self.cur_r, self.cur_c)
    }

    /// The first row shown.
    pub fn offset(&self) -> (o: usize)
        ensures
            o == self@.offset,
    {
        self.offset
    }

    /// Whether there are unsaved changes.
    pub fn is_dirty(&self) -> (d: bool)
        ensures
            d == self@.dirty,
    {
        self.dirty
    }

    /// The file name, cut to 64 bytes, and whether it is readable as text.
    pub fn file_name(&self) -> (n: (&[u8], bool))
        ensures
            n.0@ == self@.fname,
            n.1 == self@.fname_valid,
    {
        (self.fname.as_slice(), self.fname_valid)
    }

    /// The status message.
    pub fn status(&self) -> (m: &[u8])
        ensures
            m@ == self@.status,
    {
        self.status.as_slice()
    }
}

/// Bytes shown as text: themselves when they are valid UTF-8, else nothing.
pub open spec fn shown(b: Seq<u8>) -> Seq<u8> {
    if valid_utf8(b) {
        b
    } else {
        seq![]
    }
}

/// One screen row for buffer line `fr`: the line, or `~` past the end.
pub open spec fn row_text(e: EditorView, fr: int) -> Seq<u8> {
    "\x1b[K".spec_bytes() + (if fr < e.lines.len() { shown(e.lines[fr]) } else { "~".spec_bytes() })
        + "\r\n".spec_bytes()
}

/// The first `k` screen rows.
pub open spec fn rows_text(e: EditorView, k: nat) -> Seq<u8>
    decreases k,
{
    if k == 0 {
        seq![]
    } else {
        rows_text(e, (k - 1) as nat) + row_text(e, e.offset + k - 1)
    }
}

/// The status bar: the file name (or `new`), a mark for unsaved changes,
/// the cursor's line and the line count, and the status message.
pub open spec fn status_bar(e: EditorView) -> Seq<u8> {
    let name = if valid_utf8(e.fname) { e.fname } else { "new".spec_bytes() };
    let marker = if e.dirty { " [+]".spec_bytes() } else { seq![] };
    let msg = if e.status.len() > 0 { "  ".spec_bytes() + shown(e.status) } else { seq![] };
    "\x1b[7m\x1b[K".spec_bytes() + " ".spec_bytes() + name + marker + " | L".spec_bytes() + decimal(e.cur_r + 1)
        + "/".spec_bytes() + decimal(e.lines.len()) + msg + "\x1b[0m\r\n".spec_bytes()
}

/// What a redraw sends to the terminal, after the view is scrolled to the
/// cursor: the rows from the first one shown, the status bar, the key help,
/// and the cursor placed on screen.
pub open spec fn render_spec(e0: EditorView) -> Seq<u8> {
    let e = scroll_spec(e0);
    "\x1b[H".spec_bytes() + rows_text(e, ROWS as nat) + status_bar(e) + "\x1b[K ^S Save  ^Q Quit".spec_bytes()
        + "\x1b[".spec_bytes() + decimal((e.cur_r - e.offset + 1) as nat) + ";".spec_bytes() + decimal(e.cur_c + 1)
        + "H".spec_bytes()
}

impl Editor {
    /// Append `b` if it is valid UTF-8.
    fn push_shown(out: &mut Vec<u8>, b: &[u8])
        ensures
            final(out)@ == old(out)@ + shown(b@),
    {
        match utf8_str(b) {
            Some(_) => push_bytes(out, b),
            None => {
                assert(old(out)@ + shown(b@) =~= old(out)@);
            },
        }
    }

    /// The screen rows from the first one shown.
    fn rows_bytes(&self) -> (out: Vec<u8>)
        requires
            ed_wf(self@),
        ensures
            out@ == rows_text(self@, ROWS as nat),
    {
        let ghost e = self@;
        let mut out: Vec<u8> = Vec::new();
        let mut sr: usize = 0;
        while sr < ROWS
            invariant
                e == self@,
                ed_wf(e),
                sr <= ROWS,
                out@ == rows_text(e, sr as nat),
            decreases ROWS - sr,
        {
            let fr = self.offset + sr;
            let ghost before = out@;
            push_str(&mut out, "\x1b[K");
            if fr < self.lines.len() {
                Self::push_shown(&mut out, self.lines[fr].as_slice());
            } else {
                push_str(&mut out, "~");
            }
            push_str(&mut out, "\r\n");
            assert(out@ =~= before + row_text(e, fr as int));
            sr = sr + 1;
        }
        out
    }

    /// The status bar.
    fn status_bytes(&self) -> (out: Vec<u8>)
        requires
            ed_wf(self@),
        ensures
            out@ == status_bar(self@),
    {
        let mut out: Vec<u8> = Vec::new();
        push_str(&mut out, "\x1b[7m\x1b[K");
        push_str(&mut out, " ");
        match utf8_str(self.fname.as_slice()) {
            Some(_) => push_bytes(&mut out, self.fname.as_slice()),
            None => push_str(&mut out, "new"),
        }
        if self.dirty {
            push_str(&mut out, " [+]");
        }
        push_str(&mut out, " | L");
        push_decimal(&mut out, (self.cur_r + 1) as u64);
        push_str(&mut out, "/");
        push_decimal(&mut out, self.lines.len() as u64);
        let ghost before_msg = out@;
        if self.status.len() > 0 {
            push_str(&mut out, "  ");
            Self::push_shown(&mut out, self.status.as_slice());
        }
        push_str(&mut out, "\x1b[0m\r\n");
        assert(out@ =~= status_bar(self@));
        out
    }

    /// Scroll to the cursor and produce the bytes that redraw the screen.
    pub fn render(&mut self) -> (out: Vec<u8>)
        requires
            ed_wf(old(self)@),
        ensures
            final(self)@ == scroll_spec(old(self)@),
            ed_wf(final(self)@),
            out@ == render_spec(old(self)@),
    {
        self.scroll();
        let mut out: Vec<u8> = Vec::new();
        push_str(&mut out, "\x1b[H");
        let rows = self.rows_bytes();
        push_bytes(&mut out, rows.as_slice());
        let bar = self.status_bytes();
        push_bytes(&mut out, bar.as_slice());
        push_str(&mut out, "\x1b[K ^S Save  ^Q Quit");
        push_str(&mut out, "\x1b[");
        push_decimal(&mut out, (self.cur_r - self.offset + 1) as u64);
        push_str(&mut out, ";");
        push_decimal(&mut out, (self.cur_c + 1) as u64);
        push_str(&mut out, "H");
        assert(out@ =~= render_spec(old(self)@));
        out
    }
}

/// Typing a byte and then backspace gives back the buffer: the same lines
/// and cursor (the buffer stays marked as changed).
pub proof fn law_type_then_backspace(e: EditorView, c: u8)
    requires
        ed_wf(e),
        e.lines[e.cur_r as int].len() < MAX_LINE_LEN - 1,
    ensures
        delete_back_spec(insert_char_spec(e, c)) == (EditorView { dirty: true, ..e }),
{
    let line = e.lines[e.cur_r as int];
    assert(line.insert(e.cur_c as int, c).remove(e.cur_c as int) =~= line);
    assert(e.lines.update(e.cur_r as int, line) =~= e.lines);
}

/// Enter and then backspace give back the buffer: the line broken at the
/// cursor is joined again and the cursor returns (the buffer stays marked
/// as changed).
pub proof fn law_enter_then_backspace(e: EditorView)
    requires
        ed_wf(e),
        e.lines.len() < MAX_LINES,
    ensures
        delete_back_spec(insert_newline_spec(e)) == (EditorView { dirty: true, ..e }),
{
    let r = e.cur_r as int;
    let line = e.lines[r];
    let e2 = insert_newline_spec(e);
    assert(e2.lines[r] =~= line.take(e.cur_c as int));
    assert(e2.lines[r + 1] =~= line.skip(e.cur_c as int));
    assert(line.take(e.cur_c as int) + line.skip(e.cur_c as int) =~= line);
    assert(e2.lines.take(r) + seq![line] + e2.lines.skip(r + 2) =~= e.lines);
}

/// Whether no line holds a line feed.
pub open spec fn no_line_feeds(lines: Seq<Seq<u8>>) -> bool {
    forall|i: int, j: int| 0 <= i < lines.len() && 0 <= j < lines[i].len() ==> #[trigger] lines[i][j] != 10u8
}

proof fn lemma_append_plain(x: Seq<u8>, l: Seq<u8>)
    requires
        forall|j: int| 0 <= j < l.len() ==> l[j] != 10u8,
    ensures
        complete_lines(x + l) == complete_lines(x),
        line_start(x + l) == line_start(x),
    decreases l.len(),
{
    if l.len() == 0 {
        assert(x + l =~= x);
    } else {
        assert((x + l).drop_last() =~= x + l.drop_last());
        assert((x + l).last() == l.last());
        lemma_append_plain(x, l.drop_last());
    }
}

proof fn lemma_serialize_lines(lines: Seq<Seq<u8>>)
    requires
        no_line_feeds(lines),
    ensures
        complete_lines(serialize(lines)) == lines,
        line_start(serialize(lines)) == serialize(lines).len(),
    decreases lines.len(),
{
    if lines.len() > 0 {
        let init = lines.drop_last();
        let l = lines.last();
        assert forall|i: int, j: int| 0 <= i < init.len() && 0 <= j < init[i].len() implies #[trigger] init[i][j] != 10u8 by {
            assert(init[i] == lines[i]);
        }
        lemma_serialize_lines(init);
        let x = serialize(init);
        assert forall|j: int| 0 <= j < l.len() implies l[j] != 10u8 by {
            assert(lines[lines.len() - 1][j] == l[j]);
        }
        lemma_append_plain(x, l);
        let d = serialize(lines);
        assert(d == x + l + seq![10u8]);
        assert(d.drop_last() =~= x + l);
        assert((x + l).subrange(x.len() as int, (x + l).len() as int) =~= l);
        assert(lines =~= init.push(l));
    }
}

/// The file format gives back what it was given: a buffer of one to 64
/// lines of at most 80 bytes, none with a line feed, saved as text and
/// loaded again, is the same buffer.
pub proof fn law_save_load_round_trip(lines: Seq<Seq<u8>>)
    requires
        1 <= lines.len() <= MAX_LINES,
        forall|i: int| 0 <= i < lines.len() ==> #[trigger] lines[i].len() <= MAX_LINE_LEN,
        no_line_feeds(lines),
    ensures
        load_lines(serialize(lines)) == lines,
{
    lemma_serialize_lines(lines);
    let d = serialize(lines);
    let f = |l: Seq<u8>| trunc(l, MAX_LINE_LEN as nat);
    assert(lines.map_values(f) =~= lines);
    assert(d.subrange(line_start(d) as int, d.len() as int) =~= seq![]);
    if lines.len() == MAX_LINES {
        assert(lines.take(MAX_LINES as int) =~= lines);
    }
}

/// The first bytes of the status texts: `S` for a save, `F` for a buffer
/// too large, `E` for an error.
proof fn lemma_status_texts()
    ensures
        trunc("Saved.".spec_bytes(), TEXT_CAP as nat).len() > 0,
        trunc("Saved.".spec_bytes(), TEXT_CAP as nat)[0] == 83u8,
        trunc("File too large!".spec_bytes(), TEXT_CAP as nat).len() > 0,
        trunc("File too large!".spec_bytes(), TEXT_CAP as nat)[0] == 70u8,
        forall|err: FsError| #[trigger] error_status(err).len() > 0 && error_status(err)[0] == 69u8,
{
    reveal_strlit("Saved.");
    reveal_strlit("File too large!");
    reveal_strlit("Error: ");
    assert(vstd::utf8::is_ascii_chars("Saved."@));
    assert(vstd::utf8::is_ascii_chars("File too large!"@));
    assert(vstd::utf8::is_ascii_chars("Error: "@));
    vstd::utf8::is_ascii_chars_encode_utf8("Saved."@);
    vstd::utf8::is_ascii_chars_encode_utf8("File too large!"@);
    vstd::utf8::is_ascii_chars_encode_utf8("Error: "@);
    assert forall|err: FsError| #[trigger] error_status(err).len() > 0 && error_status(err)[0] == 69u8 by {
        let full = "Error: ".spec_bytes() + vstd::utf8::encode_utf8(fs_error_text(err));
        assert(full[0] == "Error: ".spec_bytes()[0]);
    }
}

/// A saved buffer is what its file then opens as: when a save of a buffer
/// whose lines hold no line feed reports `Saved.`, opening the file under
/// the buffer's name loads the same lines.
pub proof fn law_save_then_open(e: EditorView, fs: FsView)
    requires
        ed_wf(e),
        fs_wf(fs),
        e.fname_valid,
        no_line_feeds(e.lines),
        save_spec(e, fs).0.status == trunc("Saved.".spec_bytes(), TEXT_CAP as nat),
    ensures
        open_spec(save_spec(e, fs).1, e.fname, e.fname_valid).lines == e.lines,
{
    lemma_status_texts();
    let data = serialize(e.lines);
    let name = e.fname;
    assert(data.len() <= MAX_FILE_SIZE);
    crate::fs_laws::lemma_create_wf(fs, name, NodeKind::File);
    let fs1 = if resolve(fs, name) is Ok { fs } else { create_spec(fs, name, NodeKind::File).0 };
    assert(fs_wf(fs1));
    let fs2 = write_spec(fs1, name, data).0;
    assert(write_spec(fs1, name, data).1 is Ok);
    assert(save_spec(e, fs).1 == fs2);
    crate::fs_laws::law_write_keeps_shape(fs1, name, data, name);
    crate::fs::lemma_resolve_bound(fs1, name);
    let idx = resolve(fs1, name)->Ok_0;
    assert(resolve(fs2, name) == Ok::<usize, FsError>(idx));
    assert(fs2.nodes[idx as int].data =~= data);
    assert(trunc(data, MAX_FILE_SIZE as nat) == data);
    law_save_load_round_trip(e.lines);
}

/// After a redraw the cursor's row is on screen: the first row shown is at
/// or above it, and fewer than `ROWS` rows above it.
pub proof fn law_scroll_shows_cursor(e: EditorView)
    requires
        ed_wf(e),
    ensures
        scroll_spec(e).offset <= e.cur_r < scroll_spec(e).offset + ROWS,
        ed_wf(scroll_spec(e)),
{
}

/// Text that the editor loads without loss: not empty, every line ended by
/// a line feed, at most 64 lines of at most 80 bytes each.
pub open spec fn well_formed_text(d: Seq<u8>) -> bool {
    &&& d.len() > 0
    &&& d.last() == 10u8
    &&& complete_lines(d).len() <= MAX_LINES
    &&& forall|i: int| 0 <= i < complete_lines(d).len() ==> #[trigger] complete_lines(d)[i].len() <= MAX_LINE_LEN
}

/// The lines that line feeds end, saved again, give the text up to the
/// start of its last line.
proof fn lemma_serialize_complete(p: Seq<u8>)
    ensures
        serialize(complete_lines(p)) == p.take(line_start(p) as int),
    decreases p.len(),
{
    if p.len() == 0 {
        assert(p.take(0) =~= seq![]);
    } else {
        let q = p.drop_last();
        lemma_serialize_complete(q);
        lemma_line_start_bound(q);
        if p.last() == 10u8 {
            let x = q.subrange(line_start(q) as int, q.len() as int);
            let l = complete_lines(q).push(x);
            assert(l.drop_last() =~= complete_lines(q));
            assert(q.take(line_start(q) as int) + x + seq![10u8] =~= p);
            assert(p.take(p.len() as int) =~= p);
        } else {
            assert(p.take(line_start(q) as int) =~= q.take(line_start(q) as int));
        }
    }
}

/// The file format loses nothing of well-formed text: such text, loaded
/// into lines and saved again, is the same text byte for byte.
pub proof fn law_load_save_round_trip(d: Seq<u8>)
    requires
        well_formed_text(d),
    ensures
        serialize(load_lines(d)) == d,
        load_lines(d) == complete_lines(d),
{
    let cl = complete_lines(d);
    let f = |l: Seq<u8>| trunc(l, MAX_LINE_LEN as nat);
    assert(cl.map_values(f) =~= cl);
    lemma_serialize_complete(d);
    assert(line_start(d) == d.len());
    assert(d.take(d.len() as int) =~= d);
    assert(cl.len() > 0);
    assert(d.subrange(d.len() as int, d.len() as int) =~= seq![]);
    if cl.len() == MAX_LINES {
        assert(cl.take(MAX_LINES as int) =~= cl);
    }
}

/// Opening a file of well-formed text and saving it with no edit leaves the
/// file system exactly as it was, and reports `Saved.`.
pub proof fn law_open_save_unchanged(fs: FsView, f: Seq<u8>)
    requires
        fs_wf(fs),
        f.len() <= TEXT_CAP,
        resolve(fs, f) is Ok,
        fs.nodes[resolve(fs, f)->Ok_0 as int].kind == NodeKind::File,
        well_formed_text(fs.nodes[resolve(fs, f)->Ok_0 as int].data),
    ensures
        key_spec(open_spec(fs, f, true), fs, Key::CtrlS).1 == fs,
        key_spec(open_spec(fs, f, true), fs, Key::CtrlS).0.status == trunc("Saved.".spec_bytes(), TEXT_CAP as nat),
{
    let i = resolve(fs, f)->Ok_0;
    crate::fs::lemma_resolve_bound(fs, f);
    let d = fs.nodes[i as int].data;
    assert(crate::fs::node_wf(fs.nodes[i as int]));
    assert(trunc(d, MAX_FILE_SIZE as nat) == d);
    law_load_save_round_trip(d);
    let e = open_spec(fs, f, true);
    assert(e.lines == load_lines(d));
    assert(trunc(f, TEXT_CAP as nat) == f);
    let (fs2, r) = write_spec(fs, f, d);
    assert(d.subrange(0, d.len() as int) =~= d);
    assert(fs2.nodes[i as int] =~= fs.nodes[i as int]);
    assert(fs2.nodes =~= fs.nodes);
    assert(fs2 =~= fs);
}

/// Typed at the keyboard, a printable byte and then Backspace give back
/// the buffer and cursor, leave the file system alone and end nothing; the
/// buffer stays marked as changed and the status is cleared.
pub proof fn law_keys_type_then_backspace(e: EditorView, fs: FsView, c: u8)
    requires
        ed_wf(e),
        0x20 <= c < 0x7f,
        e.lines[e.cur_r as int].len() < MAX_LINE_LEN - 1,
    ensures
        ({
            let (e1, fs1, q1) = key_spec(e, fs, Key::Char(c));
            let (e2, fs2, q2) = key_spec(e1, fs1, Key::Backspace);
            &&& e2 == (EditorView { dirty: true, status: seq![], ..e })
            &&& fs2 == fs
            &&& !q1
            &&& !q2
        }),
{
    let e0 = EditorView { status: seq![], ..e };
    law_type_then_backspace(e0, c);
    let e1 = insert_char_spec(e0, c);
    assert((EditorView { status: seq![], ..e1 }) == e1);
}

/// Typed at the keyboard, Enter and then Backspace give back the buffer and
/// cursor (the split line is joined again), leave the file system alone and
/// end nothing; the buffer stays marked as changed and the status is
/// cleared.
pub proof fn law_keys_enter_then_backspace(e: EditorView, fs: FsView)
    requires
        ed_wf(e),
        e.lines.len() < MAX_LINES,
    ensures
        ({
            let (e1, fs1, q1) = key_spec(e, fs, Key::Enter);
            let (e2, fs2, q2) = key_spec(e1, fs1, Key::Backspace);
            &&& e2 == (EditorView { dirty: true, status: seq![], ..e })
            &&& fs2 == fs
            &&& !q1
            &&& !q2
        }),
{
    let e0 = EditorView { status: seq![], ..e };
    law_enter_then_backspace(e0);
    let e1 = insert_newline_spec(e0);
    assert((EditorView { status: seq![], ..e1 }) == e1);
}

/// A session of keys: each key taken in turn, until Ctrl-Q ends the
/// session or the keys run out; the final buffer, the file system and
/// whether the session ended.
pub open spec fn run_keys(e: EditorView, fs: FsView, keys: Seq<Key>) -> (EditorView, FsView, bool)
    decreases keys.len(),
{
    if keys.len() == 0 {
        (e, fs, false)
    } else {
        let (e1, fs1, quit) = key_spec(e, fs, keys[0]);
        if quit {
            (e1, fs1, true)
        } else {
            run_keys(e1, fs1, keys.drop_first())
        }
    }
}

/// A session without Ctrl-S leaves the file system alone: whatever keys are
/// typed, if none is Ctrl-S, every path, kind, content and listing is as
/// before, and in particular a file that did not exist is not created.
pub proof fn law_session_without_save(e: EditorView, fs: FsView, keys: Seq<Key>)
    requires
        forall|i: int| 0 <= i < keys.len() ==> #[trigger] keys[i] != Key::CtrlS,
    ensures
        run_keys(e, fs, keys).1 == fs,
    decreases keys.len(),
{
    if keys.len() > 0 {
        assert(keys[0] != Key::CtrlS);
        let (e1, fs1, quit) = key_spec(e, fs, keys[0]);
        assert(fs1 == fs);
        if !quit {
            assert forall|i: int| 0 <= i < keys.drop_first().len() implies #[trigger] keys.drop_first()[i] != Key::CtrlS by {
                assert(keys.drop_first()[i] == keys[i + 1]);
            }
            law_session_without_save(e1, fs1, keys.drop_first());
        }
    }
}

/// A session whose console input holds no Ctrl-S byte (0x13) leaves the
/// file system alone: the keys read from those bytes, run through the
/// editor, leave every path, kind, content and listing as before, and a
/// file that did not exist is not created.
pub proof fn law_session_bytes_without_save(e: EditorView, fs: FsView, inputs: Seq<Option<u8>>)
    requires
        forall|i: int| 0 <= i < inputs.len() ==> #[trigger] inputs[i] != Some(0x13u8),
    ensures
        run_keys(e, fs, decode_keys(inputs)).1 == fs,
{
    law_no_ctrl_s_key(inputs);
    law_session_without_save(e, fs, decode_keys(inputs));
}

/// The screen rows of a view, one for each buffer line from `offset` on,
/// are the rows that `rows_text` joins, first to last.
proof fn lemma_rows_joined(e: EditorView, rows: Seq<Seq<u8>>, k: nat)
    requires
        k <= rows.len(),
        forall|sr: int| 0 <= sr < rows.len() ==> #[trigger] rows[sr] == "\x1b[K".spec_bytes() + (if e.offset + sr
            < e.lines.len() {
            shown(e.lines[e.offset + sr])
        } else {
            "~".spec_bytes()
        }) + "\r\n".spec_bytes(),
    ensures
        rows_text(e, k) == rows.take(k as int).flatten_alt(),
    decreases k,
{
    if k == 0 {
        assert(rows.take(0) =~= Seq::<Seq<u8>>::empty());
    } else {
        lemma_rows_joined(e, rows, (k - 1) as nat);
        assert(rows.take(k as int).drop_last() =~= rows.take(k - 1));
        assert(rows.take(k as int).last() == rows[k - 1]);
    }
}

/// A redraw shows the buffer from the first row of the view scrolled to
/// the cursor: after the cursor-home sequence, screen row `sr` (for every
/// `sr` below `ROWS`) is buffer line `offset + sr`, cleared to the end and
/// ended by a line break, or `~` past the last line. The cursor is placed
/// on screen row `cur_r - offset + 1`, which therefore shows line `cur_r`.
pub proof fn law_render_rows(e0: EditorView)
    requires
        ed_wf(e0),
    ensures
        ({
            let e = scroll_spec(e0);
            let rows = Seq::new(
                ROWS as nat,
                |sr: int|
                    "\x1b[K".spec_bytes() + (if e.offset + sr < e.lines.len() {
                        shown(e.lines[e.offset + sr])
                    } else {
                        "~".spec_bytes()
                    }) + "\r\n".spec_bytes(),
            );
            let place = "\x1b[".spec_bytes() + decimal((e.cur_r - e.offset + 1) as nat) + ";".spec_bytes()
                + decimal(e.cur_c + 1) + "H".spec_bytes();
            let out = render_spec(e0);
            &&& out.take(("\x1b[H".spec_bytes().len() + rows.flatten().len()) as int) == "\x1b[H".spec_bytes()
                + rows.flatten()
            &&& out.skip(out.len() - place.len()) == place
            &&& e.offset <= e.cur_r < e.offset + ROWS
            &&& rows[e.cur_r - e.offset] == "\x1b[K".spec_bytes() + shown(e.lines[e.cur_r as int])
                + "\r\n".spec_bytes()
        }),
{
    let e = scroll_spec(e0);
    let rows = Seq::new(
        ROWS as nat,
        |sr: int|
            "\x1b[K".spec_bytes() + (if e.offset + sr < e.lines.len() {
                shown(e.lines[e.offset + sr])
            } else {
                "~".spec_bytes()
            }) + "\r\n".spec_bytes(),
    );
    lemma_rows_joined(e, rows, ROWS as nat);
    assert(rows.take(ROWS as int) =~= rows);
    rows.lemma_flatten_and_flatten_alt_are_equivalent();
    let h = "\x1b[H".spec_bytes();
    let rest = status_bar(e) + "\x1b[K ^S Save  ^Q Quit".spec_bytes();
    let place = "\x1b[".spec_bytes() + decimal((e.cur_r - e.offset + 1) as nat) + ";".spec_bytes() + decimal(
        e.cur_c + 1,
    ) + "H".spec_bytes();
    let out = render_spec(e0);
    assert(out =~= h + rows.flatten() + rest + place);
    assert(out.take((h.len() + rows.flatten().len()) as int) =~= h + rows.flatten());
    assert(out.skip(out.len() - place.len()) =~= place);
}

/// Down on a line that has one below moves to that line and keeps the
/// column, cut back to the end of the line below when that is shorter; the
/// lines, the file system and the session are untouched.
pub proof fn law_down_keeps_column(e: EditorView, fs: FsView)
    requires
        ed_wf(e),
        e.cur_r + 1 < e.lines.len(),
    ensures
        ({
            let (e2, fs2, quit) = key_spec(e, fs, Key::Down);
            let below = e.lines[e.cur_r as int + 1].len();
            &&& e2.cur_r == e.cur_r + 1
            &&& e2.cur_c == (if e.cur_c <= below { e.cur_c } else { below })
            &&& e2.lines == e.lines
            &&& e2.offset == e.offset
            &&& fs2 == fs
            &&& !quit
        }),
{
}

/// Up on a line that has one above moves to that line and keeps the
/// column, cut back to the end of the line above when that is shorter.
pub proof fn law_up_keeps_column(e: EditorView, fs: FsView)
    requires
        ed_wf(e),
        e.cur_r > 0,
    ensures
        ({
            let (e2, fs2, quit) = key_spec(e, fs, Key::Up);
            let above = e.lines[e.cur_r as int - 1].len();
            &&& e2.cur_r == e.cur_r - 1
            &&& e2.cur_c == (if e.cur_c <= above { e.cur_c } else { above })
            &&& e2.lines == e.lines
            &&& fs2 == fs
            &&& !quit
        }),
{
}

/// Down then Up, when the line below is at least as long as the cursor's
/// column, brings the cursor back where it was.
pub proof fn law_down_then_up(e: EditorView, fs: FsView)
    requires
        ed_wf(e),
        e.cur_r + 1 < e.lines.len(),
        e.cur_c <= e.lines[e.cur_r as int + 1].len(),
    ensures
        ({
            let (e1, fs1, _) = key_spec(e, fs, Key::Down);
            let (e2, _, _) = key_spec(e1, fs1, Key::Up);
            e2.cur_r == e.cur_r && e2.cur_c == e.cur_c
        }),
{
}

/// The moves along a line: Left goes one byte back unless at the start,
/// Right one byte on unless at the end of the line, Home to the start and
/// End to the end; none leaves the line or touches the lines or the file
/// system; Down on the last line and Up on the first stay put.
pub proof fn law_moves_along_line(e: EditorView, fs: FsView)
    requires
        ed_wf(e),
    ensures
        ({
            let len = e.lines[e.cur_r as int].len();
            let (l, fl, ql) = key_spec(e, fs, Key::Left);
            let (rt, fr, qr) = key_spec(e, fs, Key::Right);
            let (h, fh, qh) = key_spec(e, fs, Key::Home);
            let (en, fe, qe) = key_spec(e, fs, Key::End);
            &&& l.cur_r == e.cur_r && l.cur_c == (if e.cur_c > 0 { e.cur_c - 1 } else { 0 })
            &&& rt.cur_r == e.cur_r && rt.cur_c == (if e.cur_c < len { e.cur_c + 1 } else { len })
            &&& h.cur_r == e.cur_r && h.cur_c == 0
            &&& en.cur_r == e.cur_r && en.cur_c == len
            &&& l.lines == e.lines && rt.lines == e.lines && h.lines == e.lines && en.lines == e.lines
            &&& fl == fs && fr == fs && fh == fs && fe == fs
            &&& !ql && !qr && !qh && !qe
        }),
        e.cur_r + 1 == e.lines.len() ==> key_spec(e, fs, Key::Down).0.cur_r == e.cur_r && key_spec(
            e,
            fs,
            Key::Down,
        ).0.cur_c == e.cur_c,
        e.cur_r == 0 ==> key_spec(e, fs, Key::Up).0.cur_r == 0 && key_spec(e, fs, Key::Up).0.cur_c == e.cur_c,
{
}

} // verus!
