//! The shell: the prompt, the parsing of a command line, and the commands
//! that work on the file system, each giving the text to print.
use vstd::prelude::*;
use vstd::string::StringSliceAdditionalSpecFns;
use vstd::string::StrSliceExecFns;
use vstd::utf8::{encode_utf8, valid_utf8, decode_utf8};
use crate::fs::{
    FileSystem, FsError, FsView, NodeKind, DirEntry, fs_wf, resolve, create_spec, write_spec, delete_spec,
    rename_spec, set_cwd_spec, list_spec, read_spec, entry_matches, padded_name, cwd_path_spec, fs_error_text,
    empty_entry, MAX_NAME,
};
use crate::text::{
    utf8_str, trim, trim_spec, find_char, char_index, decimal, push_decimal, push_bytes, push_str, bytes_eq,
};

verus! {

/// The commands the shell knows.
#[derive(Clone, Copy, PartialEq, Eq, Structural, Debug)]
pub enum Command {
    Help,
    Ls,
    Cd,
    Pwd,
    Cat,
    Echo,
    Touch,
    Mkdir,
    Rm,
    Mv,
    Clear,
    Edit,
    Uname,
    Uptime,
    Shutdown,
    Unknown,
}

/// The command a name selects.
pub open spec fn command_spec(name: Seq<u8>) -> Command {
    if name == "help".spec_bytes() {
        Command::Help
    } else if name == "ls".spec_bytes() {
        Command::Ls
    } else if name == "cd".spec_bytes() {
        Command::Cd
    } else if name == "pwd".spec_bytes() {
        Command::Pwd
    } else if name == "cat".spec_bytes() {
        Command::Cat
    } else if name == "echo".spec_bytes() {
        Command::Echo
    } else if name == "touch".spec_bytes() {
        Command::Touch
    } else if name == "mkdir".spec_bytes() {
        Command::Mkdir
    } else if name == "rm".spec_bytes() {
        Command::Rm
    } else if name == "mv".spec_bytes() {
        Command::Mv
    } else if name == "clear".spec_bytes() {
        Command::Clear
    } else if name == "edit".spec_bytes() {
        Command::Edit
    } else if name == "uname".spec_bytes() {
        Command::Uname
    } else if name == "uptime".spec_bytes() {
        Command::Uptime
    } else if name == "shutdown".spec_bytes() {
        Command::Shutdown
    } else {
        Command::Unknown
    }
}

/// The command a name selects.
pub fn command_of(name: &str) -> (c: Command)
    ensures
        c == command_spec(name.spec_bytes()),
{
    let b = name.as_bytes();
    if bytes_eq(b, "help".as_bytes()) {
        Command::Help
    } else if bytes_eq(b, "ls".as_bytes()) {
        Command::Ls
    } else if bytes_eq(b, "cd".as_bytes()) {
        Command::Cd
    } else if bytes_eq(b, "pwd".as_bytes()) {
        Command::Pwd
    } else if bytes_eq(b, "cat".as_bytes()) {
        Command::Cat
    } else if bytes_eq(b, "echo".as_bytes()) {
        Command::Echo
    } else if bytes_eq(b, "touch".as_bytes()) {
        Command::Touch
    } else if bytes_eq(b, "mkdir".as_bytes()) {
        Command::Mkdir
    } else if bytes_eq(b, "rm".as_bytes()) {
        Command::Rm
    } else if bytes_eq(b, "mv".as_bytes()) {
        Command::Mv
    } else if bytes_eq(b, "clear".as_bytes()) {
        Command::Clear
    } else if bytes_eq(b, "edit".as_bytes()) {
        Command::Edit
    } else if bytes_eq(b, "uname".as_bytes()) {
        Command::Uname
    } else if bytes_eq(b, "uptime".as_bytes()) {
        Command::Uptime
    } else if bytes_eq(b, "shutdown".as_bytes()) {
        Command::Shutdown
    } else {
        Command::Unknown
    }
}

/// A command line cut into the command name and its arguments: the line is
/// trimmed, the name runs to the first space, and the arguments are the
/// rest, trimmed; `None` for a blank line.
pub open spec fn split_line_spec(line: Seq<char>) -> Option<(Seq<char>, Seq<char>)> {
    let t = trim_spec(line);
    if t.len() == 0 {
        None
    } else {
        match char_index(t, ' ') {
            Some(i) => Some((t.take(i), trim_spec(t.skip(i + 1)))),
            None => Some((t, seq![])),
        }
    }
}

/// A command line cut into the command name and its arguments.
pub fn split_line(line: &str) -> (r: Option<(&str, &str)>)
    ensures
        match split_line_spec(line@) {
            None => r is None,
            Some((n, a)) => r matches Some((rn, ra)) && rn@ == n && ra@ == a,
        },
{
    let t = trim(line);
    if t.is_empty() {
        return None;
    }
    match find_char(t, ' ') {
        Some(i) => {
            let n = t.unicode_len();
            let name = t.substring_char(0, i);
            let rest = t.substring_char(i + 1, n);
            assert(name@ =~= t@.take(i as int));
            assert(rest@ =~= t@.skip(i + 1));
            let tr = trim(rest);
            assert(split_line_spec(line@) == Some((t@.take(i as int), trim_spec(t@.skip(i + 1)))));
            Some((name, tr))
        },
        None => {
            let e = t.substring_char(0, 0);
            assert(e@ =~= seq![]);
            assert(split_line_spec(line@) == Some((t@, Seq::<char>::empty())));
            Some((t, e))
        },
    }
}

/// An error line: the command's prefix, the error's text, a line feed.
pub open spec fn error_line(prefix: Seq<u8>, e: FsError) -> Seq<u8> {
    prefix + encode_utf8(fs_error_text(e)) + seq![10u8]
}

/// Bytes shown as text: themselves when they are valid UTF-8, else
/// `fallback`.
pub open spec fn text_or(b: Seq<u8>, fallback: Seq<u8>) -> Seq<u8> {
    if valid_utf8(b) {
        b
    } else {
        fallback
    }
}

/// The listing line of node `c`: directories end in `/`, files show their
/// size; a name that is not text shows as `?`.
pub open spec fn ls_line(fs: FsView, c: usize) -> Seq<u8> {
    let n = fs.nodes[c as int];
    let name = text_or(n.name, "?".spec_bytes());
    if n.kind == NodeKind::Dir {
        name + "/ \n".spec_bytes()
    } else {
        name + "  (".spec_bytes() + decimal(n.data.len()) + " bytes)\n".spec_bytes()
    }
}

/// The listing lines of `kids`.
pub open spec fn ls_text(fs: FsView, kids: Seq<usize>) -> Seq<u8>
    decreases kids.len(),
{
    if kids.len() == 0 {
        seq![]
    } else {
        ls_text(fs, kids.drop_last()) + ls_line(fs, kids.last())
    }
}

/// Entries a listing shows at most.
pub const LS_CAP: usize = 32;

/// `ls`: the listing of the directory named by the arguments (the current
/// one when there are none), at most 32 entries.
pub open spec fn ls_spec(fs: FsView, args: Seq<char>) -> Seq<u8> {
    let p = if args.len() == 0 { ".".spec_bytes() } else { encode_utf8(args) };
    match list_spec(fs, p, LS_CAP as nat) {
        Err(e) => error_line("ls: ".spec_bytes(), e),
        Ok(n) => ls_text(fs, fs.nodes[resolve(fs, p)->Ok_0 as int].children.take(n as int)),
    }
}

/// `cd`: make the named directory (the root when none is named) current.
pub open spec fn cd_spec(fs: FsView, args: Seq<char>) -> (FsView, Seq<u8>) {
    let p = if args.len() == 0 { "/".spec_bytes() } else { encode_utf8(args) };
    let (fs2, r) = set_cwd_spec(fs, p);
    match r {
        Err(e) => (fs2, error_line("cd: ".spec_bytes(), e)),
        Ok(_) => (fs2, seq![]),
    }
}

/// Bytes the prompt and `pwd` keep of the current path.
pub const PATH_CAP: usize = 256;

/// The current directory's path as the shell shows it: cut to 256 bytes,
/// and `/` if the cut left it unreadable.
pub open spec fn shown_cwd(fs: FsView) -> Seq<u8> {
    let p = cwd_path_spec(fs);
    let cut = if p.len() < PATH_CAP { p } else { p.take(PATH_CAP as int) };
    text_or(cut, "/".spec_bytes())
}

/// `pwd`: the current directory's path and a line feed.
pub open spec fn pwd_spec(fs: FsView) -> Seq<u8> {
    shown_cwd(fs) + seq![10u8]
}

/// `cat`: the first 4096 bytes of the named file, shown only if they are
/// text.
pub open spec fn cat_spec(fs: FsView, args: Seq<char>) -> Seq<u8> {
    if args.len() == 0 {
        "cat: missing filename\n".spec_bytes()
    } else {
        let p = encode_utf8(args);
        match read_spec(fs, p, 4096) {
            Err(e) => error_line("cat: ".spec_bytes(), e),
            Ok(n) => {
                let d = fs.nodes[resolve(fs, p)->Ok_0 as int].data.take(n as int);
                text_or(d, seq![])
            },
        }
    }
}

/// `echo`: without `>`, the arguments and a line feed; with `>`, the text
/// before it (trimmed, at most 4095 bytes) and a line feed written to the
/// file named after it, which is created when its name names nothing.
pub open spec fn echo_spec(fs: FsView, args: Seq<char>) -> (FsView, Seq<u8>) {
    match char_index(args, '>') {
        None => (fs, encode_utf8(args) + seq![10u8]),
        Some(pos) => {
            let text = trim_spec(args.take(pos));
            let file = trim_spec(args.skip(pos + 1));
            if file.len() == 0 {
                (fs, "echo: missing filename\n".spec_bytes())
            } else {
                let tb = encode_utf8(text);
                let data = (if tb.len() < 4095 { tb } else { tb.take(4095) }) + seq![10u8];
                let p = encode_utf8(file);
                let (fs1, r1) = if resolve(fs, p) is Ok {
                    (fs, Ok::<(), FsError>(()))
                } else {
                    create_spec(fs, p, NodeKind::File)
                };
                match r1 {
                    Err(e) => (fs1, error_line("echo: ".spec_bytes(), e)),
                    Ok(_) => {
                        let (fs2, r2) = write_spec(fs1, p, data);
                        match r2 {
                            Err(e) => (fs2, error_line("echo: ".spec_bytes(), e)),
                            Ok(_) => (fs2, seq![]),
                        }
                    },
                }
            }
        },
    }
}

/// `touch`: create the named file unless the name names something.
pub open spec fn touch_spec(fs: FsView, args: Seq<char>) -> (FsView, Seq<u8>) {
    if args.len() == 0 {
        (fs, "touch: missing filename\n".spec_bytes())
    } else {
        let p = encode_utf8(args);
        if resolve(fs, p) is Ok {
            (fs, seq![])
        } else {
            let (fs2, r) = create_spec(fs, p, NodeKind::File);
            match r {
                Err(e) => (fs2, error_line("touch: ".spec_bytes(), e)),
                Ok(_) => (fs2, seq![]),
            }
        }
    }
}

/// `mkdir`: create the named directory.
pub open spec fn mkdir_spec(fs: FsView, args: Seq<char>) -> (FsView, Seq<u8>) {
    if args.len() == 0 {
        (fs, "mkdir: missing name\n".spec_bytes())
    } else {
        let (fs2, r) = create_spec(fs, encode_utf8(args), NodeKind::Dir);
        match r {
            Err(e) => (fs2, error_line("mkdir: ".spec_bytes(), e)),
            Ok(_) => (fs2, seq![]),
        }
    }
}

/// `rm`: remove the named node.
pub open spec fn rm_spec(fs: FsView, args: Seq<char>) -> (FsView, Seq<u8>) {
    if args.len() == 0 {
        (fs, "rm: missing path\n".spec_bytes())
    } else {
        let (fs2, r) = delete_spec(fs, encode_utf8(args));
        match r {
            Err(e) => (fs2, error_line("rm: ".spec_bytes(), e)),
            Ok(_) => (fs2, seq![]),
        }
    }
}

/// `mv`: the source runs to the first space, the destination is the rest,
/// trimmed; both must be given.
pub open spec fn mv_spec(fs: FsView, args: Seq<char>) -> (FsView, Seq<u8>) {
    let (src, rest) = match char_index(args, ' ') {
        Some(i) => (args.take(i), Some(args.skip(i + 1))),
        None => (args, None::<Seq<char>>),
    };
    if src.len() == 0 {
        (fs, "mv: missing source\n".spec_bytes())
    } else {
        match rest {
            None => (fs, "mv: missing destination\n".spec_bytes()),
            Some(r) => if r.len() == 0 {
                (fs, "mv: missing destination\n".spec_bytes())
            } else {
                let (fs2, res) = rename_spec(fs, encode_utf8(src), encode_utf8(trim_spec(r)));
                match res {
                    Err(e) => (fs2, error_line("mv: ".spec_bytes(), e)),
                    Ok(_) => (fs2, seq![]),
                }
            },
        }
    }
}

/// The text of `help`.
pub open spec fn help_text() -> Seq<u8> {
    HELP.spec_bytes()
}

/// The list of commands that `help` prints.
pub const HELP: &'static str = "Available commands:\n  ls [path]        List directory\n  cd <path>        Change directory\n  pwd              Working directory\n  cat <file>       Print file\n  echo <text>      Print text (> file to redirect)\n  touch <file>     Create file\n  mkdir <dir>      Create directory\n  rm <path>        Remove file/dir\n  mv <src> <dst>   Move/rename\n  edit <file>      Text editor\n  clear            Clear screen\n  uname            System info\n  uptime           Uptime\n  shutdown         Power off\n";

/// What a command that only touches the file system does, and the text it
/// prints.
pub open spec fn command_output(fs: FsView, cmd: Command, name: Seq<char>, args: Seq<char>) -> (FsView, Seq<u8>) {
    match cmd {
        Command::Help => (fs, help_text()),
        Command::Ls => (fs, ls_spec(fs, args)),
        Command::Cd => cd_spec(fs, args),
        Command::Pwd => (fs, pwd_spec(fs)),
        Command::Cat => (fs, cat_spec(fs, args)),
        Command::Echo => echo_spec(fs, args),
        Command::Touch => touch_spec(fs, args),
        Command::Mkdir => mkdir_spec(fs, args),
        Command::Rm => rm_spec(fs, args),
        Command::Mv => mv_spec(fs, args),
        Command::Uname => (fs, "RxV6 0.1.0 riscv64\n".spec_bytes()),
        _ => (fs, "rxv6: ".spec_bytes() + encode_utf8(name) + ": command not found\n".spec_bytes()),
    }
}

/// What the shell does with a line.
pub enum ShellAction<'a> {
    /// Nothing: a blank line, or one that is not text.
    Nothing,
    /// Print this text.
    Print(Vec<u8>),
    /// Clear the screen.
    Clear,
    /// Run the editor on this file name.
    Edit(&'a str),
    /// Print the time since start-up.
    Uptime,
    /// Power off.
    Shutdown,
}

/// The prompt: the current directory in brackets, then `$ `.
pub open spec fn prompt_spec(fs: FsView) -> Seq<u8> {
    "[".spec_bytes() + shown_cwd(fs) + "]$ ".spec_bytes()
}

/// The text of `uptime` after `t` seconds.
pub open spec fn uptime_spec(t: u64) -> Seq<u8> {
    "up ".spec_bytes() + decimal((t / 3600) as nat) + "h ".spec_bytes() + decimal(((t / 60) % 60) as nat)
        + "m ".spec_bytes() + decimal((t % 60) as nat) + "s\n".spec_bytes()
}

/// The text of `uptime` after `t` seconds.
pub fn uptime_text(t: u64) -> (out: Vec<u8>)
    ensures
        out@ == uptime_spec(t),
{
    let mut out: Vec<u8> = Vec::new();
    push_str(&mut out, "up ");
    push_decimal(&mut out, t / 3600);
    push_str(&mut out, "h ");
    push_decimal(&mut out, (t / 60) % 60);
    push_str(&mut out, "m ");
    push_decimal(&mut out, t % 60);
    push_str(&mut out, "s\n");
    assert(out@ =~= uptime_spec(t));
    out
}

/// An error line.
fn push_error(out: &mut Vec<u8>, prefix: &str, e: FsError)
    ensures
        final(out)@ == old(out)@ + error_line(prefix.spec_bytes(), e),
{
    push_str(out, prefix);
    push_str(out, e.message());
    out.push(10u8);
    assert(final(out)@ =~= old(out)@ + error_line(prefix.spec_bytes(), e));
}

/// The current directory's path as the shell shows it.
fn cwd_text(fs: &FileSystem) -> (out: Vec<u8>)
    requires
        fs_wf(fs@),
    ensures
        out@ == shown_cwd(fs@),
{
    let mut buf: Vec<u8> = Vec::new();
    let mut i: usize = 0;
    while i < PATH_CAP
        invariant
            i <= PATH_CAP,
            buf@.len() == i,
        decreases PATH_CAP - i,
    {
        buf.push(0u8);
        i = i + 1;
    }
    let n = fs.cwd_path(buf.as_mut_slice());
    let cut = vstd::slice::slice_subrange(buf.as_slice(), 0, n);
    let ghost p = cwd_path_spec(fs@);
    assert(cut@ =~= (if p.len() < PATH_CAP { p } else { p.take(PATH_CAP as int) }));
    match utf8_str(cut) {
        Some(_) => vstd::slice::slice_to_vec(cut),
        None => {
            let mut out: Vec<u8> = Vec::new();
            push_str(&mut out, "/");
            out
        },
    }
}

/// The prompt.
pub fn prompt(fs: &FileSystem) -> (out: Vec<u8>)
    requires
        fs_wf(fs@),
    ensures
        out@ == prompt_spec(fs@),
{
    let mut out: Vec<u8> = Vec::new();
    push_str(&mut out, "[");
    let p = cwd_text(fs);
    push_bytes(&mut out, p.as_slice());
    push_str(&mut out, "]$ ");
    assert(out@ =~= prompt_spec(fs@));
    out
}

pub proof fn lemma_padded_take(name: Seq<u8>)
    requires
        name.len() <= MAX_NAME,
    ensures
        padded_name(name).take(name.len() as int) == name,
{
    assert(padded_name(name).take(name.len() as int) =~= name);
}

/// `ls`.
fn cmd_ls(fs: &FileSystem, args: &str) -> (out: Vec<u8>)
    requires
        fs_wf(fs@),
    ensures
        out@ == ls_spec(fs@, args@),
{
    let path = if args.is_empty() { "." } else { args };
    assert(path.spec_bytes() == (if args@.len() == 0 { ".".spec_bytes() } else { encode_utf8(args@) }));
    let mut entries: Vec<DirEntry> = Vec::new();
    let mut i: usize = 0;
    while i < LS_CAP
        invariant
            i <= LS_CAP,
            entries@.len() == i,
        decreases LS_CAP - i,
    {
        entries.push(empty_entry());
        i = i + 1;
    }
    let mut out: Vec<u8> = Vec::new();
    match fs.list_dir(path, entries.as_mut_slice()) {
        Ok(count) => {
            proof {
                crate::fs::lemma_resolve_bound(fs@, path.spec_bytes());
            }
            let ghost d = resolve(fs@, path.spec_bytes())->Ok_0;
            assert(crate::fs::node_wf(fs@.nodes[d as int]));
            let ghost kids = fs@.nodes[d as int].children;
            let mut k: usize = 0;
            assert(kids.take(0) =~= seq![]);
            while k < count
                invariant
                    fs_wf(fs@),
                    count <= LS_CAP,
                    entries@.len() == LS_CAP,
                    count <= kids.len(),
                    forall|j: int| 0 <= j < kids.len() ==> #[trigger] kids[j] < crate::fs::MAX_NODES,
                    forall|j: int| 0 <= j < count ==> #[trigger] entry_matches(fs@, kids[j], entries@[j]),
                    k <= count,
                    out@ == ls_text(fs@, kids.take(k as int)),
                decreases count - k,
            {
                let e = entries[k];
                assert(entry_matches(fs@, kids[k as int], e));
                let ghost nm = fs@.nodes[kids[k as int] as int].name;
                assert(crate::fs::node_wf(fs@.nodes[kids[k as int] as int]));
                proof {
                    lemma_padded_take(nm);
                }
                let name_bytes = vstd::slice::slice_subrange(e.name.as_slice(), 0, e.name_len);
                assert(name_bytes@ == nm);
                match utf8_str(name_bytes) {
                    Some(_) => push_bytes(&mut out, name_bytes),
                    None => push_str(&mut out, "?"),
                }
                if e.is_dir {
                    push_str(&mut out, "/ \n");
                } else {
                    push_str(&mut out, "  (");
                    push_decimal(&mut out, e.size as u64);
                    push_str(&mut out, " bytes)\n");
                }
                assert(kids.take(k + 1).drop_last() =~= kids.take(k as int));
                assert(out@ =~= ls_text(fs@, kids.take(k + 1)));
                k = k + 1;
            }
        },
        Err(e) => {
            push_error(&mut out, "ls: ", e);
        },
    }
    out
}

/// `cd`.
fn cmd_cd(fs: &mut FileSystem, args: &str) -> (out: Vec<u8>)
    requires
        fs_wf(old(fs)@),
    ensures
        (final(fs)@, out@) == cd_spec(old(fs)@, args@),
        fs_wf(final(fs)@),
{
    let path = if args.is_empty() { "/" } else { args };
    assert(path.spec_bytes() == (if args@.len() == 0 { "/".spec_bytes() } else { encode_utf8(args@) }));
    let mut out: Vec<u8> = Vec::new();
    match fs.set_cwd(path) {
        Ok(()) => {},
        Err(e) => push_error(&mut out, "cd: ", e),
    }
    assert(out@ =~= cd_spec(old(fs)@, args@).1);
    out
}

/// `pwd`.
fn cmd_pwd(fs: &FileSystem) -> (out: Vec<u8>)
    requires
        fs_wf(fs@),
    ensures
        out@ == pwd_spec(fs@),
{
    let mut out = cwd_text(fs);
    out.push(10u8);
    out
}

/// `cat`.
fn cmd_cat(fs: &FileSystem, args: &str) -> (out: Vec<u8>)
    requires
        fs_wf(fs@),
    ensures
        out@ == cat_spec(fs@, args@),
{
    let mut out: Vec<u8> = Vec::new();
    if args.is_empty() {
        push_str(&mut out, "cat: missing filename\n");
        return out;
    }
    let mut buf: Vec<u8> = Vec::new();
    let mut i: usize = 0;
    while i < 4096
        invariant
            i <= 4096,
            buf@.len() == i,
        decreases 4096 - i,
    {
        buf.push(0u8);
        i = i + 1;
    }
    match fs.read_file(args, buf.as_mut_slice()) {
        Ok(n) => {
            let d = vstd::slice::slice_subrange(buf.as_slice(), 0, n);
            let ghost p = encode_utf8(args@);
            assert(d@ =~= fs@.nodes[resolve(fs@, p)->Ok_0 as int].data.take(n as int));
            match utf8_str(d) {
                Some(_) => push_bytes(&mut out, d),
                None => {},
            }
        },
        Err(e) => push_error(&mut out, "cat: ", e),
    }
    assert(out@ =~= cat_spec(fs@, args@));
    out
}

/// `echo`.
fn cmd_echo(fs: &mut FileSystem, args: &str) -> (out: Vec<u8>)
    requires
        fs_wf(old(fs)@),
    ensures
        (final(fs)@, out@) == echo_spec(old(fs)@, args@),
        fs_wf(final(fs)@),
{
    let mut out: Vec<u8> = Vec::new();
    match find_char(args, '>') {
        None => {
            push_str(&mut out, args);
            out.push(10u8);
            out
        },
        Some(pos) => {
            let n = args.unicode_len();
            let left = args.substring_char(0, pos);
            let right = args.substring_char(pos + 1, n);
            assert(left@ =~= args@.take(pos as int));
            assert(right@ =~= args@.skip(pos + 1));
            let text = trim(left);
            let file = trim(right);
            if file.is_empty() {
                push_str(&mut out, "echo: missing filename\n");
                return out;
            }
            let tb = text.as_bytes();
            let len = if tb.len() < 4095 { tb.len() } else { 4095 };
            let mut data = vstd::slice::slice_to_vec(vstd::slice::slice_subrange(tb, 0, len));
            data.push(10u8);
            let ghost tbs = encode_utf8(text@);
            assert(data@ =~= (if tbs.len() < 4095 { tbs } else { tbs.take(4095) }) + seq![10u8]);
            if !fs.path_exists(file) {
                match fs.create_file(file) {
                    Ok(()) => {},
                    Err(e) => {
                        push_error(&mut out, "echo: ", e);
                        return out;
                    },
                }
            }
            match fs.write_file(file, data.as_slice()) {
                Ok(()) => {},
                Err(e) => push_error(&mut out, "echo: ", e),
            }
            out
        },
    }
}

/// `touch`.
fn cmd_touch(fs: &mut FileSystem, args: &str) -> (out: Vec<u8>)
    requires
        fs_wf(old(fs)@),
    ensures
        (final(fs)@, out@) == touch_spec(old(fs)@, args@),
        fs_wf(final(fs)@),
{
    let mut out: Vec<u8> = Vec::new();
    if args.is_empty() {
        push_str(&mut out, "touch: missing filename\n");
        return out;
    }
    if !fs.path_exists(args) {
        match fs.create_file(args) {
            Ok(()) => {},
            Err(e) => push_error(&mut out, "touch: ", e),
        }
    }
    out
}

/// `mkdir`.
fn cmd_mkdir(fs: &mut FileSystem, args: &str) -> (out: Vec<u8>)
    requires
        fs_wf(old(fs)@),
    ensures
        (final(fs)@, out@) == mkdir_spec(old(fs)@, args@),
        fs_wf(final(fs)@),
{
    let mut out: Vec<u8> = Vec::new();
    if args.is_empty() {
        push_str(&mut out, "mkdir: missing name\n");
        return out;
    }
    match fs.create_dir(args) {
        Ok(()) => {},
        Err(e) => push_error(&mut out, "mkdir: ", e),
    }
    out
}

/// `rm`.
fn cmd_rm(fs: &mut FileSystem, args: &str) -> (out: Vec<u8>)
    requires
        fs_wf(old(fs)@),
    ensures
        (final(fs)@, out@) == rm_spec(old(fs)@, args@),
        fs_wf(final(fs)@),
{
    let mut out: Vec<u8> = Vec::new();
    if args.is_empty() {
        push_str(&mut out, "rm: missing path\n");
        return out;
    }
    match fs.delete(args) {
        Ok(()) => {},
        Err(e) => push_error(&mut out, "rm: ", e),
    }
    out
}

/// `mv`.
fn cmd_mv(fs: &mut FileSystem, args: &str) -> (out: Vec<u8>)
    requires
        fs_wf(old(fs)@),
    ensures
        (final(fs)@, out@) == mv_spec(old(fs)@, args@),
        fs_wf(final(fs)@),
{
    let mut out: Vec<u8> = Vec::new();
    let n = args.unicode_len();
    let (src, rest): (&str, Option<&str>) = match find_char(args, ' ') {
        Some(i) => {
            let a = args.substring_char(0, i);
            let b = args.substring_char(i + 1, n);
            assert(a@ =~= args@.take(i as int));
            assert(b@ =~= args@.skip(i + 1));
            (a, Some(b))
        },
        None => (args, None),
    };
    if src.is_empty() {
        push_str(&mut out, "mv: missing source\n");
        return out;
    }
    match rest {
        None => {
            push_str(&mut out, "mv: missing destination\n");
            out
        },
        Some(r) => {
            if r.is_empty() {
                push_str(&mut out, "mv: missing destination\n");
                return out;
            }
            let dst = trim(r);
            match fs.rename(src, dst) {
                Ok(()) => {},
                Err(e) => push_error(&mut out, "mv: ", e),
            }
            out
        },
    }
}

/// Run a command that only touches the file system; returns its text.
pub fn run_command(fs: &mut FileSystem, cmd: Command, name: &str, args: &str) -> (out: Vec<u8>)
    requires
        fs_wf(old(fs)@),
        cmd != Command::Clear,
        cmd != Command::Edit,
        cmd != Command::Uptime,
        cmd != Command::Shutdown,
    ensures
        (final(fs)@, out@) == command_output(old(fs)@, cmd, name@, args@),
        fs_wf(final(fs)@),
{
    match cmd {
        Command::Help => {
            let mut out: Vec<u8> = Vec::new();
            push_str(&mut out, HELP);
            out
        },
        Command::Ls => cmd_ls(fs, args),
        Command::Cd => cmd_cd(fs, args),
        Command::Pwd => cmd_pwd(fs),
        Command::Cat => cmd_cat(fs, args),
        Command::Echo => cmd_echo(fs, args),
        Command::Touch => cmd_touch(fs, args),
        Command::Mkdir => cmd_mkdir(fs, args),
        Command::Rm => cmd_rm(fs, args),
        Command::Mv => cmd_mv(fs, args),
        Command::Uname => {
            let mut out: Vec<u8> = Vec::new();
            push_str(&mut out, "RxV6 0.1.0 riscv64\n");
            out
        },
        _ => {
            let mut out: Vec<u8> = Vec::new();
            push_str(&mut out, "rxv6: ");
            push_str(&mut out, name);
            push_str(&mut out, ": command not found\n");
            assert(out@ =~= command_output(old(fs)@, cmd, name@, args@).1);
            out
        },
    }
}

/// What the shell does with a typed line: nothing for a line that is not
/// text or is blank; the screen, editor, uptime and power-off commands are
/// handed back; every other command runs here and its text is returned.
pub fn execute<'a>(fs: &mut FileSystem, line: &'a [u8]) -> (r: ShellAction<'a>)
    requires
        fs_wf(old(fs)@),
    ensures
        fs_wf(final(fs)@),
        !valid_utf8(line@) ==> r is Nothing && final(fs)@ == old(fs)@,
        valid_utf8(line@) ==> match split_line_spec(decode_utf8(line@)) {
            None => r is Nothing && final(fs)@ == old(fs)@,
            Some((name, args)) => match command_spec(encode_utf8(name)) {
                Command::Clear => r is Clear && final(fs)@ == old(fs)@,
                Command::Edit => r matches ShellAction::Edit(f) && f@ == args && final(fs)@ == old(fs)@,
                Command::Uptime => r is Uptime && final(fs)@ == old(fs)@,
                Command::Shutdown => r is Shutdown && final(fs)@ == old(fs)@,
                c => r matches ShellAction::Print(out) && (final(fs)@, out@) == command_output(old(fs)@, c, name, args),
            },
        },
{
    let s = match utf8_str(line) {
        Some(s) => s,
        None => {
            return ShellAction::Nothing;
        },
    };
    proof {
        vstd::utf8::encode_utf8_decode_utf8(s@);
        assert(s@ == decode_utf8(line@));
    }
    match split_line(s) {
        None => ShellAction::Nothing,
        Some((name, args)) => {
            let cmd = command_of(name);
            match cmd {
                Command::Clear => ShellAction::Clear,
                Command::Edit => ShellAction::Edit(args),
                Command::Uptime => ShellAction::Uptime,
                Command::Shutdown => ShellAction::Shutdown,
                _ => ShellAction::Print(run_command(fs, cmd, name, args)),
            }
        },
    }
}

/// A line feed alone is text.
proof fn lemma_line_feed_text()
    ensures
        valid_utf8(seq![10u8]),
{
    let nl = seq!['\n'];
    assert(vstd::utf8::is_ascii_chars(nl));
    vstd::utf8::is_ascii_chars_encode_utf8(nl);
    assert(encode_utf8(nl) =~= seq![10u8]);
    vstd::utf8::encode_utf8_valid_utf8(nl);
}

/// The complaint about a missing file name is not empty.
proof fn lemma_echo_missing_text()
    ensures
        "echo: missing filename\n".spec_bytes().len() > 0,
{
    reveal_strlit("echo: missing filename\n");
    assert(vstd::utf8::is_ascii_chars("echo: missing filename\n"@));
    vstd::utf8::is_ascii_chars_encode_utf8("echo: missing filename\n"@);
}

/// Redirected `echo` and `cat` agree: when `echo` with `>` prints nothing,
/// it has written the file, and `cat` of that file then prints the text
/// before `>` (trimmed) and a line feed, for a text of fewer than 4095
/// bytes.
pub proof fn law_echo_then_cat(fs: FsView, args: Seq<char>)
    requires
        fs_wf(fs),
        char_index(args, '>') is Some,
        echo_spec(fs, args).1 == Seq::<u8>::empty(),
        encode_utf8(trim_spec(args.take(char_index(args, '>')->Some_0))).len() < 4095,
    ensures
        ({
            let pos = char_index(args, '>')->Some_0;
            cat_spec(echo_spec(fs, args).0, trim_spec(args.skip(pos + 1))) == encode_utf8(trim_spec(args.take(pos)))
                + seq![10u8]
        }),
{
    let pos = char_index(args, '>')->Some_0;
    let file = trim_spec(args.skip(pos + 1));
    let tb = encode_utf8(trim_spec(args.take(pos)));
    let data = tb + seq![10u8];
    let p = encode_utf8(file);
    lemma_echo_missing_text();
    assert(file.len() > 0);
    crate::fs_laws::lemma_create_wf(fs, p, NodeKind::File);
    let fs1 = if resolve(fs, p) is Ok { fs } else { create_spec(fs, p, NodeKind::File).0 };
    assert(fs_wf(fs1));
    assert(write_spec(fs1, p, data).1 is Ok);
    let fs2 = write_spec(fs1, p, data).0;
    assert(echo_spec(fs, args).0 == fs2);
    crate::fs_laws::law_write_keeps_shape(fs1, p, data, p);
    crate::fs::lemma_resolve_bound(fs1, p);
    let idx = resolve(fs1, p)->Ok_0;
    assert(resolve(fs2, p) == Ok::<usize, FsError>(idx));
    assert(fs2.nodes[idx as int].data =~= data);
    assert(read_spec(fs2, p, 4096) == Ok::<usize, FsError>(data.len() as usize));
    assert(data.take(data.len() as int) =~= data);
    vstd::utf8::encode_utf8_valid_utf8(trim_spec(args.take(pos)));
    lemma_line_feed_text();
    vstd::utf8::valid_utf8_concat(tb, seq![10u8]);
}

} // verus!
