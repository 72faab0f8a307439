//! A small in-memory file system: a fixed table of nodes, each a file, a
//! directory or free, linked into a tree by parent indices and child lists.
use vstd::prelude::*;
use vstd::string::StringSliceAdditionalSpecFns;
use crate::text::bytes_eq;

verus! {

/// Number of node slots in the table; slot 0 is the root directory.
pub const MAX_NODES: usize = 128;

/// Longest name, in bytes, that a node can carry.
pub const MAX_NAME: usize = 28;

/// Most entries a directory can list.
pub const MAX_CHILDREN: usize = 16;

/// Largest file content, in bytes.
pub const MAX_FILE_SIZE: usize = 4096;

/// What a node slot holds.
#[derive(Clone, Copy, PartialEq, Eq, Structural, Debug)]
pub enum NodeKind {
    Free,
    File,
    Dir,
}

/// Why a file-system request was refused.
#[derive(Clone, Copy, PartialEq, Eq, Structural, Debug)]
pub enum FsError {
    NotFound,
    NotADir,
    NotAFile,
    AlreadyExists,
    NoSpace,
    NameTooLong,
    DirNotEmpty,
    InvalidPath,
}

impl FsError {
    /// The human-readable text of the error.
    pub fn message(&self) -> (r: &'static str)
        ensures
            r@ == fs_error_text(*self),
    {
        match self {
            FsError::NotFound => "not found",
            FsError::NotADir => "not a directory",
            FsError::NotAFile => "not a file",
            FsError::AlreadyExists => "already exists",
            FsError::NoSpace => "no space left",
            FsError::NameTooLong => "name too long",
            FsError::DirNotEmpty => "directory not empty",
            FsError::InvalidPath => "invalid path",
        }
    }
}

/// The text that names each error.
pub open spec fn fs_error_text(e: FsError) -> Seq<char> {
    match e {
        FsError::NotFound => "not found"@,
        FsError::NotADir => "not a directory"@,
        FsError::NotAFile => "not a file"@,
        FsError::AlreadyExists => "already exists"@,
        FsError::NoSpace => "no space left"@,
        FsError::NameTooLong => "name too long"@,
        FsError::DirNotEmpty => "directory not empty"@,
        FsError::InvalidPath => "invalid path"@,
    }
}

/// One line of a directory listing.
#[derive(Clone, Copy)]
pub struct DirEntry {
    pub name: [u8; 28],
    pub name_len: usize,
    pub is_dir: bool,
    pub size: usize,
}

/// A blank listing line.
pub fn empty_entry() -> (e: DirEntry)
    ensures
        e.name@ == Seq::new(28, |i: int| 0u8),
        e.name_len == 0,
        !e.is_dir,
        e.size == 0,
{
    let e = DirEntry { name: [0u8; 28], name_len: 0, is_dir: false, size: 0 };
    assert(e.name@ =~= Seq::new(28, |i: int| 0u8));
    e
}

/// A node slot.
struct Node {
    kind: NodeKind,
    name: Vec<u8>,
    parent: usize,
    data: Vec<u8>,
    children: Vec<usize>,
}

/// The abstract content of a node slot.
#[verifier::ext_equal]
pub struct NodeView {
    pub kind: NodeKind,
    pub name: Seq<u8>,
    pub parent: usize,
    pub data: Seq<u8>,
    pub children: Seq<usize>,
}

/// The abstract state of the file system: the node table and the
/// current directory.
#[verifier::ext_equal]
pub struct FsView {
    pub nodes: Seq<NodeView>,
    pub cwd: usize,
}

impl Node {
    spec fn view(&self) -> NodeView {
        NodeView {
            kind: self.kind,
            name: self.name@,
            parent: self.parent,
            data: self.data@,
            children: self.children@,
        }
    }
}

/// The file system: a table of node slots and the current directory.
pub struct FileSystem {
    nodes: Vec<Node>,
    cwd: usize,
}

impl View for FileSystem {
    type V = FsView;

    closed spec fn view(&self) -> FsView {
        FsView { nodes: Seq::new(self.nodes@.len(), |i: int| self.nodes@[i].view()), cwd: self.cwd }
    }
}

/// A free slot, as every slot is before the file system is set up.
pub open spec fn blank_node() -> NodeView {
    NodeView { kind: NodeKind::Free, name: seq![], parent: 0, data: seq![], children: seq![] }
}

/// Bounds that every state of the file system keeps: the table has its
/// fixed size, every index stored in it is a slot of the table, and no
/// name, content or child list is longer than its limit.
pub open spec fn fs_wf(s: FsView) -> bool {
    &&& s.nodes.len() == MAX_NODES
    &&& s.cwd < MAX_NODES
    &&& forall|i: int| 0 <= i < MAX_NODES ==> #[trigger] node_wf(s.nodes[i])
}

pub open spec fn node_wf(n: NodeView) -> bool {
    &&& n.parent < MAX_NODES
    &&& n.name.len() <= MAX_NAME
    &&& n.data.len() <= MAX_FILE_SIZE
    &&& n.children.len() <= MAX_CHILDREN
    &&& forall|j: int| 0 <= j < n.children.len() ==> #[trigger] n.children[j] < MAX_NODES
}

/// The first of `kids` whose name is `name`.
pub open spec fn find_in(s: FsView, kids: Seq<usize>, name: Seq<u8>) -> Option<usize>
    decreases kids.len(),
{
    if kids.len() == 0 {
        None
    } else if s.nodes[kids[0] as int].name == name {
        Some(kids[0])
    } else {
        find_in(s, kids.drop_first(), name)
    }
}

/// The first child of `dir` named `name`.
pub open spec fn find_child(s: FsView, dir: usize, name: Seq<u8>) -> Option<usize> {
    find_in(s, s.nodes[dir as int].children, name)
}

pub open spec fn is_dot(part: Seq<u8>) -> bool {
    part =~= seq![46u8]
}

pub open spec fn is_dot_dot(part: Seq<u8>) -> bool {
    part =~= seq![46u8, 46u8]
}

/// Where the first `/`-separated segment of `p` ends.
pub open spec fn seg_end(p: Seq<u8>) -> nat
    decreases p.len(),
{
    if p.len() == 0 {
        0
    } else if p[0] == 47u8 {
        0
    } else {
        1 + seg_end(p.drop_first())
    }
}

pub proof fn lemma_seg_end_bound(p: Seq<u8>)
    ensures
        seg_end(p) <= p.len(),
        seg_end(p) < p.len() ==> p[seg_end(p) as int] == 47u8,
        forall|j: int| 0 <= j < seg_end(p) ==> p[j] != 47u8,
    decreases p.len(),
{
    if p.len() > 0 && p[0] != 47u8 {
        lemma_seg_end_bound(p.drop_first());
        assert forall|j: int| 0 <= j < seg_end(p) implies p[j] != 47u8 by {
            if j > 0 {
                assert(p[j] == p.drop_first()[j - 1]);
            }
        }
    }
}

/// The segment ends at `k` when no byte before `k` is a slash and `k` is
/// the end or a slash.
pub proof fn lemma_seg_end_at(p: Seq<u8>, k: int)
    requires
        0 <= k <= p.len(),
        forall|j: int| 0 <= j < k ==> p[j] != 47u8,
        k == p.len() || p[k] == 47u8,
    ensures
        seg_end(p) == k,
    decreases p.len(),
{
    if p.len() > 0 && k > 0 {
        assert forall|j: int| 0 <= j < k - 1 implies p.drop_first()[j] != 47u8 by {
            assert(p.drop_first()[j] == p[j + 1]);
        }
        lemma_seg_end_at(p.drop_first(), k - 1);
    }
}

/// One segment of a path taken from node `cur`.
pub open spec fn step(s: FsView, cur: usize, part: Seq<u8>) -> Result<usize, FsError> {
    if part.len() == 0 || is_dot(part) {
        Ok(cur)
    } else if is_dot_dot(part) {
        Ok(s.nodes[cur as int].parent)
    } else if s.nodes[cur as int].kind != NodeKind::Dir {
        Err(FsError::NotADir)
    } else {
        match find_child(s, cur, part) {
            Some(c) => Ok(c),
            None => Err(FsError::NotFound),
        }
    }
}

/// The segments of `p`, split at each `/`, taken in turn from `cur`.
pub open spec fn walk(s: FsView, cur: usize, p: Seq<u8>) -> Result<usize, FsError>
    decreases p.len(),
{
    let k = seg_end(p);
    proof {
        lemma_seg_end_bound(p);
    }
    match step(s, cur, p.subrange(0, k as int)) {
        Err(e) => Err(e),
        Ok(n) => if k >= p.len() {
            Ok(n)
        } else {
            walk(s, n, p.subrange(k as int + 1, p.len() as int))
        },
    }
}

/// The node a path names: absolute paths start at the root, others at the
/// current directory, and the empty path names the current directory.
pub open spec fn resolve(s: FsView, p: Seq<u8>) -> Result<usize, FsError> {
    if p.len() == 0 {
        Ok(s.cwd)
    } else if p[0] == 47u8 {
        walk(s, 0, p)
    } else {
        walk(s, s.cwd, p)
    }
}

/// The index of the last `/` in `p`.
pub open spec fn last_slash(p: Seq<u8>) -> Option<int>
    decreases p.len(),
{
    if p.len() == 0 {
        None
    } else if p.last() == 47u8 {
        Some(p.len() - 1)
    } else {
        last_slash(p.drop_last())
    }
}

/// A path cut at its last `/` into the directory part and the final name.
/// A path whose only `/` leads gives the root; a path without `/` gives an
/// empty directory part.
pub open spec fn split_parent_spec(p: Seq<u8>) -> (Seq<u8>, Seq<u8>) {
    match last_slash(p) {
        Some(i) => if i == 0 {
            (seq![47u8], p.subrange(1, p.len() as int))
        } else {
            (p.subrange(0, i), p.subrange(i + 1, p.len() as int))
        },
        None => (seq![], p),
    }
}

/// The first free slot at index `i` or above.
pub open spec fn first_free_from(s: FsView, i: nat) -> Option<usize>
    decreases MAX_NODES - i,
{
    if i >= MAX_NODES {
        None
    } else if s.nodes[i as int].kind == NodeKind::Free {
        Some(i as usize)
    } else {
        first_free_from(s, i + 1)
    }
}

/// The slot a new node takes: the first free one after the root.
pub open spec fn first_free(s: FsView) -> Option<usize> {
    first_free_from(s, 1)
}


pub open spec fn set_node(s: FsView, i: usize, n: NodeView) -> FsView {
    FsView { nodes: s.nodes.update(i as int, n), cwd: s.cwd }
}

/// The first position of `x` in `kids`.
pub open spec fn first_index(kids: Seq<usize>, x: usize) -> Option<int>
    decreases kids.len(),
{
    if kids.len() == 0 {
        None
    } else if kids[0] == x {
        Some(0)
    } else {
        match first_index(kids.drop_first(), x) {
            Some(j) => Some(j + 1),
            None => None,
        }
    }
}

/// A child list with its first `x` replaced by its last entry and the last
/// entry dropped; unchanged when `x` is not listed.
pub open spec fn remove_from(kids: Seq<usize>, x: usize) -> Seq<usize> {
    match first_index(kids, x) {
        Some(i) => kids.update(i, kids.last()).drop_last(),
        None => kids,
    }
}

/// `child` taken out of the child list of `parent`.
pub open spec fn remove_child_spec(s: FsView, parent: usize, child: usize) -> FsView {
    let p = s.nodes[parent as int];
    set_node(s, parent, NodeView { children: remove_from(p.children, child), ..p })
}

/// `child` appended to the child list of `parent`, unless that list is full.
pub open spec fn add_child_spec(s: FsView, parent: usize, child: usize) -> (FsView, Result<(), FsError>) {
    let p = s.nodes[parent as int];
    if p.children.len() >= MAX_CHILDREN {
        (s, Err(FsError::NoSpace))
    } else {
        (set_node(s, parent, NodeView { children: p.children.push(child), ..p }), Ok(()))
    }
}

/// Node `i` renamed to `name`, unless the name is too long.
pub open spec fn set_name_spec(s: FsView, i: usize, name: Seq<u8>) -> (FsView, Result<(), FsError>) {
    if name.len() > MAX_NAME {
        (s, Err(FsError::NameTooLong))
    } else {
        (set_node(s, i, NodeView { name: name, ..s.nodes[i as int] }), Ok(()))
    }
}

/// A new node of kind `kind` at `path`. The slot is claimed before its name
/// is checked and before it is linked, so a refusal for the name or for a
/// full directory leaves the claimed slot behind, unlinked.
pub open spec fn create_spec(s: FsView, path: Seq<u8>, kind: NodeKind) -> (FsView, Result<(), FsError>) {
    let (ppath, name) = split_parent_spec(path);
    if name.len() == 0 {
        (s, Err(FsError::InvalidPath))
    } else {
        match resolve(s, ppath) {
            Err(e) => (s, Err(e)),
            Ok(parent) => if s.nodes[parent as int].kind != NodeKind::Dir {
                (s, Err(FsError::NotADir))
            } else if find_child(s, parent, name) is Some {
                (s, Err(FsError::AlreadyExists))
            } else {
                match first_free(s) {
                    None => (s, Err(FsError::NoSpace)),
                    Some(idx) => {
                        let n0 = s.nodes[idx as int];
                        let n1 = if kind == NodeKind::File {
                            NodeView { kind: kind, parent: parent, data: seq![], ..n0 }
                        } else {
                            NodeView { kind: kind, parent: parent, children: seq![], ..n0 }
                        };
                        let s1 = set_node(s, idx, n1);
                        let (s2, r2) = set_name_spec(s1, idx, name);
                        if r2 is Err {
                            (s2, r2)
                        } else {
                            add_child_spec(s2, parent, idx)
                        }
                    },
                }
            },
        }
    }
}

/// Replace the content of the file at `path` with the first
/// `MAX_FILE_SIZE` bytes of `data`.
pub open spec fn write_spec(s: FsView, path: Seq<u8>, data: Seq<u8>) -> (FsView, Result<(), FsError>) {
    match resolve(s, path) {
        Err(e) => (s, Err(e)),
        Ok(idx) => if s.nodes[idx as int].kind != NodeKind::File {
            (s, Err(FsError::NotAFile))
        } else {
            let len = if data.len() < MAX_FILE_SIZE { data.len() } else { MAX_FILE_SIZE as nat };
            (set_node(s, idx, NodeView { data: data.subrange(0, len as int), ..s.nodes[idx as int] }), Ok(()))
        },
    }
}

/// Remove the node at `path`: the root cannot go, nor a directory that
/// still lists children; the node is unlinked from its parent and its slot
/// freed.
pub open spec fn delete_spec(s: FsView, path: Seq<u8>) -> (FsView, Result<(), FsError>) {
    match resolve(s, path) {
        Err(e) => (s, Err(e)),
        Ok(idx) => if idx == 0 {
            (s, Err(FsError::InvalidPath))
        } else if s.nodes[idx as int].kind == NodeKind::Dir && s.nodes[idx as int].children.len() > 0 {
            (s, Err(FsError::DirNotEmpty))
        } else {
            let s1 = remove_child_spec(s, s.nodes[idx as int].parent, idx);
            (set_node(s1, idx, NodeView { kind: NodeKind::Free, ..s1.nodes[idx as int] }), Ok(()))
        },
    }
}

/// Move the node at `old` to `new`. The node is unlinked from its old parent
/// and given its new parent before its new name is checked and before it is
/// linked, so a refusal for the name or for a full directory leaves it
/// unlinked.
pub open spec fn rename_spec(s: FsView, old: Seq<u8>, new: Seq<u8>) -> (FsView, Result<(), FsError>) {
    match resolve(s, old) {
        Err(e) => (s, Err(e)),
        Ok(idx) => if idx == 0 {
            (s, Err(FsError::InvalidPath))
        } else {
            let (ppath, name) = split_parent_spec(new);
            match resolve(s, ppath) {
                Err(e) => (s, Err(e)),
                Ok(np) => if s.nodes[np as int].kind != NodeKind::Dir {
                    (s, Err(FsError::NotADir))
                } else {
                    let s1 = remove_child_spec(s, s.nodes[idx as int].parent, idx);
                    let s2 = set_node(s1, idx, NodeView { parent: np, ..s1.nodes[idx as int] });
                    let (s3, r3) = set_name_spec(s2, idx, name);
                    if r3 is Err {
                        (s3, r3)
                    } else {
                        add_child_spec(s3, np, idx)
                    }
                },
            }
        },
    }
}

/// Make the directory at `path` the current one.
pub open spec fn set_cwd_spec(s: FsView, path: Seq<u8>) -> (FsView, Result<(), FsError>) {
    match resolve(s, path) {
        Err(e) => (s, Err(e)),
        Ok(idx) => if s.nodes[idx as int].kind != NodeKind::Dir {
            (s, Err(FsError::NotADir))
        } else {
            (FsView { cwd: idx, ..s }, Ok(()))
        },
    }
}

/// What a read of `path` into a buffer of `buf_len` bytes returns: the
/// number of bytes copied, the smaller of the file's size and the buffer's.
pub open spec fn read_spec(s: FsView, path: Seq<u8>, buf_len: nat) -> Result<usize, FsError> {
    match resolve(s, path) {
        Err(e) => Err(e),
        Ok(idx) => if s.nodes[idx as int].kind != NodeKind::File {
            Err(FsError::NotAFile)
        } else {
            let d = s.nodes[idx as int].data;
            Ok((if d.len() < buf_len { d.len() } else { buf_len }) as usize)
        },
    }
}

/// What a listing of `path` into `cap` entries returns: the number of
/// entries filled, the smaller of the directory's child count and `cap`.
pub open spec fn list_spec(s: FsView, path: Seq<u8>, cap: nat) -> Result<usize, FsError> {
    match resolve(s, path) {
        Err(e) => Err(e),
        Ok(idx) => if s.nodes[idx as int].kind != NodeKind::Dir {
            Err(FsError::NotADir)
        } else {
            let k = s.nodes[idx as int].children;
            Ok((if k.len() < cap { k.len() } else { cap }) as usize)
        },
    }
}


/// The set-up of a blank table: the root directory, `/home`, `/tmp` and a
/// greeting in `/readme.txt`.
pub open spec fn init_spec(s: FsView) -> FsView {
    let r = s.nodes[0];
    let s0 = set_node(s, 0, NodeView { kind: NodeKind::Dir, name: seq![47u8], parent: 0, ..r });
    let s1 = create_spec(s0, "/home".spec_bytes(), NodeKind::Dir).0;
    let s2 = create_spec(s1, "/tmp".spec_bytes(), NodeKind::Dir).0;
    let s3 = create_spec(s2, "/readme.txt".spec_bytes(), NodeKind::File).0;
    write_spec(s3, "/readme.txt".spec_bytes(), "Welcome to RxV6.\nType 'help' for commands.\n".spec_bytes()).0
}


/// A name padded with zero bytes to `MAX_NAME` bytes.
pub open spec fn padded_name(name: Seq<u8>) -> Seq<u8> {
    Seq::new(MAX_NAME as nat, |j: int| if j < name.len() { name[j] } else { 0u8 })
}

/// The listing line for node `c`.
pub open spec fn entry_matches(s: FsView, c: usize, e: DirEntry) -> bool {
    &&& e.name@ == padded_name(s.nodes[c as int].name)
    &&& e.name_len == s.nodes[c as int].name.len()
    &&& e.is_dir == (s.nodes[c as int].kind == NodeKind::Dir)
    &&& e.size == s.nodes[c as int].data.len()
}

/// The nodes from just below the root down to `idx`, found by following
/// parents at most `k` times.
pub open spec fn ancestry(s: FsView, idx: usize, k: nat) -> Seq<usize>
    decreases k,
{
    if idx == 0 || k == 0 {
        seq![]
    } else {
        ancestry(s, s.nodes[idx as int].parent, (k - 1) as nat).push(idx)
    }
}

/// Each node of `chain` written as `/` followed by its name.
pub open spec fn join_names(s: FsView, chain: Seq<usize>) -> Seq<u8>
    decreases chain.len(),
{
    if chain.len() == 0 {
        seq![]
    } else {
        join_names(s, chain.drop_last()) + seq![47u8] + s.nodes[chain.last() as int].name
    }
}

/// The text of the current directory's path: `/` for the root, otherwise
/// the names of at most 32 ancestors, each after a `/`.
pub open spec fn cwd_path_spec(s: FsView) -> Seq<u8> {
    if s.cwd == 0 {
        seq![47u8]
    } else {
        join_names(s, ancestry(s, s.cwd, 32))
    }
}


pub proof fn lemma_last_slash_at(p: Seq<u8>, i: int)
    requires
        0 <= i < p.len(),
        p[i] == 47u8,
        forall|j: int| i < j < p.len() ==> p[j] != 47u8,
    ensures
        last_slash(p) == Some(i),
    decreases p.len(),
{
    if i < p.len() - 1 {
        assert forall|j: int| i < j < p.drop_last().len() implies p.drop_last()[j] != 47u8 by {
            assert(p.drop_last()[j] == p[j]);
        }
        lemma_last_slash_at(p.drop_last(), i);
    }
}

pub proof fn lemma_last_slash_none(p: Seq<u8>)
    requires
        forall|j: int| 0 <= j < p.len() ==> p[j] != 47u8,
    ensures
        last_slash(p) is None,
    decreases p.len(),
{
    if p.len() > 0 {
        assert forall|j: int| 0 <= j < p.drop_last().len() implies p.drop_last()[j] != 47u8 by {
            assert(p.drop_last()[j] == p[j]);
        }
        lemma_last_slash_none(p.drop_last());
    }
}

pub proof fn lemma_first_index_at(kids: Seq<usize>, x: usize, i: int)
    requires
        0 <= i <= kids.len(),
        forall|j: int| 0 <= j < i ==> kids[j] != x,
        i < kids.len() ==> kids[i] == x,
    ensures
        i < kids.len() ==> first_index(kids, x) == Some(i),
        i == kids.len() ==> first_index(kids, x) is None,
    decreases kids.len(),
{
    if kids.len() > 0 && i > 0 {
        assert forall|j: int| 0 <= j < i - 1 implies kids.drop_first()[j] != x by {
            assert(kids.drop_first()[j] == kids[j + 1]);
        }
        lemma_first_index_at(kids.drop_first(), x, i - 1);
    }
}

pub proof fn lemma_first_free_skip(s: FsView, i: nat)
    requires
        i < MAX_NODES,
        s.nodes[i as int].kind != NodeKind::Free,
    ensures
        first_free_from(s, i) == first_free_from(s, i + 1),
{
}

/// A slice of `p` copied out.
fn copy_range(p: &[u8], a: usize, b: usize) -> (r: Vec<u8>)
    requires
        a <= b <= p@.len(),
    ensures
        r@ == p@.subrange(a as int, b as int),
{
    let mut r: Vec<u8> = Vec::new();
    let mut i = a;
    while i < b
        invariant
            a <= i <= b <= p@.len(),
            r@ =~= p@.subrange(a as int, i as int),
        decreases b - i,
    {
        r.push(p[i]);
        i = i + 1;
    }
    r
}

/// A path cut at its last `/` into its directory part and its final name.
pub fn split_parent(path: &[u8]) -> (r: (Vec<u8>, Vec<u8>))
    ensures
        (r.0@, r.1@) == split_parent_spec(path@),
{
    let len = path.len();
    let mut i = len;
    while i > 0
        invariant
            i <= len == path@.len(),
            forall|j: int| i <= j < len ==> path@[j] != 47u8,
        decreases i,
    {
        if path[i - 1] == 47u8 {
            let k = i - 1;
            proof {
                lemma_last_slash_at(path@, k as int);
            }
            if k == 0 {
                let mut root: Vec<u8> = Vec::new();
                root.push(47u8);
                let name = copy_range(path, 1, len);
                assert(root@ =~= seq![47u8]);
                return (root, name);
            } else {
                return (copy_range(path, 0, k), copy_range(path, k + 1, len));
            }
        }
        i = i - 1;
    }
    proof {
        lemma_last_slash_none(path@);
    }
    let whole = copy_range(path, 0, len);
    assert(whole@ =~= path@);
    (Vec::new(), whole)
}


/// `src[..len]` written into `buf` at `at`; the rest of `buf` is kept.
fn copy_into(buf: &mut [u8], at: usize, src: &[u8], len: usize)
    requires
        len <= src@.len(),
        at + len <= old(buf)@.len(),
    ensures
        final(buf)@.len() == old(buf)@.len(),
        forall|j: int| 0 <= j < at ==> final(buf)@[j] == old(buf)@[j],
        forall|j: int| 0 <= j < len ==> final(buf)@[at + j] == src@[j],
        forall|j: int| at + len <= j < old(buf)@.len() ==> final(buf)@[j] == old(buf)@[j],
{
    let blen = buf.len();
    let mut k: usize = 0;
    while k < len
        invariant
            len <= src@.len(),
            blen == buf@.len(),
            at + len <= buf@.len(),
            buf@.len() == old(buf)@.len(),
            k <= len,
            forall|j: int| 0 <= j < at ==> buf@[j] == old(buf)@[j],
            forall|j: int| 0 <= j < k ==> buf@[at + j] == src@[j],
            forall|j: int| at + k <= j < old(buf)@.len() ==> buf@[j] == old(buf)@[j],
        decreases len - k,
    {
        buf[at + k] = src[k];
        k = k + 1;
    }
}

/// Every node that a path leads to is a slot of the table.
pub proof fn lemma_walk_bound(s: FsView, cur: usize, p: Seq<u8>)
    requires
        fs_wf(s),
        cur < MAX_NODES,
    ensures
        walk(s, cur, p) matches Ok(n) ==> n < MAX_NODES,
    decreases p.len(),
{
    lemma_seg_end_bound(p);
    let k = seg_end(p);
    let part = p.subrange(0, k as int);
    assert(node_wf(s.nodes[cur as int]));
    if let Ok(n) = step(s, cur, part) {
        if !(part.len() == 0 || is_dot(part) || is_dot_dot(part)) {
            lemma_find_child_bound(s, cur, part);
        }
        if k < p.len() {
            lemma_walk_bound(s, n, p.subrange(k as int + 1, p.len() as int));
        }
    }
}

pub proof fn lemma_find_in_member(s: FsView, kids: Seq<usize>, name: Seq<u8>)
    ensures
        find_in(s, kids, name) matches Some(c) ==> kids.contains(c) && s.nodes[c as int].name == name,
    decreases kids.len(),
{
    if kids.len() > 0 && s.nodes[kids[0] as int].name != name {
        lemma_find_in_member(s, kids.drop_first(), name);
        if let Some(c) = find_in(s, kids.drop_first(), name) {
            let j = choose|j: int| 0 <= j < kids.drop_first().len() && kids.drop_first()[j] == c;
            assert(kids[j + 1] == c);
        }
    } else if kids.len() > 0 {
        assert(kids[0] == kids[0]);
    }
}

pub proof fn lemma_find_child_bound(s: FsView, dir: usize, name: Seq<u8>)
    requires
        fs_wf(s),
        dir < MAX_NODES,
    ensures
        find_child(s, dir, name) matches Some(c) ==> c < MAX_NODES,
{
    lemma_find_in_member(s, s.nodes[dir as int].children, name);
    assert(node_wf(s.nodes[dir as int]));
}

/// Every node that a path leads to is a slot of the table.
pub proof fn lemma_resolve_bound(s: FsView, p: Seq<u8>)
    requires
        fs_wf(s),
    ensures
        resolve(s, p) matches Ok(n) ==> n < MAX_NODES,
{
    if p.len() > 0 {
        if p[0] == 47u8 {
            lemma_walk_bound(s, 0, p);
        } else {
            lemma_walk_bound(s, s.cwd, p);
        }
    }
}

/// The blank slot.
fn empty_node() -> (n: Node)
    ensures
        n.view() == blank_node(),
{
    let n = Node { kind: NodeKind::Free, name: Vec::new(), parent: 0, data: Vec::new(), children: Vec::new() };
    assert(n.view() =~= blank_node());
    n
}

pub proof fn lemma_find_in_skip(s: FsView, kids: Seq<usize>, name: Seq<u8>, i: int)
    requires
        0 <= i < kids.len(),
        s.nodes[kids[i] as int].name != name,
    ensures
        find_in(s, kids.skip(i), name) == find_in(s, kids.skip(i + 1), name),
{
    assert(kids.skip(i).drop_first() =~= kids.skip(i + 1));
}

impl FileSystem {
    /// The table before set-up: every slot free, the current directory the root.
    pub fn new() -> (fs: Self)
        ensures
            fs@ == (FsView { nodes: Seq::new(MAX_NODES as nat, |i: int| blank_node()), cwd: 0 }),
            fs_wf(fs@),
    {
        let mut nodes: Vec<Node> = Vec::new();
        let mut i: usize = 0;
        while i < MAX_NODES
            invariant
                i <= MAX_NODES,
                nodes@.len() == i,
                forall|j: int| 0 <= j < i ==> #[trigger] nodes@[j].view() == blank_node(),
            decreases MAX_NODES - i,
        {
            nodes.push(empty_node());
            i = i + 1;
        }
        let fs = FileSystem { nodes, cwd: 0 };
        assert(fs@ =~= (FsView { nodes: Seq::new(MAX_NODES as nat, |i: int| blank_node()), cwd: 0 }));
        fs
    }

    /// Whether node `node` is named `name`.
    fn name_eq(&self, node: usize, name: &[u8]) -> (r: bool)
        requires
            node < self.nodes@.len(),
        ensures
            r == (self@.nodes[node as int].name == name@),
    {
        bytes_eq(self.nodes[node].name.as_slice(), name)
    }

    /// The first child of `dir` named `name`.
    fn find_child(&self, dir: usize, name: &[u8]) -> (r: Result<usize, FsError>)
        requires
            fs_wf(self@),
            dir < MAX_NODES,
        ensures
            r == (match find_child(self@, dir, name@) {
                Some(c) => Ok::<usize, FsError>(c),
                None => Err(FsError::NotFound),
            }),
            r matches Ok(c) ==> c < MAX_NODES,
    {
        let ghost s = self@;
        assert(node_wf(s.nodes[dir as int]));
        let n = self.nodes[dir].children.len();
        let mut i: usize = 0;
        assert(s.nodes[dir as int].children.skip(0) =~= s.nodes[dir as int].children);
        while i < n
            invariant
                s == self@,
                fs_wf(s),
                dir < MAX_NODES,
                n == s.nodes[dir as int].children.len(),
                i <= n,
                find_child(s, dir, name@) == find_in(s, s.nodes[dir as int].children.skip(i as int), name@),
            decreases n - i,
        {
            let c = self.nodes[dir].children[i];
            assert(node_wf(s.nodes[dir as int]));
            assert(c == s.nodes[dir as int].children[i as int]);
            if self.name_eq(c, name) {
                return Ok(c);
            }
            proof {
                lemma_find_in_skip(s, s.nodes[dir as int].children, name@, i as int);
            }
            i = i + 1;
        }
        Err(FsError::NotFound)
    }

    /// One path segment taken from `cur`.
    fn step(&self, cur: usize, part: &[u8]) -> (r: Result<usize, FsError>)
        requires
            fs_wf(self@),
            cur < MAX_NODES,
        ensures
            r == step(self@, cur, part@),
            r matches Ok(c) ==> c < MAX_NODES,
    {
        assert(node_wf(self@.nodes[cur as int]));
        if part.len() == 0 || (part.len() == 1 && part[0] == 46u8) {
            assert(part@.len() == 1 ==> (is_dot(part@) <==> part@[0] == 46u8));
            return Ok(cur);
        }
        assert(part@.len() == 1 && part@[0] != 46u8 ==> !is_dot(part@));
        if part.len() == 2 && part[0] == 46u8 && part[1] == 46u8 {
            assert(is_dot_dot(part@));
            return Ok(self.nodes[cur].parent);
        }
        assert(!is_dot_dot(part@));
        if self.nodes[cur].kind != NodeKind::Dir {
            return Err(FsError::NotADir);
        }
        self.find_child(cur, part)
    }

    /// The segments of `p` taken in turn from `start`.
    fn walk(&self, start: usize, p: &[u8]) -> (r: Result<usize, FsError>)
        requires
            fs_wf(self@),
            start < MAX_NODES,
        ensures
            r == walk(self@, start, p@),
            r matches Ok(c) ==> c < MAX_NODES,
    {
        let ghost s = self@;
        let len = p.len();
        let mut cur = start;
        let mut seg: Vec<u8> = Vec::new();
        let mut seg_start: usize = 0;
        let mut i: usize = 0;
        assert(p@.subrange(0, len as int) =~= p@);
        loop
            invariant
                s == self@,
                fs_wf(s),
                cur < MAX_NODES,
                len == p@.len(),
                seg_start <= i <= len,
                seg@ =~= p@.subrange(seg_start as int, i as int),
                forall|j: int| seg_start <= j < i ==> p@[j] != 47u8,
                walk(s, start, p@) == walk(s, cur, p@.subrange(seg_start as int, len as int)),
            decreases len - i,
        {
            if i == len || p[i] == 47u8 {
                let ghost q = p@.subrange(seg_start as int, len as int);
                proof {
                    lemma_seg_end_at(q, (i - seg_start) as int);
                    assert(q.subrange(0, (i - seg_start) as int) =~= seg@);
                }
                let r = self.step(cur, seg.as_slice());
                match r {
                    Err(e) => {
                        return Err(e);
                    },
                    Ok(next) => {
                        if i == len {
                            return Ok(next);
                        }
                        proof {
                            assert(q.subrange((i - seg_start) + 1, q.len() as int) =~= p@.subrange(
                                i + 1,
                                len as int,
                            ));
                        }
                        cur = next;
                        seg = Vec::new();
                        seg_start = i + 1;
                    },
                }
            } else {
                seg.push(p[i]);
            }
            i = i + 1;
        }
    }

    /// The node that a path names.
    fn resolve(&self, p: &[u8]) -> (r: Result<usize, FsError>)
        requires
            fs_wf(self@),
        ensures
            r == resolve(self@, p@),
            r matches Ok(c) ==> c < MAX_NODES,
    {
        if p.len() == 0 {
            return Ok(self.cwd);
        }
        if p[0] == 47u8 {
            self.walk(0, p)
        } else {
            self.walk(self.cwd, p)
        }
    }
}

impl FileSystem {
    /// The first free slot after the root.
    fn alloc_node(&self) -> (r: Result<usize, FsError>)
        requires
            fs_wf(self@),
        ensures
            r == (match first_free(self@) {
                Some(i) => Ok::<usize, FsError>(i),
                None => Err(FsError::NoSpace),
            }),
            r matches Ok(i) ==> 1 <= i < MAX_NODES && self@.nodes[i as int].kind == NodeKind::Free,
    {
        let ghost s = self@;
        let mut i: usize = 1;
        while i < MAX_NODES
            invariant
                s == self@,
                fs_wf(s),
                1 <= i <= MAX_NODES,
                first_free(s) == first_free_from(s, i as nat),
            decreases MAX_NODES - i,
        {
            if self.nodes[i].kind == NodeKind::Free {
                assert(self@.nodes[i as int].kind == NodeKind::Free);
                return Ok(i);
            }
            proof {
                lemma_first_free_skip(s, i as nat);
            }
            i = i + 1;
        }
        Err(FsError::NoSpace)
    }

    fn set_name(&mut self, idx: usize, name: &[u8]) -> (r: Result<(), FsError>)
        requires
            fs_wf(old(self)@),
            idx < MAX_NODES,
        ensures
            (final(self)@, r) == set_name_spec(old(self)@, idx, name@),
            fs_wf(final(self)@),
    {
        if name.len() > MAX_NAME {
            return Err(FsError::NameTooLong);
        }
        assert(node_wf(old(self)@.nodes[idx as int]));
        let v = vstd::slice::slice_to_vec(name);
        self.nodes[idx].name = v;
        assert(self@ =~= set_name_spec(old(self)@, idx, name@).0);
        assert(node_wf(self@.nodes[idx as int]));
        Ok(())
    }

    fn add_child(&mut self, parent: usize, child: usize) -> (r: Result<(), FsError>)
        requires
            fs_wf(old(self)@),
            parent < MAX_NODES,
            child < MAX_NODES,
        ensures
            (final(self)@, r) == add_child_spec(old(self)@, parent, child),
            fs_wf(final(self)@),
    {
        assert(node_wf(old(self)@.nodes[parent as int]));
        if self.nodes[parent].children.len() >= MAX_CHILDREN {
            return Err(FsError::NoSpace);
        }
        self.nodes[parent].children.push(child);
        assert(self@ =~= add_child_spec(old(self)@, parent, child).0);
        assert(node_wf(self@.nodes[parent as int]));
        Ok(())
    }

    fn remove_child(&mut self, parent: usize, child: usize)
        requires
            fs_wf(old(self)@),
            parent < MAX_NODES,
        ensures
            final(self)@ == remove_child_spec(old(self)@, parent, child),
            fs_wf(final(self)@),
    {
        let ghost s = self@;
        let ghost kids = s.nodes[parent as int].children;
        assert(node_wf(s.nodes[parent as int]));
        let n = self.nodes[parent].children.len();
        let mut i: usize = 0;
        while i < n
            invariant
                s == self@,
                s == old(self)@,
                fs_wf(s),
                parent < MAX_NODES,
                kids == s.nodes[parent as int].children,
                n == kids.len(),
                i <= n,
                forall|j: int| 0 <= j < i ==> kids[j] != child,
            decreases n - i,
        {
            if self.nodes[parent].children[i] == child {
                proof {
                    lemma_first_index_at(kids, child, i as int);
                    assert(node_wf(s.nodes[parent as int]));
                }
                let last = self.nodes[parent].children[n - 1];
                self.nodes[parent].children[i] = last;
                self.nodes[parent].children.pop();
                assert(self@.nodes[parent as int].children =~= remove_from(kids, child));
                assert(self@ =~= remove_child_spec(s, parent, child));
                assert forall|j: int| 0 <= j < self@.nodes[parent as int].children.len() implies
                    #[trigger] self@.nodes[parent as int].children[j] < MAX_NODES by {
                    assert(kids[j] < MAX_NODES);
                    assert(kids[n - 1] < MAX_NODES);
                }
                assert(node_wf(self@.nodes[parent as int]));
                return;
            }
            i = i + 1;
        }
        proof {
            lemma_first_index_at(kids, child, n as int);
        }
        assert(self@ =~= remove_child_spec(s, parent, child));
    }

    /// A new node of the given kind at `path`.
    fn create(&mut self, path: &[u8], kind: NodeKind) -> (r: Result<(), FsError>)
        requires
            fs_wf(old(self)@),
            kind != NodeKind::Free,
        ensures
            (final(self)@, r) == create_spec(old(self)@, path@, kind),
            fs_wf(final(self)@),
    {
        let ghost s = self@;
        let (ppath, name) = split_parent(path);
        if name.len() == 0 {
            return Err(FsError::InvalidPath);
        }
        let parent = match self.resolve(ppath.as_slice()) {
            Ok(p) => p,
            Err(e) => {
                return Err(e);
            },
        };
        if self.nodes[parent].kind != NodeKind::Dir {
            return Err(FsError::NotADir);
        }
        if self.find_child(parent, name.as_slice()).is_ok() {
            return Err(FsError::AlreadyExists);
        }
        let idx = match self.alloc_node() {
            Ok(i) => i,
            Err(e) => {
                return Err(e);
            },
        };
        assert(node_wf(s.nodes[idx as int]));
        self.nodes[idx].kind = kind;
        self.nodes[idx].parent = parent;
        if kind == NodeKind::File {
            self.nodes[idx].data = Vec::new();
        } else {
            self.nodes[idx].children = Vec::new();
        }
        let ghost n0 = s.nodes[idx as int];
        let ghost n1 = if kind == NodeKind::File {
            NodeView { kind: kind, parent: parent, data: seq![], ..n0 }
        } else {
            NodeView { kind: kind, parent: parent, children: seq![], ..n0 }
        };
        assert(self@ =~= set_node(s, idx, n1));
        assert(node_wf(self@.nodes[idx as int]));
        match self.set_name(idx, name.as_slice()) {
            Ok(()) => {},
            Err(e) => {
                return Err(e);
            },
        }
        self.add_child(parent, idx)
    }

    /// Create an empty file at `path`.
    pub fn create_file(&mut self, path: &str) -> (r: Result<(), FsError>)
        requires
            fs_wf(old(self)@),
        ensures
            (final(self)@, r) == create_spec(old(self)@, path.spec_bytes(), NodeKind::File),
            fs_wf(final(self)@),
    {
        self.create(path.as_bytes(), NodeKind::File)
    }

    /// Create an empty directory at `path`.
    pub fn create_dir(&mut self, path: &str) -> (r: Result<(), FsError>)
        requires
            fs_wf(old(self)@),
        ensures
            (final(self)@, r) == create_spec(old(self)@, path.spec_bytes(), NodeKind::Dir),
            fs_wf(final(self)@),
    {
        self.create(path.as_bytes(), NodeKind::Dir)
    }
}


impl FileSystem {
    /// Copy the start of the file at `path` into `buf`.
    pub fn read_file(&self, path: &str, buf: &mut [u8]) -> (r: Result<usize, FsError>)
        requires
            fs_wf(self@),
        ensures
            r == read_spec(self@, path.spec_bytes(), old(buf)@.len()),
            r is Err ==> final(buf)@ == old(buf)@,
            r matches Ok(n) ==> final(buf)@ == self@.nodes[resolve(self@, path.spec_bytes())->Ok_0 as int].data.subrange(0, n as int)
                + old(buf)@.subrange(n as int, old(buf)@.len() as int),
    {
        let idx = match self.resolve(path.as_bytes()) {
            Ok(i) => i,
            Err(e) => {
                return Err(e);
            },
        };
        if self.nodes[idx].kind != NodeKind::File {
            return Err(FsError::NotAFile);
        }
        let dlen = self.nodes[idx].data.len();
        let len = if dlen < buf.len() { dlen } else { buf.len() };
        let ghost d = self@.nodes[idx as int].data;
        let mut i: usize = 0;
        while i < len
            invariant
                len <= d.len(),
                len <= buf@.len(),
                buf@.len() == old(buf)@.len(),
                idx < MAX_NODES,
                d == self@.nodes[idx as int].data,
                fs_wf(self@),
                i <= len,
                forall|j: int| 0 <= j < i ==> buf@[j] == d[j],
                forall|j: int| i <= j < buf@.len() ==> buf@[j] == old(buf)@[j],
            decreases len - i,
        {
            buf[i] = self.nodes[idx].data[i];
            i = i + 1;
        }
        assert(buf@ =~= d.subrange(0, len as int) + old(buf)@.subrange(len as int, old(buf)@.len() as int));
        Ok(len)
    }

    /// Replace the content of the file at `path`.
    pub fn write_file(&mut self, path: &str, data: &[u8]) -> (r: Result<(), FsError>)
        requires
            fs_wf(old(self)@),
        ensures
            (final(self)@, r) == write_spec(old(self)@, path.spec_bytes(), data@),
            fs_wf(final(self)@),
    {
        self.write_file_bytes(path.as_bytes(), data)
    }

    /// Remove the node at `path`.
    pub fn delete(&mut self, path: &str) -> (r: Result<(), FsError>)
        requires
            fs_wf(old(self)@),
        ensures
            (final(self)@, r) == delete_spec(old(self)@, path.spec_bytes()),
            fs_wf(final(self)@),
    {
        let idx = match self.resolve(path.as_bytes()) {
            Ok(i) => i,
            Err(e) => {
                return Err(e);
            },
        };
        if idx == 0 {
            return Err(FsError::InvalidPath);
        }
        if self.nodes[idx].kind == NodeKind::Dir && self.nodes[idx].children.len() > 0 {
            return Err(FsError::DirNotEmpty);
        }
        let parent = self.nodes[idx].parent;
        assert(node_wf(old(self)@.nodes[idx as int]));
        self.remove_child(parent, idx);
        let ghost s1 = self@;
        assert(node_wf(s1.nodes[idx as int]));
        self.nodes[idx].kind = NodeKind::Free;
        assert(self@ =~= set_node(s1, idx, NodeView { kind: NodeKind::Free, ..s1.nodes[idx as int] }));
        assert(node_wf(self@.nodes[idx as int]));
        Ok(())
    }

    /// Move the node at `old_path` to `new_path`.
    pub fn rename(&mut self, old_path: &str, new_path: &str) -> (r: Result<(), FsError>)
        requires
            fs_wf(old(self)@),
        ensures
            (final(self)@, r) == rename_spec(old(self)@, old_path.spec_bytes(), new_path.spec_bytes()),
            fs_wf(final(self)@),
    {
        let ghost s = self@;
        let idx = match self.resolve(old_path.as_bytes()) {
            Ok(i) => i,
            Err(e) => {
                return Err(e);
            },
        };
        if idx == 0 {
            return Err(FsError::InvalidPath);
        }
        let (ppath, name) = split_parent(new_path.as_bytes());
        let np = match self.resolve(ppath.as_slice()) {
            Ok(p) => p,
            Err(e) => {
                return Err(e);
            },
        };
        if self.nodes[np].kind != NodeKind::Dir {
            return Err(FsError::NotADir);
        }
        let op = self.nodes[idx].parent;
        assert(node_wf(s.nodes[idx as int]));
        self.remove_child(op, idx);
        let ghost s1 = self@;
        assert(node_wf(s1.nodes[idx as int]));
        self.nodes[idx].parent = np;
        assert(self@ =~= set_node(s1, idx, NodeView { parent: np, ..s1.nodes[idx as int] }));
        assert(node_wf(self@.nodes[idx as int]));
        match self.set_name(idx, name.as_slice()) {
            Ok(()) => {},
            Err(e) => {
                return Err(e);
            },
        }
        self.add_child(np, idx)
    }

    /// Whether `path` names a node.
    pub fn path_exists(&self, path: &str) -> (r: bool)
        requires
            fs_wf(self@),
        ensures
            r == (resolve(self@, path.spec_bytes()) is Ok),
    {
        self.exists_bytes(path.as_bytes())
    }

    /// Whether `path` names a directory.
    pub fn is_directory(&self, path: &str) -> (r: bool)
        requires
            fs_wf(self@),
        ensures
            r == (match resolve(self@, path.spec_bytes()) {
                Ok(i) => self@.nodes[i as int].kind == NodeKind::Dir,
                Err(_) => false,
            }),
    {
        self.is_directory_bytes(path.as_bytes())
    }

    /// Make the directory at `path` the current one.
    pub fn set_cwd(&mut self, path: &str) -> (r: Result<(), FsError>)
        requires
            fs_wf(old(self)@),
        ensures
            (final(self)@, r) == set_cwd_spec(old(self)@, path.spec_bytes()),
            fs_wf(final(self)@),
    {
        let idx = match self.resolve(path.as_bytes()) {
            Ok(i) => i,
            Err(e) => {
                return Err(e);
            },
        };
        if self.nodes[idx].kind != NodeKind::Dir {
            return Err(FsError::NotADir);
        }
        self.cwd = idx;
        assert(self@ =~= set_cwd_spec(old(self)@, path.spec_bytes()).0);
        Ok(())
    }

    /// Fill `entries` with the listing of the directory at `path`.
    pub fn list_dir(&self, path: &str, entries: &mut [DirEntry]) -> (r: Result<usize, FsError>)
        requires
            fs_wf(self@),
        ensures
            r == list_spec(self@, path.spec_bytes(), old(entries)@.len()),
            final(entries)@.len() == old(entries)@.len(),
            r is Err ==> final(entries)@ == old(entries)@,
            r matches Ok(n) ==> {
                let d = resolve(self@, path.spec_bytes())->Ok_0;
                &&& forall|i: int| 0 <= i < n ==> #[trigger] entry_matches(self@,
                    self@.nodes[d as int].children[i], final(entries)@[i])
                &&& forall|i: int| n <= i < old(entries)@.len() ==> #[trigger] final(entries)@[i] == old(entries)@[i]
            },
    {
        let idx = match self.resolve(path.as_bytes()) {
            Ok(i) => i,
            Err(e) => {
                return Err(e);
            },
        };
        if self.nodes[idx].kind != NodeKind::Dir {
            return Err(FsError::NotADir);
        }
        let nkids = self.nodes[idx].children.len();
        let count = if nkids < entries.len() { nkids } else { entries.len() };
        let ghost kids = self@.nodes[idx as int].children;
        assert(node_wf(self@.nodes[idx as int]));
        let mut i: usize = 0;
        while i < count
            invariant
                fs_wf(self@),
                idx < MAX_NODES,
                kids == self@.nodes[idx as int].children,
                count <= kids.len(),
                count <= entries@.len(),
                entries@.len() == old(entries)@.len(),
                i <= count,
                forall|j: int| 0 <= j < i ==> #[trigger] entry_matches(self@, kids[j], entries@[j]),
                forall|j: int| i <= j < entries@.len() ==> #[trigger] entries@[j] == old(entries)@[j],
            decreases count - i,
        {
            assert(node_wf(self@.nodes[idx as int]));
            let child = self.nodes[idx].children[i];
            assert(child == kids[i as int]);
            let e = self.entry_for(child);
            entries[i] = e;
            i = i + 1;
        }
        Ok(count)
    }

    /// The listing line for node `c`.
    fn entry_for(&self, c: usize) -> (e: DirEntry)
        requires
            fs_wf(self@),
            c < MAX_NODES,
        ensures
            entry_matches(self@, c, e),
    {
        assert(node_wf(self@.nodes[c as int]));
        let ghost nm = self@.nodes[c as int].name;
        let mut name = [0u8; 28];
        let nlen = self.nodes[c].name.len();
        let mut j: usize = 0;
        while j < MAX_NAME
            invariant
                fs_wf(self@),
                c < MAX_NODES,
                nm == self@.nodes[c as int].name,
                nlen == nm.len(),
                nlen <= MAX_NAME,
                j <= MAX_NAME,
                name@.len() == MAX_NAME,
                forall|k: int| 0 <= k < j ==> name@[k] == (if k < nlen { nm[k] } else { 0u8 }),
            decreases MAX_NAME - j,
        {
            if j < nlen {
                name[j] = self.nodes[c].name[j];
            } else {
                name[j] = 0u8;
            }
            j = j + 1;
        }
        assert(name@ =~= padded_name(nm));
        DirEntry {
            name: name,
            name_len: nlen,
            is_dir: self.nodes[c].kind == NodeKind::Dir,
            size: self.nodes[c].data.len(),
        }
    }
}


impl FileSystem {
    /// Set up the root directory, `/home`, `/tmp` and `/readme.txt`.
    pub fn init(&mut self)
        requires
            fs_wf(old(self)@),
        ensures
            final(self)@ == init_spec(old(self)@),
            fs_wf(final(self)@),
    {
        let ghost s = self@;
        assert(node_wf(s.nodes[0]));
        self.nodes[0].kind = NodeKind::Dir;
        let mut root_name: Vec<u8> = Vec::new();
        root_name.push(47u8);
        self.nodes[0].name = root_name;
        self.nodes[0].parent = 0;
        assert(self@ =~= set_node(s, 0, NodeView { kind: NodeKind::Dir, name: seq![47u8], parent: 0, ..s.nodes[0] }));
        assert(node_wf(self@.nodes[0]));
        let _ = self.create_dir("/home");
        let _ = self.create_dir("/tmp");
        let _ = self.create_file("/readme.txt");
        let _ = self.write_file("/readme.txt", "Welcome to RxV6.\nType 'help' for commands.\n".as_bytes());
    }

    /// Write the current directory's path into `buf`, cut to its length;
    /// returns the number of bytes written.
    pub fn cwd_path(&self, buf: &mut [u8]) -> (r: usize)
        requires
            fs_wf(self@),
            self@.cwd == 0 ==> old(buf)@.len() >= 1,
        ensures
            r == (if cwd_path_spec(self@).len() < old(buf)@.len() { cwd_path_spec(self@).len() } else { old(buf)@.len() }),
            final(buf)@ == cwd_path_spec(self@).subrange(0, r as int) + old(buf)@.subrange(r as int, old(buf)@.len() as int),
    {
        let ghost s = self@;
        let blen = buf.len();
        if self.cwd == 0 {
            buf[0] = 47u8;
            assert(buf@ =~= cwd_path_spec(s).subrange(0, 1) + old(buf)@.subrange(1, old(buf)@.len() as int));
            return 1;
        }
        let mut parts: Vec<usize> = Vec::new();
        let mut idx = self.cwd;
        let ghost mut chain: Seq<usize> = seq![];
        while idx != 0 && parts.len() < 32
            invariant
                s == self@,
                fs_wf(s),
                idx < MAX_NODES,
                parts@.len() <= 32,
                chain.len() == parts@.len(),
                forall|j: int| 0 <= j < chain.len() ==> chain[j] == parts@[parts@.len() - 1 - j],
                forall|j: int| 0 <= j < parts@.len() ==> parts@[j] < MAX_NODES,
                ancestry(s, s.cwd, 32) == ancestry(s, idx, (32 - parts@.len()) as nat) + chain,
            decreases 32 - parts@.len(),
        {
            proof {
                assert(ancestry(s, idx, (32 - parts@.len()) as nat) == ancestry(
                    s,
                    s.nodes[idx as int].parent,
                    (32 - parts@.len() - 1) as nat,
                ).push(idx));
                assert(ancestry(s, s.nodes[idx as int].parent, (32 - parts@.len() - 1) as nat).push(idx) + chain
                    =~= ancestry(s, s.nodes[idx as int].parent, (32 - parts@.len() - 1) as nat) + (seq![idx] + chain));
                chain = seq![idx] + chain;
                assert(node_wf(s.nodes[idx as int]));
            }
            parts.push(idx);
            idx = self.nodes[idx].parent;
        }
        assert(ancestry(s, idx, (32 - parts@.len()) as nat) =~= seq![]);
        assert(chain =~= ancestry(s, s.cwd, 32));
        let d = parts.len();
        let mut i = d;
        let mut pos: usize = 0;
        assert(chain.subrange(0, 0) =~= seq![]);
        while i > 0
            invariant
                s == self@,
                fs_wf(s),
                d == parts@.len(),
                chain.len() == d,
                forall|j: int| 0 <= j < chain.len() ==> chain[j] == parts@[d - 1 - j],
                forall|j: int| 0 <= j < d ==> parts@[j] < MAX_NODES,
                i <= d,
                blen == buf@.len(),
                buf@.len() == old(buf)@.len(),
                pos == (if join_names(s, chain.subrange(0, d - i)).len() < blen {
                    join_names(s, chain.subrange(0, d - i)).len()
                } else {
                    blen as nat
                }),
                forall|j: int| 0 <= j < pos ==> buf@[j] == join_names(s, chain.subrange(0, d - i))[j],
                forall|j: int| pos <= j < blen ==> buf@[j] == old(buf)@[j],
            decreases i,
        {
            let ghost done = chain.subrange(0, d - i);
            let ghost w = join_names(s, done);
            let c = parts[i - 1];
            proof {
                assert(c == chain[d - i]);
                assert(chain.subrange(0, d - i + 1).drop_last() =~= done);
                assert(chain.subrange(0, d - i + 1).last() == c);
            }
            let ghost w2 = join_names(s, chain.subrange(0, d - i + 1));
            assert(w2 == w + seq![47u8] + s.nodes[c as int].name);
            if pos < blen {
                buf[pos] = 47u8;
                pos = pos + 1;
            }
            assert(node_wf(s.nodes[c as int]));
            let nlen = self.nodes[c].name.len();
            let room = blen - pos;
            let len = if nlen < room { nlen } else { room };
            copy_into(buf, pos, self.nodes[c].name.as_slice(), len);
            proof {
                assert forall|j: int| 0 <= j < pos + len implies buf@[j] == w2[j] by {
                    if j < w.len() {
                        assert(w2[j] == w[j]);
                    } else if j == w.len() {
                        assert(w2[j] == 47u8);
                    } else {
                        assert(w2[j] == s.nodes[c as int].name[j - w.len() - 1]);
                    }
                }
            }
            pos = pos + len;
            i = i - 1;
        }
        assert(chain.subrange(0, d as int) =~= chain);
        assert(buf@ =~= cwd_path_spec(s).subrange(0, pos as int) + old(buf)@.subrange(pos as int, old(buf)@.len() as int));
        pos
    }
}


impl FileSystem {
    /// Whether the byte path `path` names a node.
    pub(crate) fn exists_bytes(&self, path: &[u8]) -> (r: bool)
        requires
            fs_wf(self@),
        ensures
            r == (resolve(self@, path@) is Ok),
    {
        self.resolve(path).is_ok()
    }

    /// Whether the byte path `path` names a directory.
    pub(crate) fn is_directory_bytes(&self, path: &[u8]) -> (r: bool)
        requires
            fs_wf(self@),
        ensures
            r == (match resolve(self@, path@) {
                Ok(i) => self@.nodes[i as int].kind == NodeKind::Dir,
                Err(_) => false,
            }),
    {
        match self.resolve(path) {
            Ok(idx) => self.nodes[idx].kind == NodeKind::Dir,
            Err(_) => false,
        }
    }

    /// A new empty file at the byte path `path`.
    pub(crate) fn create_file_bytes(&mut self, path: &[u8]) -> (r: Result<(), FsError>)
        requires
            fs_wf(old(self)@),
        ensures
            (final(self)@, r) == create_spec(old(self)@, path@, NodeKind::File),
            fs_wf(final(self)@),
    {
        self.create(path, NodeKind::File)
    }

    /// The content of the file at the byte path `path`, cut to `max` bytes.
    pub(crate) fn read_file_bytes(&self, path: &[u8], max: usize) -> (r: Result<Vec<u8>, FsError>)
        requires
            fs_wf(self@),
        ensures
            match read_spec(self@, path@, max as nat) {
                Ok(n) => r matches Ok(v) && v@ == self@.nodes[resolve(self@, path@)->Ok_0 as int].data.subrange(0, n as int),
                Err(e) => r == Err::<Vec<u8>, FsError>(e),
            },
    {
        let idx = match self.resolve(path) {
            Ok(i) => i,
            Err(e) => {
                return Err(e);
            },
        };
        if self.nodes[idx].kind != NodeKind::File {
            return Err(FsError::NotAFile);
        }
        assert(node_wf(self@.nodes[idx as int]));
        let dlen = self.nodes[idx].data.len();
        let len = if dlen < max { dlen } else { max };
        Ok(copy_range(self.nodes[idx].data.as_slice(), 0, len))
    }

    /// Replace the content of the file at the byte path `path`.
    pub(crate) fn write_file_bytes(&mut self, path: &[u8], data: &[u8]) -> (r: Result<(), FsError>)
        requires
            fs_wf(old(self)@),
        ensures
            (final(self)@, r) == write_spec(old(self)@, path@, data@),
            fs_wf(final(self)@),
    {
        let idx = match self.resolve(path) {
            Ok(i) => i,
            Err(e) => {
                return Err(e);
            },
        };
        if self.nodes[idx].kind != NodeKind::File {
            return Err(FsError::NotAFile);
        }
        let len = if data.len() < MAX_FILE_SIZE { data.len() } else { MAX_FILE_SIZE };
        let v = copy_range(data, 0, len);
        assert(node_wf(old(self)@.nodes[idx as int]));
        self.nodes[idx].data = v;
        assert(self@ =~= write_spec(old(self)@, path@, data@).0);
        assert(node_wf(self@.nodes[idx as int]));
        Ok(())
    }
}

} // verus!
