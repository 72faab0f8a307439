//! What holds of the file system across its operations: a read gives back
//! what a write wrote, a created node can be found by its path, and a
//! refused request changes nothing.
use vstd::prelude::*;
use vstd::string::StringSliceAdditionalSpecFns;
use crate::fs::{
    FsView, FsError, NodeKind, NodeView, fs_wf, node_wf, resolve, walk, step, seg_end, find_in, find_child,
    split_parent_spec, last_slash, write_spec, read_spec, create_spec, delete_spec, set_cwd_spec, set_node,
    first_free, first_free_from, is_dot, is_dot_dot, lemma_seg_end_bound, lemma_seg_end_at,
    lemma_last_slash_at, MAX_NODES, MAX_FILE_SIZE, MAX_NAME, MAX_CHILDREN,
};

verus! {

/// Two states that agree on everything a path lookup reads: the current
/// directory and, for every slot, its kind, name, parent and children.
pub open spec fn same_shape(s: FsView, t: FsView) -> bool {
    &&& s.cwd == t.cwd
    &&& s.nodes.len() == t.nodes.len()
    &&& forall|i: int|
        #![trigger s.nodes[i]]
        #![trigger t.nodes[i]]
        0 <= i < s.nodes.len() ==> {
        &&& s.nodes[i].kind == t.nodes[i].kind
        &&& s.nodes[i].name == t.nodes[i].name
        &&& s.nodes[i].parent == t.nodes[i].parent
        &&& s.nodes[i].children == t.nodes[i].children
    }
}

proof fn lemma_find_in_same(s: FsView, t: FsView, kids: Seq<usize>, name: Seq<u8>)
    requires
        same_shape(s, t),
        forall|j: int| 0 <= j < kids.len() ==> #[trigger] kids[j] < s.nodes.len(),
    ensures
        find_in(s, kids, name) == find_in(t, kids, name),
    decreases kids.len(),
{
    if kids.len() > 0 {
        assert(s.nodes[kids[0] as int].name == t.nodes[kids[0] as int].name);
        lemma_find_in_same(s, t, kids.drop_first(), name);
    }
}

proof fn lemma_walk_same(s: FsView, t: FsView, cur: usize, p: Seq<u8>)
    requires
        fs_wf(s),
        same_shape(s, t),
        cur < MAX_NODES,
    ensures
        walk(s, cur, p) == walk(t, cur, p),
    decreases p.len(),
{
    lemma_seg_end_bound(p);
    let k = seg_end(p);
    let part = p.subrange(0, k as int);
    assert(node_wf(s.nodes[cur as int]));
    assert(s.nodes[cur as int].kind == t.nodes[cur as int].kind);
    lemma_find_in_same(s, t, s.nodes[cur as int].children, part);
    assert(step(s, cur, part) == step(t, cur, part));
    if let Ok(n) = step(s, cur, part) {
        crate::fs::lemma_find_child_bound(s, cur, part);
        if k < p.len() {
            lemma_walk_same(s, t, n, p.subrange(k as int + 1, p.len() as int));
        }
    }
}

/// Path lookup reads only the shape of the state.
pub proof fn lemma_resolve_same(s: FsView, t: FsView, p: Seq<u8>)
    requires
        fs_wf(s),
        same_shape(s, t),
    ensures
        resolve(s, p) == resolve(t, p),
{
    if p.len() > 0 {
        if p[0] == 47u8 {
            lemma_walk_same(s, t, 0, p);
        } else {
            lemma_walk_same(s, t, s.cwd, p);
        }
    }
}

/// A read gives back what a write wrote: after a write of `data` to the
/// file at `path` succeeds, reading `path` into a buffer of `buf_len`
/// bytes gives the first bytes of `data`, as many as the file limit and the
/// buffer allow.
pub proof fn law_read_after_write(s: FsView, path: Seq<u8>, data: Seq<u8>, buf_len: nat)
    requires
        fs_wf(s),
        write_spec(s, path, data).1 is Ok,
    ensures
        ({
            let s2 = write_spec(s, path, data).0;
            let kept = if data.len() < MAX_FILE_SIZE { data.len() } else { MAX_FILE_SIZE as nat };
            let n = if kept < buf_len { kept } else { buf_len };
            &&& read_spec(s2, path, buf_len) == Ok::<usize, FsError>(n as usize)
            &&& s2.nodes[resolve(s2, path)->Ok_0 as int].data.take(n as int) == data.take(n as int)
        }),
{
    let idx = resolve(s, path)->Ok_0;
    let s2 = write_spec(s, path, data).0;
    lemma_write_shape(s, path, data);
    lemma_resolve_same(s, s2, path);
    let kept = if data.len() < MAX_FILE_SIZE { data.len() } else { MAX_FILE_SIZE as nat };
    let n = if kept < buf_len { kept } else { buf_len };
    assert(s2.nodes[idx as int].data =~= data.take(kept as int));
    assert(s2.nodes[idx as int].data.take(n as int) =~= data.take(n as int));
}

/// A write changes only the content of the file written: every path names
/// what it named before, and every other slot is as it was.
pub proof fn law_write_keeps_shape(s: FsView, path: Seq<u8>, data: Seq<u8>, other: Seq<u8>)
    requires
        fs_wf(s),
    ensures
        resolve(write_spec(s, path, data).0, other) == resolve(s, other),
        write_spec(s, path, data).1 is Ok ==> forall|i: int|
            0 <= i < MAX_NODES && i != resolve(s, path)->Ok_0 ==> #[trigger] write_spec(s, path, data).0.nodes[i]
                == s.nodes[i],
{
    lemma_write_shape(s, path, data);
    lemma_resolve_same(s, write_spec(s, path, data).0, other);
}

proof fn lemma_write_shape(s: FsView, path: Seq<u8>, data: Seq<u8>)
    requires
        fs_wf(s),
    ensures
        same_shape(s, write_spec(s, path, data).0),
        resolve(s, path) matches Ok(i) ==> i < MAX_NODES,
{
    crate::fs::lemma_resolve_bound(s, path);
}

/// A refused write, delete or change of directory leaves the state as it
/// was.
pub proof fn law_refusal_changes_nothing(s: FsView, path: Seq<u8>, data: Seq<u8>)
    ensures
        write_spec(s, path, data).1 is Err ==> write_spec(s, path, data).0 == s,
        delete_spec(s, path).1 is Err ==> delete_spec(s, path).0 == s,
        set_cwd_spec(s, path).1 is Err ==> set_cwd_spec(s, path).0 == s,
{
}

/// The root can be neither removed nor moved.
pub proof fn law_root_stays(s: FsView, path: Seq<u8>, new: Seq<u8>)
    requires
        resolve(s, path) == Ok::<usize, FsError>(0),
    ensures
        delete_spec(s, path) == (s, Err::<(), FsError>(FsError::InvalidPath)),
        crate::fs::rename_spec(s, path, new) == (s, Err::<(), FsError>(FsError::InvalidPath)),
{
}

/// A rename refused for any reason other than a name too long or a full
/// destination directory (so for a missing source, the root, or a missing
/// or non-directory destination directory) leaves the state as it was.
pub proof fn law_rename_refusal(s: FsView, old: Seq<u8>, new: Seq<u8>)
    requires
        crate::fs::rename_spec(s, old, new).1 is Err,
        crate::fs::rename_spec(s, old, new).1 != Err::<(), FsError>(FsError::NameTooLong),
        crate::fs::rename_spec(s, old, new).1 != Err::<(), FsError>(FsError::NoSpace),
    ensures
        crate::fs::rename_spec(s, old, new).0 == s,
{
}

/// A create refused before a slot is claimed (an empty name, a missing or
/// non-directory parent, a name already taken, or no free slot) leaves the
/// state as it was.
pub proof fn law_create_refusal(s: FsView, path: Seq<u8>, kind: NodeKind)
    requires
        create_spec(s, path, kind).1 is Err,
        create_spec(s, path, kind).1 != Err::<(), FsError>(FsError::NameTooLong),
        !(create_spec(s, path, kind).1 == Err::<(), FsError>(FsError::NoSpace) && first_free(s) is Some),
    ensures
        create_spec(s, path, kind).0 == s,
{
}

/// A tidy state: on top of the bounds, the root is a directory that is
/// its own parent, the current directory is a directory, every listed
/// child is in use, only directories list children, and every node in use
/// other than the root has a parent in use.
pub open spec fn tidy(s: FsView) -> bool {
    &&& fs_wf(s)
    &&& s.nodes[0].kind == NodeKind::Dir
    &&& s.nodes[0].parent == 0
    &&& s.nodes[s.cwd as int].kind == NodeKind::Dir
    &&& forall|i: int, j: int|
        0 <= i < MAX_NODES && 0 <= j < s.nodes[i].children.len() ==> s.nodes[#[trigger] s.nodes[i].children[j] as int].kind
            != NodeKind::Free
    &&& forall|i: int| 0 <= i < MAX_NODES && s.nodes[i].kind != NodeKind::Free ==> s.nodes[#[trigger] s.nodes[i].parent as int].kind
        != NodeKind::Free
    &&& forall|i: int| 0 <= i < MAX_NODES && #[trigger] s.nodes[i].kind != NodeKind::Dir ==> s.nodes[i].children.len() == 0
}

/// A tidy state whose tree is also consistent: every listed child names
/// its lister as parent, no list names a child twice, no list names the
/// root, and every node in use other than the root is listed by its parent.
pub open spec fn linked(s: FsView) -> bool {
    &&& tidy(s)
    &&& forall|i: int, j: int|
        0 <= i < MAX_NODES && 0 <= j < s.nodes[i].children.len() ==> #[trigger] s.nodes[i].children[j] != 0
    &&& forall|i: int, j: int|
        0 <= i < MAX_NODES && 0 <= j < s.nodes[i].children.len() ==> s.nodes[#[trigger] s.nodes[i].children[j] as int].parent
            == i
    &&& forall|i: int| 0 <= i < MAX_NODES ==> (#[trigger] s.nodes[i].children).no_duplicates()
    &&& forall|c: int|
        0 < c < MAX_NODES && #[trigger] s.nodes[c].kind != NodeKind::Free ==> s.nodes[s.nodes[c].parent as int].children.contains(
            c as usize,
        )
}

/// Segments joined by `/`: the segments of `a`, then those of `b`.
proof fn lemma_walk_concat(s: FsView, cur: usize, a: Seq<u8>, b: Seq<u8>)
    requires
        fs_wf(s),
        cur < MAX_NODES,
    ensures
        walk(s, cur, a + seq![47u8] + b) == (match walk(s, cur, a) {
            Ok(n) => walk(s, n, b),
            Err(e) => Err(e),
        }),
    decreases a.len(),
{
    let p = a + seq![47u8] + b;
    lemma_seg_end_bound(a);
    let k = seg_end(a);
    if k < a.len() {
        assert forall|j: int| 0 <= j < k implies p[j] != 47u8 by {
            assert(p[j] == a[j]);
        }
        assert(p[k as int] == a[k as int]);
        lemma_seg_end_at(p, k as int);
        assert(p.subrange(0, k as int) =~= a.subrange(0, k as int));
        let a2 = a.subrange(k as int + 1, a.len() as int);
        assert(p.subrange(k as int + 1, p.len() as int) =~= a2 + seq![47u8] + b);
        if let Ok(n) = step(s, cur, a.subrange(0, k as int)) {
            crate::fs::lemma_find_child_bound(s, cur, a.subrange(0, k as int));
            assert(node_wf(s.nodes[cur as int]));
            lemma_walk_concat(s, n, a2, b);
        }
    } else {
        assert forall|j: int| 0 <= j < a.len() implies p[j] != 47u8 by {
            assert(p[j] == a[j]);
        }
        assert(p[a.len() as int] == 47u8);
        lemma_seg_end_at(p, a.len() as int);
        assert(p.subrange(0, a.len() as int) =~= a);
        assert(a.subrange(0, k as int) =~= a);
        assert(p.subrange(a.len() as int + 1, p.len() as int) =~= b);
    }
}

/// A segment without `/` is taken in one step.
proof fn lemma_walk_single(s: FsView, cur: usize, b: Seq<u8>)
    requires
        forall|j: int| 0 <= j < b.len() ==> b[j] != 47u8,
    ensures
        walk(s, cur, b) == step(s, cur, b),
{
    lemma_seg_end_at(b, b.len() as int);
    assert(b.subrange(0, b.len() as int) =~= b);
}

/// The final name of a split path holds no `/`.
proof fn lemma_last_slash_tail(p: Seq<u8>)
    ensures
        last_slash(p) matches Some(i) ==> 0 <= i < p.len() && p[i] == 47u8 && forall|j: int|
            i < j < p.len() ==> p[j] != 47u8,
        last_slash(p) is None ==> forall|j: int| 0 <= j < p.len() ==> p[j] != 47u8,
    decreases p.len(),
{
    if p.len() > 0 && p.last() != 47u8 {
        lemma_last_slash_tail(p.drop_last());
        assert forall|j: int| 0 <= j < p.len() - 1 implies p.drop_last()[j] == p[j] by {}
    }
}

/// Looking up a path is looking up its directory part and then taking its
/// final name in one step.
pub proof fn lemma_resolve_split(s: FsView, path: Seq<u8>)
    requires
        fs_wf(s),
        split_parent_spec(path).1.len() > 0,
    ensures
        ({
            let (pp, name) = split_parent_spec(path);
            &&& forall|j: int| 0 <= j < name.len() ==> name[j] != 47u8
            &&& resolve(s, path) == (match resolve(s, pp) {
                Ok(n) => step(s, n, name),
                Err(e) => Err(e),
            })
        }),
{
    lemma_last_slash_tail(path);
    let (pp, name) = split_parent_spec(path);
    match last_slash(path) {
        None => {
            assert(name == path);
            lemma_walk_single(s, s.cwd, path);
        },
        Some(i) => {
            assert forall|j: int| 0 <= j < name.len() implies name[j] != 47u8 by {
                assert(name[j] == path[i + 1 + j]);
            }
            lemma_walk_single(s, 0, name);
            if i == 0 {
                assert(path =~= seq![] + seq![47u8] + name);
                lemma_walk_concat(s, 0, seq![], name);
                assert(pp =~= seq![47u8]);
                assert(seq![47u8] =~= Seq::<u8>::empty() + seq![47u8] + Seq::<u8>::empty());
                lemma_walk_concat(s, 0, seq![], seq![]);
                lemma_walk_single(s, 0, seq![]);
                assert(walk(s, 0, seq![]) == Ok::<usize, FsError>(0));
            } else {
                assert(path =~= pp + seq![47u8] + name);
                assert(pp[0] == path[0]);
                let start = if path[0] == 47u8 { 0 } else { s.cwd };
                lemma_walk_concat(s, start, pp, name);
                crate::fs::lemma_walk_bound(s, start, pp);
                if let Ok(n) = walk(s, start, pp) {
                    lemma_walk_single(s, n, name);
                }
            }
        },
    }
}

/// `t` is `s` with the free slot `idx` taken into use and appended to the
/// child list of `p`; nothing else differs.
pub open spec fn grows(s: FsView, t: FsView, idx: usize, p: usize) -> bool {
    &&& s.cwd == t.cwd
    &&& s.nodes.len() == t.nodes.len()
    &&& idx < MAX_NODES
    &&& p < MAX_NODES
    &&& p != idx
    &&& s.nodes[idx as int].kind == NodeKind::Free
    &&& forall|i: int| 0 <= i < s.nodes.len() && i != idx && i != p ==> #[trigger] t.nodes[i] == s.nodes[i]
    &&& t.nodes[p as int].kind == s.nodes[p as int].kind
    &&& t.nodes[p as int].name == s.nodes[p as int].name
    &&& t.nodes[p as int].parent == s.nodes[p as int].parent
    &&& t.nodes[p as int].children == s.nodes[p as int].children.push(idx)
}

proof fn lemma_find_in_push(s: FsView, t: FsView, kids: Seq<usize>, x: usize, name: Seq<u8>)
    requires
        forall|j: int| 0 <= j < kids.len() ==> #[trigger] t.nodes[kids[j] as int].name == s.nodes[kids[j] as int].name,
    ensures
        find_in(s, kids, name) matches Some(m) ==> find_in(t, kids.push(x), name) == Some(m),
        (find_in(s, kids, name) is None && t.nodes[x as int].name == name) ==> find_in(t, kids.push(x), name) == Some(x),
    decreases kids.len(),
{
    if kids.len() == 0 {
        assert(kids.push(x).drop_first() =~= seq![]);
    } else {
        assert(kids.push(x)[0] == kids[0]);
        assert(t.nodes[kids[0] as int].name == s.nodes[kids[0] as int].name);
        assert(kids.push(x).drop_first() =~= kids.drop_first().push(x));
        assert forall|j: int| 0 <= j < kids.drop_first().len() implies #[trigger] t.nodes[kids.drop_first()[j] as int].name
            == s.nodes[kids.drop_first()[j] as int].name by {
            assert(kids.drop_first()[j] == kids[j + 1]);
        }
        lemma_find_in_push(s, t, kids.drop_first(), x, name);
    }
}

proof fn lemma_find_in_agree(s: FsView, t: FsView, kids: Seq<usize>, name: Seq<u8>)
    requires
        forall|j: int| 0 <= j < kids.len() ==> #[trigger] t.nodes[kids[j] as int].name == s.nodes[kids[j] as int].name,
    ensures
        find_in(s, kids, name) == find_in(t, kids, name),
    decreases kids.len(),
{
    if kids.len() > 0 {
        assert(t.nodes[kids[0] as int].name == s.nodes[kids[0] as int].name);
        assert forall|j: int| 0 <= j < kids.drop_first().len() implies #[trigger] t.nodes[kids.drop_first()[j] as int].name
            == s.nodes[kids.drop_first()[j] as int].name by {
            assert(kids.drop_first()[j] == kids[j + 1]);
        }
        lemma_find_in_agree(s, t, kids.drop_first(), name);
    }
}

proof fn lemma_find_in_listed(s: FsView, kids: Seq<usize>, name: Seq<u8>)
    ensures
        find_in(s, kids, name) matches Some(m) ==> kids.contains(m),
    decreases kids.len(),
{
    crate::fs::lemma_find_in_member(s, kids, name);
}

/// A lookup from a node in use that succeeds in a tidy state succeeds the
/// same way after a free slot is taken into use, and ends at a node in use.
proof fn lemma_walk_grow(s: FsView, t: FsView, idx: usize, p: usize, cur: usize, q: Seq<u8>)
    requires
        tidy(s),
        grows(s, t, idx, p),
        cur < MAX_NODES,
        s.nodes[cur as int].kind != NodeKind::Free,
        walk(s, cur, q) is Ok,
    ensures
        walk(t, cur, q) == walk(s, cur, q),
        s.nodes[walk(s, cur, q)->Ok_0 as int].kind != NodeKind::Free,
        walk(s, cur, q)->Ok_0 < MAX_NODES,
    decreases q.len(),
{
    lemma_seg_end_bound(q);
    let k = seg_end(q);
    let part = q.subrange(0, k as int);
    assert(node_wf(s.nodes[cur as int]));
    assert(cur != idx);
    let kids = s.nodes[cur as int].children;
    if !(part.len() == 0 || is_dot(part) || is_dot_dot(part)) && s.nodes[cur as int].kind == NodeKind::Dir {
        assert forall|j: int| 0 <= j < kids.len() implies #[trigger] t.nodes[kids[j] as int].name
            == s.nodes[kids[j] as int].name by {
            assert(kids[j] < MAX_NODES);
            assert(s.nodes[kids[j] as int].kind != NodeKind::Free);
        }
        if cur == p {
            lemma_find_in_push(s, t, kids, idx, part);
        } else {
            assert(t.nodes[cur as int] == s.nodes[cur as int]);
            lemma_find_in_agree(s, t, kids, part);
        }
        lemma_find_in_listed(s, kids, part);
        if let Some(m) = find_in(s, kids, part) {
            let j = choose|j: int| 0 <= j < kids.len() && kids[j] == m;
            assert(s.nodes[kids[j] as int].kind != NodeKind::Free);
        }
    }
    if cur != p {
        assert(t.nodes[cur as int] == s.nodes[cur as int]);
    }
    let n = step(s, cur, part)->Ok_0;
    assert(step(t, cur, part) == step(s, cur, part));
    crate::fs::lemma_find_child_bound(s, cur, part);
    assert(s.nodes[n as int].kind != NodeKind::Free);
    if k < q.len() {
        lemma_walk_grow(s, t, idx, p, n, q.subrange(k as int + 1, q.len() as int));
    }
}

/// A created node can be found by its path: after a create at `path`
/// succeeds in a tidy state, `path` names something, and unless its final
/// name is `.` or `..`, it names the new node, of the kind asked for, with
/// no content if it is a file and no children if it is a directory.
pub proof fn law_create_then_found(s: FsView, path: Seq<u8>, kind: NodeKind)
    requires
        tidy(s),
        kind != NodeKind::Free,
        create_spec(s, path, kind).1 is Ok,
    ensures
        ({
            let s2 = create_spec(s, path, kind).0;
            let name = split_parent_spec(path).1;
            let idx = first_free(s)->Some_0;
            &&& resolve(s2, path) is Ok
            &&& (!is_dot(name) && !is_dot_dot(name)) ==> {
                &&& resolve(s2, path) == Ok::<usize, FsError>(idx)
                &&& s2.nodes[idx as int].kind == kind
                &&& kind == NodeKind::File ==> s2.nodes[idx as int].data.len() == 0
                &&& kind == NodeKind::Dir ==> s2.nodes[idx as int].children.len() == 0
            }
        }),
{
    let (pp, name) = split_parent_spec(path);
    let s2 = create_spec(s, path, kind).0;
    let parent = resolve(s, pp)->Ok_0;
    let idx = first_free(s)->Some_0;
    crate::fs::lemma_resolve_bound(s, pp);
    lemma_first_free_found(s, 1);
    assert(grows(s, s2, idx, parent));
    // the directory part is found the same way after the create
    if pp.len() > 0 {
        let start = if pp[0] == 47u8 { 0usize } else { s.cwd };
        lemma_walk_grow(s, s2, idx, parent, start, pp);
    }
    assert(resolve(s2, pp) == Ok::<usize, FsError>(parent));
    assert(fs_wf(s2)) by {
        assert forall|i: int| 0 <= i < MAX_NODES implies #[trigger] node_wf(s2.nodes[i]) by {
            assert(node_wf(s.nodes[i]));
        }
    }
    lemma_resolve_split(s2, path);
    if !(is_dot(name) || is_dot_dot(name)) {
        let kids = s.nodes[parent as int].children;
        assert(node_wf(s.nodes[parent as int]));
        assert forall|j: int| 0 <= j < kids.len() implies #[trigger] s2.nodes[kids[j] as int].name
            == s.nodes[kids[j] as int].name by {
            assert(s.nodes[kids[j] as int].kind != NodeKind::Free);
        }
        lemma_find_in_push(s, s2, kids, idx, name);
    }
}

/// The slot `first_free` names is free and after the root.
proof fn lemma_first_free_found(s: FsView, i: nat)
    requires
        fs_wf(s),
        i >= 1,
    ensures
        first_free_from(s, i) matches Some(j) ==> 1 <= j < MAX_NODES && s.nodes[j as int].kind == NodeKind::Free,
    decreases MAX_NODES - i,
{
    if i < MAX_NODES && s.nodes[i as int].kind != NodeKind::Free {
        lemma_first_free_found(s, i + 1);
    }
}

/// A create, whatever its outcome, keeps the bounds of the table.
pub proof fn lemma_create_wf(s: FsView, path: Seq<u8>, kind: NodeKind)
    requires
        fs_wf(s),
    ensures
        fs_wf(create_spec(s, path, kind).0),
{
    let (pp, name) = split_parent_spec(path);
    crate::fs::lemma_resolve_bound(s, pp);
    lemma_first_free_found(s, 1);
    if name.len() > 0 {
        if let Ok(parent) = resolve(s, pp) {
            if s.nodes[parent as int].kind == NodeKind::Dir && find_child(s, parent, name) is None {
                if let Some(idx) = first_free(s) {
                    let n0 = s.nodes[idx as int];
                    let n1 = if kind == NodeKind::File {
                        NodeView { kind: kind, parent: parent, data: seq![], ..n0 }
                    } else {
                        NodeView { kind: kind, parent: parent, children: seq![], ..n0 }
                    };
                    let s1 = set_node(s, idx, n1);
                    assert(node_wf(n0));
                    assert forall|i: int| 0 <= i < MAX_NODES implies #[trigger] node_wf(s1.nodes[i]) by {
                        assert(node_wf(s.nodes[i]));
                    }
                    if name.len() <= MAX_NAME {
                        let s2 = crate::fs::set_name_spec(s1, idx, name).0;
                        assert forall|i: int| 0 <= i < MAX_NODES implies #[trigger] node_wf(s2.nodes[i]) by {
                            assert(node_wf(s1.nodes[i]));
                        }
                        let p = s2.nodes[parent as int];
                        if p.children.len() < MAX_CHILDREN {
                            let s3 = crate::fs::add_child_spec(s2, parent, idx).0;
                            assert forall|i: int| 0 <= i < MAX_NODES implies #[trigger] node_wf(s3.nodes[i]) by {
                                assert(node_wf(s2.nodes[i]));
                                if i == parent {
                                    assert forall|j: int| 0 <= j < s3.nodes[i].children.len() implies #[trigger] s3.nodes[
                                        i].children[j] < MAX_NODES by {
                                        if j < p.children.len() {
                                            assert(s3.nodes[i].children[j] == p.children[j]);
                                        }
                                    }
                                }
                            }
                        }
                    }
                }
            }
        }
    }
}

/// A successful create keeps a tidy state tidy.
pub proof fn law_create_keeps_tidy(s: FsView, path: Seq<u8>, kind: NodeKind)
    requires
        tidy(s),
        kind != NodeKind::Free,
        create_spec(s, path, kind).1 is Ok,
    ensures
        tidy(create_spec(s, path, kind).0),
{
    let (pp, name) = split_parent_spec(path);
    let s2 = create_spec(s, path, kind).0;
    let parent = resolve(s, pp)->Ok_0;
    let idx = first_free(s)->Some_0;
    crate::fs::lemma_resolve_bound(s, pp);
    lemma_first_free_found(s, 1);
    assert(grows(s, s2, idx, parent));
    assert(node_wf(s.nodes[parent as int]));
    assert forall|i: int| 0 <= i < MAX_NODES implies #[trigger] node_wf(s2.nodes[i]) by {
        assert(node_wf(s.nodes[i]));
        if i == parent {
            assert forall|j: int| 0 <= j < s2.nodes[i].children.len() implies #[trigger] s2.nodes[i].children[j]
                < MAX_NODES by {
                if j < s.nodes[i].children.len() {
                    assert(s2.nodes[i].children[j] == s.nodes[i].children[j]);
                }
            }
        }
    }
    assert forall|i: int, j: int|
        0 <= i < MAX_NODES && 0 <= j < s2.nodes[i].children.len() implies s2.nodes[#[trigger] s2.nodes[i].children[j] as int].kind
        != NodeKind::Free by {
        let c = s2.nodes[i].children[j];
        if i == parent && j == s.nodes[i].children.len() {
            assert(c == idx);
        } else {
            assert(node_wf(s.nodes[i]));
            if i == parent {
                assert(j < s.nodes[i].children.len());
                assert(s2.nodes[i].children[j] == s.nodes[i].children[j]);
            } else if i == idx {
                assert(s.nodes[i].kind == NodeKind::Free);
                assert(s.nodes[i].children.len() == 0);
                assert(false);
            } else {
                assert(s2.nodes[i] == s.nodes[i]);
            }
            assert(c == s.nodes[i].children[j]);
            assert(s.nodes[c as int].kind != NodeKind::Free);
            assert(c != idx);
            if c != parent {
                assert(s2.nodes[c as int] == s.nodes[c as int]);
            }
        }
    }
    assert forall|i: int| 0 <= i < MAX_NODES && s2.nodes[i].kind != NodeKind::Free implies s2.nodes[#[trigger] s2.nodes[i].parent as int].kind
        != NodeKind::Free by {
        if i != idx {
            assert(node_wf(s.nodes[i]));
            if i != parent {
                assert(s2.nodes[i] == s.nodes[i]);
            }
            let q = s.nodes[i].parent;
            assert(s2.nodes[i].parent == q);
            assert(s.nodes[q as int].kind != NodeKind::Free);
            if q != parent {
                assert(s2.nodes[q as int] == s.nodes[q as int]);
            }
        }
    }
}

/// A successful create keeps a linked state linked: the new node names its
/// directory as parent and is listed there once.
pub proof fn law_create_keeps_linked(s: FsView, path: Seq<u8>, kind: NodeKind)
    requires
        linked(s),
        kind != NodeKind::Free,
        create_spec(s, path, kind).1 is Ok,
    ensures
        linked(create_spec(s, path, kind).0),
{
    let (pp, name) = split_parent_spec(path);
    let s2 = create_spec(s, path, kind).0;
    let parent = resolve(s, pp)->Ok_0;
    let idx = first_free(s)->Some_0;
    crate::fs::lemma_resolve_bound(s, pp);
    lemma_first_free_found(s, 1);
    law_create_keeps_tidy(s, path, kind);
    assert(grows(s, s2, idx, parent));
    assert(s2.nodes[idx as int].parent == parent);
    assert(s2.nodes[idx as int].children.len() == 0);
    let old_kids = s.nodes[parent as int].children;
    assert(!old_kids.contains(idx)) by {
        if old_kids.contains(idx) {
            let j = choose|j: int| 0 <= j < old_kids.len() && old_kids[j] == idx;
            assert(s.nodes[old_kids[j] as int].kind != NodeKind::Free);
        }
    }
    assert forall|i: int, j: int|
        0 <= i < MAX_NODES && 0 <= j < s2.nodes[i].children.len() implies s2.nodes[#[trigger] s2.nodes[i].children[j] as int].parent
        == i by {
        let c = s2.nodes[i].children[j];
        if i == parent && j == old_kids.len() {
            assert(c == idx);
        } else {
            assert(node_wf(s.nodes[i]));
            if i == parent {
                assert(c == old_kids[j]);
            } else if i == idx {
                assert(false);
            } else {
                assert(s2.nodes[i] == s.nodes[i]);
            }
            assert(c == s.nodes[i].children[j]);
            assert(s.nodes[c as int].kind != NodeKind::Free);
            assert(s.nodes[c as int].parent == i);
            assert(c != idx);
            if c != parent {
                assert(s2.nodes[c as int] == s.nodes[c as int]);
            }
        }
    }
    assert forall|i: int| 0 <= i < MAX_NODES implies (#[trigger] s2.nodes[i].children).no_duplicates() by {
        if i == parent {
            assert(s.nodes[i].children.no_duplicates());
            assert forall|a: int, b: int| 0 <= a < s2.nodes[i].children.len() && 0 <= b < s2.nodes[i].children.len()
                && a != b implies s2.nodes[i].children[a] != s2.nodes[i].children[b] by {
                if a == old_kids.len() {
                    assert(s2.nodes[i].children[b] == old_kids[b]);
                    assert(old_kids[b] != idx) by {
                        if old_kids[b] == idx {
                            assert(old_kids.contains(idx));
                        }
                    }
                } else if b == old_kids.len() {
                    assert(s2.nodes[i].children[a] == old_kids[a]);
                    assert(old_kids[a] != idx) by {
                        if old_kids[a] == idx {
                            assert(old_kids.contains(idx));
                        }
                    }
                } else {
                    assert(s2.nodes[i].children[a] == old_kids[a]);
                    assert(s2.nodes[i].children[b] == old_kids[b]);
                }
            }
        } else if i != idx {
            assert(s2.nodes[i] == s.nodes[i]);
        }
    }
    assert forall|c: int|
        0 < c < MAX_NODES && #[trigger] s2.nodes[c].kind != NodeKind::Free implies s2.nodes[s2.nodes[c].parent as int].children.contains(
        c as usize,
    ) by {
        if c == idx {
            assert(s2.nodes[parent as int].children[old_kids.len() as int] == idx);
        } else {
            if c != parent {
                assert(s2.nodes[c] == s.nodes[c]);
            }
            assert(node_wf(s.nodes[c]));
            let q = s.nodes[c].parent;
            assert(s2.nodes[c].parent == q);
            assert(s.nodes[q as int].children.contains(c as usize));
            let j = choose|j: int| 0 <= j < s.nodes[q as int].children.len() && s.nodes[q as int].children[j] == c as usize;
            if q == parent {
                assert(s2.nodes[q as int].children[j] == c as usize);
            } else {
                assert(q != idx) by {
                    assert(s.nodes[q as int].kind != NodeKind::Free);
                }
                assert(s2.nodes[q as int] == s.nodes[q as int]);
            }
        }
    }
}

/// The final name of a path is no longer than the path.
proof fn lemma_split_name_len(p: Seq<u8>)
    ensures
        split_parent_spec(p).1.len() <= p.len(),
{
    lemma_last_slash_tail(p);
}

/// In a linked state whose child lists hold at most `k < 16` entries, a
/// create whose final name fits keeps the state linked, whether or not it
/// succeeds, and each child list grows by at most one.
proof fn lemma_create_stays_linked(s: FsView, path: Seq<u8>, kind: NodeKind, k: nat)
    requires
        linked(s),
        kind != NodeKind::Free,
        split_parent_spec(path).1.len() <= MAX_NAME,
        k < MAX_CHILDREN,
        forall|i: int| 0 <= i < MAX_NODES ==> #[trigger] s.nodes[i].children.len() <= k,
    ensures
        linked(create_spec(s, path, kind).0),
        forall|i: int| 0 <= i < MAX_NODES ==> #[trigger] create_spec(s, path, kind).0.nodes[i].children.len() <= k + 1,
{
    let s2 = create_spec(s, path, kind).0;
    let (pp, name) = split_parent_spec(path);
    crate::fs::lemma_resolve_bound(s, pp);
    lemma_first_free_found(s, 1);
    if create_spec(s, path, kind).1 is Ok {
        law_create_keeps_linked(s, path, kind);
        let parent = resolve(s, pp)->Ok_0;
        let idx = first_free(s)->Some_0;
        assert(grows(s, s2, idx, parent));
        assert(s2.nodes[idx as int].children.len() == 0);
        assert forall|i: int| 0 <= i < MAX_NODES implies #[trigger] s2.nodes[i].children.len() <= k + 1 by {
            if i != idx && i != parent {
                assert(s2.nodes[i] == s.nodes[i]);
            }
        }
    } else {
        if let Ok(parent) = resolve(s, pp) {
            assert(s.nodes[parent as int].children.len() <= k);
            if s.nodes[parent as int].kind == NodeKind::Dir {
                if let Some(idx) = first_free(s) {
                    assert(s.nodes[idx as int].kind == NodeKind::Free);
                    assert(parent != idx);
                }
            }
        }
        assert(s2 == s);
    }
}

/// A write keeps a linked state linked.
proof fn lemma_write_keeps_linked(s: FsView, path: Seq<u8>, data: Seq<u8>)
    requires
        linked(s),
    ensures
        linked(write_spec(s, path, data).0),
{
    let s2 = write_spec(s, path, data).0;
    law_write_keeps_tidy(s, path, data);
    crate::fs::lemma_resolve_bound(s, path);
    if let Ok(idx) = resolve(s, path) {
        if s.nodes[idx as int].kind == NodeKind::File {
            assert(forall|i: int| 0 <= i < MAX_NODES ==> #[trigger] s2.nodes[i].children == s.nodes[i].children);
            assert(forall|i: int| 0 <= i < MAX_NODES ==> #[trigger] s2.nodes[i].parent == s.nodes[i].parent);
            assert(forall|i: int| 0 <= i < MAX_NODES ==> #[trigger] s2.nodes[i].kind == s.nodes[i].kind);
            assert forall|i: int, j: int|
                0 <= i < MAX_NODES && 0 <= j < s2.nodes[i].children.len() implies s2.nodes[
                #[trigger] s2.nodes[i].children[j] as int].parent == i by {
                assert(node_wf(s.nodes[i]));
                assert(s.nodes[s.nodes[i].children[j] as int].parent == i);
            }
            assert forall|c: int|
                0 < c < MAX_NODES && #[trigger] s2.nodes[c].kind != NodeKind::Free implies s2.nodes[
                s2.nodes[c].parent as int].children.contains(c as usize) by {
                assert(node_wf(s.nodes[c]));
            }
        }
    }
}

/// The table before set-up, as `FileSystem::new` gives it: every slot free,
/// the current directory the root.
pub open spec fn blank_table() -> FsView {
    FsView { nodes: Seq::new(MAX_NODES as nat, |i: int| crate::fs::blank_node()), cwd: 0 }
}

/// The blank table with the root made a directory: linked, and no node
/// lists a child.
proof fn lemma_root_linked()
    ensures
        ({
            let s = blank_table();
            let s0 = set_node(s, 0, NodeView { kind: NodeKind::Dir, name: seq![47u8], parent: 0, ..s.nodes[0] });
            &&& linked(s0)
            &&& forall|i: int| 0 <= i < MAX_NODES ==> #[trigger] s0.nodes[i].children.len() <= 0
        }),
{
    let s = blank_table();
    let s0 = set_node(s, 0, NodeView { kind: NodeKind::Dir, name: seq![47u8], parent: 0, ..s.nodes[0] });
    assert forall|i: int| 0 <= i < MAX_NODES implies #[trigger] node_wf(s0.nodes[i]) by {}
}

/// The final names of the paths that set-up creates fit in a name.
proof fn lemma_setup_names()
    ensures
        split_parent_spec("/home".spec_bytes()).1.len() <= MAX_NAME,
        split_parent_spec("/tmp".spec_bytes()).1.len() <= MAX_NAME,
        split_parent_spec("/readme.txt".spec_bytes()).1.len() <= MAX_NAME,
{
    reveal_strlit("/home");
    reveal_strlit("/tmp");
    reveal_strlit("/readme.txt");
    assert(vstd::utf8::is_ascii_chars("/home"@));
    assert(vstd::utf8::is_ascii_chars("/tmp"@));
    assert(vstd::utf8::is_ascii_chars("/readme.txt"@));
    vstd::utf8::is_ascii_chars_encode_utf8("/home"@);
    vstd::utf8::is_ascii_chars_encode_utf8("/tmp"@);
    vstd::utf8::is_ascii_chars_encode_utf8("/readme.txt"@);
    lemma_split_name_len("/home".spec_bytes());
    lemma_split_name_len("/tmp".spec_bytes());
    lemma_split_name_len("/readme.txt".spec_bytes());
}

/// Set-up from a blank table gives a linked tree, so that the laws stated
/// for linked states apply to the state right after set-up and to every
/// state that the operations proved to keep a state linked reach from it.
pub proof fn law_init_linked()
    ensures
        linked(crate::fs::init_spec(blank_table())),
{
    let s = blank_table();
    let s0 = set_node(s, 0, NodeView { kind: NodeKind::Dir, name: seq![47u8], parent: 0, ..s.nodes[0] });
    lemma_root_linked();
    lemma_setup_names();
    let home = "/home".spec_bytes();
    let tmp = "/tmp".spec_bytes();
    let readme = "/readme.txt".spec_bytes();
    lemma_create_stays_linked(s0, home, NodeKind::Dir, 0);
    let s1 = create_spec(s0, home, NodeKind::Dir).0;
    lemma_create_stays_linked(s1, tmp, NodeKind::Dir, 1);
    let s2 = create_spec(s1, tmp, NodeKind::Dir).0;
    lemma_create_stays_linked(s2, readme, NodeKind::File, 2);
    let s3 = create_spec(s2, readme, NodeKind::File).0;
    lemma_write_keeps_linked(s3, readme, "Welcome to RxV6.\nType 'help' for commands.\n".spec_bytes());
}

/// A write keeps a tidy state tidy.
pub proof fn law_write_keeps_tidy(s: FsView, path: Seq<u8>, data: Seq<u8>)
    requires
        tidy(s),
    ensures
        tidy(write_spec(s, path, data).0),
{
    let s2 = write_spec(s, path, data).0;
    lemma_write_shape(s, path, data);
    assert forall|i: int| 0 <= i < MAX_NODES implies #[trigger] node_wf(s2.nodes[i]) by {
        assert(node_wf(s.nodes[i]));
    }
    assert forall|i: int, j: int|
        0 <= i < MAX_NODES && 0 <= j < s2.nodes[i].children.len() implies s2.nodes[#[trigger] s2.nodes[i].children[j] as int].kind
        != NodeKind::Free by {
        assert(s2.nodes[i].children == s.nodes[i].children);
        assert(node_wf(s.nodes[i]));
        let c = s.nodes[i].children[j];
        assert(s.nodes[c as int].kind != NodeKind::Free);
        assert(s2.nodes[c as int].kind == s.nodes[c as int].kind);
    }
    assert forall|i: int| 0 <= i < MAX_NODES && s2.nodes[i].kind != NodeKind::Free implies s2.nodes[#[trigger] s2.nodes[i].parent as int].kind
        != NodeKind::Free by {
        assert(node_wf(s.nodes[i]));
        assert(s2.nodes[s.nodes[i].parent as int].kind == s.nodes[s.nodes[i].parent as int].kind);
    }
}

/// Changing directory keeps a tidy state tidy, and on success the path
/// `.` names the new current directory.
pub proof fn law_set_cwd(s: FsView, path: Seq<u8>)
    requires
        tidy(s),
    ensures
        tidy(set_cwd_spec(s, path).0),
        set_cwd_spec(s, path).1 is Ok ==> set_cwd_spec(s, path).0.cwd == resolve(s, path)->Ok_0,
        set_cwd_spec(s, path).1 is Ok ==> resolve(set_cwd_spec(s, path).0, seq![]) == resolve(s, path),
{
    crate::fs::lemma_resolve_bound(s, path);
}

proof fn lemma_first_index_props(kids: Seq<usize>, x: usize)
    ensures
        crate::fs::first_index(kids, x) matches Some(i) ==> 0 <= i < kids.len() && kids[i] == x,
        crate::fs::first_index(kids, x) is None ==> !kids.contains(x),
    decreases kids.len(),
{
    if kids.len() > 0 && kids[0] != x {
        lemma_first_index_props(kids.drop_first(), x);
        if crate::fs::first_index(kids, x) is None {
            assert forall|j: int| 0 <= j < kids.len() implies kids[j] != x by {
                if j > 0 {
                    assert(kids[j] == kids.drop_first()[j - 1]);
                }
            }
        }
    }
}

/// Taking `x` out of a list without repeats drops exactly `x`.
proof fn lemma_remove_from(kids: Seq<usize>, x: usize)
    requires
        kids.no_duplicates(),
    ensures
        crate::fs::remove_from(kids, x).len() <= kids.len(),
        crate::fs::remove_from(kids, x).no_duplicates(),
        !crate::fs::remove_from(kids, x).contains(x),
        forall|y: usize| y != x ==> (#[trigger] crate::fs::remove_from(kids, x).contains(y) <==> kids.contains(y)),
        forall|y: usize| #[trigger] crate::fs::remove_from(kids, x).contains(y) ==> kids.contains(y),
{
    lemma_first_index_props(kids, x);
    let r = crate::fs::remove_from(kids, x);
    if let Some(i) = crate::fs::first_index(kids, x) {
        let n = kids.len();
        assert forall|a: int, b: int| 0 <= a < r.len() && 0 <= b < r.len() && a != b implies r[a] != r[b] by {
            if a == i {
                assert(r[a] == kids[n - 1]);
                assert(r[b] == kids[b]);
            } else if b == i {
                assert(r[b] == kids[n - 1]);
                assert(r[a] == kids[a]);
            } else {
                assert(r[a] == kids[a] && r[b] == kids[b]);
            }
        }
        assert forall|y: usize| #[trigger] r.contains(y) implies kids.contains(y) && y != x by {
            let a = choose|a: int| 0 <= a < r.len() && r[a] == y;
            if a == i {
                assert(kids[n - 1] == y);
                assert(n - 1 != i);
            } else {
                assert(kids[a] == y);
            }
        }
        assert forall|y: usize| y != x && #[trigger] kids.contains(y) implies r.contains(y) by {
            let a = choose|a: int| 0 <= a < kids.len() && kids[a] == y;
            assert(a != i);
            if a == n - 1 {
                assert(r[i] == y);
            } else {
                assert(r[a] == y);
            }
        }
    }
}

/// In a tidy state, a lookup that starts at a node in use ends at a node
/// in use.
proof fn lemma_walk_live(s: FsView, cur: usize, q: Seq<u8>)
    requires
        tidy(s),
        cur < MAX_NODES,
        s.nodes[cur as int].kind != NodeKind::Free,
    ensures
        walk(s, cur, q) matches Ok(n) ==> n < MAX_NODES && s.nodes[n as int].kind != NodeKind::Free,
    decreases q.len(),
{
    lemma_seg_end_bound(q);
    let k = seg_end(q);
    let part = q.subrange(0, k as int);
    assert(node_wf(s.nodes[cur as int]));
    crate::fs::lemma_find_child_bound(s, cur, part);
    lemma_find_in_listed(s, s.nodes[cur as int].children, part);
    if let Ok(n) = step(s, cur, part) {
        if let Some(m) = find_child(s, cur, part) {
            let kids = s.nodes[cur as int].children;
            if kids.contains(m) {
                let j = choose|j: int| 0 <= j < kids.len() && kids[j] == m;
                assert(s.nodes[kids[j] as int].kind != NodeKind::Free);
            }
        }
        assert(s.nodes[n as int].kind != NodeKind::Free);
        if k < q.len() {
            lemma_walk_live(s, n, q.subrange(k as int + 1, q.len() as int));
        }
    }
}

/// In a tidy state every path names a node in use.
pub proof fn law_resolve_live(s: FsView, p: Seq<u8>)
    requires
        tidy(s),
    ensures
        resolve(s, p) matches Ok(n) ==> n < MAX_NODES && s.nodes[n as int].kind != NodeKind::Free,
{
    if p.len() > 0 {
        if p[0] == 47u8 {
            lemma_walk_live(s, 0, p);
        } else {
            lemma_walk_live(s, s.cwd, p);
        }
    }
}

/// `t` is `s` with node `idx` freed and taken out of the child list of its
/// parent `p`; nothing else differs.
pub open spec fn shrinks(s: FsView, t: FsView, idx: usize, p: usize) -> bool {
    &&& s.cwd == t.cwd
    &&& s.nodes.len() == t.nodes.len()
    &&& idx < MAX_NODES
    &&& p < MAX_NODES
    &&& p != idx
    &&& forall|i: int| 0 <= i < s.nodes.len() && i != idx && i != p ==> #[trigger] t.nodes[i] == s.nodes[i]
    &&& t.nodes[p as int] == (NodeView {
        children: crate::fs::remove_from(s.nodes[p as int].children, idx),
        ..s.nodes[p as int]
    })
    &&& t.nodes[idx as int] == (NodeView { kind: NodeKind::Free, ..s.nodes[idx as int] })
}

/// The facts a removal starts from.
pub open spec fn removable(s: FsView, idx: usize, p: usize) -> bool {
    &&& linked(s)
    &&& 0 < idx < MAX_NODES
    &&& idx != s.cwd
    &&& s.nodes[idx as int].kind != NodeKind::Free
    &&& s.nodes[idx as int].parent == p
    &&& s.nodes[idx as int].children.len() == 0
}

proof fn lemma_delete_shrinks(s: FsView, path: Seq<u8>)
    requires
        linked(s),
        delete_spec(s, path).1 is Ok,
        resolve(s, path) != Ok::<usize, FsError>(s.cwd),
    ensures
        ({
            let idx = resolve(s, path)->Ok_0;
            let p = s.nodes[idx as int].parent;
            &&& removable(s, idx, p)
            &&& shrinks(s, delete_spec(s, path).0, idx, p)
        }),
{
    let idx = resolve(s, path)->Ok_0;
    law_resolve_live(s, path);
    assert(node_wf(s.nodes[idx as int]));
    let p = s.nodes[idx as int].parent;
    assert(s.nodes[p as int].children.contains(idx));
    assert(s.nodes[idx as int].children.len() == 0);
    assert(p != idx) by {
        if p == idx {
            assert(s.nodes[idx as int].children.len() > 0);
        }
    }
    let s1 = crate::fs::remove_child_spec(s, p, idx);
    assert(s1.nodes[idx as int] == s.nodes[idx as int]);
}

proof fn lemma_shrinks_wf(s: FsView, t: FsView, idx: usize, p: usize)
    requires
        removable(s, idx, p),
        shrinks(s, t, idx, p),
    ensures
        fs_wf(t),
{
    let kids = s.nodes[p as int].children;
    lemma_remove_from(kids, idx);
    assert forall|i: int| 0 <= i < MAX_NODES implies #[trigger] node_wf(t.nodes[i]) by {
        assert(node_wf(s.nodes[i]));
        if i == p {
            let nk = t.nodes[i].children;
            assert forall|j: int| 0 <= j < nk.len() implies #[trigger] nk[j] < MAX_NODES by {
                assert(nk.contains(nk[j]));
                assert(kids.contains(nk[j]));
            }
        }
    }
}

proof fn lemma_shrinks_children(s: FsView, t: FsView, idx: usize, p: usize)
    requires
        removable(s, idx, p),
        shrinks(s, t, idx, p),
    ensures
        forall|i: int, j: int|
            0 <= i < MAX_NODES && 0 <= j < t.nodes[i].children.len() ==> t.nodes[#[trigger] t.nodes[i].children[j] as int].kind
                != NodeKind::Free && t.nodes[t.nodes[i].children[j] as int].parent == i,
        forall|i: int| 0 <= i < MAX_NODES ==> (#[trigger] t.nodes[i].children).no_duplicates(),
        forall|i: int, j: int| 0 <= i < MAX_NODES && 0 <= j < t.nodes[i].children.len() ==> #[trigger] t.nodes[i].children[j] != 0,
{
    let kids = s.nodes[p as int].children;
    lemma_remove_from(kids, idx);
    assert forall|i: int, j: int| 0 <= i < MAX_NODES && 0 <= j < t.nodes[i].children.len() implies #[trigger] t.nodes[
        i].children[j] != 0 by {
        let c = t.nodes[i].children[j];
        if i == p {
            assert(t.nodes[i].children.contains(c));
            assert(kids.contains(c));
            let a = choose|a: int| 0 <= a < kids.len() && kids[a] == c;
            assert(kids[a] != 0);
        } else if i != idx {
            assert(t.nodes[i] == s.nodes[i]);
            assert(s.nodes[i].children[j] != 0);
        }
    }
    assert forall|i: int, j: int| 0 <= i < MAX_NODES && 0 <= j < t.nodes[i].children.len() implies t.nodes[
        #[trigger] t.nodes[i].children[j] as int].kind != NodeKind::Free && t.nodes[t.nodes[i].children[j] as int].parent
        == i by {
        let c = t.nodes[i].children[j];
        assert(node_wf(s.nodes[i]));
        if i == p {
            assert(t.nodes[i].children.contains(c));
            assert(kids.contains(c));
            let a = choose|a: int| 0 <= a < kids.len() && kids[a] == c;
            assert(s.nodes[kids[a] as int].kind != NodeKind::Free);
            assert(s.nodes[kids[a] as int].parent == p);
        } else if i == idx {
            assert(t.nodes[i].children.len() == 0);
        } else {
            assert(t.nodes[i] == s.nodes[i]);
            assert(s.nodes[c as int].kind != NodeKind::Free);
            assert(s.nodes[c as int].parent == i);
        }
        assert(c != idx);
        assert(c < MAX_NODES) by {
            if i != p {
                assert(c == s.nodes[i].children[j]);
            }
        }
        if c != p {
            assert(t.nodes[c as int] == s.nodes[c as int]);
        }
    }
    assert forall|i: int| 0 <= i < MAX_NODES implies (#[trigger] t.nodes[i].children).no_duplicates() by {
        if i != p && i != idx {
            assert(t.nodes[i] == s.nodes[i]);
        }
    }
}

proof fn lemma_shrinks_parents(s: FsView, t: FsView, idx: usize, p: usize)
    requires
        removable(s, idx, p),
        shrinks(s, t, idx, p),
    ensures
        forall|i: int| 0 <= i < MAX_NODES && t.nodes[i].kind != NodeKind::Free ==> t.nodes[#[trigger] t.nodes[i].parent as int].kind
            != NodeKind::Free,
        forall|c: int|
            0 < c < MAX_NODES && #[trigger] t.nodes[c].kind != NodeKind::Free ==> t.nodes[t.nodes[c].parent as int].children.contains(
                c as usize,
            ),
{
    let kids = s.nodes[p as int].children;
    lemma_remove_from(kids, idx);
    assert forall|i: int| 0 <= i < MAX_NODES && t.nodes[i].kind != NodeKind::Free implies t.nodes[
        #[trigger] t.nodes[i].parent as int].kind != NodeKind::Free by {
        assert(i != idx);
        if i != p {
            assert(t.nodes[i] == s.nodes[i]);
        }
        assert(node_wf(s.nodes[i]));
        let q = s.nodes[i].parent;
        assert(s.nodes[q as int].kind != NodeKind::Free);
        if i != 0 {
            assert(s.nodes[q as int].children.contains(i as usize));
        }
        assert(q != idx);
        if q != p {
            assert(t.nodes[q as int] == s.nodes[q as int]);
        }
    }
    assert forall|c: int| 0 < c < MAX_NODES && #[trigger] t.nodes[c].kind != NodeKind::Free implies t.nodes[
        t.nodes[c].parent as int].children.contains(c as usize) by {
        assert(c != idx);
        if c != p {
            assert(t.nodes[c] == s.nodes[c]);
        }
        assert(node_wf(s.nodes[c]));
        let q = s.nodes[c].parent;
        assert(s.nodes[q as int].children.contains(c as usize));
        assert(q != idx);
        if q == p {
            assert(t.nodes[p as int].children.contains(c as usize));
        } else {
            assert(t.nodes[q as int] == s.nodes[q as int]);
        }
    }
}

#[verifier::spinoff_prover]
proof fn lemma_shrinks_linked(s: FsView, t: FsView, idx: usize, p: usize)
    requires
        removable(s, idx, p),
        shrinks(s, t, idx, p),
    ensures
        linked(t),
{
    lemma_shrinks_wf(s, t, idx, p);
    lemma_shrinks_children(s, t, idx, p);
    lemma_shrinks_parents(s, t, idx, p);
    assert forall|i: int| 0 <= i < MAX_NODES && #[trigger] t.nodes[i].kind != NodeKind::Dir implies t.nodes[i].children.len()
        == 0 by {
        if i != p && i != idx {
            assert(t.nodes[i] == s.nodes[i]);
        }
    }
    if s.cwd != p {
        assert(t.nodes[s.cwd as int] == s.nodes[s.cwd as int]);
    }
    if p != 0 {
        assert(t.nodes[0] == s.nodes[0]);
    }
}

/// A removed node can no longer be reached: after a delete at `path`
/// succeeds in a linked state, other than of the current directory, the
/// state is still linked, the node's slot is free, and `path` no longer
/// names it.
pub proof fn law_delete_unreachable(s: FsView, path: Seq<u8>)
    requires
        linked(s),
        delete_spec(s, path).1 is Ok,
        resolve(s, path) != Ok::<usize, FsError>(s.cwd),
    ensures
        ({
            let s2 = delete_spec(s, path).0;
            let idx = resolve(s, path)->Ok_0;
            &&& linked(s2)
            &&& s2.nodes[idx as int].kind == NodeKind::Free
            &&& resolve(s2, path) != Ok::<usize, FsError>(idx)
        }),
{
    let s2 = delete_spec(s, path).0;
    let idx = resolve(s, path)->Ok_0;
    lemma_delete_shrinks(s, path);
    lemma_shrinks_linked(s, s2, idx, s.nodes[idx as int].parent);
    law_resolve_live(s2, path);
}

/// A list whose entries are `x` or named otherwise, with `x` appended,
/// finds `x` under `x`'s name.
proof fn lemma_find_in_fresh(t: FsView, l: Seq<usize>, x: usize, name: Seq<u8>)
    requires
        t.nodes[x as int].name == name,
        forall|j: int| 0 <= j < l.len() ==> l[j] == x || t.nodes[#[trigger] l[j] as int].name != name,
    ensures
        find_in(t, l.push(x), name) == Some(x),
    decreases l.len(),
{
    if l.len() == 0 {
        assert(l.push(x)[0] == x);
    } else {
        assert(l.push(x)[0] == l[0]);
        assert(l.push(x).drop_first() =~= l.drop_first().push(x));
        assert forall|j: int| 0 <= j < l.drop_first().len() implies l.drop_first()[j] == x || t.nodes[
            #[trigger] l.drop_first()[j] as int].name != name by {
            assert(l.drop_first()[j] == l[j + 1]);
        }
        lemma_find_in_fresh(t, l.drop_first(), x, name);
    }
}

/// A node renamed into the current directory is found there: after a
/// rename of `old` to a plain name `new` (no `/`, not `.` or `..`) succeeds
/// in a linked state where no other entry of the current directory is
/// named `new`, the path `new` names the node, which keeps its kind and
/// content and now has that name and the current directory as parent.
#[verifier::spinoff_prover]
#[verifier::rlimit(40)]
pub proof fn law_rename_then_found(s: FsView, old: Seq<u8>, new: Seq<u8>)
    requires
        linked(s),
        new.len() > 0,
        forall|j: int| 0 <= j < new.len() ==> new[j] != 47u8,
        !is_dot(new),
        !is_dot_dot(new),
        crate::fs::rename_spec(s, old, new).1 is Ok,
        forall|j: int|
            0 <= j < s.nodes[s.cwd as int].children.len() ==> s.nodes[s.cwd as int].children[j] == resolve(s, old)->Ok_0
                || s.nodes[#[trigger] s.nodes[s.cwd as int].children[j] as int].name != new,
    ensures
        ({
            let s2 = crate::fs::rename_spec(s, old, new).0;
            let idx = resolve(s, old)->Ok_0;
            &&& resolve(s2, new) == Ok::<usize, FsError>(idx)
            &&& s2.nodes[idx as int].kind == s.nodes[idx as int].kind
            &&& s2.nodes[idx as int].data == s.nodes[idx as int].data
            &&& s2.nodes[idx as int].name == new
            &&& s2.nodes[idx as int].parent == s.cwd
        }),
{
    crate::fs::lemma_last_slash_none(new);
    assert(split_parent_spec(new) == (Seq::<u8>::empty(), new));
    let idx = resolve(s, old)->Ok_0;
    crate::fs::lemma_resolve_bound(s, old);
    let cwd = s.cwd;
    let op = s.nodes[idx as int].parent;
    assert(node_wf(s.nodes[idx as int]));
    assert(node_wf(s.nodes[op as int]));
    let s1 = crate::fs::remove_child_spec(s, op, idx);
    let s2 = set_node(s1, idx, NodeView { parent: cwd, ..s1.nodes[idx as int] });
    let s3 = crate::fs::set_name_spec(s2, idx, new).0;
    let s4 = crate::fs::rename_spec(s, old, new).0;
    assert(s4 == crate::fs::add_child_spec(s3, cwd, idx).0);
    let kids = s.nodes[cwd as int].children;
    let l = s3.nodes[cwd as int].children;
    assert(s4.nodes[cwd as int].children == l.push(idx));
    assert(forall|c: int| 0 <= c < MAX_NODES && c != idx ==> #[trigger] s4.nodes[c].name == s.nodes[c].name);
    lemma_remove_from(s.nodes[op as int].children, idx);
    assert forall|j: int| 0 <= j < l.len() implies l[j] == idx || s4.nodes[#[trigger] l[j] as int].name != new by {
        assert(node_wf(s.nodes[cwd as int]));
        if op == cwd {
            assert(l == crate::fs::remove_from(kids, idx));
            assert(l.contains(l[j]));
            assert(kids.contains(l[j]));
            let a = choose|a: int| 0 <= a < kids.len() && kids[a] == l[j];
            assert(kids[a] == idx || s.nodes[kids[a] as int].name != new);
        } else {
            assert(l == kids);
            assert(kids[j] == idx || s.nodes[kids[j] as int].name != new);
        }
        assert(l[j] < MAX_NODES);
    }
    lemma_find_in_fresh(s4, l, idx, new);
    lemma_walk_single(s4, cwd, new);
    assert(s4.nodes[cwd as int].kind == NodeKind::Dir);
}

/// A name that a path segment can reach: not empty, without `/`, and not
/// `.` or `..`.
pub open spec fn plain_name(n: Seq<u8>) -> bool {
    &&& n.len() > 0
    &&& forall|j: int| 0 <= j < n.len() ==> n[j] != 47u8
    &&& !is_dot(n)
    &&& !is_dot_dot(n)
}

/// Each node of `chain` has a plain name and is the first child of its
/// parent with that name.
pub open spec fn named_down(s: FsView, chain: Seq<usize>) -> bool {
    forall|i: int|
        0 <= i < chain.len() ==> {
            &&& plain_name(s.nodes[#[trigger] chain[i] as int].name)
            &&& find_child(s, s.nodes[chain[i] as int].parent, s.nodes[chain[i] as int].name) == Some(chain[i])
        }
}

/// Following parents from `idx` reaches the root in at most `k` steps.
pub open spec fn reaches_root(s: FsView, idx: usize, k: nat) -> bool
    decreases k,
{
    idx == 0 || (k > 0 && reaches_root(s, s.nodes[idx as int].parent, (k - 1) as nat))
}

/// The names down to a node, joined by `/`, lead from the root to it.
proof fn lemma_walk_ancestry(s: FsView, idx: usize, k: nat)
    requires
        linked(s),
        idx < MAX_NODES,
        s.nodes[idx as int].kind != NodeKind::Free,
        named_down(s, crate::fs::ancestry(s, idx, k)),
        reaches_root(s, idx, k),
    ensures
        walk(s, 0, crate::fs::join_names(s, crate::fs::ancestry(s, idx, k))) == Ok::<usize, FsError>(idx),
    decreases k,
{
    if idx == 0 {
        lemma_walk_single(s, 0, seq![]);
    } else {
        let p = s.nodes[idx as int].parent;
        assert(node_wf(s.nodes[idx as int]));
        let a = crate::fs::ancestry(s, p, (k - 1) as nat);
        let c = crate::fs::ancestry(s, idx, k);
        assert(c == a.push(idx));
        assert(c.drop_last() =~= a);
        assert forall|i: int| 0 <= i < a.len() implies {
            &&& plain_name(s.nodes[#[trigger] a[i] as int].name)
            &&& find_child(s, s.nodes[a[i] as int].parent, s.nodes[a[i] as int].name) == Some(a[i])
        } by {
            assert(c[i] == a[i]);
        }
        lemma_walk_ancestry(s, p, (k - 1) as nat);
        let name = s.nodes[idx as int].name;
        assert(c[a.len() as int] == idx);
        assert(plain_name(name));
        lemma_walk_concat(s, 0, crate::fs::join_names(s, a), name);
        lemma_walk_single(s, p, name);
        assert(s.nodes[p as int].children.contains(idx));
        assert(s.nodes[p as int].kind == NodeKind::Dir);
    }
}

/// A joined name chain that is not empty starts with `/`.
proof fn lemma_join_first(s: FsView, chain: Seq<usize>)
    requires
        chain.len() > 0,
    ensures
        crate::fs::join_names(s, chain).len() > 0,
        crate::fs::join_names(s, chain)[0] == 47u8,
    decreases chain.len(),
{
    let a = crate::fs::join_names(s, chain.drop_last());
    let b = seq![47u8] + s.nodes[chain.last() as int].name;
    assert(crate::fs::join_names(s, chain) =~= a + b);
    if chain.len() > 1 {
        lemma_join_first(s, chain.drop_last());
        assert((a + b)[0] == a[0]);
    } else {
        assert(a.len() == 0);
        assert((a + b)[0] == b[0]);
    }
}

/// The working directory's path names the working directory: in a linked
/// state where the current directory lies at most 32 levels below the root
/// and every directory on the way has a plain name that is the first of
/// that name in its parent, the path that `cwd_path` writes leads back to
/// the current directory.
pub proof fn law_cwd_path_resolves(s: FsView)
    requires
        linked(s),
        reaches_root(s, s.cwd, 32),
        named_down(s, crate::fs::ancestry(s, s.cwd, 32)),
    ensures
        resolve(s, crate::fs::cwd_path_spec(s)) == Ok::<usize, FsError>(s.cwd),
{
    if s.cwd == 0 {
        let p = seq![47u8];
        assert(p =~= Seq::<u8>::empty() + seq![47u8] + Seq::<u8>::empty());
        lemma_walk_concat(s, 0, seq![], seq![]);
        lemma_walk_single(s, 0, seq![]);
    } else {
        lemma_walk_ancestry(s, s.cwd, 32);
        let c = crate::fs::ancestry(s, s.cwd, 32);
        assert(c.len() > 0);
        lemma_join_first(s, c);
    }
}

/// File and directory creation decide alike: for every state and path,
/// `create_file` and `create_dir` succeed together or fail with the same
/// error.
pub proof fn law_create_kinds_agree(s: FsView, path: Seq<u8>)
    requires
        fs_wf(s),
    ensures
        create_spec(s, path, NodeKind::File).1 == create_spec(s, path, NodeKind::Dir).1,
{
    let (pp, name) = split_parent_spec(path);
    crate::fs::lemma_resolve_bound(s, pp);
    lemma_first_free_found(s, 1);
    if name.len() > 0 {
        if let Ok(parent) = resolve(s, pp) {
            if s.nodes[parent as int].kind == NodeKind::Dir && find_child(s, parent, name) is None {
                if let Some(idx) = first_free(s) {
                    assert(parent != idx);
                    let n0 = s.nodes[idx as int];
                    let f1 = set_node(s, idx, NodeView { kind: NodeKind::File, parent: parent, data: seq![], ..n0 });
                    let d1 = set_node(s, idx, NodeView { kind: NodeKind::Dir, parent: parent, children: seq![], ..n0 });
                    assert(f1.nodes[parent as int] == s.nodes[parent as int]);
                    assert(d1.nodes[parent as int] == s.nodes[parent as int]);
                    if name.len() <= MAX_NAME {
                        let f2 = crate::fs::set_name_spec(f1, idx, name).0;
                        let d2 = crate::fs::set_name_spec(d1, idx, name).0;
                        assert(f2.nodes[parent as int] == s.nodes[parent as int]);
                        assert(d2.nodes[parent as int] == s.nodes[parent as int]);
                    }
                }
            }
        }
    }
}

/// `t` differs from `s` only in slot `idx`, which is free in `s`.
pub open spec fn differs_only_at_free(s: FsView, t: FsView, idx: usize) -> bool {
    &&& s.cwd == t.cwd
    &&& s.nodes.len() == t.nodes.len()
    &&& idx < MAX_NODES
    &&& s.nodes[idx as int].kind == NodeKind::Free
    &&& forall|i: int| 0 <= i < s.nodes.len() && i != idx ==> #[trigger] t.nodes[i] == s.nodes[i]
}

/// What a lookup of path `q` shows is the same in `s` and `t`: the node it
/// names (or the error), that node's slot (kind, name, content and child
/// list in order), and the slots of the nodes it lists.
pub open spec fn looks_same(s: FsView, t: FsView, q: Seq<u8>) -> bool {
    &&& resolve(t, q) == resolve(s, q)
    &&& resolve(s, q) matches Ok(n) ==> {
        &&& t.nodes[n as int] == s.nodes[n as int]
        &&& forall|j: int|
            0 <= j < s.nodes[n as int].children.len() ==> t.nodes[#[trigger] s.nodes[n as int].children[j] as int]
                == s.nodes[s.nodes[n as int].children[j] as int]
    }
}

/// A lookup from a node in use in a tidy state never meets a free slot, so
/// it goes the same way when only a free slot differs.
proof fn lemma_walk_hidden(s: FsView, t: FsView, idx: usize, cur: usize, q: Seq<u8>)
    requires
        tidy(s),
        differs_only_at_free(s, t, idx),
        cur < MAX_NODES,
        s.nodes[cur as int].kind != NodeKind::Free,
    ensures
        walk(t, cur, q) == walk(s, cur, q),
    decreases q.len(),
{
    lemma_seg_end_bound(q);
    let k = seg_end(q);
    let part = q.subrange(0, k as int);
    assert(node_wf(s.nodes[cur as int]));
    assert(t.nodes[cur as int] == s.nodes[cur as int]);
    let kids = s.nodes[cur as int].children;
    assert forall|j: int| 0 <= j < kids.len() implies #[trigger] t.nodes[kids[j] as int].name
        == s.nodes[kids[j] as int].name by {
        assert(s.nodes[kids[j] as int].kind != NodeKind::Free);
    }
    lemma_find_in_agree(s, t, kids, part);
    assert(step(t, cur, part) == step(s, cur, part));
    crate::fs::lemma_find_child_bound(s, cur, part);
    lemma_find_in_listed(s, kids, part);
    if let Ok(n) = step(s, cur, part) {
        if let Some(m) = find_child(s, cur, part) {
            if kids.contains(m) {
                let j = choose|j: int| 0 <= j < kids.len() && kids[j] == m;
                assert(s.nodes[kids[j] as int].kind != NodeKind::Free);
            }
        }
        assert(s.nodes[n as int].kind != NodeKind::Free);
        if k < q.len() {
            lemma_walk_hidden(s, t, idx, n, q.subrange(k as int + 1, q.len() as int));
        }
    }
}

/// In a tidy state, changing only a free slot changes nothing that a
/// lookup shows.
pub proof fn lemma_hidden_slot(s: FsView, t: FsView, idx: usize, q: Seq<u8>)
    requires
        tidy(s),
        differs_only_at_free(s, t, idx),
    ensures
        looks_same(s, t, q),
{
    if q.len() > 0 {
        if q[0] == 47u8 {
            lemma_walk_hidden(s, t, idx, 0, q);
        } else {
            lemma_walk_hidden(s, t, idx, s.cwd, q);
        }
    }
    law_resolve_live(s, q);
    if let Ok(n) = resolve(s, q) {
        assert(node_wf(s.nodes[n as int]));
        assert(t.nodes[n as int] == s.nodes[n as int]);
        assert forall|j: int| 0 <= j < s.nodes[n as int].children.len() implies t.nodes[
            #[trigger] s.nodes[n as int].children[j] as int] == s.nodes[s.nodes[n as int].children[j] as int] by {
            let c = s.nodes[n as int].children[j];
            assert(s.nodes[c as int].kind != NodeKind::Free);
        }
    }
}

/// A refused create changes nothing that a lookup shows: in a tidy state,
/// after a create at `path` is refused, for whatever reason, the path `q`
/// names what it named, with the same slot and listing. (A refusal for a
/// name too long or a full directory leaves a claimed slot behind, but no
/// path leads to it.)
pub proof fn law_create_refusal_hidden(s: FsView, path: Seq<u8>, kind: NodeKind, q: Seq<u8>)
    requires
        tidy(s),
        kind != NodeKind::Free,
        create_spec(s, path, kind).1 is Err,
    ensures
        looks_same(s, create_spec(s, path, kind).0, q),
{
    let s2 = create_spec(s, path, kind).0;
    let (pp, name) = split_parent_spec(path);
    crate::fs::lemma_resolve_bound(s, pp);
    lemma_first_free_found(s, 1);
    if s2 == s {
        assert(looks_same(s, s, q));
    } else {
        let idx = first_free(s)->Some_0;
        let parent = resolve(s, pp)->Ok_0;
        assert(parent != idx);
        assert(differs_only_at_free(s, s2, idx));
        lemma_hidden_slot(s, s2, idx, q);
    }
}

/// Taking out an entry just appended to a list that did not hold it gives
/// the list back.
proof fn lemma_remove_pushed(kids: Seq<usize>, x: usize)
    requires
        !kids.contains(x),
    ensures
        crate::fs::remove_from(kids.push(x), x) == kids,
{
    lemma_first_index_props(kids.push(x), x);
    assert(kids.push(x)[kids.len() as int] == x);
    assert(kids.push(x).contains(x));
    let fi = crate::fs::first_index(kids.push(x), x)->Some_0;
    assert(0 <= fi < kids.push(x).len() && kids.push(x)[fi] == x);
    assert(fi == kids.len()) by {
        if fi < kids.len() {
            assert(kids.push(x)[fi] == kids[fi]);
            assert(kids.contains(x));
        }
    }
    assert(crate::fs::remove_from(kids.push(x), x) =~= kids);
}

/// A lookup that succeeds from a node that a path names goes the same way
/// after an unseen free slot is taken into use and appended to a list.
proof fn lemma_walk_grow_unseen(s: FsView, t: FsView, idx: usize, p: usize, cur: usize, q: Seq<u8>, pre: Seq<u8>)
    requires
        fs_wf(s),
        grows(s, t, idx, p),
        slot_unseen(s, idx),
        pre.len() > 0,
        resolve(s, pre) == Ok::<usize, FsError>(cur),
        walk(s, cur, q) is Ok,
    ensures
        walk(t, cur, q) == walk(s, cur, q),
    decreases q.len(),
{
    crate::fs::lemma_resolve_bound(s, pre);
    assert(resolve(s, pre) != Ok::<usize, FsError>(idx));
    lemma_seg_end_bound(q);
    let k = seg_end(q);
    let part = q.subrange(0, k as int);
    assert(node_wf(s.nodes[cur as int]));
    let kids = s.nodes[cur as int].children;
    assert forall|j: int| 0 <= j < kids.len() implies #[trigger] t.nodes[kids[j] as int].name
        == s.nodes[kids[j] as int].name by {
        assert(s.nodes[cur as int].children[j] != idx);
    }
    if cur == p {
        lemma_find_in_push(s, t, kids, idx, part);
    } else {
        assert(t.nodes[cur as int] == s.nodes[cur as int]);
        lemma_find_in_agree(s, t, kids, part);
    }
    assert(step(t, cur, part) == step(s, cur, part));
    let n = step(s, cur, part)->Ok_0;
    if k < q.len() {
        lemma_extend_prefix(s, pre, cur, part);
        lemma_walk_grow_unseen(s, t, idx, p, n, q.subrange(k as int + 1, q.len() as int), pre + seq![47u8] + part);
    }
}

/// A create undone by a delete of the same path leaves nothing that a
/// lookup shows changed: in a well-formed state where the slot a create
/// claims cannot be seen (no child list and no path names it; so in every
/// tidy state), after a create at `path` succeeds, unless its final name is
/// `.` or `..`, a delete of `path` succeeds, and then the path `q` names
/// what it named before the create, with the same slot and the same
/// listing, in the same order.
#[verifier::spinoff_prover]
#[verifier::rlimit(60)]
pub proof fn law_create_then_delete(s: FsView, path: Seq<u8>, kind: NodeKind, q: Seq<u8>)
    requires
        fs_wf(s),
        kind != NodeKind::Free,
        create_spec(s, path, kind).1 is Ok,
        slot_unseen(s, first_free(s)->Some_0),
        !is_dot(split_parent_spec(path).1),
        !is_dot_dot(split_parent_spec(path).1),
    ensures
        delete_spec(create_spec(s, path, kind).0, path).1 is Ok,
        looks_same(s, delete_spec(create_spec(s, path, kind).0, path).0, q),
{
    let (pp, name) = split_parent_spec(path);
    let s2 = create_spec(s, path, kind).0;
    let parent = resolve(s, pp)->Ok_0;
    let idx = first_free(s)->Some_0;
    crate::fs::lemma_resolve_bound(s, pp);
    lemma_first_free_found(s, 1);
    lemma_create_wf(s, path, kind);
    assert(grows(s, s2, idx, parent));
    lemma_start_paths(s);
    if pp.len() > 0 {
        if pp[0] == 47u8 {
            lemma_walk_grow_unseen(s, s2, idx, parent, 0, pp, seq![47u8]);
        } else {
            lemma_walk_grow_unseen(s, s2, idx, parent, s.cwd, pp, seq![46u8]);
        }
    }
    assert(resolve(s2, pp) == Ok::<usize, FsError>(parent));
    lemma_resolve_split(s2, path);
    let kids = s.nodes[parent as int].children;
    assert(node_wf(s.nodes[parent as int]));
    assert forall|j: int| 0 <= j < kids.len() implies #[trigger] s2.nodes[kids[j] as int].name
        == s.nodes[kids[j] as int].name by {
        assert(s.nodes[parent as int].children[j] != idx);
    }
    lemma_find_in_push(s, s2, kids, idx, name);
    assert(resolve(s2, path) == Ok::<usize, FsError>(idx));
    assert(s2.nodes[idx as int].parent == parent);
    assert(!kids.contains(idx)) by {
        if kids.contains(idx) {
            let j = choose|j: int| 0 <= j < kids.len() && kids[j] == idx;
            assert(s.nodes[parent as int].children[j] != idx);
        }
    }
    assert(s2.nodes[parent as int] == (NodeView { children: kids.push(idx), ..s.nodes[parent as int] }));
    lemma_remove_pushed(kids, idx);
    let s3 = delete_spec(s2, path).0;
    assert(s3.nodes[parent as int] == s.nodes[parent as int]);
    assert(forall|i: int| 0 <= i < s.nodes.len() && i != idx ==> #[trigger] s3.nodes[i] == s.nodes[i]);
    lemma_unseen_slot(s, s3, idx, q);
}

/// The child lists agree with the parent links: the table is well formed,
/// every listed child names its lister as parent, no list names the root,
/// and no list names a child twice. Every linked state is one; removing the
/// current directory keeps it (see `law_delete_keeps_lists`), though it
/// breaks `tidy`.
pub open spec fn lists_agree(s: FsView) -> bool {
    &&& fs_wf(s)
    &&& forall|i: int, j: int|
        0 <= i < MAX_NODES && 0 <= j < s.nodes[i].children.len() ==> #[trigger] s.nodes[i].children[j] != 0
    &&& forall|i: int, j: int|
        0 <= i < MAX_NODES && 0 <= j < s.nodes[i].children.len() ==> s.nodes[#[trigger] s.nodes[i].children[j] as int].parent
            == i
    &&& forall|i: int| 0 <= i < MAX_NODES ==> (#[trigger] s.nodes[i].children).no_duplicates()
}

/// Every linked state has its lists agree with its parent links.
pub proof fn lemma_linked_lists_agree(s: FsView)
    requires
        linked(s),
    ensures
        lists_agree(s),
{
}

/// Names joined into an absolute path: `/n1/n2/.../nk`.
pub open spec fn slash_join(ns: Seq<Seq<u8>>) -> Seq<u8>
    decreases ns.len(),
{
    if ns.len() == 0 {
        seq![]
    } else {
        slash_join(ns.drop_last()) + seq![47u8] + ns.last()
    }
}

/// A joined path of at least one name starts with `/`.
proof fn lemma_slash_join_first(ns: Seq<Seq<u8>>)
    requires
        ns.len() > 0,
    ensures
        slash_join(ns).len() > 0,
        slash_join(ns)[0] == 47u8,
    decreases ns.len(),
{
    let a = slash_join(ns.drop_last());
    let b = seq![47u8] + ns.last();
    assert(slash_join(ns) =~= a + b);
    if ns.len() > 1 {
        lemma_slash_join_first(ns.drop_last());
        assert((a + b)[0] == a[0]);
    } else {
        assert((a + b)[0] == b[0]);
    }
}

/// Ancestry and joined names read only the node table.
proof fn lemma_ancestry_nodes(s: FsView, t: FsView, idx: usize, k: nat)
    requires
        s.nodes == t.nodes,
    ensures
        crate::fs::ancestry(s, idx, k) == crate::fs::ancestry(t, idx, k),
    decreases k,
{
    if idx != 0 && k > 0 {
        lemma_ancestry_nodes(s, t, s.nodes[idx as int].parent, (k - 1) as nat);
    }
}

proof fn lemma_join_nodes(s: FsView, t: FsView, chain: Seq<usize>)
    requires
        s.nodes == t.nodes,
    ensures
        crate::fs::join_names(s, chain) == crate::fs::join_names(t, chain),
    decreases chain.len(),
{
    if chain.len() > 0 {
        lemma_join_nodes(s, t, chain.drop_last());
    }
}

/// In a linked state, the node that an absolute path of plain names leads
/// to is not the root, and the names down to it, read back through its
/// parents, are the names of the path.
proof fn lemma_walk_names(s: FsView, ns: Seq<Seq<u8>>, m: nat)
    requires
        lists_agree(s),
        1 <= ns.len() <= m,
        forall|i: int| 0 <= i < ns.len() ==> plain_name(#[trigger] ns[i]),
        walk(s, 0, slash_join(ns)) is Ok,
    ensures
        ({
            let c = walk(s, 0, slash_join(ns))->Ok_0;
            &&& c != 0
            &&& c < MAX_NODES
            &&& crate::fs::join_names(s, crate::fs::ancestry(s, c, m)) == slash_join(ns)
        }),
    decreases ns.len(),
{
    let a = ns.drop_last();
    let n = ns.last();
    assert(plain_name(ns[ns.len() - 1]));
    lemma_walk_concat(s, 0, slash_join(a), n);
    let cp = walk(s, 0, slash_join(a))->Ok_0;
    if a.len() == 0 {
        lemma_walk_single(s, 0, seq![]);
        assert(cp == 0);
    } else {
        assert forall|i: int| 0 <= i < a.len() implies plain_name(#[trigger] a[i]) by {
            assert(a[i] == ns[i]);
        }
        lemma_walk_names(s, a, (m - 1) as nat);
    }
    lemma_walk_single(s, cp, n);
    let c = walk(s, 0, slash_join(ns))->Ok_0;
    assert(step(s, cp, n) == Ok::<usize, FsError>(c));
    assert(s.nodes[cp as int].kind == NodeKind::Dir);
    assert(find_child(s, cp, n) == Some(c));
    crate::fs::lemma_find_in_member(s, s.nodes[cp as int].children, n);
    crate::fs::lemma_find_child_bound(s, cp, n);
    let kids = s.nodes[cp as int].children;
    let j = choose|j: int| 0 <= j < kids.len() && kids[j] == c;
    assert(kids[j] != 0);
    assert(s.nodes[kids[j] as int].parent == cp);
    let chain = crate::fs::ancestry(s, c, m);
    assert(chain == crate::fs::ancestry(s, cp, (m - 1) as nat).push(c));
    assert(chain.drop_last() =~= crate::fs::ancestry(s, cp, (m - 1) as nat));
    if a.len() == 0 {
        assert(crate::fs::ancestry(s, cp, (m - 1) as nat) == Seq::<usize>::empty());
    }
    assert(chain.last() == c);
    assert(s.nodes[c as int].name == n);
    let prev = crate::fs::join_names(s, crate::fs::ancestry(s, cp, (m - 1) as nat));
    assert(prev == slash_join(a));
    assert(crate::fs::join_names(s, chain) == prev + seq![47u8] + n);
    assert(slash_join(ns) == slash_join(a) + seq![47u8] + n);
}

/// The working directory's path is the path it was entered by: in a state
/// whose child lists agree with its parent links (so in every linked state,
/// and after the current directory was removed), after a change of
/// directory to `/n1/.../nk` (one to 32 plain names) succeeds, `cwd_path`
/// gives that path back.
pub proof fn law_cwd_path_after_set_cwd(s: FsView, ns: Seq<Seq<u8>>)
    requires
        lists_agree(s),
        1 <= ns.len() <= 32,
        forall|i: int| 0 <= i < ns.len() ==> plain_name(#[trigger] ns[i]),
        set_cwd_spec(s, slash_join(ns)).1 is Ok,
    ensures
        crate::fs::cwd_path_spec(set_cwd_spec(s, slash_join(ns)).0) == slash_join(ns),
{
    let p = slash_join(ns);
    lemma_slash_join_first(ns);
    lemma_walk_names(s, ns, 32);
    let c = walk(s, 0, p)->Ok_0;
    let s2 = set_cwd_spec(s, p).0;
    assert(s2.cwd == c);
    assert(s2.nodes == s.nodes);
    lemma_ancestry_nodes(s, s2, c, 32);
    lemma_join_nodes(s, s2, crate::fs::ancestry(s, c, 32));
}

/// Slot `f` cannot be seen: no child list names it and no path names it.
pub open spec fn slot_unseen(s: FsView, f: usize) -> bool {
    &&& forall|i: int, j: int| 0 <= i < MAX_NODES && 0 <= j < s.nodes[i].children.len() ==> #[trigger] s.nodes[i].children[j] != f
    &&& forall|q: Seq<u8>| #[trigger] resolve(s, q) != Ok::<usize, FsError>(f)
}

/// A path that names `cur`, extended by one more segment, names what that
/// segment leads to from `cur`.
proof fn lemma_extend_prefix(s: FsView, pre: Seq<u8>, cur: usize, part: Seq<u8>)
    requires
        fs_wf(s),
        pre.len() > 0,
        resolve(s, pre) == Ok::<usize, FsError>(cur),
        forall|j: int| 0 <= j < part.len() ==> part[j] != 47u8,
    ensures
        resolve(s, pre + seq![47u8] + part) == step(s, cur, part),
{
    let st: usize = if pre[0] == 47u8 { 0 } else { s.cwd };
    assert((pre + seq![47u8] + part)[0] == pre[0]);
    lemma_walk_concat(s, st, pre, part);
    crate::fs::lemma_resolve_bound(s, pre);
    lemma_walk_single(s, cur, part);
}

/// The root is named by `/` and the current directory by `.`.
proof fn lemma_start_paths(s: FsView)
    requires
        fs_wf(s),
    ensures
        resolve(s, seq![47u8]) == Ok::<usize, FsError>(0),
        resolve(s, seq![46u8]) == Ok::<usize, FsError>(s.cwd),
{
    assert(seq![47u8] =~= Seq::<u8>::empty() + seq![47u8] + Seq::<u8>::empty());
    lemma_walk_concat(s, 0, seq![], seq![]);
    lemma_walk_single(s, 0, seq![]);
    lemma_walk_single(s, s.cwd, seq![46u8]);
    assert(is_dot(seq![46u8]));
}

/// A lookup from a node that a path names never meets an unseen slot, so
/// it goes the same way when only that slot differs.
proof fn lemma_walk_unseen(s: FsView, t: FsView, idx: usize, cur: usize, q: Seq<u8>, pre: Seq<u8>)
    requires
        fs_wf(s),
        s.cwd == t.cwd,
        s.nodes.len() == t.nodes.len(),
        forall|i: int| 0 <= i < s.nodes.len() && i != idx ==> #[trigger] t.nodes[i] == s.nodes[i],
        slot_unseen(s, idx),
        pre.len() > 0,
        resolve(s, pre) == Ok::<usize, FsError>(cur),
    ensures
        walk(t, cur, q) == walk(s, cur, q),
    decreases q.len(),
{
    crate::fs::lemma_resolve_bound(s, pre);
    assert(resolve(s, pre) != Ok::<usize, FsError>(idx));
    lemma_seg_end_bound(q);
    let k = seg_end(q);
    let part = q.subrange(0, k as int);
    assert(node_wf(s.nodes[cur as int]));
    assert(t.nodes[cur as int] == s.nodes[cur as int]);
    let kids = s.nodes[cur as int].children;
    assert forall|j: int| 0 <= j < kids.len() implies #[trigger] t.nodes[kids[j] as int].name
        == s.nodes[kids[j] as int].name by {
        assert(s.nodes[cur as int].children[j] != idx);
    }
    lemma_find_in_agree(s, t, kids, part);
    assert(step(t, cur, part) == step(s, cur, part));
    if let Ok(n) = step(s, cur, part) {
        if k < q.len() {
            lemma_extend_prefix(s, pre, cur, part);
            lemma_walk_unseen(s, t, idx, n, q.subrange(k as int + 1, q.len() as int), pre + seq![47u8] + part);
        }
    }
}

/// Changing only an unseen slot changes nothing that a lookup shows.
pub proof fn lemma_unseen_slot(s: FsView, t: FsView, idx: usize, q: Seq<u8>)
    requires
        fs_wf(s),
        s.cwd == t.cwd,
        s.nodes.len() == t.nodes.len(),
        forall|i: int| 0 <= i < s.nodes.len() && i != idx ==> #[trigger] t.nodes[i] == s.nodes[i],
        slot_unseen(s, idx),
    ensures
        looks_same(s, t, q),
{
    lemma_start_paths(s);
    if q.len() > 0 {
        if q[0] == 47u8 {
            lemma_walk_unseen(s, t, idx, 0, q, seq![47u8]);
        } else {
            lemma_walk_unseen(s, t, idx, s.cwd, q, seq![46u8]);
        }
    }
    crate::fs::lemma_resolve_bound(s, q);
    if let Ok(n) = resolve(s, q) {
        assert(n != idx);
        assert(node_wf(s.nodes[n as int]));
        assert(t.nodes[n as int] == s.nodes[n as int]);
        assert forall|j: int| 0 <= j < s.nodes[n as int].children.len() implies t.nodes[
            #[trigger] s.nodes[n as int].children[j] as int] == s.nodes[s.nodes[n as int].children[j] as int] by {
            assert(s.nodes[n as int].children[j] != idx);
        }
    }
}

/// A refused create changes nothing that a lookup shows, in every
/// well-formed state where the slot a create would claim cannot be seen
/// (no child list and no path names it): after a create at `path` is
/// refused, for whatever reason, the path `q` names what it named, with the
/// same slot and listing.
pub proof fn law_create_refusal_unseen(s: FsView, path: Seq<u8>, kind: NodeKind, q: Seq<u8>)
    requires
        fs_wf(s),
        kind != NodeKind::Free,
        create_spec(s, path, kind).1 is Err,
        first_free(s) matches Some(f) ==> slot_unseen(s, f),
    ensures
        looks_same(s, create_spec(s, path, kind).0, q),
{
    let s2 = create_spec(s, path, kind).0;
    let (pp, name) = split_parent_spec(path);
    crate::fs::lemma_resolve_bound(s, pp);
    lemma_first_free_found(s, 1);
    if s2 == s {
        assert(looks_same(s, s, q));
    } else {
        let idx = first_free(s)->Some_0;
        let parent = resolve(s, pp)->Ok_0;
        assert(parent != idx);
        assert(forall|i: int| 0 <= i < s.nodes.len() && i != idx ==> #[trigger] s2.nodes[i] == s.nodes[i]);
        lemma_unseen_slot(s, s2, idx, q);
    }
}

/// In a tidy state the first free slot cannot be seen.
pub proof fn lemma_tidy_unseen(s: FsView)
    requires
        tidy(s),
    ensures
        first_free(s) matches Some(f) ==> slot_unseen(s, f),
{
    lemma_first_free_found(s, 1);
    if let Some(f) = first_free(s) {
        assert forall|i: int, j: int| 0 <= i < MAX_NODES && 0 <= j < s.nodes[i].children.len() implies #[trigger] s.nodes[
            i].children[j] != f by {
            assert(s.nodes[s.nodes[i].children[j] as int].kind != NodeKind::Free);
        }
        assert forall|q: Seq<u8>| #[trigger] resolve(s, q) != Ok::<usize, FsError>(f) by {
            law_resolve_live(s, q);
        }
    }
}

/// A delete, whatever its outcome, keeps the child lists in agreement with
/// the parent links; this includes removing the current directory.
pub proof fn law_delete_keeps_lists(s: FsView, path: Seq<u8>)
    requires
        lists_agree(s),
    ensures
        lists_agree(delete_spec(s, path).0),
{
    crate::fs::lemma_resolve_bound(s, path);
    if let Ok(idx) = resolve(s, path) {
        if delete_spec(s, path).1 is Ok {
            let op = s.nodes[idx as int].parent;
            assert(node_wf(s.nodes[idx as int]));
            let kids = s.nodes[op as int].children;
            lemma_remove_from(kids, idx);
            let t = delete_spec(s, path).0;
            assert(t.nodes[op as int].children == crate::fs::remove_from(kids, idx));
            assert forall|i: int| 0 <= i < MAX_NODES implies #[trigger] node_wf(t.nodes[i]) by {
                assert(node_wf(s.nodes[i]));
                if i == op {
                    let nk = t.nodes[i].children;
                    assert forall|j: int| 0 <= j < nk.len() implies #[trigger] nk[j] < MAX_NODES by {
                        assert(nk.contains(nk[j]));
                        assert(kids.contains(nk[j]));
                    }
                }
            }
            assert forall|i: int, j: int| 0 <= i < MAX_NODES && 0 <= j < t.nodes[i].children.len() implies #[trigger] t.nodes[
                i].children[j] != 0 && t.nodes[t.nodes[i].children[j] as int].parent == i by {
                let c = t.nodes[i].children[j];
                if i == op {
                    assert(t.nodes[i].children.contains(c));
                    assert(kids.contains(c));
                    let a = choose|a: int| 0 <= a < kids.len() && kids[a] == c;
                    assert(s.nodes[op as int].children[a] != 0);
                    assert(s.nodes[s.nodes[op as int].children[a] as int].parent == op);
                    assert(c != idx);
                } else {
                    assert(t.nodes[i].children == s.nodes[i].children);
                    assert(s.nodes[i].children[j] != 0);
                    assert(s.nodes[s.nodes[i].children[j] as int].parent == i);
                    assert(c != idx);
                }
                assert(node_wf(s.nodes[i]));
                assert(node_wf(s.nodes[op as int]));
                assert(c < MAX_NODES);
                if c != op {
                    assert(t.nodes[c as int] == s.nodes[c as int]);
                }
                assert(t.nodes[c as int].parent == s.nodes[c as int].parent);
            }
            assert forall|i: int| 0 <= i < MAX_NODES implies (#[trigger] t.nodes[i].children).no_duplicates() by {
                if i != op {
                    assert(t.nodes[i].children == s.nodes[i].children);
                }
            }
        }
    }
}

/// A write or a change of directory keeps the child lists in agreement
/// with the parent links.
pub proof fn law_write_cd_keep_lists(s: FsView, path: Seq<u8>, data: Seq<u8>)
    requires
        lists_agree(s),
    ensures
        lists_agree(write_spec(s, path, data).0),
        lists_agree(set_cwd_spec(s, path).0),
{
    crate::fs::lemma_resolve_bound(s, path);
    let t = write_spec(s, path, data).0;
    lemma_write_shape(s, path, data);
    assert(forall|i: int| 0 <= i < MAX_NODES ==> #[trigger] t.nodes[i].children == s.nodes[i].children);
    assert(forall|i: int| 0 <= i < MAX_NODES ==> #[trigger] t.nodes[i].parent == s.nodes[i].parent);
    assert forall|i: int| 0 <= i < MAX_NODES implies #[trigger] node_wf(t.nodes[i]) by {
        assert(node_wf(s.nodes[i]));
    }
    assert forall|i: int, j: int| 0 <= i < MAX_NODES && 0 <= j < t.nodes[i].children.len() implies t.nodes[
        #[trigger] t.nodes[i].children[j] as int].parent == i by {
        assert(node_wf(s.nodes[i]));
        assert(s.nodes[s.nodes[i].children[j] as int].parent == i);
    }
}

/// A create keeps the child lists in agreement with the parent links,
/// whatever its outcome, when the slot it would claim is on no list.
pub proof fn law_create_keeps_lists(s: FsView, path: Seq<u8>, kind: NodeKind)
    requires
        lists_agree(s),
        kind != NodeKind::Free,
        first_free(s) matches Some(f) ==> forall|i: int, j: int|
            0 <= i < MAX_NODES && 0 <= j < s.nodes[i].children.len() ==> #[trigger] s.nodes[i].children[j] != f,
    ensures
        lists_agree(create_spec(s, path, kind).0),
{
    let t = create_spec(s, path, kind).0;
    let (pp, name) = split_parent_spec(path);
    crate::fs::lemma_resolve_bound(s, pp);
    lemma_first_free_found(s, 1);
    lemma_create_wf(s, path, kind);
    if t != s {
        let idx = first_free(s)->Some_0;
        let parent = resolve(s, pp)->Ok_0;
        assert(parent != idx);
        assert(node_wf(s.nodes[parent as int]));
        let kids = s.nodes[parent as int].children;
        assert(forall|i: int| 0 <= i < MAX_NODES && i != idx && i != parent ==> #[trigger] t.nodes[i] == s.nodes[i]);
        assert(t.nodes[parent as int].parent == s.nodes[parent as int].parent);
        assert(t.nodes[idx as int].parent == parent);
        assert(t.nodes[parent as int].children == kids || t.nodes[parent as int].children == kids.push(idx));
        assert(t.nodes[idx as int].children == s.nodes[idx as int].children || t.nodes[idx as int].children.len() == 0);
        assert forall|i: int, j: int| 0 <= i < MAX_NODES && 0 <= j < t.nodes[i].children.len() implies #[trigger] t.nodes[
            i].children[j] != 0 && t.nodes[t.nodes[i].children[j] as int].parent == i by {
            let c = t.nodes[i].children[j];
            if i == parent && j == kids.len() {
                assert(c == idx);
            } else {
                assert(c == s.nodes[i].children[j]);
                assert(s.nodes[i].children[j] != 0);
                assert(s.nodes[s.nodes[i].children[j] as int].parent == i);
                assert(c != idx);
                assert(node_wf(s.nodes[i]));
                if c != parent {
                    assert(t.nodes[c as int] == s.nodes[c as int]);
                }
            }
        }
        assert forall|i: int| 0 <= i < MAX_NODES implies (#[trigger] t.nodes[i].children).no_duplicates() by {
            if i == parent && t.nodes[i].children == kids.push(idx) {
                assert(!kids.contains(idx)) by {
                    if kids.contains(idx) {
                        let a = choose|a: int| 0 <= a < kids.len() && kids[a] == idx;
                        assert(s.nodes[parent as int].children[a] != idx);
                    }
                }
                assert forall|a: int, b: int| 0 <= a < kids.push(idx).len() && 0 <= b < kids.push(idx).len() && a != b
                    implies kids.push(idx)[a] != kids.push(idx)[b] by {
                    if a == kids.len() {
                        assert(kids.contains(kids[b]));
                    } else if b == kids.len() {
                        assert(kids.contains(kids[a]));
                    }
                }
            }
        }
    }
}

/// A rename, whatever its outcome, keeps the child lists in agreement with
/// the parent links: the node leaves the list of its old directory and, on
/// success, joins the list of the new one, which it names as parent.
#[verifier::spinoff_prover]
#[verifier::rlimit(80)]
pub proof fn law_rename_keeps_lists(s: FsView, old: Seq<u8>, new: Seq<u8>)
    requires
        lists_agree(s),
    ensures
        lists_agree(crate::fs::rename_spec(s, old, new).0),
{
    let t = crate::fs::rename_spec(s, old, new).0;
    let (pp, name) = split_parent_spec(new);
    crate::fs::lemma_resolve_bound(s, old);
    crate::fs::lemma_resolve_bound(s, pp);
    if t != s {
        let idx = resolve(s, old)->Ok_0;
        let np = resolve(s, pp)->Ok_0;
        let op = s.nodes[idx as int].parent;
        assert(idx != 0);
        assert(node_wf(s.nodes[idx as int]));
        assert(node_wf(s.nodes[op as int]));
        assert(node_wf(s.nodes[np as int]));
        let okids = s.nodes[op as int].children;
        lemma_remove_from(okids, idx);
        let s1 = crate::fs::remove_child_spec(s, op, idx);
        let s2 = set_node(s1, idx, NodeView { parent: np, ..s1.nodes[idx as int] });
        // no list of `s2` names `idx`
        assert forall|i: int, j: int| 0 <= i < MAX_NODES && 0 <= j < s2.nodes[i].children.len() implies #[trigger] s2.nodes[
            i].children[j] != idx by {
            if i == op {
                assert(s2.nodes[i].children == crate::fs::remove_from(okids, idx));
                assert(s2.nodes[i].children.contains(s2.nodes[i].children[j]));
            } else {
                assert(s2.nodes[i].children == s.nodes[i].children);
                if s.nodes[i].children[j] == idx {
                    assert(s.nodes[s.nodes[i].children[j] as int].parent == i);
                }
            }
        }
        assert(lists_agree_but(s2, idx, np)) by {
            assert forall|i: int| 0 <= i < MAX_NODES implies #[trigger] node_wf(s2.nodes[i]) by {
                assert(node_wf(s.nodes[i]));
                if i == op {
                    let nk = s2.nodes[i].children;
                    assert forall|j: int| 0 <= j < nk.len() implies #[trigger] nk[j] < MAX_NODES by {
                        assert(nk.contains(nk[j]));
                        assert(okids.contains(nk[j]));
                    }
                }
            }
            assert forall|i: int, j: int| 0 <= i < MAX_NODES && 0 <= j < s2.nodes[i].children.len() implies #[trigger] s2.nodes[
                i].children[j] != 0 && s2.nodes[s2.nodes[i].children[j] as int].parent == i by {
                let c = s2.nodes[i].children[j];
                assert(node_wf(s.nodes[i]));
                if i == op {
                    assert(s2.nodes[i].children.contains(c));
                    assert(okids.contains(c));
                    let a = choose|a: int| 0 <= a < okids.len() && okids[a] == c;
                    assert(s.nodes[op as int].children[a] != 0);
                    assert(s.nodes[s.nodes[op as int].children[a] as int].parent == op);
                } else {
                    assert(s2.nodes[i].children == s.nodes[i].children);
                    assert(s.nodes[i].children[j] != 0);
                    assert(s.nodes[s.nodes[i].children[j] as int].parent == i);
                }
                assert(c < MAX_NODES);
                assert(c != idx);
                assert(s2.nodes[c as int].parent == s.nodes[c as int].parent);
            }
            assert forall|i: int| 0 <= i < MAX_NODES implies (#[trigger] s2.nodes[i].children).no_duplicates() by {
                if i != op {
                    assert(s2.nodes[i].children == s.nodes[i].children);
                }
            }
        }
        lemma_rename_tail(s2, idx, np, name);
    }
}

/// The lists agree with the parent links, and slot `idx`, on no list, names
/// `np` as parent.
pub open spec fn lists_agree_but(s: FsView, idx: usize, np: usize) -> bool {
    &&& lists_agree(s)
    &&& idx != 0
    &&& idx < MAX_NODES
    &&& np < MAX_NODES
    &&& s.nodes[idx as int].parent == np
    &&& forall|i: int, j: int| 0 <= i < MAX_NODES && 0 <= j < s.nodes[i].children.len() ==> #[trigger] s.nodes[i].children[j] != idx
}

/// The rest of a rename: naming the node and adding it to the list of its
/// new directory keeps the lists in agreement, whether or not each step
/// succeeds.
proof fn lemma_rename_tail(s2: FsView, idx: usize, np: usize, name: Seq<u8>)
    requires
        lists_agree_but(s2, idx, np),
    ensures
        ({
            let (s3, r3) = crate::fs::set_name_spec(s2, idx, name);
            &&& lists_agree(s3)
            &&& r3 is Ok ==> lists_agree(crate::fs::add_child_spec(s3, np, idx).0)
        }),
{
    let (s3, r3) = crate::fs::set_name_spec(s2, idx, name);
    if r3 is Ok {
        assert forall|i: int| 0 <= i < MAX_NODES implies #[trigger] node_wf(s3.nodes[i]) by {
            assert(node_wf(s2.nodes[i]));
        }
        assert forall|i: int, j: int| 0 <= i < MAX_NODES && 0 <= j < s3.nodes[i].children.len() implies s3.nodes[
            #[trigger] s3.nodes[i].children[j] as int].parent == i by {
            assert(s2.nodes[i].children[j] != idx);
            assert(node_wf(s2.nodes[i]));
        }
        let s4 = crate::fs::add_child_spec(s3, np, idx).0;
        let kids = s3.nodes[np as int].children;
        if kids.len() < MAX_CHILDREN {
            assert(node_wf(s3.nodes[np as int]));
            assert(s4.nodes[np as int].children == kids.push(idx));
            assert(!kids.contains(idx)) by {
                if kids.contains(idx) {
                    let a = choose|a: int| 0 <= a < kids.len() && kids[a] == idx;
                    assert(s2.nodes[np as int].children[a] != idx);
                }
            }
            assert forall|i: int| 0 <= i < MAX_NODES implies #[trigger] node_wf(s4.nodes[i]) by {
                assert(node_wf(s3.nodes[i]));
                if i == np {
                    assert forall|j: int| 0 <= j < s4.nodes[i].children.len() implies #[trigger] s4.nodes[i].children[j]
                        < MAX_NODES by {
                        if j < kids.len() {
                            assert(s4.nodes[i].children[j] == kids[j]);
                        }
                    }
                }
            }
            assert forall|i: int, j: int| 0 <= i < MAX_NODES && 0 <= j < s4.nodes[i].children.len() implies #[trigger] s4.nodes[
                i].children[j] != 0 && s4.nodes[s4.nodes[i].children[j] as int].parent == i by {
                let c = s4.nodes[i].children[j];
                if i == np && j == kids.len() {
                    assert(c == idx);
                } else {
                    assert(c == s3.nodes[i].children[j]);
                    assert(s2.nodes[i].children[j] != idx);
                    assert(s2.nodes[i].children[j] != 0);
                    assert(s3.nodes[s3.nodes[i].children[j] as int].parent == i);
                    assert(node_wf(s3.nodes[i]));
                    if c != np {
                        assert(s4.nodes[c as int] == s3.nodes[c as int]);
                    }
                }
            }
            assert forall|i: int| 0 <= i < MAX_NODES implies (#[trigger] s4.nodes[i].children).no_duplicates() by {
                if i == np {
                    assert forall|a: int, b: int| 0 <= a < kids.push(idx).len() && 0 <= b < kids.push(idx).len() && a != b
                        implies kids.push(idx)[a] != kids.push(idx)[b] by {
                        if a == kids.len() {
                            assert(kids.contains(kids[b]));
                        } else if b == kids.len() {
                            assert(kids.contains(kids[a]));
                        }
                    }
                }
            }
        }
    }
}

/// The lists agree with the parent links and name only nodes in use.
pub open spec fn lists_sound(s: FsView) -> bool {
    &&& lists_agree(s)
    &&& forall|i: int, j: int|
        0 <= i < MAX_NODES && 0 <= j < s.nodes[i].children.len() ==> s.nodes[#[trigger] s.nodes[i].children[j] as int].kind
            != NodeKind::Free
}

/// The file-system requests that change state.
pub enum FsOp {
    CreateFile(Seq<u8>),
    CreateDir(Seq<u8>),
    Write(Seq<u8>, Seq<u8>),
    Delete(Seq<u8>),
    Rename(Seq<u8>, Seq<u8>),
    SetCwd(Seq<u8>),
}

/// The state after one request, whatever its outcome.
pub open spec fn apply_op(s: FsView, op: FsOp) -> FsView {
    match op {
        FsOp::CreateFile(p) => create_spec(s, p, NodeKind::File).0,
        FsOp::CreateDir(p) => create_spec(s, p, NodeKind::Dir).0,
        FsOp::Write(p, d) => write_spec(s, p, d).0,
        FsOp::Delete(p) => delete_spec(s, p).0,
        FsOp::Rename(a, b) => crate::fs::rename_spec(s, a, b).0,
        FsOp::SetCwd(p) => set_cwd_spec(s, p).0,
    }
}

/// The state after a run of requests.
pub open spec fn run_ops(s: FsView, ops: Seq<FsOp>) -> FsView
    decreases ops.len(),
{
    if ops.len() == 0 {
        s
    } else {
        run_ops(apply_op(s, ops[0]), ops.drop_first())
    }
}

/// Whether a request moves a free slot: a rename whose source path names a
/// slot not in use (only the current directory after it was removed can be
/// named so).
pub open spec fn moves_free(s: FsView, op: FsOp) -> bool {
    match op {
        FsOp::Rename(a, b) => resolve(s, a) matches Ok(i) && s.nodes[i as int].kind == NodeKind::Free,
        _ => false,
    }
}

/// Whether no request of a run moves a free slot.
pub open spec fn never_moves_free(s: FsView, ops: Seq<FsOp>) -> bool
    decreases ops.len(),
{
    ops.len() == 0 || (!moves_free(s, ops[0]) && never_moves_free(apply_op(s, ops[0]), ops.drop_first()))
}

/// Every request but the move of a free slot keeps the lists sound.
proof fn lemma_op_keeps_sound(s: FsView, op: FsOp)
    requires
        lists_sound(s),
        !moves_free(s, op),
    ensures
        lists_sound(apply_op(s, op)),
{
    let t = apply_op(s, op);
    match op {
        FsOp::CreateFile(p) => lemma_create_keeps_sound(s, p, NodeKind::File),
        FsOp::CreateDir(p) => lemma_create_keeps_sound(s, p, NodeKind::Dir),
        FsOp::Write(p, d) => {
            law_write_cd_keep_lists(s, p, d);
            lemma_write_shape(s, p, d);
            assert(forall|i: int| 0 <= i < MAX_NODES ==> #[trigger] t.nodes[i].kind == s.nodes[i].kind);
            assert(forall|i: int| 0 <= i < MAX_NODES ==> #[trigger] t.nodes[i].children == s.nodes[i].children);
            assert forall|i: int, j: int| 0 <= i < MAX_NODES && 0 <= j < t.nodes[i].children.len() implies t.nodes[
                #[trigger] t.nodes[i].children[j] as int].kind != NodeKind::Free by {
                assert(node_wf(s.nodes[i]));
                assert(s.nodes[s.nodes[i].children[j] as int].kind != NodeKind::Free);
            }
        },
        FsOp::Delete(p) => lemma_delete_keeps_sound(s, p),
        FsOp::Rename(a, b) => lemma_rename_keeps_sound(s, a, b),
        FsOp::SetCwd(p) => {
            law_write_cd_keep_lists(s, p, seq![]);
        },
    }
}

proof fn lemma_create_keeps_sound(s: FsView, path: Seq<u8>, kind: NodeKind)
    requires
        lists_sound(s),
        kind != NodeKind::Free,
    ensures
        lists_sound(create_spec(s, path, kind).0),
{
    lemma_first_free_found(s, 1);
    if let Some(f) = first_free(s) {
        assert forall|i: int, j: int| 0 <= i < MAX_NODES && 0 <= j < s.nodes[i].children.len() implies #[trigger] s.nodes[
            i].children[j] != f by {
            assert(s.nodes[s.nodes[i].children[j] as int].kind != NodeKind::Free);
        }
    }
    law_create_keeps_lists(s, path, kind);
    let t = create_spec(s, path, kind).0;
    let (pp, name) = split_parent_spec(path);
    crate::fs::lemma_resolve_bound(s, pp);
    if t != s {
        let idx = first_free(s)->Some_0;
        let parent = resolve(s, pp)->Ok_0;
        assert(parent != idx);
        let kids = s.nodes[parent as int].children;
        assert(t.nodes[idx as int].kind == kind);
        assert forall|i: int, j: int| 0 <= i < MAX_NODES && 0 <= j < t.nodes[i].children.len() implies t.nodes[
            #[trigger] t.nodes[i].children[j] as int].kind != NodeKind::Free by {
            let c = t.nodes[i].children[j];
            if i == parent && j == kids.len() {
                assert(c == idx);
            } else if i == idx {
                assert(t.nodes[i].children.len() == 0 || t.nodes[i].children == s.nodes[i].children);
                assert(node_wf(s.nodes[i]));
                assert(s.nodes[s.nodes[i].children[j] as int].kind != NodeKind::Free);
                assert(c == s.nodes[i].children[j]);
                if c != idx && c != parent {
                    assert(t.nodes[c as int] == s.nodes[c as int]);
                }
            } else {
                assert(node_wf(s.nodes[i]));
                assert(c == s.nodes[i].children[j]);
                assert(s.nodes[s.nodes[i].children[j] as int].kind != NodeKind::Free);
                if c != idx && c != parent {
                    assert(t.nodes[c as int] == s.nodes[c as int]);
                }
            }
        }
    }
}

proof fn lemma_delete_keeps_sound(s: FsView, path: Seq<u8>)
    requires
        lists_sound(s),
    ensures
        lists_sound(delete_spec(s, path).0),
{
    law_delete_keeps_lists(s, path);
    let t = delete_spec(s, path).0;
    crate::fs::lemma_resolve_bound(s, path);
    if delete_spec(s, path).1 is Ok {
        let idx = resolve(s, path)->Ok_0;
        let op = s.nodes[idx as int].parent;
        assert(node_wf(s.nodes[idx as int]));
        let kids = s.nodes[op as int].children;
        lemma_remove_from(kids, idx);
        assert forall|i: int, j: int| 0 <= i < MAX_NODES && 0 <= j < t.nodes[i].children.len() implies t.nodes[
            #[trigger] t.nodes[i].children[j] as int].kind != NodeKind::Free by {
            let c = t.nodes[i].children[j];
            assert(node_wf(s.nodes[i]));
            if i == op {
                assert(t.nodes[i].children.contains(c));
                assert(kids.contains(c));
                let a = choose|a: int| 0 <= a < kids.len() && kids[a] == c;
                assert(s.nodes[s.nodes[op as int].children[a] as int].kind != NodeKind::Free);
            } else {
                assert(t.nodes[i].children == s.nodes[i].children);
                assert(s.nodes[s.nodes[i].children[j] as int].kind != NodeKind::Free);
                assert(s.nodes[s.nodes[i].children[j] as int].parent == i);
            }
            assert(c != idx);
            assert(node_wf(s.nodes[op as int]));
            assert(c < MAX_NODES);
            if c != op {
                assert(t.nodes[c as int] == s.nodes[c as int]);
            }
        }
    }
}

proof fn lemma_rename_keeps_sound(s: FsView, old: Seq<u8>, new: Seq<u8>)
    requires
        lists_sound(s),
        !moves_free(s, FsOp::Rename(old, new)),
    ensures
        lists_sound(crate::fs::rename_spec(s, old, new).0),
{
    law_rename_keeps_lists(s, old, new);
    let t = crate::fs::rename_spec(s, old, new).0;
    crate::fs::lemma_resolve_bound(s, old);
    if t != s {
        let idx = resolve(s, old)->Ok_0;
        let (pp, name) = split_parent_spec(new);
        crate::fs::lemma_resolve_bound(s, pp);
        let np = resolve(s, pp)->Ok_0;
        let op = s.nodes[idx as int].parent;
        assert(s.nodes[idx as int].kind != NodeKind::Free);
        assert(node_wf(s.nodes[idx as int]));
        let okids = s.nodes[op as int].children;
        lemma_remove_from(okids, idx);
        let s1 = crate::fs::remove_child_spec(s, op, idx);
        let s2 = set_node(s1, idx, NodeView { parent: np, ..s1.nodes[idx as int] });
        let s3 = crate::fs::set_name_spec(s2, idx, name).0;
        assert(forall|i: int| 0 <= i < MAX_NODES ==> #[trigger] s3.nodes[i].kind == s.nodes[i].kind);
        assert(forall|i: int| 0 <= i < MAX_NODES ==> #[trigger] t.nodes[i].kind == s3.nodes[i].kind);
        assert forall|i: int, j: int| 0 <= i < MAX_NODES && 0 <= j < t.nodes[i].children.len() implies t.nodes[
            #[trigger] t.nodes[i].children[j] as int].kind != NodeKind::Free by {
            let c = t.nodes[i].children[j];
            assert(node_wf(t.nodes[i]));
            if c != idx {
                if t.nodes[i].children.len() > s3.nodes[i].children.len() && j == s3.nodes[i].children.len() {
                    assert(c == idx);
                }
                assert(j < s3.nodes[i].children.len());
                assert(c == s3.nodes[i].children[j]);
                assert(s3.nodes[i].children == s2.nodes[i].children);
                assert(node_wf(s.nodes[i]));
                if i == op {
                    assert(s2.nodes[i].children.contains(c));
                    assert(okids.contains(c));
                    let a = choose|a: int| 0 <= a < okids.len() && okids[a] == c;
                    assert(s.nodes[s.nodes[op as int].children[a] as int].kind != NodeKind::Free);
                } else {
                    assert(s2.nodes[i].children == s.nodes[i].children);
                    assert(s.nodes[s.nodes[i].children[j] as int].kind != NodeKind::Free);
                }
            }
        }
    }
}

proof fn lemma_run_keeps_sound(s: FsView, ops: Seq<FsOp>)
    requires
        lists_sound(s),
        never_moves_free(s, ops),
    ensures
        lists_sound(run_ops(s, ops)),
    decreases ops.len(),
{
    if ops.len() > 0 {
        lemma_op_keeps_sound(s, ops[0]);
        lemma_run_keeps_sound(apply_op(s, ops[0]), ops.drop_first());
    }
}

/// In every state reachable from set-up by requests of which none moves a
/// free slot, the child lists agree with the parent links and name only
/// nodes in use.
pub proof fn law_reachable_lists_sound(ops: Seq<FsOp>)
    requires
        never_moves_free(crate::fs::init_spec(blank_table()), ops),
    ensures
        lists_sound(run_ops(crate::fs::init_spec(blank_table()), ops)),
{
    let s = crate::fs::init_spec(blank_table());
    law_init_linked();
    lemma_run_keeps_sound(s, ops);
}

/// The working directory's path is the path it was entered by, in every
/// state reachable from set-up by requests of which none moves a free slot
/// (removing the current directory included): after a change of directory
/// to `/n1/.../nk` (one to 32 plain names) succeeds, `cwd_path` gives that
/// path back.
pub proof fn law_cwd_path_reachable(ops: Seq<FsOp>, ns: Seq<Seq<u8>>)
    requires
        never_moves_free(crate::fs::init_spec(blank_table()), ops),
        1 <= ns.len() <= 32,
        forall|i: int| 0 <= i < ns.len() ==> plain_name(#[trigger] ns[i]),
        set_cwd_spec(run_ops(crate::fs::init_spec(blank_table()), ops), slash_join(ns)).1 is Ok,
    ensures
        crate::fs::cwd_path_spec(set_cwd_spec(run_ops(crate::fs::init_spec(blank_table()), ops), slash_join(ns)).0)
            == slash_join(ns),
{
    law_reachable_lists_sound(ops);
    law_cwd_path_after_set_cwd(run_ops(crate::fs::init_spec(blank_table()), ops), ns);
}

} // verus!
