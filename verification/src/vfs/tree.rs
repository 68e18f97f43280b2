//! The directory tree of the virtual file system: directories hold named
//! children, files hold where their data comes from, and paths are
//! resolved one name at a time from a directory.

use vstd::prelude::*;
use crate::changes::{bytes_equal, paths_view};
use crate::vfs::file::FileDataSource;
use crate::vfs::FsWalkEvent;
use crate::iso::FstNode;
use vstd::utf8::encode_utf8;

verus! {

/// A node of the tree as the contracts see it.
pub struct TreeNodeView {
    pub name: Seq<u8>,
    pub parent: int,
    pub children: Seq<usize>,
    pub is_dir: bool,
}

struct TreeNode<R> {
    name: Vec<u8>,
    parent: usize,
    children: Vec<usize>,
    file: Option<FileDataSource<R>>,
}

impl<R> TreeNode<R> {
    spec fn view(&self) -> TreeNodeView {
        TreeNodeView {
            name: self.name@,
            parent: self.parent as int,
            children: self.children@,
            is_dir: self.file is None,
        }
    }
}

/// A directory tree; node 0 is its root directory.
pub struct FsTree<R> {
    nodes: Vec<TreeNode<R>>,
}

/// Errors of looking up and creating nodes of a tree.
#[derive(Debug, Clone, Copy, PartialEq, Eq, Structural)]
pub enum TreeError {
    /// No node has the path.
    NotFound,
    /// The node of the path is a directory, not a file.
    NotAFile,
    /// The node of the path is a file, not a directory.
    NotADirectory,
}

/// The tree is well formed: the root is a directory, each other node is a
/// child of exactly its parent, which comes before it, files have no
/// children, and the children of a directory have distinct names.
pub open spec fn tree_wf(v: Seq<TreeNodeView>) -> bool {
    &&& 1 <= v.len() <= usize::MAX
    &&& v[0].is_dir
    &&& forall|i: int|
        0 < i < v.len() ==> {
            &&& 0 <= #[trigger] v[i].parent < i
            &&& v[v[i].parent].is_dir
            &&& v[v[i].parent].children.contains(i as usize)
        }
    &&& forall|d: int, k: int|
        0 <= d < v.len() && 0 <= k < v[d].children.len() ==> {
            &&& d < #[trigger] v[d].children[k] < v.len()
            &&& v[v[d].children[k] as int].parent == d
        }
    &&& forall|d: int| 0 <= d < v.len() && !(#[trigger] v[d]).is_dir ==> v[d].children.len() == 0
    &&& forall|d: int, k1: int, k2: int|
        0 <= d < v.len() && 0 <= k1 < v[d].children.len() && 0 <= k2 < v[d].children.len() && k1 != k2
            ==> v[#[trigger] v[d].children[k1] as int].name != v[#[trigger] v[d].children[k2] as int].name
}

/// Whether the directory `d` has a child named `name`.
pub open spec fn has_child_named(v: Seq<TreeNodeView>, d: int, name: Seq<u8>) -> bool {
    exists|k: int| 0 <= k < v[d].children.len() && #[trigger] v[v[d].children[k] as int].name == name
}

/// The child of `d` named `name`, if any.
pub open spec fn child_named(v: Seq<TreeNodeView>, d: int, name: Seq<u8>) -> Option<usize> {
    if has_child_named(v, d, name) {
        let k = choose|k: int| 0 <= k < v[d].children.len() && #[trigger] v[v[d].children[k] as int].name == name;
        Some(v[d].children[k])
    } else {
        None
    }
}

/// The node that `path` names from the directory `d`: each name but the
/// last must name a directory; the last names any node. The empty path
/// names `d` itself.
pub open spec fn resolve_from(v: Seq<TreeNodeView>, d: int, path: Seq<Seq<u8>>) -> Option<usize>
    decreases path.len(),
{
    if path.len() == 0 {
        Some(d as usize)
    } else {
        match child_named(v, d, path[0]) {
            None => None,
            Some(c) => if path.len() == 1 {
                Some(c)
            } else if v[c as int].is_dir {
                resolve_from(v, c as int, path.skip(1))
            } else {
                None
            },
        }
    }
}

/// Whether `path` names a file from the directory `d`.
pub open spec fn names_file(v: Seq<TreeNodeView>, d: int, path: Seq<Seq<u8>>) -> bool {
    resolve_from(v, d, path) matches Some(m) && !v[m as int].is_dir
}

/// The tree with a new node named `name` under the directory `d`.
pub open spec fn with_child(v: Seq<TreeNodeView>, d: int, name: Seq<u8>, is_dir: bool) -> Seq<TreeNodeView> {
    v.update(d, TreeNodeView { children: v[d].children.push(v.len() as usize), ..v[d] }).push(
        TreeNodeView { name, parent: d, children: Seq::empty(), is_dir },
    )
}

/// In a well-formed tree, the child named `name` is the only child with
/// that name.
pub proof fn lemma_child_named(v: Seq<TreeNodeView>, d: int, name: Seq<u8>, k: int)
    requires
        tree_wf(v),
        0 <= d < v.len(),
        0 <= k < v[d].children.len(),
        v[v[d].children[k] as int].name == name,
    ensures
        child_named(v, d, name) == Some(v[d].children[k]),
{
    let j = choose|j: int| 0 <= j < v[d].children.len() && #[trigger] v[v[d].children[j] as int].name == name;
    if j != k {
        assert(v[v[d].children[j] as int].name != v[v[d].children[k] as int].name);
    }
}

/// Adding a child with a new name keeps the tree well formed, makes it the
/// child of that name, and keeps every other lookup.
pub proof fn lemma_with_child(v: Seq<TreeNodeView>, d: int, name: Seq<u8>, is_dir: bool)
    requires
        tree_wf(v),
        0 <= d < v.len(),
        v[d].is_dir,
        !has_child_named(v, d, name),
        v.len() < usize::MAX,
    ensures
        tree_wf(with_child(v, d, name, is_dir)),
        child_named(with_child(v, d, name, is_dir), d, name) == Some(v.len() as usize),
        forall|e: int, n: Seq<u8>|
            0 <= e < v.len() && has_child_named(v, e, n) ==> #[trigger] child_named(with_child(v, d, name, is_dir), e, n)
                == child_named(v, e, n),
{
    let w = with_child(v, d, name, is_dir);
    let m = v.len() as int;
    assert forall|i: int| 0 < i < w.len() implies {
        &&& 0 <= #[trigger] w[i].parent < i
        &&& w[w[i].parent].is_dir
        &&& w[w[i].parent].children.contains(i as usize)
    } by {
        if i == m {
            assert(w[d].children[w[d].children.len() - 1] == m as usize);
        } else {
            let p = v[i].parent;
            assert(v[p].children.contains(i as usize));
            let k = choose|k: int| 0 <= k < v[p].children.len() && v[p].children[k] == i as usize;
            assert(w[p].children[k] == i as usize);
        }
    }
    assert forall|e: int, k: int| 0 <= e < w.len() && 0 <= k < w[e].children.len() implies {
        &&& e < #[trigger] w[e].children[k] < w.len()
        &&& w[w[e].children[k] as int].parent == e
    } by {
        if e == d && k == v[d].children.len() {
        } else {
            assert(w[e].children[k] == v[e].children[k]);
        }
    }
    assert forall|e: int, k1: int, k2: int|
        0 <= e < w.len() && 0 <= k1 < w[e].children.len() && 0 <= k2 < w[e].children.len() && k1 != k2
            implies w[#[trigger] w[e].children[k1] as int].name != w[#[trigger] w[e].children[k2] as int].name by {
        if e == d {
            let n = v[d].children.len() as int;
            if k1 == n {
                assert(v[v[d].children[k2] as int].name != name);
            } else if k2 == n {
                assert(v[v[d].children[k1] as int].name != name);
            } else {
                assert(v[#[trigger] v[e].children[k1] as int].name != v[#[trigger] v[e].children[k2] as int].name);
            }
        } else {
            assert(w[e].children[k1] == v[e].children[k1]);
            assert(w[e].children[k2] == v[e].children[k2]);
            assert(v[#[trigger] v[e].children[k1] as int].name != v[#[trigger] v[e].children[k2] as int].name);
        }
    }
    assert(w[m].children.len() == 0);
    assert(w[d].children[v[d].children.len() as int] == m as usize);
    lemma_child_named(w, d, name, v[d].children.len() as int);
    assert forall|e: int, n: Seq<u8>| 0 <= e < v.len() && has_child_named(v, e, n) implies #[trigger] child_named(
        w,
        e,
        n,
    ) == child_named(v, e, n) by {
        let k = choose|k: int| 0 <= k < v[e].children.len() && #[trigger] v[v[e].children[k] as int].name == n;
        lemma_child_named(v, e, n, k);
        assert(w[e].children[k] == v[e].children[k]);
        lemma_child_named(w, e, n, k);
    }
}

/// Resolving a path one name longer: the node of the path, if it is a
/// directory, looked up by the last name. Resolved nodes are nodes of the
/// tree.
pub proof fn lemma_resolve_push(v: Seq<TreeNodeView>, d: int, q: Seq<Seq<u8>>, x: Seq<u8>)
    requires
        tree_wf(v),
        0 <= d < v.len(),
        v[d].is_dir,
    ensures
        resolve_from(v, d, q) matches Some(n) ==> n < v.len(),
        resolve_from(v, d, q.push(x)) == match resolve_from(v, d, q) {
            Some(n) => if v[n as int].is_dir {
                child_named(v, n as int, x)
            } else {
                None
            },
            None => None,
        },
    decreases q.len(),
{
    if q.len() > 0 {
        let qx = q.push(x);
        assert(qx[0] == q[0]);
        assert(qx.skip(1) =~= q.skip(1).push(x));
        assert(qx.len() > 1);
        match child_named(v, d, q[0]) {
            None => {
                assert(resolve_from(v, d, qx) is None);
                assert(resolve_from(v, d, q) is None);
            },
            Some(c) => {
                let k = choose|k: int| 0 <= k < v[d].children.len() && #[trigger] v[v[d].children[k] as int].name == q[0];
                assert(c < v.len());
                if v[c as int].is_dir {
                    lemma_resolve_push(v, c as int, q.skip(1), x);
                    assert(resolve_from(v, d, qx) == resolve_from(v, c as int, q.skip(1).push(x)));
                    if q.len() == 1 {
                        assert(q.skip(1) =~= Seq::<Seq<u8>>::empty());
                        assert(resolve_from(v, d, q) == Some(c));
                    } else {
                        assert(resolve_from(v, d, q) == resolve_from(v, c as int, q.skip(1)));
                    }
                } else {
                    assert(resolve_from(v, d, qx) is None);
                    if q.len() == 1 {
                        assert(resolve_from(v, d, q) == Some(c));
                    } else {
                        assert(resolve_from(v, d, q) is None);
                    }
                }
            },
        }
    } else {
        assert(q.push(x) =~= seq![x]);
        assert(resolve_from(v, d, q) == Some(d as usize));
        if has_child_named(v, d, x) {
            let k = choose|k: int| 0 <= k < v[d].children.len() && #[trigger] v[v[d].children[k] as int].name == x;
            assert(v[d].children[k] < v.len());
        }
    }
}

/// `new` keeps the nodes of `old` and every child lookup that finds one.
pub open spec fn tree_extends(old: Seq<TreeNodeView>, new: Seq<TreeNodeView>) -> bool {
    &&& old.len() <= new.len()
    &&& forall|i: int| 0 <= i < old.len() ==> (#[trigger] new[i]).is_dir == old[i].is_dir && new[i].name == old[i].name
    &&& forall|e: int, n: Seq<u8>|
        0 <= e < old.len() && has_child_named(old, e, n) ==> #[trigger] child_named(new, e, n) == child_named(old, e, n)
}

/// Adding a child with a new name extends a tree.
pub proof fn lemma_with_child_extends(v: Seq<TreeNodeView>, d: int, name: Seq<u8>, is_dir: bool)
    requires
        tree_wf(v),
        0 <= d < v.len(),
        v[d].is_dir,
        !has_child_named(v, d, name),
        v.len() < usize::MAX,
    ensures
        tree_extends(v, with_child(v, d, name, is_dir)),
{
    lemma_with_child(v, d, name, is_dir);
}

/// Extending a tree is transitive.
pub proof fn lemma_extends_trans(a: Seq<TreeNodeView>, b: Seq<TreeNodeView>, c: Seq<TreeNodeView>)
    requires
        tree_extends(a, b),
        tree_extends(b, c),
        tree_wf(a),
    ensures
        tree_extends(a, c),
{
    assert forall|e: int, n: Seq<u8>| 0 <= e < a.len() && has_child_named(a, e, n) implies #[trigger] child_named(c, e, n)
        == child_named(a, e, n) by {
        let k = choose|k: int| 0 <= k < a[e].children.len() && #[trigger] a[a[e].children[k] as int].name == n;
        lemma_child_named(a, e, n, k);
        let m = a[e].children[k];
        assert(child_named(b, e, n) == Some(m));
        let kb = choose|kb: int| 0 <= kb < b[e].children.len() && #[trigger] b[b[e].children[kb] as int].name == n;
        assert(has_child_named(b, e, n)) by {
            assert(b[b[e].children[kb] as int].name == n);
        }
    }
}

/// A path that resolves in a tree resolves to the same node in an
/// extension of it.
pub proof fn lemma_resolve_extends(old: Seq<TreeNodeView>, new: Seq<TreeNodeView>, d: int, q: Seq<Seq<u8>>)
    requires
        tree_wf(old),
        tree_extends(old, new),
        0 <= d < old.len(),
        resolve_from(old, d, q) is Some,
    ensures
        resolve_from(new, d, q) == resolve_from(old, d, q),
    decreases q.len(),
{
    if q.len() > 0 {
        let c = child_named(old, d, q[0]).unwrap();
        let k = choose|k: int| 0 <= k < old[d].children.len() && #[trigger] old[old[d].children[k] as int].name == q[0];
        assert(has_child_named(old, d, q[0]));
        assert(child_named(new, d, q[0]) == Some(c));
        assert(c < old.len());
        assert(new[c as int].is_dir == old[c as int].is_dir);
        if q.len() > 1 && old[c as int].is_dir {
            lemma_resolve_extends(old, new, c as int, q.skip(1));
        }
    }
}

/// One step of a depth-first walk of a tree, with the node it comes from.
pub enum WalkItem {
    File { name: Seq<u8>, len: nat, node: int },
    DirStart { name: Seq<u8>, node: int },
    DirEnd { node: int },
}

/// The node a step of a walk comes from.
pub open spec fn item_node(w: WalkItem) -> int {
    match w {
        WalkItem::File { node, .. } => node,
        WalkItem::DirStart { node, .. } => node,
        WalkItem::DirEnd { node } => node,
    }
}

/// `e` is the event of the step `w`.
pub open spec fn event_is(e: FsWalkEvent, w: WalkItem) -> bool {
    match w {
        WalkItem::File { name, len, .. } => e matches FsWalkEvent::File { name: n, len: l } && n@ == name && l == len,
        WalkItem::DirStart { name, .. } => e matches FsWalkEvent::DirStart { name: n } && n@ == name,
        WalkItem::DirEnd { .. } => e is DirEnd,
    }
}

/// `events` and `nodes` are the events and nodes of the steps `w`.
pub open spec fn walk_matches(events: Seq<FsWalkEvent>, nodes: Seq<usize>, w: Seq<WalkItem>) -> bool {
    &&& events.len() == w.len()
    &&& nodes.len() == w.len()
    &&& forall|i: int| 0 <= i < w.len() ==> event_is(#[trigger] events[i], w[i]) && nodes[i] == item_node(w[i])
}

/// The state of building a tree from a file system table: the tree, the
/// directories still open with the index their entries end at (the
/// innermost last), and, for each file node added, the table entry it
/// came from.
pub struct FstBuildState {
    pub tree: Seq<TreeNodeView>,
    pub stack: Seq<(usize, usize)>,
    pub files: Map<int, int>,
}

/// The open directories once those whose entries end at or before `i` are
/// closed; the outermost stays open.
pub open spec fn pop_finished(stack: Seq<(usize, usize)>, i: int) -> Seq<(usize, usize)>
    decreases stack.len(),
{
    if stack.len() > 1 && i >= stack.last().1 {
        pop_finished(stack.drop_last(), i)
    } else {
        stack
    }
}

/// The name of an FST node, as bytes.
pub open spec fn fst_node_name(n: FstNode) -> Seq<u8> {
    match n {
        FstNode::File { relative_file_name, .. } => encode_utf8(relative_file_name@),
        FstNode::Directory { relative_file_name, .. } => encode_utf8(relative_file_name@),
    }
}

/// Two FST nodes are the same file.
pub open spec fn same_file_node(a: FstNode, b: FstNode) -> bool {
    &&& a matches FstNode::File { relative_file_name: na, file_offset: oa, file_size: sa }
    &&& b matches FstNode::File { relative_file_name: nb, file_offset: ob, file_size: sb }
    &&& na@ == nb@ && oa == ob && sa == sb
}

/// Adds the FST node `n`, entry `i` of the table, under the innermost open
/// directory: a directory is made (or found) and opened until its next
/// index; a file is added unless its directory already has one of that
/// name. A name taken by a node of the other kind is refused.
pub open spec fn tree_build_step(s: FstBuildState, n: FstNode, i: int) -> Result<FstBuildState, TreeError> {
    let stack = pop_finished(s.stack, i);
    let parent = stack.last().0 as int;
    let name = fst_node_name(n);
    match n {
        FstNode::Directory { next_dir_index, .. } => match child_named(s.tree, parent, name) {
            Some(c) => if s.tree[c as int].is_dir {
                Ok(FstBuildState { tree: s.tree, stack: stack.push((c, next_dir_index)), files: s.files })
            } else {
                Err(TreeError::NotADirectory)
            },
            None => Ok(
                FstBuildState {
                    tree: with_child(s.tree, parent, name, true),
                    stack: stack.push((s.tree.len() as usize, next_dir_index)),
                    files: s.files,
                },
            ),
        },
        FstNode::File { .. } => match child_named(s.tree, parent, name) {
            Some(c) => if s.tree[c as int].is_dir {
                Err(TreeError::NotAFile)
            } else {
                Ok(FstBuildState { tree: s.tree, stack, files: s.files })
            },
            None => Ok(
                FstBuildState {
                    tree: with_child(s.tree, parent, name, false),
                    stack,
                    files: s.files.insert(s.tree.len() as int, i),
                },
            ),
        },
    }
}

/// Building from the table entries `1..n` under the directory `root`.
pub open spec fn tree_build(v: Seq<TreeNodeView>, root: usize, fst: Seq<FstNode>, n: int) -> Result<
    FstBuildState,
    TreeError,
>
    decreases n,
{
    if n <= 1 {
        Ok(FstBuildState { tree: v, stack: seq![(root, fst.len() as usize)], files: Map::empty() })
    } else {
        match tree_build(v, root, fst, n - 1) {
            Ok(s) => tree_build_step(s, fst[n - 1], n - 1),
            Err(e) => Err(e),
        }
    }
}

/// The open directories are directories of the tree, the outermost first.
pub open spec fn stack_wf(v: Seq<TreeNodeView>, stack: Seq<(usize, usize)>) -> bool {
    &&& stack.len() >= 1
    &&& forall|k: int| 0 <= k < stack.len() ==> (#[trigger] stack[k]).0 < v.len() && v[stack[k].0 as int].is_dir
}

/// Closing directories keeps the others open.
pub proof fn lemma_pop_finished(stack: Seq<(usize, usize)>, i: int)
    requires
        stack.len() >= 1,
    ensures
        pop_finished(stack, i).len() >= 1,
        pop_finished(stack, i).len() <= stack.len(),
        forall|k: int| 0 <= k < pop_finished(stack, i).len() ==> pop_finished(stack, i)[k] == stack[k],
    decreases stack.len(),
{
    if stack.len() > 1 && i >= stack.last().1 {
        lemma_pop_finished(stack.drop_last(), i);
        assert forall|k: int| 0 <= k < pop_finished(stack, i).len() implies pop_finished(stack, i)[k] == stack[k] by {
            assert(stack.drop_last()[k] == stack[k]);
        }
    }
}

/// A refused build stays refused.
pub proof fn lemma_tree_build_err(v: Seq<TreeNodeView>, root: usize, fst: Seq<FstNode>, i: int, n: int)
    requires
        1 <= i <= n,
        tree_build(v, root, fst, i) is Err,
    ensures
        tree_build(v, root, fst, n) == tree_build(v, root, fst, i),
    decreases n - i,
{
    if i < n {
        lemma_tree_build_err(v, root, fst, i, n - 1);
    }
}

/// The directory entries of a table end after themselves and within it.
pub open spec fn fst_dirs_in_range(fst: Seq<FstNode>) -> bool {
    forall|k: int|
        0 <= k < fst.len() ==> ((#[trigger] fst[k]) matches FstNode::Directory { next_dir_index, .. } ==> 1
            <= next_dir_index <= fst.len())
}

/// The file nodes of a walk, in order.
pub open spec fn walk_file_nodes(w: Seq<WalkItem>) -> Seq<usize>
    decreases w.len(),
{
    if w.len() == 0 {
        Seq::empty()
    } else {
        let rest = walk_file_nodes(w.drop_last());
        match w.last() {
            WalkItem::File { node, .. } => rest.push(node as usize),
            _ => rest,
        }
    }
}

/// Node `n` is `c` or lies below it.
pub open spec fn descends(v: Seq<TreeNodeView>, n: int, c: int) -> bool
    decreases n,
{
    if n == c {
        true
    } else if 0 < n < v.len() && 0 <= v[n].parent < n {
        descends(v, v[n].parent as int, c)
    } else {
        false
    }
}

proof fn lemma_descends_ge(v: Seq<TreeNodeView>, n: int, c: int)
    requires
        descends(v, n, c),
    ensures
        n >= c,
    decreases n,
{
    if n != c {
        lemma_descends_ge(v, v[n].parent as int, c);
    }
}

proof fn lemma_descends_parent(v: Seq<TreeNodeView>, n: int, c1: int, c: int)
    requires
        tree_wf(v),
        descends(v, n, c1),
        0 < c1 < v.len(),
        v[c1].parent == c,
    ensures
        descends(v, n, c),
    decreases n,
{
    if n != c1 {
        lemma_descends_parent(v, v[n].parent as int, c1, c);
    } else {
        assert(0 <= v[c1].parent < c1);
        assert(descends(v, c, c));
    }
}

proof fn lemma_descends_linear(v: Seq<TreeNodeView>, n: int, c1: int, c2: int)
    requires
        descends(v, n, c1),
        descends(v, n, c2),
    ensures
        descends(v, c1, c2) || descends(v, c2, c1),
    decreases n,
{
    if n != c1 && n != c2 {
        lemma_descends_linear(v, v[n].parent as int, c1, c2);
    }
}

/// The child of `c` that `name` finds lies just below `c`.
proof fn lemma_child_named_below(v: Seq<TreeNodeView>, c: int, name: Seq<u8>)
    requires
        tree_wf(v),
        0 <= c < v.len(),
        child_named(v, c, name) is Some,
    ensures
        ({
            let x = child_named(v, c, name).unwrap() as int;
            &&& c < x < v.len()
            &&& v[x].parent == c
            &&& v[x].name == name
        }),
{
    let k = choose|k: int| 0 <= k < v[c].children.len() && #[trigger] v[v[c].children[k] as int].name == name;
    assert(c < v[c].children[k] < v.len());
}

/// What a path resolves to from `c` lies below `c`, and below the child
/// that its first name finds.
pub proof fn lemma_resolve_descends(v: Seq<TreeNodeView>, c: int, r: Seq<Seq<u8>>, n: usize)
    requires
        tree_wf(v),
        0 <= c < v.len(),
        resolve_from(v, c, r) == Some(n),
    ensures
        n < v.len(),
        descends(v, n as int, c),
        r.len() > 0 ==> c < child_named(v, c, r[0]).unwrap() <= n && descends(
            v,
            n as int,
            child_named(v, c, r[0]).unwrap() as int,
        ),
    decreases r.len(),
{
    if r.len() > 0 {
        lemma_child_named_below(v, c, r[0]);
        let c1 = child_named(v, c, r[0]).unwrap() as int;
        if r.len() > 1 {
            lemma_resolve_descends(v, c1, r.skip(1), n);
        }
        lemma_descends_parent(v, n as int, c1, c);
        lemma_descends_ge(v, n as int, c1);
    }
}

/// In a well-formed tree two paths that resolve to the same node from the
/// same directory are the same path.
pub proof fn lemma_resolve_injective(v: Seq<TreeNodeView>, d: int, p: Seq<Seq<u8>>, q: Seq<Seq<u8>>)
    requires
        tree_wf(v),
        0 <= d < v.len(),
        resolve_from(v, d, p) is Some,
        resolve_from(v, d, p) == resolve_from(v, d, q),
    ensures
        p == q,
    decreases p.len(),
{
    let n = resolve_from(v, d, p).unwrap();
    lemma_resolve_descends(v, d, p, n);
    lemma_resolve_descends(v, d, q, n);
    if p.len() > 0 && q.len() > 0 {
        lemma_child_named_below(v, d, p[0]);
        lemma_child_named_below(v, d, q[0]);
        let c1 = child_named(v, d, p[0]).unwrap() as int;
        let c2 = child_named(v, d, q[0]).unwrap() as int;
        if c1 != c2 {
            lemma_descends_linear(v, n as int, c1, c2);
            if descends(v, c1, c2) {
                lemma_descends_ge(v, d, c2);
            } else {
                lemma_descends_ge(v, d, c1);
            }
        }
        assert(p[0] == q[0]);
        if p.len() > 1 && q.len() > 1 {
            lemma_resolve_injective(v, c1, p.skip(1), q.skip(1));
            assert forall|i: int| 0 <= i < p.len() implies p[i] == q[i] by {
                if i > 0 {
                    assert(p[i] == p.skip(1)[i - 1]);
                    assert(q[i] == q.skip(1)[i - 1]);
                }
            }
        } else if p.len() > 1 {
            lemma_resolve_descends(v, c1, p.skip(1), n);
        } else if q.len() > 1 {
            lemma_resolve_descends(v, c1, q.skip(1), n);
        }
        assert(p =~= q);
    }
}

/// A node added under a directory is what its name resolves to from there.
pub proof fn lemma_added_node_resolves(v: Seq<TreeNodeView>, d: int, name: Seq<u8>, n: usize)
    requires
        tree_wf(v),
        0 <= d < v.len(),
        child_named(v, d, name) == Some(n),
    ensures
        resolve_from(v, d, seq![name]) == Some(n),
{
    assert(seq![name][0] == name);
}

/// The bytes of a name.
fn name_bytes_of(name: &String) -> (r: Vec<u8>)
    ensures
        r@ == encode_utf8(name@),
{
    vstd::slice::slice_to_vec(name.as_str().as_bytes())
}

/// A copy of a path.
pub(crate) fn copy_path(dirs: &[Vec<u8>]) -> (r: Vec<Vec<u8>>)
    ensures
        paths_view(r@) == paths_view(dirs@),
{
    let mut r: Vec<Vec<u8>> = Vec::new();
    let mut i: usize = 0;
    while i < dirs.len()
        invariant
            i <= dirs@.len(),
            paths_view(r@) == paths_view(dirs@).take(i as int),
        decreases dirs@.len() - i,
    {
        let v = vstd::slice::slice_to_vec(dirs[i].as_slice());
        let ghost before = r@;
        assert(before.len() == paths_view(before).len());
        assert(before.len() == i);
        r.push(v);
        assert(r@ == before.push(v));
        assert forall|k: int| 0 <= k < i + 1 implies #[trigger] paths_view(r@)[k] == paths_view(dirs@).take(i + 1)[k] by {
            if k < i {
                assert(r@[k] == before[k]);
                assert(paths_view(before)[k] == paths_view(dirs@).take(i as int)[k]);
            }
        }
        assert(paths_view(r@) =~= paths_view(dirs@).take(i + 1));
        i = i + 1;
    }
    assert(paths_view(dirs@).take(i as int) =~= paths_view(dirs@));
    r
}

/// Whether the directory entries of a table end after themselves and
/// within it (see `fst_dirs_in_range`).
pub fn fst_dirs_in_range_check(fst: &[FstNode]) -> (r: bool)
    ensures
        r == fst_dirs_in_range(fst@),
{
    let mut i: usize = 0;
    while i < fst.len()
        invariant
            i <= fst@.len(),
            forall|k: int|
                0 <= k < i ==> ((#[trigger] fst@[k]) matches FstNode::Directory { next_dir_index, .. } ==> 1
                    <= next_dir_index <= fst@.len()),
        decreases fst@.len() - i,
    {
        match &fst[i] {
            FstNode::Directory { next_dir_index, .. } => {
                if *next_dir_index < 1 || *next_dir_index > fst.len() {
                    assert(!fst_dirs_in_range(fst@)) by {
                        let _ = fst@[i as int];
                    }
                    return false;
                }
            },
            FstNode::File { .. } => {},
        }
        i = i + 1;
    }
    true
}

/// The path of node `n` from the root: the names from the root's child
/// down to `n`, joined by '/'; empty for the root.
pub open spec fn node_path(v: Seq<TreeNodeView>, n: int) -> Seq<u8>
    decreases n,
{
    if n <= 0 || n >= v.len() {
        Seq::empty()
    } else {
        let p = v[n].parent;
        if p <= 0 || p >= n {
            v[n].name
        } else {
            node_path(v, p) + seq![0x2Fu8] + v[n].name
        }
    }
}

impl<R> View for FsTree<R> {
    type V = Seq<TreeNodeView>;

    /// The nodes of the tree.
    closed spec fn view(&self) -> Seq<TreeNodeView> {
        self.nodes@.map_values(|n: TreeNode<R>| n.view())
    }
}

impl<R> FsTree<R> {
    /// The data source of the file at node `i`.
    pub closed spec fn source(&self, i: int) -> Option<FileDataSource<R>> {
        self.nodes@[i].file
    }

    /// The size of the data of the file at node `i`.
    pub closed spec fn file_len(&self, i: int) -> nat {
        match self.nodes@[i].file {
            Some(f) => f.len_spec(),
            None => 0,
        }
    }

    /// The data source of every file reads from a node of a file.
    pub closed spec fn sources_wf(&self) -> bool {
        forall|i: int| 0 <= i < self.nodes@.len() ==> ((#[trigger] self.nodes@[i]).file matches Some(f) ==> f.wf())
    }

    /// The walk of node `c`: a file is one step; a directory starts, walks
    /// its children in order, and ends.
    pub open spec fn node_walk(&self, c: int) -> Seq<WalkItem>
        decreases self@.len() - c, self@[c].children.len() + 1,
    {
        if !self@[c].is_dir {
            seq![WalkItem::File { name: self@[c].name, len: self.file_len(c), node: c }]
        } else {
            seq![WalkItem::DirStart { name: self@[c].name, node: c }] + self.children_walk(
                c,
                self@[c].children.len() as int,
            ) + seq![WalkItem::DirEnd { node: c }]
        }
    }

    /// The walks of the first `k` children of directory `d`, one after
    /// another.
    pub open spec fn children_walk(&self, d: int, k: int) -> Seq<WalkItem>
        decreases self@.len() - d, k,
    {
        if k <= 0 || k > self@[d].children.len() {
            Seq::empty()
        } else {
            let c = self@[d].children[k - 1] as int;
            if d < c < self@.len() {
                self.children_walk(d, k - 1) + self.node_walk(c)
            } else {
                self.children_walk(d, k - 1)
            }
        }
    }

    /// Each file node listed in `files` reads the table entry it names.
    pub open spec fn holds_fst_files(&self, files: Map<int, int>, fst: Seq<FstNode>) -> bool {
        forall|m: int|
            #[trigger] files.dom().contains(m) ==> {
                &&& 0 <= m < self@.len()
                &&& 0 <= files[m] < fst.len()
                &&& self.source(m) matches Some(FileDataSource::Reader { fst: f, .. }) && same_file_node(
                    f,
                    fst[files[m]],
                )
            }
    }

    /// A tree of an empty root directory named `name`.
    pub fn new(name: Vec<u8>) -> (r: Self)
        ensures
            r@ == seq![TreeNodeView { name: name@, parent: 0, children: Seq::empty(), is_dir: true }],
            tree_wf(r@),
            r.sources_wf(),
    {
        let mut nodes: Vec<TreeNode<R>> = Vec::new();
        nodes.push(TreeNode { name, parent: 0, children: Vec::new(), file: None });
        let r = FsTree { nodes };
        assert(r@ =~= seq![TreeNodeView { name: name@, parent: 0, children: Seq::empty(), is_dir: true }]);
        r
    }

    /// The number of nodes.
    pub fn len(&self) -> (r: usize)
        ensures
            r == self@.len(),
    {
        self.nodes.len()
    }

    /// Whether node `i` is a directory.
    pub fn is_dir(&self, i: usize) -> (r: bool)
        requires
            i < self@.len(),
        ensures
            r == self@[i as int].is_dir,
    {
        self.nodes[i].file.is_none()
    }

    /// The name of node `i`.
    pub fn name(&self, i: usize) -> (r: &Vec<u8>)
        requires
            i < self@.len(),
        ensures
            r@ == self@[i as int].name,
    {
        &self.nodes[i].name
    }

    /// The children of node `i`, in the order they were added.
    pub fn children(&self, i: usize) -> (r: &Vec<usize>)
        requires
            i < self@.len(),
        ensures
            r@ == self@[i as int].children,
    {
        &self.nodes[i].children
    }

    /// The data source of the file at node `i`; none for a directory.
    pub fn file(&self, i: usize) -> (r: Option<&FileDataSource<R>>)
        requires
            i < self@.len(),
        ensures
            match r {
                Some(f) => self.source(i as int) == Some(*f),
                None => self.source(i as int) is None,
            },
            r is None <==> self@[i as int].is_dir,
            r matches Some(f) ==> self.file_len(i as int) == f.len_spec(),
            self.sources_wf() && r is Some ==> r.unwrap().wf(),
    {
        match &self.nodes[i].file {
            Some(f) => Some(f),
            None => None,
        }
    }

    /// The child of directory `d` named `name`, if any.
    pub fn find_child(&self, d: usize, name: &[u8]) -> (r: Option<usize>)
        requires
            tree_wf(self@),
            d < self@.len(),
        ensures
            r == child_named(self@, d as int, name@),
    {
        let ghost v = self@;
        let children = &self.nodes[d].children;
        assert(children@ == v[d as int].children);
        let mut k: usize = 0;
        while k < children.len()
            invariant
                k <= children@.len(),
                children@ == v[d as int].children,
                v == self@,
                tree_wf(v),
                d < v.len(),
                forall|j: int| 0 <= j < k ==> #[trigger] v[v[d as int].children[j] as int].name != name@,
            decreases children@.len() - k,
        {
            let c = children[k];
            assert(v[d as int].children[k as int] == c);
            assert(c < v.len());
            assert(self.nodes@[c as int].name@ == v[c as int].name);
            if bytes_equal(self.nodes[c].name.as_slice(), name) {
                proof {
                    lemma_child_named(v, d as int, name@, k as int);
                }
                return Some(c);
            }
            k = k + 1;
        }
        None
    }

    /// The node that `path` names from directory `d` (see `resolve_from`).
    pub fn resolve(&self, d: usize, path: &[Vec<u8>]) -> (r: Option<usize>)
        requires
            tree_wf(self@),
            d < self@.len(),
            self@[d as int].is_dir,
        ensures
            r == resolve_from(self@, d as int, paths_view(path@)),
            r matches Some(n) ==> n < self@.len(),
    {
        let ghost v = self@;
        let ghost pv = paths_view(path@);
        let mut cur = d;
        let mut i: usize = 0;
        assert(pv.skip(0) =~= pv);
        while i < path.len()
            invariant
                v == self@,
                tree_wf(v),
                pv == paths_view(path@),
                i <= path@.len(),
                cur < v.len(),
                v[cur as int].is_dir,
                resolve_from(v, d as int, pv) == resolve_from(v, cur as int, pv.skip(i as int)),
            decreases path@.len() - i,
        {
            let ghost rest = pv.skip(i as int);
            assert(rest[0] == path@[i as int]@);
            assert(rest.skip(1) =~= pv.skip(i + 1));
            match self.find_child(cur, path[i].as_slice()) {
                None => {
                    return None;
                },
                Some(c) => {
                    proof {
                        let k = choose|k: int|
                            0 <= k < v[cur as int].children.len() && #[trigger] v[v[cur as int].children[k] as int].name
                                == rest[0];
                    }
                    if i + 1 == path.len() {
                        return Some(c);
                    }
                    if !self.is_dir(c) {
                        return None;
                    }
                    cur = c;
                },
            }
            i = i + 1;
        }
        assert(pv.skip(i as int) =~= Seq::<Seq<u8>>::empty());
        Some(cur)
    }

    /// The file that `path` names from directory `d`.
    pub fn get_file(&self, d: usize, path: &[Vec<u8>]) -> (r: Result<usize, TreeError>)
        requires
            tree_wf(self@),
            d < self@.len(),
            self@[d as int].is_dir,
        ensures
            match resolve_from(self@, d as int, paths_view(path@)) {
                None => r == Err::<usize, TreeError>(TreeError::NotFound),
                Some(n) => if self@[n as int].is_dir {
                    r == Err::<usize, TreeError>(TreeError::NotAFile)
                } else {
                    r == Ok::<usize, TreeError>(n)
                },
            },
    {
        match self.resolve(d, path) {
            None => Err(TreeError::NotFound),
            Some(n) => if self.is_dir(n) {
                Err(TreeError::NotAFile)
            } else {
                Ok(n)
            },
        }
    }

    /// The directory that `path` names from directory `d`.
    pub fn get_dir(&self, d: usize, path: &[Vec<u8>]) -> (r: Result<usize, TreeError>)
        requires
            tree_wf(self@),
            d < self@.len(),
            self@[d as int].is_dir,
        ensures
            match resolve_from(self@, d as int, paths_view(path@)) {
                None => r == Err::<usize, TreeError>(TreeError::NotFound),
                Some(n) => if self@[n as int].is_dir {
                    r == Ok::<usize, TreeError>(n)
                } else {
                    r == Err::<usize, TreeError>(TreeError::NotADirectory)
                },
            },
    {
        match self.resolve(d, path) {
            None => Err(TreeError::NotFound),
            Some(n) => if self.is_dir(n) {
                Ok(n)
            } else {
                Err(TreeError::NotADirectory)
            },
        }
    }

    /// Makes the directories of `path` under directory `d` that are
    /// missing, and gives the directory that `path` names. Refused, with the
    /// tree unchanged, when a prefix of the path names a file.
    pub fn mkdirs(&mut self, d: usize, path: &[Vec<u8>]) -> (r: Result<usize, TreeError>)
        requires
            tree_wf(old(self)@),
            d < old(self)@.len(),
            old(self)@[d as int].is_dir,
            old(self)@.len() + path@.len() < usize::MAX,
        ensures
            tree_wf(final(self)@),
            tree_extends(old(self)@, final(self)@),
            final(self)@.len() <= old(self)@.len() + path@.len(),
            forall|i: int| 0 <= i < old(self)@.len() ==> final(self).source(i) == old(self).source(i),
            old(self).sources_wf() ==> final(self).sources_wf(),
            r is Err <==> exists|j: int|
                0 < j <= path@.len() && #[trigger] names_file(old(self)@, d as int, paths_view(path@).take(j)),
            match r {
                Ok(n) => {
                    &&& resolve_from(final(self)@, d as int, paths_view(path@)) == Some(n)
                    &&& n < final(self)@.len()
                    &&& final(self)@[n as int].is_dir
                    &&& resolve_from(old(self)@, d as int, paths_view(path@)) is Some ==> final(self)@ == old(self)@
                    &&& resolve_from(old(self)@, d as int, paths_view(path@)) is None ==> final(self)@[n as int].children.len()
                        == 0
                },
                Err(e) => e == TreeError::NotADirectory && final(self)@ == old(self)@,
            },
    {
        let ghost v0 = self@;
        let ghost pv = paths_view(path@);
        let ghost mut created = false;
        let mut cur = d;
        let mut i: usize = 0;
        assert(pv.take(0) =~= Seq::<Seq<u8>>::empty());
        while i < path.len()
            invariant
                tree_wf(self@),
                tree_wf(v0),
                pv == paths_view(path@),
                i <= path@.len(),
                d < v0.len(),
                v0[d as int].is_dir,
                v0.len() + path@.len() < usize::MAX,
                self@.len() <= v0.len() + i,
                cur < self@.len(),
                self@[cur as int].is_dir,
                resolve_from(self@, d as int, pv.take(i as int)) == Some(cur),
                tree_extends(v0, self@),
                forall|k: int| 0 <= k < v0.len() ==> self.source(k) == old(self).source(k),
                v0 == old(self)@,
                old(self).sources_wf() ==> self.sources_wf(),
                !created ==> self@ == v0,
                created ==> resolve_from(v0, d as int, pv.take(i as int)) is None && self@[cur as int].children.len()
                    == 0,
                forall|j: int| 0 < j <= i ==> !#[trigger] names_file(v0, d as int, pv.take(j)),
            decreases path@.len() - i,
        {
            let ghost before = self@;
            proof {
                assert(pv.take(i + 1) =~= pv.take(i as int).push(pv[i as int]));
                lemma_resolve_push(before, d as int, pv.take(i as int), pv[i as int]);
                lemma_resolve_push(v0, d as int, pv.take(i as int), pv[i as int]);
                assert(pv[i as int] == path@[i as int]@);
            }
            match self.find_child(cur, path[i].as_slice()) {
                Some(c) => {
                    proof {
                        let k = choose|k: int|
                            0 <= k < before[cur as int].children.len() && #[trigger] before[before[cur as int].children[k] as int].name
                                == pv[i as int];
                        assert(c < before.len());
                    }
                    if !self.is_dir(c) {
                        proof {
                            assert(resolve_from(v0, d as int, pv.take(i + 1)) == Some(c));
                            assert(names_file(v0, d as int, pv.take(i + 1)));
                        }
                        return Err(TreeError::NotADirectory);
                    }
                    cur = c;
                },
                None => {
                    let name = vstd::slice::slice_to_vec(path[i].as_slice());
                    let parent = cur;
                    cur = self.push_child(parent, name, None);
                    proof {
                        lemma_with_child_extends(before, parent as int, pv[i as int], true);
                        lemma_extends_trans(v0, before, self@);
                        lemma_resolve_extends(before, self@, d as int, pv.take(i as int));
                        lemma_resolve_push(self@, d as int, pv.take(i as int), pv[i as int]);
                        if !created {
                            assert(resolve_from(v0, d as int, pv.take(i as int)) == Some(parent));
                        }
                        created = true;
                    }
                },
            }
            i = i + 1;
        }
        proof {
            assert(pv.take(i as int) =~= pv);
            if resolve_from(v0, d as int, pv) is Some && created {
                assert(false);
            }
            if resolve_from(v0, d as int, pv) is None && !created {
                assert(false);
            }
        }
        Ok(cur)
    }

    /// Appends the walk of the children of directory `d`.
    fn push_walk(
        &self,
        d: usize,
        out: &mut Vec<FsWalkEvent>,
        nodes: &mut Vec<usize>,
        Ghost(prev): Ghost<Seq<WalkItem>>,
    )
        requires
            tree_wf(self@),
            self.sources_wf(),
            d < self@.len(),
            self@[d as int].is_dir,
            walk_matches(old(out)@, old(nodes)@, prev),
        ensures
            walk_matches(
                final(out)@,
                final(nodes)@,
                prev + self.children_walk(d as int, self@[d as int].children.len() as int),
            ),
        decreases self@.len() - d,
    {
        let ghost v = self@;
        let children = &self.nodes[d].children;
        assert(children@ == v[d as int].children);
        let mut k: usize = 0;
        assert(prev + self.children_walk(d as int, 0) =~= prev);
        while k < children.len()
            invariant
                v == self@,
                tree_wf(v),
                self.sources_wf(),
                d < v.len(),
                v[d as int].is_dir,
                children@ == v[d as int].children,
                k <= children@.len(),
                walk_matches(out@, nodes@, prev + self.children_walk(d as int, k as int)),
            decreases children@.len() - k,
        {
            let c = children[k];
            assert(d < c < v.len());
            let ghost before = prev + self.children_walk(d as int, k as int);
            assert(self.children_walk(d as int, k + 1) == self.children_walk(d as int, k as int) + self.node_walk(
                c as int,
            ));
            assert(self.nodes@[c as int].name@ == v[c as int].name);
            match &self.nodes[c].file {
                Some(f) => {
                    assert(f.wf());
                    assert(self.file_len(c as int) == f.len_spec());
                    let ghost out0 = out@;
                    let ghost nodes0 = nodes@;
                    let name = vstd::slice::slice_to_vec(self.nodes[c].name.as_slice());
                    let len = f.len() as u64;
                    out.push(FsWalkEvent::File { name, len });
                    nodes.push(c);
                    proof {
                        let item = WalkItem::File { name: v[c as int].name, len: self.file_len(c as int), node: c as int };
                        let w = before.push(item);
                        assert(self.node_walk(c as int) =~= seq![item]);
                        assert(before + self.node_walk(c as int) =~= w);
                        assert(event_is(out@[out@.len() - 1], item));
                        assert forall|i: int| 0 <= i < w.len() implies event_is(#[trigger] out@[i], w[i]) && nodes@[i]
                            == item_node(w[i]) by {
                            if i < before.len() {
                                assert(out@[i] == out0[i]);
                                assert(nodes@[i] == nodes0[i]);
                                assert(event_is(out0[i], before[i]));
                            }
                        }
                        assert(prev + self.children_walk(d as int, k + 1) =~= w);
                    }
                },
                None => {
                    let name = vstd::slice::slice_to_vec(self.nodes[c].name.as_slice());
                    out.push(FsWalkEvent::DirStart { name });
                    nodes.push(c);
                    let ghost start = before.push(WalkItem::DirStart { name: v[c as int].name, node: c as int });
                    proof {
                        assert forall|i: int| 0 <= i < start.len() implies event_is(#[trigger] out@[i], start[i])
                            && nodes@[i] == item_node(start[i]) by {}
                    }
                    self.push_walk(c, out, nodes, Ghost(start));
                    out.push(FsWalkEvent::DirEnd);
                    nodes.push(c);
                    proof {
                        let inner = self.children_walk(c as int, v[c as int].children.len() as int);
                        let w = (start + inner).push(WalkItem::DirEnd { node: c as int });
                        assert forall|i: int| 0 <= i < w.len() implies event_is(#[trigger] out@[i], w[i]) && nodes@[i]
                            == item_node(w[i]) by {}
                        assert(prev + self.children_walk(d as int, k + 1) =~= w);
                    }
                },
            }
            k = k + 1;
        }
    }

    /// The depth-first walk of the nodes under directory `d` (`d` left
    /// out), as the events that build a file system table, and the node
    /// of each event.
    pub fn walk(&self, d: usize) -> (r: (Vec<FsWalkEvent>, Vec<usize>))
        requires
            tree_wf(self@),
            self.sources_wf(),
            d < self@.len(),
            self@[d as int].is_dir,
        ensures
            walk_matches(r.0@, r.1@, self.children_walk(d as int, self@[d as int].children.len() as int)),
    {
        let mut out: Vec<FsWalkEvent> = Vec::new();
        let mut nodes: Vec<usize> = Vec::new();
        self.push_walk(d, &mut out, &mut nodes, Ghost(Seq::empty()));
        assert(Seq::<WalkItem>::empty() + self.children_walk(d as int, self@[d as int].children.len() as int)
            =~= self.children_walk(d as int, self@[d as int].children.len() as int));
        (out, nodes)
    }

    /// Adds the nodes of a file system table under directory `root`, as
    /// the table nests them: entries `1..` go, in order, under the
    /// innermost directory whose entries they fall in (see `tree_build`).
    /// Each file reads its entry through a clone of `reader`.
    pub fn add_fst(&mut self, root: usize, fst: &[FstNode], reader: &R) -> (r: Result<(), TreeError>) where R: Clone
        requires
            tree_wf(old(self)@),
            root < old(self)@.len(),
            old(self)@[root as int].is_dir,
            old(self)@.len() + fst@.len() < usize::MAX,
            fst_dirs_in_range(fst@),
        ensures
            tree_wf(final(self)@),
            old(self).sources_wf() ==> final(self).sources_wf(),
            match tree_build(old(self)@, root, fst@, fst@.len() as int) {
                Ok(st) => r is Ok && final(self)@ == st.tree && final(self).holds_fst_files(st.files, fst@),
                Err(e) => r == Err::<(), TreeError>(e),
            },
    {
        let ghost v0 = self@;
        let mut stack: Vec<(usize, usize)> = Vec::new();
        stack.push((root, fst.len()));
        let mut i: usize = 1;
        while i < fst.len()
            invariant
                1 <= i,
                i <= fst@.len() || i == 1,
                tree_wf(self@),
                v0 == old(self)@,
                old(self)@.len() + fst@.len() < usize::MAX,
                self@.len() <= v0.len() + i,
                stack_wf(self@, stack@),
                old(self).sources_wf() ==> self.sources_wf(),
                tree_build(v0, root, fst@, i as int) matches Ok(st) && st.tree == self@ && st.stack == stack@
                    && self.holds_fst_files(st.files, fst@),
            decreases fst@.len() - i,
        {
            let ghost st = tree_build(v0, root, fst@, i as int).unwrap();
            let ghost stack0 = stack@;
            proof {
                lemma_pop_finished(stack0, i as int);
            }
            while stack.len() > 1 && i >= stack[stack.len() - 1].1
                invariant
                    stack@.len() >= 1,
                    pop_finished(stack@, i as int) == pop_finished(stack0, i as int),
                    stack_wf(self@, stack@),
                decreases stack@.len(),
            {
                let ghost before = stack@;
                stack.pop();
                proof {
                    assert(stack@ =~= before.drop_last());
                    assert forall|k: int| 0 <= k < stack@.len() implies (#[trigger] stack@[k]).0 < self@.len()
                        && self@[stack@[k].0 as int].is_dir by {
                        assert(stack@[k] == before[k]);
                    }
                }
            }
            assert(stack@ == pop_finished(stack0, i as int));
            let parent = stack[stack.len() - 1].0;
            assert(parent == stack@.last().0);
            assert(stack@[stack@.len() - 1] == stack@.last());
            proof {
                assert(tree_build(v0, root, fst@, i + 1) == tree_build_step(st, fst@[i as int], i as int));
            }
            match &fst[i] {
                FstNode::Directory { relative_file_name, next_dir_index, .. } => {
                    let name = vstd::slice::slice_to_vec(relative_file_name.as_str().as_bytes());
                    assert(name@ == fst_node_name(fst@[i as int]));
                    match self.find_child(parent, name.as_slice()) {
                        Some(c) => {
                            if !self.is_dir(c) {
                                proof {
                                    lemma_tree_build_err(v0, root, fst@, i + 1, fst@.len() as int);
                                }
                                return Err(TreeError::NotADirectory);
                            }
                        },
                        None => {},
                    }
                    let ghost before = self@;
                    let d = self.mkdir(parent, name);
                    stack.push((d, *next_dir_index));
                    proof {
                        assert forall|k: int| 0 <= k < stack@.len() implies (#[trigger] stack@[k]).0 < self@.len()
                            && self@[stack@[k].0 as int].is_dir by {
                            if k < stack@.len() - 1 {
                                assert(stack@[k] == pop_finished(stack0, i as int)[k]);
                                assert(self@[stack@[k].0 as int].is_dir == before[stack@[k].0 as int].is_dir);
                            }
                        }
                    }
                },
                FstNode::File { relative_file_name, file_offset, file_size } => {
                    let name = vstd::slice::slice_to_vec(relative_file_name.as_str().as_bytes());
                    assert(name@ == fst_node_name(fst@[i as int]));
                    match self.find_child(parent, name.as_slice()) {
                        Some(c) => {
                            if self.is_dir(c) {
                                proof {
                                    lemma_tree_build_err(v0, root, fst@, i + 1, fst@.len() as int);
                                }
                                return Err(TreeError::NotAFile);
                            }
                        },
                        None => {},
                    }
                    let ghost before = self@;
                    let node = FstNode::File {
                        relative_file_name: relative_file_name.clone(),
                        file_offset: *file_offset,
                        file_size: *file_size,
                    };
                    let source = FileDataSource::Reader { reader: reader.clone(), fst: node };
                    self.add_file(parent, name, source);
                    proof {
                        assert forall|k: int| 0 <= k < stack@.len() implies (#[trigger] stack@[k]).0 < self@.len()
                            && self@[stack@[k].0 as int].is_dir by {
                            assert(self@[stack@[k].0 as int].is_dir == before[stack@[k].0 as int].is_dir);
                        }
                    }
                },
            }
            i = i + 1;
        }
        proof {
            let st1 = tree_build(v0, root, fst@, i as int).unwrap();
            assert(st1.tree == self@);
            if fst@.len() > 0 {
                assert(i == fst@.len());
                assert(tree_build(v0, root, fst@, fst@.len() as int) == tree_build(v0, root, fst@, i as int));
            } else {
                assert(tree_build(v0, root, fst@, 0) == tree_build(v0, root, fst@, 1));
                assert(tree_build(v0, root, fst@, fst@.len() as int) == tree_build(v0, root, fst@, i as int));
            }
            let st = tree_build(v0, root, fst@, fst@.len() as int).unwrap();
            assert(self@ == st.tree);
            assert(self.holds_fst_files(st.files, fst@));
        }
        Ok(())
    }

    /// The files under directory `d`, depth first, each directory's
    /// children in the order they were added.
    pub fn iter_recurse(&self, d: usize) -> (r: Vec<usize>)
        requires
            tree_wf(self@),
            self.sources_wf(),
            d < self@.len(),
            self@[d as int].is_dir,
        ensures
            r@ == walk_file_nodes(self.children_walk(d as int, self@[d as int].children.len() as int)),
    {
        let ghost w = self.children_walk(d as int, self@[d as int].children.len() as int);
        let (events, nodes) = self.walk(d);
        let mut r: Vec<usize> = Vec::new();
        let mut i: usize = 0;
        while i < events.len()
            invariant
                i <= events@.len(),
                walk_matches(events@, nodes@, w),
                r@ == walk_file_nodes(w.take(i as int)),
            decreases events@.len() - i,
        {
            assert(w.take(i + 1).drop_last() =~= w.take(i as int));
            assert(event_is(events@[i as int], w[i as int]));
            match &events[i] {
                FsWalkEvent::File { .. } => r.push(nodes[i]),
                _ => {},
            }
            i = i + 1;
        }
        assert(w.take(i as int) =~= w);
        r
    }

    /// Makes the file at node `n` hold `data` in memory, under the name its
    /// data source had.
    pub fn set_data(&mut self, n: usize, data: Vec<u8>)
        requires
            tree_wf(old(self)@),
            n < old(self)@.len(),
            !old(self)@[n as int].is_dir,
        ensures
            final(self)@ == old(self)@,
            forall|i: int| 0 <= i < old(self)@.len() && i != n ==> final(self).source(i) == old(self).source(i),
            final(self).source(n as int) matches Some(FileDataSource::Box { data: d, name }) && d == data && name@
                == (match old(self).source(n as int) {
                Some(FileDataSource::Reader { fst, .. }) => match fst {
                    FstNode::File { relative_file_name, .. } => relative_file_name@,
                    FstNode::Directory { relative_file_name, .. } => relative_file_name@,
                },
                Some(FileDataSource::Box { name, .. }) => name@,
                None => Seq::empty(),
            }),
            old(self).sources_wf() ==> final(self).sources_wf(),
    {
        let mut tmp = TreeNode { name: Vec::new(), parent: 0, children: Vec::new(), file: None };
        self.nodes.set_and_swap(n, &mut tmp);
        let name = match &tmp.file {
            Some(f) => f.name(),
            None => String::new(),
        };
        tmp.file = Some(FileDataSource::Box { data, name });
        self.nodes.set_and_swap(n, &mut tmp);
        proof {
            assert(self@ =~= old(self)@);
            if old(self).sources_wf() {
                assert forall|i: int| 0 <= i < self.nodes@.len() implies ((#[trigger] self.nodes@[i]).file matches Some(
                    f,
                ) ==> f.wf()) by {
                    if i != n {
                        assert(self.nodes@[i] == old(self).nodes@[i]);
                    }
                }
            }
        }
    }

    /// Puts a file of `data` named `name` at the end of the directories
    /// `dirs` under directory `d`: a file already there is given the data;
    /// otherwise the missing directories are made and the file is added,
    /// held in memory. Refused, with the tree unchanged, when a prefix of
    /// `dirs` names a file. A directory at the file's path is not accepted.
    pub fn put_file(&mut self, d: usize, dirs: &[Vec<u8>], name: String, data: Vec<u8>) -> (r: Result<usize, TreeError>)
        requires
            tree_wf(old(self)@),
            d < old(self)@.len(),
            old(self)@[d as int].is_dir,
            old(self)@.len() + dirs@.len() + 1 < usize::MAX,
            !(resolve_from(old(self)@, d as int, paths_view(dirs@).push(encode_utf8(name@))) matches Some(n)
                && old(self)@[n as int].is_dir),
        ensures
            tree_wf(final(self)@),
            tree_extends(old(self)@, final(self)@),
            final(self)@.len() <= old(self)@.len() + dirs@.len() + 1,
            r matches Ok(n) ==> n < final(self)@.len() && !final(self)@[n as int].is_dir,
            forall|i: int|
                0 <= i < old(self)@.len() && r != Ok::<usize, TreeError>(i as usize) ==> final(self).source(i) == old(
                    self,
                ).source(i),
            old(self).sources_wf() ==> final(self).sources_wf(),
            match resolve_from(old(self)@, d as int, paths_view(dirs@).push(encode_utf8(name@))) {
                Some(n) => {
                    &&& r == Ok::<usize, TreeError>(n)
                    &&& final(self)@ == old(self)@
                    &&& final(self).source(n as int) matches Some(FileDataSource::Box { data: x, .. }) && x == data
                },
                None => (r is Err <==> exists|j: int|
                    0 < j <= dirs@.len() && #[trigger] names_file(old(self)@, d as int, paths_view(dirs@).take(j)))
                    && (r is Err ==> r == Err::<usize, TreeError>(TreeError::NotADirectory) && final(self)@ == old(self)@)
                    && (r matches Ok(n) ==> resolve_from(final(self)@, d as int, paths_view(dirs@).push(encode_utf8(name@)))
                    == Some(n) && final(self).source(n as int) == Some(FileDataSource::<R>::Box { data, name })),
            },
    {
        let ghost v0 = self@;
        let ghost full = paths_view(dirs@).push(encode_utf8(name@));
        let name_bytes = vstd::slice::slice_to_vec(name.as_str().as_bytes());
        let mut path = copy_path(dirs);
        path.push(name_bytes);
        assert(paths_view(path@) =~= full);
        match self.resolve(d, path.as_slice()) {
            Some(n) => {
                self.set_data(n, data);
                return Ok(n);
            },
            None => {},
        }
        let dir = match self.mkdirs(d, dirs) {
            Ok(x) => x,
            Err(e) => return Err(e),
        };
        let ghost v1 = self@;
        proof {
            lemma_resolve_push(v0, d as int, paths_view(dirs@), encode_utf8(name@));
            if has_child_named(v1, dir as int, encode_utf8(name@)) {
                let k = choose|k: int|
                    0 <= k < v1[dir as int].children.len() && #[trigger] v1[v1[dir as int].children[k] as int].name
                        == encode_utf8(name@);
                lemma_child_named(v1, dir as int, encode_utf8(name@), k);
                assert(resolve_from(v0, d as int, paths_view(dirs@)) is Some);
                assert(v1 == v0);
                assert(false);
            }
        }
        let n = self.add_file(dir, name_bytes_of(&name), FileDataSource::Box { data, name });
        proof {
            lemma_resolve_push(self@, d as int, paths_view(dirs@), encode_utf8(name@));
            lemma_with_child(v1, dir as int, encode_utf8(name@), false);
            lemma_with_child_extends(v1, dir as int, encode_utf8(name@), false);
            lemma_resolve_extends(v1, self@, d as int, paths_view(dirs@));
            lemma_extends_trans(v0, v1, self@);
        }
        Ok(n)
    }

    /// The parent of node `i`; the root is its own.
    pub fn parent(&self, i: usize) -> (r: usize)
        requires
            i < self@.len(),
        ensures
            r == self@[i as int].parent,
    {
        self.nodes[i].parent
    }

    /// The path of node `n` from the root (see `node_path`).
    pub fn node_path(&self, n: usize) -> (r: Vec<u8>)
        requires
            tree_wf(self@),
            n < self@.len(),
        ensures
            r@ == node_path(self@, n as int),
        decreases n,
    {
        if n == 0 {
            return Vec::new();
        }
        let p = self.nodes[n].parent;
        assert(self@[n as int].parent == p);
        assert(p < n);
        assert(self@[n as int].name == self.nodes@[n as int].name@);
        if p == 0 {
            return vstd::slice::slice_to_vec(self.nodes[n].name.as_slice());
        }
        let mut out = self.node_path(p);
        out.push(0x2Fu8);
        let name = self.nodes[n].name.as_slice();
        let mut k: usize = 0;
        let ghost start = out@;
        while k < name.len()
            invariant
                k <= name@.len(),
                out@ == start + name@.take(k as int),
            decreases name@.len() - k,
        {
            out.push(name[k]);
            assert(name@.take(k + 1) =~= name@.take(k as int).push(name@[k as int]));
            k = k + 1;
        }
        assert(name@.take(k as int) =~= name@);
        out
    }

    /// Adds node `name` under directory `d`; its index is the old count.
    fn push_child(&mut self, d: usize, name: Vec<u8>, file: Option<FileDataSource<R>>) -> (r: usize)
        requires
            tree_wf(old(self)@),
            d < old(self)@.len(),
            old(self)@[d as int].is_dir,
            !has_child_named(old(self)@, d as int, name@),
            old(self)@.len() < usize::MAX,
        ensures
            r == old(self)@.len(),
            final(self)@ == with_child(old(self)@, d as int, name@, file is None),
            tree_wf(final(self)@),
            child_named(final(self)@, d as int, name@) == Some(r),
            forall|i: int| 0 <= i < old(self)@.len() ==> final(self).source(i) == old(self).source(i),
            final(self).source(r as int) == file,
            old(self).sources_wf() && (file matches Some(f) ==> f.wf()) ==> final(self).sources_wf(),
    {
        let ghost v = self@;
        let ghost is_dir = file is None;
        let idx = self.nodes.len();
        let mut tmp = TreeNode { name: Vec::new(), parent: 0, children: Vec::new(), file: None };
        self.nodes.set_and_swap(d, &mut tmp);
        tmp.children.push(idx);
        self.nodes.set_and_swap(d, &mut tmp);
        self.nodes.push(TreeNode { name, parent: d, children: Vec::new(), file });
        proof {
            lemma_with_child(v, d as int, name@, is_dir);
            assert(self@ =~= with_child(v, d as int, name@, is_dir));
            if old(self).sources_wf() && (self.nodes@[idx as int].file matches Some(f) ==> f.wf()) {
                assert forall|i: int| 0 <= i < self.nodes@.len() implies ((#[trigger] self.nodes@[i]).file matches Some(
                    f,
                ) ==> f.wf()) by {
                    if i < idx {
                        assert(self.nodes@[i].file == old(self).nodes@[i].file);
                    }
                }
            }
        }
        idx
    }

    /// The subdirectory of `d` named `name`, made if there is none. A child
    /// of that name that is a file is not accepted.
    pub fn mkdir(&mut self, d: usize, name: Vec<u8>) -> (r: usize)
        requires
            tree_wf(old(self)@),
            d < old(self)@.len(),
            old(self)@[d as int].is_dir,
            child_named(old(self)@, d as int, name@) matches Some(c) ==> old(self)@[c as int].is_dir,
            old(self)@.len() < usize::MAX,
        ensures
            tree_wf(final(self)@),
            child_named(final(self)@, d as int, name@) == Some(r),
            final(self)@[r as int].is_dir,
            old(self).sources_wf() ==> final(self).sources_wf(),
            match child_named(old(self)@, d as int, name@) {
                Some(c) => r == c && final(self)@ == old(self)@ && forall|i: int|
                    0 <= i < old(self)@.len() ==> final(self).source(i) == old(self).source(i),
                None => r == old(self)@.len() && final(self)@ == with_child(
                    old(self)@,
                    d as int,
                    name@,
                    true,
                ) && forall|i: int| 0 <= i < old(self)@.len() ==> final(self).source(i) == old(self).source(i),
            },
    {
        match self.find_child(d, name.as_slice()) {
            Some(c) => {
                proof {
                    let k = choose|k: int|
                        0 <= k < self@[d as int].children.len() && #[trigger] self@[self@[d as int].children[k] as int].name
                            == name@;
                    assert(c < self@.len());
                }
                c
            },
            None => self.push_child(d, name, None),
        }
    }

    /// Adds a file named `name` under directory `d`. When `d` already has a
    /// file of that name, that one stays and `source` is dropped; a child of
    /// that name that is a directory is not accepted.
    pub fn add_file(&mut self, d: usize, name: Vec<u8>, source: FileDataSource<R>) -> (r: usize)
        requires
            tree_wf(old(self)@),
            d < old(self)@.len(),
            old(self)@[d as int].is_dir,
            child_named(old(self)@, d as int, name@) matches Some(c) ==> !old(self)@[c as int].is_dir,
            old(self)@.len() < usize::MAX,
        ensures
            tree_wf(final(self)@),
            child_named(final(self)@, d as int, name@) == Some(r),
            !final(self)@[r as int].is_dir,
            old(self).sources_wf() && source.wf() ==> final(self).sources_wf(),
            forall|i: int| 0 <= i < old(self)@.len() ==> final(self).source(i) == old(self).source(i),
            match child_named(old(self)@, d as int, name@) {
                Some(c) => r == c && final(self)@ == old(self)@,
                None => r == old(self)@.len() && final(self)@ == with_child(
                    old(self)@,
                    d as int,
                    name@,
                    false,
                ) && final(self).source(r as int) == Some(source),
            },
    {
        match self.find_child(d, name.as_slice()) {
            Some(c) => {
                proof {
                    let k = choose|k: int|
                        0 <= k < self@[d as int].children.len() && #[trigger] self@[self@[d as int].children[k] as int].name
                            == name@;
                    assert(c < self@.len());
                }
                c
            },
            None => self.push_child(d, name, Some(source)),
        }
    }
}

} // verus!
