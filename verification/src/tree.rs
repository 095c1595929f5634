//! The hierarchical tree artifact: eager (fully recursive, persisted)
//! and shallow (one level, for interactive browsing) node graphs, and
//! the lazy expansion of an already-built tree.
use vstd::multiset::Multiset;
use vstd::prelude::*;

use crate::classify::{is_text_file, spec_is_text_file};
use crate::fs_model::{is_valid_path, spec_valid_node, FsNode};
use crate::strutil::{
    lemma_str_le_total, lemma_str_le_trans, spec_str_le, str_eq, str_le,
};

verus! {

/// A node of the persisted tree: a file leaf or a directory with an
/// ordered sequence of children. A directory's `size` is fixed at
/// construction time; an excluded file still appears as a leaf with
/// size zero so that a consumer can see that it was skipped.
pub enum ParsedPath {
    File { name: String, path: String, size: u64 },
    Directory { name: String, path: String, size: u64, children: Vec<ParsedPath> },
}

/// The mathematical shape of a tree node: what `ParsedPath` holds, with
/// sequences in place of vectors and strings.
pub enum TreeNodeView {
    File { name: Seq<char>, path: Seq<char>, size: nat },
    Directory { name: Seq<char>, path: Seq<char>, size: nat, children: Seq<TreeNodeView> },
}

/// The view of one tree node.
pub open spec fn spec_tree_view(t: ParsedPath) -> TreeNodeView
    decreases t,
{
    match t {
        ParsedPath::File { name, path, size } => TreeNodeView::File {
            name: name@,
            path: path@,
            size: size as nat,
        },
        ParsedPath::Directory { name, path, size, children } => TreeNodeView::Directory {
            name: name@,
            path: path@,
            size: size as nat,
            children: spec_tree_view_seq(children@),
        },
    }
}

/// The views of a sequence of tree nodes.
pub open spec fn spec_tree_view_seq(s: Seq<ParsedPath>) -> Seq<TreeNodeView>
    decreases s,
{
    if s.len() == 0 {
        Seq::empty()
    } else {
        spec_tree_view_seq(s.drop_last()).push(spec_tree_view(s.last()))
    }
}

impl View for ParsedPath {
    type V = TreeNodeView;

    open spec fn view(&self) -> TreeNodeView {
        spec_tree_view(*self)
    }
}

/// Viewing a sequence of nodes is viewing each node.
pub proof fn lemma_tree_view_seq(s: Seq<ParsedPath>)
    ensures
        spec_tree_view_seq(s).len() == s.len(),
        forall|i: int| 0 <= i < s.len() ==> spec_tree_view_seq(s)[i] == spec_tree_view(s[i]),
    decreases s,
{
    if s.len() > 0 {
        lemma_tree_view_seq(s.drop_last());
    }
}

impl TreeNodeView {
    pub open spec fn name(self) -> Seq<char> {
        match self {
            TreeNodeView::File { name, .. } => name,
            TreeNodeView::Directory { name, .. } => name,
        }
    }

    pub open spec fn path(self) -> Seq<char> {
        match self {
            TreeNodeView::File { path, .. } => path,
            TreeNodeView::Directory { path, .. } => path,
        }
    }

    pub open spec fn size(self) -> nat {
        match self {
            TreeNodeView::File { size, .. } => size,
            TreeNodeView::Directory { size, .. } => size,
        }
    }

    pub open spec fn children(self) -> Seq<TreeNodeView> {
        match self {
            TreeNodeView::File { .. } => Seq::empty(),
            TreeNodeView::Directory { children, .. } => children,
        }
    }
}

impl ParsedPath {
    /// The node's path, its stable identifier within one tree.
    pub fn path(&self) -> (r: &str)
        ensures
            r@ == self@.path(),
    {
        match self {
            ParsedPath::File { path, .. } => path.as_str(),
            ParsedPath::Directory { path, .. } => path.as_str(),
        }
    }
}

/// Sum of the sizes of a sequence of tree nodes.
pub open spec fn spec_size_sum(s: Seq<TreeNodeView>) -> nat
    decreases s,
{
    if s.len() == 0 {
        0nat
    } else {
        spec_size_sum(s.drop_last()) + s.last().size()
    }
}

/// Appending one node adds its size to the sum.
pub proof fn lemma_size_sum_push(s: Seq<TreeNodeView>, x: TreeNodeView)
    ensures
        spec_size_sum(s.push(x)) == spec_size_sum(s) + x.size(),
{
    assert(s.push(x).drop_last() =~= s);
    assert(s.push(x).last() == x);
}

/// Viewing a sequence extended by one node is extending the views.
pub proof fn lemma_tree_view_seq_push(s: Seq<ParsedPath>, x: ParsedPath)
    ensures
        spec_tree_view_seq(s.push(x)) == spec_tree_view_seq(s).push(spec_tree_view(x)),
{
    assert(s.push(x).drop_last() =~= s);
    assert(s.push(x).last() == x);
}

/// The structural invariant of a built tree: every directory's size
/// equals the sum of its children's sizes.
pub open spec fn spec_tree_wf(t: TreeNodeView) -> bool
    decreases t,
{
    match t {
        TreeNodeView::File { .. } => true,
        TreeNodeView::Directory { size, children, .. } => size == spec_size_sum(children)
            && spec_tree_wf_seq(children),
    }
}

/// All nodes of a sequence satisfy the tree invariant.
pub open spec fn spec_tree_wf_seq(s: Seq<TreeNodeView>) -> bool
    decreases s,
{
    if s.len() == 0 {
        true
    } else {
        spec_tree_wf_seq(s.drop_last()) && spec_tree_wf(s.last())
    }
}

/// The size every node of a subtree would report if nothing were
/// excluded: files count their on-disk length, directories sum their
/// non-symlink, non-hidden children. This is the measure the shallow
/// builder reports for directories.
pub open spec fn spec_rec_size(n: FsNode) -> nat
    decreases n,
{
    match n {
        FsNode::File { size, .. } => size as nat,
        FsNode::Dir { children, .. } => spec_rec_size_seq(children@),
    }
}

/// Sum of `spec_rec_size` over the valid entries of a sequence.
pub open spec fn spec_rec_size_seq(s: Seq<FsNode>) -> nat
    decreases s,
{
    if s.len() == 0 {
        0nat
    } else {
        spec_rec_size_seq(s.drop_last()) + if spec_valid_node(&s.last()) {
            spec_rec_size(s.last())
        } else {
            0nat
        }
    }
}

/// A prefix of a sequence never outweighs the whole sequence.
pub proof fn lemma_rec_size_seq_take_le(s: Seq<FsNode>, i: int)
    requires
        0 <= i <= s.len(),
    ensures
        spec_rec_size_seq(s.take(i)) <= spec_rec_size_seq(s),
    decreases s.len() - i,
{
    if i == s.len() {
        assert(s.take(i) == s);
    } else {
        lemma_rec_size_seq_take_le(s, i + 1);
        assert(s.take(i + 1).drop_last() =~= s.take(i));
        assert(s.take(i + 1).last() == s[i]);
    }
}

/// The eager tree of one snapshot subtree: a file leaf reports its size
/// when it is an eligible text file and zero otherwise; a directory
/// holds the eager trees of its valid children and sums their sizes.
pub open spec fn spec_eager_tree(n: FsNode) -> TreeNodeView
    decreases n,
{
    match n {
        FsNode::File { name, path, size, .. } => TreeNodeView::File {
            name: name@,
            path: path@,
            size: if spec_is_text_file(&n) {
                size as nat
            } else {
                0nat
            },
        },
        FsNode::Dir { name, path, children, .. } => TreeNodeView::Directory {
            name: name@,
            path: path@,
            size: spec_size_sum(spec_eager_children(children@)),
            children: spec_eager_children(children@),
        },
    }
}

/// The eager trees of the valid entries of a sequence, in order.
pub open spec fn spec_eager_children(s: Seq<FsNode>) -> Seq<TreeNodeView>
    decreases s,
{
    if s.len() == 0 {
        Seq::empty()
    } else if spec_valid_node(&s.last()) {
        spec_eager_children(s.drop_last()).push(spec_eager_tree(s.last()))
    } else {
        spec_eager_children(s.drop_last())
    }
}

/// An eager tree never reports more than the raw recursive size.
pub proof fn lemma_eager_size_le_rec(n: FsNode)
    ensures
        spec_eager_tree(n).size() <= spec_rec_size(n),
    decreases n,
{
    match n {
        FsNode::File { .. } => {},
        FsNode::Dir { children, .. } => {
            lemma_eager_children_size_le_rec(children@);
        },
    }
}

/// Summed over a sequence of children.
pub proof fn lemma_eager_children_size_le_rec(s: Seq<FsNode>)
    ensures
        spec_size_sum(spec_eager_children(s)) <= spec_rec_size_seq(s),
    decreases s,
{
    if s.len() > 0 {
        lemma_eager_children_size_le_rec(s.drop_last());
        if spec_valid_node(&s.last()) {
            lemma_eager_size_le_rec(s.last());
            lemma_size_sum_push(spec_eager_children(s.drop_last()), spec_eager_tree(s.last()));
        }
    }
}

/// Every eager tree satisfies the structural invariant: directory sizes
/// are the sums of their children's sizes, all the way down.
pub proof fn lemma_eager_tree_wf(n: FsNode)
    ensures
        spec_tree_wf(spec_eager_tree(n)),
    decreases n,
{
    match n {
        FsNode::File { .. } => {},
        FsNode::Dir { children, .. } => {
            lemma_eager_children_wf(children@);
        },
    }
}

/// All eager trees of a sequence of children satisfy the invariant.
pub proof fn lemma_eager_children_wf(s: Seq<FsNode>)
    ensures
        spec_tree_wf_seq(spec_eager_children(s)),
    decreases s,
{
    if s.len() > 0 {
        lemma_eager_children_wf(s.drop_last());
        if spec_valid_node(&s.last()) {
            lemma_eager_tree_wf(s.last());
            assert(spec_eager_children(s).drop_last() =~= spec_eager_children(s.drop_last()));
        }
    }
}

/// Build the eager tree for one snapshot subtree, depth-first. Children
/// that are symlinks or hidden are left out; an excluded file still
/// becomes a leaf, with size zero.
#[verifier::loop_isolation(false)]
pub fn build_file_tree(n: &FsNode) -> (t: ParsedPath)
    requires
        spec_rec_size(*n) <= u64::MAX,
    ensures
        t@ == spec_eager_tree(*n),
        spec_tree_wf(t@),
    decreases *n,
{
    proof {
        lemma_eager_tree_wf(*n);
    }
    match n {
        FsNode::File { name, path, size, .. } => {
            let reported: u64 = if is_text_file(n) {
                *size
            } else {
                0
            };
            ParsedPath::File { name: name.clone(), path: path.clone(), size: reported }
        },
        FsNode::Dir { name, path, children, .. } => {
            let mut built: Vec<ParsedPath> = Vec::new();
            let mut total: u64 = 0;
            let mut i: usize = 0;
            proof {
                assert(children@.take(0) =~= Seq::<FsNode>::empty());
            }
            while i < children.len()
                invariant
                    0 <= i <= children@.len(),
                    spec_tree_view_seq(built@) == spec_eager_children(children@.take(i as int)),
                    total == spec_size_sum(spec_eager_children(children@.take(i as int))),
                decreases children@.len() - i,
            {
                proof {
                    assert(decreases_to!(*n => n->Dir_children));
                    assert(decreases_to!(n->Dir_children => n->Dir_children@));
                    assert(decreases_to!(n->Dir_children@ => n->Dir_children@[i as int]));
                    assert(n->Dir_children == *children);
                    assert(decreases_to!(*n => children@[i as int]));
                    assert(children@.take(i + 1).drop_last() =~= children@.take(i as int));
                    assert(children@.take(i + 1).last() == children@[i as int]);
                    lemma_rec_size_seq_take_le(children@, i + 1);
                    lemma_eager_children_size_le_rec(children@.take(i + 1));
                }
                let child = &children[i];
                if is_valid_path(child) {
                    proof {
                        lemma_eager_size_le_rec(children@[i as int]);
                        lemma_size_sum_push(
                            spec_eager_children(children@.take(i as int)),
                            spec_eager_tree(children@[i as int]),
                        );
                    }
                    let built_child = build_file_tree(child);
                    let child_size = match &built_child {
                        ParsedPath::File { size, .. } => *size,
                        ParsedPath::Directory { size, .. } => *size,
                    };
                    proof {
                        assert(child_size == spec_eager_tree(children@[i as int]).size());
                        lemma_tree_view_seq_push(built@, built_child);
                    }
                    total = total + child_size;
                    built.push(built_child);
                }
                i = i + 1;
            }
            proof {
                assert(children@.take(children@.len() as int) =~= children@);
            }
            ParsedPath::Directory {
                name: name.clone(),
                path: path.clone(),
                size: total,
                children: built,
            }
        },
    }
}

/// Compute the recursive size of a subtree: the summed on-disk lengths
/// of every non-symlink, non-hidden file below it, with no exclusions
/// for binary content. This is the fast size-only walk behind shallow
/// directory summaries.
#[verifier::loop_isolation(false)]
pub fn get_recursive_dir_size(n: &FsNode) -> (r: u64)
    requires
        spec_rec_size(*n) <= u64::MAX,
    ensures
        r == spec_rec_size(*n),
    decreases *n,
{
    match n {
        FsNode::File { size, .. } => *size,
        FsNode::Dir { children, .. } => {
            let mut total: u64 = 0;
            let mut i: usize = 0;
            proof {
                assert(children@.take(0) =~= Seq::<FsNode>::empty());
            }
            while i < children.len()
                invariant
                    0 <= i <= children@.len(),
                    total == spec_rec_size_seq(children@.take(i as int)),
                decreases children@.len() - i,
            {
                proof {
                    assert(decreases_to!(*n => n->Dir_children));
                    assert(decreases_to!(n->Dir_children => n->Dir_children@));
                    assert(decreases_to!(n->Dir_children@ => n->Dir_children@[i as int]));
                    assert(n->Dir_children == *children);
                    assert(decreases_to!(*n => children@[i as int]));
                    assert(children@.take(i + 1).drop_last() =~= children@.take(i as int));
                    assert(children@.take(i + 1).last() == children@[i as int]);
                    lemma_rec_size_seq_take_le(children@, i + 1);
                }
                let child = &children[i];
                if is_valid_path(child) {
                    let child_size = get_recursive_dir_size(child);
                    total = total + child_size;
                }
                i = i + 1;
            }
            proof {
                assert(children@.take(children@.len() as int) =~= children@);
            }
            total
        },
    }
}

/// The one-level summary of a snapshot entry: a file keeps its on-disk
/// length, a directory reports its recursive size and no children.
pub open spec fn spec_shallow_node(n: FsNode) -> TreeNodeView {
    match n {
        FsNode::File { name, path, size, .. } => TreeNodeView::File {
            name: name@,
            path: path@,
            size: size as nat,
        },
        FsNode::Dir { name, path, .. } => TreeNodeView::Directory {
            name: name@,
            path: path@,
            size: spec_rec_size(n),
            children: Seq::empty(),
        },
    }
}

/// The shallow summaries of the valid entries of a sequence, in
/// enumeration order.
pub open spec fn spec_shallow_children(s: Seq<FsNode>) -> Seq<TreeNodeView>
    decreases s,
{
    if s.len() == 0 {
        Seq::empty()
    } else if spec_valid_node(&s.last()) {
        spec_shallow_children(s.drop_last()).push(spec_shallow_node(s.last()))
    } else {
        spec_shallow_children(s.drop_last())
    }
}

/// Shallow summaries together weigh exactly the recursive size.
pub proof fn lemma_shallow_children_size(s: Seq<FsNode>)
    ensures
        spec_size_sum(spec_shallow_children(s)) == spec_rec_size_seq(s),
    decreases s,
{
    if s.len() > 0 {
        lemma_shallow_children_size(s.drop_last());
        if spec_valid_node(&s.last()) {
            lemma_size_sum_push(
                spec_shallow_children(s.drop_last()),
                spec_shallow_node(s.last()),
            );
        }
    }
}

/// Build the one-level summary node for one snapshot entry: for a
/// directory, a size-only recursive walk; for a file, its on-disk
/// length; never any grandchildren.
pub fn create_shallow_node(n: &FsNode) -> (t: ParsedPath)
    requires
        spec_rec_size(*n) <= u64::MAX,
    ensures
        t@ == spec_shallow_node(*n),
{
    match n {
        FsNode::File { name, path, size, .. } => ParsedPath::File {
            name: name.clone(),
            path: path.clone(),
            size: *size,
        },
        FsNode::Dir { name, path, .. } => {
            let size = get_recursive_dir_size(n);
            ParsedPath::Directory {
                name: name.clone(),
                path: path.clone(),
                size,
                children: Vec::new(),
            }
        },
    }
}

/// The ordering of interactive listings: directories before files, and
/// within one kind by path, lexicographically ascending.
pub open spec fn spec_node_le(a: TreeNodeView, b: TreeNodeView) -> bool {
    if a is Directory && b is File {
        true
    } else if a is File && b is Directory {
        false
    } else {
        spec_str_le(a.path(), b.path())
    }
}

/// The listing order is total.
pub proof fn lemma_node_le_total(a: TreeNodeView, b: TreeNodeView)
    ensures
        spec_node_le(a, b) || spec_node_le(b, a),
{
    lemma_str_le_total(a.path(), b.path());
}

/// The listing order is transitive.
pub proof fn lemma_node_le_trans(a: TreeNodeView, b: TreeNodeView, c: TreeNodeView)
    requires
        spec_node_le(a, b),
        spec_node_le(b, c),
    ensures
        spec_node_le(a, c),
{
    if (a is Directory <==> b is Directory) && (b is Directory <==> c is Directory) {
        lemma_str_le_trans(a.path(), b.path(), c.path());
    }
}

/// Compare two built nodes in listing order.
pub fn node_le(a: &ParsedPath, b: &ParsedPath) -> (r: bool)
    ensures
        r == spec_node_le(a@, b@),
{
    let a_dir = matches!(a, ParsedPath::Directory { .. });
    let b_dir = matches!(b, ParsedPath::Directory { .. });
    if a_dir && !b_dir {
        true
    } else if !a_dir && b_dir {
        false
    } else {
        str_le(a.path(), b.path())
    }
}

/// A sequence stands in listing order.
pub open spec fn spec_sorted_nodes(s: Seq<TreeNodeView>) -> bool {
    forall|i: int, j: int| 0 <= i < j < s.len() ==> spec_node_le(s[i], s[j])
}

/// Removing an entry removes its view.
pub proof fn lemma_tree_view_seq_remove(s: Seq<ParsedPath>, i: int)
    requires
        0 <= i < s.len(),
    ensures
        spec_tree_view_seq(s.remove(i)) == spec_tree_view_seq(s).remove(i),
    decreases s,
{
    lemma_tree_view_seq(s);
    lemma_tree_view_seq(s.remove(i));
    assert(spec_tree_view_seq(s.remove(i)) =~= spec_tree_view_seq(s).remove(i));
}

/// Sort built nodes into listing order: directories first, then by
/// path. The result holds exactly the given nodes.
pub fn sort_nodes(v: &mut Vec<ParsedPath>)
    ensures
        spec_sorted_nodes(spec_tree_view_seq(final(v)@)),
        spec_tree_view_seq(final(v)@).to_multiset() == spec_tree_view_seq(old(v)@).to_multiset(),
{
    broadcast use vstd::seq_lib::group_to_multiset_ensures;
    broadcast use vstd::multiset::group_multiset_axioms;

    let ghost orig: Seq<TreeNodeView> = spec_tree_view_seq(v@);
    let mut out: Vec<ParsedPath> = Vec::new();
    proof {
        lemma_tree_view_seq(v@);
        assert(spec_tree_view_seq(out@) =~= Seq::<TreeNodeView>::empty());
        assert(spec_tree_view_seq(out@).to_multiset().add(spec_tree_view_seq(v@).to_multiset())
            =~= orig.to_multiset());
    }
    while v.len() > 0
        invariant
            spec_tree_view_seq(out@).len() == out@.len(),
            spec_tree_view_seq(v@).len() == v@.len(),
            spec_sorted_nodes(spec_tree_view_seq(out@)),
            forall|i: int, j: int|
                0 <= i < out@.len() && 0 <= j < v@.len() ==> spec_node_le(
                    spec_tree_view_seq(out@)[i],
                    spec_tree_view_seq(v@)[j],
                ),
            spec_tree_view_seq(out@).to_multiset().add(spec_tree_view_seq(v@).to_multiset())
                =~= orig.to_multiset(),
        decreases v@.len(),
    {
        let mut m: usize = 0;
        let mut k: usize = 1;
        proof {
            lemma_tree_view_seq(v@);
            lemma_node_le_total(spec_tree_view_seq(v@)[0], spec_tree_view_seq(v@)[0]);
        }
        while k < v.len()
            invariant
                0 <= m < k <= v@.len(),
                v@.len() > 0,
                spec_tree_view_seq(v@).len() == v@.len(),
                forall|j: int| 0 <= j < k ==> spec_node_le(
                    spec_tree_view_seq(v@)[m as int],
                    spec_tree_view_seq(v@)[j],
                ),
            decreases v@.len() - k,
        {
            proof {
                lemma_tree_view_seq(v@);
            }
            if node_le(&v[k], &v[m]) {
                proof {
                    lemma_node_le_total(
                        spec_tree_view_seq(v@)[k as int],
                        spec_tree_view_seq(v@)[k as int],
                    );
                    assert forall|j: int| 0 <= j < k implies spec_node_le(
                        spec_tree_view_seq(v@)[k as int],
                        spec_tree_view_seq(v@)[j],
                    ) by {
                        lemma_node_le_trans(
                            spec_tree_view_seq(v@)[k as int],
                            spec_tree_view_seq(v@)[m as int],
                            spec_tree_view_seq(v@)[j],
                        );
                    }
                }
                m = k;
            } else {
                proof {
                    lemma_node_le_total(
                        spec_tree_view_seq(v@)[k as int],
                        spec_tree_view_seq(v@)[m as int],
                    );
                }
            }
            k = k + 1;
        }
        proof {
            lemma_tree_view_seq(v@);
            lemma_tree_view_seq_remove(v@, m as int);
            lemma_tree_view_seq_push(out@, v@[m as int]);
        }
        let ghost pre_out: Seq<TreeNodeView> = spec_tree_view_seq(out@);
        let ghost pre_v: Seq<TreeNodeView> = spec_tree_view_seq(v@);
        let ghost xv: TreeNodeView = pre_v[m as int];
        let x = v.remove(m);
        out.push(x);
        proof {
            pre_out.to_multiset_ensures();
            pre_v.to_multiset_ensures();
            assert(spec_tree_view_seq(out@) == pre_out.push(xv));
            assert(spec_tree_view_seq(v@) == pre_v.remove(m as int));
            assert(spec_tree_view_seq(out@).to_multiset() == pre_out.to_multiset().insert(xv));
            assert(spec_tree_view_seq(v@).to_multiset() == pre_v.to_multiset().remove(xv));
            assert(pre_v.contains(xv)) by {
                assert(0 <= m < pre_v.len() && pre_v[m as int] == xv);
            }
            assert(pre_v.to_multiset().count(xv) > 0);
            assert(spec_tree_view_seq(out@).to_multiset().add(
                spec_tree_view_seq(v@).to_multiset(),
            ) =~= pre_out.to_multiset().add(pre_v.to_multiset()));
            lemma_tree_view_seq(out@);
            lemma_tree_view_seq(v@);
        }
    }
    proof {
        assert(spec_tree_view_seq(v@).to_multiset() =~= Multiset::<TreeNodeView>::empty());
        assert(spec_tree_view_seq(out@).to_multiset() =~= orig.to_multiset());
    }
    *v = out;
}

/// What the one-level listing of a snapshot entry looks like: a file
/// keeps its leaf summary; a directory keeps its name, path and
/// recursive size and lists exactly its valid children's summaries,
/// directories first and then by path.
pub open spec fn spec_is_shallow_listing(n: FsNode, t: TreeNodeView) -> bool {
    &&& t.name() == n.spec_name()
    &&& t.path() == n.spec_path()
    &&& (n is File ==> t == spec_shallow_node(n))
    &&& (n is Dir ==> {
        &&& t is Directory
        &&& t.size() == spec_rec_size(n)
        &&& t.children().to_multiset() == spec_shallow_children(n->Dir_children@).to_multiset()
        &&& spec_sorted_nodes(t.children())
    })
}

/// Build the one-level tree for one snapshot entry: for a directory,
/// its valid children as shallow summary nodes, sorted directories
/// first and then by path, with the directory's size the sum of
/// theirs; for a file, a plain leaf. No grandchildren are built.
#[verifier::loop_isolation(false)]
pub fn build_file_tree_shallow(n: &FsNode) -> (t: ParsedPath)
    requires
        spec_rec_size(*n) <= u64::MAX,
    ensures
        spec_is_shallow_listing(*n, t@),
{
    match n {
        FsNode::File { name, path, size, .. } => ParsedPath::File {
            name: name.clone(),
            path: path.clone(),
            size: *size,
        },
        FsNode::Dir { name, path, children, .. } => {
            let mut summaries: Vec<ParsedPath> = Vec::new();
            let mut total: u64 = 0;
            let mut i: usize = 0;
            proof {
                assert(children@.take(0) =~= Seq::<FsNode>::empty());
            }
            while i < children.len()
                invariant
                    0 <= i <= children@.len(),
                    spec_tree_view_seq(summaries@) == spec_shallow_children(
                        children@.take(i as int),
                    ),
                    total == spec_rec_size_seq(children@.take(i as int)),
                decreases children@.len() - i,
            {
                proof {
                    assert(children@.take(i + 1).drop_last() =~= children@.take(i as int));
                    assert(children@.take(i + 1).last() == children@[i as int]);
                    lemma_rec_size_seq_take_le(children@, i + 1);
                }
                let child = &children[i];
                if is_valid_path(child) {
                    let summary = create_shallow_node(child);
                    proof {
                        lemma_tree_view_seq_push(summaries@, summary);
                    }
                    let child_size = match &summary {
                        ParsedPath::File { size, .. } => *size,
                        ParsedPath::Directory { size, .. } => *size,
                    };
                    total = total + child_size;
                    summaries.push(summary);
                }
                i = i + 1;
            }
            proof {
                assert(children@.take(children@.len() as int) =~= children@);
            }
            sort_nodes(&mut summaries);
            ParsedPath::Directory {
                name: name.clone(),
                path: path.clone(),
                size: total,
                children: summaries,
            }
        },
    }
}

/// The one-level view of an already-built node: a file stays as it is,
/// a directory keeps name, path and size and loses its children.
pub open spec fn spec_shallow_view(t: TreeNodeView) -> TreeNodeView {
    match t {
        TreeNodeView::File { .. } => t,
        TreeNodeView::Directory { name, path, size, .. } => TreeNodeView::Directory {
            name,
            path,
            size,
            children: Seq::empty(),
        },
    }
}

/// The one-level views of a sequence of built nodes.
pub open spec fn spec_shallow_view_seq(s: Seq<TreeNodeView>) -> Seq<TreeNodeView> {
    s.map_values(|t: TreeNodeView| spec_shallow_view(t))
}

/// Convert a built node to its one-level form: children cleared, size
/// preserved.
pub fn to_shallow_node(node: &ParsedPath) -> (r: ParsedPath)
    ensures
        r@ == spec_shallow_view(node@),
{
    match node {
        ParsedPath::File { name, path, size } => ParsedPath::File {
            name: name.clone(),
            path: path.clone(),
            size: *size,
        },
        ParsedPath::Directory { name, path, size, .. } => ParsedPath::Directory {
            name: name.clone(),
            path: path.clone(),
            size: *size,
            children: Vec::new(),
        },
    }
}

/// Where a depth-first search of a built tree finds a directory whose
/// path is `target`: the one-level views of that directory's children,
/// or nothing. A file node never matches, even when its path does.
pub open spec fn spec_find_children(t: TreeNodeView, target: Seq<char>) -> Option<
    Seq<TreeNodeView>,
>
    decreases t,
{
    match t {
        TreeNodeView::File { .. } => Option::None,
        TreeNodeView::Directory { path, children, .. } => if path == target {
            Option::Some(spec_shallow_view_seq(children))
        } else {
            spec_find_children_seq(children, target)
        },
    }
}

/// Depth-first search over a sequence of built trees, first match
/// wins.
pub open spec fn spec_find_children_seq(s: Seq<TreeNodeView>, target: Seq<char>) -> Option<
    Seq<TreeNodeView>,
>
    decreases s,
{
    if s.len() == 0 {
        Option::None
    } else {
        match spec_find_children(s[0], target) {
            Option::Some(found) => Option::Some(found),
            Option::None => spec_find_children_seq(s.drop_first(), target),
        }
    }
}

/// A path occurs somewhere in a built subtree.
pub open spec fn spec_tree_has_path(t: TreeNodeView, target: Seq<char>) -> bool
    decreases t,
{
    match t {
        TreeNodeView::File { path, .. } => path == target,
        TreeNodeView::Directory { path, children, .. } => path == target || spec_seq_has_path(
            children,
            target,
        ),
    }
}

/// A path occurs somewhere in a sequence of built subtrees.
pub open spec fn spec_seq_has_path(s: Seq<TreeNodeView>, target: Seq<char>) -> bool
    decreases s,
{
    s.len() > 0 && (spec_tree_has_path(s[0], target) || spec_seq_has_path(
        s.drop_first(),
        target,
    ))
}

/// A search for a path that occurs nowhere in the tree finds nothing.
pub proof fn lemma_find_absent_path(t: TreeNodeView, target: Seq<char>)
    requires
        !spec_tree_has_path(t, target),
    ensures
        spec_find_children(t, target) is None,
    decreases t,
{
    match t {
        TreeNodeView::File { .. } => {},
        TreeNodeView::Directory { children, .. } => {
            lemma_find_absent_path_seq(children, target);
        },
    }
}

/// The same over a sequence of built subtrees.
pub proof fn lemma_find_absent_path_seq(s: Seq<TreeNodeView>, target: Seq<char>)
    requires
        !spec_seq_has_path(s, target),
    ensures
        spec_find_children_seq(s, target) is None,
    decreases s,
{
    if s.len() > 0 {
        lemma_find_absent_path(s[0], target);
        lemma_find_absent_path_seq(s.drop_first(), target);
    }
}

/// Convert a sequence of built nodes to their one-level views.
fn shallow_copies(nodes: &Vec<ParsedPath>) -> (r: Vec<ParsedPath>)
    ensures
        spec_tree_view_seq(r@) == spec_shallow_view_seq(spec_tree_view_seq(nodes@)),
{
    let ghost views = spec_tree_view_seq(nodes@);
    proof {
        lemma_tree_view_seq(nodes@);
    }
    let mut r: Vec<ParsedPath> = Vec::new();
    let mut i: usize = 0;
    proof {
        assert(spec_tree_view_seq(r@) =~= Seq::<TreeNodeView>::empty());
    }
    while i < nodes.len()
        invariant
            0 <= i <= nodes@.len(),
            views == spec_tree_view_seq(nodes@),
            views.len() == nodes@.len(),
            forall|j: int| 0 <= j < nodes@.len() ==> views[j] == spec_tree_view(nodes@[j]),
            spec_tree_view_seq(r@) == spec_shallow_view_seq(views).take(i as int),
        decreases nodes@.len() - i,
    {
        let shallow = to_shallow_node(&nodes[i]);
        proof {
            lemma_tree_view_seq_push(r@, shallow);
            assert(spec_shallow_view_seq(views).take(i + 1) =~= spec_shallow_view_seq(
                views,
            ).take(i as int).push(spec_shallow_view(views[i as int])));
        }
        r.push(shallow);
        i = i + 1;
    }
    proof {
        assert(spec_shallow_view_seq(views).take(nodes@.len() as int) =~= spec_shallow_view_seq(
            views,
        ));
    }
    r
}

/// Search a built tree depth-first for the directory whose path is
/// `target_path` and hand back one-level copies of its children; a path
/// that names no directory in the tree finds nothing.
#[verifier::loop_isolation(false)]
pub fn find_children_in_tree(tree: &Vec<ParsedPath>, target_path: &str) -> (r: Option<
    Vec<ParsedPath>,
>)
    ensures
        match spec_find_children_seq(spec_tree_view_seq(tree@), target_path@) {
            Option::Some(found) => r is Some && spec_tree_view_seq(r.unwrap()@) == found,
            Option::None => r is None,
        },
    decreases tree@,
{
    let ghost views = spec_tree_view_seq(tree@);
    proof {
        lemma_tree_view_seq(tree@);
        assert(views.skip(0) =~= views);
    }
    let mut i: usize = 0;
    while i < tree.len()
        invariant
            0 <= i <= tree@.len(),
            spec_find_children_seq(views, target_path@) == spec_find_children_seq(
                views.skip(i as int),
                target_path@,
            ),
        decreases tree@.len() - i,
    {
        proof {
            assert(views.skip(i as int)[0] == views[i as int]);
            assert(views.skip(i as int).drop_first() =~= views.skip(i + 1));
        }
        let node = &tree[i];
        match node {
            ParsedPath::Directory { path, children, .. } => {
                if str_eq(path.as_str(), target_path) {
                    let found = shallow_copies(children);
                    proof {
                        assert(*node == tree@[i as int]);
                        assert(views[i as int] == spec_tree_view(tree@[i as int]));
                        assert(views[i as int] is Directory);
                        assert(views[i as int]->Directory_path == path@);
                        assert(spec_find_children(views[i as int], target_path@)
                            == Option::Some(
                            spec_shallow_view_seq(spec_tree_view_seq(children@)),
                        ));
                        assert(spec_find_children_seq(views.skip(i as int), target_path@)
                            == Option::Some(
                            spec_shallow_view_seq(spec_tree_view_seq(children@)),
                        ));
                    }
                    return Option::Some(found);
                }
                proof {
                    assert(decreases_to!(tree@ => tree@[i as int]));
                    assert(decreases_to!(tree@[i as int] => tree@[i as int]->Directory_children));
                    assert(decreases_to!(
                        tree@[i as int]->Directory_children =>
                        tree@[i as int]->Directory_children@
                    ));
                    assert(tree@[i as int]->Directory_children == *children);
                }
                let below = find_children_in_tree(children, target_path);
                match below {
                    Option::Some(found) => {
                        return Option::Some(found);
                    },
                    Option::None => {},
                }
            },
            ParsedPath::File { .. } => {},
        }
        i = i + 1;
    }
    proof {
        assert(views.skip(tree@.len() as int) =~= Seq::<TreeNodeView>::empty());
    }
    Option::None
}

/// Expand one node of a persisted tree: the one-level children of the
/// directory whose path is `target_path`, or an empty listing when the
/// path names no directory in the tree. A missing path is not an
/// error: there is simply nothing further to expand.
pub fn expand_parsed_folder(tree: &Vec<ParsedPath>, target_path: &str) -> (r: Vec<ParsedPath>)
    ensures
        match spec_find_children_seq(spec_tree_view_seq(tree@), target_path@) {
            Option::Some(found) => spec_tree_view_seq(r@) == found,
            Option::None => r@.len() == 0,
        },
        !spec_seq_has_path(spec_tree_view_seq(tree@), target_path@) ==> r@.len() == 0,
{
    proof {
        if !spec_seq_has_path(spec_tree_view_seq(tree@), target_path@) {
            lemma_find_absent_path_seq(spec_tree_view_seq(tree@), target_path@);
        }
        lemma_tree_view_seq(tree@);
    }
    match find_children_in_tree(tree, target_path) {
        Option::Some(children) => children,
        Option::None => Vec::new(),
    }
}

/// The one-level preview of a persisted tree: every root reduced to
/// its summary node.
pub fn get_parsed_preview_tree(tree: &Vec<ParsedPath>) -> (r: Vec<ParsedPath>)
    ensures
        spec_tree_view_seq(r@) == spec_shallow_view_seq(spec_tree_view_seq(tree@)),
{
    shallow_copies(tree)
}

/// List one live directory for interactive browsing: its valid
/// children as shallow summary nodes, directories first and then by
/// path. Anything that is not a directory has nothing to list.
pub fn expand_folder(dir: &FsNode) -> (r: Vec<ParsedPath>)
    requires
        spec_rec_size(*dir) <= u64::MAX,
    ensures
        dir is Dir ==> spec_tree_view_seq(r@).to_multiset() == spec_shallow_children(
            dir->Dir_children@,
        ).to_multiset(),
        spec_sorted_nodes(spec_tree_view_seq(r@)),
        !(dir is Dir) ==> r@.len() == 0,
{
    match build_file_tree_shallow(dir) {
        ParsedPath::Directory { children, .. } => children,
        ParsedPath::File { .. } => Vec::new(),
    }
}

/// The interactive preview of a set of root paths: the one-level
/// listing of each root, in the order given.
#[verifier::loop_isolation(false)]
pub fn get_preview_tree(roots: &Vec<FsNode>) -> (r: Vec<ParsedPath>)
    requires
        forall|i: int| 0 <= i < roots@.len() ==> spec_rec_size(roots@[i]) <= u64::MAX,
    ensures
        r@.len() == roots@.len(),
        forall|i: int|
            0 <= i < roots@.len() ==> spec_is_shallow_listing(
                roots@[i],
                spec_tree_view_seq(r@)[i],
            ),
{
    let mut r: Vec<ParsedPath> = Vec::new();
    let mut i: usize = 0;
    proof {
        lemma_tree_view_seq(r@);
    }
    while i < roots.len()
        invariant
            0 <= i <= roots@.len(),
            r@.len() == i,
            spec_tree_view_seq(r@).len() == i,
            forall|j: int|
                0 <= j < i ==> spec_is_shallow_listing(roots@[j], spec_tree_view_seq(r@)[j]),
        decreases roots@.len() - i,
    {
        let t = build_file_tree_shallow(&roots[i]);
        proof {
            lemma_tree_view_seq_push(r@, t);
        }
        r.push(t);
        i = i + 1;
        proof {
            lemma_tree_view_seq(r@);
        }
    }
    r
}

} // verus!
