//! In-memory snapshot of the scanned part of the filesystem.
//!
//! The surrounding program reads directories and file contents and hands
//! the library one `FsNode` per root path. Symlinks are represented but
//! never descended into: traversal excludes them categorically instead of
//! detecting cycles, so the node graph is always a finite tree.
use vstd::prelude::*;

verus! {

/// One filesystem entry as captured at scan time.
///
/// For a file, `sample` holds the bytes read from the start of the file
/// for content sniffing (`None` when that read failed), and `text` holds
/// the full contents decoded as UTF-8 (`None` when the read failed or the
/// bytes were not valid UTF-8).
pub enum FsNode {
    File {
        name: String,
        path: String,
        symlink: bool,
        size: u64,
        sample: Option<Vec<u8>>,
        text: Option<String>,
    },
    Dir {
        name: String,
        path: String,
        symlink: bool,
        children: Vec<FsNode>,
    },
}

impl FsNode {
    pub open spec fn spec_name(&self) -> Seq<char> {
        match self {
            FsNode::File { name, .. } => name@,
            FsNode::Dir { name, .. } => name@,
        }
    }

    pub open spec fn spec_path(&self) -> Seq<char> {
        match self {
            FsNode::File { path, .. } => path@,
            FsNode::Dir { path, .. } => path@,
        }
    }

    pub open spec fn spec_symlink(&self) -> bool {
        match self {
            FsNode::File { symlink, .. } => *symlink,
            FsNode::Dir { symlink, .. } => *symlink,
        }
    }

    /// Total number of nodes in this subtree, the node itself included.
    pub open spec fn spec_node_count(&self) -> nat
        decreases self,
    {
        match self {
            FsNode::File { .. } => 1,
            FsNode::Dir { children, .. } => 1 + spec_node_count_seq(children@),
        }
    }
}

/// Total number of nodes over a sequence of subtrees.
pub open spec fn spec_node_count_seq(s: Seq<FsNode>) -> nat
    decreases s,
{
    if s.len() == 0 {
        0
    } else {
        spec_node_count_seq(s.drop_last()) + s.last().spec_node_count()
    }
}

/// A prefix of a sequence of subtrees never holds more nodes than the
/// whole sequence.
pub proof fn lemma_node_count_seq_take_le(s: Seq<FsNode>, i: int)
    requires
        0 <= i <= s.len(),
    ensures
        spec_node_count_seq(s.take(i)) <= spec_node_count_seq(s),
    decreases s.len() - i,
{
    if i == s.len() {
        assert(s.take(i) == s);
    } else {
        lemma_node_count_seq_take_le(s, i + 1);
        assert(s.take(i + 1).drop_last() == s.take(i));
        assert(s.take(i + 1).last() == s[i]);
    }
}

/// A name marks its entry as hidden when it starts with a dot.
pub open spec fn spec_hidden_name(name: Seq<char>) -> bool {
    name.len() > 0 && name[0] == '.'
}

/// An entry takes part in a scan only when it is neither a symlink nor
/// hidden; symlinks are excluded to rule out cycles.
pub open spec fn spec_valid_node(n: &FsNode) -> bool {
    !n.spec_symlink() && !spec_hidden_name(n.spec_name())
}

impl FsNode {
    pub fn name(&self) -> (r: &String)
        ensures
            r@ == self.spec_name(),
    {
        match self {
            FsNode::File { name, .. } => name,
            FsNode::Dir { name, .. } => name,
        }
    }

    pub fn path(&self) -> (r: &String)
        ensures
            r@ == self.spec_path(),
    {
        match self {
            FsNode::File { path, .. } => path,
            FsNode::Dir { path, .. } => path,
        }
    }

    pub fn is_dir(&self) -> (r: bool)
        ensures
            r == (self is Dir),
    {
        match self {
            FsNode::Dir { .. } => true,
            FsNode::File { .. } => false,
        }
    }
}

/// Whether a captured entry is taken into account by the scan: it must be
/// neither a symlink nor hidden (its name must not start with a dot).
pub fn is_valid_path(node: &FsNode) -> (r: bool)
    ensures
        r == spec_valid_node(node),
{
    let name = node.name();
    let symlink = match node {
        FsNode::File { symlink, .. } => *symlink,
        FsNode::Dir { symlink, .. } => *symlink,
    };
    if symlink {
        return false;
    }
    let hidden = name.as_str().unicode_len() > 0 && name.as_str().get_char(0) == '.';
    !hidden
}

} // verus!
