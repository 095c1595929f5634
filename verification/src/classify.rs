//! Deciding, for a single snapshot entry, whether it is eligible for
//! inclusion in the concatenated document.
//!
//! A file is eligible when it is a regular, non-symlink, non-hidden file
//! whose sampled content is not flagged as binary. Directories are never
//! content-classified; they are only eligible to descend into. The binary
//! heuristic itself is the one of the `content_inspector` crate, called
//! through a trusted wrapper whose contract restates what that crate's
//! source does.
use vstd::prelude::*;

use crate::fs_model::{
    is_valid_path, lemma_node_count_seq_take_le, spec_hidden_name, spec_node_count_seq,
    spec_valid_node, FsNode,
};

verus! {

/// Why an entry was left out of the scan.
#[derive(PartialEq, Eq, Structural, Clone, Copy, Debug)]
pub enum ExcludeReason {
    /// The entry is a symlink; symlinks are never followed.
    Symlink,
    /// The entry's name starts with a dot.
    Hidden,
    /// The sampling read of the file failed.
    Unreadable,
    /// The sampled content was flagged as binary.
    Binary,
}

/// The classifier's verdict for one snapshot entry.
#[derive(PartialEq, Eq, Structural, Clone, Copy, Debug)]
pub enum Classification {
    Eligible,
    Excluded(ExcludeReason),
}

/// `b` starts with `prefix`.
pub open spec fn spec_starts_with_bytes(b: Seq<u8>, prefix: Seq<u8>) -> bool {
    b.len() >= prefix.len() && b.subrange(0, prefix.len() as int) == prefix
}

/// The sample starts with one of the byte-order marks that
/// `content_inspector` recognises as marking encoded text.
pub open spec fn spec_has_bom(b: Seq<u8>) -> bool {
    ||| spec_starts_with_bytes(b, seq![0xEFu8, 0xBBu8, 0xBFu8])
    ||| spec_starts_with_bytes(b, seq![0x00u8, 0x00u8, 0xFEu8, 0xFFu8])
    ||| spec_starts_with_bytes(b, seq![0xFFu8, 0xFEu8, 0x00u8, 0x00u8])
    ||| spec_starts_with_bytes(b, seq![0xFEu8, 0xFFu8])
    ||| spec_starts_with_bytes(b, seq![0xFFu8, 0xFEu8])
}

/// A zero byte occurs among the first 1024 bytes of the sample.
pub open spec fn spec_has_zero_in_scan(b: Seq<u8>) -> bool {
    exists|i: int| 0 <= i < b.len() && i < 1024 && b[i] == 0u8
}

/// The sample starts with the magic number of a PDF or PNG file.
pub open spec fn spec_has_magic_number(b: Seq<u8>) -> bool {
    ||| spec_starts_with_bytes(b, seq![0x25u8, 0x50u8, 0x44u8, 0x46u8])
    ||| spec_starts_with_bytes(b, seq![0x89u8, 0x50u8, 0x4Eu8, 0x47u8])
}

/// The binary-content heuristic of `content_inspector::inspect`: content
/// is binary when no recognised byte-order mark opens it and either a
/// zero byte occurs in the first 1024 bytes or a PDF/PNG magic number
/// opens it.
pub open spec fn spec_content_is_binary(b: Seq<u8>) -> bool {
    !spec_has_bom(b) && (spec_has_zero_in_scan(b) || spec_has_magic_number(b))
}

/// Relies on `content_inspector::inspect`: it reports `BINARY` exactly
/// when the buffer has no recognised byte-order mark as a prefix and
/// either a zero byte occurs in its first 1024 bytes or it starts with a
/// PDF or PNG magic number; the result depends on the buffer alone.
#[verifier::external_body]
fn inspect_is_binary(sample: &[u8]) -> (r: bool)
    ensures
        r == spec_content_is_binary(sample@),
{
    matches!(content_inspector::inspect(sample), content_inspector::ContentType::BINARY)
}

/// The classifier's verdict on one entry, as a function of the snapshot
/// value alone: classifying the same entry twice gives the same result.
pub open spec fn spec_classify(n: &FsNode) -> Classification {
    if n.spec_symlink() {
        Classification::Excluded(ExcludeReason::Symlink)
    } else if spec_hidden_name(n.spec_name()) {
        Classification::Excluded(ExcludeReason::Hidden)
    } else {
        match n {
            FsNode::Dir { .. } => Classification::Eligible,
            FsNode::File { sample, .. } => match sample {
                Option::None => Classification::Excluded(ExcludeReason::Unreadable),
                Option::Some(bytes) => if bytes@.len() == 0 {
                    Classification::Eligible
                } else if spec_content_is_binary(bytes@) {
                    Classification::Excluded(ExcludeReason::Binary)
                } else {
                    Classification::Eligible
                },
            },
        }
    }
}

/// An entry is an eligible text file when it is a regular file that the
/// classifier admits.
pub open spec fn spec_is_text_file(n: &FsNode) -> bool {
    &&& n is File
    &&& spec_classify(n) == Classification::Eligible
}

/// Classify one snapshot entry. Rejects symlinks and hidden names, admits
/// directories for descent, and sniffs a file's sampled content; an empty
/// sample counts as valid empty text.
pub fn classify(n: &FsNode) -> (r: Classification)
    ensures
        r == spec_classify(n),
{
    let symlink = match n {
        FsNode::File { symlink, .. } => *symlink,
        FsNode::Dir { symlink, .. } => *symlink,
    };
    if symlink {
        return Classification::Excluded(ExcludeReason::Symlink);
    }
    let name = n.name();
    if name.as_str().unicode_len() > 0 && name.as_str().get_char(0) == '.' {
        return Classification::Excluded(ExcludeReason::Hidden);
    }
    match n {
        FsNode::Dir { .. } => Classification::Eligible,
        FsNode::File { sample, .. } => match sample {
            Option::None => Classification::Excluded(ExcludeReason::Unreadable),
            Option::Some(bytes) => {
                if bytes.len() == 0 {
                    Classification::Eligible
                } else if inspect_is_binary(bytes.as_slice()) {
                    Classification::Excluded(ExcludeReason::Binary)
                } else {
                    Classification::Eligible
                }
            },
        },
    }
}

/// Whether this entry is a regular file whose sampled content classifies
/// as text (an empty sample counts as text).
pub fn is_text_file(n: &FsNode) -> (r: bool)
    ensures
        r == spec_is_text_file(n),
{
    if !n.is_dir() {
        let c = classify(n);
        c == Classification::Eligible
    } else {
        false
    }
}

/// Classification is deterministic: the verdict is a function of the
/// entry's captured state alone, so classifying the same unmodified
/// entry twice yields the same result. (The executable `classify`
/// returns exactly `spec_classify`, so two calls on equal entries
/// return equal verdicts.)
pub proof fn lemma_classify_deterministic(a: &FsNode, b: &FsNode)
    requires
        a == b,
    ensures
        spec_classify(a) == spec_classify(b),
{
}

/// Number of eligible text files in one subtree: a valid directory
/// contributes its children's counts, an eligible file contributes one,
/// and everything below an invalid entry is out of reach of the scan.
pub open spec fn spec_text_file_count(n: &FsNode) -> nat
    decreases n,
{
    match n {
        FsNode::File { .. } => if spec_is_text_file(n) {
            1nat
        } else {
            0nat
        },
        FsNode::Dir { children, .. } => if spec_valid_node(n) {
            spec_text_file_count_seq(children@)
        } else {
            0nat
        },
    }
}

/// Number of eligible text files over a sequence of subtrees.
pub open spec fn spec_text_file_count_seq(s: Seq<FsNode>) -> nat
    decreases s,
{
    if s.len() == 0 {
        0nat
    } else {
        spec_text_file_count_seq(s.drop_last()) + spec_text_file_count(&s.last())
    }
}

/// A subtree never holds more eligible files than nodes.
pub proof fn lemma_text_file_count_le_nodes(n: &FsNode)
    ensures
        spec_text_file_count(n) <= n.spec_node_count(),
    decreases n,
{
    match n {
        FsNode::File { .. } => {},
        FsNode::Dir { children, .. } => {
            lemma_text_file_count_seq_le_nodes(children@);
        },
    }
}

/// A sequence of subtrees never holds more eligible files than nodes.
pub proof fn lemma_text_file_count_seq_le_nodes(s: Seq<FsNode>)
    ensures
        spec_text_file_count_seq(s) <= spec_node_count_seq(s),
    decreases s,
{
    if s.len() > 0 {
        lemma_text_file_count_seq_le_nodes(s.drop_last());
        lemma_text_file_count_le_nodes(&s.last());
    }
}

/// Count the eligible text files in one subtree, the denominator of the
/// progress protocol.
#[verifier::loop_isolation(false)]
pub fn count_text_files_in_dir(n: &FsNode) -> (r: usize)
    requires
        n.spec_node_count() <= usize::MAX,
    ensures
        r == spec_text_file_count(n),
    decreases n,
{
    match n {
        FsNode::File { .. } => {
            if is_text_file(n) {
                1
            } else {
                0
            }
        },
        FsNode::Dir { children, .. } => {
            if !is_valid_path(n) {
                return 0;
            }
            let mut acc: usize = 0;
            let mut i: usize = 0;
            proof {
                assert(children@.take(0) =~= Seq::<FsNode>::empty());
            }
            while i < children.len()
                invariant
                    0 <= i <= children@.len(),
                    spec_node_count_seq(children@) < usize::MAX,
                    acc == spec_text_file_count_seq(children@.take(i as int)),
                decreases children@.len() - i,
            {
                proof {
                    lemma_node_count_seq_take_le(children@, i + 1);
                    lemma_text_file_count_seq_le_nodes(children@.take(i + 1));
                    assert(children@.take(i + 1).drop_last() =~= children@.take(i as int));
                    assert(children@.take(i + 1).last() == children@[i as int]);
                    assert(children@[i as int].spec_node_count() <= spec_node_count_seq(
                        children@.take(i + 1),
                    ));
                    assert(decreases_to!(*n => n->Dir_children));
                    assert(decreases_to!(n->Dir_children => n->Dir_children@));
                    assert(decreases_to!(n->Dir_children@ => n->Dir_children@[i as int]));
                    assert(n->Dir_children == *children);
                    assert(decreases_to!(*n => children@[i as int]));
                }
                let c = count_text_files_in_dir(&children[i]);
                acc = acc + c;
                i = i + 1;
            }
            proof {
                assert(children@.take(children@.len() as int) =~= children@);
            }
            acc
        },
    }
}

/// Count the eligible text files across all supplied roots; invalid roots
/// contribute nothing, as the streaming pass will skip them too.
pub fn count_text_files(paths: &Vec<FsNode>) -> (r: usize)
    requires
        spec_node_count_seq(paths@) <= usize::MAX,
    ensures
        r == spec_text_file_count_seq(paths@),
{
    let mut acc: usize = 0;
    let mut i: usize = 0;
    proof {
        assert(paths@.take(0) =~= Seq::<FsNode>::empty());
    }
    while i < paths.len()
        invariant
            0 <= i <= paths@.len(),
            spec_node_count_seq(paths@) <= usize::MAX,
            acc == spec_text_file_count_seq(paths@.take(i as int)),
        decreases paths@.len() - i,
    {
        proof {
            lemma_node_count_seq_take_le(paths@, i + 1);
            lemma_text_file_count_seq_le_nodes(paths@.take(i + 1));
            assert(paths@.take(i + 1).drop_last() =~= paths@.take(i as int));
            assert(paths@.take(i + 1).last() == paths@[i as int]);
            assert(paths@[i as int].spec_node_count() <= spec_node_count_seq(
                paths@.take(i + 1),
            ));
        }
        let c = count_text_files_in_dir(&paths[i]);
        acc = acc + c;
        i = i + 1;
    }
    proof {
        assert(paths@.take(paths@.len() as int) =~= paths@);
    }
    acc
}

} // verus!
