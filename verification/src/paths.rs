//! Where a session's artifacts live: one directory per session under
//! the storage root, holding the concatenated document, the tree file
//! and the metadata file. The storage root itself is resolved by the
//! surrounding program and handed in as a plain string.
use vstd::prelude::*;

verus! {

/// What the surrounding program is asked to do with a produced
/// artifact: open the file itself with the default application, or
/// reveal it in the platform's file manager. Performing either is OS
/// shell work and stays outside the library.
pub enum OpenAction {
    OpenFile(String),
    RevealInFolder(String),
}

/// The directory of one session under the application directory.
pub open spec fn spec_parse_dir(app_dir: Seq<char>, dir_name: Seq<char>) -> Seq<char> {
    app_dir + "/parsed-files/"@ + dir_name
}

/// The concatenated document inside a session directory.
pub open spec fn spec_content_path(parse_dir: Seq<char>) -> Seq<char> {
    parse_dir + "/content.txt"@
}

/// The metadata record inside a session directory.
pub open spec fn spec_metadata_path(parse_dir: Seq<char>) -> Seq<char> {
    parse_dir + "/metadata.json"@
}

/// The tree artifact inside a session directory.
pub open spec fn spec_tree_path(parse_dir: Seq<char>) -> Seq<char> {
    parse_dir + "/tree.json"@
}

/// The directory holding one session's artifacts.
pub fn get_parse_dir(app_dir: &str, dir_name: &str) -> (r: String)
    ensures
        r@ == spec_parse_dir(app_dir@, dir_name@),
{
    let mut r = String::new();
    r.append(app_dir);
    r.append("/parsed-files/");
    r.append(dir_name);
    proof {
        assert(r@ =~= spec_parse_dir(app_dir@, dir_name@));
    }
    r
}

/// The path of a session's concatenated document.
pub fn get_content_path(parse_dir: &str) -> (r: String)
    ensures
        r@ == spec_content_path(parse_dir@),
{
    let mut r = String::new();
    r.append(parse_dir);
    r.append("/content.txt");
    proof {
        assert(r@ =~= spec_content_path(parse_dir@));
    }
    r
}

/// The path of a session's metadata record.
pub fn get_metadata_path(parse_dir: &str) -> (r: String)
    ensures
        r@ == spec_metadata_path(parse_dir@),
{
    let mut r = String::new();
    r.append(parse_dir);
    r.append("/metadata.json");
    proof {
        assert(r@ =~= spec_metadata_path(parse_dir@));
    }
    r
}

/// The path of a session's tree artifact.
pub fn get_tree_path(parse_dir: &str) -> (r: String)
    ensures
        r@ == spec_tree_path(parse_dir@),
{
    let mut r = String::new();
    r.append(parse_dir);
    r.append("/tree.json");
    proof {
        assert(r@ =~= spec_tree_path(parse_dir@));
    }
    r
}

} // verus!
