//! Rendering file sections of the concatenated document: a delimiter
//! line carrying the file's path, the file's text unchanged, and one
//! trailing blank line.
use vstd::prelude::*;

verus! {

/// One file actually written into the concatenated document.
pub struct FileMetadata {
    pub path: String,
    pub name: String,
    pub size: u64,
}

/// The mathematical shape of a written-file record.
pub struct FileRecordView {
    pub path: Seq<char>,
    pub name: Seq<char>,
    pub size: nat,
}

impl View for FileMetadata {
    type V = FileRecordView;

    open spec fn view(&self) -> FileRecordView {
        FileRecordView { path: self.path@, name: self.name@, size: self.size as nat }
    }
}

/// The delimiter line announcing one file: its path between marker
/// fences, closed by a newline.
pub open spec fn spec_delimiter_line(path: Seq<char>) -> Seq<char> {
    "===== "@ + path + " ====="@ + seq!['\n']
}

/// One file's section of the concatenated document: the delimiter
/// line, the file's text unchanged, and a trailing blank line.
pub open spec fn spec_file_section(path: Seq<char>, text: Seq<char>) -> Seq<char> {
    spec_delimiter_line(path) + text + seq!['\n']
}

/// Render one file's section of the concatenated document.
pub fn render_file_section(path: &str, text: &str) -> (r: String)
    ensures
        r@ == spec_file_section(path@, text@),
{
    let mut r = String::new();
    r.append("===== ");
    r.append(path);
    r.append(" =====");
    crate::strutil::push_char(&mut r, '\n');
    r.append(text);
    crate::strutil::push_char(&mut r, '\n');
    proof {
        assert(r@ =~= spec_file_section(path@, text@));
    }
    r
}

} // verus!
