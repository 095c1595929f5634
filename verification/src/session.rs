//! One scan session: identifier derivation, the metadata record with
//! its two sanctioned mutations, the streaming walk that drives the
//! assembler and the progress protocol, and the session's all-or-nothing
//! outcome.
use vstd::prelude::*;

use crate::assemble::{render_file_section, spec_file_section, FileMetadata, FileRecordView};
use crate::classify::{
    count_text_files, is_text_file, lemma_text_file_count_seq_le_nodes, spec_is_text_file,
    spec_text_file_count, spec_text_file_count_seq,
};
use crate::fs_model::{is_valid_path, spec_node_count_seq, spec_valid_node, FsNode};
use crate::paths::{get_content_path, get_parse_dir, spec_content_path, spec_parse_dir};
use crate::strutil::{
    is_alphanumeric_char, push_char, push_dec_padded, spec_dec_padded,
    spec_is_unicode_alphanumeric, spec_strip_all, starts_with,
};
use crate::tree::{
    build_file_tree, lemma_eager_children_wf, lemma_rec_size_seq_take_le,
    lemma_tree_view_seq_push, spec_eager_children, spec_rec_size, spec_rec_size_seq,
    spec_tree_view_seq, spec_tree_wf_seq, ParsedPath,
};

verus! {

/// A wall-clock instant as plain calendar fields, as the surrounding
/// program read it from its clock.
#[derive(Clone, Copy, PartialEq, Eq, Structural, Debug)]
pub struct Timestamp {
    pub year: u16,
    pub month: u8,
    pub day: u8,
    pub hour: u8,
    pub minute: u8,
    pub second: u8,
}

/// The textual form of a timestamp used inside session identifiers:
/// zero-padded calendar fields, date and time separated by an
/// underscore.
pub open spec fn spec_timestamp_str(ts: Timestamp) -> Seq<char> {
    spec_dec_padded(ts.year as nat, 4) + seq!['-'] + spec_dec_padded(ts.month as nat, 2)
        + seq!['-'] + spec_dec_padded(ts.day as nat, 2) + seq!['_'] + spec_dec_padded(
        ts.hour as nat,
        2,
    ) + seq!['-'] + spec_dec_padded(ts.minute as nat, 2) + seq!['-'] + spec_dec_padded(
        ts.second as nat,
        2,
    )
}

/// Render a timestamp in the identifier form.
pub fn format_timestamp(ts: &Timestamp) -> (r: String)
    ensures
        r@ == spec_timestamp_str(*ts),
{
    let mut r = String::new();
    push_dec_padded(&mut r, ts.year as u64, 4);
    push_char(&mut r, '-');
    push_dec_padded(&mut r, ts.month as u64, 2);
    push_char(&mut r, '-');
    push_dec_padded(&mut r, ts.day as u64, 2);
    push_char(&mut r, '_');
    push_dec_padded(&mut r, ts.hour as u64, 2);
    push_char(&mut r, '-');
    push_dec_padded(&mut r, ts.minute as u64, 2);
    push_char(&mut r, '-');
    push_dec_padded(&mut r, ts.second as u64, 2);
    proof {
        assert(r@ =~= spec_timestamp_str(*ts));
    }
    r
}

/// One character of a remote-origin string after sanitizing: Unicode
/// letters and numbers, hyphens and underscores pass, everything else
/// becomes an underscore.
pub open spec fn spec_sanitize_char(c: char) -> char {
    if spec_is_unicode_alphanumeric(c) || c == '-' || c == '_' {
        c
    } else {
        '_'
    }
}

/// A remote-origin string reduced to a safe identifier slug: scheme
/// prefixes stripped, every other character sanitized, and the result
/// cut to at most eighty characters.
pub open spec fn spec_sanitize_repo_url(s: Seq<char>) -> Seq<char> {
    let stripped = spec_strip_all(spec_strip_all(s, "https://"@), "http://"@);
    let mapped = stripped.map_values(|c: char| spec_sanitize_char(c));
    if mapped.len() <= 80 {
        mapped
    } else {
        mapped.take(80)
    }
}

/// Reduce a remote-origin string to a safe identifier slug.
pub fn sanitize_repo_url(input: &str) -> (r: String)
    ensures
        r@ == spec_sanitize_repo_url(input@),
{
    let mut rest: &str = input;
    while starts_with(rest, "https://")
        invariant
            spec_strip_all(rest@, "https://"@) == spec_strip_all(input@, "https://"@),
        decreases rest@.len(),
    {
        proof {
            reveal_strlit("https://");
        }
        let len = rest.unicode_len();
        rest = rest.substring_char(8, len);
    }
    proof {
        reveal_strlit("https://");
        assert(rest@ == spec_strip_all(input@, "https://"@));
    }
    let ghost after_https: Seq<char> = rest@;
    while starts_with(rest, "http://")
        invariant
            spec_strip_all(rest@, "http://"@) == spec_strip_all(after_https, "http://"@),
        decreases rest@.len(),
    {
        proof {
            reveal_strlit("http://");
        }
        let len = rest.unicode_len();
        rest = rest.substring_char(7, len);
    }
    proof {
        reveal_strlit("http://");
        assert(rest@ == spec_strip_all(after_https, "http://"@));
    }
    let ghost stripped: Seq<char> = rest@;
    let ghost mapped: Seq<char> = stripped.map_values(|c: char| spec_sanitize_char(c));
    let len = rest.unicode_len();
    let mut r = String::new();
    let mut i: usize = 0;
    proof {
        assert(r@ =~= mapped.take(0));
    }
    while i < len && i < 80
        invariant
            0 <= i <= len,
            i <= 80,
            len == rest@.len(),
            rest@ == stripped,
            mapped == stripped.map_values(|c: char| spec_sanitize_char(c)),
            r@ == mapped.take(i as int),
        decreases len - i,
    {
        let c = rest.get_char(i);
        let mapped_c = if is_alphanumeric_char(c) || c == '-' || c == '_' {
            c
        } else {
            '_'
        };
        push_char(&mut r, mapped_c);
        proof {
            assert(mapped[i as int] == spec_sanitize_char(stripped[i as int]));
            assert(r@ =~= mapped.take(i + 1));
        }
        i = i + 1;
    }
    proof {
        if len <= 80 {
            assert(mapped.take(len as int) =~= mapped);
        }
    }
    r
}

/// The identifier of a session: the timestamp alone for a local scan,
/// or the sanitized remote-origin slug, an underscore and the
/// timestamp for a scan of a cloned repository.
pub open spec fn spec_parse_id(remote_url: Seq<char>, now: Timestamp) -> Seq<char> {
    if remote_url.len() == 0 {
        spec_timestamp_str(now)
    } else {
        spec_sanitize_repo_url(remote_url) + seq!['_'] + spec_timestamp_str(now)
    }
}

/// Derive a fresh session identifier from the remote origin (empty for
/// a local scan) and the current wall-clock time.
pub fn derive_parse_id(remote_url: &str, now: &Timestamp) -> (r: String)
    ensures
        r@ == spec_parse_id(remote_url@, *now),
{
    let ts = format_timestamp(now);
    if remote_url.unicode_len() == 0 {
        ts
    } else {
        let mut r = sanitize_repo_url(remote_url);
        push_char(&mut r, '_');
        r.append(ts.as_str());
        proof {
            assert(r@ =~= spec_parse_id(remote_url@, *now));
        }
        r
    }
}

/// The persisted record describing one completed scan session.
pub struct ParseMetadata {
    pub id: String,
    pub name: String,
    pub path: String,
    pub created_at: Timestamp,
    pub updated_at: Timestamp,
    pub files_count: usize,
    pub total_size: u64,
    pub remote_url: String,
}

impl ParseMetadata {
    /// The record with a new display name and nothing else changed:
    /// renaming never touches the identifier, counts, sizes or
    /// timestamps.
    pub fn with_name(&self, new_name: String) -> (r: ParseMetadata)
        ensures
            r.name == new_name,
            r.id == self.id,
            r.path == self.path,
            r.created_at == self.created_at,
            r.updated_at == self.updated_at,
            r.files_count == self.files_count,
            r.total_size == self.total_size,
            r.remote_url == self.remote_url,
    {
        ParseMetadata {
            id: self.id.clone(),
            name: new_name,
            path: self.path.clone(),
            created_at: self.created_at,
            updated_at: self.updated_at,
            files_count: self.files_count,
            total_size: self.total_size,
            remote_url: self.remote_url.clone(),
        }
    }

    /// The record with a refreshed last-update timestamp and nothing
    /// else changed, for a content edit.
    pub fn with_updated_at(&self, now: Timestamp) -> (r: ParseMetadata)
        ensures
            r.updated_at == now,
            r.id == self.id,
            r.name == self.name,
            r.path == self.path,
            r.created_at == self.created_at,
            r.files_count == self.files_count,
            r.total_size == self.total_size,
            r.remote_url == self.remote_url,
    {
        ParseMetadata {
            id: self.id.clone(),
            name: self.name.clone(),
            path: self.path.clone(),
            created_at: self.created_at,
            updated_at: now,
            files_count: self.files_count,
            total_size: self.total_size,
            remote_url: self.remote_url.clone(),
        }
    }
}

/// One message of the progress protocol: how many files have been
/// written so far out of how many eligible ones, and, only on the
/// terminal message, where the finished document lies.
pub struct ProgressReport {
    pub parse_id: String,
    pub done: usize,
    pub total: usize,
    pub result_path: Option<String>,
}

/// The mathematical shape of a progress message.
pub struct ReportView {
    pub parse_id: Seq<char>,
    pub done: nat,
    pub total: nat,
    pub result_path: Option<Seq<char>>,
}

impl View for ProgressReport {
    type V = ReportView;

    open spec fn view(&self) -> ReportView {
        ReportView {
            parse_id: self.parse_id@,
            done: self.done as nat,
            total: self.total as nat,
            result_path: match self.result_path {
                Option::Some(ref p) => Option::Some(p@),
                Option::None => Option::None,
            },
        }
    }
}

/// One eligible text file as the streaming pass reaches it: its path,
/// name and on-disk size, and its text where the full read succeeded.
pub struct StreamItem {
    pub path: Seq<char>,
    pub name: Seq<char>,
    pub size: nat,
    pub text: Option<Seq<char>>,
}

/// The eligible text files of one snapshot subtree, in the depth-first
/// order in which the streaming pass reaches them. Symlinks, hidden
/// entries and everything below them are out of reach.
pub open spec fn spec_stream_seq(n: FsNode) -> Seq<StreamItem>
    decreases n,
{
    match n {
        FsNode::File { name, path, size, text, .. } => if spec_is_text_file(&n) {
            seq![
                StreamItem {
                    path: path@,
                    name: name@,
                    size: size as nat,
                    text: match text {
                        Option::Some(t) => Option::Some(t@),
                        Option::None => Option::None,
                    },
                },
            ]
        } else {
            Seq::empty()
        },
        FsNode::Dir { children, .. } => if spec_valid_node(&n) {
            spec_stream_children(children@)
        } else {
            Seq::empty()
        },
    }
}

/// The eligible text files over a sequence of subtrees.
pub open spec fn spec_stream_children(s: Seq<FsNode>) -> Seq<StreamItem>
    decreases s,
{
    if s.len() == 0 {
        Seq::empty()
    } else {
        spec_stream_children(s.drop_last()) + spec_stream_seq(s.last())
    }
}

/// The streaming pass reaches exactly as many files as the eligible
/// pre-count promises: the progress denominator is exact.
pub proof fn lemma_stream_len_is_count(n: FsNode)
    ensures
        spec_stream_seq(n).len() == spec_text_file_count(&n),
    decreases n,
{
    match n {
        FsNode::File { .. } => {},
        FsNode::Dir { children, .. } => {
            if spec_valid_node(&n) {
                lemma_stream_children_len_is_count(children@);
            }
        },
    }
}

/// The same over a sequence of subtrees.
pub proof fn lemma_stream_children_len_is_count(s: Seq<FsNode>)
    ensures
        spec_stream_children(s).len() == spec_text_file_count_seq(s),
    decreases s,
{
    if s.len() > 0 {
        lemma_stream_children_len_is_count(s.drop_last());
        lemma_stream_len_is_count(s.last());
    }
}

/// Summed sizes of a sequence of stream items.
pub open spec fn spec_items_size_sum(items: Seq<StreamItem>) -> nat
    decreases items,
{
    if items.len() == 0 {
        0nat
    } else {
        spec_items_size_sum(items.drop_last()) + items.last().size
    }
}

/// Size sums split over concatenation.
pub proof fn lemma_items_size_sum_concat(a: Seq<StreamItem>, b: Seq<StreamItem>)
    ensures
        spec_items_size_sum(a + b) == spec_items_size_sum(a) + spec_items_size_sum(b),
    decreases b,
{
    if b.len() == 0 {
        assert(a + b =~= a);
    } else {
        lemma_items_size_sum_concat(a, b.drop_last());
        assert((a + b).drop_last() =~= a + b.drop_last());
        assert((a + b).last() == b.last());
    }
}

/// The streamed files never weigh more than the recursive size of the
/// subtree they come from.
pub proof fn lemma_stream_size_le_rec(n: FsNode)
    ensures
        spec_items_size_sum(spec_stream_seq(n)) <= spec_rec_size(n),
    decreases n,
{
    match n {
        FsNode::File { .. } => {
            if spec_is_text_file(&n) {
                assert(spec_items_size_sum(Seq::<StreamItem>::empty()) == 0);
                assert(spec_stream_seq(n).drop_last() =~= Seq::<StreamItem>::empty());
                assert(spec_stream_seq(n).last() == spec_stream_seq(n)[0]);
            }
        },
        FsNode::Dir { children, .. } => {
            if spec_valid_node(&n) {
                lemma_stream_children_size_le_rec(children@);
            }
        },
    }
}

/// The same over a sequence of subtrees.
pub proof fn lemma_stream_children_size_le_rec(s: Seq<FsNode>)
    ensures
        spec_items_size_sum(spec_stream_children(s)) <= spec_rec_size_seq(s),
    decreases s,
{
    if s.len() > 0 {
        lemma_stream_children_size_le_rec(s.drop_last());
        lemma_stream_size_le_rec(s.last());
        lemma_items_size_sum_concat(
            spec_stream_children(s.drop_last()),
            spec_stream_seq(s.last()),
        );
        if !spec_valid_node(&s.last()) {
            lemma_stream_of_invalid_is_empty(s.last());
        }
    }
}

/// An invalid entry streams nothing.
pub proof fn lemma_stream_of_invalid_is_empty(n: FsNode)
    requires
        !spec_valid_node(&n),
    ensures
        spec_stream_seq(n).len() == 0,
{
}

/// The running state of one session's streaming pass: the document
/// assembled so far, the records and totals of the files written, the
/// progress reports issued, and whether the sink has failed.
pub struct StreamStateView {
    pub document: Seq<char>,
    pub records: Seq<FileRecordView>,
    pub total_size: nat,
    pub done: nat,
    pub reports: Seq<ReportView>,
    pub failed: bool,
}

/// The state of a session that has written nothing yet.
pub open spec fn spec_initial_state() -> StreamStateView {
    StreamStateView {
        document: Seq::empty(),
        records: Seq::empty(),
        total_size: 0,
        done: 0,
        reports: Seq::empty(),
        failed: false,
    }
}

/// The sink budget: how many section writes the output sink accepts
/// before failing, or no bound at all.
pub open spec fn spec_sink_budget(fail_after: Option<usize>) -> Option<int> {
    match fail_after {
        Option::Some(f) => Option::Some(f as int),
        Option::None => Option::None,
    }
}

/// One streaming step. A file whose full read failed is skipped
/// silently. Otherwise one section write is attempted: if the sink's
/// budget is exhausted the session fails; else the section joins the
/// document, the record and size totals grow, and one progress report
/// is issued.
pub open spec fn spec_step(
    st: StreamStateView,
    it: StreamItem,
    id: Seq<char>,
    total: nat,
    sink: Option<int>,
) -> StreamStateView {
    match it.text {
        Option::None => st,
        Option::Some(text) => {
            let fail_now = match sink {
                Option::Some(f) => st.done == f,
                Option::None => false,
            };
            if fail_now {
                StreamStateView {
                    document: st.document,
                    records: st.records,
                    total_size: st.total_size,
                    done: st.done,
                    reports: st.reports,
                    failed: true,
                }
            } else {
                StreamStateView {
                    document: st.document + spec_file_section(it.path, text),
                    records: st.records.push(
                        FileRecordView { path: it.path, name: it.name, size: it.size },
                    ),
                    total_size: st.total_size + it.size,
                    done: st.done + 1,
                    reports: st.reports.push(
                        ReportView {
                            parse_id: id,
                            done: st.done + 1,
                            total,
                            result_path: Option::None,
                        },
                    ),
                    failed: false,
                }
            }
        },
    }
}

/// The streaming pass over a sequence of reached files: steps are
/// taken in order, and a failed sink stops the walk.
pub open spec fn spec_run(
    st: StreamStateView,
    items: Seq<StreamItem>,
    id: Seq<char>,
    total: nat,
    sink: Option<int>,
) -> StreamStateView
    decreases items.len(),
{
    if st.failed || items.len() == 0 {
        st
    } else {
        spec_run(spec_step(st, items[0], id, total, sink), items.drop_first(), id, total, sink)
    }
}

/// Streaming a concatenation is streaming the parts in turn.
pub proof fn lemma_run_concat(
    st: StreamStateView,
    a: Seq<StreamItem>,
    b: Seq<StreamItem>,
    id: Seq<char>,
    total: nat,
    sink: Option<int>,
)
    ensures
        spec_run(st, a + b, id, total, sink) == spec_run(
            spec_run(st, a, id, total, sink),
            b,
            id,
            total,
            sink,
        ),
    decreases a.len(),
{
    if st.failed {
        lemma_run_of_failed(spec_run(st, a, id, total, sink), b, id, total, sink);
    } else if a.len() == 0 {
        assert(a + b =~= b);
    } else {
        assert((a + b)[0] == a[0]);
        assert((a + b).drop_first() =~= a.drop_first() + b);
        lemma_run_concat(spec_step(st, a[0], id, total, sink), a.drop_first(), b, id, total, sink);
    }
}

/// A failed state streams nothing further.
pub proof fn lemma_run_of_failed(
    st: StreamStateView,
    items: Seq<StreamItem>,
    id: Seq<char>,
    total: nat,
    sink: Option<int>,
)
    requires
        st.failed,
    ensures
        spec_run(st, items, id, total, sink) == st,
{
}

/// Bounds of one streaming pass: each reached file raises `done` by at
/// most one and the byte total by at most its size, and the walk keeps
/// the record and report counts locked to `done`.
pub proof fn lemma_run_bounds(
    st: StreamStateView,
    items: Seq<StreamItem>,
    id: Seq<char>,
    total: nat,
    sink: Option<int>,
)
    ensures
        spec_run(st, items, id, total, sink).done <= st.done + items.len(),
        spec_run(st, items, id, total, sink).total_size <= st.total_size + spec_items_size_sum(
            items,
        ),
        st.done <= spec_run(st, items, id, total, sink).done,
    decreases items.len(),
{
    if !st.failed && items.len() > 0 {
        lemma_run_bounds(
            spec_step(st, items[0], id, total, sink),
            items.drop_first(),
            id,
            total,
            sink,
        );
        lemma_items_size_sum_first(items);
    }
}

/// Splitting the first item off a size sum.
pub proof fn lemma_items_size_sum_first(items: Seq<StreamItem>)
    requires
        items.len() > 0,
    ensures
        spec_items_size_sum(items) == items[0].size + spec_items_size_sum(items.drop_first()),
{
    assert(items =~= seq![items[0]] + items.drop_first());
    lemma_items_size_sum_concat(seq![items[0]], items.drop_first());
    assert(spec_items_size_sum(seq![items[0]]) == items[0].size) by {
        assert(spec_items_size_sum(Seq::<StreamItem>::empty()) == 0);
        assert(seq![items[0]].drop_last() =~= Seq::<StreamItem>::empty());
        assert(seq![items[0]].last() == items[0]);
    }
}

/// The streamed files of a sequence of subtrees split at any point.
pub proof fn lemma_stream_children_split(s: Seq<FsNode>, i: int)
    requires
        0 <= i <= s.len(),
    ensures
        spec_stream_children(s) == spec_stream_children(s.take(i)) + spec_stream_children(
            s.skip(i),
        ),
    decreases s.len(),
{
    if i == s.len() {
        assert(s.take(i) =~= s);
        assert(spec_stream_children(s.skip(i)).len() == 0) by {
            assert(s.skip(i) =~= Seq::<FsNode>::empty());
        }
        assert(spec_stream_children(s.take(i)) + spec_stream_children(s.skip(i))
            =~= spec_stream_children(s));
    } else {
        lemma_stream_children_split(s.drop_last(), i);
        assert(s.drop_last().take(i) =~= s.take(i));
        assert(s.skip(i).drop_last() =~= s.drop_last().skip(i));
        assert(s.skip(i).last() == s.last());
        assert(spec_stream_children(s.take(i)) + (spec_stream_children(s.drop_last().skip(i))
            + spec_stream_seq(s.last())) =~= (spec_stream_children(s.take(i))
            + spec_stream_children(s.drop_last().skip(i))) + spec_stream_seq(s.last()));
    }
}

/// The files a run actually writes: the reached files whose full read
/// succeeded, in order.
pub open spec fn spec_written(items: Seq<StreamItem>) -> Seq<StreamItem>
    decreases items,
{
    if items.len() == 0 {
        Seq::empty()
    } else if items.last().text is Some {
        spec_written(items.drop_last()).push(items.last())
    } else {
        spec_written(items.drop_last())
    }
}

/// Every written file carries its text.
pub proof fn lemma_written_all_read(items: Seq<StreamItem>)
    ensures
        forall|k: int| 0 <= k < spec_written(items).len() ==> spec_written(items)[k].text is Some,
        spec_written(items).len() <= items.len(),
    decreases items,
{
    if items.len() > 0 {
        lemma_written_all_read(items.drop_last());
    }
}

/// The whole concatenated document of a sequence of written files:
/// one section per file, in order.
pub open spec fn spec_document_of(ws: Seq<StreamItem>) -> Seq<char>
    decreases ws,
{
    if ws.len() == 0 {
        Seq::empty()
    } else {
        spec_document_of(ws.drop_last()) + spec_file_section(
            ws.last().path,
            ws.last().text.unwrap(),
        )
    }
}

/// The record of one written file.
pub open spec fn spec_record_of(it: StreamItem) -> FileRecordView {
    FileRecordView { path: it.path, name: it.name, size: it.size }
}

/// What a streaming pass that never hits a sink failure produces, in
/// closed form: the document is the concatenation of one section per
/// written file, the records and byte total cover exactly the written
/// files, and the reports count them off one by one.
pub proof fn lemma_run_closed(
    st: StreamStateView,
    items: Seq<StreamItem>,
    id: Seq<char>,
    total: nat,
    sink: Option<int>,
)
    requires
        !st.failed,
        !spec_run(st, items, id, total, sink).failed,
    ensures
        ({
            let fin = spec_run(st, items, id, total, sink);
            let ws = spec_written(items);
            &&& fin.document == st.document + spec_document_of(ws)
            &&& fin.done == st.done + ws.len()
            &&& fin.records == st.records + ws.map_values(|it: StreamItem| spec_record_of(it))
            &&& fin.total_size == st.total_size + spec_items_size_sum(ws)
            &&& fin.reports == st.reports + Seq::new(
                ws.len(),
                |k: int|
                    ReportView {
                        parse_id: id,
                        done: (st.done + k + 1) as nat,
                        total,
                        result_path: Option::None,
                    },
            )
        }),
    decreases items.len(),
{
    let fin = spec_run(st, items, id, total, sink);
    if items.len() == 0 {
        let ws = spec_written(items);
        assert(st.document + spec_document_of(ws) =~= st.document);
        assert(st.records + ws.map_values(|it: StreamItem| spec_record_of(it)) =~= st.records);
        assert(st.reports + Seq::new(
            ws.len(),
            |k: int|
                ReportView {
                    parse_id: id,
                    done: (st.done + k + 1) as nat,
                    total,
                    result_path: Option::None,
                },
        ) =~= st.reports);
    } else {
        let dl = items.drop_last();
        let x = items.last();
        assert(items =~= dl + seq![x]);
        lemma_run_concat(st, dl, seq![x], id, total, sink);
        let mid = spec_run(st, dl, id, total, sink);
        if mid.failed {
            lemma_run_of_failed(mid, seq![x], id, total, sink);
            assert(false);
        }
        lemma_run_closed(st, dl, id, total, sink);
        assert(seq![x].drop_first() =~= Seq::<StreamItem>::empty());
        let stepped = spec_step(mid, x, id, total, sink);
        assert(spec_run(mid, seq![x], id, total, sink) == stepped) by {
            assert(seq![x][0] == x);
            assert(spec_run(stepped, seq![x].drop_first(), id, total, sink) == stepped);
        }
        let ws = spec_written(items);
        let wdl = spec_written(dl);
        if x.text is Some {
            assert(ws == wdl.push(x));
            assert(spec_document_of(ws) == spec_document_of(wdl) + spec_file_section(
                x.path,
                x.text.unwrap(),
            )) by {
                assert(ws.drop_last() =~= wdl);
                assert(ws.last() == x);
            }
            lemma_items_size_sum_concat(wdl, seq![x]);
            assert(wdl + seq![x] =~= ws);
            assert(spec_items_size_sum(seq![x]) == x.size) by {
                assert(spec_items_size_sum(Seq::<StreamItem>::empty()) == 0);
                assert(seq![x].drop_last() =~= Seq::<StreamItem>::empty());
                assert(seq![x].last() == x);
            }
            assert(fin.document =~= st.document + spec_document_of(ws));
            assert(fin.records =~= st.records + ws.map_values(
                |it: StreamItem| spec_record_of(it),
            )) by {
                assert(ws.map_values(|it: StreamItem| spec_record_of(it)) =~= wdl.map_values(
                    |it: StreamItem| spec_record_of(it),
                ).push(spec_record_of(x)));
            }
            assert(fin.reports =~= st.reports + Seq::new(
                ws.len(),
                |k: int|
                    ReportView {
                        parse_id: id,
                        done: (st.done + k + 1) as nat,
                        total,
                        result_path: Option::None,
                    },
            ));
        } else {
            assert(ws == wdl);
            assert(stepped == mid);
            assert(st.document + spec_document_of(ws) =~= fin.document);
            assert(st.records + ws.map_values(|it: StreamItem| spec_record_of(it))
                =~= fin.records);
            assert(st.reports + Seq::new(
                ws.len(),
                |k: int|
                    ReportView {
                        parse_id: id,
                        done: (st.done + k + 1) as nat,
                        total,
                        result_path: Option::None,
                    },
            ) =~= fin.reports);
        }
    }
}

/// A sink that never fails never ends a session early.
pub proof fn lemma_unbounded_sink_never_fails(
    st: StreamStateView,
    items: Seq<StreamItem>,
    id: Seq<char>,
    total: nat,
)
    requires
        !st.failed,
    ensures
        !spec_run(st, items, id, total, Option::None).failed,
    decreases items.len(),
{
    if items.len() > 0 {
        lemma_unbounded_sink_never_fails(
            spec_step(st, items[0], id, total, Option::None),
            items.drop_first(),
            id,
            total,
        );
    }
}

/// When a bounded sink ends a session: exactly when its budget falls
/// short of the number of files the pass would write. A session that
/// fails this way is the `Failed` outcome, which carries no metadata.
pub proof fn lemma_sink_failure(
    st: StreamStateView,
    items: Seq<StreamItem>,
    id: Seq<char>,
    total: nat,
    f: int,
)
    requires
        !st.failed,
    ensures
        spec_run(st, items, id, total, Option::Some(f)).failed <==> st.done <= f < st.done
            + spec_written(items).len(),
    decreases items.len(),
{
    let sink = Option::Some(f);
    if items.len() == 0 {
    } else {
        let dl = items.drop_last();
        let x = items.last();
        assert(items =~= dl + seq![x]);
        lemma_run_concat(st, dl, seq![x], id, total, sink);
        let mid = spec_run(st, dl, id, total, sink);
        lemma_sink_failure(st, dl, id, total, f);
        lemma_written_all_read(dl);
        if mid.failed {
            lemma_run_of_failed(mid, seq![x], id, total, sink);
            assert(spec_written(items).len() >= spec_written(dl).len());
        } else {
            lemma_run_closed(st, dl, id, total, sink);
            assert(seq![x].drop_first() =~= Seq::<StreamItem>::empty());
            let stepped = spec_step(mid, x, id, total, sink);
            assert(spec_run(mid, seq![x], id, total, sink) == stepped) by {
                assert(seq![x][0] == x);
                assert(spec_run(stepped, seq![x].drop_first(), id, total, sink) == stepped);
            }
            if x.text is Some {
                assert(spec_written(items).len() == spec_written(dl).len() + 1);
            } else {
                assert(spec_written(items).len() == spec_written(dl).len());
            }
        }
    }
}

/// The progress protocol of an untroubled session, from the start:
/// when every reached file's read succeeds and the sink holds, the
/// pass issues exactly one report per file, with `done` climbing one
/// by one from one to the file count.
pub proof fn lemma_session_reports(items: Seq<StreamItem>, id: Seq<char>, total: nat)
    requires
        forall|k: int| 0 <= k < items.len() ==> items[k].text is Some,
    ensures
        ({
            let fin = spec_run(spec_initial_state(), items, id, total, Option::None);
            &&& !fin.failed
            &&& fin.reports.len() == items.len()
            &&& forall|k: int|
                0 <= k < items.len() ==> fin.reports[k] == ReportView {
                    parse_id: id,
                    done: (k + 1) as nat,
                    total,
                    result_path: Option::None,
                }
            &&& fin.done == items.len()
        }),
{
    let st = spec_initial_state();
    lemma_unbounded_sink_never_fails(st, items, id, total);
    lemma_run_closed(st, items, id, total, Option::None);
    lemma_written_is_all_when_read(items);
}

/// When every reached file's read succeeds, every reached file is
/// written.
pub proof fn lemma_written_is_all_when_read(items: Seq<StreamItem>)
    requires
        forall|k: int| 0 <= k < items.len() ==> items[k].text is Some,
    ensures
        spec_written(items) == items,
    decreases items.len(),
{
    if items.len() > 0 {
        lemma_written_is_all_when_read(items.drop_last());
        assert(spec_written(items) =~= items);
    }
}

/// What a streaming pass that hits a sink failure leaves behind, in
/// closed form: with a budget of `f` further writes, exactly the first
/// `f - st.done` files that would have been written made it into the
/// document, the records, the byte total and the reports; everything
/// after the failure point is missing.
pub proof fn lemma_run_failed_prefix(
    st: StreamStateView,
    items: Seq<StreamItem>,
    id: Seq<char>,
    total: nat,
    f: int,
)
    requires
        !st.failed,
        spec_run(st, items, id, total, Option::Some(f)).failed,
    ensures
        ({
            let fin = spec_run(st, items, id, total, Option::Some(f));
            let k = f - st.done;
            let ws = spec_written(items);
            &&& st.done <= f < st.done + ws.len()
            &&& fin.document == st.document + spec_document_of(ws.take(k))
            &&& fin.done == f
            &&& fin.records == st.records + ws.take(k).map_values(
                |it: StreamItem| spec_record_of(it),
            )
            &&& fin.total_size == st.total_size + spec_items_size_sum(ws.take(k))
            &&& fin.reports == st.reports + Seq::new(
                k as nat,
                |j: int|
                    ReportView {
                        parse_id: id,
                        done: (st.done + j + 1) as nat,
                        total,
                        result_path: Option::None,
                    },
            )
        }),
    decreases items.len(),
{
    let sink = Option::Some(f);
    let fin = spec_run(st, items, id, total, sink);
    lemma_sink_failure(st, items, id, total, f);
    let k = f - st.done;
    let ws = spec_written(items);
    let dl = items.drop_last();
    let x = items.last();
    assert(items.len() > 0);
    assert(items =~= dl + seq![x]);
    lemma_run_concat(st, dl, seq![x], id, total, sink);
    let mid = spec_run(st, dl, id, total, sink);
    let wdl = spec_written(dl);
    if mid.failed {
        lemma_run_of_failed(mid, seq![x], id, total, sink);
        lemma_run_failed_prefix(st, dl, id, total, f);
        assert(k <= wdl.len());
        if x.text is Some {
            assert(ws == wdl.push(x));
        } else {
            assert(ws == wdl);
        }
        assert(ws.take(k) =~= wdl.take(k));
    } else {
        lemma_run_closed(st, dl, id, total, sink);
        assert(seq![x].drop_first() =~= Seq::<StreamItem>::empty());
        let stepped = spec_step(mid, x, id, total, sink);
        assert(spec_run(mid, seq![x], id, total, sink) == stepped) by {
            assert(seq![x][0] == x);
            assert(spec_run(stepped, seq![x].drop_first(), id, total, sink) == stepped);
        }
        assert(stepped.failed);
        assert(x.text is Some && mid.done == f);
        assert(mid.done == st.done + wdl.len());
        assert(k == wdl.len());
        assert(ws == wdl.push(x));
        assert(ws.take(k) =~= wdl);
        assert(fin.document == st.document + spec_document_of(ws.take(k)));
        assert(fin.records =~= st.records + ws.take(k).map_values(
            |it: StreamItem| spec_record_of(it),
        ));
        assert(fin.reports =~= st.reports + Seq::new(
            k as nat,
            |j: int|
                ReportView {
                    parse_id: id,
                    done: (st.done + j + 1) as nat,
                    total,
                    result_path: Option::None,
                },
        ));
    }
}

/// A session fails exactly when the sink's budget falls short of the
/// number of files to write: a sink that accepts `f` section writes
/// ends a session in the `Failed` outcome — which carries no metadata
/// record at all — precisely when more than `f` reached files had
/// readable text, wherever in the walk the budget runs out.
pub proof fn lemma_session_failure_point(
    items: Seq<StreamItem>,
    id: Seq<char>,
    total: nat,
    f: int,
)
    requires
        0 <= f,
    ensures
        spec_run(spec_initial_state(), items, id, total, Option::Some(f)).failed <==> f
            < spec_written(items).len(),
{
    lemma_sink_failure(spec_initial_state(), items, id, total, f);
}

/// The document of an untroubled session holds, for every written
/// file, one section: that file's delimiter line immediately followed
/// by its exact text, at the offset right after the sections of the
/// files written before it.
pub proof fn lemma_session_document_sections(
    items: Seq<StreamItem>,
    id: Seq<char>,
    total: nat,
    sink: Option<int>,
    k: int,
)
    requires
        !spec_run(spec_initial_state(), items, id, total, sink).failed,
        0 <= k < spec_written(items).len(),
    ensures
        ({
            let fin = spec_run(spec_initial_state(), items, id, total, sink);
            let ws = spec_written(items);
            let section = spec_file_section(ws[k].path, ws[k].text.unwrap());
            let off = spec_document_of(ws.take(k)).len();
            &&& fin.document == spec_document_of(ws)
            &&& off + section.len() <= fin.document.len()
            &&& fin.document.subrange(off as int, off as int + section.len()) == section
        }),
{
    lemma_run_closed(spec_initial_state(), items, id, total, sink);
    assert(spec_run(spec_initial_state(), items, id, total, sink).document =~= spec_document_of(
        spec_written(items),
    ));
    lemma_written_all_read(items);
    lemma_document_sections(spec_written(items), k);
}

/// Where each written file's section stands in the document: section
/// `k` occupies the range right after the sections before it, so the
/// document holds, for every written file, its delimiter line
/// immediately followed by its exact text.
pub proof fn lemma_document_sections(ws: Seq<StreamItem>, k: int)
    requires
        0 <= k < ws.len(),
        forall|j: int| 0 <= j < ws.len() ==> ws[j].text is Some,
    ensures
        ({
            let doc = spec_document_of(ws);
            let off = spec_document_of(ws.take(k)).len();
            let section = spec_file_section(ws[k].path, ws[k].text.unwrap());
            &&& off + section.len() <= doc.len()
            &&& doc.subrange(off as int, off as int + section.len()) == section
        }),
    decreases ws.len(),
{
    let doc = spec_document_of(ws);
    let section = spec_file_section(ws[k].path, ws[k].text.unwrap());
    if k == ws.len() - 1 {
        assert(ws.take(k) =~= ws.drop_last());
        assert(ws.last() == ws[k]);
        let off = spec_document_of(ws.take(k)).len();
        assert(doc.subrange(off as int, off as int + section.len()) =~= section);
    } else {
        lemma_document_sections(ws.drop_last(), k);
        assert(ws.drop_last().take(k) =~= ws.take(k));
        assert(ws.drop_last()[k] == ws[k]);
        let off = spec_document_of(ws.take(k)).len();
        let prev = spec_document_of(ws.drop_last());
        assert(doc.subrange(off as int, off as int + section.len()) =~= prev.subrange(
            off as int,
            off as int + section.len(),
        ));
    }
}

/// The sink budget of one session: how many section writes the output
/// sink accepts before it fails. A sink that never fails has no bound.
/// The surrounding program mirrors its real sink here: an unbounded
/// budget for a healthy sink, and in tests a bounded one to exercise
/// the failure path.
pub struct SinkPlan {
    pub fail_after: Option<usize>,
}

/// The running accumulator of one session's streaming pass.
pub struct StreamState {
    pub document: String,
    pub records: Vec<FileMetadata>,
    pub total_size: u64,
    pub done: usize,
    pub reports: Vec<ProgressReport>,
    pub failed: bool,
}

impl View for StreamState {
    type V = StreamStateView;

    open spec fn view(&self) -> StreamStateView {
        StreamStateView {
            document: self.document@,
            records: self.records@.map_values(|r: FileMetadata| r@),
            total_size: self.total_size as nat,
            done: self.done as nat,
            reports: self.reports@.map_values(|r: ProgressReport| r@),
            failed: self.failed,
        }
    }
}

/// Stream one snapshot subtree into the accumulator: write a section
/// and report progress for every eligible text file whose read
/// succeeded, skip the others, and stop the walk the moment the sink
/// fails.
#[verifier::loop_isolation(false)]
fn stream_node(n: &FsNode, st: &mut StreamState, parse_id: &str, total: usize, sink: &SinkPlan)
    requires
        old(st)@.total_size + spec_items_size_sum(spec_stream_seq(*n)) <= u64::MAX,
        old(st)@.done + spec_stream_seq(*n).len() <= usize::MAX,
    ensures
        final(st)@ == spec_run(
            old(st)@,
            spec_stream_seq(*n),
            parse_id@,
            total as nat,
            spec_sink_budget(sink.fail_after),
        ),
    decreases *n,
{
    let ghost items = spec_stream_seq(*n);
    let ghost budget = spec_sink_budget(sink.fail_after);
    if st.failed {
        proof {
            lemma_run_of_failed(st@, items, parse_id@, total as nat, budget);
        }
        return ;
    }
    match n {
        FsNode::File { name, path, size, text, .. } => {
            if is_text_file(n) {
                let ghost it = items[0];
                proof {
                    assert(items.drop_first() =~= Seq::<StreamItem>::empty());
                    let stepped0 = spec_step(st@, it, parse_id@, total as nat, budget);
                    assert(spec_run(stepped0, items.drop_first(), parse_id@, total as nat, budget)
                        == stepped0);
                    assert(spec_run(st@, items, parse_id@, total as nat, budget) == spec_step(
                        st@,
                        it,
                        parse_id@,
                        total as nat,
                        budget,
                    ));
                    assert(spec_items_size_sum(items) == it.size) by {
                        assert(spec_items_size_sum(Seq::<StreamItem>::empty()) == 0);
                        assert(items.drop_last() =~= Seq::<StreamItem>::empty());
                        assert(items.last() == it);
                    }
                }
                match text {
                    Option::None => {},
                    Option::Some(t) => {
                        let fail_now = match sink.fail_after {
                            Option::Some(f) => st.done == f,
                            Option::None => false,
                        };
                        if fail_now {
                            st.failed = true;
                        } else {
                            let ghost pre = st@;
                            let section = render_file_section(path.as_str(), t.as_str());
                            st.document.append(section.as_str());
                            st.records.push(
                                FileMetadata {
                                    path: path.clone(),
                                    name: name.clone(),
                                    size: *size,
                                },
                            );
                            st.total_size = st.total_size + *size;
                            st.done = st.done + 1;
                            let report_id = parse_id.to_owned();
                            st.reports.push(
                                ProgressReport {
                                    parse_id: report_id,
                                    done: st.done,
                                    total,
                                    result_path: Option::None,
                                },
                            );
                            proof {
                                let stepped = spec_step(pre, it, parse_id@, total as nat, budget);
                                assert(st@.records =~= stepped.records);
                                assert(st@.reports =~= stepped.reports);
                                assert(st@.document =~= stepped.document);
                                assert(st@ == stepped);
                            }
                        }
                    },
                }
            }
        },
        FsNode::Dir { children, .. } => {
            if is_valid_path(n) {
                let ghost st0 = st@;
                let ghost all = spec_stream_children(children@);
                proof {
                    assert(items == all);
                }
                let mut i: usize = 0;
                proof {
                    assert(children@.take(0) =~= Seq::<FsNode>::empty());
                    assert(spec_run(
                        st0,
                        spec_stream_children(children@.take(0)),
                        parse_id@,
                        total as nat,
                        budget,
                    ) == st0);
                }
                while i < children.len()
                    invariant
                        0 <= i <= children@.len(),
                        st@ == spec_run(
                            st0,
                            spec_stream_children(children@.take(i as int)),
                            parse_id@,
                            total as nat,
                            budget,
                        ),
                    decreases children@.len() - i,
                {
                    proof {
                        assert(decreases_to!(*n => n->Dir_children));
                        assert(decreases_to!(n->Dir_children => n->Dir_children@));
                        assert(decreases_to!(n->Dir_children@ => n->Dir_children@[i as int]));
                        assert(n->Dir_children == *children);
                        assert(decreases_to!(*n => children@[i as int]));
                        assert(children@.take(i + 1).drop_last() =~= children@.take(i as int));
                        assert(children@.take(i + 1).last() == children@[i as int]);
                        lemma_stream_children_split(children@, i as int);
                        lemma_stream_children_split(children@, i + 1);
                        assert(spec_stream_children(children@.take(i + 1))
                            =~= spec_stream_children(children@.take(i as int)) + spec_stream_seq(
                            children@[i as int],
                        ));
                        lemma_run_bounds(
                            st0,
                            spec_stream_children(children@.take(i as int)),
                            parse_id@,
                            total as nat,
                            budget,
                        );
                        lemma_items_size_sum_concat(
                            spec_stream_children(children@.take(i as int)),
                            spec_stream_seq(children@[i as int]),
                        );
                        lemma_items_size_sum_concat(
                            spec_stream_children(children@.take(i + 1)),
                            spec_stream_children(children@.skip(i + 1)),
                        );
                        lemma_run_concat(
                            st0,
                            spec_stream_children(children@.take(i as int)),
                            spec_stream_seq(children@[i as int]),
                            parse_id@,
                            total as nat,
                            budget,
                        );
                    }
                    stream_node(&children[i], st, parse_id, total, sink);
                    i = i + 1;
                }
                proof {
                    assert(children@.take(children@.len() as int) =~= children@);
                }
            }
        },
    }
}

/// How one session ends. A failed session carries only what had
/// already reached the sink and the reports already issued: by
/// construction it has no metadata, so it can never become visible to
/// a downstream listing.
pub enum SessionOutcome {
    Completed {
        document: String,
        tree: Vec<ParsedPath>,
        metadata: ParseMetadata,
        reports: Vec<ProgressReport>,
    },
    Failed { document: String, reports: Vec<ProgressReport> },
}

/// The terminal progress message of a completed session.
pub open spec fn spec_terminal_report(
    id: Seq<char>,
    total: nat,
    app_dir: Seq<char>,
) -> ReportView {
    ReportView {
        parse_id: id,
        done: total,
        total,
        result_path: Option::Some(spec_content_path(spec_parse_dir(app_dir, id))),
    }
}

/// Run one scan session over a snapshot: pre-count the eligible files,
/// build the eager tree for every valid root, stream every eligible
/// file's section into the document while reporting progress, and on
/// success assemble the metadata record and the terminal report. A
/// sink failure ends the session with no metadata at all.
#[verifier::loop_isolation(false)]
pub fn parse_files(
    roots: &Vec<FsNode>,
    app_dir: &str,
    remote_url: &str,
    now: &Timestamp,
    sink: &SinkPlan,
) -> (r: SessionOutcome)
    requires
        spec_node_count_seq(roots@) <= usize::MAX,
        spec_rec_size_seq(roots@) <= u64::MAX,
    ensures
        ({
            let items = spec_stream_children(roots@);
            let id = spec_parse_id(remote_url@, *now);
            let total = spec_text_file_count_seq(roots@);
            let fin = spec_run(
                spec_initial_state(),
                items,
                id,
                total,
                spec_sink_budget(sink.fail_after),
            );
            &&& (r is Failed <==> fin.failed)
            &&& match r {
                SessionOutcome::Failed { document, reports } => {
                    &&& document@ == fin.document
                    &&& reports@.map_values(|p: ProgressReport| p@) == fin.reports
                },
                SessionOutcome::Completed { document, tree, metadata, reports } => {
                    &&& document@ == fin.document
                    &&& spec_tree_view_seq(tree@) == spec_eager_children(roots@)
                    &&& spec_tree_wf_seq(spec_tree_view_seq(tree@))
                    &&& metadata.id@ == id
                    &&& metadata.name@ == id
                    &&& metadata.path@ == spec_parse_dir(app_dir@, id)
                    &&& metadata.created_at == *now
                    &&& metadata.updated_at == *now
                    &&& metadata.files_count == fin.records.len()
                    &&& metadata.total_size == fin.total_size
                    &&& metadata.remote_url@ == remote_url@
                    &&& reports@.map_values(|p: ProgressReport| p@) == fin.reports.push(
                        spec_terminal_report(id, total, app_dir@),
                    )
                },
            }
        }),
{
    let ghost budget = spec_sink_budget(sink.fail_after);
    let total = count_text_files(roots);
    let parse_id = derive_parse_id(remote_url, now);
    proof {
        lemma_stream_children_len_is_count(roots@);
        lemma_stream_children_size_le_rec(roots@);
        lemma_text_file_count_seq_le_nodes(roots@);
    }
    let mut tree: Vec<ParsedPath> = Vec::new();
    let mut i: usize = 0;
    proof {
        assert(roots@.take(0) =~= Seq::<FsNode>::empty());
        assert(spec_tree_view_seq(tree@) =~= spec_eager_children(roots@.take(0)));
    }
    while i < roots.len()
        invariant
            0 <= i <= roots@.len(),
            spec_tree_view_seq(tree@) == spec_eager_children(roots@.take(i as int)),
        decreases roots@.len() - i,
    {
        proof {
            assert(roots@.take(i + 1).drop_last() =~= roots@.take(i as int));
            assert(roots@.take(i + 1).last() == roots@[i as int]);
            lemma_rec_size_seq_take_le(roots@, i + 1);
        }
        let root = &roots[i];
        if is_valid_path(root) {
            let built = build_file_tree(root);
            proof {
                lemma_tree_view_seq_push(tree@, built);
            }
            tree.push(built);
        }
        i = i + 1;
    }
    proof {
        assert(roots@.take(roots@.len() as int) =~= roots@);
        lemma_eager_children_wf(roots@);
    }
    let mut st = StreamState {
        document: String::new(),
        records: Vec::new(),
        total_size: 0,
        done: 0,
        reports: Vec::new(),
        failed: false,
    };
    proof {
        assert(st@.records =~= spec_initial_state().records);
        assert(st@.reports =~= spec_initial_state().reports);
        assert(st@.document =~= spec_initial_state().document);
        assert(st@ == spec_initial_state());
    }
    let ghost init = spec_initial_state();
    let mut j: usize = 0;
    proof {
        assert(roots@.take(0) =~= Seq::<FsNode>::empty());
        assert(spec_run(init, spec_stream_children(roots@.take(0)), parse_id@, total as nat, budget)
            == init);
    }
    while j < roots.len()
        invariant
            0 <= j <= roots@.len(),
            st@ == spec_run(
                init,
                spec_stream_children(roots@.take(j as int)),
                parse_id@,
                total as nat,
                budget,
            ),
        decreases roots@.len() - j,
    {
        proof {
            assert(roots@.take(j + 1).drop_last() =~= roots@.take(j as int));
            assert(roots@.take(j + 1).last() == roots@[j as int]);
            lemma_stream_children_split(roots@, j as int);
            lemma_stream_children_split(roots@, j + 1);
            assert(spec_stream_children(roots@.take(j + 1)) =~= spec_stream_children(
                roots@.take(j as int),
            ) + spec_stream_seq(roots@[j as int]));
            lemma_run_bounds(
                init,
                spec_stream_children(roots@.take(j as int)),
                parse_id@,
                total as nat,
                budget,
            );
            lemma_items_size_sum_concat(
                spec_stream_children(roots@.take(j as int)),
                spec_stream_seq(roots@[j as int]),
            );
            lemma_items_size_sum_concat(
                spec_stream_children(roots@.take(j + 1)),
                spec_stream_children(roots@.skip(j + 1)),
            );
            lemma_run_concat(
                init,
                spec_stream_children(roots@.take(j as int)),
                spec_stream_seq(roots@[j as int]),
                parse_id@,
                total as nat,
                budget,
            );
        }
        stream_node(&roots[j], &mut st, parse_id.as_str(), total, sink);
        j = j + 1;
    }
    proof {
        assert(roots@.take(roots@.len() as int) =~= roots@);
    }
    if st.failed {
        SessionOutcome::Failed { document: st.document, reports: st.reports }
    } else {
        let parse_dir = get_parse_dir(app_dir, parse_id.as_str());
        let content_path = get_content_path(parse_dir.as_str());
        let ghost pre_reports = st@.reports;
        st.reports.push(
            ProgressReport {
                parse_id: parse_id.clone(),
                done: total,
                total,
                result_path: Option::Some(content_path),
            },
        );
        proof {
            assert(st@.reports =~= pre_reports.push(
                spec_terminal_report(parse_id@, total as nat, app_dir@),
            ));
        }
        let files_count = st.records.len();
        let metadata = ParseMetadata {
            id: parse_id.clone(),
            name: parse_id.clone(),
            path: parse_dir,
            created_at: *now,
            updated_at: *now,
            files_count,
            total_size: st.total_size,
            remote_url: remote_url.to_owned(),
        };
        SessionOutcome::Completed {
            document: st.document,
            tree,
            metadata,
            reports: st.reports,
        }
    }
}

} // verus!
