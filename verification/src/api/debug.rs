//! The chunk-debug report: indexed chunks set beside a fresh chunking of the
//! same file, with per-chunk diagnostics, a diff and a summary.

use vstd::prelude::*;
use crate::api::error::{ApiError, ApiErrorView, STATUS_UNPROCESSABLE_ENTITY};
use crate::api::search::{
    dotdot_segment, has_dotdot_segment, invalid_request_view, is_preview, make_preview, opt_view,
};
use crate::chunk::{Chunk, CHUNK_HARD_CAP_BYTES, CHUNK_TARGET_BYTES};
use crate::diagnostics::{diagnose_chunk, diagnose_spec, ChunkDiagnostics, DiagnosticsView, lang_views};
use crate::text::{chars_of, owned, str_eq, string_from_chars};

verus! {

/// Characters of chunk text shown in a preview.
pub const PREVIEW_BYTES: usize = 600;

/// Which chunk lists the report carries.
#[derive(Debug, Clone, Copy, PartialEq, Eq, Structural)]
pub enum DebugMode {
    Indexed,
    Preview,
    Diff,
}

/// How much chunk text the report carries.
#[derive(Debug, Clone, Copy, PartialEq, Eq, Structural)]
pub enum ShowText {
    Preview,
    Full,
    Hidden,
}

/// Parses `mode`; absent means indexed.
pub fn parse_mode(raw: Option<&str>) -> (r: Result<DebugMode, ApiError>)
    ensures
        match raw {
            None => r == Ok::<DebugMode, ApiError>(DebugMode::Indexed),
            Some(s) => if s@ == "indexed"@ {
                r == Ok::<DebugMode, ApiError>(DebugMode::Indexed)
            } else if s@ == "preview"@ {
                r == Ok::<DebugMode, ApiError>(DebugMode::Preview)
            } else if s@ == "diff"@ {
                r == Ok::<DebugMode, ApiError>(DebugMode::Diff)
            } else {
                r matches Err(e) && e@ == invalid_request_view(
                    "mode must be one of indexed, preview, diff"@,
                )
            },
        },
{
    match raw {
        None => Ok(DebugMode::Indexed),
        Some(s) => {
            if str_eq(s, "indexed") {
                Ok(DebugMode::Indexed)
            } else if str_eq(s, "preview") {
                Ok(DebugMode::Preview)
            } else if str_eq(s, "diff") {
                Ok(DebugMode::Diff)
            } else {
                Err(ApiError::invalid_request(owned("mode must be one of indexed, preview, diff")))
            }
        },
    }
}

/// Parses `show_text`; absent means preview.
pub fn parse_show_text(raw: Option<&str>) -> (r: Result<ShowText, ApiError>)
    ensures
        match raw {
            None => r == Ok::<ShowText, ApiError>(ShowText::Preview),
            Some(s) => if s@ == "preview"@ {
                r == Ok::<ShowText, ApiError>(ShowText::Preview)
            } else if s@ == "full"@ {
                r == Ok::<ShowText, ApiError>(ShowText::Full)
            } else if s@ == "none"@ {
                r == Ok::<ShowText, ApiError>(ShowText::Hidden)
            } else {
                r matches Err(e) && e@ == invalid_request_view(
                    "show_text must be one of preview, full, none"@,
                )
            },
        },
{
    match raw {
        None => Ok(ShowText::Preview),
        Some(s) => {
            if str_eq(s, "preview") {
                Ok(ShowText::Preview)
            } else if str_eq(s, "full") {
                Ok(ShowText::Full)
            } else if str_eq(s, "none") {
                Ok(ShowText::Hidden)
            } else {
                Err(ApiError::invalid_request(owned("show_text must be one of preview, full, none")))
            }
        },
    }
}

/// The request of the chunk-debug report.
#[derive(Debug, Clone, PartialEq, Eq)]
pub struct DebugChunksRequest {
    pub vault: Option<String>,
    pub path: String,
    pub mode: Option<String>,
    pub show_text: Option<String>,
}

/// A chunk as the index stored it.
#[derive(Debug, Clone, PartialEq, Eq)]
pub struct StoredChunk {
    pub chunk_index: u32,
    pub heading_path: String,
    pub content: String,
    pub content_hash: String,
    pub start_byte: usize,
    pub end_byte: usize,
}

#[derive(Debug, Clone, PartialEq, Eq)]
pub struct DebugChunkDiagnosticsJson {
    pub fenced_code_blocks: usize,
    pub fenced_code_bytes: usize,
    pub fenced_code_languages: Vec<String>,
    pub code_heavy: bool,
    pub thematic_breaks: usize,
}

impl View for DebugChunkDiagnosticsJson {
    type V = DiagnosticsView;

    open spec fn view(&self) -> DiagnosticsView {
        DiagnosticsView {
            fenced_code_blocks: self.fenced_code_blocks as int,
            fenced_code_bytes: self.fenced_code_bytes as int,
            fenced_code_languages: lang_views(self.fenced_code_languages@),
            code_heavy: self.code_heavy,
            thematic_breaks: self.thematic_breaks as int,
        }
    }
}

/// One chunk of the report.
#[derive(Debug, Clone, PartialEq, Eq)]
pub struct DebugChunkJson {
    pub chunk_index: u32,
    pub start_byte: usize,
    pub end_byte: usize,
    pub byte_len: usize,
    pub heading_path: Vec<String>,
    pub boundary_start: String,
    pub boundary_end: String,
    pub content_hash: String,
    pub text: Option<String>,
    pub text_kind: Option<String>,
    pub text_truncated: Option<bool>,
    pub diagnostics: DebugChunkDiagnosticsJson,
    pub warnings: Vec<String>,
}

#[derive(Debug, Clone, PartialEq, Eq)]
pub struct DebugChunksDiff {
    pub chunk_count_changed: bool,
    pub indexed_chunk_count: usize,
    pub preview_chunk_count: usize,
    pub changed_chunks: Vec<u32>,
    pub added_preview_chunks: Vec<u32>,
    pub removed_indexed_chunks: Vec<u32>,
}

/// The summary of the report's indexed chunks. The mean size is
/// `total_bytes / chunk_count`, left to the caller.
#[derive(Debug, Clone, PartialEq, Eq)]
pub struct DebugChunksSummary {
    pub chunk_count: usize,
    pub min_bytes: usize,
    pub max_bytes: usize,
    pub total_bytes: u128,
    pub code_heavy_chunks: usize,
    pub thematic_break_boundaries: usize,
}

#[derive(Debug, Clone, PartialEq, Eq)]
pub struct DebugChunkerInfo {
    pub version: String,
    pub rules: Vec<String>,
    pub target_bytes: usize,
    pub hard_cap_bytes: usize,
}

// ---------------------------------------------------------------------------
// Per-chunk pieces
// ---------------------------------------------------------------------------

pub open spec fn string_views(v: Seq<String>) -> Seq<Seq<char>> {
    v.map_values(|s: String| s@)
}

/// The warnings a chunk's diagnostics raise.
pub open spec fn warnings_spec(d: DiagnosticsView) -> Seq<Seq<char>> {
    let a: Seq<Seq<char>> = if d.code_heavy {
        seq!["code-heavy chunk"@]
    } else {
        seq![]
    };
    if d.thematic_breaks > 0 {
        a.push("contains thematic break markup from an older index"@)
    } else {
        a
    }
}

pub fn warnings_for(d: &ChunkDiagnostics) -> (w: Vec<String>)
    ensures
        string_views(w@) == warnings_spec(d@),
{
    let mut w: Vec<String> = Vec::new();
    if d.code_heavy {
        w.push(owned("code-heavy chunk"));
    }
    if d.thematic_breaks > 0 {
        w.push(owned("contains thematic break markup from an older index"));
    }
    assert(string_views(w@) =~= warnings_spec(d@));
    w
}

pub fn diagnostics_to_json(d: ChunkDiagnostics) -> (j: DebugChunkDiagnosticsJson)
    ensures
        j@ == d@,
{
    DebugChunkDiagnosticsJson {
        fenced_code_blocks: d.fenced_code_blocks,
        fenced_code_bytes: d.fenced_code_bytes,
        fenced_code_languages: d.fenced_code_languages,
        code_heavy: d.code_heavy,
        thematic_breaks: d.thematic_breaks,
    }
}

/// The text a chunk of the report carries, its kind, and whether it was
/// cut.
pub open spec fn text_payload_ok(
    content: Seq<char>,
    show: ShowText,
    r: (Option<String>, Option<String>, Option<bool>),
) -> bool {
    match show {
        ShowText::Hidden => r.0 is None && r.1 is None && r.2 is None,
        ShowText::Full => {
            &&& r.0 is Some
            &&& r.0->0@ == content
            &&& r.1 is Some
            &&& r.1->0@ == "full"@
            &&& r.2 == Some(false)
        },
        ShowText::Preview => {
            &&& r.0 is Some
            &&& r.1 is Some
            &&& r.1->0@ == "preview"@
            &&& r.2 is Some
            &&& is_preview(content, PREVIEW_BYTES as int, r.0->0@, r.2->0)
        },
    }
}

pub fn text_payload(content: &str, show_text: ShowText) -> (r: (Option<String>, Option<String>, Option<bool>))
    ensures
        text_payload_ok(content@, show_text, r),
{
    match show_text {
        ShowText::Hidden => (None, None, None),
        ShowText::Full => (Some(owned(content)), Some(owned("full")), Some(false)),
        ShowText::Preview => {
            let (p, cut) = make_preview(content, PREVIEW_BYTES);
            (Some(p), Some(owned("preview")), Some(cut))
        },
    }
}

/// `s` split at every `c`: the pieces between separators, in order; an
/// empty text is one empty piece.
pub open spec fn split_on(s: Seq<char>, c: char) -> Seq<Seq<char>>
    decreases s.len(),
{
    if s.len() == 0 {
        seq![seq![]]
    } else if s.last() == c {
        split_on(s.drop_last(), c).push(seq![])
    } else {
        let r = split_on(s.drop_last(), c);
        r.update(r.len() - 1, r.last().push(s.last()))
    }
}

proof fn lemma_split_on_nonempty(s: Seq<char>, c: char)
    ensures
        split_on(s, c).len() >= 1,
    decreases s.len(),
{
    if s.len() > 0 {
        lemma_split_on_nonempty(s.drop_last(), c);
    }
}

/// A heading path split into its headings.
pub fn split_heading_path(path: &str) -> (v: Vec<String>)
    ensures
        string_views(v@) == split_on(path@, '/'),
{
    let cs = chars_of(path);
    let mut done: Vec<String> = Vec::new();
    let mut cur: Vec<char> = Vec::new();
    let mut i: usize = 0;
    proof {
        assert(cs@.take(0) =~= Seq::<char>::empty());
    }
    while i < cs.len()
        invariant
            i <= cs@.len(),
            cs@ == path@,
            string_views(done@).push(cur@) == split_on(cs@.take(i as int), '/'),
        decreases cs@.len() - i,
    {
        let ghost prev = cs@.take(i as int);
        let ghost next = cs@.take(i + 1);
        proof {
            assert(next.drop_last() =~= prev);
            assert(next.last() == cs@[i as int]);
            lemma_split_on_nonempty(prev, '/');
        }
        if cs[i] == '/' {
            let s = string_from_chars(&cur);
            let ghost old_done = string_views(done@);
            done.push(s);
            cur = Vec::new();
            proof {
                assert(string_views(done@) =~= old_done.push(s@));
                assert(string_views(done@).push(cur@) =~= split_on(next, '/'));
            }
        } else {
            let ghost old_cur = cur@;
            cur.push(cs[i]);
            proof {
                assert(string_views(done@).push(cur@) =~= string_views(done@).push(old_cur).update(
                    string_views(done@).len() as int,
                    old_cur.push(cs@[i as int]),
                ));
            }
        }
        i += 1;
    }
    let s = string_from_chars(&cur);
    let ghost old_done = string_views(done@);
    done.push(s);
    proof {
        assert(string_views(done@) =~= old_done.push(s@));
        assert(cs@.take(i as int) =~= cs@);
    }
    done
}

/// The report entry of a chunk, given its text, its place and where its
/// boundaries came from.
pub open spec fn chunk_json_ok(
    j: DebugChunkJson,
    chunk_index: u32,
    start_byte: usize,
    end_byte: usize,
    content: Seq<char>,
    heading_path: Seq<char>,
    content_hash: Seq<char>,
    boundary_start: Seq<char>,
    boundary_end: Seq<char>,
    show: ShowText,
) -> bool {
    &&& j.chunk_index == chunk_index
    &&& j.start_byte == start_byte
    &&& j.end_byte == end_byte
    &&& j.byte_len == crate::diagnostics::byte_len(content)
    &&& string_views(j.heading_path@) == split_on(heading_path, '/')
    &&& j.boundary_start@ == boundary_start
    &&& j.boundary_end@ == boundary_end
    &&& j.content_hash@ == content_hash
    &&& text_payload_ok(content, show, (j.text, j.text_kind, j.text_truncated))
    &&& j.diagnostics@ == diagnose_spec(content)
    &&& string_views(j.warnings@) == warnings_spec(diagnose_spec(content))
}

/// The report entry of a freshly chunked chunk.
pub fn chunk_to_json(chunk: &Chunk, show_text: ShowText) -> (j: DebugChunkJson)
    ensures
        chunk_json_ok(
            j,
            chunk.chunk_index,
            chunk.start_byte,
            chunk.end_byte,
            chunk.content@,
            chunk.heading_path@,
            chunk.content_hash@,
            chunk.boundary_start@,
            chunk.boundary_end@,
            show_text,
        ),
{
    let d = diagnose_chunk(chunk.content.as_str());
    let warnings = warnings_for(&d);
    let (text, text_kind, text_truncated) = text_payload(chunk.content.as_str(), show_text);
    DebugChunkJson {
        chunk_index: chunk.chunk_index,
        start_byte: chunk.start_byte,
        end_byte: chunk.end_byte,
        byte_len: chunk.content.as_str().as_bytes().len(),
        heading_path: split_heading_path(chunk.heading_path.as_str()),
        boundary_start: chunk.boundary_start.clone(),
        boundary_end: chunk.boundary_end.clone(),
        content_hash: chunk.content_hash.clone(),
        text,
        text_kind,
        text_truncated,
        diagnostics: diagnostics_to_json(d),
        warnings,
    }
}

/// The report entry of a stored chunk. Its boundaries come from the
/// matching fresh chunk, or are unknown.
pub fn stored_to_json(stored: &StoredChunk, matching_preview: Option<&Chunk>, show_text: ShowText) -> (j:
    DebugChunkJson)
    ensures
        chunk_json_ok(
            j,
            stored.chunk_index,
            stored.start_byte,
            stored.end_byte,
            stored.content@,
            stored.heading_path@,
            stored.content_hash@,
            match matching_preview {
                Some(c) => c.boundary_start@,
                None => "indexed_unknown"@,
            },
            match matching_preview {
                Some(c) => c.boundary_end@,
                None => "indexed_unknown"@,
            },
            show_text,
        ),
{
    let d = diagnose_chunk(stored.content.as_str());
    let warnings = warnings_for(&d);
    let (text, text_kind, text_truncated) = text_payload(stored.content.as_str(), show_text);
    let (bs, be) = match matching_preview {
        Some(c) => (c.boundary_start.clone(), c.boundary_end.clone()),
        None => (owned("indexed_unknown"), owned("indexed_unknown")),
    };
    DebugChunkJson {
        chunk_index: stored.chunk_index,
        start_byte: stored.start_byte,
        end_byte: stored.end_byte,
        byte_len: stored.content.as_str().as_bytes().len(),
        heading_path: split_heading_path(stored.heading_path.as_str()),
        boundary_start: bs,
        boundary_end: be,
        content_hash: stored.content_hash.clone(),
        text,
        text_kind,
        text_truncated,
        diagnostics: diagnostics_to_json(d),
        warnings,
    }
}

/// The fresh chunk a stored chunk matches: the last one with the same index
/// and content hash.
pub open spec fn matching_preview(preview: Seq<Chunk>, idx: u32, hash: Seq<char>) -> Option<int> {
    if exists|k: int|
        0 <= k < preview.len() && #[trigger] preview[k].chunk_index == idx && preview[k].content_hash@
            == hash {
        Some(
            choose|k: int|
                0 <= k < preview.len() && #[trigger] preview[k].chunk_index == idx
                    && preview[k].content_hash@ == hash && forall|j: int|
                    k < j < preview.len() ==> !(preview[j].chunk_index == idx
                        && preview[j].content_hash@ == hash),
        )
    } else {
        None
    }
}

fn find_matching_preview(preview: &Vec<Chunk>, idx: u32, hash: &String) -> (r: Option<usize>)
    ensures
        match r {
            Some(k) => k < preview@.len() && matching_preview(preview@, idx, hash@) == Some(k as int),
            None => matching_preview(preview@, idx, hash@) is None,
        },
{
    let mut k = preview.len();
    while k > 0
        invariant
            k <= preview@.len(),
            forall|j: int|
                k <= j < preview@.len() ==> !(#[trigger] preview@[j].chunk_index == idx
                    && preview@[j].content_hash@ == hash@),
        decreases k,
    {
        if preview[k - 1].chunk_index == idx && str_eq(
            preview[k - 1].content_hash.as_str(),
            hash.as_str(),
        ) {
            assert(preview@[k - 1].chunk_index == idx);
            return Some(k - 1);
        }
        k -= 1;
    }
    None
}

/// The report entries of the stored chunks, each set beside its matching
/// fresh chunk.
pub fn indexed_chunks_to_json(chunks: &Vec<StoredChunk>, preview_chunks: &Vec<Chunk>, show_text: ShowText) -> (out:
    Vec<DebugChunkJson>)
    ensures
        out@.len() == chunks@.len(),
        forall|i: int|
            0 <= i < chunks@.len() ==> {
                let s = chunks@[i];
                let m = matching_preview(preview_chunks@, s.chunk_index, s.content_hash@);
                chunk_json_ok(
                    #[trigger] out@[i],
                    s.chunk_index,
                    s.start_byte,
                    s.end_byte,
                    s.content@,
                    s.heading_path@,
                    s.content_hash@,
                    match m {
                        Some(k) => preview_chunks@[k].boundary_start@,
                        None => "indexed_unknown"@,
                    },
                    match m {
                        Some(k) => preview_chunks@[k].boundary_end@,
                        None => "indexed_unknown"@,
                    },
                    show_text,
                )
            },
{
    let mut out: Vec<DebugChunkJson> = Vec::new();
    let mut i: usize = 0;
    while i < chunks.len()
        invariant
            i <= chunks@.len(),
            out@.len() == i,
            forall|q: int|
                0 <= q < i ==> {
                    let s = chunks@[q];
                    let m = matching_preview(preview_chunks@, s.chunk_index, s.content_hash@);
                    chunk_json_ok(
                        #[trigger] out@[q],
                        s.chunk_index,
                        s.start_byte,
                        s.end_byte,
                        s.content@,
                        s.heading_path@,
                        s.content_hash@,
                        match m {
                            Some(k) => preview_chunks@[k].boundary_start@,
                            None => "indexed_unknown"@,
                        },
                        match m {
                            Some(k) => preview_chunks@[k].boundary_end@,
                            None => "indexed_unknown"@,
                        },
                        show_text,
                    )
                },
        decreases chunks@.len() - i,
    {
        let s = &chunks[i];
        let m = find_matching_preview(preview_chunks, s.chunk_index, &s.content_hash);
        let j = match m {
            Some(k) => stored_to_json(s, Some(&preview_chunks[k]), show_text),
            None => stored_to_json(s, None, show_text),
        };
        out.push(j);
        i += 1;
    }
    out
}

// ---------------------------------------------------------------------------
// Diff and summary
// ---------------------------------------------------------------------------

/// Whether the stored and fresh chunks at one position differ.
pub open spec fn chunk_differs(s: StoredChunk, c: Chunk) -> bool {
    s.chunk_index != c.chunk_index || s.content_hash@ != c.content_hash@ || s.start_byte
        != c.start_byte || s.end_byte != c.end_byte
}

/// The indices of the stored chunks that differ from the fresh chunk at the
/// same position, over the first `n` positions.
pub open spec fn changed_prefix(indexed: Seq<StoredChunk>, preview: Seq<Chunk>, n: int) -> Seq<u32>
    decreases n,
{
    if n <= 0 {
        seq![]
    } else {
        let r = changed_prefix(indexed, preview, n - 1);
        if chunk_differs(indexed[n - 1], preview[n - 1]) {
            r.push(indexed[n - 1].chunk_index)
        } else {
            r
        }
    }
}

/// A stored chunk whose byte offsets no longer match the fresh chunk at its
/// position is reported as changed, even when its index and hash agree:
/// its index is among the changed ones.
pub proof fn law_moved_chunk_is_changed(indexed: Seq<StoredChunk>, preview: Seq<Chunk>, n: int, i: int)
    requires
        0 <= i < n,
        n <= indexed.len(),
        n <= preview.len(),
        indexed[i].start_byte != preview[i].start_byte || indexed[i].end_byte != preview[i].end_byte,
    ensures
        changed_prefix(indexed, preview, n).contains(indexed[i].chunk_index),
    decreases n,
{
    let r = changed_prefix(indexed, preview, n - 1);
    if i == n - 1 {
        assert(changed_prefix(indexed, preview, n) == r.push(indexed[i].chunk_index));
        assert(r.push(indexed[i].chunk_index)[r.len() as int] == indexed[i].chunk_index);
    } else {
        law_moved_chunk_is_changed(indexed, preview, n - 1, i);
        let k = choose|k: int| 0 <= k < r.len() && r[k] == indexed[i].chunk_index;
        if chunk_differs(indexed[n - 1], preview[n - 1]) {
            assert(changed_prefix(indexed, preview, n)[k] == indexed[i].chunk_index);
        }
    }
}

/// A stored chunk that matches the fresh chunk at its position in index,
/// hash and byte offsets adds nothing to the changed ones: the changed
/// indices over `n` positions are those over the first `n - 1`.
pub proof fn law_unmoved_chunk_is_unchanged(indexed: Seq<StoredChunk>, preview: Seq<Chunk>, n: int)
    requires
        0 < n <= indexed.len(),
        n <= preview.len(),
        indexed[n - 1].chunk_index == preview[n - 1].chunk_index,
        indexed[n - 1].content_hash@ == preview[n - 1].content_hash@,
        indexed[n - 1].start_byte == preview[n - 1].start_byte,
        indexed[n - 1].end_byte == preview[n - 1].end_byte,
    ensures
        changed_prefix(indexed, preview, n) == changed_prefix(indexed, preview, n - 1),
{
}

/// Compares the stored chunks with a fresh chunking, position by position.
pub fn build_diff(indexed: &Vec<StoredChunk>, preview: &Vec<Chunk>) -> (d: DebugChunksDiff)
    ensures
        d.chunk_count_changed == (indexed@.len() != preview@.len()),
        d.indexed_chunk_count == indexed@.len(),
        d.preview_chunk_count == preview@.len(),
        d.changed_chunks@ == changed_prefix(
            indexed@,
            preview@,
            if indexed@.len() < preview@.len() {
                indexed@.len() as int
            } else {
                preview@.len() as int
            },
        ),
        d.added_preview_chunks@ == (if indexed@.len() < preview@.len() {
            preview@.skip(indexed@.len() as int).map_values(|c: Chunk| c.chunk_index)
        } else {
            seq![]
        }),
        d.removed_indexed_chunks@ == (if preview@.len() < indexed@.len() {
            indexed@.skip(preview@.len() as int).map_values(|s: StoredChunk| s.chunk_index)
        } else {
            seq![]
        }),
{
    let max_shared = if indexed.len() < preview.len() {
        indexed.len()
    } else {
        preview.len()
    };
    let mut changed: Vec<u32> = Vec::new();
    let mut idx: usize = 0;
    while idx < max_shared
        invariant
            idx <= max_shared,
            max_shared <= indexed@.len(),
            max_shared <= preview@.len(),
            changed@ == changed_prefix(indexed@, preview@, idx as int),
        decreases max_shared - idx,
    {
        let s = &indexed[idx];
        let c = &preview[idx];
        if s.chunk_index != c.chunk_index || !str_eq(s.content_hash.as_str(), c.content_hash.as_str())
            || s.start_byte != c.start_byte || s.end_byte != c.end_byte {
            changed.push(s.chunk_index);
        }
        idx += 1;
    }
    let mut added: Vec<u32> = Vec::new();
    let mut k = indexed.len();
    while k < preview.len()
        invariant
            indexed@.len() <= k <= preview@.len() || (preview@.len() < indexed@.len() && k
                == indexed@.len()),
            added@ == preview@.subrange(
                if indexed@.len() < preview@.len() {
                    indexed@.len() as int
                } else {
                    preview@.len() as int
                },
                if k < preview@.len() {
                    k as int
                } else {
                    preview@.len() as int
                },
            ).map_values(|c: Chunk| c.chunk_index),
        decreases preview@.len() - k,
    {
        added.push(preview[k].chunk_index);
        k += 1;
        assert(added@ =~= preview@.subrange(indexed@.len() as int, k as int).map_values(
            |c: Chunk| c.chunk_index,
        ));
    }
    let mut removed: Vec<u32> = Vec::new();
    let mut k = preview.len();
    while k < indexed.len()
        invariant
            preview@.len() <= k <= indexed@.len() || (indexed@.len() < preview@.len() && k
                == preview@.len()),
            removed@ == indexed@.subrange(
                if preview@.len() < indexed@.len() {
                    preview@.len() as int
                } else {
                    indexed@.len() as int
                },
                if k < indexed@.len() {
                    k as int
                } else {
                    indexed@.len() as int
                },
            ).map_values(|s: StoredChunk| s.chunk_index),
        decreases indexed@.len() - k,
    {
        removed.push(indexed[k].chunk_index);
        k += 1;
        assert(removed@ =~= indexed@.subrange(preview@.len() as int, k as int).map_values(
            |s: StoredChunk| s.chunk_index,
        ));
    }
    proof {
        if indexed@.len() <= preview@.len() {
            assert(preview@.skip(indexed@.len() as int) =~= preview@.subrange(
                indexed@.len() as int,
                preview@.len() as int,
            ));
        } else {
            assert(added@ =~= Seq::<u32>::empty());
        }
        if preview@.len() <= indexed@.len() {
            assert(indexed@.skip(preview@.len() as int) =~= indexed@.subrange(
                preview@.len() as int,
                indexed@.len() as int,
            ));
        } else {
            assert(removed@ =~= Seq::<u32>::empty());
        }
    }
    DebugChunksDiff {
        chunk_count_changed: indexed.len() != preview.len(),
        indexed_chunk_count: indexed.len(),
        preview_chunk_count: preview.len(),
        changed_chunks: changed,
        added_preview_chunks: added,
        removed_indexed_chunks: removed,
    }
}

pub open spec fn count_code_heavy(cs: Seq<DebugChunkJson>) -> int
    decreases cs.len(),
{
    if cs.len() == 0 {
        0
    } else {
        count_code_heavy(cs.drop_last()) + if cs.last().diagnostics.code_heavy {
            1int
        } else {
            0int
        }
    }
}

pub open spec fn count_ending_at_break(cs: Seq<DebugChunkJson>) -> int
    decreases cs.len(),
{
    if cs.len() == 0 {
        0
    } else {
        count_ending_at_break(cs.drop_last()) + if cs.last().boundary_end@ == "thematic_break"@ {
            1int
        } else {
            0int
        }
    }
}

pub open spec fn sum_bytes(cs: Seq<DebugChunkJson>) -> int
    decreases cs.len(),
{
    if cs.len() == 0 {
        0
    } else {
        sum_bytes(cs.drop_last()) + cs.last().byte_len
    }
}

/// The number of thematic breaks among the chunk boundaries: each break
/// ends one chunk, and a break may also open the first chunk.
pub open spec fn break_boundaries(cs: Seq<DebugChunkJson>) -> int {
    count_ending_at_break(cs) + if cs.len() > 0 && cs[0].boundary_start@ == "thematic_break"@ {
        1int
    } else {
        0int
    }
}

/// Summarizes the report's chunks.
pub fn summarize(chunks: &Vec<DebugChunkJson>) -> (s: DebugChunksSummary)
    requires
        chunks@.len() < usize::MAX,
    ensures
        s.chunk_count == chunks@.len(),
        chunks@.len() == 0 ==> s.min_bytes == 0 && s.max_bytes == 0,
        chunks@.len() > 0 ==> (exists|k: int| 0 <= k < chunks@.len() && chunks@[k].byte_len == s.min_bytes)
            && (exists|k: int| 0 <= k < chunks@.len() && chunks@[k].byte_len == s.max_bytes),
        forall|k: int|
            0 <= k < chunks@.len() ==> s.min_bytes <= #[trigger] chunks@[k].byte_len <= s.max_bytes,
        s.total_bytes == sum_bytes(chunks@),
        s.code_heavy_chunks == count_code_heavy(chunks@),
        s.thematic_break_boundaries == break_boundaries(chunks@),
{
    let n = chunks.len();
    let mut min_b: usize = 0;
    let mut max_b: usize = 0;
    let mut total: u128 = 0;
    let mut heavy: usize = 0;
    let mut ended: usize = 0;
    let mut i: usize = 0;
    while i < n
        invariant
            n == chunks@.len(),
            n < usize::MAX,
            i <= n,
            i > 0 ==> (exists|k: int| 0 <= k < i && chunks@[k].byte_len == min_b) && (exists|k: int|
                0 <= k < i && chunks@[k].byte_len == max_b),
            forall|k: int| 0 <= k < i ==> min_b <= #[trigger] chunks@[k].byte_len <= max_b,
            i == 0 ==> min_b == 0 && max_b == 0,
            total == sum_bytes(chunks@.take(i as int)),
            0 <= total <= i * 0x1_0000_0000_0000_0000,
            heavy == count_code_heavy(chunks@.take(i as int)),
            heavy <= i,
            ended == count_ending_at_break(chunks@.take(i as int)),
            ended <= i,
        decreases n - i,
    {
        let b = chunks[i].byte_len;
        proof {
            let t1 = chunks@.take(i + 1);
            assert(t1.drop_last() =~= chunks@.take(i as int));
            assert(t1.last() == chunks@[i as int]);
            assert(b < 0x1_0000_0000_0000_0000);
            assert(total + b <= (i + 1) * 0x1_0000_0000_0000_0000) by (nonlinear_arith)
                requires
                    total <= i * 0x1_0000_0000_0000_0000,
                    b < 0x1_0000_0000_0000_0000,
            ;
            assert((i + 1) * 0x1_0000_0000_0000_0000 <= 0x1_0000_0000_0000_0000 * 0x1_0000_0000_0000_0000)
                by (nonlinear_arith)
                requires
                    i + 1 <= 0x1_0000_0000_0000_0000,
            ;
        }
        if i == 0 || b < min_b {
            min_b = b;
        }
        if i == 0 || b > max_b {
            max_b = b;
        }
        total = total + b as u128;
        if chunks[i].diagnostics.code_heavy {
            heavy += 1;
        }
        if str_eq(chunks[i].boundary_end.as_str(), "thematic_break") {
            ended += 1;
        }
        i += 1;
    }
    proof {
        assert(chunks@.take(n as int) =~= chunks@);
    }
    let leading = n > 0 && str_eq(chunks[0].boundary_start.as_str(), "thematic_break");
    let boundaries = if leading {
        ended + 1
    } else {
        ended
    };
    DebugChunksSummary {
        chunk_count: n,
        min_bytes: min_b,
        max_bytes: max_b,
        total_bytes: total,
        code_heavy_chunks: heavy,
        thematic_break_boundaries: boundaries,
    }
}

/// What the report says of the chunker.
pub fn chunker_info() -> (info: DebugChunkerInfo)
    ensures
        info.version@ == "markdown-heading-v1"@,
        string_views(info.rules@) == seq![
            "split on H1/H2/H3 headings"@,
            "split on Markdown thematic breaks"@,
            "split after block boundaries once target bytes is exceeded"@,
            "keep fenced code blocks intact and classify them"@,
        ],
        info.target_bytes == CHUNK_TARGET_BYTES,
        info.hard_cap_bytes == CHUNK_HARD_CAP_BYTES,
{
    let mut rules: Vec<String> = Vec::new();
    rules.push(owned("split on H1/H2/H3 headings"));
    rules.push(owned("split on Markdown thematic breaks"));
    rules.push(owned("split after block boundaries once target bytes is exceeded"));
    rules.push(owned("keep fenced code blocks intact and classify them"));
    let info = DebugChunkerInfo {
        version: owned("markdown-heading-v1"),
        rules,
        target_bytes: CHUNK_TARGET_BYTES,
        hard_cap_bytes: CHUNK_HARD_CAP_BYTES,
    };
    assert(string_views(info.rules@) =~= seq![
        "split on H1/H2/H3 headings"@,
        "split on Markdown thematic breaks"@,
        "split after block boundaries once target bytes is exceeded"@,
        "keep fenced code blocks intact and classify them"@,
    ]);
    info
}

/// The error a report path is refused with, if any: it must be non-empty,
/// vault-relative and free of `..` segments.
pub open spec fn debug_path_error(p: Seq<char>) -> Option<ApiErrorView> {
    if p.len() == 0 {
        Some((STATUS_UNPROCESSABLE_ENTITY, "invalid_path"@, "path must not be empty"@))
    } else if p[0] == '/' {
        Some((STATUS_UNPROCESSABLE_ENTITY, "invalid_path"@, "path must be vault-relative"@))
    } else if has_dotdot_segment(p) {
        Some((STATUS_UNPROCESSABLE_ENTITY, "invalid_path"@, "path must not contain .. segments"@))
    } else {
        None
    }
}

/// Checks the path of a report request.
pub fn validate_path(path: &str) -> (r: Result<(), ApiError>)
    ensures
        match r {
            Ok(()) => debug_path_error(path@) is None,
            Err(e) => debug_path_error(path@) == Some(e@),
        },
{
    let v = chars_of(path);
    if v.len() == 0 {
        return Err(ApiError::new("invalid_path", "path must not be empty", STATUS_UNPROCESSABLE_ENTITY));
    }
    if v[0] == '/' {
        return Err(ApiError::new("invalid_path", "path must be vault-relative", STATUS_UNPROCESSABLE_ENTITY));
    }
    if dotdot_segment(&v) {
        return Err(
            ApiError::new("invalid_path", "path must not contain .. segments", STATUS_UNPROCESSABLE_ENTITY),
        );
    }
    Ok(())
}


// ---------------------------------------------------------------------------
// Finding the file and assembling the report
// ---------------------------------------------------------------------------

/// Whether a request's vault selector picks `r`: no selector picks every
/// vault, a selector picks by name or id.
pub open spec fn named_by(r: crate::control_plane::VaultRef, vault: Option<Seq<char>>) -> bool {
    match vault {
        Some(v) => r.name@ == v || r.id@ == v,
        None => true,
    }
}

/// The active vaults a report request may read: those the request names
/// (by name or id), or all of them. None is an error.
pub fn debug_candidates(active: &Vec<crate::control_plane::VaultRef>, vault: Option<&str>) -> (r: Result<
    Vec<usize>,
    ApiError,
>)
    ensures
        match r {
            Ok(c) => c@.len() > 0 && (forall|i: int| 0 <= i < c@.len() ==> #[trigger] c@[i] < active@.len())
                && (forall|i: int, j: int| 0 <= i < j < c@.len() ==> #[trigger] c@[i] < #[trigger] c@[j])
                && forall|k: int|
                0 <= k < active@.len() ==> (c@.contains(k as usize) <==> #[trigger] named_by(active@[k], opt_view(vault))),
            Err(e) => (forall|k: int|
                0 <= k < active@.len() ==> !#[trigger] named_by(active@[k], opt_view(vault))) && e@ == match vault {
                Some(v) => (crate::api::error::STATUS_NOT_FOUND, "vault_not_found"@, "vault "@ + v@
                    + " not found"@),
                None => (crate::api::error::STATUS_NOT_FOUND, "vault_not_found"@,
                    "no active vaults are available"@),
            },
        },
{
    let mut c: Vec<usize> = Vec::new();
    let mut k: usize = 0;
    while k < active.len()
        invariant
            k <= active@.len(),
            forall|i: int| 0 <= i < c@.len() ==> #[trigger] c@[i] < k,
            forall|i: int, j: int| 0 <= i < j < c@.len() ==> #[trigger] c@[i] < #[trigger] c@[j],
            forall|q: int|
                0 <= q < k ==> (c@.contains(q as usize) <==> #[trigger] named_by(active@[q], opt_view(vault))),
        decreases active@.len() - k,
    {
        let keep = match vault {
            Some(v) => str_eq(active[k].name.as_str(), v) || str_eq(active[k].id.as_str(), v),
            None => true,
        };
        let ghost before = c@;
        if keep {
            c.push(k);
        }
        proof {
            assert forall|q: int| 0 <= q <= k implies (c@.contains(q as usize) <==> #[trigger] named_by(
                active@[q],
                opt_view(vault),
            )) by {
                if q < k {
                    if before.contains(q as usize) {
                        let i = choose|i: int| 0 <= i < before.len() && before[i] == q as usize;
                        assert(c@[i] == q as usize);
                    }
                    if c@.contains(q as usize) {
                        let i = choose|i: int| 0 <= i < c@.len() && c@[i] == q as usize;
                        if i < before.len() {
                            assert(before[i] == q as usize);
                        }
                    }
                } else {
                    if keep {
                        assert(c@[c@.len() - 1] == k);
                    } else if c@.contains(q as usize) {
                        let i = choose|i: int| 0 <= i < c@.len() && c@[i] == q as usize;
                        assert(before[i] < k);
                    }
                }
            }
        }
        k += 1;
    }
    if c.len() == 0 {
        proof {
            assert forall|q: int| 0 <= q < active@.len() implies !#[trigger] named_by(
                active@[q],
                opt_view(vault),
            ) by {
                assert(!c@.contains(q as usize));
            }
        }
        return match vault {
            Some(v) => Err(ApiError::vault_not_found(v, None)),
            None => Err(
                ApiError::new(
                    "vault_not_found",
                    "no active vaults are available",
                    crate::api::error::STATUS_NOT_FOUND,
                ),
            ),
        };
    }
    Ok(c)
}

/// How many candidate vaults hold the path decides the answer: one is the
/// file; none is `path_not_found`; several ask for `--vault`.
pub fn pick_found(found: usize) -> (r: Result<(), ApiError>)
    ensures
        found == 1 ==> r is Ok,
        found == 0 ==> (r matches Err(e) && e@ == (crate::api::error::STATUS_NOT_FOUND, "path_not_found"@,
            "path not found in active vault index"@)),
        found > 1 ==> (r matches Err(e) && e@ == invalid_request_view(
            "path exists in multiple active vaults; pass --vault"@,
        )),
{
    if found == 1 {
        Ok(())
    } else if found == 0 {
        Err(
            ApiError::new(
                "path_not_found",
                "path not found in active vault index",
                crate::api::error::STATUS_NOT_FOUND,
            ),
        )
    } else {
        Err(ApiError::invalid_request(owned("path exists in multiple active vaults; pass --vault")))
    }
}

/// The error a failed index read is answered with.
pub fn debug_read_failed() -> (e: ApiError)
    ensures
        e@ == (crate::api::error::STATUS_INTERNAL_SERVER_ERROR, "debug_chunks_failed"@,
            "failed to read indexed chunks"@),
{
    ApiError::new(
        "debug_chunks_failed",
        "failed to read indexed chunks",
        crate::api::error::STATUS_INTERNAL_SERVER_ERROR,
    )
}

/// A file as the index holds it.
#[derive(Debug, Clone, PartialEq, Eq)]
pub struct IndexedFileChunks {
    pub content_hash: String,
    pub indexed_at: String,
    pub content: String,
    pub chunks: Vec<StoredChunk>,
}

/// The chunk-debug report.
#[derive(Debug, Clone, PartialEq, Eq)]
pub struct DebugChunksResponse {
    pub vault: String,
    pub vault_name: String,
    pub path: String,
    pub content_hash: String,
    pub indexed_at: String,
    pub chunker: DebugChunkerInfo,
    pub indexed: Vec<DebugChunkJson>,
    pub preview: Option<Vec<DebugChunkJson>>,
    pub diff: Option<DebugChunksDiff>,
    pub summary: DebugChunksSummary,
}

/// Assembles the report for an indexed file: its stored chunks beside a
/// fresh chunking of its stored content, the fresh chunks in preview and
/// diff modes, the diff in diff mode.
pub fn build_debug_report(
    vault: &str,
    vault_name: &str,
    path: &str,
    indexed: IndexedFileChunks,
    mode: DebugMode,
    show_text: ShowText,
) -> (r: DebugChunksResponse)
    requires
        indexed.chunks@.len() < usize::MAX,
    ensures
        r.vault@ == vault@,
        r.vault_name@ == vault_name@,
        r.path@ == path@,
        r.content_hash == indexed.content_hash,
        r.indexed_at == indexed.indexed_at,
        r.indexed@.len() == indexed.chunks@.len(),
        exists|fresh: Seq<Chunk>|
            {
                let body = crate::chunk::split_frontmatter_spec(indexed.content@).1;
                let off = crate::chunk::body_offset_spec(indexed.content@);
                &&& #[trigger] crate::chunk::chunk_views(fresh) == crate::chunk::run_chunker(
                    vstd::utf8::encode_utf8(body),
                    off,
                    crate::chunk::markdown_events_of(body),
                )
                &&& forall|i: int|
                    0 <= i < indexed.chunks@.len() ==> {
                        let s = indexed.chunks@[i];
                        let m = matching_preview(fresh, s.chunk_index, s.content_hash@);
                        chunk_json_ok(
                            #[trigger] r.indexed@[i],
                            s.chunk_index,
                            s.start_byte,
                            s.end_byte,
                            s.content@,
                            s.heading_path@,
                            s.content_hash@,
                            match m {
                                Some(k) => fresh[k].boundary_start@,
                                None => "indexed_unknown"@,
                            },
                            match m {
                                Some(k) => fresh[k].boundary_end@,
                                None => "indexed_unknown"@,
                            },
                            show_text,
                        )
                    }
                &&& match mode {
                    DebugMode::Indexed => r.preview is None,
                    _ => r.preview is Some && r.preview->0@.len() == fresh.len() && forall|i: int|
                        0 <= i < fresh.len() ==> chunk_json_ok(
                            #[trigger] r.preview->0@[i],
                            fresh[i].chunk_index,
                            fresh[i].start_byte,
                            fresh[i].end_byte,
                            fresh[i].content@,
                            fresh[i].heading_path@,
                            fresh[i].content_hash@,
                            fresh[i].boundary_start@,
                            fresh[i].boundary_end@,
                            show_text,
                        ),
                }
                &&& match mode {
                    DebugMode::Diff => r.diff is Some && r.diff->0.changed_chunks@ == changed_prefix(
                        indexed.chunks@,
                        fresh,
                        if indexed.chunks@.len() < fresh.len() {
                            indexed.chunks@.len() as int
                        } else {
                            fresh.len() as int
                        },
                    ) && r.diff->0.indexed_chunk_count == indexed.chunks@.len()
                        && r.diff->0.preview_chunk_count == fresh.len(),
                    _ => r.diff is None,
                }
            },
        r.summary.chunk_count == r.indexed@.len(),
        r.summary.total_bytes == sum_bytes(r.indexed@),
        r.summary.code_heavy_chunks == count_code_heavy(r.indexed@),
        r.summary.thematic_break_boundaries == break_boundaries(r.indexed@),
        r.chunker.version@ == "markdown-heading-v1"@,
{
    let fresh = crate::chunk::chunk_file(indexed.content.as_str());
    let indexed_json = indexed_chunks_to_json(&indexed.chunks, &fresh, show_text);
    let preview = match mode {
        DebugMode::Indexed => None,
        _ => {
            let mut v: Vec<DebugChunkJson> = Vec::new();
            let mut i: usize = 0;
            while i < fresh.len()
                invariant
                    i <= fresh@.len(),
                    v@.len() == i,
                    forall|q: int|
                        0 <= q < i ==> chunk_json_ok(
                            #[trigger] v@[q],
                            fresh@[q].chunk_index,
                            fresh@[q].start_byte,
                            fresh@[q].end_byte,
                            fresh@[q].content@,
                            fresh@[q].heading_path@,
                            fresh@[q].content_hash@,
                            fresh@[q].boundary_start@,
                            fresh@[q].boundary_end@,
                            show_text,
                        ),
                decreases fresh@.len() - i,
            {
                v.push(chunk_to_json(&fresh[i], show_text));
                i += 1;
            }
            Some(v)
        },
    };
    let diff = match mode {
        DebugMode::Diff => Some(build_diff(&indexed.chunks, &fresh)),
        _ => None,
    };
    let summary = summarize(&indexed_json);
    DebugChunksResponse {
        vault: owned(vault),
        vault_name: owned(vault_name),
        path: owned(path),
        content_hash: indexed.content_hash,
        indexed_at: indexed.indexed_at,
        chunker: chunker_info(),
        indexed: indexed_json,
        preview,
        diff,
        summary,
    }
}

} // verus!
