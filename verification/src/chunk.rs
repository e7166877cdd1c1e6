//! Heading-aware Markdown chunking.
//!
//! A file is split into chunks at H1/H2/H3 boundaries and at thematic breaks,
//! with size-based breaks at block ends as a fallback. Parsing is done by
//! `pulldown-cmark`; this module turns its event stream into chunks. Chunk
//! byte offsets are offsets into the original file, after any frontmatter.

use pulldown_cmark::Event::{Code, End, Rule, Start, Text};
use pulldown_cmark::TagEnd::{BlockQuote, CodeBlock, Heading, Item, List, Paragraph};
use pulldown_cmark::{Parser, Tag};
use sha2::{Digest, Sha256};
use vstd::prelude::*;
use vstd::string::*;
use vstd::utf8::*;

use crate::text::{chars_of, lemma_boundary_in_prefix, owned, string_push};
pub use crate::diagnostics::{diagnose_chunk, ChunkDiagnostics};

verus! {

broadcast use vstd::utf8::group_utf8_lib;

/// Soft target for chunk size in bytes. Once an open chunk is longer than
/// this, the chunker breaks at the next block-level end.
pub const CHUNK_TARGET_BYTES: usize = 2000;

/// Hard cap for chunk size in bytes, reported by the debug surface.
pub const CHUNK_HARD_CAP_BYTES: usize = 3200;

/// One emitted chunk, ready to embed and persist.
#[derive(Debug, Clone, PartialEq, Eq)]
pub struct Chunk {
    pub chunk_index: u32,
    pub heading_path: String,
    pub content: String,
    pub content_hash: String,
    pub start_byte: usize,
    pub end_byte: usize,
    pub boundary_start: String,
    pub boundary_end: String,
}

/// The mathematical value of a [`Chunk`].
pub ghost struct ChunkView {
    pub chunk_index: u32,
    pub heading_path: Seq<char>,
    pub content: Seq<char>,
    pub content_hash: Seq<char>,
    pub start_byte: usize,
    pub end_byte: usize,
    pub boundary_start: Seq<char>,
    pub boundary_end: Seq<char>,
}

impl View for Chunk {
    type V = ChunkView;

    open spec fn view(&self) -> ChunkView {
        ChunkView {
            chunk_index: self.chunk_index,
            heading_path: self.heading_path@,
            content: self.content@,
            content_hash: self.content_hash@,
            start_byte: self.start_byte,
            end_byte: self.end_byte,
            boundary_start: self.boundary_start@,
            boundary_end: self.boundary_end@,
        }
    }
}

pub open spec fn chunk_views(v: Seq<Chunk>) -> Seq<ChunkView> {
    v.map_values(|c: Chunk| c@)
}

/// The parts of a Markdown event that the chunker reads.
#[derive(Debug, Clone, PartialEq, Eq)]
pub enum MdEventKind {
    /// Start of a heading of the given level (1 to 6).
    HeadingStart(u8),
    /// End of a heading of the given level (1 to 6).
    HeadingEnd(u8),
    /// A thematic break.
    Rule,
    CodeBlockStart,
    CodeBlockEnd,
    ParagraphEnd,
    ItemEnd,
    ListEnd,
    BlockQuoteEnd,
    /// A text node.
    Text(String),
    /// An inline code node.
    Code(String),
    /// Any other event.
    Other,
}

/// A Markdown event with the byte range of the source that it covers.
#[derive(Debug, Clone, PartialEq, Eq)]
pub struct MdEvent {
    pub kind: MdEventKind,
    pub start: usize,
    pub end: usize,
}

/// The event stream that `pulldown-cmark` produces for `body`, with no
/// extensions enabled.
pub uninterp spec fn markdown_events_of(body: Seq<char>) -> Seq<MdEvent>;

/// An event lies in the source `bytes`: its range is a slice of the source
/// between character boundaries, and heading levels are 1 to 6.
pub open spec fn event_in_source(e: MdEvent, bytes: Seq<u8>) -> bool {
    &&& e.start <= e.end <= bytes.len()
    &&& is_char_boundary(bytes, e.start as int)
    &&& is_char_boundary(bytes, e.end as int)
    &&& (e.kind matches MdEventKind::HeadingStart(l) ==> 1 <= l <= 6)
    &&& (e.kind matches MdEventKind::HeadingEnd(l) ==> 1 <= l <= 6)
}

/// Runs `pulldown_cmark::Parser::new(body)` (no extensions enabled) through
/// `into_offset_iter` and keeps, of each event, the variant the chunker reads
/// and its source range. The contract claims that the result is the parser's
/// (named) event stream for `body`, that every range is a slice of `body`
/// between character boundaries (the crate documents the ranges as ranges
/// of the source string), and that heading levels are 1 to 6 (`HeadingLevel`
/// has exactly the discriminants 1 to 6).
#[verifier::external_body]
fn markdown_events(body: &str) -> (events: Vec<MdEvent>)
    ensures
        events@ == markdown_events_of(body@),
        forall|i: int| 0 <= i < events@.len() ==> event_in_source(#[trigger] events@[i], body.spec_bytes()),
{
    Parser::new(body).into_offset_iter().map(|(e, r)| MdEvent { kind: match e {
        Start(Tag::Heading { level, .. }) => MdEventKind::HeadingStart(level as u8),
        End(Heading(level)) => MdEventKind::HeadingEnd(level as u8),
        Rule => MdEventKind::Rule, Start(Tag::CodeBlock(_)) => MdEventKind::CodeBlockStart,
        End(CodeBlock) => MdEventKind::CodeBlockEnd, End(Paragraph) => MdEventKind::ParagraphEnd,
        End(Item) => MdEventKind::ItemEnd, End(List(_)) => MdEventKind::ListEnd,
        End(BlockQuote(_)) => MdEventKind::BlockQuoteEnd,
        Text(t) => MdEventKind::Text(t.to_string()), Code(t) => MdEventKind::Code(t.to_string()),
        _ => MdEventKind::Other }, start: r.start, end: r.end }).collect()
}

/// The SHA-256 digest of a byte sequence.
pub uninterp spec fn sha256_digest(data: Seq<u8>) -> Seq<u8>;

/// `sha2::Sha256::digest`: the digest of `data`, which the crate fixes at
/// 32 bytes.
#[verifier::external_body]
pub(crate) fn sha256(data: &[u8]) -> (d: Vec<u8>)
    ensures
        d@ == sha256_digest(data@),
        d@.len() == 32,
{
    Sha256::digest(data).to_vec()
}

// ---------------------------------------------------------------------------
// Hex encoding and content hashes
// ---------------------------------------------------------------------------

/// Lowercase hex digit of a value below 16.
pub open spec fn hex_digit(n: u8) -> char {
    if n < 10 {
        ((n + 48) as u8) as char
    } else {
        ((n + 87) as u8) as char
    }
}

/// Lowercase hex encoding, two digits per byte, most significant first.
pub open spec fn hex_chars(bytes: Seq<u8>) -> Seq<char>
    decreases bytes.len(),
{
    if bytes.len() == 0 {
        seq![]
    } else {
        let b = bytes.last();
        hex_chars(bytes.drop_last()) + seq![hex_digit(b / 16), hex_digit(b % 16)]
    }
}

fn hex_digit_exec(n: u8) -> (c: char)
    requires
        n < 16,
    ensures
        c == hex_digit(n),
{
    if n < 10 {
        (n + 48) as char
    } else {
        (n + 87) as char
    }
}

/// Encodes a byte slice as a lowercase hex string.
pub fn hex_encode(bytes: &[u8]) -> (s: String)
    ensures
        s@ == hex_chars(bytes@),
{
    let mut s = String::new();
    let mut i: usize = 0;
    while i < bytes.len()
        invariant
            i <= bytes@.len(),
            s@ == hex_chars(bytes@.take(i as int)),
        decreases bytes@.len() - i,
    {
        let b = bytes[i];
        string_push(&mut s, hex_digit_exec(b / 16));
        string_push(&mut s, hex_digit_exec(b % 16));
        assert(bytes@.take(i + 1).drop_last() =~= bytes@.take(i as int));
        i += 1;
    }
    assert(bytes@.take(bytes@.len() as int) =~= bytes@);
    s
}

/// `"sha256:"` followed by the lowercase hex SHA-256 digest of the UTF-8
/// encoding of `content`.
pub open spec fn content_hash_of(content: Seq<char>) -> Seq<char> {
    "sha256:"@ + hex_chars(sha256_digest(encode_utf8(content)))
}

// ---------------------------------------------------------------------------
// Boundary labels and heading paths
// ---------------------------------------------------------------------------

pub open spec fn label_document_start() -> Seq<char> {
    "document_start"@
}

pub open spec fn label_document_end() -> Seq<char> {
    "document_end"@
}

pub open spec fn label_thematic_break() -> Seq<char> {
    "thematic_break"@
}

pub open spec fn label_size_after_block() -> Seq<char> {
    "size_after_block"@
}

pub open spec fn label_size_after_code_block() -> Seq<char> {
    "size_after_code_block"@
}

/// `heading:h1` to `heading:h6`.
pub open spec fn heading_label(level: u8) -> Seq<char> {
    if level == 1 {
        "heading:h1"@
    } else if level == 2 {
        "heading:h2"@
    } else if level == 3 {
        "heading:h3"@
    } else if level == 4 {
        "heading:h4"@
    } else if level == 5 {
        "heading:h5"@
    } else {
        "heading:h6"@
    }
}

fn heading_label_string(level: u8) -> (s: String)
    ensures
        s@ == heading_label(level),
{
    if level == 1 {
        String::from_str("heading:h1")
    } else if level == 2 {
        String::from_str("heading:h2")
    } else if level == 3 {
        String::from_str("heading:h3")
    } else if level == 4 {
        String::from_str("heading:h4")
    } else if level == 5 {
        String::from_str("heading:h5")
    } else {
        String::from_str("heading:h6")
    }
}

/// The heading path of a heading stack: the slots up to the last non-empty
/// one, joined with `/`. Empty middle slots stay (an orphan H3 under an H1
/// gives `A//C`); empty trailing slots are dropped.
pub open spec fn render_path_spec(h1: Seq<char>, h2: Seq<char>, h3: Seq<char>) -> Seq<char> {
    if h3.len() > 0 {
        h1 + seq!['/'] + h2 + seq!['/'] + h3
    } else if h2.len() > 0 {
        h1 + seq!['/'] + h2
    } else {
        h1
    }
}

fn render3(h1: &String, h2: &String, h3: &String) -> (s: String)
    ensures
        s@ == render_path_spec(h1@, h2@, h3@),
{
    let mut s = h1.clone();
    if h2.as_str().is_empty() && h3.as_str().is_empty() {
        return s;
    }
    string_push(&mut s, '/');
    s.append(h2.as_str());
    if !h3.as_str().is_empty() {
        string_push(&mut s, '/');
        s.append(h3.as_str());
    }
    s
}

/// Renders a heading stack (slot 0 = H1, 1 = H2, 2 = H3) as a heading path.
pub fn render_path(stack: &[String; 3]) -> (s: String)
    ensures
        s@ == render_path_spec(stack@[0]@, stack@[1]@, stack@[2]@),
{
    render3(&stack[0], &stack[1], &stack[2])
}

// ---------------------------------------------------------------------------
// The chunker as a state machine over the event stream
// ---------------------------------------------------------------------------

pub ghost struct OpenChunkView {
    pub start: int,
    pub heading_path: Seq<char>,
    pub boundary_start: Seq<char>,
}

/// The state of the chunker between two events.
pub ghost struct ChunkerView {
    pub h1: Seq<char>,
    pub h2: Seq<char>,
    pub h3: Seq<char>,
    pub chunks: Seq<ChunkView>,
    pub next_index: u32,
    pub open: Option<OpenChunkView>,
    pub depth: nat,
    pub capturing: bool,
    pub buf: Seq<char>,
    pub pending: Option<Seq<char>>,
}

pub open spec fn initial_chunker() -> ChunkerView {
    ChunkerView {
        h1: seq![],
        h2: seq![],
        h3: seq![],
        chunks: seq![],
        next_index: 0,
        open: None,
        depth: 0,
        capturing: false,
        buf: seq![],
        pending: None,
    }
}

pub open spec fn wrap_inc(n: u32) -> u32 {
    if n == u32::MAX {
        0
    } else {
        (n + 1) as u32
    }
}

/// Closes the chunk `o` at byte `end` of the body (clamped to the body):
/// emits it when it covers a non-empty slice, and drops it otherwise.
pub open spec fn emit_chunk(
    b: Seq<u8>,
    off: int,
    m: ChunkerView,
    o: OpenChunkView,
    end: int,
    label: Seq<char>,
) -> ChunkerView {
    let e = if end < b.len() { end } else { b.len() as int };
    if e <= o.start {
        m
    } else {
        let content = decode_utf8(b.subrange(o.start, e));
        if content.len() == 0 {
            m
        } else {
            ChunkerView {
                chunks: m.chunks.push(
                    ChunkView {
                        chunk_index: m.next_index,
                        heading_path: o.heading_path,
                        content: content,
                        content_hash: content_hash_of(content),
                        start_byte: (off + o.start) as usize,
                        end_byte: (off + e) as usize,
                        boundary_start: o.boundary_start,
                        boundary_end: label,
                    },
                ),
                next_index: wrap_inc(m.next_index),
                ..m
            }
        }
    }
}

/// Closes the open chunk, if any, at `end` with the given label.
pub open spec fn close_open(b: Seq<u8>, off: int, m: ChunkerView, end: int, label: Seq<char>) -> ChunkerView {
    match m.open {
        Some(o) => emit_chunk(b, off, ChunkerView { open: None, ..m }, o, end, label),
        None => m,
    }
}

/// Opens a chunk at `start` when none is open, taking a pending boundary.
pub open spec fn ensure_open(m: ChunkerView, start: int) -> ChunkerView {
    if m.open is Some {
        m
    } else {
        ChunkerView {
            open: Some(
                OpenChunkView {
                    start: start,
                    heading_path: render_path_spec(m.h1, m.h2, m.h3),
                    boundary_start: match m.pending {
                        Some(p) => p,
                        None => label_document_start(),
                    },
                },
            ),
            pending: None,
            ..m
        }
    }
}

/// Breaks the open chunk at `end` when it is past the target size and no
/// code block is open.
pub open spec fn maybe_size_break(b: Seq<u8>, off: int, m: ChunkerView, end: int, label: Seq<char>) -> ChunkerView {
    if m.depth > 0 {
        m
    } else {
        match m.open {
            Some(o) => if end - o.start > CHUNK_TARGET_BYTES {
                close_open(b, off, m, end, label)
            } else {
                m
            },
            None => m,
        }
    }
}

/// The end of a heading: its text becomes the slot of its level (for H1 to
/// H3), deeper slots are cleared, and the open chunk takes the new path.
pub open spec fn heading_end(m: ChunkerView, level: u8) -> ChunkerView {
    let text = m.buf;
    let m1 = ChunkerView { capturing: false, buf: seq![], ..m };
    if 1 <= level <= 3 {
        let m2 = if level == 1 {
            ChunkerView { h1: text, h2: seq![], h3: seq![], ..m1 }
        } else if level == 2 {
            ChunkerView { h2: text, h3: seq![], ..m1 }
        } else {
            ChunkerView { h3: text, ..m1 }
        };
        match m2.open {
            Some(o) => ChunkerView {
                open: Some(
                    OpenChunkView { heading_path: render_path_spec(m2.h1, m2.h2, m2.h3), ..o },
                ),
                ..m2
            },
            None => m2,
        }
    } else {
        m1
    }
}

pub open spec fn is_block_end(k: MdEventKind) -> bool {
    ||| k is ParagraphEnd
    ||| k is ItemEnd
    ||| k is ListEnd
    ||| k is BlockQuoteEnd
}

/// State updates and size-based breaks that follow the opening of a chunk.
pub open spec fn second_pass(b: Seq<u8>, off: int, m: ChunkerView, e: MdEvent) -> ChunkerView {
    match e.kind {
        MdEventKind::HeadingEnd(l) => heading_end(m, l),
        MdEventKind::CodeBlockStart => ChunkerView { depth: m.depth + 1, ..m },
        MdEventKind::CodeBlockEnd => maybe_size_break(
            b,
            off,
            ChunkerView { depth: if m.depth > 0 { (m.depth - 1) as nat } else { 0 }, ..m },
            e.end as int,
            label_size_after_code_block(),
        ),
        MdEventKind::Text(t) => if m.capturing {
            ChunkerView { buf: m.buf + t@, ..m }
        } else {
            m
        },
        MdEventKind::Code(t) => if m.capturing {
            ChunkerView { buf: m.buf + t@, ..m }
        } else {
            m
        },
        _ => if is_block_end(e.kind) {
            maybe_size_break(b, off, m, e.end as int, label_size_after_block())
        } else {
            m
        },
    }
}

/// One event: a heading start of level 1 to 3 closes the open chunk and
/// opens one of its own; a thematic break closes the open chunk and becomes
/// the boundary of the next; any other event opens a chunk if none is open.
pub open spec fn step(b: Seq<u8>, off: int, m: ChunkerView, e: MdEvent) -> ChunkerView {
    match e.kind {
        MdEventKind::HeadingStart(l) => {
            let m0 = ChunkerView { capturing: true, buf: seq![], ..m };
            if l <= 3 {
                let m1 = close_open(b, off, m0, e.start as int, heading_label(l));
                let m2 = ChunkerView {
                    pending: None,
                    open: Some(
                        OpenChunkView {
                            start: e.start as int,
                            heading_path: seq![],
                            boundary_start: heading_label(l),
                        },
                    ),
                    ..m1
                };
                second_pass(b, off, m2, e)
            } else {
                second_pass(b, off, ensure_open(m0, e.start as int), e)
            }
        },
        MdEventKind::Rule => {
            let m1 = close_open(b, off, m, e.start as int, label_thematic_break());
            ChunkerView { pending: Some(label_thematic_break()), ..m1 }
        },
        _ => second_pass(b, off, ensure_open(m, e.start as int), e),
    }
}

/// The chunker state after the first `n` events.
pub open spec fn run_prefix(b: Seq<u8>, off: int, evs: Seq<MdEvent>, n: nat) -> ChunkerView
    decreases n,
{
    if n == 0 {
        initial_chunker()
    } else {
        step(b, off, run_prefix(b, off, evs, (n - 1) as nat), evs[n - 1])
    }
}

/// The chunks of a body given its event stream: every event is stepped
/// through, and a chunk still open at the end closes at the end of the body.
pub open spec fn run_chunker(b: Seq<u8>, off: int, evs: Seq<MdEvent>) -> Seq<ChunkView> {
    close_open(b, off, run_prefix(b, off, evs, evs.len()), b.len() as int, label_document_end()).chunks
}

// ---------------------------------------------------------------------------
// Well-formedness of emitted chunks
// ---------------------------------------------------------------------------

/// The chunk at position `k` of a body whose bytes are `b`, found at byte
/// `off` of its file: it is numbered `k` (modulo 2^32), covers a non-empty
/// slice of the body, holds exactly that slice, and carries its hash.
pub open spec fn chunk_well_formed(b: Seq<u8>, off: int, c: ChunkView, k: int) -> bool {
    &&& c.chunk_index as int == k % 0x1_0000_0000
    &&& off <= c.start_byte < c.end_byte <= off + b.len()
    &&& encode_utf8(c.content) == b.subrange(c.start_byte - off, c.end_byte - off)
    &&& c.content.len() > 0
    &&& c.content_hash == content_hash_of(c.content)
}

pub open spec fn chunks_well_formed(b: Seq<u8>, off: int, cs: Seq<ChunkView>) -> bool {
    forall|k: int| 0 <= k < cs.len() ==> chunk_well_formed(b, off, #[trigger] cs[k], k)
}

/// What holds of the chunker state between events.
pub open spec fn chunker_inv(b: Seq<u8>, off: int, m: ChunkerView) -> bool {
    &&& valid_utf8(b)
    &&& 0 <= off
    &&& off + b.len() <= usize::MAX
    &&& chunks_well_formed(b, off, m.chunks)
    &&& m.next_index as int == m.chunks.len() % 0x1_0000_0000
    &&& (m.open matches Some(o) ==> 0 <= o.start <= b.len() && is_char_boundary(b, o.start))
}

proof fn lemma_emit_inv(b: Seq<u8>, off: int, m: ChunkerView, o: OpenChunkView, end: int, label: Seq<char>)
    requires
        chunker_inv(b, off, m),
        0 <= o.start <= b.len(),
        is_char_boundary(b, o.start),
        end >= b.len() || (0 <= end && is_char_boundary(b, end)),
    ensures
        chunker_inv(b, off, emit_chunk(b, off, m, o, end, label)),
{
    let e = if end < b.len() { end } else { b.len() as int };
    if e > o.start {
        let content = decode_utf8(b.subrange(o.start, e));
        if content.len() > 0 {
            is_char_boundary_start_end_of_seq(b);
            assert(is_char_boundary(b, e));
            lemma_boundary_in_prefix(b, e, o.start);
            let pre = b.subrange(0, e);
            valid_utf8_split(pre, o.start);
            assert(pre.subrange(o.start, e) =~= b.subrange(o.start, e));
            decode_utf8_encode_utf8(b.subrange(o.start, e));
            let m2 = emit_chunk(b, off, m, o, end, label);
            let k = m.chunks.len() as int;
            assert(m2.chunks[k].chunk_index as int == k % 0x1_0000_0000);
            assert(m2.next_index as int == m2.chunks.len() % 0x1_0000_0000);
            assert forall|j: int| 0 <= j < m2.chunks.len() implies chunk_well_formed(
                b,
                off,
                #[trigger] m2.chunks[j],
                j,
            ) by {
                if j < k {
                    assert(m2.chunks[j] == m.chunks[j]);
                }
            }
        }
    }
}

proof fn lemma_close_open_inv(b: Seq<u8>, off: int, m: ChunkerView, end: int, label: Seq<char>)
    requires
        chunker_inv(b, off, m),
        end >= b.len() || (0 <= end && is_char_boundary(b, end)),
    ensures
        chunker_inv(b, off, close_open(b, off, m, end, label)),
        close_open(b, off, m, end, label).open is None,
{
    if let Some(o) = m.open {
        let m0 = ChunkerView { open: None, ..m };
        lemma_emit_inv(b, off, m0, o, end, label);
        lemma_emit_open(b, off, m0, o, end, label);
    }
}

proof fn lemma_emit_open(b: Seq<u8>, off: int, m: ChunkerView, o: OpenChunkView, end: int, label: Seq<char>)
    ensures
        emit_chunk(b, off, m, o, end, label).open == m.open,
        emit_chunk(b, off, m, o, end, label).depth == m.depth,
        emit_chunk(b, off, m, o, end, label).pending == m.pending,
{
}

proof fn lemma_size_break_inv(b: Seq<u8>, off: int, m: ChunkerView, end: int, label: Seq<char>)
    requires
        chunker_inv(b, off, m),
        0 <= end <= b.len(),
        is_char_boundary(b, end),
    ensures
        chunker_inv(b, off, maybe_size_break(b, off, m, end, label)),
{
    if m.depth == 0 && m.open is Some {
        lemma_close_open_inv(b, off, m, end, label);
    }
}

proof fn lemma_second_pass_inv(b: Seq<u8>, off: int, m: ChunkerView, e: MdEvent)
    requires
        chunker_inv(b, off, m),
        event_in_source(e, b),
    ensures
        chunker_inv(b, off, second_pass(b, off, m, e)),
{
    match e.kind {
        MdEventKind::CodeBlockEnd => {
            let m1 = ChunkerView { depth: if m.depth > 0 { (m.depth - 1) as nat } else { 0 }, ..m };
            lemma_size_break_inv(b, off, m1, e.end as int, label_size_after_code_block());
        },
        MdEventKind::HeadingEnd(l) => {},
        MdEventKind::CodeBlockStart => {},
        MdEventKind::Text(t) => {},
        MdEventKind::Code(t) => {},
        _ => {
            if is_block_end(e.kind) {
                lemma_size_break_inv(b, off, m, e.end as int, label_size_after_block());
            }
        },
    }
}

/// Every step keeps the chunker invariant.
proof fn lemma_step_inv(b: Seq<u8>, off: int, m: ChunkerView, e: MdEvent)
    requires
        chunker_inv(b, off, m),
        event_in_source(e, b),
    ensures
        chunker_inv(b, off, step(b, off, m, e)),
{
    match e.kind {
        MdEventKind::HeadingStart(l) => {
            let m0 = ChunkerView { capturing: true, buf: seq![], ..m };
            if l <= 3 {
                lemma_close_open_inv(b, off, m0, e.start as int, heading_label(l));
                let m1 = close_open(b, off, m0, e.start as int, heading_label(l));
                let m2 = ChunkerView {
                    pending: None,
                    open: Some(
                        OpenChunkView {
                            start: e.start as int,
                            heading_path: seq![],
                            boundary_start: heading_label(l),
                        },
                    ),
                    ..m1
                };
                lemma_second_pass_inv(b, off, m2, e);
            } else {
                lemma_second_pass_inv(b, off, ensure_open(m0, e.start as int), e);
            }
        },
        MdEventKind::Rule => {
            lemma_close_open_inv(b, off, m, e.start as int, label_thematic_break());
        },
        _ => {
            lemma_second_pass_inv(b, off, ensure_open(m, e.start as int), e);
        },
    }
}

proof fn lemma_step_depth(b: Seq<u8>, off: int, m: ChunkerView, e: MdEvent)
    ensures
        step(b, off, m, e).depth <= m.depth + 1,
{
    match e.kind {
        MdEventKind::HeadingStart(l) => {
            let m0 = ChunkerView { capturing: true, buf: seq![], ..m };
            if let Some(o) = m0.open {
                lemma_emit_open(b, off, ChunkerView { open: None, ..m0 }, o, e.start as int, heading_label(l));
            }
        },
        MdEventKind::Rule => {
            if let Some(o) = m.open {
                lemma_emit_open(b, off, ChunkerView { open: None, ..m }, o, e.start as int, label_thematic_break());
            }
        },
        MdEventKind::CodeBlockEnd => {
            let m0 = ensure_open(m, e.start as int);
            let m1 = ChunkerView { depth: if m0.depth > 0 { (m0.depth - 1) as nat } else { 0 }, ..m0 };
            if let Some(o) = m1.open {
                lemma_emit_open(b, off, ChunkerView { open: None, ..m1 }, o, e.end as int, label_size_after_code_block());
            }
        },
        _ => {
            let m0 = ensure_open(m, e.start as int);
            if let Some(o) = m0.open {
                lemma_emit_open(b, off, ChunkerView { open: None, ..m0 }, o, e.end as int, label_size_after_block());
            }
        },
    }
}

proof fn lemma_run_prefix_inv(b: Seq<u8>, off: int, evs: Seq<MdEvent>, n: nat)
    requires
        valid_utf8(b),
        0 <= off,
        off + b.len() <= usize::MAX,
        n <= evs.len(),
        forall|i: int| 0 <= i < evs.len() ==> event_in_source(#[trigger] evs[i], b),
    ensures
        chunker_inv(b, off, run_prefix(b, off, evs, n)),
    decreases n,
{
    if n > 0 {
        lemma_run_prefix_inv(b, off, evs, (n - 1) as nat);
        lemma_step_inv(b, off, run_prefix(b, off, evs, (n - 1) as nat), evs[n - 1]);
    }
}

/// The chunks of a body are well formed whatever its event stream, as long
/// as the events lie in the body.
pub proof fn lemma_run_chunker_well_formed(b: Seq<u8>, off: int, evs: Seq<MdEvent>)
    requires
        valid_utf8(b),
        0 <= off,
        off + b.len() <= usize::MAX,
        forall|i: int| 0 <= i < evs.len() ==> event_in_source(#[trigger] evs[i], b),
    ensures
        chunks_well_formed(b, off, run_chunker(b, off, evs)),
{
    lemma_run_prefix_inv(b, off, evs, evs.len());
    is_char_boundary_start_end_of_seq(b);
    lemma_close_open_inv(b, off, run_prefix(b, off, evs, evs.len()), b.len() as int, label_document_end());
}

// ---------------------------------------------------------------------------
// The executable chunker
// ---------------------------------------------------------------------------

struct OpenChunk {
    start: usize,
    heading_path: String,
    boundary_start: String,
}

impl View for OpenChunk {
    type V = OpenChunkView;

    closed spec fn view(&self) -> OpenChunkView {
        OpenChunkView {
            start: self.start as int,
            heading_path: self.heading_path@,
            boundary_start: self.boundary_start@,
        }
    }
}

/// Tracks the most recent H1, H2, H3 heading text (`h1`, `h2`, `h3`).
struct Chunker {
    body_offset_in_file: usize,
    h1: String,
    h2: String,
    h3: String,
    chunks: Vec<Chunk>,
    next_index: u32,
    open_chunk: Option<OpenChunk>,
    code_block_depth: usize,
    capturing_heading: bool,
    heading_text_buf: String,
    pending_boundary_start: Option<String>,
}

impl View for Chunker {
    type V = ChunkerView;

    closed spec fn view(&self) -> ChunkerView {
        ChunkerView {
            h1: self.h1@,
            h2: self.h2@,
            h3: self.h3@,
            chunks: chunk_views(self.chunks@),
            next_index: self.next_index,
            open: match self.open_chunk {
                Some(o) => Some(o@),
                None => None,
            },
            depth: self.code_block_depth as nat,
            capturing: self.capturing_heading,
            buf: self.heading_text_buf@,
            pending: match self.pending_boundary_start {
                Some(p) => Some(p@),
                None => None,
            },
        }
    }
}

impl Chunker {
    fn new(body_offset_in_file: usize) -> (c: Self)
        ensures
            c@ == initial_chunker(),
            c.body_offset_in_file == body_offset_in_file,
    {
        let c = Chunker {
            body_offset_in_file,
            h1: String::new(),
            h2: String::new(),
            h3: String::new(),
            chunks: Vec::new(),
            next_index: 0,
            open_chunk: None,
            code_block_depth: 0,
            capturing_heading: false,
            heading_text_buf: String::new(),
            pending_boundary_start: None,
        };
        assert(chunk_views(c.chunks@) =~= seq![]);
        c
    }

    fn emit(&mut self, body: &str, open: OpenChunk, end: usize, boundary_end: String)
        requires
            old(self).body_offset_in_file + body.spec_bytes().len() <= usize::MAX,
            open.start <= body.spec_bytes().len(),
            is_char_boundary(body.spec_bytes(), open.start as int),
            end >= body.spec_bytes().len() || is_char_boundary(body.spec_bytes(), end as int),
        ensures
            final(self)@ == emit_chunk(
                body.spec_bytes(),
                old(self).body_offset_in_file as int,
                old(self)@,
                open@,
                end as int,
                boundary_end@,
            ),
            final(self).body_offset_in_file == old(self).body_offset_in_file,
    {
        let ghost b = body.spec_bytes();
        let len = body.len();
        let end = if end < len {
            end
        } else {
            len
        };
        if end <= open.start {
            return ;
        }
        proof {
            is_char_boundary_start_end_of_seq(b);
            lemma_boundary_in_prefix(b, end as int, open.start as int);
        }
        let (left, _) = body.split_at(end);
        let (_, mid) = left.split_at(open.start);
        proof {
            assert(mid.spec_bytes() =~= b.subrange(open.start as int, end as int));
        }
        if mid.is_empty() {
            return ;
        }
        let content = owned(mid);
        let digest = sha256(mid.as_bytes());
        let mut content_hash = String::from_str("sha256:");
        let hex = hex_encode(digest.as_slice());
        content_hash.append(hex.as_str());
        let ghost old_chunks = self.chunks@;
        self.chunks.push(
            Chunk {
                chunk_index: self.next_index,
                heading_path: open.heading_path,
                content,
                content_hash,
                start_byte: self.body_offset_in_file + open.start,
                end_byte: self.body_offset_in_file + end,
                boundary_start: open.boundary_start,
                boundary_end,
            },
        );
        self.next_index = self.next_index.wrapping_add(1);
        proof {
            assert(chunk_views(self.chunks@) =~= chunk_views(old_chunks).push(
                self.chunks@.last()@,
            ));
        }
    }

    /// Closes the open chunk, if any, at `end`.
    fn close_open(&mut self, body: &str, end: usize, label: String)
        requires
            old(self).body_offset_in_file + body.spec_bytes().len() <= usize::MAX,
            chunker_inv(body.spec_bytes(), old(self).body_offset_in_file as int, old(self)@),
            end >= body.spec_bytes().len() || is_char_boundary(body.spec_bytes(), end as int),
        ensures
            final(self)@ == close_open(
                body.spec_bytes(),
                old(self).body_offset_in_file as int,
                old(self)@,
                end as int,
                label@,
            ),
            final(self).body_offset_in_file == old(self).body_offset_in_file,
    {
        let taken = self.open_chunk.take();
        match taken {
            Some(open) => {
                self.emit(body, open, end, label);
            },
            None => {},
        }
    }

    fn ensure_open(&mut self, start: usize)
        ensures
            final(self)@ == ensure_open(old(self)@, start as int),
            final(self).body_offset_in_file == old(self).body_offset_in_file,
    {
        if self.open_chunk.is_none() {
            let heading_path = render3(&self.h1, &self.h2, &self.h3);
            let boundary_start = match self.pending_boundary_start.take() {
                Some(p) => p,
                None => String::from_str("document_start"),
            };
            self.open_chunk = Some(OpenChunk { start, heading_path, boundary_start });
        }
    }

    fn maybe_size_break(&mut self, body: &str, end: usize, label: String)
        requires
            old(self).body_offset_in_file + body.spec_bytes().len() <= usize::MAX,
            chunker_inv(body.spec_bytes(), old(self).body_offset_in_file as int, old(self)@),
            end <= body.spec_bytes().len(),
            is_char_boundary(body.spec_bytes(), end as int),
        ensures
            final(self)@ == maybe_size_break(
                body.spec_bytes(),
                old(self).body_offset_in_file as int,
                old(self)@,
                end as int,
                label@,
            ),
            final(self).body_offset_in_file == old(self).body_offset_in_file,
    {
        if self.code_block_depth > 0 {
            return ;
        }
        let len = match &self.open_chunk {
            Some(o) => end.saturating_sub(o.start),
            None => 0,
        };
        if len > CHUNK_TARGET_BYTES {
            self.close_open(body, end, label);
        }
    }

    fn heading_end(&mut self, level: u8)
        ensures
            final(self)@ == heading_end(old(self)@, level),
            final(self).body_offset_in_file == old(self).body_offset_in_file,
    {
        self.capturing_heading = false;
        let mut text = String::new();
        std::mem::swap(&mut text, &mut self.heading_text_buf);
        if 1 <= level && level <= 3 {
            if level == 1 {
                self.h1 = text;
                self.h2 = String::new();
                self.h3 = String::new();
            } else if level == 2 {
                self.h2 = text;
                self.h3 = String::new();
            } else {
                self.h3 = text;
            }
            let path = render3(&self.h1, &self.h2, &self.h3);
            match &mut self.open_chunk {
                Some(o) => {
                    o.heading_path = path;
                },
                None => {},
            }
        }
    }

    fn second_pass(&mut self, body: &str, e: &MdEvent)
        requires
            old(self).body_offset_in_file + body.spec_bytes().len() <= usize::MAX,
            chunker_inv(body.spec_bytes(), old(self).body_offset_in_file as int, old(self)@),
            event_in_source(*e, body.spec_bytes()),
            old(self).code_block_depth < usize::MAX,
        ensures
            final(self)@ == second_pass(
                body.spec_bytes(),
                old(self).body_offset_in_file as int,
                old(self)@,
                *e,
            ),
            final(self).body_offset_in_file == old(self).body_offset_in_file,
    {
        match &e.kind {
            MdEventKind::HeadingEnd(l) => {
                self.heading_end(*l);
            },
            MdEventKind::CodeBlockStart => {
                self.code_block_depth = self.code_block_depth + 1;
            },
            MdEventKind::CodeBlockEnd => {
                self.code_block_depth = self.code_block_depth.saturating_sub(1);
                self.maybe_size_break(body, e.end, String::from_str("size_after_code_block"));
            },
            MdEventKind::ParagraphEnd | MdEventKind::ItemEnd | MdEventKind::ListEnd
            | MdEventKind::BlockQuoteEnd => {
                self.maybe_size_break(body, e.end, String::from_str("size_after_block"));
            },
            MdEventKind::Text(t) | MdEventKind::Code(t) => {
                if self.capturing_heading {
                    self.heading_text_buf.append(t.as_str());
                }
            },
            _ => {},
        }
    }

    fn handle_event(&mut self, body: &str, e: &MdEvent)
        requires
            old(self).body_offset_in_file + body.spec_bytes().len() <= usize::MAX,
            chunker_inv(body.spec_bytes(), old(self).body_offset_in_file as int, old(self)@),
            event_in_source(*e, body.spec_bytes()),
            old(self).code_block_depth < usize::MAX,
        ensures
            final(self)@ == step(
                body.spec_bytes(),
                old(self).body_offset_in_file as int,
                old(self)@,
                *e,
            ),
            final(self).body_offset_in_file == old(self).body_offset_in_file,
    {
        let ghost b = body.spec_bytes();
        let ghost off = self.body_offset_in_file as int;
        match &e.kind {
            MdEventKind::HeadingStart(l) => {
                let l = *l;
                self.capturing_heading = true;
                self.heading_text_buf = String::new();
                if l <= 3 {
                    proof {
                        lemma_close_open_inv(b, off, self@, e.start as int, heading_label(l));
                    }
                    self.close_open(body, e.start, heading_label_string(l));
                    self.pending_boundary_start = None;
                    self.open_chunk = Some(
                        OpenChunk {
                            start: e.start,
                            heading_path: String::new(),
                            boundary_start: heading_label_string(l),
                        },
                    );
                    proof {
                        is_char_boundary_start_end_of_seq(b);
                    }
                    self.second_pass(body, e);
                } else {
                    self.ensure_open(e.start);
                    self.second_pass(body, e);
                }
            },
            MdEventKind::Rule => {
                self.close_open(body, e.start, String::from_str("thematic_break"));
                self.pending_boundary_start = Some(String::from_str("thematic_break"));
            },
            _ => {
                self.ensure_open(e.start);
                self.second_pass(body, e);
            },
        }
    }
}

/// Chunks a body given its Markdown event stream. `body_offset_in_file` is
/// the byte offset of the body in its file; chunk offsets are file offsets.
pub fn chunk_events(body: &str, body_offset_in_file: usize, events: &Vec<MdEvent>) -> (chunks: Vec<
    Chunk,
>)
    requires
        body_offset_in_file + body.spec_bytes().len() <= usize::MAX,
        forall|i: int| 0 <= i < events@.len() ==> event_in_source(#[trigger] events@[i], body.spec_bytes()),
    ensures
        chunk_views(chunks@) == run_chunker(body.spec_bytes(), body_offset_in_file as int, events@),
        chunks_well_formed(body.spec_bytes(), body_offset_in_file as int, chunk_views(chunks@)),
{
    let ghost b = body.spec_bytes();
    let ghost off = body_offset_in_file as int;
    let mut chunker = Chunker::new(body_offset_in_file);
    let mut i: usize = 0;
    while i < events.len()
        invariant
            i <= events@.len(),
            chunker.body_offset_in_file == body_offset_in_file,
            off + b.len() <= usize::MAX,
            b == body.spec_bytes(),
            off == body_offset_in_file as int,
            forall|j: int| 0 <= j < events@.len() ==> event_in_source(#[trigger] events@[j], b),
            chunker@ == run_prefix(b, off, events@, i as nat),
            chunker.code_block_depth <= i,
        decreases events@.len() - i,
    {
        proof {
            lemma_run_prefix_inv(b, off, events@, i as nat);
        }
        proof {
            lemma_step_depth(b, off, chunker@, events@[i as int]);
        }
        chunker.handle_event(body, &events[i]);
        i += 1;
    }
    proof {
        lemma_run_prefix_inv(b, off, events@, i as nat);
        is_char_boundary_start_end_of_seq(b);
    }
    chunker.close_open(body, body.len(), String::from_str("document_end"));
    proof {
        lemma_run_chunker_well_formed(b, off, events@);
    }
    chunker.chunks
}

// ---------------------------------------------------------------------------
// Frontmatter and whole files
// ---------------------------------------------------------------------------

pub open spec fn fm_open() -> Seq<char> {
    seq!['-', '-', '-', '\n']
}

pub open spec fn fm_close() -> Seq<char> {
    seq!['\n', '-', '-', '-', '\n']
}

/// The first position at or after `i` where `\n---\n` occurs in `s`.
pub open spec fn find_fm_close(s: Seq<char>, i: nat) -> Option<nat>
    decreases s.len() - i,
{
    if i + 5 > s.len() {
        None
    } else if s.subrange(i as int, i + 5int) == fm_close() {
        Some(i)
    } else {
        find_fm_close(s, i + 1)
    }
}

/// YAML frontmatter is a file that starts with `---\n`, up to the first
/// `\n---\n` after it. The result is `(frontmatter, body)`; without
/// frontmatter (or when it is not closed) it is `(None, whole file)`.
pub open spec fn split_frontmatter_spec(c: Seq<char>) -> (Option<Seq<char>>, Seq<char>) {
    if c.len() >= 4 && c.subrange(0, 4) == fm_open() {
        let rest = c.subrange(4, c.len() as int);
        match find_fm_close(rest, 0) {
            Some(k) => (Some(rest.subrange(0, k as int)), rest.subrange(k + 5int, rest.len() as int)),
            None => (None, c),
        }
    } else {
        (None, c)
    }
}

proof fn lemma_find_fm_close_skip(s: Seq<char>, i: nat)
    requires
        i + 5 <= s.len(),
        s.subrange(i as int, i + 5int) != fm_close(),
    ensures
        find_fm_close(s, i) == find_fm_close(s, i + 1),
{
}

/// Splits YAML frontmatter (delimited by `---\n` ... `\n---\n`) off the top
/// of the file, returning `(frontmatter, body)`.
pub fn split_frontmatter(content: &str) -> (r: (Option<&str>, &str))
    ensures
        r.0 is Some == split_frontmatter_spec(content@).0 is Some,
        r.0 matches Some(f) ==> f@ == split_frontmatter_spec(content@).0.unwrap(),
        r.1@ == split_frontmatter_spec(content@).1,
{
    let cs = chars_of(content);
    let n = cs.len();
    if !(n >= 4 && cs[0] == '-' && cs[1] == '-' && cs[2] == '-' && cs[3] == '\n') {
        proof {
            if n >= 4 {
                assert(!(content@.subrange(0, 4) =~= fm_open())) by {
                    if content@.subrange(0, 4) =~= fm_open() {
                        assert(content@.subrange(0, 4)[0] == cs@[0]);
                        assert(content@.subrange(0, 4)[1] == cs@[1]);
                        assert(content@.subrange(0, 4)[2] == cs@[2]);
                        assert(content@.subrange(0, 4)[3] == cs@[3]);
                    }
                }
            }
        }
        return (None, content);
    }
    let ghost rest = content@.subrange(4, n as int);
    assert(content@.subrange(0, 4) =~= fm_open());
    let mut i: usize = 4;
    while n >= 5 && i <= n - 5
        invariant
            4 <= i <= n,
            n == cs@.len(),
            cs@ == content@,
            rest == content@.subrange(4, n as int),
            content@.subrange(0, 4) == fm_open(),
            find_fm_close(rest, 0) == find_fm_close(rest, (i - 4) as nat),
        decreases n - i,
    {
        let ghost k = (i - 4) as nat;
        if cs[i] == '\n' && cs[i + 1] == '-' && cs[i + 2] == '-' && cs[i + 3] == '-' && cs[i + 4]
            == '\n' {
            assert(rest.subrange(k as int, k + 5int) =~= fm_close());
            assert(k + 5 <= rest.len());
            assert(find_fm_close(rest, k) == Some(k));
            let fm = content.substring_char(4, i);
            let body = content.substring_char(i + 5, n);
            assert(fm@ =~= rest.subrange(0, k as int));
            assert(body@ =~= rest.subrange(k + 5int, rest.len() as int));
            return (Some(fm), body);
        }
        proof {
            assert(rest.subrange(k as int, k + 5int) != fm_close()) by {
                if rest.subrange(k as int, k + 5int) =~= fm_close() {
                    assert(rest.subrange(k as int, k + 5int)[0] == cs@[i as int]);
                    assert(rest.subrange(k as int, k + 5int)[1] == cs@[i + 1]);
                    assert(rest.subrange(k as int, k + 5int)[2] == cs@[i + 2]);
                    assert(rest.subrange(k as int, k + 5int)[3] == cs@[i + 3]);
                    assert(rest.subrange(k as int, k + 5int)[4] == cs@[i + 4]);
                }
            }
            lemma_find_fm_close_skip(rest, k);
        }
        i += 1;
    }
    assert(i + 5 > n);
    assert(find_fm_close(rest, (i - 4) as nat) is None);
    (None, content)
}

/// The byte offset of the body of a file in the file: past `---\n`, the
/// frontmatter and `\n---\n` when there is frontmatter, else 0.
pub open spec fn body_offset_spec(file: Seq<char>) -> int {
    match split_frontmatter_spec(file).0 {
        Some(f) => 4 + encode_utf8(f).len() as int + 5,
        None => 0,
    }
}

/// The byte offset of a body in its file, and the file's bytes: the body's
/// bytes are the file's bytes from that offset on.
proof fn lemma_body_in_file(file: Seq<char>)
    ensures
        ({
            let body = split_frontmatter_spec(file).1;
            let off = body_offset_spec(file);
            &&& 0 <= off
            &&& off + encode_utf8(body).len() == encode_utf8(file).len()
            &&& encode_utf8(file).subrange(off, encode_utf8(file).len() as int) == encode_utf8(body)
        }),
{
    let body = split_frontmatter_spec(file).1;
    match split_frontmatter_spec(file).0 {
        Some(f) => {
            let rest = file.subrange(4, file.len() as int);
            let k = find_fm_close(rest, 0).unwrap();
            lemma_find_fm_close_bound(rest, 0);
            assert(file =~= fm_open() + f + fm_close() + body);
            crate::text::lemma_encode_utf8_concat(fm_open() + f + fm_close(), body);
            crate::text::lemma_encode_utf8_concat(fm_open() + f, fm_close());
            crate::text::lemma_encode_utf8_concat(fm_open(), f);
            reveal_with_fuel(encode_utf8, 6);
            assert(encode_utf8(fm_open()).len() == 4);
            assert(encode_utf8(fm_close()).len() == 5);
            assert(encode_utf8(file).subrange(
                4 + encode_utf8(f).len() as int + 5,
                encode_utf8(file).len() as int,
            ) =~= encode_utf8(body));
        },
        None => {
            assert(encode_utf8(file).subrange(0, encode_utf8(file).len() as int) =~= encode_utf8(file));
        },
    }
}

proof fn lemma_find_fm_close_bound(s: Seq<char>, i: nat)
    ensures
        find_fm_close(s, i) matches Some(k) ==> i <= k && k + 5 <= s.len() && s.subrange(
            k as int,
            k + 5int,
        ) == fm_close(),
    decreases s.len() - i,
{
    if i + 5 <= s.len() && s.subrange(i as int, i + 5int) != fm_close() {
        lemma_find_fm_close_bound(s, i + 1);
    }
}

/// A chunk of a file: its offsets are file offsets past the frontmatter and
/// its content is exactly the file's bytes between them.
pub open spec fn chunk_in_file(file: Seq<u8>, off: int, c: ChunkView) -> bool {
    &&& off <= c.start_byte < c.end_byte <= file.len()
    &&& encode_utf8(c.content) == file.subrange(c.start_byte as int, c.end_byte as int)
}

/// Chunks a Markdown file. Empty bodies (including frontmatter-only files)
/// produce zero chunks.
#[verifier::rlimit(30)]
pub fn chunk_file(file_content: &str) -> (chunks: Vec<Chunk>)
    ensures
        ({
            let body = split_frontmatter_spec(file_content@).1;
            let off = body_offset_spec(file_content@);
            &&& chunk_views(chunks@) == run_chunker(encode_utf8(body), off, markdown_events_of(body))
            &&& chunk_views(chunks@) == file_chunks(file_content@)
            &&& chunks_well_formed(encode_utf8(body), off, chunk_views(chunks@))
            &&& forall|k: int|
                0 <= k < chunks@.len() ==> chunk_in_file(
                    file_content.spec_bytes(),
                    off,
                    #[trigger] chunks@[k]@,
                )
            &&& (body.len() == 0 ==> chunks@.len() == 0)
        }),
{
    let _file_len = file_content.as_bytes().len();
    let (frontmatter, body) = split_frontmatter(file_content);
    proof {
        lemma_body_in_file(file_content@);
    }
    let body_offset_in_file = match frontmatter {
        Some(fm) => 4 + fm.len() + 5,
        None => 0,
    };
    let events = markdown_events(body);
    let chunks = chunk_events(body, body_offset_in_file, &events);
    proof {
        let b = body.spec_bytes();
        let off = body_offset_in_file as int;
        let fb = file_content.spec_bytes();
        let cv = chunk_views(chunks@);
        assert forall|k: int| 0 <= k < chunks@.len() implies chunk_in_file(
            fb,
            off,
            #[trigger] chunks@[k]@,
        ) by {
            assert(cv[k] == chunks@[k]@);
            assert(chunk_well_formed(b, off, cv[k], k));
            let c = cv[k];
            assert(fb.subrange(off, fb.len() as int) == b);
            assert(fb.subrange(c.start_byte as int, c.end_byte as int) =~= b.subrange(
                c.start_byte - off,
                c.end_byte - off,
            ));
        }
        if body@.len() == 0 && chunks@.len() > 0 {
            assert(chunk_well_formed(b, off, cv[0], 0));
        }
    }
    chunks
}

// ---------------------------------------------------------------------------
// Frontmatter only shifts chunk offsets
// ---------------------------------------------------------------------------

/// A chunk moved `d` bytes further into its file.
pub open spec fn shift_chunk(c: ChunkView, d: int) -> ChunkView {
    ChunkView { start_byte: (c.start_byte + d) as usize, end_byte: (c.end_byte + d) as usize, ..c }
}

/// Chunks moved `d` bytes further into their file.
pub open spec fn shift_chunks(cs: Seq<ChunkView>, d: int) -> Seq<ChunkView> {
    cs.map_values(|c: ChunkView| shift_chunk(c, d))
}

/// The chunks `chunk_file` gives a file.
pub open spec fn file_chunks(file: Seq<char>) -> Seq<ChunkView> {
    let body = split_frontmatter_spec(file).1;
    run_chunker(encode_utf8(body), body_offset_spec(file), markdown_events_of(body))
}

/// A chunker state whose chunks are moved `d` bytes.
pub open spec fn shifted_state(m: ChunkerView, d: int) -> ChunkerView {
    ChunkerView { chunks: shift_chunks(m.chunks, d), ..m }
}

/// The open chunk, if any, starts at a byte position.
pub open spec fn open_in_range(m: ChunkerView) -> bool {
    m.open matches Some(o) ==> 0 <= o.start <= usize::MAX
}

proof fn lemma_shift_push(cs: Seq<ChunkView>, c: ChunkView, d: int)
    ensures
        shift_chunks(cs.push(c), d) == shift_chunks(cs, d).push(shift_chunk(c, d)),
{
    assert(shift_chunks(cs.push(c), d) =~= shift_chunks(cs, d).push(shift_chunk(c, d)));
}

proof fn lemma_emit_shift(b: Seq<u8>, d: int, m: ChunkerView, o: OpenChunkView, end: int, label: Seq<char>)
    requires
        0 <= o.start <= usize::MAX,
        b.len() <= usize::MAX,
    ensures
        emit_chunk(b, d, shifted_state(m, d), o, end, label) == shifted_state(emit_chunk(b, 0, m, o, end, label), d),
{
    let e = if end < b.len() { end } else { b.len() as int };
    if e > o.start {
        let content = decode_utf8(b.subrange(o.start, e));
        if content.len() > 0 {
            let c0 = ChunkView {
                chunk_index: m.next_index,
                heading_path: o.heading_path,
                content: content,
                content_hash: content_hash_of(content),
                start_byte: (0 + o.start) as usize,
                end_byte: (0 + e) as usize,
                boundary_start: o.boundary_start,
                boundary_end: label,
            };
            lemma_shift_push(m.chunks, c0, d);
            assert(shift_chunk(c0, d).start_byte == (d + o.start) as usize);
            assert(shift_chunk(c0, d).end_byte == (d + e) as usize);
        }
    }
}

proof fn lemma_close_shift(b: Seq<u8>, d: int, m: ChunkerView, end: int, label: Seq<char>)
    requires
        open_in_range(m),
        b.len() <= usize::MAX,
    ensures
        close_open(b, d, shifted_state(m, d), end, label) == shifted_state(close_open(b, 0, m, end, label), d),
{
    if let Some(o) = m.open {
        assert(ChunkerView { open: None, ..shifted_state(m, d) } == shifted_state(ChunkerView { open: None, ..m }, d));
        lemma_emit_shift(b, d, ChunkerView { open: None, ..m }, o, end, label);
    }
}

proof fn lemma_size_break_shift(b: Seq<u8>, d: int, m: ChunkerView, end: int, label: Seq<char>)
    requires
        open_in_range(m),
        b.len() <= usize::MAX,
    ensures
        maybe_size_break(b, d, shifted_state(m, d), end, label) == shifted_state(
            maybe_size_break(b, 0, m, end, label),
            d,
        ),
{
    lemma_close_shift(b, d, m, end, label);
}

proof fn lemma_second_pass_shift(b: Seq<u8>, d: int, m: ChunkerView, e: MdEvent)
    requires
        open_in_range(m),
        b.len() <= usize::MAX,
    ensures
        second_pass(b, d, shifted_state(m, d), e) == shifted_state(second_pass(b, 0, m, e), d),
        open_in_range(second_pass(b, 0, m, e)),
{
    match e.kind {
        MdEventKind::CodeBlockEnd => {
            let m1 = ChunkerView { depth: if m.depth > 0 { (m.depth - 1) as nat } else { 0 }, ..m };
            assert(ChunkerView { depth: if m.depth > 0 { (m.depth - 1) as nat } else { 0 }, ..shifted_state(m, d) }
                == shifted_state(m1, d));
            lemma_size_break_shift(b, d, m1, e.end as int, label_size_after_code_block());
        },
        MdEventKind::HeadingEnd(l) => {},
        MdEventKind::CodeBlockStart => {},
        MdEventKind::Text(t) => {},
        MdEventKind::Code(t) => {},
        _ => {
            if is_block_end(e.kind) {
                lemma_size_break_shift(b, d, m, e.end as int, label_size_after_block());
            }
        },
    }
}

proof fn lemma_step_shift(b: Seq<u8>, d: int, m: ChunkerView, e: MdEvent)
    requires
        open_in_range(m),
        b.len() <= usize::MAX,
    ensures
        step(b, d, shifted_state(m, d), e) == shifted_state(step(b, 0, m, e), d),
        open_in_range(step(b, 0, m, e)),
{
    match e.kind {
        MdEventKind::HeadingStart(l) => {
            let m0 = ChunkerView { capturing: true, buf: seq![], ..m };
            assert(ChunkerView { capturing: true, buf: seq![], ..shifted_state(m, d) } == shifted_state(m0, d));
            if l <= 3 {
                lemma_close_shift(b, d, m0, e.start as int, heading_label(l));
                let m1 = close_open(b, 0, m0, e.start as int, heading_label(l));
                let o = OpenChunkView { start: e.start as int, heading_path: seq![], boundary_start: heading_label(l) };
                let m2 = ChunkerView { pending: None, open: Some(o), ..m1 };
                assert(ChunkerView { pending: None, open: Some(o), ..shifted_state(m1, d) } == shifted_state(m2, d));
                lemma_second_pass_shift(b, d, m2, e);
            } else {
                let m1 = ensure_open(m0, e.start as int);
                assert(ensure_open(shifted_state(m0, d), e.start as int) == shifted_state(m1, d));
                lemma_second_pass_shift(b, d, m1, e);
            }
        },
        MdEventKind::Rule => {
            lemma_close_shift(b, d, m, e.start as int, label_thematic_break());
            let m1 = close_open(b, 0, m, e.start as int, label_thematic_break());
            assert(ChunkerView { pending: Some(label_thematic_break()), ..shifted_state(m1, d) } == shifted_state(
                ChunkerView { pending: Some(label_thematic_break()), ..m1 },
                d,
            ));
        },
        _ => {
            let m1 = ensure_open(m, e.start as int);
            assert(ensure_open(shifted_state(m, d), e.start as int) == shifted_state(m1, d));
            lemma_second_pass_shift(b, d, m1, e);
        },
    }
}

proof fn lemma_run_prefix_shift(b: Seq<u8>, d: int, evs: Seq<MdEvent>, n: nat)
    requires
        n <= evs.len(),
        b.len() <= usize::MAX,
    ensures
        run_prefix(b, d, evs, n) == shifted_state(run_prefix(b, 0, evs, n), d),
        open_in_range(run_prefix(b, 0, evs, n)),
    decreases n,
{
    if n == 0 {
        assert(shift_chunks(Seq::<ChunkView>::empty(), d) =~= Seq::<ChunkView>::empty());
    } else {
        lemma_run_prefix_shift(b, d, evs, (n - 1) as nat);
        lemma_step_shift(b, d, run_prefix(b, 0, evs, (n - 1) as nat), evs[n - 1]);
    }
}

/// When a heading of level 1 to 3 ends inside an open chunk, the chunk's
/// heading path is the enclosing headings above that level followed by the
/// heading's own text; nothing from a deeper level survives. After `## D`,
/// the path is `H1/D` whatever H3 came before.
pub proof fn law_heading_path_drops_deeper_levels(m: ChunkerView, level: u8)
    requires
        1 <= level <= 3,
        m.open is Some,
    ensures
        heading_end(m, level).open is Some,
        heading_end(m, level).open->0.heading_path == render_path_spec(
            if level == 1 {
                m.buf
            } else {
                m.h1
            },
            if level == 1 {
                seq![]
            } else if level == 2 {
                m.buf
            } else {
                m.h2
            },
            if level == 3 {
                m.buf
            } else {
                seq![]
            },
        ),
{
}

proof fn lemma_step_slots(b: Seq<u8>, off: int, m: ChunkerView, e: MdEvent)
    ensures
        e.kind is HeadingEnd ==> {
            let h = heading_end(m, e.kind->HeadingEnd_0);
            let r = step(b, off, m, e);
            r.h1 == h.h1 && r.h2 == h.h2 && r.h3 == h.h3
        },
        !(e.kind is HeadingEnd) ==> {
            let r = step(b, off, m, e);
            r.h1 == m.h1 && r.h2 == m.h2 && r.h3 == m.h3
        },
{
}

/// Every heading slot holds the text of the latest heading of its level,
/// and is empty once a shallower heading has ended after it: at any point
/// of the event stream, a non-empty H3 slot comes from an H3 that no H1 or
/// H2 has ended since, and a non-empty H2 slot from an H2 that no H1 has
/// ended since.
pub proof fn law_heading_slots_follow_the_outline(b: Seq<u8>, off: int, evs: Seq<MdEvent>, n: nat)
    requires
        n <= evs.len(),
    ensures
        run_prefix(b, off, evs, n).h3.len() > 0 ==> exists|k: int|
            0 <= k < n && (#[trigger] evs[k]).kind == MdEventKind::HeadingEnd(3u8) && forall|j: int|
                k < j < n ==> (#[trigger] evs[j]).kind != MdEventKind::HeadingEnd(1u8) && evs[j].kind
                    != MdEventKind::HeadingEnd(2u8),
        run_prefix(b, off, evs, n).h2.len() > 0 ==> exists|k: int|
            0 <= k < n && (#[trigger] evs[k]).kind == MdEventKind::HeadingEnd(2u8) && forall|j: int|
                k < j < n ==> (#[trigger] evs[j]).kind != MdEventKind::HeadingEnd(1u8),
    decreases n,
{
    if n > 0 {
        let p = (n - 1) as nat;
        let m = run_prefix(b, off, evs, p);
        let e = evs[p as int];
        let r = run_prefix(b, off, evs, n);
        law_heading_slots_follow_the_outline(b, off, evs, p);
        lemma_step_slots(b, off, m, e);
        assert(r == step(b, off, m, e));
        if r.h3.len() > 0 {
            if e.kind == MdEventKind::HeadingEnd(3u8) {
                assert(evs[p as int].kind == MdEventKind::HeadingEnd(3u8));
            } else {
                assert(m.h3.len() > 0);
                let k = choose|k: int|
                    0 <= k < p && (#[trigger] evs[k]).kind == MdEventKind::HeadingEnd(3u8) && forall|j: int|
                        k < j < p ==> (#[trigger] evs[j]).kind != MdEventKind::HeadingEnd(1u8) && evs[j].kind
                            != MdEventKind::HeadingEnd(2u8);
                assert(evs[k].kind == MdEventKind::HeadingEnd(3u8));
                assert forall|j: int| k < j < n implies (#[trigger] evs[j]).kind != MdEventKind::HeadingEnd(1u8)
                    && evs[j].kind != MdEventKind::HeadingEnd(2u8) by {
                    if j < p {
                    }
                }
            }
        }
        if r.h2.len() > 0 {
            if e.kind == MdEventKind::HeadingEnd(2u8) {
                assert(evs[p as int].kind == MdEventKind::HeadingEnd(2u8));
            } else {
                assert(m.h2.len() > 0);
                let k = choose|k: int|
                    0 <= k < p && (#[trigger] evs[k]).kind == MdEventKind::HeadingEnd(2u8) && forall|j: int|
                        k < j < p ==> (#[trigger] evs[j]).kind != MdEventKind::HeadingEnd(1u8);
                assert(evs[k].kind == MdEventKind::HeadingEnd(2u8));
                assert forall|j: int| k < j < n implies (#[trigger] evs[j]).kind != MdEventKind::HeadingEnd(1u8) by {
                    if j < p {
                    }
                }
            }
        }
    }
}

/// Where a body sits in its file only moves its chunks: chunking at offset
/// `d` gives the chunks at offset 0 with every byte offset moved by `d`.
pub proof fn law_chunk_offsets_shift(b: Seq<u8>, d: int, evs: Seq<MdEvent>)
    requires
        b.len() <= usize::MAX,
    ensures
        run_chunker(b, d, evs) == shift_chunks(run_chunker(b, 0, evs), d),
{
    lemma_run_prefix_shift(b, d, evs, evs.len());
    lemma_close_shift(b, d, run_prefix(b, 0, evs, evs.len()), b.len() as int, label_document_end());
}

/// Frontmatter only shifts a file's chunks: they are the chunks of its body
/// taken as a file of its own (when the body has no frontmatter itself),
/// every byte offset moved past `---\n`, the frontmatter and `\n---\n`.
pub proof fn law_frontmatter_shifts_chunks(file: Seq<char>)
    requires
        split_frontmatter_spec(file).0 is Some,
        split_frontmatter_spec(split_frontmatter_spec(file).1).0 is None,
        encode_utf8(file).len() <= usize::MAX,
    ensures
        body_offset_spec(file) == 9 + encode_utf8(split_frontmatter_spec(file).0->0).len(),
        file_chunks(file) == shift_chunks(file_chunks(split_frontmatter_spec(file).1), body_offset_spec(file)),
{
    let body = split_frontmatter_spec(file).1;
    lemma_body_in_file(file);
    assert(split_frontmatter_spec(body).1 == body);
    assert(body_offset_spec(body) == 0);
    law_chunk_offsets_shift(encode_utf8(body), body_offset_spec(file), markdown_events_of(body));
}

proof fn lemma_find_in_prefix(p: Seq<char>, rest: Seq<char>, i: nat, k: nat)
    requires
        p.len() <= rest.len(),
        rest.subrange(0, p.len() as int) == p,
        find_fm_close(p, i) == Some(k),
    ensures
        find_fm_close(rest, i) == Some(k),
    decreases p.len() - i,
{
    assert(i + 5 <= p.len());
    assert(rest.subrange(i as int, i + 5int) =~= p.subrange(i as int, i + 5int)) by {
        assert forall|j: int| 0 <= j < 5 implies #[trigger] rest.subrange(i as int, i + 5int)[j] == p.subrange(i as int, i + 5int)[j] by {
            assert(rest.subrange(0, p.len() as int)[i + j] == rest[i + j]);
        }
    }
    if p.subrange(i as int, i + 5int) != fm_close() {
        lemma_find_in_prefix(p, rest, i + 1, k);
    }
}

/// The law above for a file written as `---\n`, the frontmatter `fm`,
/// `\n---\n` and the body, where `fm` holds no `\n---\n` of its own.
pub proof fn law_frontmatter_file_shifts_chunks(fm: Seq<char>, body: Seq<char>)
    requires
        find_fm_close(fm + fm_close(), 0) == Some(fm.len()),
        split_frontmatter_spec(body).0 is None,
        encode_utf8(fm_open() + fm + fm_close() + body).len() <= usize::MAX,
    ensures
        file_chunks(fm_open() + fm + fm_close() + body) == shift_chunks(
            file_chunks(body),
            9 + encode_utf8(fm).len() as int,
        ),
{
    let file = fm_open() + fm + fm_close() + body;
    let rest = file.subrange(4, file.len() as int);
    assert(file.subrange(0, 4) =~= fm_open());
    assert(rest =~= fm + fm_close() + body);
    let p = fm + fm_close();
    assert(rest.subrange(0, p.len() as int) =~= p);
    lemma_find_in_prefix(p, rest, 0, fm.len());
    assert(rest.subrange(0, fm.len() as int) =~= fm);
    assert(rest.subrange(fm.len() + 5int, rest.len() as int) =~= body);
    assert(split_frontmatter_spec(file) == (Some(fm), body));
    law_frontmatter_shifts_chunks(file);
}

} // verus!
