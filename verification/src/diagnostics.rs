//! Structural diagnostics of a chunk's text: fenced code blocks, the bytes
//! they cover, their languages, and thematic breaks.
//!
//! The text is read line by line (each line keeps its `\n`). A line whose
//! indentation is a tab or four or more spaces is indented code and is never
//! read as a block marker.

use vstd::prelude::*;
use vstd::string::*;
use vstd::utf8::*;
use crate::text::{
    chars_of, lemma_encode_utf8_concat, lemma_prefix_while, lemma_prefix_while_bound, lemma_suffix_while_bound,
    non_ws_pred, prefix_while, is_ws, is_ws_exec, skip_ws, slice_chars, str_eq,
    string_from_chars, trim, trim_chars, trim_end, trim_start, ws_pred,
};

verus! {

// ---------------------------------------------------------------------------
// Model
// ---------------------------------------------------------------------------

/// The number of bytes of the UTF-8 encoding of `s`.
pub open spec fn byte_len(s: Seq<char>) -> int {
    encode_utf8(s).len() as int
}

/// The index just past the line that starts at `i`: past its `\n`, or the
/// end of the text.
pub open spec fn line_end(s: Seq<char>, i: int) -> int
    decreases s.len() - i,
{
    if i >= s.len() {
        s.len() as int
    } else if s[i] == '\n' {
        i + 1
    } else {
        line_end(s, i + 1)
    }
}

pub proof fn lemma_line_end(s: Seq<char>, i: int)
    requires
        0 <= i < s.len(),
    ensures
        i < line_end(s, i) <= s.len(),
    decreases s.len() - i,
{
    reveal_with_fuel(line_end, 2);
    if s[i] != '\n' && i + 1 < s.len() {
        lemma_line_end(s, i + 1);
    }
}

pub open spec fn space_pred() -> spec_fn(char) -> bool {
    |c: char| c == ' '
}

pub open spec fn eq_pred(m: char) -> spec_fn(char) -> bool {
    |c: char| c == m
}

/// The trimmed line, when its indentation allows a block marker: at most
/// three spaces and no tab before the first other character.
pub open spec fn marker_candidate(line: Seq<char>) -> Option<Seq<char>> {
    let k = prefix_while(line, space_pred());
    if k > 3 || (k < line.len() && line[k as int] == '\t') {
        None
    } else {
        Some(trim(line))
    }
}

/// The fence character when the trimmed line opens with three backticks or
/// three tildes.
pub open spec fn fence_char(t: Seq<char>) -> Option<char> {
    if t.len() >= 3 && t[0] == '`' && t[1] == '`' && t[2] == '`' {
        Some('`')
    } else if t.len() >= 3 && t[0] == '~' && t[1] == '~' && t[2] == '~' {
        Some('~')
    } else {
        None
    }
}

/// The first whitespace-separated word of `s`, or empty.
pub open spec fn first_word(s: Seq<char>) -> Seq<char> {
    let t = trim_start(s);
    t.take(prefix_while(t, non_ws_pred()) as int)
}

/// An opening fence: the run of fence characters, and the language word
/// that follows it.
pub open spec fn opening_fence(t: Seq<char>) -> Option<(Seq<char>, Seq<char>)> {
    match fence_char(t) {
        Some(m) => {
            let n = prefix_while(t, eq_pred(m));
            Some((Seq::new(n, |_i: int| m), first_word(t.subrange(n as int, t.len() as int))))
        },
        None => None,
    }
}

/// A trimmed line closes `fence` when it is made only of the fence's
/// character and is at least as long as the fence.
pub open spec fn closing_fence(t: Seq<char>, fence: Seq<char>) -> bool {
    &&& fence.len() > 0
    &&& t.len() >= fence.len()
    &&& forall|i: int| 0 <= i < t.len() ==> t[i] == fence[0]
}

/// The number of characters of `t` that are not whitespace.
pub open spec fn non_ws_count(t: Seq<char>) -> nat
    decreases t.len(),
{
    if t.len() == 0 {
        0
    } else {
        non_ws_count(t.drop_last()) + if is_ws(t.last()) {
            0nat
        } else {
            1nat
        }
    }
}

/// Every character of `t` that is not whitespace is `x`.
pub open spec fn non_ws_all(t: Seq<char>, x: char) -> bool {
    forall|i: int| 0 <= i < t.len() && !is_ws(#[trigger] t[i]) ==> t[i] == x
}

/// A thematic break: at least three non-whitespace characters, all `-`,
/// all `*` or all `_`.
pub open spec fn thematic_break(t: Seq<char>) -> bool {
    non_ws_count(t) >= 3 && (non_ws_all(t, '-') || non_ws_all(t, '*') || non_ws_all(t, '_'))
}

/// The running state of the line scan. `fence` holds the open fence and the
/// byte offset of the line that opened it.
pub struct DiagState {
    pub blocks: int,
    pub bytes: int,
    pub langs: Seq<Seq<char>>,
    pub breaks: int,
    pub fence: Option<(Seq<char>, int)>,
}

pub open spec fn initial_diag() -> DiagState {
    DiagState { blocks: 0, bytes: 0, langs: seq![], breaks: 0, fence: None }
}

/// One line, spanning bytes `start..end` of the text.
pub open spec fn diag_line(st: DiagState, line: Seq<char>, start: int, end: int) -> DiagState {
    let marker = marker_candidate(line);
    match st.fence {
        Some(f) => {
            if marker is Some && closing_fence(marker->0, f.0) {
                DiagState { blocks: st.blocks + 1, bytes: st.bytes + (end - f.1), fence: None, ..st }
            } else {
                st
            }
        },
        None => match marker {
            None => st,
            Some(t) => match opening_fence(t) {
                Some(o) => DiagState {
                    langs: if o.1.len() > 0 && !st.langs.contains(o.1) {
                        st.langs.push(o.1)
                    } else {
                        st.langs
                    },
                    fence: Some((o.0, start)),
                    ..st
                },
                None => if thematic_break(t) {
                    DiagState { breaks: st.breaks + 1, ..st }
                } else {
                    st
                },
            },
        },
    }
}

/// The scan of the lines from index `i` on.
pub open spec fn diag_from(s: Seq<char>, i: int, st: DiagState) -> DiagState
    decreases s.len() - i,
{
    if 0 <= i < s.len() {
        let e = line_end(s, i);
        proof {
            lemma_line_end(s, i);
        }
        diag_from(s, e, diag_line(st, s.subrange(i, e), byte_len(s.take(i)), byte_len(s.take(e))))
    } else {
        st
    }
}

/// The characters of the open fence, if one is open.
pub open spec fn fence_text(st: DiagState) -> Seq<char> {
    match st.fence {
        Some(f) => f.0,
        None => seq![],
    }
}

/// A line read while a fence is open never counts as a thematic break:
/// whatever the line, the break count stays as it was.
pub proof fn law_fenced_line_adds_no_break(st: DiagState, line: Seq<char>, start: int, end: int)
    requires
        st.fence is Some,
    ensures
        diag_line(st, line, start, end).breaks == st.breaks,
{
}

/// While a fence is open and the rest of the text never uses the fence's
/// character, nothing in the rest is counted: no thematic break, no block,
/// no language. A `---` inside an unclosed code block is code.
pub proof fn law_open_fence_hides_the_rest(s: Seq<char>, i: int, st: DiagState)
    requires
        0 <= i,
        st.fence is Some,
        forall|j: int| i <= j < s.len() ==> s[j] != fence_text(st)[0],
    ensures
        diag_from(s, i, st) == st,
    decreases s.len() - i,
{
    if i < s.len() {
        let e = line_end(s, i);
        lemma_line_end(s, i);
        let line = s.subrange(i, e);
        let f = st.fence->0;
        let marker = marker_candidate(line);
        if marker is Some && closing_fence(marker->0, f.0) {
            let t = marker->0;
            let p = prefix_while(line, ws_pred());
            lemma_prefix_while_bound(line, ws_pred());
            let u = line.subrange(p as int, line.len() as int);
            lemma_suffix_while_bound(u, ws_pred());
            assert(t == trim_end(u));
            assert(t.len() > 0);
            assert(t[0] == f.0[0]);
            assert(t[0] == u[0]);
            assert(u[0] == s[i + p]);
            assert(false);
        }
        assert(diag_line(st, line, byte_len(s.take(i)), byte_len(s.take(e))) == st);
        law_open_fence_hides_the_rest(s, e, st);
    }
}

/// What `diagnose_chunk` reports, in mathematical terms.
pub struct DiagnosticsView {
    pub fenced_code_blocks: int,
    pub fenced_code_bytes: int,
    pub fenced_code_languages: Seq<Seq<char>>,
    pub code_heavy: bool,
    pub thematic_breaks: int,
}

/// The diagnostics of `s`. A fence still open at the end counts as a block
/// that runs to the end of the text; the text is code-heavy when fenced code
/// covers more than half of its bytes.
pub open spec fn diagnose_spec(s: Seq<char>) -> DiagnosticsView {
    let st = diag_from(s, 0, initial_diag());
    let total = byte_len(s);
    let blocks = if st.fence is Some {
        st.blocks + 1
    } else {
        st.blocks
    };
    let bytes = match st.fence {
        Some(f) => st.bytes + (total - f.1),
        None => st.bytes,
    };
    DiagnosticsView {
        fenced_code_blocks: blocks,
        fenced_code_bytes: bytes,
        fenced_code_languages: st.langs,
        code_heavy: s.len() > 0 && bytes * 2 > total,
        thematic_breaks: st.breaks,
    }
}

// ---------------------------------------------------------------------------
// Byte lengths
// ---------------------------------------------------------------------------

pub proof fn lemma_byte_len_split(s: Seq<char>, a: int, b: int)
    requires
        0 <= a <= b <= s.len(),
    ensures
        byte_len(s.take(b)) == byte_len(s.take(a)) + byte_len(s.subrange(a, b)),
        byte_len(s) == byte_len(s.take(b)) + byte_len(s.subrange(b, s.len() as int)),
{
    lemma_encode_utf8_concat(s.take(a), s.subrange(a, b));
    assert(s.take(a) + s.subrange(a, b) =~= s.take(b));
    lemma_encode_utf8_concat(s.take(b), s.subrange(b, s.len() as int));
    assert(s.take(b) + s.subrange(b, s.len() as int) =~= s);
}

/// The number of UTF-8 bytes of one character.
pub fn char_width(c: char) -> (w: usize)
    ensures
        w == byte_len(seq![c]),
        1 <= w <= 4,
{
    proof {
        reveal_with_fuel(encode_utf8, 2);
        assert(seq![c].drop_first() =~= Seq::<char>::empty());
    }
    let v = c as u32;
    if v <= 0x7F {
        1
    } else if v <= 0x7FF {
        2
    } else if v <= 0xFFFF {
        3
    } else {
        4
    }
}

/// The number of UTF-8 bytes of `v[from..to]`.
fn bytes_between(v: &Vec<char>, from: usize, to: usize) -> (w: usize)
    requires
        from <= to <= v@.len(),
        byte_len(v@) <= usize::MAX,
    ensures
        w == byte_len(v@.subrange(from as int, to as int)),
{
    let mut w: usize = 0;
    let mut k = from;
    while k < to
        invariant
            from <= k <= to <= v@.len(),
            byte_len(v@) <= usize::MAX,
            w == byte_len(v@.subrange(from as int, k as int)),
        decreases to - k,
    {
        proof {
            let s = v@;
            lemma_encode_utf8_concat(s.subrange(from as int, k as int), seq![s[k as int]]);
            assert(s.subrange(from as int, k as int) + seq![s[k as int]] =~= s.subrange(
                from as int,
                k + 1,
            ));
            lemma_byte_len_split(s, from as int, k + 1);
            lemma_byte_len_split(s, 0, from as int);
        }
        let cw = char_width(v[k]);
        w = w + cw;
        k += 1;
    }
    w
}

// ---------------------------------------------------------------------------
// Line classification
// ---------------------------------------------------------------------------

/// The end of the line that starts at `i`.
fn find_line_end(v: &Vec<char>, i: usize) -> (e: usize)
    requires
        i < v@.len(),
    ensures
        e == line_end(v@, i as int),
        i < e <= v@.len(),
{
    let mut j = i;
    while j < v.len() && v[j] != '\n'
        invariant
            i <= j <= v@.len(),
            line_end(v@, i as int) == line_end(v@, j as int),
        decreases v@.len() - j,
    {
        j += 1;
    }
    if j < v.len() {
        j + 1
    } else {
        j
    }
}

/// The block-marker candidate of a line.
fn marker_candidate_exec(line: &Vec<char>) -> (r: Option<Vec<char>>)
    ensures
        match r {
            Some(t) => marker_candidate(line@) == Some(t@),
            None => marker_candidate(line@) is None,
        },
{
    let mut k: usize = 0;
    while k < line.len() && line[k] == ' '
        invariant
            k <= line@.len(),
            forall|i: int| 0 <= i < k ==> line@[i] == ' ',
        decreases line@.len() - k,
    {
        k += 1;
    }
    proof {
        assert forall|i: int| 0 <= i < k implies #[trigger] space_pred()(line@[i]) by {}
        lemma_prefix_while(line@, space_pred(), k as int);
    }
    if k > 3 || (k < line.len() && line[k] == '\t') {
        None
    } else {
        Some(trim_chars(line))
    }
}

/// The opening fence of a trimmed line: its run of fence characters and its
/// language word.
fn opening_fence_exec(t: &Vec<char>) -> (r: Option<(Vec<char>, Vec<char>)>)
    ensures
        match r {
            Some(o) => opening_fence(t@) == Some((o.0@, o.1@)),
            None => opening_fence(t@) is None,
        },
{
    let m = if t.len() >= 3 && t[0] == '`' && t[1] == '`' && t[2] == '`' {
        '`'
    } else if t.len() >= 3 && t[0] == '~' && t[1] == '~' && t[2] == '~' {
        '~'
    } else {
        return None;
    };
    assert(fence_char(t@) == Some(m));
    let mut n: usize = 0;
    let mut fence: Vec<char> = Vec::new();
    while n < t.len() && t[n] == m
        invariant
            n <= t@.len(),
            forall|i: int| 0 <= i < n ==> t@[i] == m,
            fence@ == Seq::new(n as nat, |_i: int| m),
        decreases t@.len() - n,
    {
        fence.push(m);
        n += 1;
        assert(fence@ =~= Seq::new(n as nat, |_i: int| m));
    }
    proof {
        assert forall|i: int| 0 <= i < n implies #[trigger] eq_pred(m)(t@[i]) by {}
        lemma_prefix_while(t@, eq_pred(m), n as int);
    }
    let rest = slice_chars(t, n, t.len());
    let a = skip_ws(&rest, 0);
    let mut b = a;
    while b < rest.len() && !is_ws_exec(rest[b])
        invariant
            a <= b <= rest@.len(),
            forall|i: int| a <= i < b ==> !is_ws(#[trigger] rest@[i]),
        decreases rest@.len() - b,
    {
        b += 1;
    }
    let word = slice_chars(&rest, a, b);
    proof {
        let ts = trim_start(rest@);
        assert(ts == rest@.subrange(a as int, rest@.len() as int));
        assert forall|i: int| 0 <= i < b - a implies #[trigger] non_ws_pred()(ts[i]) by {
            assert(ts[i] == rest@[i + a]);
        }
        if b < rest.len() {
            assert(ts[b - a] == rest@[b as int]);
        }
        lemma_prefix_while(ts, non_ws_pred(), b - a);
        assert(word@ =~= ts.take(b - a));
    }
    Some((fence, word))
}

/// Whether a trimmed line closes `fence`.
fn closing_fence_exec(t: &Vec<char>, fence: &Vec<char>) -> (r: bool)
    ensures
        r == closing_fence(t@, fence@),
{
    if fence.len() == 0 || t.len() < fence.len() {
        return false;
    }
    let ch = fence[0];
    let mut i: usize = 0;
    while i < t.len()
        invariant
            i <= t@.len(),
            fence@.len() > 0,
            ch == fence@[0],
            forall|j: int| 0 <= j < i ==> t@[j] == ch,
        decreases t@.len() - i,
    {
        if t[i] != ch {
            return false;
        }
        i += 1;
    }
    true
}

proof fn lemma_non_ws_all_step(t: Seq<char>, i: int, x: char)
    requires
        0 < i <= t.len(),
    ensures
        non_ws_all(t.take(i), x) == (non_ws_all(t.take(i - 1), x) && (is_ws(t[i - 1]) || t[i
            - 1] == x)),
{
    let p = t.take(i);
    let q = t.take(i - 1);
    let c = t[i - 1];
    if non_ws_all(q, x) && (is_ws(c) || c == x) {
        assert forall|j: int| 0 <= j < p.len() && !is_ws(#[trigger] p[j]) implies p[j] == x by {
            if j < q.len() {
                assert(p[j] == q[j]);
            }
        }
    }
    if non_ws_all(p, x) {
        assert forall|j: int| 0 <= j < q.len() && !is_ws(#[trigger] q[j]) implies q[j] == x by {
            assert(p[j] == q[j]);
        }
        if !is_ws(c) {
            assert(p[i - 1] == c);
        }
    }
}

/// Whether a trimmed line is a thematic break.
fn thematic_break_exec(t: &Vec<char>) -> (r: bool)
    ensures
        r == thematic_break(t@),
{
    let mut count: usize = 0;
    let mut dash = true;
    let mut star = true;
    let mut under = true;
    let mut i: usize = 0;
    while i < t.len()
        invariant
            i <= t@.len(),
            count == non_ws_count(t@.take(i as int)),
            count <= i,
            dash == non_ws_all(t@.take(i as int), '-'),
            star == non_ws_all(t@.take(i as int), '*'),
            under == non_ws_all(t@.take(i as int), '_'),
        decreases t@.len() - i,
    {
        let c = t[i];
        proof {
            assert(t@.take(i + 1).drop_last() =~= t@.take(i as int));
            assert(t@.take(i + 1).last() == c);
        }
        if !is_ws_exec(c) {
            count += 1;
            dash = dash && c == '-';
            star = star && c == '*';
            under = under && c == '_';
        }
        i += 1;
        proof {
            lemma_non_ws_all_step(t@, i as int, '-');
            lemma_non_ws_all_step(t@, i as int, '*');
            lemma_non_ws_all_step(t@, i as int, '_');
        }
    }
    assert(t@.take(t@.len() as int) =~= t@);
    count >= 3 && (dash || star || under)
}

// ---------------------------------------------------------------------------
// The scan
// ---------------------------------------------------------------------------

/// The languages, by their characters.
pub open spec fn lang_views(langs: Seq<String>) -> Seq<Seq<char>> {
    langs.map_values(|l: String| l@)
}

/// Whether `langs` already holds `l`.
fn langs_contain(langs: &Vec<String>, l: &String) -> (r: bool)
    ensures
        r == lang_views(langs@).contains(l@),
{
    let mut k: usize = 0;
    while k < langs.len()
        invariant
            k <= langs@.len(),
            forall|j: int| 0 <= j < k ==> langs@[j]@ != l@,
        decreases langs@.len() - k,
    {
        if str_eq(langs[k].as_str(), l.as_str()) {
            assert(lang_views(langs@)[k as int] == l@);
            return true;
        }
        k += 1;
    }
    assert forall|j: int| 0 <= j < lang_views(langs@).len() implies lang_views(langs@)[j] != l@ by {
        assert(lang_views(langs@)[j] == langs@[j]@);
    }
    false
}

/// The scan state held by the running code, seen as the model's state.
pub open spec fn state_of(
    blocks: usize,
    bytes: usize,
    langs: Seq<String>,
    breaks: usize,
    fence: Option<(Vec<char>, usize)>,
) -> DiagState {
    DiagState {
        blocks: blocks as int,
        bytes: bytes as int,
        langs: lang_views(langs),
        breaks: breaks as int,
        fence: match fence {
            Some(f) => Some((f.0@, f.1 as int)),
            None => None,
        },
    }
}

/// The structural diagnostics of a chunk's text.
#[derive(Debug, Clone, PartialEq, Eq)]
pub struct ChunkDiagnostics {
    pub fenced_code_blocks: usize,
    pub fenced_code_bytes: usize,
    pub fenced_code_languages: Vec<String>,
    pub code_heavy: bool,
    pub thematic_breaks: usize,
}

impl View for ChunkDiagnostics {
    type V = DiagnosticsView;

    open spec fn view(&self) -> DiagnosticsView {
        DiagnosticsView {
            fenced_code_blocks: self.fenced_code_blocks as int,
            fenced_code_bytes: self.fenced_code_bytes as int,
            fenced_code_languages: lang_views(self.fenced_code_languages@),
            code_heavy: self.code_heavy,
            thematic_breaks: self.thematic_breaks as int,
        }
    }
}

/// Counts the fenced code blocks (a fence left open runs to the end), the
/// bytes they cover from their opening line through their closing line, the
/// distinct languages named on their opening lines in order of appearance,
/// and the thematic breaks outside fences.
pub fn diagnose_chunk(content: &str) -> (d: ChunkDiagnostics)
    ensures
        d@ == diagnose_spec(content@),
{
    let total = content.as_bytes().len();
    let v = chars_of(content);
    let ghost s = v@;
    let n = v.len();
    let mut blocks: usize = 0;
    let mut bytes: usize = 0;
    let mut langs: Vec<String> = Vec::new();
    let mut breaks: usize = 0;
    let mut fence: Option<(Vec<char>, usize)> = None;
    let mut offset: usize = 0;
    let mut i: usize = 0;
    proof {
        assert(s.take(0) =~= Seq::<char>::empty());
        assert(lang_views(langs@) =~= Seq::<Seq<char>>::empty());
        assert(state_of(blocks, bytes, langs@, breaks, fence) == initial_diag());
    }
    while i < n
        invariant
            s == v@,
            s == content@,
            n == s.len(),
            i <= n,
            byte_len(s) <= usize::MAX,
            offset == byte_len(s.take(i as int)),
            blocks + breaks <= i,
            fence is Some ==> blocks + breaks < i,
            match fence {
                Some(f) => bytes <= f.1 <= offset,
                None => bytes <= offset,
            },
            diag_from(s, 0, initial_diag()) == diag_from(
                s,
                i as int,
                state_of(blocks, bytes, langs@, breaks, fence),
            ),
        decreases n - i,
    {
        let e = find_line_end(&v, i);
        proof {
            lemma_byte_len_split(s, i as int, e as int);
            lemma_byte_len_split(s, e as int, n as int);
            lemma_byte_len_split(s, 0, i as int);
        }
        let w = bytes_between(&v, i, e);
        let line_start = offset;
        let line_stop = offset + w;
        let line = slice_chars(&v, i, e);
        let ghost before = state_of(blocks, bytes, langs@, breaks, fence);
        let marker = marker_candidate_exec(&line);
        let mut closed = false;
        match &fence {
            Some(f) => {
                match &marker {
                    Some(t) => {
                        if closing_fence_exec(t, &f.0) {
                            blocks = blocks + 1;
                            bytes = bytes + (line_stop - f.1);
                            closed = true;
                        }
                    },
                    None => {},
                }
            },
            None => {
                match &marker {
                    Some(t) => {
                        match opening_fence_exec(t) {
                            Some(o) => {
                                let (run, word) = o;
                                if word.len() > 0 {
                                    let lang = string_from_chars(&word);
                                    if !langs_contain(&langs, &lang) {
                                        let ghost old_langs = langs@;
                                        langs.push(lang);
                                        proof {
                                            assert(lang_views(langs@) =~= lang_views(
                                                old_langs,
                                            ).push(word@));
                                        }
                                    }
                                }
                                fence = Some((run, line_start));
                            },
                            None => {
                                if thematic_break_exec(t) {
                                    breaks = breaks + 1;
                                }
                            },
                        }
                    },
                    None => {},
                }
            },
        }
        if closed {
            fence = None;
        }
        proof {
            assert(line@ == s.subrange(i as int, e as int));
            assert(state_of(blocks, bytes, langs@, breaks, fence) == diag_line(
                before,
                s.subrange(i as int, e as int),
                line_start as int,
                line_stop as int,
            ));
        }
        offset = line_stop;
        i = e;
    }
    proof {
        assert(s.take(n as int) =~= s);
    }
    if let Some(f) = &fence {
        blocks = blocks + 1;
        bytes = bytes + (total - f.1);
    }
    proof {
        assert(s.take(n as int) =~= s);
    }
    let code_heavy = n > 0 && bytes > total - bytes;
    ChunkDiagnostics {
        fenced_code_blocks: blocks,
        fenced_code_bytes: bytes,
        fenced_code_languages: langs,
        code_heavy,
        thematic_breaks: breaks,
    }
}

} // verus!
