//! Request handling of the search endpoints that does not touch an index:
//! option parsing and defaults, retrieval-path checks, the vault filter,
//! per-vault diagnostics and the result order.

use vstd::prelude::*;
use crate::api::error::{ApiError, ApiErrorView, STATUS_BAD_REQUEST, STATUS_UNPROCESSABLE_ENTITY};
use crate::api::types::{ContentGetRequest, ContentGetResultItem, ContentQueryJson, FailedVault, PartialResults, SkippedVault};
use crate::config::SemanticSearchConfig;
use crate::control_plane::VaultRef;
use crate::diagnostics::{byte_len, char_width, lemma_byte_len_split};
use crate::text::{
    chars_of, concat, decimal, decimal_string, owned, push_str, slice_chars, str_eq, string_from_chars,
    string_push,
};

verus! {

pub const DEFAULT_LIMIT: usize = 100;
pub const DEFAULT_SEMANTIC_LIMIT: usize = 10;
pub const DEFAULT_MAX_MATCHES_PER_FILE: usize = 5;
pub const DEFAULT_PREVIEW_BYTES: usize = 600;
pub const SEMANTIC_PREVIEW_BYTES_MAX: usize = 2000;

/// How much chunk text a semantic result carries.
#[derive(Debug, Clone, Copy, PartialEq, Eq, Structural)]
pub enum IncludeText {
    Preview,
    Full,
    Omit,
}

pub open spec fn include_text_spec(opt: Option<Seq<char>>) -> Option<IncludeText> {
    match opt {
        None => Some(IncludeText::Preview),
        Some(s) => if s == "preview"@ {
            Some(IncludeText::Preview)
        } else if s == "full"@ {
            Some(IncludeText::Full)
        } else if s == "none"@ {
            Some(IncludeText::Omit)
        } else {
            None
        },
    }
}

pub open spec fn opt_view(o: Option<&str>) -> Option<Seq<char>> {
    match o {
        Some(s) => Some(s@),
        None => None,
    }
}

/// `include_text` names its value: an explicit "preview" is the same as
/// leaving the option out, and no other text gives a preview.
pub proof fn law_preview_is_the_default_text(s: Seq<char>)
    ensures
        include_text_spec(Some(s)) == include_text_spec(None) <==> s == "preview"@,
        include_text_spec(None) == Some(IncludeText::Preview),
{
    reveal_strlit("preview");
    reveal_strlit("full");
    reveal_strlit("none");
}

/// Each accepted `include_text` value parses to a variant of its own: two
/// texts that parse to the same variant are the same text.
pub proof fn law_include_text_values_are_distinct(a: Seq<char>, b: Seq<char>)
    requires
        include_text_spec(Some(a)) is Some,
        include_text_spec(Some(a)) == include_text_spec(Some(b)),
    ensures
        a == b,
{
    reveal_strlit("preview");
    reveal_strlit("full");
    reveal_strlit("none");
}

/// The `invalid_request` error with the given message.
pub open spec fn invalid_request_view(m: Seq<char>) -> ApiErrorView {
    (STATUS_BAD_REQUEST, "invalid_request"@, m)
}

/// Parses `include_text`; absent means preview.
pub fn parse_include_text(opt: Option<&str>) -> (r: Result<IncludeText, ApiError>)
    ensures
        match r {
            Ok(t) => include_text_spec(opt_view(opt)) == Some(t),
            Err(e) => include_text_spec(opt_view(opt)) is None && e@ == invalid_request_view(
                "include_text must be one of preview, full, none"@,
            ),
        },
{
    match opt {
        None => Ok(IncludeText::Preview),
        Some(s) => {
            if str_eq(s, "preview") {
                Ok(IncludeText::Preview)
            } else if str_eq(s, "full") {
                Ok(IncludeText::Full)
            } else if str_eq(s, "none") {
                Ok(IncludeText::Omit)
            } else {
                Err(ApiError::invalid_request(owned("include_text must be one of preview, full, none")))
            }
        },
    }
}

/// The preview size: 600 bytes by default, at most 2000, never zero.
pub fn resolve_preview_bytes(opt: Option<usize>) -> (r: Result<usize, ApiError>)
    ensures
        match opt {
            None => r == Ok::<usize, ApiError>(DEFAULT_PREVIEW_BYTES),
            Some(n) => if n == 0 {
                r matches Err(e) && e@ == invalid_request_view("preview_bytes must be greater than 0"@)
            } else {
                r == Ok::<usize, ApiError>(if n < SEMANTIC_PREVIEW_BYTES_MAX {
                    n
                } else {
                    SEMANTIC_PREVIEW_BYTES_MAX
                })
            },
        },
{
    match opt {
        None => Ok(DEFAULT_PREVIEW_BYTES),
        Some(n) => {
            if n == 0 {
                Err(ApiError::invalid_request(owned("preview_bytes must be greater than 0")))
            } else if n < SEMANTIC_PREVIEW_BYTES_MAX {
                Ok(n)
            } else {
                Ok(SEMANTIC_PREVIEW_BYTES_MAX)
            }
        },
    }
}

// ---------------------------------------------------------------------------
// Previews
// ---------------------------------------------------------------------------

/// `p` is the preview of `s` under `max` bytes: all of `s` when it fits,
/// else its longest prefix, cut at a character boundary, that fits.
pub open spec fn is_preview(s: Seq<char>, max: int, p: Seq<char>, truncated: bool) -> bool {
    if byte_len(s) <= max {
        p == s && !truncated
    } else {
        truncated && exists|k: int|
            0 <= k < s.len() && p == s.take(k) && byte_len(s.take(k)) <= max && byte_len(
                #[trigger] s.take(k + 1),
            ) > max
    }
}

/// The preview of `s` in at most `max_bytes` bytes, and whether it was cut.
pub fn make_preview(s: &str, max_bytes: usize) -> (r: (String, bool))
    ensures
        is_preview(s@, max_bytes as int, r.0@, r.1),
{
    let total = s.as_bytes().len();
    if total <= max_bytes {
        return (owned(s), false);
    }
    let v = chars_of(s);
    let ghost sv = v@;
    let mut acc: usize = 0;
    let mut k: usize = 0;
    proof {
        assert(sv.take(0) =~= Seq::<char>::empty());
        assert(sv.take(sv.len() as int) =~= sv);
    }
    loop
        invariant
            sv == v@,
            sv == s@,
            k <= sv.len(),
            acc == byte_len(sv.take(k as int)),
            acc <= max_bytes,
            byte_len(sv) > max_bytes,
            byte_len(sv) == total,
        ensures
            k < sv.len(),
            acc == byte_len(sv.take(k as int)),
            acc <= max_bytes,
            byte_len(sv.take(k + 1)) > max_bytes,
        decreases sv.len() - k,
    {
        if k == v.len() {
            proof {
                assert(sv.take(k as int) =~= sv);
            }
            assert(false);
            break;
        }
        let w = char_width(v[k]);
        proof {
            lemma_byte_len_split(sv, k as int, k + 1);
            assert(sv.subrange(k as int, k + 1) =~= seq![sv[k as int]]);
            lemma_byte_len_split(sv, k + 1, sv.len() as int);
        }
        if w > max_bytes || acc > max_bytes - w {
            break;
        }
        acc = acc + w;
        k += 1;
    }
    let p = string_from_chars(&slice_chars(&v, 0, k));
    proof {
        assert(sv.subrange(0, k as int) =~= sv.take(k as int));
    }
    (p, true)
}

/// How many candidate chunks each vault is asked for: the result limit in
/// chunk mode; in document mode `limit * multiplier` (saturating), capped
/// at `cap` and at least one, so that grouping has chunks to draw from.
pub fn semantic_candidate_limit(limit: usize, document_mode: bool, multiplier: u32, cap: usize) -> (r: usize)
    ensures
        !document_mode ==> r == limit,
        document_mode ==> r as int == ({
            let product = if limit * multiplier > u64::MAX {
                u64::MAX as int
            } else {
                limit * multiplier
            };
            let capped = if product < cap {
                product
            } else {
                cap as int
            };
            if capped < 1 {
                1
            } else {
                capped
            }
        }),
{
    if !document_mode {
        return limit;
    }
    let product: u64 = match (limit as u64).checked_mul(multiplier as u64) {
        Some(p) => p,
        None => u64::MAX,
    };
    let capped: u64 = if product < cap as u64 {
        product
    } else {
        cap as u64
    };
    if capped < 1 {
        1
    } else {
        capped as usize
    }
}

/// The hint of a semantic answer (such as an index still being built): the
/// first hint a vault gave, shown only when there are no results.
pub fn semantic_hint(result_count: usize, first_hint: Option<String>) -> (h: Option<String>)
    ensures
        h == (if result_count == 0 {
            first_hint
        } else {
            None
        }),
{
    if result_count == 0 {
        first_hint
    } else {
        None
    }
}

/// The text fields of a semantic result as the request asked for them:
/// none, the whole chunk, or a preview of at most `preview_bytes` bytes.
pub fn include_text_payload(text: String, wanted: IncludeText, preview_bytes: usize) -> (r: (
    Option<String>,
    Option<String>,
    Option<bool>,
))
    ensures
        match wanted {
            IncludeText::Omit => r.0 is None && r.1 is None && r.2 is None,
            IncludeText::Full => r.0 == Some(text) && (r.1 matches Some(k) && k@ == "full"@) && r.2
                == Some(false),
            IncludeText::Preview => (r.1 matches Some(k) && k@ == "preview"@) && r.0 is Some && r.2 is Some
                && is_preview(text@, preview_bytes as int, r.0->0@, r.2->0),
        },
{
    match wanted {
        IncludeText::Omit => (None, None, None),
        IncludeText::Full => (Some(text), Some(owned("full")), Some(false)),
        IncludeText::Preview => {
            let (p, cut) = make_preview(text.as_str(), preview_bytes);
            (Some(p), Some(owned("preview")), Some(cut))
        },
    }
}

// ---------------------------------------------------------------------------
// Content-search mode
// ---------------------------------------------------------------------------

/// How a content query matches.
#[derive(Debug, Clone, Copy, PartialEq, Eq, Structural)]
pub enum ContentMode {
    Substring,
    Regex,
    Ranked,
}

/// The mode a content query asks for, or the error it is refused with.
pub open spec fn content_mode_spec(
    mode: Option<Seq<char>>,
    regex: bool,
    case_sensitive: bool,
    query: Seq<char>,
) -> Result<ContentMode, ApiErrorView> {
    if mode is Some && regex && mode->0 != "regex"@ {
        Err(
            invalid_request_view(
                "cannot combine `regex: true` with `mode` (unless mode is \"regex\")"@,
            ),
        )
    } else if mode == Some("ranked"@) && case_sensitive {
        Err(
            invalid_request_view(
                "ranked search is case-insensitive; cannot combine with case_sensitive: true"@,
            ),
        )
    } else if mode == Some("ranked"@) && query.len() == 0 {
        Err((STATUS_BAD_REQUEST, "invalid_query"@, "ranked search requires a non-empty query"@))
    } else {
        match mode {
            None => Ok(
                if regex {
                    ContentMode::Regex
                } else {
                    ContentMode::Substring
                },
            ),
            Some(m) => if m == "ranked"@ {
                Ok(ContentMode::Ranked)
            } else if m == "regex"@ {
                Ok(ContentMode::Regex)
            } else if m == "substring"@ {
                Ok(
                    if regex {
                        ContentMode::Regex
                    } else {
                        ContentMode::Substring
                    },
                )
            } else {
                Err(
                    invalid_request_view(
                        "unknown mode \""@ + m
                            + "\"; expected \"substring\", \"regex\", or \"ranked\""@,
                    ),
                )
            },
        }
    }
}

/// A resolved content mode follows from the request: regex matching only
/// when mode "regex" or the legacy flag asks for it, ranked search only
/// when mode "ranked" asks for it, and substring matching only without the
/// legacy flag.
pub proof fn law_content_mode_follows_request(
    mode: Option<Seq<char>>,
    regex: bool,
    case_sensitive: bool,
    query: Seq<char>,
)
    ensures
        content_mode_spec(mode, regex, case_sensitive, query) == Ok::<ContentMode, ApiErrorView>(ContentMode::Regex)
            ==> regex || mode == Some("regex"@),
        content_mode_spec(mode, regex, case_sensitive, query) == Ok::<ContentMode, ApiErrorView>(ContentMode::Ranked)
            ==> mode == Some("ranked"@),
        content_mode_spec(mode, regex, case_sensitive, query) == Ok::<ContentMode, ApiErrorView>(ContentMode::Substring)
            ==> !regex && mode != Some("regex"@) && mode != Some("ranked"@),
{
    reveal_strlit("regex");
    reveal_strlit("ranked");
    reveal_strlit("substring");
}

/// Mode "substring" without the legacy flag is a plain substring search,
/// the same as giving no mode at all, whatever the query and case.
pub proof fn law_explicit_substring_is_substring(case_sensitive: bool, query: Seq<char>)
    ensures
        content_mode_spec(Some("substring"@), false, case_sensitive, query) == Ok::<ContentMode, ApiErrorView>(
            ContentMode::Substring,
        ),
        content_mode_spec(Some("substring"@), false, case_sensitive, query) == content_mode_spec(
            None,
            false,
            case_sensitive,
            query,
        ),
{
    reveal_strlit("regex");
    reveal_strlit("ranked");
    reveal_strlit("substring");
    assert("substring"@ != "regex"@) by {
        assert("substring"@.len() != "regex"@.len());
    }
    assert("substring"@ != "ranked"@) by {
        assert("substring"@.len() != "ranked"@.len());
    }
}

pub open spec fn opt_string_view(o: Option<String>) -> Option<Seq<char>> {
    match o {
        Some(s) => Some(s@),
        None => None,
    }
}

/// Resolves the `mode` of a content query together with the older `regex`
/// flag.
pub fn resolve_content_mode(req: &ContentQueryJson) -> (r: Result<ContentMode, ApiError>)
    ensures
        match r {
            Ok(m) => content_mode_spec(
                opt_string_view(req.mode),
                req.regex,
                req.case_sensitive,
                req.query@,
            ) == Ok::<ContentMode, ApiErrorView>(m),
            Err(e) => content_mode_spec(
                opt_string_view(req.mode),
                req.regex,
                req.case_sensitive,
                req.query@,
            ) == Err::<ContentMode, ApiErrorView>(e@),
        },
{
    let is_ranked = match &req.mode {
        Some(m) => str_eq(m.as_str(), "ranked"),
        None => false,
    };
    if let Some(m) = &req.mode {
        if req.regex && !str_eq(m.as_str(), "regex") {
            return Err(
                ApiError::invalid_request(
                    owned("cannot combine `regex: true` with `mode` (unless mode is \"regex\")"),
                ),
            );
        }
    }
    if is_ranked && req.case_sensitive {
        return Err(
            ApiError::invalid_request(
                owned("ranked search is case-insensitive; cannot combine with case_sensitive: true"),
            ),
        );
    }
    if is_ranked && req.query.as_str().is_empty() {
        return Err(
            ApiError::new("invalid_query", "ranked search requires a non-empty query", STATUS_BAD_REQUEST),
        );
    }
    match &req.mode {
        None => Ok(
            if req.regex {
                ContentMode::Regex
            } else {
                ContentMode::Substring
            },
        ),
        Some(m) => {
            if is_ranked {
                Ok(ContentMode::Ranked)
            } else if str_eq(m.as_str(), "regex") {
                Ok(ContentMode::Regex)
            } else if str_eq(m.as_str(), "substring") {
                Ok(
                    if req.regex {
                        ContentMode::Regex
                    } else {
                        ContentMode::Substring
                    },
                )
            } else {
                let mut msg = concat("unknown mode \"", m.as_str());
                push_str(&mut msg, "\"; expected \"substring\", \"regex\", or \"ranked\"");
                Err(ApiError::invalid_request(msg))
            }
        },
    }
}

// ---------------------------------------------------------------------------
// Retrieval paths
// ---------------------------------------------------------------------------

/// Runs of `/` collapsed to one; `prev_slash` says whether a `/` was just
/// written.
pub open spec fn collapse_slashes(s: Seq<char>, prev_slash: bool) -> Seq<char>
    decreases s.len(),
{
    if s.len() == 0 {
        seq![]
    } else if s[0] == '/' {
        (if prev_slash {
            seq![]
        } else {
            seq!['/']
        }) + collapse_slashes(s.drop_first(), true)
    } else {
        seq![s[0]] + collapse_slashes(s.drop_first(), false)
    }
}

/// A retrieval path with one leading `./` removed and runs of `/`
/// collapsed.
pub open spec fn normalize_retrieval_path_spec(p: Seq<char>) -> Seq<char> {
    let stripped = if p.len() >= 2 && p[0] == '.' && p[1] == '/' {
        p.skip(2)
    } else {
        p
    };
    collapse_slashes(stripped, false)
}

proof fn lemma_collapse_step(s: Seq<char>, i: int, prev: bool)
    requires
        0 <= i < s.len(),
    ensures
        collapse_slashes(s.skip(i), prev) == (if s[i] == '/' {
            if prev {
                seq![]
            } else {
                seq!['/']
            }
        } else {
            seq![s[i]]
        }) + collapse_slashes(s.skip(i + 1), s[i] == '/'),
{
    assert(s.skip(i).drop_first() =~= s.skip(i + 1));
    assert(s.skip(i)[0] == s[i]);
}

/// Normalizes a retrieval path.
pub fn normalize_retrieval_path(path: &str) -> (r: String)
    ensures
        r@ == normalize_retrieval_path_spec(path@),
{
    let v0 = chars_of(path);
    let v = if v0.len() >= 2 && v0[0] == '.' && v0[1] == '/' {
        slice_chars(&v0, 2, v0.len())
    } else {
        v0
    };
    let ghost st = v@;
    proof {
        if path@.len() >= 2 && path@[0] == '.' && path@[1] == '/' {
            assert(st =~= path@.skip(2));
        } else {
            assert(st =~= path@);
        }
    }
    let mut result = String::new();
    let mut prev_slash = false;
    let mut i: usize = 0;
    proof {
        assert(st.skip(0) =~= st);
        assert(result@ + collapse_slashes(st, false) =~= collapse_slashes(st, false));
    }
    while i < v.len()
        invariant
            i <= v@.len(),
            st == v@,
            collapse_slashes(st, false) == result@ + collapse_slashes(st.skip(i as int), prev_slash),
        decreases v@.len() - i,
    {
        let ch = v[i];
        proof {
            lemma_collapse_step(st, i as int, prev_slash);
        }
        if ch == '/' {
            if !prev_slash {
                string_push(&mut result, ch);
            }
            prev_slash = true;
        } else {
            string_push(&mut result, ch);
            prev_slash = false;
        }
        i += 1;
        proof {
            assert(result@ + collapse_slashes(st.skip(i as int), prev_slash) =~= collapse_slashes(
                st,
                false,
            ));
        }
    }
    proof {
        assert(st.skip(i as int) =~= Seq::<char>::empty());
        assert(result@ =~= result@ + Seq::<char>::empty());
    }
    result
}

/// A normalized path holds no two consecutive slashes.
pub proof fn law_normalized_has_no_double_slash(p: Seq<char>)
    ensures
        forall|i: int|
            0 <= i < normalize_retrieval_path_spec(p).len() - 1 ==> !(
            #[trigger] normalize_retrieval_path_spec(p)[i] == '/' && normalize_retrieval_path_spec(
                p,
            )[i + 1] == '/'),
{
    let s = if p.len() >= 2 && p[0] == '.' && p[1] == '/' {
        p.skip(2)
    } else {
        p
    };
    lemma_collapse_no_double(s, false);
}

proof fn lemma_collapse_no_double(s: Seq<char>, prev: bool)
    ensures
        forall|i: int|
            0 <= i < collapse_slashes(s, prev).len() - 1 ==> !(#[trigger] collapse_slashes(s, prev)[i]
                == '/' && collapse_slashes(s, prev)[i + 1] == '/'),
        prev && collapse_slashes(s, prev).len() > 0 ==> collapse_slashes(s, prev)[0] != '/',
    decreases s.len(),
{
    if s.len() > 0 {
        let t = s.drop_first();
        let nxt = s[0] == '/';
        lemma_collapse_no_double(t, nxt);
        let head: Seq<char> = if s[0] == '/' {
            if prev {
                seq![]
            } else {
                seq!['/']
            }
        } else {
            seq![s[0]]
        };
        let c = collapse_slashes(s, prev);
        let rest = collapse_slashes(t, nxt);
        assert(c == head + rest);
        assert forall|i: int| 0 <= i < c.len() - 1 implies !(#[trigger] c[i] == '/' && c[i + 1]
            == '/') by {
            if head.len() == 1 && i == 0 {
                if head[0] == '/' && rest.len() > 0 {
                    assert(c[1] == rest[0]);
                }
            } else {
                assert(c[i] == rest[i - head.len()]);
                assert(c[i + 1] == rest[i + 1 - head.len()]);
            }
        }
    }
}

/// Whether `s` has a `..` segment between slashes.
pub open spec fn has_dotdot_segment(s: Seq<char>) -> bool {
    exists|i: int|
        0 <= i && i + 2 <= s.len() && #[trigger] s[i] == '.' && s[i + 1] == '.' && (i == 0 || s[i
            - 1] == '/') && (i + 2 == s.len() || s[i + 2] == '/')
}

/// The error a retrieval path is refused with, if any.
pub open spec fn retrieval_path_error(p: Seq<char>) -> Option<ApiErrorView> {
    if p.len() == 0 {
        Some((STATUS_UNPROCESSABLE_ENTITY, "invalid_path"@, "path must not be empty"@))
    } else if p[0] == '/' {
        Some((STATUS_UNPROCESSABLE_ENTITY, "invalid_path"@, "path must be vault-relative, not absolute"@))
    } else if has_dotdot_segment(p) {
        Some((STATUS_UNPROCESSABLE_ENTITY, "invalid_path"@, "path must not contain .. segments"@))
    } else {
        None
    }
}

/// Whether a path has a `..` segment.
pub fn dotdot_segment(v: &Vec<char>) -> (r: bool)
    ensures
        r == has_dotdot_segment(v@),
{
    let n = v.len();
    let mut i: usize = 0;
    while n >= 2 && i < n - 1
        invariant
            n == v@.len(),
            forall|j: int|
                0 <= j < i && j + 2 <= n ==> !(#[trigger] v@[j] == '.' && v@[j + 1] == '.' && (j
                    == 0 || v@[j - 1] == '/') && (j + 2 == n || v@[j + 2] == '/')),
        decreases n - i,
    {
        if v[i] == '.' && v[i + 1] == '.' && (i == 0 || v[i - 1] == '/') && (i + 2 == n || v[i
            + 2] == '/') {
            return true;
        }
        i += 1;
    }
    false
}

/// Checks a retrieval path: non-empty, vault-relative, without `..`.
pub fn validate_retrieval_path(path: &str) -> (r: Result<(), ApiError>)
    ensures
        match r {
            Ok(()) => retrieval_path_error(path@) is None,
            Err(e) => retrieval_path_error(path@) == Some(e@),
        },
{
    let v = chars_of(path);
    if v.len() == 0 {
        return Err(ApiError::new("invalid_path", "path must not be empty", STATUS_UNPROCESSABLE_ENTITY));
    }
    if v[0] == '/' {
        return Err(
            ApiError::new(
                "invalid_path",
                "path must be vault-relative, not absolute",
                STATUS_UNPROCESSABLE_ENTITY,
            ),
        );
    }
    if dotdot_segment(&v) {
        return Err(
            ApiError::new("invalid_path", "path must not contain .. segments", STATUS_UNPROCESSABLE_ENTITY),
        );
    }
    Ok(())
}

// ---------------------------------------------------------------------------
// Semantic-search options
// ---------------------------------------------------------------------------

/// The granularity of a semantic query: as asked, else the configured one.
pub fn resolve_effective_granularity(req_granularity: Option<&str>, cfg: &SemanticSearchConfig) -> (r:
    Result<String, ApiError>)
    ensures
        match req_granularity {
            None => r matches Ok(g) && g@ == cfg.default_granularity@,
            Some(s) => if s@ == "document"@ || s@ == "chunk"@ {
                r matches Ok(g) && g@ == s@
            } else {
                r matches Err(e) && e@ == invalid_request_view(
                    "granularity must be \"document\" or \"chunk\", got \""@ + s@ + "\""@,
                )
            },
        },
{
    match req_granularity {
        Some(s) => {
            if str_eq(s, "document") {
                Ok(owned("document"))
            } else if str_eq(s, "chunk") {
                Ok(owned("chunk"))
            } else {
                let mut m = concat("granularity must be \"document\" or \"chunk\", got \"", s);
                push_str(&mut m, "\"");
                Err(ApiError::invalid_request(m))
            }
        },
        None => Ok(cfg.default_granularity.clone()),
    }
}

/// The evidence chunks per document: as asked when in 1..=100, else the
/// configured number.
pub fn resolve_effective_chunks_per_document(req_value: Option<u32>, cfg: &SemanticSearchConfig) -> (r:
    Result<u32, ApiError>)
    ensures
        match req_value {
            None => r == Ok::<u32, ApiError>(cfg.default_chunks_per_document),
            Some(n) => if 1 <= n <= 100 {
                r == Ok::<u32, ApiError>(n)
            } else {
                r matches Err(e) && e@ == invalid_request_view(
                    "chunks_per_document must be in 1..=100, got "@ + decimal(n as nat),
                )
            },
        },
{
    match req_value {
        Some(n) => {
            if 1 <= n && n <= 100 {
                Ok(n)
            } else {
                let m = concat(
                    "chunks_per_document must be in 1..=100, got ",
                    decimal_string(n as u64).as_str(),
                );
                Err(ApiError::invalid_request(m))
            }
        },
        None => Ok(cfg.default_chunks_per_document),
    }
}

/// An explicit vault filter must name at least one vault.
pub fn validate_filter_non_empty(filter: &Vec<String>) -> (r: Result<(), ApiError>)
    ensures
        match r {
            Ok(()) => filter@.len() > 0,
            Err(e) => filter@.len() == 0 && e@ == invalid_request_view(
                "vaults filter must be non-empty"@,
            ),
        },
{
    if filter.len() == 0 {
        return Err(ApiError::invalid_request(owned("vaults filter must be non-empty")));
    }
    Ok(())
}

/// Whether an optional vault filter is accepted: absent, or naming a vault.
pub open spec fn filter_accepted(vaults: Option<&Vec<String>>) -> bool {
    match vaults {
        Some(f) => f@.len() > 0,
        None => true,
    }
}

/// Checks a content query in the order the endpoint does: the vault
/// filter, then the mode. The first refusal is the error; otherwise the
/// resolved mode.
pub fn check_content_request(req: &ContentQueryJson) -> (r: Result<ContentMode, ApiError>)
    ensures
        (req.vaults matches Some(f) && f@.len() == 0) ==> (r matches Err(e) && e@ == invalid_request_view(
            "vaults filter must be non-empty"@,
        )),
        !(req.vaults matches Some(f) && f@.len() == 0) ==> match r {
            Ok(m) => content_mode_spec(opt_string_view(req.mode), req.regex, req.case_sensitive, req.query@)
                == Ok::<ContentMode, ApiErrorView>(m),
            Err(e) => content_mode_spec(opt_string_view(req.mode), req.regex, req.case_sensitive, req.query@)
                == Err::<ContentMode, ApiErrorView>(e@),
        },
{
    if let Some(f) = &req.vaults {
        if let Err(e) = validate_filter_non_empty(f) {
            return Err(e);
        }
    }
    resolve_content_mode(req)
}

/// The options of a semantic query once each of its fields is accepted.
#[derive(Debug, Clone, PartialEq, Eq)]
pub struct SemanticOptions {
    pub granularity: String,
    pub chunks_per_document: u32,
    pub include_text: IncludeText,
    pub preview_bytes: usize,
}

pub open spec fn granularity_accepted(g: Option<Seq<char>>) -> bool {
    match g {
        Some(s) => s == "document"@ || s == "chunk"@,
        None => true,
    }
}

pub open spec fn chunks_per_document_accepted(n: Option<u32>) -> bool {
    match n {
        Some(n) => 1 <= n <= 100,
        None => true,
    }
}

pub open spec fn preview_bytes_accepted(n: Option<usize>) -> bool {
    match n {
        Some(n) => n > 0,
        None => true,
    }
}

/// Checks a semantic query's fields in the order the endpoint does: the
/// vault filter, the granularity, the evidence chunks per document, the
/// text wanted and the preview size. The first field refused gives the
/// error; with every field accepted, the resolved options.
pub fn check_semantic_request(
    vaults: Option<&Vec<String>>,
    granularity: Option<&str>,
    chunks_per_document: Option<u32>,
    include_text: Option<&str>,
    preview_bytes: Option<usize>,
    cfg: &SemanticSearchConfig,
) -> (r: Result<SemanticOptions, ApiError>)
    ensures
        !filter_accepted(vaults) ==> (r matches Err(e) && e@ == invalid_request_view(
            "vaults filter must be non-empty"@,
        )),
        filter_accepted(vaults) && !granularity_accepted(opt_view(granularity)) ==> (r matches Err(e)
            && e@ == invalid_request_view(
            "granularity must be \"document\" or \"chunk\", got \""@ + opt_view(granularity)->0 + "\""@,
        )),
        filter_accepted(vaults) && granularity_accepted(opt_view(granularity)) && !chunks_per_document_accepted(
            chunks_per_document,
        ) ==> (r matches Err(e) && e@ == invalid_request_view(
            "chunks_per_document must be in 1..=100, got "@ + decimal(chunks_per_document->0 as nat),
        )),
        filter_accepted(vaults) && granularity_accepted(opt_view(granularity)) && chunks_per_document_accepted(
            chunks_per_document,
        ) && include_text_spec(opt_view(include_text)) is None ==> (r matches Err(e) && e@
            == invalid_request_view("include_text must be one of preview, full, none"@)),
        filter_accepted(vaults) && granularity_accepted(opt_view(granularity)) && chunks_per_document_accepted(
            chunks_per_document,
        ) && include_text_spec(opt_view(include_text)) is Some && !preview_bytes_accepted(preview_bytes) ==> (
        r matches Err(e) && e@ == invalid_request_view("preview_bytes must be greater than 0"@)),
        filter_accepted(vaults) && granularity_accepted(opt_view(granularity)) && chunks_per_document_accepted(
            chunks_per_document,
        ) && include_text_spec(opt_view(include_text)) is Some && preview_bytes_accepted(preview_bytes) ==> (
        r matches Ok(o) && o.granularity@ == match granularity {
            Some(g) => g@,
            None => cfg.default_granularity@,
        } && o.chunks_per_document == match chunks_per_document {
            Some(n) => n,
            None => cfg.default_chunks_per_document,
        } && include_text_spec(opt_view(include_text)) == Some(o.include_text) && o.preview_bytes
            == match preview_bytes {
            None => DEFAULT_PREVIEW_BYTES,
            Some(n) => if n < SEMANTIC_PREVIEW_BYTES_MAX {
                n
            } else {
                SEMANTIC_PREVIEW_BYTES_MAX
            },
        }),
{
    if let Some(f) = vaults {
        if let Err(e) = validate_filter_non_empty(f) {
            return Err(e);
        }
    }
    let granularity = match resolve_effective_granularity(granularity, cfg) {
        Ok(g) => g,
        Err(e) => return Err(e),
    };
    let chunks_per_document = match resolve_effective_chunks_per_document(chunks_per_document, cfg) {
        Ok(n) => n,
        Err(e) => return Err(e),
    };
    let include_text = match parse_include_text(include_text) {
        Ok(t) => t,
        Err(e) => return Err(e),
    };
    let preview_bytes = match resolve_preview_bytes(preview_bytes) {
        Ok(n) => n,
        Err(e) => return Err(e),
    };
    Ok(SemanticOptions { granularity, chunks_per_document, include_text, preview_bytes })
}

// ---------------------------------------------------------------------------
// The vault filter
// ---------------------------------------------------------------------------

/// A per-vault failure in mathematical terms: vault, name, code, message.
pub type FailedView = (Seq<char>, Seq<char>, Seq<char>, Seq<char>);

pub open spec fn failed_view(f: FailedVault) -> FailedView {
    (f.vault@, f.vault_name@, f.code@, f.message@)
}

pub open spec fn failed_views(v: Seq<FailedVault>) -> Seq<FailedView> {
    v.map_values(|f: FailedVault| failed_view(f))
}

/// The first row named `t`.
pub open spec fn first_by_name(scope: Seq<VaultRef>, t: Seq<char>) -> Option<int> {
    if exists|k: int| 0 <= k < scope.len() && #[trigger] scope[k].name@ == t {
        Some(
            choose|k: int|
                0 <= k < scope.len() && #[trigger] scope[k].name@ == t && forall|j: int|
                    0 <= j < k ==> scope[j].name@ != t,
        )
    } else {
        None
    }
}

/// The first row whose id is `t`.
pub open spec fn first_by_id(scope: Seq<VaultRef>, t: Seq<char>) -> Option<int> {
    if exists|k: int| 0 <= k < scope.len() && #[trigger] scope[k].id@ == t {
        Some(
            choose|k: int|
                0 <= k < scope.len() && #[trigger] scope[k].id@ == t && forall|j: int|
                    0 <= j < k ==> scope[j].id@ != t,
        )
    } else {
        None
    }
}

/// A filter entry names a vault by name first, then by id.
pub open spec fn lookup_token(scope: Seq<VaultRef>, t: Seq<char>) -> Option<int> {
    match first_by_name(scope, t) {
        Some(k) => Some(k),
        None => first_by_id(scope, t),
    }
}

/// The failure an unknown filter entry is reported with.
pub open spec fn unknown_vault_view(t: Seq<char>) -> FailedView {
    (t, t, "vault_not_found"@, "vault "@ + t + " not found"@)
}

/// The filter applied to its first `n` entries: the rows in scope, in the
/// order first named and once per id, and the failures of unknown entries.
pub open spec fn plan_prefix(scope: Seq<VaultRef>, tokens: Seq<Seq<char>>, n: int) -> (Seq<int>, Seq<
    FailedView,
>)
    decreases n,
{
    if n <= 0 {
        (seq![], seq![])
    } else {
        let (ins, fails) = plan_prefix(scope, tokens, n - 1);
        match lookup_token(scope, tokens[n - 1]) {
            None => (ins, fails.push(unknown_vault_view(tokens[n - 1]))),
            Some(k) => if exists|j: int|
                0 <= j < ins.len() && scope[#[trigger] ins[j]].id@ == scope[k].id@ {
                (ins, fails)
            } else {
                (ins.push(k), fails)
            },
        }
    }
}

/// The rows a request searches, as indices into the scope, and the
/// failures of filter entries that name no vault.
#[derive(Debug, Clone, PartialEq, Eq)]
pub struct ScopePlan {
    pub in_scope: Vec<usize>,
    pub unknown_failures: Vec<FailedVault>,
}

pub open spec fn usize_views(v: Seq<usize>) -> Seq<int> {
    v.map_values(|x: usize| x as int)
}

fn find_row(scope: &Vec<VaultRef>, t: &str) -> (r: Option<usize>)
    ensures
        match r {
            Some(k) => lookup_token(scope@, t@) == Some(k as int) && k < scope@.len(),
            None => lookup_token(scope@, t@) is None,
        },
{
    let mut i: usize = 0;
    while i < scope.len()
        invariant
            i <= scope@.len(),
            forall|j: int| 0 <= j < i ==> scope@[j].name@ != t@,
        decreases scope@.len() - i,
    {
        if str_eq(scope[i].name.as_str(), t) {
            assert(scope@[i as int].name@ == t@);
            return Some(i);
        }
        i += 1;
    }
    let mut i: usize = 0;
    while i < scope.len()
        invariant
            i <= scope@.len(),
            forall|j: int| 0 <= j < scope@.len() ==> scope@[j].name@ != t@,
            forall|j: int| 0 <= j < i ==> scope@[j].id@ != t@,
        decreases scope@.len() - i,
    {
        if str_eq(scope[i].id.as_str(), t) {
            assert(scope@[i as int].id@ == t@);
            return Some(i);
        }
        i += 1;
    }
    None
}

/// Whether a row with the id of row `k` is already among `ins`.
fn id_already_in(scope: &Vec<VaultRef>, ins: &Vec<usize>, k: usize) -> (r: bool)
    requires
        k < scope@.len(),
        forall|j: int| 0 <= j < ins@.len() ==> ins@[j] < scope@.len(),
    ensures
        r == exists|j: int|
            0 <= j < usize_views(ins@).len() && scope@[#[trigger] usize_views(ins@)[j]].id@
                == scope@[k as int].id@,
{
    let ghost iv = usize_views(ins@);
    let mut j: usize = 0;
    while j < ins.len()
        invariant
            j <= ins@.len(),
            k < scope@.len(),
            iv == usize_views(ins@),
            forall|q: int| 0 <= q < ins@.len() ==> ins@[q] < scope@.len(),
            forall|q: int| 0 <= q < j ==> scope@[#[trigger] iv[q]].id@ != scope@[k as int].id@,
        decreases ins@.len() - j,
    {
        assert(iv[j as int] == ins@[j as int] as int);
        if str_eq(scope[ins[j]].id.as_str(), scope[k].id.as_str()) {
            return true;
        }
        j += 1;
    }
    false
}

/// Applies a request's vault filter to the scope. Without a filter every
/// row is in scope.
#[verifier::rlimit(40)]
pub fn filter_scope(scope: &Vec<VaultRef>, filter: Option<&Vec<String>>) -> (p: ScopePlan)
    ensures
        match filter {
            None => usize_views(p.in_scope@) == Seq::new(scope@.len(), |i: int| i) && p.unknown_failures@.len()
                == 0,
            Some(f) => {
                let tokens = f@.map_values(|s: String| s@);
                (usize_views(p.in_scope@), failed_views(p.unknown_failures@)) == plan_prefix(
                    scope@,
                    tokens,
                    tokens.len() as int,
                )
            },
        },
{
    match filter {
        None => {
            let mut ins: Vec<usize> = Vec::new();
            let mut i: usize = 0;
            while i < scope.len()
                invariant
                    i <= scope@.len(),
                    usize_views(ins@) == Seq::new(i as nat, |j: int| j),
                decreases scope@.len() - i,
            {
                let ghost before = usize_views(ins@);
                ins.push(i);
                assert(usize_views(ins@) =~= before.push(i as int));
                i += 1;
                assert(usize_views(ins@) =~= Seq::new(i as nat, |j: int| j));
            }
            ScopePlan { in_scope: ins, unknown_failures: Vec::new() }
        },
        Some(f) => {
            let ghost tokens = f@.map_values(|s: String| s@);
            let mut ins: Vec<usize> = Vec::new();
            let mut fails: Vec<FailedVault> = Vec::new();
            let mut n: usize = 0;
            while n < f.len()
                invariant
                    n <= f@.len(),
                    tokens == f@.map_values(|s: String| s@),
                    (usize_views(ins@), failed_views(fails@)) == plan_prefix(scope@, tokens, n as int),
                    forall|j: int| 0 <= j < ins@.len() ==> ins@[j] < scope@.len(),
                decreases f@.len() - n,
            {
                let t = f[n].as_str();
                assert(tokens[n as int] == t@);
                match find_row(scope, t) {
                    None => {
                        let mut m = concat("vault ", t);
                        push_str(&mut m, " not found");
                        let fv = FailedVault {
                            vault: owned(t),
                            vault_name: owned(t),
                            code: owned("vault_not_found"),
                            message: m,
                        };
                        let ghost old_fails = fails@;
                        fails.push(fv);
                        assert(failed_views(fails@) =~= failed_views(old_fails).push(
                            unknown_vault_view(t@),
                        ));
                    },
                    Some(k) => {
                        let seen = id_already_in(scope, &ins, k);
                        let ghost iv = usize_views(ins@);
                        if !seen {
                            ins.push(k);
                            assert(usize_views(ins@) =~= iv.push(k as int));
                        }
                    },
                }
                n += 1;
            }
            ScopePlan { in_scope: ins, unknown_failures: fails }
        },
    }
}

// ---------------------------------------------------------------------------
// Per-vault diagnostics
// ---------------------------------------------------------------------------

/// The skip entry of a paused vault.
pub fn skipped_for_paused(id: &str, name: &str) -> (s: SkippedVault)
    ensures
        s.vault@ == id@,
        s.vault_name@ == name@,
        s.status@ == "paused"@,
        s.reason@ == "vault is paused"@,
{
    SkippedVault {
        vault: owned(id),
        vault_name: owned(name),
        status: owned("paused"),
        reason: owned("vault is paused"),
    }
}

/// The skip entry of an errored vault, with its last error when one was
/// recorded and is not empty.
pub fn skipped_for_errored(id: &str, name: &str, last_error: Option<&str>) -> (s: SkippedVault)
    ensures
        s.vault@ == id@,
        s.vault_name@ == name@,
        s.status@ == "errored"@,
        s.reason@ == (match last_error {
            Some(e) if e@.len() > 0 => "vault is errored: "@ + e@,
            _ => "vault is errored (no last_error recorded)"@,
        }),
{
    let reason = match last_error {
        Some(e) => {
            if !e.is_empty() {
                concat("vault is errored: ", e)
            } else {
                owned("vault is errored (no last_error recorded)")
            }
        },
        None => owned("vault is errored (no last_error recorded)"),
    };
    SkippedVault { vault: owned(id), vault_name: owned(name), status: owned("errored"), reason }
}

/// The failure entry of an active vault without a live runner.
pub fn no_runner_failure(id: &str, name: &str) -> (f: FailedVault)
    ensures
        failed_view(f) == (id@, name@, "vault_search_failed"@, "no live runner for active vault"@),
{
    FailedVault {
        vault: owned(id),
        vault_name: owned(name),
        code: owned("vault_search_failed"),
        message: owned("no live runner for active vault"),
    }
}

/// The partial-results block: absent when nothing was skipped or failed.
pub fn build_partial_results(skipped: Vec<SkippedVault>, failed: Vec<FailedVault>) -> (r: Option<
    PartialResults,
>)
    ensures
        (skipped@.len() == 0 && failed@.len() == 0) ==> r is None,
        (skipped@.len() > 0 || failed@.len() > 0) ==> r == Some(PartialResults { skipped, failed }),
{
    if skipped.len() == 0 && failed.len() == 0 {
        None
    } else {
        Some(PartialResults { skipped, failed })
    }
}

/// Whether a query-layer failure, by its rendering, is the request's fault.
pub fn anyhow_is_request_validation(display: &str) -> (r: bool)
    ensures
        r == (crate::api::error::starts_with(display@, "invalid_glob"@)
            || crate::api::error::starts_with(display@, "invalid_regex"@)
            || crate::api::error::starts_with(display@, "invalid_prefix"@)
            || crate::api::error::starts_with(display@, "invalid_query"@)),
{
    crate::api::error::has_prefix(display, "invalid_glob") || crate::api::error::has_prefix(
        display,
        "invalid_regex",
    ) || crate::api::error::has_prefix(display, "invalid_prefix")
        || crate::api::error::has_prefix(display, "invalid_query")
}

/// The path and vault a retrieval result is ordered by.
pub fn result_item_sort_key(item: &ContentGetResultItem) -> (k: (&str, &str))
    ensures
        match item {
            ContentGetResultItem::Success(s) => k.0@ == s.path@ && k.1@ == s.vault@,
            ContentGetResultItem::Error(e) => k.0@ == e.path@ && k.1@ == e.vault@,
        },
{
    match item {
        ContentGetResultItem::Success(s) => (s.path.as_str(), s.vault.as_str()),
        ContentGetResultItem::Error(e) => (e.path.as_str(), e.vault.as_str()),
    }
}

// ---------------------------------------------------------------------------
// Result order
// ---------------------------------------------------------------------------

/// Lexicographic order of character sequences, by code point; this is the
/// byte order of their UTF-8 encodings.
pub open spec fn seq_lt(a: Seq<char>, b: Seq<char>) -> bool
    decreases a.len(),
{
    if a.len() == 0 {
        b.len() > 0
    } else if b.len() == 0 {
        false
    } else if a[0] != b[0] {
        (a[0] as u32) < (b[0] as u32)
    } else {
        seq_lt(a.drop_first(), b.drop_first())
    }
}

/// Path first, then vault, where no vault sorts before any vault.
pub open spec fn key_lt(a: (Seq<char>, Option<Seq<char>>), b: (Seq<char>, Option<Seq<char>>)) -> bool {
    seq_lt(a.0, b.0) || (a.0 == b.0 && match (a.1, b.1) {
        (None, Some(_)) => true,
        (Some(x), Some(y)) => seq_lt(x, y),
        _ => false,
    })
}

pub open spec fn key_view(k: (String, Option<String>)) -> (Seq<char>, Option<Seq<char>>) {
    (k.0@, opt_string_view(k.1))
}

proof fn lemma_seq_lt_total(a: Seq<char>, b: Seq<char>)
    ensures
        seq_lt(a, b) || seq_lt(b, a) || a == b,
        !(seq_lt(a, b) && seq_lt(b, a)),
        !seq_lt(a, a),
    decreases a.len(),
{
    if a.len() > 0 && b.len() > 0 {
        lemma_seq_lt_total(a.drop_first(), b.drop_first());
        if (a[0] as u32) == (b[0] as u32) {
            vstd::utf8::char_u32_cast(a[0], a[0] as u32);
            vstd::utf8::char_u32_cast(b[0], b[0] as u32);
        }
        if a[0] == b[0] && a.drop_first() == b.drop_first() {
            assert forall|i: int| 0 <= i < a.len() implies a[i] == b[i] by {
                if i > 0 {
                    assert(a[i] == a.drop_first()[i - 1]);
                    assert(b[i] == b.drop_first()[i - 1]);
                }
            }
            assert(a =~= b);
        }
    } else if a.len() == 0 && b.len() == 0 {
        assert(a =~= b);
    }
    if a.len() > 0 {
        lemma_seq_lt_total(a.drop_first(), a.drop_first());
    }
}

proof fn lemma_seq_lt_trans(a: Seq<char>, b: Seq<char>, c: Seq<char>)
    requires
        seq_lt(a, b),
        seq_lt(b, c),
    ensures
        seq_lt(a, c),
    decreases a.len(),
{
    if a.len() > 0 && b.len() > 0 && c.len() > 0 && a[0] == b[0] && b[0] == c[0] {
        lemma_seq_lt_trans(a.drop_first(), b.drop_first(), c.drop_first());
    }
}

proof fn lemma_key_lt_facts(
    a: (Seq<char>, Option<Seq<char>>),
    b: (Seq<char>, Option<Seq<char>>),
    c: (Seq<char>, Option<Seq<char>>),
)
    ensures
        !key_lt(a, a),
        key_lt(a, b) && key_lt(b, c) ==> key_lt(a, c),
        !key_lt(a, b) && !key_lt(b, a) ==> a == b,
{
    lemma_seq_lt_total(a.0, b.0);
    lemma_seq_lt_total(b.0, c.0);
    lemma_seq_lt_total(a.0, a.0);
    if key_lt(a, b) && key_lt(b, c) {
        if seq_lt(a.0, b.0) && seq_lt(b.0, c.0) {
            lemma_seq_lt_trans(a.0, b.0, c.0);
        }
        if a.0 == b.0 && b.0 == c.0 {
            match (a.1, b.1, c.1) {
                (Some(x), Some(y), Some(z)) => {
                    if seq_lt(x, y) && seq_lt(y, z) {
                        lemma_seq_lt_trans(x, y, z);
                    }
                },
                _ => {},
            }
        }
    }
    match (a.1, b.1) {
        (Some(x), Some(y)) => {
            lemma_seq_lt_total(x, y);
        },
        _ => {},
    }
    match a.1 {
        Some(x) => {
            lemma_seq_lt_total(x, x);
        },
        None => {},
    }
}

/// Whether `a` is ordered before `b`.
pub(crate) fn seq_lt_exec(a: &Vec<char>, b: &Vec<char>) -> (r: bool)
    ensures
        r == seq_lt(a@, b@),
{
    let mut i: usize = 0;
    assert(a@.skip(0) =~= a@);
    assert(b@.skip(0) =~= b@);
    while i < a.len() && i < b.len() && a[i] == b[i]
        invariant
            i <= a@.len(),
            i <= b@.len(),
            seq_lt(a@, b@) == seq_lt(a@.skip(i as int), b@.skip(i as int)),
        decreases a@.len() - i,
    {
        assert(a@.skip(i as int).drop_first() =~= a@.skip(i + 1));
        assert(b@.skip(i as int).drop_first() =~= b@.skip(i + 1));
        i += 1;
    }
    assert(a@.skip(i as int).len() == a@.len() - i);
    if i == a.len() {
        i < b.len()
    } else if i == b.len() {
        false
    } else {
        assert(a@.skip(i as int)[0] == a@[i as int]);
        assert(b@.skip(i as int)[0] == b@[i as int]);
        (a[i] as u32) < (b[i] as u32)
    }
}

fn key_lt_exec(a: &(Vec<char>, Option<Vec<char>>), b: &(Vec<char>, Option<Vec<char>>)) -> (r: bool)
    ensures
        r == key_lt(
            (a.0@, match a.1 {
                Some(x) => Some(x@),
                None => None,
            }),
            (b.0@, match b.1 {
                Some(x) => Some(x@),
                None => None,
            }),
        ),
{
    if seq_lt_exec(&a.0, &b.0) {
        return true;
    }
    if seq_lt_exec(&b.0, &a.0) {
        proof {
            lemma_seq_lt_total(a.0@, b.0@);
        }
        return false;
    }
    proof {
        lemma_seq_lt_total(a.0@, b.0@);
    }
    match (&a.1, &b.1) {
        (None, Some(_)) => true,
        (Some(x), Some(y)) => seq_lt_exec(x, y),
        _ => false,
    }
}

/// Index `x` goes before index `y`: a smaller key, or an equal key and a
/// smaller index.
pub open spec fn index_lt(keys: Seq<(Seq<char>, Option<Seq<char>>)>, x: int, y: int) -> bool {
    key_lt(keys[x], keys[y]) || (keys[x] == keys[y] && x < y)
}

/// `order` lists each index of `keys` once, by key, equal keys keeping
/// their relative order.
pub open spec fn is_stable_sort(keys: Seq<(Seq<char>, Option<Seq<char>>)>, order: Seq<int>) -> bool {
    &&& order.len() == keys.len()
    &&& forall|i: int| 0 <= i < order.len() ==> 0 <= #[trigger] order[i] < keys.len()
    &&& forall|i: int, j: int|
        0 <= i < j < order.len() ==> index_lt(keys, #[trigger] order[i], #[trigger] order[j])
}

/// A stable sort lists every index exactly once and never puts a larger key
/// before a smaller one.
pub proof fn law_stable_sort_is_sorted_permutation(
    keys: Seq<(Seq<char>, Option<Seq<char>>)>,
    order: Seq<int>,
)
    requires
        is_stable_sort(keys, order),
    ensures
        forall|i: int, j: int| 0 <= i < j < order.len() ==> order[i] != order[j],
        forall|i: int, j: int|
            0 <= i < j < order.len() ==> !key_lt(keys[#[trigger] order[j]], keys[#[trigger] order[i]]),
        forall|x: int| 0 <= x < keys.len() ==> #[trigger] lists(order, x),
{
    assert forall|i: int, j: int| 0 <= i < j < order.len() implies order[i] != order[j] && !key_lt(
        keys[#[trigger] order[j]],
        keys[#[trigger] order[i]],
    ) by {
        assert(index_lt(keys, order[i], order[j]));
        lemma_key_lt_facts(keys[order[i]], keys[order[j]], keys[order[i]]);
    }
    assert forall|x: int| 0 <= x < keys.len() implies #[trigger] lists(order, x) by {
        lemma_covers(keys, order, x);
    }
}

/// `x` occurs in `order`.
pub open spec fn lists(order: Seq<int>, x: int) -> bool {
    exists|i: int| 0 <= i < order.len() && order[i] == x
}

proof fn lemma_covers(keys: Seq<(Seq<char>, Option<Seq<char>>)>, order: Seq<int>, x: int)
    requires
        is_stable_sort(keys, order),
        0 <= x < keys.len(),
    ensures
        lists(order, x),
{
    if !lists(order, x) {
        // `order` would be an injection of `keys.len()` indices into the
        // `keys.len() - 1` indices other than `x`.
        let s = Set::new(|i: int| 0 <= i < keys.len() && i != x);
        let img = Set::new(|y: int| exists|i: int| 0 <= i < order.len() && order[i] == y);
        assert(img.subset_of(s)) by {
            assert forall|y: int| img.contains(y) implies s.contains(y) by {
                let i = choose|i: int| 0 <= i < order.len() && order[i] == y;
                assert(0 <= #[trigger] order[i] < keys.len());
            }
        }
        lemma_set_of_range_len(keys.len() as int, x);
        lemma_image_len(keys, order, order.len() as int);
        vstd::set_lib::lemma_len_subset(img, s);
        assert(img =~= Set::new(|y: int| exists|i: int| 0 <= i < order.len() as int && order[i] == y));
    }
}

proof fn lemma_set_of_range_len(n: int, x: int)
    requires
        0 <= x < n,
    ensures
        Set::new(|i: int| 0 <= i < n && i != x).finite(),
        Set::new(|i: int| 0 <= i < n && i != x).len() == n - 1,
{
    let full = Set::new(|i: int| 0 <= i < n);
    vstd::set_lib::lemma_int_range(0, n);
    assert(full =~= vstd::set_lib::set_int_range(0, n));
    assert(Set::new(|i: int| 0 <= i < n && i != x) =~= full.remove(x));
}

proof fn lemma_image_len(keys: Seq<(Seq<char>, Option<Seq<char>>)>, order: Seq<int>, m: int)
    requires
        is_stable_sort(keys, order),
        0 <= m <= order.len(),
    ensures
        Set::new(|y: int| exists|i: int| 0 <= i < m && order[i] == y).finite(),
        Set::new(|y: int| exists|i: int| 0 <= i < m && order[i] == y).len() == m,
    decreases m,
{
    let img = Set::new(|y: int| exists|i: int| 0 <= i < m && order[i] == y);
    if m == 0 {
        assert(img =~= Set::empty());
    } else {
        lemma_image_len(keys, order, m - 1);
        let prev = Set::new(|y: int| exists|i: int| 0 <= i < m - 1 && order[i] == y);
        assert(img =~= prev.insert(order[m - 1])) by {
            assert forall|y: int| img.contains(y) implies prev.insert(order[m - 1]).contains(y) by {
                let i = choose|i: int| 0 <= i < m && order[i] == y;
                if i < m - 1 {
                    assert(prev.contains(y));
                }
            }
            assert forall|y: int| prev.insert(order[m - 1]).contains(y) implies img.contains(y) by {
                if y != order[m - 1] {
                    let i = choose|i: int| 0 <= i < m - 1 && order[i] == y;
                    assert(0 <= i < m && order[i] == y);
                } else {
                    assert(0 <= m - 1 < m && order[m - 1] == y);
                }
            }
        }
        if prev.contains(order[m - 1]) {
            let i = choose|i: int| 0 <= i < m - 1 && #[trigger] order[i] == order[m - 1];
            assert(index_lt(keys, order[i], order[m - 1]));
            lemma_key_lt_facts(keys[order[i]], keys[order[i]], keys[order[i]]);
        }
    }
}

proof fn lemma_index_lt_trans(keys: Seq<(Seq<char>, Option<Seq<char>>)>, x: int, y: int, z: int)
    requires
        index_lt(keys, x, y),
        index_lt(keys, y, z),
    ensures
        index_lt(keys, x, z),
{
    lemma_key_lt_facts(keys[x], keys[y], keys[z]);
    lemma_key_lt_facts(keys[x], keys[z], keys[x]);
}

pub open spec fn char_key_view(c: (Vec<char>, Option<Vec<char>>)) -> (Seq<char>, Option<Seq<char>>) {
    (c.0@, match c.1 {
        Some(x) => Some(x@),
        None => None,
    })
}

/// The order of results by path, then vault: a stable sort, returned as
/// indices into `keys`.
pub fn sort_by_path_then_vault(keys: &Vec<(String, Option<String>)>) -> (order: Vec<usize>)
    ensures
        is_stable_sort(keys@.map_values(|k: (String, Option<String>)| key_view(k)), usize_views(order@)),
{
    let ghost kv = keys@.map_values(|k: (String, Option<String>)| key_view(k));
    let mut ck: Vec<(Vec<char>, Option<Vec<char>>)> = Vec::new();
    let mut i: usize = 0;
    while i < keys.len()
        invariant
            i <= keys@.len(),
            kv == keys@.map_values(|k: (String, Option<String>)| key_view(k)),
            ck@.len() == i,
            forall|j: int| 0 <= j < i ==> char_key_view(#[trigger] ck@[j]) == kv[j],
        decreases keys@.len() - i,
    {
        let p = chars_of(keys[i].0.as_str());
        let v = match &keys[i].1 {
            Some(x) => Some(chars_of(x.as_str())),
            None => None,
        };
        ck.push((p, v));
        i += 1;
    }
    let mut order: Vec<usize> = Vec::new();
    let mut n: usize = 0;
    while n < ck.len()
        invariant
            n <= ck@.len(),
            ck@.len() == kv.len(),
            forall|j: int| 0 <= j < kv.len() ==> char_key_view(#[trigger] ck@[j]) == kv[j],
            order@.len() == n,
            forall|q: int| 0 <= q < n ==> order@[q] < n,
            is_stable_sort(kv.take(n as int), usize_views(order@)),
        decreases ck@.len() - n,
    {
        let ghost before = usize_views(order@);
        let ghost kn = kv.take(n as int);
        let ghost kn1 = kv.take(n + 1);
        let mut pos = order.len();
        while pos > 0 && key_lt_exec(&ck[n], &ck[order[pos - 1]])
            invariant
                pos <= order@.len(),
                n < ck@.len(),
                ck@.len() == kv.len(),
                order@.len() == n,
                forall|q: int| 0 <= q < n ==> order@[q] < n,
                usize_views(order@) == before,
                forall|j: int| 0 <= j < kv.len() ==> char_key_view(#[trigger] ck@[j]) == kv[j],
                forall|q: int| pos <= q < n ==> key_lt(kv[n as int], kv[#[trigger] before[q]]),
            decreases pos,
        {
            proof {
                assert(before[pos - 1] == order@[pos - 1] as int);
                assert(char_key_view(ck@[order@[pos - 1] as int]) == kv[before[pos - 1]]);
                assert(char_key_view(ck@[n as int]) == kv[n as int]);
            }
            pos -= 1;
        }
        proof {
            assert forall|q: int| 0 <= q < n implies #[trigger] before[q] == order@[q] as int
                && before[q] < n by {}
            if pos > 0 {
                assert(char_key_view(ck@[order@[pos - 1] as int]) == kv[before[pos - 1]]);
                assert(char_key_view(ck@[n as int]) == kv[n as int]);
                assert(!key_lt(kv[n as int], kv[before[pos - 1]]));
                lemma_key_lt_facts(kv[n as int], kv[before[pos - 1]], kv[n as int]);
                lemma_seq_lt_total(kv[n as int].0, kv[before[pos - 1]].0);
                // not below the key just before the insertion point
                if !key_lt(kv[before[pos - 1]], kv[n as int]) {
                    assert(kv[before[pos - 1]] == kv[n as int]);
                }
                assert(index_lt(kv, before[pos - 1], n as int));
            }
        }
        order.insert(pos, n);
        proof {
            let after = usize_views(order@);
            assert(after =~= before.insert(pos as int, n as int));
            assert(kn1.len() == n + 1);
            assert forall|x: int, y: int| 0 <= x < n && 0 <= y < n && index_lt(kn, x, y) implies index_lt(kn1, x, y) by {
                assert(kn[x] == kn1[x] && kn[y] == kn1[y]);
            }
            assert forall|x: int| 0 <= x <= n implies #[trigger] kn1[x] == kv[x] by {}
            assert forall|i: int| 0 <= i < after.len() implies 0 <= #[trigger] after[i] < kn1.len() by {
                if i < pos {
                    assert(after[i] == before[i]);
                } else if i > pos {
                    assert(after[i] == before[i - 1]);
                }
            }
            assert forall|i: int, j: int| 0 <= i < j < after.len() implies index_lt(
                kn1,
                #[trigger] after[i],
                #[trigger] after[j],
            ) by {
                if j < pos {
                    assert(after[i] == before[i] && after[j] == before[j]);
                    assert(index_lt(kn, before[i], before[j]));
                } else if i > pos {
                    assert(after[i] == before[i - 1] && after[j] == before[j - 1]);
                    assert(index_lt(kn, before[i - 1], before[j - 1]));
                } else if i < pos && j > pos {
                    assert(after[i] == before[i] && after[j] == before[j - 1]);
                    assert(index_lt(kn, before[i], before[j - 1]));
                } else if i == pos {
                    assert(after[j] == before[j - 1]);
                    assert(key_lt(kv[n as int], kv[before[j - 1]]));
                } else {
                    // j == pos, i < pos
                    assert(after[i] == before[i] && after[j] == n);
                    assert(index_lt(kv, before[pos - 1], n as int));
                    if i < pos - 1 {
                        assert(index_lt(kn, before[i], before[pos - 1]));
                        assert(index_lt(kv, before[i], before[pos - 1]));
                        lemma_index_lt_trans(kv, before[i], before[pos - 1], n as int);
                    }
                }
            }
        }
        n += 1;
    }
    proof {
        assert(kv.take(n as int) =~= kv);
    }
    order
}


// ---------------------------------------------------------------------------
// Merging per-vault results
// ---------------------------------------------------------------------------

/// `order` lists every index below `n` exactly once.
pub open spec fn is_permutation(order: Seq<int>, n: int) -> bool {
    &&& order.len() == n
    &&& forall|i: int| 0 <= i < n ==> 0 <= #[trigger] order[i] < n
    &&& forall|i: int, j: int| 0 <= i < j < n ==> #[trigger] order[i] != #[trigger] order[j]
}

/// `items` rearranged so that place `p` holds `items[order[p]]`.
pub fn apply_order<T>(items: Vec<T>, order: &Vec<usize>) -> (out: Vec<T>)
    requires
        is_permutation(usize_views(order@), items@.len() as int),
    ensures
        out@.len() == items@.len(),
        forall|p: int| 0 <= p < out@.len() ==> #[trigger] out@[p] == items@[order@[p] as int],
{
    let n = items.len();
    let ghost orig = items@;
    let ghost ov = usize_views(order@);
    let mut items = items;
    let mut slots: Vec<Option<T>> = Vec::new();
    // Pop from the back: slot j holds item n - 1 - j.
    while items.len() > 0
        invariant
            items@.len() + slots@.len() == n,
            orig.len() == n,
            items@ == orig.take(items@.len() as int),
            forall|j: int| 0 <= j < slots@.len() ==> #[trigger] slots@[j] == Some(orig[n - 1 - j]),
        decreases items@.len(),
    {
        let ghost before = items@;
        let x = items.pop().unwrap();
        proof {
            assert(items@ =~= orig.take(items@.len() as int));
        }
        slots.push(Some(x));
    }
    let mut out: Vec<T> = Vec::new();
    let mut p: usize = 0;
    while p < n
        invariant
            p <= n,
            orig.len() == n,
            slots@.len() == n,
            order@.len() == n,
            ov == usize_views(order@),
            is_permutation(ov, n as int),
            out@.len() == p,
            forall|q: int| 0 <= q < p ==> #[trigger] out@[q] == orig[order@[q] as int],
            forall|j: int|
                0 <= j < n ==> (#[trigger] slots@[j] == (if exists|q: int| 0 <= q < p && ov[q] == n - 1 - j {
                    None
                } else {
                    Some(orig[n - 1 - j])
                })),
        decreases n - p,
    {
        let idx = order[p];
        proof {
            assert(ov[p as int] == idx as int);
        }
        let slot = n - 1 - idx;
        let mut tmp: Option<T> = None;
        proof {
            assert forall|q: int| 0 <= q < p implies ov[q] != idx as int by {
                assert(ov[q] != ov[p as int]);
            }
            assert(slots@[slot as int] == Some(orig[idx as int]));
        }
        let ghost old_slots = slots@;
        std::mem::swap(&mut tmp, &mut slots[slot]);
        let x = tmp.unwrap();
        out.push(x);
        p += 1;
        proof {
            assert forall|j: int| 0 <= j < n implies (#[trigger] slots@[j] == (if exists|q: int|
                0 <= q < p && ov[q] == n - 1 - j {
                None
            } else {
                Some(orig[n - 1 - j])
            })) by {
                if j == slot {
                    assert(ov[p - 1] == n - 1 - j);
                } else {
                    assert(slots@[j] == old_slots[j]);
                    if exists|q: int| 0 <= q < p && ov[q] == n - 1 - j {
                        let q = choose|q: int| 0 <= q < p && ov[q] == n - 1 - j;
                        assert(q != p - 1);
                    }
                }
            }
        }
    }
    out
}

/// The sort key of a filesystem result.
pub open spec fn fs_key(r: crate::api::types::FilesystemResultJson) -> (Seq<char>, Option<Seq<char>>) {
    (r.path@, opt_string_view(r.vault))
}

pub open spec fn fs_keys(v: Seq<crate::api::types::FilesystemResultJson>) -> Seq<(Seq<char>, Option<Seq<char>>)> {
    v.map_values(|r: crate::api::types::FilesystemResultJson| fs_key(r))
}

/// The merged results of a cross-vault filesystem search: sorted by path
/// then vault, cut to `limit`, with the per-vault diagnostics.
pub fn finish_filesystem_search(
    results: Vec<crate::api::types::FilesystemResultJson>,
    limit: usize,
    any_truncated: bool,
    skipped: Vec<SkippedVault>,
    failed: Vec<FailedVault>,
) -> (resp: crate::api::types::FilesystemSearchResponse)
    ensures
        exists|order: Seq<int>|
            {
                &&& is_stable_sort(fs_keys(results@), order)
                &&& resp.results@.len() == (if results@.len() > limit {
                    limit as int
                } else {
                    results@.len() as int
                })
                &&& forall|p: int|
                    0 <= p < resp.results@.len() ==> #[trigger] resp.results@[p] == results@[order[p]]
            },
        resp.truncated == (any_truncated || results@.len() > limit),
        (skipped@.len() == 0 && failed@.len() == 0) ==> resp.partial_results is None,
        (skipped@.len() > 0 || failed@.len() > 0) ==> resp.partial_results == Some(
            PartialResults { skipped, failed },
        ),
{
    let mut keys: Vec<(String, Option<String>)> = Vec::new();
    let mut i: usize = 0;
    while i < results.len()
        invariant
            i <= results@.len(),
            keys@.len() == i,
            forall|j: int| 0 <= j < i ==> key_view(#[trigger] keys@[j]) == fs_key(results@[j]),
        decreases results@.len() - i,
    {
        let v = match &results[i].vault {
            Some(x) => Some(x.clone()),
            None => None,
        };
        keys.push((results[i].path.clone(), v));
        i += 1;
    }
    let order = sort_by_path_then_vault(&keys);
    let ghost n = results@.len();
    let ghost orig = results@;
    proof {
        assert(keys@.map_values(|k: (String, Option<String>)| key_view(k)) =~= fs_keys(results@));
        let ov = usize_views(order@);
        assert forall|a: int, b: int| 0 <= a < b < n implies #[trigger] ov[a] != #[trigger] ov[b] by {
            assert(index_lt(fs_keys(orig), ov[a], ov[b]));
            lemma_key_lt_facts(fs_keys(orig)[ov[a]], fs_keys(orig)[ov[a]], fs_keys(orig)[ov[a]]);
        }
    }
    let was_capped = results.len() > limit;
    let mut sorted = apply_order(results, &order);
    if was_capped {
        sorted.truncate(limit);
    }
    let partial = build_partial_results(skipped, failed);
    let resp = crate::api::types::FilesystemSearchResponse {
        results: sorted,
        truncated: any_truncated || was_capped,
        partial_results: partial,
    };
    proof {
        let ov = usize_views(order@);
        assert forall|p: int| 0 <= p < resp.results@.len() implies #[trigger] resp.results@[p] == orig[ov[p]] by {
            assert(ov[p] == order@[p] as int);
        }
    }
    resp
}

/// The keys by which results are sorted.
pub open spec fn key_views(keys: Seq<(String, Option<String>)>) -> Seq<(Seq<char>, Option<Seq<char>>)> {
    keys.map_values(|k: (String, Option<String>)| key_view(k))
}

/// The merge of a non-ranked cross-vault search whose results carry more
/// than the library holds (a content result's score): `keys[i]` is the
/// path and vault of `items[i]`. The items come back sorted stably by path
/// then vault and cut to `limit`, with whether anything was cut here or by
/// a vault (`any_truncated`).
pub fn merge_lexical_results<T>(items: Vec<T>, keys: &Vec<(String, Option<String>)>, limit: usize, any_truncated: bool) -> (out: (
    Vec<T>,
    bool,
))
    requires
        keys@.len() == items@.len(),
    ensures
        exists|order: Seq<int>|
            {
                &&& is_stable_sort(key_views(keys@), order)
                &&& out.0@.len() == (if items@.len() > limit {
                    limit as int
                } else {
                    items@.len() as int
                })
                &&& forall|p: int| 0 <= p < out.0@.len() ==> #[trigger] out.0@[p] == items@[order[p]]
            },
        out.1 == (any_truncated || items@.len() > limit),
{
    let order = sort_by_path_then_vault(keys);
    let ghost n = items@.len();
    let ghost orig = items@;
    let ghost kv = key_views(keys@);
    proof {
        let ov = usize_views(order@);
        assert forall|a: int, b: int| 0 <= a < b < n implies #[trigger] ov[a] != #[trigger] ov[b] by {
            assert(index_lt(kv, ov[a], ov[b]));
            lemma_key_lt_facts(kv[ov[a]], kv[ov[a]], kv[ov[a]]);
        }
    }
    let was_capped = items.len() > limit;
    let mut sorted = apply_order(items, &order);
    if was_capped {
        sorted.truncate(limit);
    }
    proof {
        let ov = usize_views(order@);
        assert forall|p: int| 0 <= p < sorted@.len() implies #[trigger] sorted@[p] == orig[ov[p]] by {
            assert(ov[p] == order@[p] as int);
        }
    }
    (sorted, any_truncated || was_capped)
}

/// Checks a content-get request and normalizes its paths: the paths must
/// be non-empty and each valid, in order; an explicit vault list must be
/// non-empty.
pub fn prepare_content_get(req: &ContentGetRequest) -> (r: Result<Vec<String>, ApiError>)
    ensures
        req.paths@.len() == 0 ==> (r matches Err(e) && e@ == invalid_request_view(
            "paths must not be empty"@,
        )),
        req.paths@.len() > 0 && (exists|i: int|
            0 <= i < req.paths@.len() && retrieval_path_error(#[trigger] req.paths@[i]@) is Some) ==> (
        r matches Err(e) && exists|i: int|
            0 <= i < req.paths@.len() && retrieval_path_error(#[trigger] req.paths@[i]@) == Some(e@)
                && forall|j: int| 0 <= j < i ==> retrieval_path_error(req.paths@[j]@) is None),
        req.paths@.len() > 0 && (forall|i: int|
            0 <= i < req.paths@.len() ==> retrieval_path_error(#[trigger] req.paths@[i]@) is None) ==> (
        match req.vaults {
            Some(v) if v@.len() == 0 => r matches Err(e) && e@ == invalid_request_view(
                "vaults must not be empty if provided"@,
            ),
            _ => r matches Ok(paths) && paths@.len() == req.paths@.len() && forall|i: int|
                0 <= i < paths@.len() ==> #[trigger] paths@[i]@ == normalize_retrieval_path_spec(
                    req.paths@[i]@,
                ),
        }),
{
    if req.paths.len() == 0 {
        return Err(ApiError::invalid_request(owned("paths must not be empty")));
    }
    let mut i: usize = 0;
    while i < req.paths.len()
        invariant
            i <= req.paths@.len(),
            forall|j: int| 0 <= j < i ==> retrieval_path_error(#[trigger] req.paths@[j]@) is None,
        decreases req.paths@.len() - i,
    {
        match validate_retrieval_path(req.paths[i].as_str()) {
            Err(e) => {
                return Err(e);
            },
            Ok(()) => {},
        }
        i += 1;
    }
    if let Some(v) = &req.vaults {
        if v.len() == 0 {
            return Err(ApiError::invalid_request(owned("vaults must not be empty if provided")));
        }
    }
    let mut out: Vec<String> = Vec::new();
    let mut k: usize = 0;
    while k < req.paths.len()
        invariant
            k <= req.paths@.len(),
            out@.len() == k,
            forall|j: int| 0 <= j < k ==> #[trigger] out@[j]@ == normalize_retrieval_path_spec(req.paths@[j]@),
        decreases req.paths@.len() - k,
    {
        out.push(normalize_retrieval_path(req.paths[k].as_str()));
        k += 1;
    }
    Ok(out)
}

/// What a search does with one vault in scope.
#[derive(Debug, Clone, Copy, PartialEq, Eq, Structural)]
pub enum RowAction {
    /// Search it.
    Search,
    /// Report it skipped as paused.
    SkipPaused,
    /// Report it skipped as errored.
    SkipErrored,
    /// Report it failed: active without a live runner.
    NoRunner,
}

pub fn scope_row_action(status: crate::control_plane::VaultStatus, has_runner: bool) -> (a: RowAction)
    ensures
        a == match status {
            crate::control_plane::VaultStatus::Active => if has_runner {
                RowAction::Search
            } else {
                RowAction::NoRunner
            },
            crate::control_plane::VaultStatus::Paused => RowAction::SkipPaused,
            crate::control_plane::VaultStatus::Errored => RowAction::SkipErrored,
        },
{
    match status {
        crate::control_plane::VaultStatus::Active => if has_runner {
            RowAction::Search
        } else {
            RowAction::NoRunner
        },
        crate::control_plane::VaultStatus::Paused => RowAction::SkipPaused,
        crate::control_plane::VaultStatus::Errored => RowAction::SkipErrored,
    }
}

/// The failure entry of a vault whose search failed.
pub fn vault_search_failed(id: &str, name: &str, message: String) -> (f: FailedVault)
    ensures
        failed_view(f) == (id@, name@, "vault_search_failed"@, message@),
{
    FailedVault { vault: owned(id), vault_name: owned(name), code: owned("vault_search_failed"), message }
}


/// The sort key of a retrieval result: its path and its vault.
pub open spec fn get_key(r: ContentGetResultItem) -> (Seq<char>, Option<Seq<char>>) {
    match r {
        ContentGetResultItem::Success(s) => (s.path@, Some(s.vault@)),
        ContentGetResultItem::Error(e) => (e.path@, Some(e.vault@)),
    }
}

pub open spec fn get_keys(v: Seq<ContentGetResultItem>) -> Seq<(Seq<char>, Option<Seq<char>>)> {
    v.map_values(|r: ContentGetResultItem| get_key(r))
}

/// A stored file as retrieval reads it.
#[derive(Debug, Clone, PartialEq, Eq)]
pub struct StoredContent {
    pub content: String,
    pub content_hash: String,
    pub size: i64,
    pub mtime: String,
}

/// The result of retrieving `path` from one vault: the stored file, or a
/// `path_not_found` error.
pub fn content_get_item(path: String, row: Option<StoredContent>, vault: &str, vault_name: &str) -> (item:
    ContentGetResultItem)
    ensures
        match row {
            Some(r) => item == ContentGetResultItem::Success(crate::api::types::ContentGetSuccess {
                path,
                content: r.content,
                content_hash: r.content_hash,
                size: r.size,
                mtime: r.mtime,
                vault: item->Success_0.vault,
                vault_name: item->Success_0.vault_name,
            }) && item->Success_0.vault@ == vault@ && item->Success_0.vault_name@ == vault_name@,
            None => item is Error && item->Error_0.path == path && item->Error_0.vault@ == vault@
                && item->Error_0.vault_name@ == vault_name@ && item->Error_0.error.code@
                == "path_not_found"@ && item->Error_0.error.message@ == "path not found in vault index"@,
        },
{
    match row {
        Some(r) => ContentGetResultItem::Success(
            crate::api::types::ContentGetSuccess {
                path,
                content: r.content,
                content_hash: r.content_hash,
                size: r.size,
                mtime: r.mtime,
                vault: owned(vault),
                vault_name: owned(vault_name),
            },
        ),
        None => ContentGetResultItem::Error(
            crate::api::types::ContentGetError {
                path,
                vault: owned(vault),
                vault_name: owned(vault_name),
                error: crate::api::types::ContentGetErrorDetail {
                    code: owned("path_not_found"),
                    message: owned("path not found in vault index"),
                },
            },
        ),
    }
}

/// The merged results of a cross-vault retrieval, sorted by path then
/// vault, with the per-vault diagnostics.
pub fn finish_content_get(results: Vec<ContentGetResultItem>, skipped: Vec<SkippedVault>, failed: Vec<FailedVault>) -> (resp:
    crate::api::types::ContentGetResponse)
    ensures
        exists|order: Seq<int>|
            {
                &&& is_stable_sort(get_keys(results@), order)
                &&& resp.results@.len() == results@.len()
                &&& forall|p: int|
                    0 <= p < resp.results@.len() ==> #[trigger] resp.results@[p] == results@[order[p]]
            },
        (skipped@.len() == 0 && failed@.len() == 0) ==> resp.partial_results is None,
        (skipped@.len() > 0 || failed@.len() > 0) ==> resp.partial_results == Some(
            PartialResults { skipped, failed },
        ),
{
    let mut keys: Vec<(String, Option<String>)> = Vec::new();
    let mut i: usize = 0;
    while i < results.len()
        invariant
            i <= results@.len(),
            keys@.len() == i,
            forall|j: int| 0 <= j < i ==> key_view(#[trigger] keys@[j]) == get_key(results@[j]),
        decreases results@.len() - i,
    {
        let (p, v) = result_item_sort_key(&results[i]);
        keys.push((owned(p), Some(owned(v))));
        i += 1;
    }
    let order = sort_by_path_then_vault(&keys);
    let ghost n = results@.len();
    let ghost orig = results@;
    proof {
        assert(keys@.map_values(|k: (String, Option<String>)| key_view(k)) =~= get_keys(results@));
        let ov = usize_views(order@);
        assert forall|a: int, b: int| 0 <= a < b < n implies #[trigger] ov[a] != #[trigger] ov[b] by {
            assert(index_lt(get_keys(orig), ov[a], ov[b]));
            lemma_key_lt_facts(get_keys(orig)[ov[a]], get_keys(orig)[ov[a]], get_keys(orig)[ov[a]]);
        }
    }
    let sorted = apply_order(results, &order);
    let partial = build_partial_results(skipped, failed);
    let resp = crate::api::types::ContentGetResponse { results: sorted, partial_results: partial };
    proof {
        let ov = usize_views(order@);
        assert forall|p: int| 0 <= p < resp.results@.len() implies #[trigger] resp.results@[p] == orig[ov[p]] by {
            assert(ov[p] == order@[p] as int);
        }
    }
    resp
}

// ---------------------------------------------------------------------------
// Document grouping of semantic results
// ---------------------------------------------------------------------------

/// A document key: vault id, file path, content hash.
pub open spec fn doc_key(k: (String, String, String)) -> (Seq<char>, Seq<char>, Seq<char>) {
    (k.0@, k.1@, k.2@)
}

/// The order of document keys: by vault id, then path, then hash.
pub open spec fn doc_lt(a: (Seq<char>, Seq<char>, Seq<char>), b: (Seq<char>, Seq<char>, Seq<char>)) -> bool {
    seq_lt(a.0, b.0) || (a.0 == b.0 && (seq_lt(a.1, b.1) || (a.1 == b.1 && seq_lt(a.2, b.2))))
}

proof fn lemma_doc_lt_facts(
    a: (Seq<char>, Seq<char>, Seq<char>),
    b: (Seq<char>, Seq<char>, Seq<char>),
    c: (Seq<char>, Seq<char>, Seq<char>),
)
    ensures
        !doc_lt(a, a),
        doc_lt(a, b) && doc_lt(b, c) ==> doc_lt(a, c),
        doc_lt(a, b) || doc_lt(b, a) || a == b,
{
    lemma_seq_lt_total(a.0, b.0);
    lemma_seq_lt_total(a.1, b.1);
    lemma_seq_lt_total(a.2, b.2);
    lemma_seq_lt_total(b.0, c.0);
    lemma_seq_lt_total(b.1, c.1);
    lemma_seq_lt_total(b.2, c.2);
    if seq_lt(a.0, b.0) && seq_lt(b.0, c.0) {
        lemma_seq_lt_trans(a.0, b.0, c.0);
    }
    if seq_lt(a.1, b.1) && seq_lt(b.1, c.1) {
        lemma_seq_lt_trans(a.1, b.1, c.1);
    }
    if seq_lt(a.2, b.2) && seq_lt(b.2, c.2) {
        lemma_seq_lt_trans(a.2, b.2, c.2);
    }
}

fn doc_key_eq(a: &(String, String, String), b: &(String, String, String)) -> (r: bool)
    ensures
        r == (doc_key(*a) == doc_key(*b)),
{
    str_eq(a.0.as_str(), b.0.as_str()) && str_eq(a.1.as_str(), b.1.as_str()) && str_eq(
        a.2.as_str(),
        b.2.as_str(),
    )
}

fn doc_lt_exec(a: &(String, String, String), b: &(String, String, String)) -> (r: bool)
    ensures
        r == doc_lt(doc_key(*a), doc_key(*b)),
{
    let a0 = chars_of(a.0.as_str());
    let b0 = chars_of(b.0.as_str());
    if seq_lt_exec(&a0, &b0) {
        return true;
    }
    if !str_eq(a.0.as_str(), b.0.as_str()) {
        return false;
    }
    let a1 = chars_of(a.1.as_str());
    let b1 = chars_of(b.1.as_str());
    if seq_lt_exec(&a1, &b1) {
        return true;
    }
    if !str_eq(a.1.as_str(), b.1.as_str()) {
        return false;
    }
    seq_lt_exec(&chars_of(a.2.as_str()), &chars_of(b.2.as_str()))
}

/// Row `i` shares its key with some group.
pub open spec fn row_grouped(keys: Seq<(String, String, String)>, groups: Seq<Vec<usize>>, i: int) -> bool {
    exists|g: int| 0 <= g < groups.len() && doc_key(keys[i]) == doc_key(keys[#[trigger] groups[g]@[0] as int])
}

/// Well-formed document groups of rows with keys `keys`: each group is
/// the ascending list of all rows sharing one key, every row is in a group,
/// and the groups run in ascending key order.
pub open spec fn doc_groups_ok(keys: Seq<(String, String, String)>, groups: Seq<Vec<usize>>) -> bool {
    &&& forall|g: int| 0 <= g < groups.len() ==> #[trigger] groups[g]@.len() > 0
    &&& forall|g: int, a: int|
        0 <= g < groups.len() && 0 <= a < groups[g]@.len() ==> #[trigger] groups[g]@[a] < keys.len()
            && doc_key(keys[groups[g]@[a] as int]) == doc_key(keys[groups[g]@[0] as int])
    &&& forall|g: int, a: int, b: int|
        0 <= g < groups.len() && 0 <= a < b < groups[g]@.len() ==> #[trigger] groups[g]@[a]
            < #[trigger] groups[g]@[b]
    &&& forall|g: int, i: int|
        0 <= g < groups.len() && 0 <= i < keys.len() && doc_key(#[trigger] keys[i]) == doc_key(
            keys[groups[g]@[0] as int],
        ) ==> #[trigger] groups[g]@.contains(i as usize)
    &&& forall|i: int| 0 <= i < keys.len() ==> #[trigger] row_grouped(keys, groups, i)
    &&& forall|g: int, h: int|
        0 <= g < h < groups.len() ==> doc_lt(
            doc_key(keys[#[trigger] groups[g]@[0] as int]),
            doc_key(keys[#[trigger] groups[h]@[0] as int]),
        )
}

/// The representatives run in strictly ascending key order.
pub open spec fn reps_sorted(keys: Seq<(String, String, String)>, reps: Seq<usize>) -> bool {
    forall|a: int, b: int|
        0 <= a < b < reps.len() ==> doc_lt(
            doc_key(keys[#[trigger] reps[a] as int]),
            doc_key(keys[#[trigger] reps[b] as int]),
        )
}

/// Every row before `i` has its key represented.
pub open spec fn reps_cover(keys: Seq<(String, String, String)>, reps: Seq<usize>, i: int) -> bool {
    forall|q: int| 0 <= q < i ==> #[trigger] key_represented(keys, reps, q)
}

/// Row `q`'s key is that of some representative.
pub open spec fn key_represented(keys: Seq<(String, String, String)>, reps: Seq<usize>, q: int) -> bool {
    exists|a: int| 0 <= a < reps.len() && doc_key(keys[q]) == doc_key(keys[#[trigger] reps[a] as int])
}

pub open spec fn reps_below(reps: Seq<usize>, i: int) -> bool {
    forall|a: int| 0 <= a < reps.len() ==> #[trigger] reps[a] < i
}

/// `reps` holds, in strictly ascending key order, one row of each key
/// found among the first `i` rows.
pub open spec fn reps_ok(keys: Seq<(String, String, String)>, reps: Seq<usize>, i: int) -> bool {
    reps_below(reps, i) && reps_sorted(keys, reps) && reps_cover(keys, reps, i)
}

proof fn lemma_insert_keeps_sorted(keys: Seq<(String, String, String)>, before: Seq<usize>, k: int, i: usize)
    requires
        reps_sorted(keys, before),
        0 <= k <= before.len(),
        i < keys.len(),
        forall|x: int| 0 <= x < before.len() ==> #[trigger] before[x] < keys.len(),
        forall|x: int| 0 <= x < k ==> doc_lt(doc_key(keys[#[trigger] before[x] as int]), doc_key(keys[i as int])),
        k < before.len() ==> doc_lt(doc_key(keys[i as int]), doc_key(keys[before[k] as int])),
    ensures
        reps_sorted(keys, before.insert(k, i)),
{
    let r = before.insert(k, i);
    let ki = doc_key(keys[i as int]);
    assert forall|a: int, b: int| 0 <= a < b < r.len() implies doc_lt(
        doc_key(keys[#[trigger] r[a] as int]),
        doc_key(keys[#[trigger] r[b] as int]),
    ) by {
        if b < k {
            assert(r[a] == before[a] && r[b] == before[b]);
        } else if b == k {
            assert(r[a] == before[a] && r[b] == i);
        } else if a < k {
            assert(r[a] == before[a] && r[b] == before[b - 1]);
            let kk = doc_key(keys[before[k] as int]);
            let kb = doc_key(keys[before[b - 1] as int]);
            if b - 1 > k {
                assert(doc_lt(kk, kb));
                lemma_doc_lt_facts(ki, kk, kb);
            }
            lemma_doc_lt_facts(doc_key(keys[before[a] as int]), ki, kb);
        } else if a == k {
            assert(r[a] == i && r[b] == before[b - 1]);
            let kk = doc_key(keys[before[k] as int]);
            let kb = doc_key(keys[before[b - 1] as int]);
            if b - 1 > k {
                assert(doc_lt(kk, kb));
                lemma_doc_lt_facts(ki, kk, kb);
            }
        } else {
            assert(r[a] == before[a - 1] && r[b] == before[b - 1]);
        }
    }
}

proof fn lemma_insert_keeps_cover(keys: Seq<(String, String, String)>, before: Seq<usize>, k: int, i: usize)
    requires
        reps_cover(keys, before, i as int),
        0 <= k <= before.len(),
    ensures
        reps_cover(keys, before.insert(k, i), i + 1),
        reps_below(before, i as int) ==> reps_below(before.insert(k, i), i + 1),
{
    let r = before.insert(k, i);
    assert forall|q: int| 0 <= q < i + 1 implies #[trigger] key_represented(keys, r, q) by {
        if q < i {
            assert(key_represented(keys, before, q));
            let a0 = choose|a0: int| 0 <= a0 < before.len() && doc_key(keys[q]) == doc_key(keys[before[a0] as int]);
            if a0 < k {
                assert(r[a0] == before[a0]);
                assert(doc_key(keys[q]) == doc_key(keys[r[a0] as int]));
            } else {
                assert(r[a0 + 1] == before[a0]);
                assert(doc_key(keys[q]) == doc_key(keys[r[a0 + 1] as int]));
            }
        } else {
            assert(r[k] == i);
            assert(doc_key(keys[q]) == doc_key(keys[r[k] as int]));
        }
    }
    if reps_below(before, i as int) {
        assert forall|a2: int| 0 <= a2 < r.len() implies #[trigger] r[a2] < i + 1 by {
            if a2 < k {
                assert(r[a2] == before[a2]);
            } else if a2 > k {
                assert(r[a2] == before[a2 - 1]);
            }
        }
    }
}

/// Adds row `i` to the representatives, in key order, unless its key is
/// already represented.
fn add_representative(keys: &Vec<(String, String, String)>, reps: &mut Vec<usize>, i: usize)
    requires
        i < keys@.len(),
        reps_ok(keys@, old(reps)@, i as int),
    ensures
        reps_ok(keys@, final(reps)@, i + 1),
{
    let mut a: usize = 0;
    while a < reps.len()
        invariant
            a <= reps@.len(),
            i < keys@.len(),
            reps_ok(keys@, reps@, i as int),
            forall|x: int| 0 <= x < a ==> doc_key(keys@[i as int]) != doc_key(keys@[#[trigger] reps@[x] as int]),
        decreases reps@.len() - a,
    {
        if doc_key_eq(&keys[i], &keys[reps[a]]) {
            proof {
                assert forall|q: int| 0 <= q < i + 1 implies #[trigger] key_represented(keys@, reps@, q) by {
                    if q == i {
                        assert(doc_key(keys@[q]) == doc_key(keys@[reps@[a as int] as int]));
                    }
                }
            }
            return;
        }
        a += 1;
    }
    let mut k: usize = 0;
    while k < reps.len() && !doc_lt_exec(&keys[i], &keys[reps[k]])
        invariant
            k <= reps@.len(),
            i < keys@.len(),
            reps_ok(keys@, reps@, i as int),
            forall|x: int| 0 <= x < reps@.len() ==> doc_key(keys@[i as int]) != doc_key(keys@[#[trigger] reps@[x] as int]),
            forall|x: int|
                0 <= x < k ==> !doc_lt(doc_key(keys@[i as int]), doc_key(keys@[#[trigger] reps@[x] as int])),
        decreases reps@.len() - k,
    {
        k += 1;
    }
    let ghost before = reps@;
    proof {
        let ki = doc_key(keys@[i as int]);
        assert forall|x: int| 0 <= x < k implies doc_lt(doc_key(keys@[#[trigger] before[x] as int]), ki) by {
            lemma_doc_lt_facts(doc_key(keys@[before[x] as int]), ki, ki);
        }
        assert forall|x: int| 0 <= x < before.len() implies #[trigger] before[x] < keys@.len() by {
            assert(before[x] < i);
        }
        lemma_insert_keeps_sorted(keys@, before, k as int, i);
        lemma_insert_keeps_cover(keys@, before, k as int, i);
    }
    reps.insert(k, i);
}

/// `m` lists, in ascending order, exactly the rows whose key is that of
/// row `r`.
pub open spec fn members_of(keys: Seq<(String, String, String)>, r: usize, m: Seq<usize>) -> bool {
    &&& m.len() > 0
    &&& m.contains(r)
    &&& forall|a: int| 0 <= a < m.len() ==> #[trigger] m[a] < keys.len() && doc_key(keys[m[a] as int]) == doc_key(keys[r as int])
    &&& forall|a: int, b: int| 0 <= a < b < m.len() ==> #[trigger] m[a] < #[trigger] m[b]
    &&& forall|p: int| 0 <= p < keys.len() && doc_key(#[trigger] keys[p]) == doc_key(keys[r as int]) ==> m.contains(p as usize)
}

/// The rows whose key is that of row `r`, in order.
fn doc_members(keys: &Vec<(String, String, String)>, r: usize) -> (members: Vec<usize>)
    requires
        r < keys@.len(),
    ensures
        members_of(keys@, r, members@),
        members@.len() > 0,
        members@.contains(r),
        forall|a: int| 0 <= a < members@.len() ==> #[trigger] members@[a] < keys@.len() && doc_key(
            keys@[members@[a] as int],
        ) == doc_key(keys@[r as int]),
        forall|a: int, b: int| 0 <= a < b < members@.len() ==> #[trigger] members@[a] < #[trigger] members@[b],
        forall|p: int|
            0 <= p < keys@.len() && doc_key(#[trigger] keys@[p]) == doc_key(keys@[r as int]) ==> members@.contains(
                p as usize,
            ),
{
    let n = keys.len();
    let mut members: Vec<usize> = Vec::new();
    let mut q: usize = 0;
    while q < n
        invariant
            q <= n,
            n == keys@.len(),
            r < n,
            forall|a: int| 0 <= a < members@.len() ==> #[trigger] members@[a] < q && doc_key(
                keys@[members@[a] as int],
            ) == doc_key(keys@[r as int]),
            forall|a: int, b: int| 0 <= a < b < members@.len() ==> #[trigger] members@[a] < #[trigger] members@[b],
            forall|p: int|
                0 <= p < q && doc_key(#[trigger] keys@[p]) == doc_key(keys@[r as int]) ==> members@.contains(
                    p as usize,
                ),
        decreases n - q,
    {
        if doc_key_eq(&keys[q], &keys[r]) {
            let ghost before = members@;
            members.push(q);
            proof {
                assert forall|p: int|
                    0 <= p < q + 1 && doc_key(#[trigger] keys@[p]) == doc_key(keys@[r as int]) implies members@.contains(
                    p as usize,
                ) by {
                    if p < q {
                        let a0 = choose|a0: int| 0 <= a0 < before.len() && before[a0] == p as usize;
                        assert(members@[a0] == before[a0]);
                    } else {
                        assert(members@[before.len() as int] == q);
                    }
                }
            }
        }
        q += 1;
    }
    proof {
        assert(doc_key(keys@[r as int]) == doc_key(keys@[r as int]));
        assert(members@.contains(r));
    }
    members
}

proof fn lemma_groups_ok(keys: Seq<(String, String, String)>, reps: Seq<usize>, groups: Seq<Vec<usize>>)
    requires
        reps_ok(keys, reps, keys.len() as int),
        groups.len() == reps.len(),
        forall|x: int| 0 <= x < groups.len() ==> #[trigger] members_of(keys, reps[x], groups[x]@),
    ensures
        doc_groups_ok(keys, groups),
{
    assert forall|x: int| 0 <= x < groups.len() implies doc_key(keys[groups[x]@[0] as int]) == doc_key(
        keys[reps[x] as int],
    ) && #[trigger] groups[x]@.len() > 0 by {
        assert(members_of(keys, reps[x], groups[x]@));
    }
    assert forall|x: int, a: int|
        0 <= x < groups.len() && 0 <= a < groups[x]@.len() implies #[trigger] groups[x]@[a] < keys.len()
            && doc_key(keys[groups[x]@[a] as int]) == doc_key(keys[groups[x]@[0] as int]) by {
        assert(members_of(keys, reps[x], groups[x]@));
    }
    assert forall|x: int, a: int, b: int|
        0 <= x < groups.len() && 0 <= a < b < groups[x]@.len() implies #[trigger] groups[x]@[a]
            < #[trigger] groups[x]@[b] by {
        assert(members_of(keys, reps[x], groups[x]@));
    }
    assert forall|x: int, i2: int|
        0 <= x < groups.len() && 0 <= i2 < keys.len() && doc_key(#[trigger] keys[i2]) == doc_key(
            keys[groups[x]@[0] as int],
        ) implies #[trigger] groups[x]@.contains(i2 as usize) by {
        assert(members_of(keys, reps[x], groups[x]@));
        assert(doc_key(keys[groups[x]@[0] as int]) == doc_key(keys[reps[x] as int]));
    }
    assert forall|i: int| 0 <= i < keys.len() implies #[trigger] row_grouped(keys, groups, i) by {
        assert(key_represented(keys, reps, i));
        let a0 = choose|a0: int| 0 <= a0 < reps.len() && doc_key(keys[i]) == doc_key(keys[reps[a0] as int]);
        assert(members_of(keys, reps[a0], groups[a0]@));
        assert(doc_key(keys[groups[a0]@[0] as int]) == doc_key(keys[reps[a0] as int]));
    }
    assert forall|x: int, h: int| 0 <= x < h < groups.len() implies doc_lt(
        doc_key(keys[#[trigger] groups[x]@[0] as int]),
        doc_key(keys[#[trigger] groups[h]@[0] as int]),
    ) by {
        assert(members_of(keys, reps[x], groups[x]@));
        assert(members_of(keys, reps[h], groups[h]@));
        assert(doc_key(keys[groups[x]@[0] as int]) == doc_key(keys[reps[x] as int]));
        assert(doc_key(keys[groups[h]@[0] as int]) == doc_key(keys[reps[h] as int]));
    }
}

/// Groups semantic result rows into documents by their key, as a map
/// ordered by key does: the groups in ascending key order, each listing its
/// rows in input order.
pub fn group_documents(keys: &Vec<(String, String, String)>) -> (groups: Vec<Vec<usize>>)
    ensures
        doc_groups_ok(keys@, groups@),
{
    let n = keys.len();
    let mut reps: Vec<usize> = Vec::new();
    let mut i: usize = 0;
    while i < n
        invariant
            i <= n,
            n == keys@.len(),
            reps_ok(keys@, reps@, i as int),
        decreases n - i,
    {
        add_representative(keys, &mut reps, i);
        i += 1;
    }
    let mut groups: Vec<Vec<usize>> = Vec::new();
    let mut g: usize = 0;
    while g < reps.len()
        invariant
            g <= reps@.len(),
            n == keys@.len(),
            reps_ok(keys@, reps@, n as int),
            groups@.len() == g,
            forall|x: int| 0 <= x < g ==> #[trigger] members_of(keys@, reps@[x], groups@[x]@),
        decreases reps@.len() - g,
    {
        assert(reps@[g as int] < n);
        let members = doc_members(keys, reps[g]);
        let ghost before = groups@;
        groups.push(members);
        proof {
            assert forall|x: int| 0 <= x < g + 1 implies #[trigger] members_of(keys@, reps@[x], groups@[x]@) by {
                if x < g {
                    assert(groups@[x] == before[x]);
                }
            }
        }
        g += 1;
    }
    proof {
        lemma_groups_ok(keys@, reps@, groups@);
    }
    groups
}

/// Document grouping partitions the rows: every row lies in exactly one
/// group.
pub proof fn law_each_row_in_one_document(keys: Seq<(String, String, String)>, groups: Seq<Vec<usize>>, i: int)
    requires
        doc_groups_ok(keys, groups),
        0 <= i < keys.len(),
    ensures
        exists|g: int| 0 <= g < groups.len() && #[trigger] groups[g]@.contains(i as usize),
        forall|g: int, h: int|
            0 <= g < h < groups.len() && #[trigger] groups[g]@.contains(i as usize) ==> !#[trigger] groups[h]@.contains(
                i as usize,
            ),
{
    assert(row_grouped(keys, groups, i));
    let g0 = choose|g: int| 0 <= g < groups.len() && doc_key(keys[i]) == doc_key(keys[groups[g]@[0] as int]);
    assert(groups[g0]@.contains(i as usize));
    assert forall|g: int, h: int|
        0 <= g < h < groups.len() && #[trigger] groups[g]@.contains(i as usize) implies !#[trigger] groups[h]@.contains(
        i as usize,
    ) by {
        if groups[h]@.contains(i as usize) {
            let a = choose|a: int| 0 <= a < groups[g]@.len() && groups[g]@[a] == i as usize;
            let b = choose|b: int| 0 <= b < groups[h]@.len() && groups[h]@[b] == i as usize;
            assert(doc_key(keys[groups[g]@[a] as int]) == doc_key(keys[groups[g]@[0] as int]));
            assert(doc_key(keys[groups[h]@[b] as int]) == doc_key(keys[groups[h]@[0] as int]));
            assert(doc_lt(doc_key(keys[groups[g]@[0] as int]), doc_key(keys[groups[h]@[0] as int])));
            lemma_doc_lt_facts(doc_key(keys[i]), doc_key(keys[i]), doc_key(keys[i]));
        }
    }
}

} // verus!
