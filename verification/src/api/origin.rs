//! The `Origin` check in front of the MCP-over-HTTP route: only loopback
//! `http` origins, the literal `null` origin, or no origin at all pass.

use vstd::prelude::*;
use crate::text::{chars_of, concat, str_eq};

verus! {

/// The scheme and host of `s` parsed as a URI: `None` when it does not
/// parse, else the scheme and the host, each when the URI has one.
pub uninterp spec fn uri_scheme_host_of(s: Seq<char>) -> Option<(Option<Seq<char>>, Option<Seq<char>>)>;

pub open spec fn opt_text(o: Option<String>) -> Option<Seq<char>> {
    match o {
        Some(s) => Some(s@),
        None => None,
    }
}

/// `s.parse::<http::Uri>()`, then `scheme_str()` and `host()` of the
/// parsed URI, copied into owned strings. URI parsing follows RFC 3986 and
/// takes pages to state; the result is named, not described.
#[verifier::external_body]
fn parse_uri_scheme_host(s: &str) -> (r: Option<(Option<String>, Option<String>)>)
    ensures
        match r {
            Some((sch, host)) => uri_scheme_host_of(s@) == Some((opt_text(sch), opt_text(host))),
            None => uri_scheme_host_of(s@) is None,
        },
{
    match s.parse::<axum::http::Uri>() {
        Ok(u) => Some((u.scheme_str().map(String::from), u.host().map(String::from))),
        Err(_) => None,
    }
}

/// `s` without its leading `c`s.
pub open spec fn strip_leading(s: Seq<char>, c: char) -> Seq<char>
    decreases s.len(),
{
    if s.len() > 0 && s[0] == c {
        strip_leading(s.drop_first(), c)
    } else {
        s
    }
}

/// `s` without its trailing `c`s.
pub open spec fn strip_trailing(s: Seq<char>, c: char) -> Seq<char>
    decreases s.len(),
{
    if s.len() > 0 && s.last() == c {
        strip_trailing(s.drop_last(), c)
    } else {
        s
    }
}

/// `str::trim_matches(c)`: without leading and trailing `c`s.
pub open spec fn trim_matches(s: Seq<char>, c: char) -> Seq<char> {
    strip_trailing(strip_leading(s, c), c)
}

/// The code point of `c` after ASCII lowercasing.
pub open spec fn lower_code(c: char) -> u32 {
    if 65 <= (c as u32) && (c as u32) <= 90 {
        (c as u32 + 32) as u32
    } else {
        c as u32
    }
}

/// Whether `s`, lowercased in ASCII, is `t`.
pub open spec fn lower_is(s: Seq<char>, t: Seq<char>) -> bool {
    s.len() == t.len() && forall|i: int| 0 <= i < s.len() ==> lower_code(#[trigger] s[i]) == t[i] as u32
}

/// A loopback host: `localhost`, `127.0.0.1` or `::1`, in any ASCII case,
/// with the brackets of an IPv6 literal dropped.
pub open spec fn loopback_host(host: Seq<char>) -> bool {
    let n = trim_matches(trim_matches(host, '['), ']');
    lower_is(n, "localhost"@) || lower_is(n, "127.0.0.1"@) || lower_is(n, "::1"@)
}

/// The verdict on a parsed origin.
pub open spec fn parsed_origin_allowed(parsed: Option<(Option<Seq<char>>, Option<Seq<char>>)>) -> bool {
    match parsed {
        Some((Some(scheme), Some(host))) => scheme == "http"@ && loopback_host(host),
        _ => false,
    }
}

/// The verdict on an `Origin` header value.
pub open spec fn origin_allowed(origin: Seq<char>) -> bool {
    origin == "null"@ || parsed_origin_allowed(uri_scheme_host_of(origin))
}

fn strip_ends(v: &Vec<char>, c: char) -> (r: Vec<char>)
    ensures
        r@ == trim_matches(v@, c),
{
    let mut a: usize = 0;
    proof {
        assert(v@.skip(0) =~= v@);
    }
    while a < v.len() && v[a] == c
        invariant
            a <= v@.len(),
            strip_leading(v@, c) == strip_leading(v@.skip(a as int), c),
        decreases v@.len() - a,
    {
        assert(v@.skip(a as int).drop_first() =~= v@.skip(a + 1));
        a += 1;
    }
    let ghost lead = v@.skip(a as int);
    assert(strip_leading(lead, c) == lead);
    let mut b: usize = v.len();
    proof {
        assert(lead.take(lead.len() as int) =~= lead);
    }
    while b > a && v[b - 1] == c
        invariant
            a <= b <= v@.len(),
            lead == v@.skip(a as int),
            strip_trailing(lead, c) == strip_trailing(v@.subrange(a as int, b as int), c),
        decreases b - a,
    {
        assert(v@.subrange(a as int, b as int).drop_last() =~= v@.subrange(a as int, b - 1));
        b -= 1;
    }
    let mut r: Vec<char> = Vec::new();
    let mut k: usize = a;
    while k < b
        invariant
            a <= k <= b <= v@.len(),
            r@ =~= v@.subrange(a as int, k as int),
        decreases b - k,
    {
        r.push(v[k]);
        k += 1;
    }
    proof {
        if lead.len() == 0 {
            assert(v@.subrange(a as int, b as int) =~= lead);
        }
    }
    r
}

fn lower_is_exec(s: &Vec<char>, t: &str) -> (r: bool)
    ensures
        r == lower_is(s@, t@),
{
    let tv = chars_of(t);
    if s.len() != tv.len() {
        return false;
    }
    let mut i: usize = 0;
    while i < s.len()
        invariant
            i <= s@.len(),
            s@.len() == tv@.len(),
            tv@ == t@,
            forall|j: int| 0 <= j < i ==> lower_code(#[trigger] s@[j]) == tv@[j] as u32,
        decreases s@.len() - i,
    {
        let c = s[i] as u32;
        let l = if 65 <= c && c <= 90 {
            c + 32
        } else {
            c
        };
        if l != tv[i] as u32 {
            return false;
        }
        i += 1;
    }
    true
}

/// The verdict once the origin has been parsed: `parsed` is the scheme and
/// host of the origin as a URI, `None` when it did not parse. Only the
/// `http` scheme with a loopback host passes.
pub fn parsed_origin_is_allowed(parsed: &Option<(Option<String>, Option<String>)>) -> (r: bool)
    ensures
        r == parsed_origin_allowed(match parsed {
            Some((s, h)) => Some((opt_text(*s), opt_text(*h))),
            None => None,
        }),
{
    match parsed {
        Some((Some(scheme), Some(host))) => {
            if !str_eq(scheme.as_str(), "http") {
                return false;
            }
            let n = strip_ends(&strip_ends(&chars_of(host.as_str()), '['), ']');
            lower_is_exec(&n, "localhost") || lower_is_exec(&n, "127.0.0.1") || lower_is_exec(&n, "::1")
        },
        _ => false,
    }
}

/// Whether an `Origin` header value may reach the MCP route: the literal
/// `null`, or an `http` URI whose host is loopback.
pub fn origin_is_allowed(origin: &str) -> (r: bool)
    ensures
        r == origin_allowed(origin@),
{
    if str_eq(origin, "null") {
        return true;
    }
    let parsed = parse_uri_scheme_host(origin);
    parsed_origin_is_allowed(&parsed)
}

/// The body of the `403` answer to a refused origin.
pub fn origin_rejection_text(origin: &str) -> (s: String)
    ensures
        s@ == "Origin not allowed: "@ + origin@,
{
    concat("Origin not allowed: ", origin)
}

} // verus!
