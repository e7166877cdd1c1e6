//! Text of the `hmn` client: the daemon URL, confirmation prompts and
//! answers, sizes in binary units, and the columns of the vault table.

use vstd::prelude::*;
use vstd::utf8::*;
use crate::api::types::{FilesystemResultJson, VaultRowJson};
use crate::text::{
    chars_of, concat, decimal, decimal_string, digit_char, owned, push_str, string_push, trim, trim_start,
    trim_chars, string_from_chars,
};

verus! {

// ---------------------------------------------------------------------------
// Daemon URL and target
// ---------------------------------------------------------------------------

/// `s` without its trailing run of `c`.
pub open spec fn trim_end_char(s: Seq<char>, c: char) -> Seq<char>
    decreases s.len(),
{
    if s.len() > 0 && s.last() == c {
        trim_end_char(s.drop_last(), c)
    } else {
        s
    }
}

/// A daemon URL given on the command line, without trailing slashes.
pub fn normalize_base_url(url: &str) -> (r: String)
    ensures
        r@ == trim_end_char(url@, '/'),
{
    let v = chars_of(url);
    let mut e = v.len();
    proof {
        assert(v@.take(v@.len() as int) =~= v@);
    }
    while e > 0 && v[e - 1] == '/'
        invariant
            e <= v@.len(),
            v@ == url@,
            trim_end_char(url@, '/') == trim_end_char(v@.take(e as int), '/'),
        decreases e,
    {
        assert(v@.take(e as int).drop_last() =~= v@.take(e - 1));
        e -= 1;
    }
    proof {
        assert(v@.take(v@.len() as int) =~= v@);
    }
    let r = string_from_chars(&crate::text::slice_chars(&v, 0, e));
    assert(v@.subrange(0, e as int) =~= v@.take(e as int));
    r
}

/// The daemon's base URL: the override when given, else `http://` and the
/// configured bind address.
pub fn base_url_for(bind: &str, override_url: Option<&str>) -> (r: String)
    ensures
        r@ == match override_url {
            Some(u) => trim_end_char(u@, '/'),
            None => "http://"@ + bind@,
        },
{
    match override_url {
        Some(u) => normalize_base_url(u),
        None => concat("http://", bind),
    }
}

/// The vault a command acts on: the one named, else the configured
/// default, trimmed; neither is an error.
pub fn resolve_target(default_vault_name: &str, target: Option<&str>) -> (r: Result<String, String>)
    ensures
        match target {
            Some(t) => r matches Ok(s) && s@ == t@,
            None => if trim(default_vault_name@).len() > 0 {
                r matches Ok(s) && s@ == trim(default_vault_name@)
            } else {
                r matches Err(m) && m@ == "no target supplied and default_vault_name is empty in config"@
            },
        },
{
    match target {
        Some(t) => Ok(owned(t)),
        None => {
            let d = trim_chars(&chars_of(default_vault_name));
            if d.len() == 0 {
                Err(owned("no target supplied and default_vault_name is empty in config"))
            } else {
                Ok(string_from_chars(&d))
            }
        },
    }
}

/// An empty vault list means no filter.
pub fn vaults_or_none(v: Vec<String>) -> (r: Option<Vec<String>>)
    ensures
        v@.len() == 0 ==> r is None,
        v@.len() > 0 ==> r == Some(v),
{
    if v.len() == 0 {
        None
    } else {
        Some(v)
    }
}

// ---------------------------------------------------------------------------
// Confirmation
// ---------------------------------------------------------------------------

pub fn terminate_prompt(target: &str) -> (p: String)
    ensures
        p@ == "Terminate vault '"@ + target@ + "'? (y/N) "@,
{
    let mut p = concat("Terminate vault '", target);
    push_str(&mut p, "'? (y/N) ");
    p
}

pub fn reset_rebuild_prompt(target: &str) -> (p: String)
    ensures
        p@ == "Reset vault '"@ + target@ + "' and rebuild chunks? (y/N) "@,
{
    let mut p = concat("Reset vault '", target);
    push_str(&mut p, "' and rebuild chunks? (y/N) ");
    p
}

pub fn rescan_prompt(target: &str) -> (p: String)
    ensures
        p@ == "Rescan vault '"@ + target@ + "'? This will re-emit outbox events. (y/N) "@,
{
    let mut p = concat("Rescan vault '", target);
    push_str(&mut p, "'? This will re-emit outbox events. (y/N) ");
    p
}

/// An answer is yes when its first non-blank character is `y` or `Y`.
pub open spec fn is_yes(line: Seq<char>) -> bool {
    let t = trim_start(line);
    t.len() > 0 && (t[0] == 'y' || t[0] == 'Y')
}

pub fn answer_is_yes(line: &str) -> (r: bool)
    ensures
        r == is_yes(line@),
{
    let v = chars_of(line);
    let a = crate::text::skip_ws(&v, 0);
    proof {
        assert(trim_start(line@) == v@.subrange(a as int, v@.len() as int));
    }
    if a < v.len() {
        proof {
            assert(trim_start(line@)[0] == v@[a as int]);
        }
        v[a] == 'y' || v[a] == 'Y'
    } else {
        false
    }
}

/// The first line of `input`, through its newline if it has one.
pub open spec fn first_line(input: Seq<u8>) -> Seq<u8> {
    if exists|i: int| 0 <= i < input.len() && #[trigger] input[i] == 10u8 {
        let i = choose|i: int|
            0 <= i < input.len() && #[trigger] input[i] == 10u8 && forall|j: int|
                0 <= j < i ==> input[j] != 10u8;
        input.take(i + 1)
    } else {
        input
    }
}

/// `std::str::from_utf8`: the text of well-formed UTF-8.
#[verifier::external_body]
fn utf8_text(bytes: &[u8]) -> (r: Option<String>)
    ensures
        match r {
            Some(s) => valid_utf8(bytes@) && s@ == decode_utf8(bytes@),
            None => !valid_utf8(bytes@),
        },
{
    match std::str::from_utf8(bytes) {
        Ok(s) => Some(s.to_owned()),
        Err(_) => None,
    }
}

/// The outcome of asking: `prompt` is written to `sink`, one line is read
/// from `input`; no line is a no; a line that is not UTF-8 is an error.
pub open spec fn confirm_spec(input: Seq<u8>, prompt: Seq<char>, r: Result<bool, String>) -> bool {
    let line = first_line(input);
    if line.len() == 0 {
        r == Ok::<bool, String>(false)
    } else if !valid_utf8(line) {
        r matches Err(m) && m@ == "stream did not contain valid UTF-8"@
    } else {
        r == Ok::<bool, String>(is_yes(decode_utf8(line)))
    }
}

/// Writes the prompt to `sink` and reads the answer from `input`.
pub fn confirm_yn(input: &[u8], sink: &mut Vec<u8>, prompt: &str) -> (r: Result<bool, String>)
    ensures
        final(sink)@ == old(sink)@ + encode_utf8(prompt@),
        confirm_spec(input@, prompt@, r),
{
    let pb = prompt.as_bytes();
    let ghost start = sink@;
    let mut i: usize = 0;
    while i < pb.len()
        invariant
            i <= pb@.len(),
            pb@ == encode_utf8(prompt@),
            sink@ == start + pb@.take(i as int),
        decreases pb@.len() - i,
    {
        sink.push(pb[i]);
        i += 1;
        assert(sink@ =~= start + pb@.take(i as int));
    }
    assert(pb@.take(pb@.len() as int) =~= pb@);
    let mut n: usize = 0;
    while n < input.len() && input[n] != 10u8
        invariant
            n <= input@.len(),
            forall|j: int| 0 <= j < n ==> input@[j] != 10u8,
        decreases input@.len() - n,
    {
        n += 1;
    }
    let end = if n < input.len() {
        n + 1
    } else {
        n
    };
    let mut line: Vec<u8> = Vec::new();
    let mut k: usize = 0;
    while k < end
        invariant
            k <= end <= input@.len(),
            line@ == input@.take(k as int),
        decreases end - k,
    {
        line.push(input[k]);
        k += 1;
        assert(line@ =~= input@.take(k as int));
    }
    proof {
        if n < input@.len() {
            assert(input@[n as int] == 10u8);
            assert(first_line(input@) == input@.take(n + 1));
        } else {
            assert(!(exists|i: int| 0 <= i < input@.len() && #[trigger] input@[i] == 10u8));
            assert(input@.take(n as int) =~= input@);
        }
    }
    if end == 0 {
        return Ok(false);
    }
    match utf8_text(line.as_slice()) {
        Some(text) => Ok(answer_is_yes(text.as_str())),
        None => Err(owned("stream did not contain valid UTF-8")),
    }
}

pub fn confirm_terminate(target: &str, input: &[u8], sink: &mut Vec<u8>) -> (r: Result<bool, String>)
    ensures
        final(sink)@ == old(sink)@ + encode_utf8("Terminate vault '"@ + target@ + "'? (y/N) "@),
        confirm_spec(input@, "Terminate vault '"@ + target@ + "'? (y/N) "@, r),
{
    let p = terminate_prompt(target);
    confirm_yn(input, sink, p.as_str())
}

pub fn confirm_reset_rebuild(target: &str, input: &[u8], sink: &mut Vec<u8>) -> (r: Result<bool, String>)
    ensures
        final(sink)@ == old(sink)@ + encode_utf8(
            "Reset vault '"@ + target@ + "' and rebuild chunks? (y/N) "@,
        ),
        confirm_spec(input@, "Reset vault '"@ + target@ + "' and rebuild chunks? (y/N) "@, r),
{
    let p = reset_rebuild_prompt(target);
    confirm_yn(input, sink, p.as_str())
}

pub fn confirm_rescan(target: &str, input: &[u8], sink: &mut Vec<u8>) -> (r: Result<bool, String>)
    ensures
        final(sink)@ == old(sink)@ + encode_utf8(
            "Rescan vault '"@ + target@ + "'? This will re-emit outbox events. (y/N) "@,
        ),
        confirm_spec(
            input@,
            "Rescan vault '"@ + target@ + "'? This will re-emit outbox events. (y/N) "@,
            r,
        ),
{
    let p = rescan_prompt(target);
    confirm_yn(input, sink, p.as_str())
}

// ---------------------------------------------------------------------------
// Sizes in binary units
// ---------------------------------------------------------------------------

pub open spec fn pow2(e: nat) -> nat
    decreases e,
{
    if e == 0 {
        1
    } else {
        2 * pow2((e - 1) as nat)
    }
}

pub open spec fn pow1024(k: nat) -> nat
    decreases k,
{
    if k == 0 {
        1
    } else {
        1024 * pow1024((k - 1) as nat)
    }
}

/// The number of binary digits of `n`.
pub open spec fn bit_len(n: nat) -> nat
    decreases n,
{
    if n == 0 {
        0
    } else {
        1 + bit_len(n / 2)
    }
}

/// `n` rounded to the nearest value with 53 significant bits, ties to an
/// even significand: the value of `n as f64`.
pub open spec fn f64_value(n: nat) -> nat {
    if bit_len(n) <= 53 {
        n
    } else {
        let s = (bit_len(n) - 53) as nat;
        let q = n / pow2(s);
        let r = n % pow2(s);
        let half = pow2((s - 1) as nat);
        let up = r > half || (r == half && q % 2 == 1);
        ((q + if up {
            1nat
        } else {
            0nat
        }) * pow2(s)) as nat
    }
}

/// The unit step of a size: how many times it is divided by 1024, at most
/// four.
pub open spec fn unit_step(f: nat) -> nat {
    if f >= pow1024(4) {
        4
    } else if f >= pow1024(3) {
        3
    } else if f >= pow1024(2) {
        2
    } else if f >= pow1024(1) {
        1
    } else {
        0
    }
}

/// `a / b` rounded to the nearest integer, ties to even.
pub open spec fn round_half_even(a: nat, b: nat) -> nat {
    let q = a / b;
    let r = a % b;
    if 2 * r > b || (2 * r == b && q % 2 == 1) {
        q + 1
    } else {
        q
    }
}

pub open spec fn unit_name(k: nat) -> Seq<char> {
    if k == 1 {
        "KiB"@
    } else if k == 2 {
        "MiB"@
    } else if k == 3 {
        "GiB"@
    } else {
        "TiB"@
    }
}

/// A byte count for people: plain bytes below 1 KiB, else the size in the
/// largest unit up to TiB that it reaches, with one decimal.
pub open spec fn human_bytes_spec(n: nat) -> Seq<char> {
    let f = f64_value(n);
    let k = unit_step(f);
    if k == 0 {
        decimal(n) + " B"@
    } else {
        let tenths = round_half_even(10 * f, pow1024(k));
        decimal(tenths / 10) + seq!['.', digit_char((tenths % 10) as int)] + " "@ + unit_name(k)
    }
}

proof fn lemma_pow2_facts(e: nat)
    ensures
        pow2(e) >= 1,
        e <= 11 ==> pow2(e) <= 2048,
{
    lemma_pow2_mono(e, 11);
    reveal_with_fuel(pow2, 12);
    lemma_pow2_pos(e);
}

proof fn lemma_pow2_pos(e: nat)
    ensures
        pow2(e) >= 1,
    decreases e,
{
    if e > 0 {
        lemma_pow2_pos((e - 1) as nat);
    }
}

proof fn lemma_pow2_mono(a: nat, b: nat)
    ensures
        a <= b ==> pow2(a) <= pow2(b),
    decreases b,
{
    if a < b {
        lemma_pow2_mono(a, (b - 1) as nat);
        lemma_pow2_pos((b - 1) as nat);
    }
}

proof fn lemma_bit_len_bound(n: nat, b: nat)
    requires
        n < pow2(b),
    ensures
        bit_len(n) <= b,
    decreases n,
{
    if n > 0 {
        assert(b > 0);
        assert(n / 2 < pow2((b - 1) as nat));
        lemma_bit_len_bound(n / 2, (b - 1) as nat);
    }
}

proof fn lemma_pow2_64()
    ensures
        pow2(64) == 0x1_0000_0000_0000_0000,
{
    reveal_with_fuel(pow2, 65);
}

/// The number of binary digits of `n`.
fn bit_length(n: u64) -> (b: u64)
    ensures
        b == bit_len(n as nat),
        b <= 64,
{
    let mut m = n;
    let mut b: u64 = 0;
    proof {
        lemma_pow2_64();
        lemma_bit_len_bound(n as nat, 64);
    }
    while m > 0
        invariant
            bit_len(n as nat) == b + bit_len(m as nat),
            bit_len(n as nat) <= 64,
        decreases m,
    {
        m = m / 2;
        b = b + 1;
    }
    b
}

/// The value of `n as f64`, exactly.
fn f64_value_exec(n: u64) -> (f: u128)
    ensures
        f == f64_value(n as nat),
        f <= 0x1_0000_0000_0000_0000 + 2048,
{
    let b = bit_length(n);
    if b <= 53 {
        return n as u128;
    }
    let s = b - 53;
    let mut p: u64 = 1;
    let mut i: u64 = 0;
    proof {
        lemma_pow2_facts(s as nat);
    }
    while i < s
        invariant
            i <= s,
            s <= 11,
            p == pow2(i as nat),
            p <= 2048,
        decreases s - i,
    {
        proof {
            lemma_pow2_facts((i + 1) as nat);
        }
        p = p * 2;
        i += 1;
    }
    let q = n / p;
    let r = n % p;
    let half = p / 2;
    proof {
        assert(pow2((s - 1) as nat) * 2 == pow2(s as nat));
        assert(half == pow2((s - 1) as nat));
    }
    let up = r > half || (r == half && q % 2 == 1);
    let qq: u128 = if up {
        q as u128 + 1
    } else {
        q as u128
    };
    proof {
        assert(q <= n / p);
        assert((q as int) * (p as int) <= n) by (nonlinear_arith)
            requires
                q == n / p,
                p > 0,
        ;
        assert(qq <= q + 1);
        assert((q + 1) * (p as int) <= n + p) by (nonlinear_arith)
            requires
                (q as int) * (p as int) <= n,
        ;
        assert(qq * p <= 0x1_0000_0000_0000_0000 + 2048) by (nonlinear_arith)
            requires
                qq <= q + 1,
                (q + 1) * (p as int) <= n + p,
                n < 0x1_0000_0000_0000_0000,
                p <= 2048,
        ;
    }
    qq * (p as u128)
}

/// A byte count in binary units.
pub fn human_bytes(n: u64) -> (s: String)
    ensures
        s@ == human_bytes_spec(n as nat),
{
    let f = f64_value_exec(n);
    proof {
        reveal_with_fuel(pow1024, 5);
    }
    let (k, d): (u64, u128) = if f >= 1099511627776 {
        (4, 1099511627776)
    } else if f >= 1073741824 {
        (3, 1073741824)
    } else if f >= 1048576 {
        (2, 1048576)
    } else if f >= 1024 {
        (1, 1024)
    } else {
        (0, 1)
    };
    if k == 0 {
        let mut s = decimal_string(n);
        push_str(&mut s, " B");
        return s;
    }
    let a = 10 * f;
    let q = a / d;
    let r = a % d;
    let tenths = if 2 * r > d || (2 * r == d && q % 2 == 1) {
        q + 1
    } else {
        q
    };
    proof {
        assert(q * 1024 <= a) by (nonlinear_arith)
            requires
                q == a / d,
                d >= 1024,
        ;
    }
    let whole = (tenths / 10) as u64;
    let frac = (tenths % 10) as u64;
    let mut s = decimal_string(whole);
    string_push(&mut s, '.');
    string_push(&mut s, digit_for(frac));
    push_str(&mut s, " ");
    let unit = if k == 1 {
        "KiB"
    } else if k == 2 {
        "MiB"
    } else if k == 3 {
        "GiB"
    } else {
        "TiB"
    };
    push_str(&mut s, unit);
    proof {
        assert(s@ =~= decimal((tenths / 10) as nat) + seq!['.', digit_char((tenths % 10) as int)] + " "@
            + unit_name(k as nat));
    }
    s
}

fn digit_for(d: u64) -> (c: char)
    requires
        d < 10,
    ensures
        c == digit_char(d as int),
{
    if d == 0 { '0' } else if d == 1 { '1' } else if d == 2 { '2' } else if d == 3 { '3' }
    else if d == 4 { '4' } else if d == 5 { '5' } else if d == 6 { '6' } else if d == 7 { '7' }
    else if d == 8 { '8' } else { '9' }
}

// ---------------------------------------------------------------------------
// Table columns and result lines
// ---------------------------------------------------------------------------

/// Widths of the vault table's columns, in bytes.
#[derive(Debug, Clone, Copy, PartialEq, Eq, Structural)]
pub struct ColumnWidths {
    pub id: usize,
    pub name: usize,
    pub status: usize,
    pub created: usize,
}

pub open spec fn blen(s: Seq<char>) -> int {
    encode_utf8(s).len() as int
}

/// Each column is as wide as its header and its widest cell.
pub open spec fn widths_ok(rows: Seq<VaultRowJson>, w: ColumnWidths) -> bool {
    &&& w.id >= 2 && w.name >= 4 && w.status >= 6 && w.created >= 7
    &&& forall|i: int|
        0 <= i < rows.len() ==> w.id >= blen(#[trigger] rows[i].id@) && w.name >= blen(rows[i].name@)
            && w.status >= blen(rows[i].status@) && w.created >= blen(rows[i].created_at@)
    &&& (w.id == 2 || exists|i: int| 0 <= i < rows.len() && w.id == blen(#[trigger] rows[i].id@))
    &&& (w.name == 4 || exists|i: int| 0 <= i < rows.len() && w.name == blen(#[trigger] rows[i].name@))
    &&& (w.status == 6 || exists|i: int|
        0 <= i < rows.len() && w.status == blen(#[trigger] rows[i].status@))
    &&& (w.created == 7 || exists|i: int|
        0 <= i < rows.len() && w.created == blen(#[trigger] rows[i].created_at@))
}

proof fn lemma_widths_step(before: Seq<VaultRowJson>, row: VaultRowJson, w0: ColumnWidths, w: ColumnWidths)
    requires
        widths_ok(before, w0),
        w.id == (if blen(row.id@) > w0.id { blen(row.id@) } else { w0.id as int }),
        w.name == (if blen(row.name@) > w0.name { blen(row.name@) } else { w0.name as int }),
        w.status == (if blen(row.status@) > w0.status { blen(row.status@) } else { w0.status as int }),
        w.created == (if blen(row.created_at@) > w0.created {
            blen(row.created_at@)
        } else {
            w0.created as int
        }),
    ensures
        widths_ok(before.push(row), w),
{
    let after = before.push(row);
    let gi = before.len() as int;
    assert(after[gi] == row);
    assert forall|j: int| 0 <= j < after.len() implies w.id >= blen(#[trigger] after[j].id@) && w.name
        >= blen(after[j].name@) && w.status >= blen(after[j].status@) && w.created >= blen(
        after[j].created_at@,
    ) by {
        if j < gi {
            assert(after[j] == before[j]);
            assert(w0.id >= blen(before[j].id@));
        }
    }
    if w.id != 2 {
        if w.id == blen(row.id@) {
            assert(w.id == blen(after[gi].id@));
        } else {
            let j = choose|j: int| 0 <= j < before.len() && w0.id == blen(#[trigger] before[j].id@);
            assert(after[j] == before[j]);
            assert(w.id == blen(after[j].id@));
        }
    }
    if w.name != 4 {
        if w.name == blen(row.name@) {
            assert(w.name == blen(after[gi].name@));
        } else {
            let j = choose|j: int| 0 <= j < before.len() && w0.name == blen(#[trigger] before[j].name@);
            assert(after[j] == before[j]);
            assert(w.name == blen(after[j].name@));
        }
    }
    if w.status != 6 {
        if w.status == blen(row.status@) {
            assert(w.status == blen(after[gi].status@));
        } else {
            let j = choose|j: int|
                0 <= j < before.len() && w0.status == blen(#[trigger] before[j].status@);
            assert(after[j] == before[j]);
            assert(w.status == blen(after[j].status@));
        }
    }
    if w.created != 7 {
        if w.created == blen(row.created_at@) {
            assert(w.created == blen(after[gi].created_at@));
        } else {
            let j = choose|j: int|
                0 <= j < before.len() && w0.created == blen(#[trigger] before[j].created_at@);
            assert(after[j] == before[j]);
            assert(w.created == blen(after[j].created_at@));
        }
    }
}

pub fn column_widths(rows: &Vec<VaultRowJson>) -> (w: ColumnWidths)
    ensures
        widths_ok(rows@, w),
{
    let mut w = ColumnWidths { id: 2, name: 4, status: 6, created: 7 };
    let mut i: usize = 0;
    while i < rows.len()
        invariant
            i <= rows@.len(),
            widths_ok(rows@.take(i as int), w),
        decreases rows@.len() - i,
    {
        let r = &rows[i];
        let a = r.id.as_str().as_bytes().len();
        let b = r.name.as_str().as_bytes().len();
        let c = r.status.as_str().as_bytes().len();
        let d = r.created_at.as_str().as_bytes().len();
        let ghost before = rows@.take(i as int);
        let ghost w0 = w;
        proof {
            assert(rows@.take(i + 1) =~= before.push(rows@[i as int]));
        }
        if a > w.id {
            w.id = a;
        }
        if b > w.name {
            w.name = b;
        }
        if c > w.status {
            w.status = c;
        }
        if d > w.created {
            w.created = d;
        }
        proof {
            lemma_widths_step(before, rows@[i as int], w0, w);
        }
        i += 1;
    }
    assert(rows@.take(i as int) =~= rows@);
    w
}

/// The decimal numeral of a signed number.
pub open spec fn signed_decimal(n: int) -> Seq<char> {
    if n < 0 {
        seq!['-'] + decimal((-n) as nat)
    } else {
        decimal(n as nat)
    }
}

pub fn signed_decimal_string(n: i64) -> (s: String)
    ensures
        s@ == signed_decimal(n as int),
{
    if n < 0 {
        let m: u64 = if n == i64::MIN {
            0x8000_0000_0000_0000
        } else {
            (-n) as u64
        };
        let mut s = String::new();
        string_push(&mut s, '-');
        push_str(&mut s, decimal_string(m).as_str());
        s
    } else {
        decimal_string(n as u64)
    }
}

/// One line of a filesystem result: path, size and mtime.
pub fn filesystem_line(r: &FilesystemResultJson) -> (s: String)
    ensures
        s@ == r.path@ + "  "@ + signed_decimal(r.size as int) + " bytes  "@ + r.mtime@,
{
    let mut s = concat(r.path.as_str(), "  ");
    push_str(&mut s, signed_decimal_string(r.size).as_str());
    push_str(&mut s, " bytes  ");
    push_str(&mut s, r.mtime.as_str());
    s
}


// ---------------------------------------------------------------------------
// Rendering
// ---------------------------------------------------------------------------

/// The non-empty headings of a path, joined by ` / `.
pub open spec fn join_headings(h: Seq<Seq<char>>) -> Seq<char>
    decreases h.len(),
{
    if h.len() == 0 {
        seq![]
    } else {
        let rest = join_headings(h.drop_last());
        if h.last().len() == 0 {
            rest
        } else if rest.len() == 0 {
            h.last()
        } else {
            rest + " / "@ + h.last()
        }
    }
}

/// The heading trail of a semantic result, `  > A / B` and a newline, when
/// it has a non-empty heading.
pub fn heading_trail(heading_path: &Vec<String>) -> (r: Option<String>)
    ensures
        ({
            let j = join_headings(heading_path@.map_values(|s: String| s@));
            &&& j.len() == 0 ==> r is None
            &&& j.len() > 0 ==> (r matches Some(t) && t@ == "  > "@ + j + "\n"@)
        }),
{
    let ghost hv = heading_path@.map_values(|s: String| s@);
    let mut joined = String::new();
    let mut i: usize = 0;
    while i < heading_path.len()
        invariant
            i <= heading_path@.len(),
            hv == heading_path@.map_values(|s: String| s@),
            joined@ == join_headings(hv.take(i as int)),
        decreases heading_path@.len() - i,
    {
        proof {
            assert(hv.take(i + 1).drop_last() =~= hv.take(i as int));
            assert(hv.take(i + 1).last() == heading_path@[i as int]@);
        }
        let h = heading_path[i].as_str();
        if !h.is_empty() {
            if !joined.as_str().is_empty() {
                push_str(&mut joined, " / ");
            }
            push_str(&mut joined, h);
        }
        i += 1;
    }
    proof {
        assert(hv.take(i as int) =~= hv);
    }
    if joined.as_str().is_empty() {
        None
    } else {
        let mut t = concat("  > ", joined.as_str());
        push_str(&mut t, "\n");
        Some(t)
    }
}

/// `s` padded with spaces to `w` characters, as `{:<w$}` does.
pub open spec fn pad_right(s: Seq<char>, w: int) -> Seq<char> {
    if s.len() >= w {
        s
    } else {
        s + Seq::new((w - s.len()) as nat, |_i: int| ' ')
    }
}

fn pad_to(out: &mut String, s: &str, w: usize)
    ensures
        final(out)@ == old(out)@ + pad_right(s@, w as int),
{
    let n = chars_of(s).len();
    push_str(out, s);
    let ghost base = out@;
    if n < w {
        let mut k = n;
        while k < w
            invariant
                n <= k <= w,
                n == s@.len(),
                out@ == base + Seq::new((k - n) as nat, |_i: int| ' '),
            decreases w - k,
        {
            string_push(out, ' ');
            k += 1;
            assert(out@ =~= base + Seq::new((k - n) as nat, |_i: int| ' '));
        }
        assert(out@ =~= old(out)@ + pad_right(s@, w as int));
    }
}

/// One line of the vault table: id, name, status and creation time padded
/// to their columns, two spaces apart, then the path.
pub open spec fn table_line(w: ColumnWidths, id: Seq<char>, name: Seq<char>, status: Seq<char>, created: Seq<char>, path: Seq<char>) -> Seq<char> {
    pad_right(id, w.id as int) + "  "@ + pad_right(name, w.name as int) + "  "@ + pad_right(
        status,
        w.status as int,
    ) + "  "@ + pad_right(created, w.created as int) + "  "@ + path + "\n"@
}

pub fn vault_table_line(w: ColumnWidths, id: &str, name: &str, status: &str, created: &str, path: &str) -> (s:
    String)
    ensures
        s@ == table_line(w, id@, name@, status@, created@, path@),
{
    let mut s = String::new();
    pad_to(&mut s, id, w.id);
    push_str(&mut s, "  ");
    pad_to(&mut s, name, w.name);
    push_str(&mut s, "  ");
    pad_to(&mut s, status, w.status);
    push_str(&mut s, "  ");
    pad_to(&mut s, created, w.created);
    push_str(&mut s, "  ");
    push_str(&mut s, path);
    push_str(&mut s, "\n");
    s
}

/// The table lines of `rows`.
pub open spec fn table_rows(w: ColumnWidths, rows: Seq<VaultRowJson>) -> Seq<char>
    decreases rows.len(),
{
    if rows.len() == 0 {
        seq![]
    } else {
        let r = rows.last();
        table_rows(w, rows.drop_last()) + table_line(w, r.id@, r.name@, r.status@, r.created_at@, r.path@)
    }
}

/// The vault table: `(no vaults)` when empty, else a header line and one
/// line per vault.
pub fn render_vault_list(rows: &Vec<VaultRowJson>) -> (s: String)
    ensures
        rows@.len() == 0 ==> s@ == "(no vaults)\n"@,
        rows@.len() > 0 ==> exists|w: ColumnWidths|
            widths_ok(rows@, w) && s@ == table_line(w, "ID"@, "NAME"@, "STATUS"@, "CREATED"@, "PATH"@)
                + #[trigger] table_rows(w, rows@),
{
    if rows.len() == 0 {
        return owned("(no vaults)\n");
    }
    let w = column_widths(rows);
    let header = vault_table_line(w, "ID", "NAME", "STATUS", "CREATED", "PATH");
    let mut s = header;
    let ghost hv = s@;
    let mut i: usize = 0;
    proof {
        assert(rows@.take(0) =~= Seq::<VaultRowJson>::empty());
        assert(s@ =~= hv + table_rows(w, rows@.take(0)));
    }
    while i < rows.len()
        invariant
            i <= rows@.len(),
            s@ == hv + table_rows(w, rows@.take(i as int)),
        decreases rows@.len() - i,
    {
        let r = &rows[i];
        let line = vault_table_line(
            w,
            r.id.as_str(),
            r.name.as_str(),
            r.status.as_str(),
            r.created_at.as_str(),
            r.path.as_str(),
        );
        proof {
            assert(rows@.take(i + 1).drop_last() =~= rows@.take(i as int));
            assert(rows@.take(i + 1).last() == rows@[i as int]);
        }
        push_str(&mut s, line.as_str());
        i += 1;
        assert(s@ =~= hv + table_rows(w, rows@.take(i as int)));
    }
    assert(rows@.take(i as int) =~= rows@);
    s
}

/// The text block of one vault: one `field: value` line per field, the
/// last error only when there is one.
pub open spec fn vault_row_text_spec(row: VaultRowJson) -> Seq<char> {
    "id:         "@ + row.id@ + "\n"@ + "name:       "@ + row.name@ + "\n"@ + "path:       "@ + row.path@
        + "\n"@ + "status:     "@ + row.status@ + "\n"@ + "created_at: "@ + row.created_at@ + "\n"@
        + match row.last_error {
        Some(e) => "last_error: "@ + e@ + "\n"@,
        None => seq![],
    }
}

pub fn vault_row_text(row: &VaultRowJson) -> (s: String)
    ensures
        s@ == vault_row_text_spec(*row),
{
    let mut s = concat("id:         ", row.id.as_str());
    push_str(&mut s, "\n");
    push_str(&mut s, "name:       ");
    push_str(&mut s, row.name.as_str());
    push_str(&mut s, "\n");
    push_str(&mut s, "path:       ");
    push_str(&mut s, row.path.as_str());
    push_str(&mut s, "\n");
    push_str(&mut s, "status:     ");
    push_str(&mut s, row.status.as_str());
    push_str(&mut s, "\n");
    push_str(&mut s, "created_at: ");
    push_str(&mut s, row.created_at.as_str());
    push_str(&mut s, "\n");
    match &row.last_error {
        Some(e) => {
            push_str(&mut s, "last_error: ");
            push_str(&mut s, e.as_str());
            push_str(&mut s, "\n");
        },
        None => {},
    }
    s
}

/// The lines of the matches of a content-search result.
pub open spec fn match_lines(ms: Seq<crate::api::types::ContentMatchJson>) -> Seq<char>
    decreases ms.len(),
{
    if ms.len() == 0 {
        seq![]
    } else {
        let m = ms.last();
        match_lines(ms.drop_last()) + "  "@ + decimal(m.line as nat) + ": "@ + m.text@ + "\n"@
    }
}

/// The block of one content-search result: a header line with the match
/// count, then one line per match.
pub fn content_block(path: &str, match_count: usize, matches: &Vec<crate::api::types::ContentMatchJson>) -> (s: String)
    ensures
        s@ == path@ + " ("@ + decimal(match_count as nat) + " matches)\n"@ + match_lines(matches@),
{
    let mut s = concat(path, " (");
    push_str(&mut s, decimal_string(match_count as u64).as_str());
    push_str(&mut s, " matches)\n");
    let ghost head = s@;
    let mut i: usize = 0;
    proof {
        assert(matches@.take(0) =~= Seq::<crate::api::types::ContentMatchJson>::empty());
        assert(s@ =~= head + match_lines(matches@.take(0)));
    }
    while i < matches.len()
        invariant
            i <= matches@.len(),
            s@ == head + match_lines(matches@.take(i as int)),
        decreases matches@.len() - i,
    {
        proof {
            assert(matches@.take(i + 1).drop_last() =~= matches@.take(i as int));
            assert(matches@.take(i + 1).last() == matches@[i as int]);
        }
        push_str(&mut s, "  ");
        push_str(&mut s, decimal_string(matches[i].line as u64).as_str());
        push_str(&mut s, ": ");
        push_str(&mut s, matches[i].text.as_str());
        push_str(&mut s, "\n");
        i += 1;
        assert(s@ =~= head + match_lines(matches@.take(i as int)));
    }
    assert(matches@.take(i as int) =~= matches@);
    s
}

/// The notice that more results exist than were shown.
pub open spec fn truncated_notice() -> Seq<char> {
    "(truncated; raise --limit)\n"@
}

/// The filesystem results as lines.
pub open spec fn fs_lines(rs: Seq<FilesystemResultJson>) -> Seq<char>
    decreases rs.len(),
{
    if rs.len() == 0 {
        seq![]
    } else {
        let r = rs.last();
        fs_lines(rs.drop_last()) + r.path@ + "  "@ + signed_decimal(r.size as int) + " bytes  "@ + r.mtime@
            + "\n"@
    }
}

/// The text of a filesystem search: one line per result, then the notice
/// when the results were cut.
pub fn filesystem_search_text(results: &Vec<FilesystemResultJson>, truncated: bool) -> (s: String)
    ensures
        s@ == fs_lines(results@) + if truncated {
            truncated_notice()
        } else {
            seq![]
        },
{
    let mut s = String::new();
    let mut i: usize = 0;
    proof {
        assert(results@.take(0) =~= Seq::<FilesystemResultJson>::empty());
    }
    while i < results.len()
        invariant
            i <= results@.len(),
            s@ == fs_lines(results@.take(i as int)),
        decreases results@.len() - i,
    {
        proof {
            assert(results@.take(i + 1).drop_last() =~= results@.take(i as int));
            assert(results@.take(i + 1).last() == results@[i as int]);
        }
        let line = filesystem_line(&results[i]);
        push_str(&mut s, line.as_str());
        push_str(&mut s, "\n");
        i += 1;
        assert(s@ =~= fs_lines(results@.take(i as int)));
    }
    assert(results@.take(i as int) =~= results@);
    if truncated {
        push_str(&mut s, "(truncated; raise --limit)\n");
    }
    s
}

/// Blocks separated by blank lines.
pub open spec fn blocks_joined(bs: Seq<Seq<char>>) -> Seq<char>
    decreases bs.len(),
{
    if bs.len() == 0 {
        seq![]
    } else if bs.len() == 1 {
        bs[0]
    } else {
        blocks_joined(bs.drop_last()) + "\n"@ + bs.last()
    }
}

/// The text of a content search: the results' blocks separated by blank
/// lines, then the notice, after a blank line when blocks precede it, when
/// the results were cut.
pub fn content_search_text(blocks: &Vec<String>, truncated: bool) -> (s: String)
    ensures
        s@ == blocks_joined(blocks@.map_values(|b: String| b@)) + if truncated {
            if blocks@.len() > 0 {
                "\n"@ + truncated_notice()
            } else {
                truncated_notice()
            }
        } else {
            seq![]
        },
{
    let ghost bv = blocks@.map_values(|b: String| b@);
    let mut s = String::new();
    let mut i: usize = 0;
    proof {
        assert(bv.take(0) =~= Seq::<Seq<char>>::empty());
    }
    while i < blocks.len()
        invariant
            i <= blocks@.len(),
            bv == blocks@.map_values(|b: String| b@),
            s@ == blocks_joined(bv.take(i as int)),
        decreases blocks@.len() - i,
    {
        proof {
            assert(bv.take(i + 1).drop_last() =~= bv.take(i as int));
            assert(bv.take(i + 1).last() == blocks@[i as int]@);
        }
        if i > 0 {
            push_str(&mut s, "\n");
        }
        push_str(&mut s, blocks[i].as_str());
        proof {
            if i == 0 {
                assert(bv.take(1) =~= seq![bv[0]]);
            }
        }
        i += 1;
        assert(s@ =~= blocks_joined(bv.take(i as int)));
    }
    assert(bv.take(i as int) =~= bv);
    if truncated {
        if blocks.len() > 0 {
            push_str(&mut s, "\n");
        }
        push_str(&mut s, "(truncated; raise --limit)\n");
    }
    s
}

/// The text of `hmn status`.
pub fn status_text(vault: &str, indexed_file_count: u64, last_indexed_at: Option<&str>) -> (s: String)
    ensures
        s@ == "vault:         "@ + vault@ + "\nindexed files: "@ + decimal(indexed_file_count as nat)
            + "\nlast indexed:  "@ + match last_indexed_at {
            Some(t) => t@,
            None => "never"@,
        } + "\n"@,
{
    let mut s = concat("vault:         ", vault);
    push_str(&mut s, "\nindexed files: ");
    push_str(&mut s, decimal_string(indexed_file_count).as_str());
    push_str(&mut s, "\nlast indexed:  ");
    match last_indexed_at {
        Some(t) => push_str(&mut s, t),
        None => push_str(&mut s, "never"),
    }
    push_str(&mut s, "\n");
    s
}

/// The text of a terminated vault.
pub fn terminate_text(terminated: bool, id: &str) -> (s: String)
    ensures
        s@ == "terminated: "@ + (if terminated {
            "true"@
        } else {
            "false"@
        }) + "\nid:         "@ + id@ + "\n"@,
{
    let mut s = owned("terminated: ");
    push_str(&mut s, if terminated { "true" } else { "false" });
    push_str(&mut s, "\nid:         ");
    push_str(&mut s, id);
    push_str(&mut s, "\n");
    s
}

/// The text of a rescanned vault: its row, then when the rescan started.
pub fn rescan_text(row: &VaultRowJson, rescan_initiated_at: &str) -> (s: String)
    ensures
        s@ == vault_row_text_spec(*row) + "rescan_initiated_at: "@ + rescan_initiated_at@ + "\n"@,
{
    let mut s = vault_row_text(row);
    push_str(&mut s, "rescan_initiated_at: ");
    push_str(&mut s, rescan_initiated_at);
    push_str(&mut s, "\n");
    s
}

} // verus!
