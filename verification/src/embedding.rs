//! Embedding-service rules: how failures are classified and rendered, how a
//! batch response is checked and aligned with its inputs, and how the batch
//! size shrinks when the service rejects a batch. The requests themselves
//! are sent at the edge.

use vstd::prelude::*;
use crate::api::search::{is_preview, make_preview};
use crate::text::{concat, decimal, decimal_string, owned, push_str};

verus! {

/// Why an embedding call failed. Transport and parse failures are carried
/// as their rendered text.
#[derive(Debug, Clone, PartialEq, Eq)]
pub enum EmbeddingError {
    Transport(String),
    Status { code: u16, body: String },
    BodyParse(String),
    DimensionMismatch { expected: u32, actual: u32 },
    CountMismatch { expected: usize, actual: usize },
    ResponseShape(String),
}

/// Largest response body, in bytes, shown in an error message.
pub const DISPLAY_BODY_MAX: usize = 256;

/// The text an error message shows of a response body: the body when it is
/// short, else a prefix cut at a character boundary and the total size.
pub open spec fn display_body_spec(body: Seq<char>, r: Seq<char>) -> bool {
    if crate::diagnostics::byte_len(body) <= DISPLAY_BODY_MAX {
        r == body
    } else {
        exists|p: Seq<char>|
            is_preview(body, DISPLAY_BODY_MAX as int, p, true) && r == p + "… ("@ + decimal(
                crate::diagnostics::byte_len(body) as nat,
            ) + " bytes total)"@
    }
}

/// Bounds a response body for display.
pub fn truncate_for_display(body: &str) -> (r: String)
    ensures
        display_body_spec(body@, r@),
{
    let total = body.as_bytes().len();
    if total <= DISPLAY_BODY_MAX {
        return owned(body);
    }
    let (p, cut) = make_preview(body, DISPLAY_BODY_MAX);
    let mut r = p;
    push_str(&mut r, "… (");
    push_str(&mut r, decimal_string(total as u64).as_str());
    push_str(&mut r, " bytes total)");
    r
}

/// Whether a failure is worth retrying: transport failures and server
/// errors.
pub fn is_retryable(e: &EmbeddingError) -> (r: bool)
    ensures
        r == match *e {
            EmbeddingError::Transport(_) => true,
            EmbeddingError::Status { code, .. } => code >= 500,
            _ => false,
        },
{
    match e {
        EmbeddingError::Transport(_) => true,
        EmbeddingError::Status { code, .. } => *code >= 500,
        _ => false,
    }
}

/// Whether a rejected batch should be retried smaller: the statuses a
/// service answers an over-large batch with (400, 413, 422).
pub fn should_shrink(e: &EmbeddingError) -> (r: bool)
    ensures
        r == match *e {
            EmbeddingError::Status { code, .. } => code == 400 || code == 413 || code == 422,
            _ => false,
        },
{
    match e {
        EmbeddingError::Status { code, .. } => *code == 400 || *code == 413 || *code == 422,
        _ => false,
    }
}

/// The rendering of a failure.
pub open spec fn embedding_error_text(e: EmbeddingError, body_shown: Seq<char>) -> Seq<char> {
    match e {
        EmbeddingError::Transport(t) => "embedding transport error: "@ + t@,
        EmbeddingError::Status { code, .. } => "embedding service returned HTTP "@ + decimal(
            code as nat,
        ) + ": "@ + body_shown,
        EmbeddingError::BodyParse(t) => "embedding response body parse error: "@ + t@,
        EmbeddingError::DimensionMismatch { expected, actual } => "embedding dimension mismatch: expected "@
            + decimal(expected as nat) + ", got "@ + decimal(actual as nat),
        EmbeddingError::CountMismatch { expected, actual } => "embedding count mismatch: sent "@
            + decimal(expected as nat) + " inputs, got "@ + decimal(actual as nat) + " vectors"@,
        EmbeddingError::ResponseShape(d) => "embedding response shape error: "@ + d@,
    }
}

impl EmbeddingError {
    /// The one-line rendering; a status body is shown bounded.
    pub fn display_text(&self) -> (s: String)
        ensures
            match *self {
                EmbeddingError::Status { body, .. } => exists|shown: Seq<char>|
                    display_body_spec(body@, shown) && s@ == embedding_error_text(*self, shown),
                _ => s@ == embedding_error_text(*self, seq![]),
            },
    {
        match self {
            EmbeddingError::Transport(t) => concat("embedding transport error: ", t.as_str()),
            EmbeddingError::Status { code, body } => {
                let mut s = concat(
                    "embedding service returned HTTP ",
                    decimal_string(*code as u64).as_str(),
                );
                push_str(&mut s, ": ");
                let shown = truncate_for_display(body.as_str());
                push_str(&mut s, shown.as_str());
                assert(display_body_spec(body@, shown@) && s@ == embedding_error_text(*self, shown@));
                s
            },
            EmbeddingError::BodyParse(t) => concat("embedding response body parse error: ", t.as_str()),
            EmbeddingError::DimensionMismatch { expected, actual } => {
                let mut s = concat(
                    "embedding dimension mismatch: expected ",
                    decimal_string(*expected as u64).as_str(),
                );
                push_str(&mut s, ", got ");
                push_str(&mut s, decimal_string(*actual as u64).as_str());
                s
            },
            EmbeddingError::CountMismatch { expected, actual } => {
                let mut s = concat(
                    "embedding count mismatch: sent ",
                    decimal_string(*expected as u64).as_str(),
                );
                push_str(&mut s, " inputs, got ");
                push_str(&mut s, decimal_string(*actual as u64).as_str());
                push_str(&mut s, " vectors");
                s
            },
            EmbeddingError::ResponseShape(d) => concat("embedding response shape error: ", d.as_str()),
        }
    }
}


/// Whether a failed attempt is retried: attempts are numbered from 1, the
/// call makes at most `max_retries + 1` attempts (saturating), and only
/// retryable failures are retried.
pub fn retry_after(attempt: u8, max_retries: u8, e: &EmbeddingError) -> (r: bool)
    ensures
        r == (attempt < (if max_retries == 255 {
            255
        } else {
            max_retries + 1
        }) && match *e {
            EmbeddingError::Transport(_) => true,
            EmbeddingError::Status { code, .. } => code >= 500,
            _ => false,
        }),
{
    let max_attempts = if max_retries == 255 {
        255
    } else {
        max_retries + 1
    };
    if attempt >= max_attempts {
        return false;
    }
    is_retryable(e)
}

// ---------------------------------------------------------------------------
// Batch responses
// ---------------------------------------------------------------------------

/// Whether the items' `index` fields put item `pos[p]` at output place `p`,
/// for a response that carried indices.
pub open spec fn aligned(indices: Seq<Option<usize>>, order: Seq<int>) -> bool {
    &&& order.len() == indices.len()
    &&& forall|p: int| 0 <= p < order.len() ==> 0 <= #[trigger] order[p] < indices.len()
        && indices[order[p]] == Some(p as usize)
}

/// The indices carried by a response are a permutation of `0..n`.
pub open spec fn is_index_permutation(indices: Seq<Option<usize>>) -> bool {
    &&& forall|i: int| 0 <= i < indices.len() ==> #[trigger] indices[i] is Some
    &&& forall|i: int| 0 <= i < indices.len() ==> indices[i]->0 < indices.len()
    &&& forall|i: int, j: int|
        0 <= i < j < indices.len() ==> #[trigger] indices[i] != #[trigger] indices[j]
}

/// Ascending order.
pub open spec fn sorted_asc(s: Seq<usize>) -> bool {
    forall|i: int, j: int| 0 <= i <= j < s.len() ==> s[i] <= s[j]
}

/// The index values of a response whose items all carry one.
pub open spec fn index_values(indices: Seq<Option<usize>>) -> Seq<usize> {
    indices.map_values(|o: Option<usize>| o->0)
}

/// The message of a response whose indices are not a permutation of the
/// inputs: the last valid index, and the first position at which the
/// sorted indices leave `0, 1, 2, …`, with the index found there.
pub open spec fn shape_message(n: nat, pos: nat, found: nat) -> Seq<char> {
    "response indices are not a contiguous permutation of 0..="@ + decimal(
        (if n == 0 {
            0
        } else {
            n - 1
        }) as nat,
    ) + " (position "@ + decimal(pos) + " has index Some("@ + decimal(found) + "))"@
}

/// `s` is the sorted arrangement of the response's indices, and `pos` the
/// first place where it differs from the identity.
pub open spec fn first_gap(indices: Seq<Option<usize>>, s: Seq<usize>, pos: int) -> bool {
    &&& s.to_multiset() == index_values(indices).to_multiset()
    &&& sorted_asc(s)
    &&& 0 <= pos < s.len()
    &&& s[pos] != pos
    &&& forall|p: int| 0 <= p < pos ==> s[p] == p
}

fn sort_indices(v: &Vec<usize>) -> (s: Vec<usize>)
    ensures
        s@.to_multiset() == v@.to_multiset(),
        s@.len() == v@.len(),
        sorted_asc(s@),
{
    broadcast use vstd::seq_lib::group_to_multiset_ensures;

    let mut s: Vec<usize> = Vec::new();
    let mut i: usize = 0;
    while i < v.len()
        invariant
            i <= v@.len(),
            s@.len() == i,
            sorted_asc(s@),
            s@.to_multiset() == v@.take(i as int).to_multiset(),
        decreases v@.len() - i,
    {
        let x = v[i];
        let mut k: usize = 0;
        while k < s.len() && s[k] <= x
            invariant
                k <= s@.len(),
                sorted_asc(s@),
                forall|j: int| 0 <= j < k ==> s@[j] <= x,
            decreases s@.len() - k,
        {
            k += 1;
        }
        let ghost before = s@;
        s.insert(k, x);
        proof {
            vstd::seq_lib::to_multiset_insert(before, k as int, x);
            assert(v@.take(i + 1) =~= v@.take(i as int).push(x));
            vstd::seq_lib::to_multiset_build(v@.take(i as int), x);
            assert forall|a: int, b: int| 0 <= a <= b < s@.len() implies s@[a] <= s@[b] by {
                if b < k {
                    assert(s@[a] == before[a] && s@[b] == before[b]);
                } else if b == k {
                    if a < k {
                        assert(s@[a] == before[a]);
                    }
                } else {
                    assert(s@[b] == before[b - 1]);
                    if k < before.len() {
                        assert(before[k as int] > x);
                        assert(before[k as int] <= before[b - 1]);
                    }
                    if a < k {
                        assert(s@[a] == before[a]);
                    } else if a > k {
                        assert(s@[a] == before[a - 1]);
                    }
                }
            }
        }
        i += 1;
    }
    proof {
        assert(v@.take(v@.len() as int) =~= v@);
    }
    s
}

/// Sorted indices that run `0, 1, …, n - 1` are a permutation of `0..n`.
proof fn lemma_identity_is_permutation(indices: Seq<Option<usize>>, s: Seq<usize>)
    requires
        forall|i: int| 0 <= i < indices.len() ==> #[trigger] indices[i] is Some,
        s.to_multiset() == index_values(indices).to_multiset(),
        s.len() == indices.len(),
        forall|p: int| 0 <= p < s.len() ==> s[p] == p,
    ensures
        is_index_permutation(indices),
{
    broadcast use vstd::seq_lib::group_to_multiset_ensures;

    let vals = index_values(indices);
    assert(s.no_duplicates());
    s.lemma_multiset_has_no_duplicates();
    vals.lemma_multiset_has_no_duplicates_conv();
    assert forall|i: int| 0 <= i < indices.len() implies indices[i]->0 < indices.len() by {
        assert(vals[i] == indices[i]->0);
        assert(vals.contains(vals[i]));
        assert(s.to_multiset().count(vals[i]) > 0);
        assert(s.contains(vals[i]));
        let p = choose|p: int| 0 <= p < s.len() && s[p] == vals[i];
    }
    assert forall|i: int, j: int| 0 <= i < j < indices.len() implies #[trigger] indices[i] != #[trigger] indices[j] by {
        assert(vals[i] == indices[i]->0 && vals[j] == indices[j]->0);
        assert(vals[i] != vals[j]);
    }
}

proof fn lemma_strict_spread(s: Seq<usize>, i: int, j: int)
    requires
        0 <= i <= j < s.len(),
        forall|a: int, b: int| 0 <= a < b < s.len() ==> s[a] < s[b],
    ensures
        s[j] >= s[i] + (j - i),
    decreases j - i,
{
    if i < j {
        lemma_strict_spread(s, i + 1, j);
    }
}

/// A permutation of `0..n` sorts to `0, 1, …, n - 1`, so indices whose
/// sorted arrangement has a gap are no permutation.
proof fn lemma_gap_means_not_permutation(indices: Seq<Option<usize>>, s: Seq<usize>, pos: int)
    requires
        first_gap(indices, s, pos),
    ensures
        !is_index_permutation(indices),
{
    broadcast use vstd::seq_lib::group_to_multiset_ensures;

    if is_index_permutation(indices) {
        let vals = index_values(indices);
        let n = indices.len() as int;
        assert(vals.no_duplicates()) by {
            assert forall|i: int, j: int| 0 <= i < vals.len() && 0 <= j < vals.len() && i != j implies vals[i]
                != vals[j] by {
                if i < j {
                    assert(indices[i] != indices[j]);
                } else {
                    assert(indices[j] != indices[i]);
                }
            }
        }
        vals.lemma_multiset_has_no_duplicates();
        s.lemma_multiset_has_no_duplicates_conv();
        assert(s.len() == n) by {
            assert(s.to_multiset().len() == vals.to_multiset().len());
        }
        assert forall|a: int, b: int| 0 <= a < b < s.len() implies s[a] < s[b] by {
            assert(s[a] <= s[b]);
            assert(s[a] != s[b]);
        }
        assert(s[n - 1] < n) by {
            assert(s.contains(s[n - 1]));
            assert(vals.to_multiset().count(s[n - 1]) > 0);
            assert(vals.contains(s[n - 1]));
            let i = choose|i: int| 0 <= i < vals.len() && vals[i] == s[n - 1];
            assert(vals[i] == indices[i]->0);
        }
        if pos > 0 {
            assert(s[pos - 1] == pos - 1);
            assert(s[pos - 1] < s[pos]);
        }
        assert(s[pos] >= pos + 1);
        lemma_strict_spread(s, pos, n - 1);
    }
}

/// Checks the `index` fields of a batch response of `n_inputs` items and
/// returns, for each input in order, the position of its item. A response
/// that carries no indices is trusted in array order; one that carries any
/// must carry them all, as a permutation of `0..n`.
pub fn align_batch(n_inputs: usize, indices: &Vec<Option<usize>>) -> (r: Result<Vec<usize>, EmbeddingError>)
    ensures
        indices@.len() != n_inputs ==> r == Err::<Vec<usize>, EmbeddingError>(
            EmbeddingError::CountMismatch { expected: n_inputs, actual: indices@.len() as usize },
        ),
        indices@.len() == n_inputs && (forall|i: int| 0 <= i < indices@.len() ==> #[trigger] indices@[i] is None)
            ==> (r matches Ok(order) && order@ == Seq::new(n_inputs as nat, |i: int| i as usize)),
        indices@.len() == n_inputs && (exists|i: int| 0 <= i < indices@.len() && #[trigger] indices@[i] is Some)
            ==> (r is Ok <==> is_index_permutation(indices@)),
        indices@.len() == n_inputs && (exists|i: int| 0 <= i < indices@.len() && #[trigger] indices@[i] is Some)
            && r is Ok ==> aligned(indices@, r->Ok_0@.map_values(|x: usize| x as int)),
        r matches Err(e) ==> e is CountMismatch || e is ResponseShape,
        indices@.len() == n_inputs && (forall|i: int| 0 <= i < indices@.len() ==> #[trigger] indices@[i] is Some)
            && !is_index_permutation(indices@) ==> (r matches Err(EmbeddingError::ResponseShape(m))
            && exists|s: Seq<usize>, pos: int|
            first_gap(indices@, s, pos) && m@ == shape_message(n_inputs as nat, pos as nat, s[pos] as nat)),
        indices@.len() == n_inputs && (exists|i: int| 0 <= i < indices@.len() && #[trigger] indices@[i] is Some)
            && (exists|i: int| 0 <= i < indices@.len() && #[trigger] indices@[i] is None) ==> r
            == Err::<Vec<usize>, EmbeddingError>(EmbeddingError::ResponseShape(
            r->Err_0->ResponseShape_0,
        )) && r->Err_0->ResponseShape_0@ == "response mixes items with and without `index`"@,
{
    let n = indices.len();
    if n != n_inputs {
        return Err(EmbeddingError::CountMismatch { expected: n_inputs, actual: n });
    }
    let mut any = false;
    let mut all = true;
    let mut i: usize = 0;
    while i < n
        invariant
            i <= n,
            n == indices@.len(),
            any == exists|j: int| 0 <= j < i && #[trigger] indices@[j] is Some,
            all == forall|j: int| 0 <= j < i ==> #[trigger] indices@[j] is Some,
        decreases n - i,
    {
        if indices[i].is_some() {
            any = true;
        } else {
            all = false;
        }
        i += 1;
    }
    if !any {
        let mut order: Vec<usize> = Vec::new();
        let mut k: usize = 0;
        while k < n
            invariant
                k <= n,
                order@ == Seq::new(k as nat, |j: int| j as usize),
            decreases n - k,
        {
            order.push(k);
            k += 1;
            assert(order@ =~= Seq::new(k as nat, |j: int| j as usize));
        }
        return Ok(order);
    }
    if !all {
        return Err(EmbeddingError::ResponseShape(owned("response mixes items with and without `index`")));
    }
    // Every item carries an index. Sorted, they must run 0, 1, 2, …; the
    // first place where they do not is reported.
    let mut vals: Vec<usize> = Vec::new();
    let mut t: usize = 0;
    while t < n
        invariant
            t <= n,
            n == indices@.len(),
            forall|j: int| 0 <= j < n ==> #[trigger] indices@[j] is Some,
            vals@ == index_values(indices@).take(t as int),
        decreases n - t,
    {
        let x = match indices[t] {
            Some(x) => x,
            None => 0,
        };
        vals.push(x);
        t += 1;
        assert(vals@ =~= index_values(indices@).take(t as int));
    }
    assert(vals@ =~= index_values(indices@));
    let sorted = sort_indices(&vals);
    let mut pos: usize = 0;
    while pos < n && sorted[pos] == pos
        invariant
            pos <= n,
            sorted@.len() == n,
            forall|p: int| 0 <= p < pos ==> sorted@[p] == p,
        decreases n - pos,
    {
        pos += 1;
    }
    if pos < n {
        let mut m = owned("response indices are not a contiguous permutation of 0..=");
        push_str(&mut m, decimal_string((n - 1) as u64).as_str());
        push_str(&mut m, " (position ");
        push_str(&mut m, decimal_string(pos as u64).as_str());
        push_str(&mut m, " has index Some(");
        push_str(&mut m, decimal_string(sorted[pos] as u64).as_str());
        push_str(&mut m, "))");
        proof {
            assert(first_gap(indices@, sorted@, pos as int));
            lemma_gap_means_not_permutation(indices@, sorted@, pos as int);
        }
        return Err(EmbeddingError::ResponseShape(m));
    }
    proof {
        lemma_identity_is_permutation(indices@, sorted@);
    }
    // Every item carries an index: place each item at its index, refusing
    // out-of-range and repeated indices.
    let mut slot: Vec<Option<usize>> = Vec::new();
    let mut k: usize = 0;
    while k < n
        invariant
            k <= n,
            slot@.len() == k,
            forall|j: int| 0 <= j < k ==> #[trigger] slot@[j] is None,
        decreases n - k,
    {
        slot.push(None);
        k += 1;
    }
    let mut q: usize = 0;
    while q < n
        invariant
            q <= n,
            n == n_inputs,
            n == indices@.len(),
            slot@.len() == n,
            is_index_permutation(indices@),
            forall|p: int|
                0 <= p < n ==> match #[trigger] slot@[p] {
                    Some(item) => item < q && indices@[item as int] == Some(p as usize),
                    None => forall|j: int| 0 <= j < q ==> indices@[j] != Some(p as usize),
                },
        decreases n - q,
    {
        let idx = match indices[q] {
            Some(x) => x,
            None => 0,
        };
        proof {
            assert(indices@[q as int] is Some);
            assert(idx < n);
            if slot@[idx as int] is Some {
                let item = slot@[idx as int]->0;
                assert(indices@[item as int] == indices@[q as int]);
            }
        }
        slot.set(idx, Some(q));
        q += 1;
    }
    // Each slot holds the item whose index it is.
    let mut order: Vec<usize> = Vec::new();
    let mut p: usize = 0;
    while p < n
        invariant
            p <= n,
            n == n_inputs,
            n == indices@.len(),
            forall|j: int, l: int| 0 <= j < l < n ==> #[trigger] indices@[j] != #[trigger] indices@[l],
            slot@.len() == n,
            forall|j: int| 0 <= j < n ==> #[trigger] indices@[j] is Some,
            forall|j: int| 0 <= j < n ==> indices@[j]->0 < n,
            forall|pp: int|
                0 <= pp < n ==> match #[trigger] slot@[pp] {
                    Some(item) => item < n && indices@[item as int] == Some(pp as usize),
                    None => forall|j: int| 0 <= j < n ==> indices@[j] != Some(pp as usize),
                },
            order@.len() == p,
            forall|pp: int|
                0 <= pp < p ==> (#[trigger] order@[pp]) < n && indices@[order@[pp] as int] == Some(
                    pp as usize,
                ),
        decreases n - p,
    {
        match slot[p] {
            Some(item) => {
                order.push(item);
            },
            None => {
                proof {
                    // Every item's index fills a slot, so a free slot would
                    // leave n items in n - 1 slots.
                    lemma_pigeonhole(indices@, p as int);
                }
                assert(false);
                return Err(
                    EmbeddingError::ResponseShape(
                        owned("response indices are not a contiguous permutation of the inputs"),
                    ),
                );
            },
        }
        p += 1;
    }
    proof {
        assert(aligned(indices@, order@.map_values(|x: usize| x as int))) by {
            let ov = order@.map_values(|x: usize| x as int);
            assert forall|pp: int| 0 <= pp < ov.len() implies 0 <= #[trigger] ov[pp] < indices@.len()
                && indices@[ov[pp]] == Some(pp as usize) by {
                assert(ov[pp] == order@[pp] as int);
            }
        }
    }
    Ok(order)
}

/// `n` distinct indices below `n` take every value below `n`.
proof fn lemma_pigeonhole(indices: Seq<Option<usize>>, p: int)
    requires
        0 <= p < indices.len(),
        forall|j: int| 0 <= j < indices.len() ==> #[trigger] indices[j] is Some,
        forall|j: int| 0 <= j < indices.len() ==> indices[j]->0 < indices.len(),
        forall|j: int, l: int| 0 <= j < l < indices.len() ==> #[trigger] indices[j] != #[trigger] indices[l],
    ensures
        exists|j: int| 0 <= j < indices.len() && indices[j] == Some(p as usize),
{
    let n = indices.len() as int;
    let vals = Set::new(|v: int| exists|j: int| 0 <= j < n && indices[j]->0 == v);
    lemma_distinct_values_len(indices, n);
    if !(exists|j: int| 0 <= j < indices.len() && indices[j] == Some(p as usize)) {
        let range = Set::new(|v: int| 0 <= v < n && v != p);
        assert(vals.subset_of(range)) by {
            assert forall|v: int| vals.contains(v) implies range.contains(v) by {
                let j = choose|j: int| 0 <= j < n && indices[j]->0 == v;
                assert(indices[j] is Some);
                if v == p {
                    assert(indices[j] == Some(p as usize));
                }
            }
        }
        vstd::set_lib::lemma_int_range(0, n);
        assert(range =~= vstd::set_lib::set_int_range(0, n).remove(p));
        vstd::set_lib::lemma_len_subset(vals, range);
    }
}

proof fn lemma_distinct_values_len(indices: Seq<Option<usize>>, m: int)
    requires
        0 <= m <= indices.len(),
        forall|j: int| 0 <= j < indices.len() ==> #[trigger] indices[j] is Some,
        forall|j: int, l: int| 0 <= j < l < indices.len() ==> #[trigger] indices[j] != #[trigger] indices[l],
    ensures
        Set::new(|v: int| exists|j: int| 0 <= j < m && indices[j]->0 == v).finite(),
        Set::new(|v: int| exists|j: int| 0 <= j < m && indices[j]->0 == v).len() == m,
    decreases m,
{
    let s = Set::new(|v: int| exists|j: int| 0 <= j < m && indices[j]->0 == v);
    if m == 0 {
        assert(s =~= Set::empty());
    } else {
        lemma_distinct_values_len(indices, m - 1);
        let prev = Set::new(|v: int| exists|j: int| 0 <= j < m - 1 && indices[j]->0 == v);
        let x = indices[m - 1]->0 as int;
        assert(s =~= prev.insert(x)) by {
            assert forall|v: int| s.contains(v) implies prev.insert(x).contains(v) by {
                let j = choose|j: int| 0 <= j < m && indices[j]->0 == v;
                if j < m - 1 {
                    assert(prev.contains(v));
                }
            }
            assert forall|v: int| prev.insert(x).contains(v) implies s.contains(v) by {
                if v != x {
                    let j = choose|j: int| 0 <= j < m - 1 && indices[j]->0 == v;
                    assert(0 <= j < m && indices[j]->0 == v);
                } else {
                    assert(0 <= m - 1 < m && indices[m - 1]->0 == v);
                }
            }
        }
        if prev.contains(x) {
            let j = choose|j: int| 0 <= j < m - 1 && indices[j]->0 == x;
            assert(indices[j] is Some && indices[m - 1] is Some);
            assert(indices[j] == indices[m - 1]);
        }
    }
}

/// Checks every vector of a batch against the configured dimension, in
/// output order; `lens` are the vector lengths by output place.
pub fn check_dimensions(lens: &Vec<usize>, dimension: u32) -> (r: Result<(), EmbeddingError>)
    ensures
        r is Ok <==> forall|i: int| 0 <= i < lens@.len() ==> #[trigger] lens@[i] == dimension,
        r matches Err(e) ==> exists|i: int|
            0 <= i < lens@.len() && #[trigger] lens@[i] != dimension && (forall|j: int|
                0 <= j < i ==> lens@[j] == dimension) && e == (EmbeddingError::DimensionMismatch {
                expected: dimension,
                actual: lens@[i] as u32,
            }),
{
    let mut i: usize = 0;
    while i < lens.len()
        invariant
            i <= lens@.len(),
            forall|j: int| 0 <= j < i ==> lens@[j] == dimension,
        decreases lens@.len() - i,
    {
        if lens[i] != dimension as usize {
            #[verifier::truncate]
            let actual = lens[i] as u32;
            return Err(EmbeddingError::DimensionMismatch { expected: dimension, actual });
        }
        i += 1;
    }
    Ok(())
}

// ---------------------------------------------------------------------------
// Adaptive batch size
// ---------------------------------------------------------------------------

/// Where a multi-input embedding call stands: the next input to send and
/// the current batch size.
#[derive(Debug, Clone, Copy, PartialEq, Eq, Structural)]
pub struct BatchCursor {
    pub next: usize,
    pub size: usize,
}

/// What to do after one batch request.
#[derive(Debug, Clone, Copy, PartialEq, Eq, Structural)]
pub enum BatchStep {
    /// Send `next..end` next.
    Send { next: usize, end: usize, size: usize },
    /// Every input was embedded.
    Done,
    /// Give up with the failure just seen.
    Fail,
}

pub open spec fn span_end(next: int, size: int, len: int) -> int {
    if next + size < len {
        next + size
    } else {
        len
    }
}

/// The first batch, from the learned ceiling (at least one input).
pub fn first_batch(ceiling: usize, len: usize) -> (s: BatchStep)
    ensures
        len == 0 ==> s == BatchStep::Done,
        len > 0 ==> s == (BatchStep::Send {
            next: 0,
            end: span_end(0, if ceiling < 1 { 1 } else { ceiling as int }, len as int) as usize,
            size: if ceiling < 1 { 1 } else { ceiling },
        }),
{
    let size = if ceiling < 1 {
        1
    } else {
        ceiling
    };
    if len == 0 {
        return BatchStep::Done;
    }
    let end = if size < len {
        size
    } else {
        len
    };
    BatchStep::Send { next: 0, end, size }
}

/// After a successful batch `next..end`: go on from `end` at the same size.
pub fn after_success(end: usize, size: usize, len: usize) -> (s: BatchStep)
    requires
        end <= len,
        size >= 1,
    ensures
        end == len ==> s == BatchStep::Done,
        end < len ==> s == (BatchStep::Send {
            next: end,
            end: span_end(end as int, size as int, len as int) as usize,
            size,
        }),
{
    if end == len {
        return BatchStep::Done;
    }
    let stop = if size < len - end {
        end + size
    } else {
        len
    };
    BatchStep::Send { next: end, end: stop, size }
}

/// The shared batch ceiling after a successful batch of `span` inputs sent
/// at `size`: a multi-input success lowers it to `size` when that is
/// smaller; a single-input success is no evidence and leaves it alone. The
/// ceiling never rises.
pub fn next_ceiling(ceiling: usize, size: usize, span: usize) -> (c: usize)
    ensures
        c == (if span > 1 && size < ceiling {
            size
        } else {
            ceiling
        }),
        c <= ceiling,
{
    if span > 1 && size < ceiling {
        size
    } else {
        ceiling
    }
}

/// After a failed batch `next..end`: a rejected multi-input batch is
/// retried from the same input at half the size (at least one); anything
/// else gives up.
pub fn after_failure(next: usize, end: usize, size: usize, len: usize, shrink: bool) -> (s: BatchStep)
    requires
        next < end <= len,
    ensures
        (end - next > 1 && shrink) ==> s == (BatchStep::Send {
            next,
            end: span_end(next as int, if size / 2 < 1 { 1 } else { (size / 2) as int }, len as int) as usize,
            size: if size / 2 < 1 { 1 } else { size / 2 },
        }),
        !(end - next > 1 && shrink) ==> s == BatchStep::Fail,
{
    if end - next > 1 && shrink {
        let half = size / 2;
        let new = if half < 1 {
            1
        } else {
            half
        };
        let stop = if new < len - next {
            next + new
        } else {
            len
        };
        BatchStep::Send { next, end: stop, size: new }
    } else {
        BatchStep::Fail
    }
}

/// A shrinking retry never grows the batch and always makes room for at
/// least one input.
pub proof fn law_shrink_halves(size: int)
    requires
        size >= 1,
    ensures
        1 <= (if size / 2 < 1 {
            1
        } else {
            size / 2
        }) <= size,
        size > 1 ==> (if size / 2 < 1 {
            1
        } else {
            size / 2
        }) < size,
{
}

/// An embedder that answers every text with a zero vector of its dimension.
#[derive(Debug, Clone, PartialEq, Eq)]
pub struct StubEmbedder {
    pub dimension: usize,
}

impl StubEmbedder {
    pub fn new(dimension: usize) -> (s: StubEmbedder)
        ensures
            s.dimension == dimension,
    {
        StubEmbedder { dimension }
    }
}

} // verus!
