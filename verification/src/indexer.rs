//! Indexing decisions: the outcome vocabulary of a scan, the stat gate
//! that spares unchanged files a read, the content hash of a file, and
//! the relative-path form stored in the index.

use vstd::prelude::*;
use crate::chunk::{hex_chars, hex_encode, sha256, sha256_digest};
use crate::text::{chars_of, concat, owned, str_eq, string_push};
use crate::walk::WalkedFile;
use crate::embedding::EmbeddingError;

verus! {

/// Counters of one full scan of a vault.
#[derive(Debug, Clone, Default, PartialEq, Eq)]
pub struct ScanReport {
    pub inserted: usize,
    pub updated: usize,
    pub hash_unchanged: usize,
    pub deleted: usize,
    pub skipped_outside_vault: usize,
    pub walk_errors: usize,
    /// Wall-clock duration of the scan, in milliseconds.
    pub duration_ms: u64,
}

/// What re-indexing one path did.
#[derive(Debug, Clone, PartialEq, Eq)]
pub enum ReindexOutcome {
    Inserted { content_hash: String },
    Updated { content_hash: String },
    HashUnchanged,
    MissingFromDisk,
}

/// What removing one path did.
#[derive(Debug, Clone, PartialEq, Eq)]
pub enum RemoveOutcome {
    Removed { previous_hash: String },
    NotPresent,
}

/// What processing one walked file did, before it is reported.
#[derive(Debug, Clone, PartialEq, Eq)]
pub enum ProcessEffect {
    Inserted { content_hash: String },
    Updated { content_hash: String },
    /// The file was read and its hash had not changed.
    HashMatched,
    /// Size and mtime had not changed: the file was not read.
    StatGateHit,
    /// The embedding service failed; the file keeps its previous row.
    EmbeddingSkipped,
}

impl ProcessEffect {
    /// The outcome a caller sees: the three ways of changing nothing look
    /// alike.
    pub fn into_outcome(self) -> (o: ReindexOutcome)
        ensures
            match self {
                ProcessEffect::Inserted { content_hash } => o == (ReindexOutcome::Inserted { content_hash }),
                ProcessEffect::Updated { content_hash } => o == (ReindexOutcome::Updated { content_hash }),
                _ => o == ReindexOutcome::HashUnchanged,
            },
    {
        match self {
            ProcessEffect::Inserted { content_hash } => ReindexOutcome::Inserted { content_hash },
            ProcessEffect::Updated { content_hash } => ReindexOutcome::Updated { content_hash },
            _ => ReindexOutcome::HashUnchanged,
        }
    }
}

impl ScanReport {
    /// Counts one processed file into a full scan's report: inserts,
    /// updates and hash-confirmed files; unread and skipped files are not
    /// counted.
    pub fn tally(&mut self, effect: &ProcessEffect)
        requires
            old(self).inserted < usize::MAX,
            old(self).updated < usize::MAX,
            old(self).hash_unchanged < usize::MAX,
        ensures
            final(self).inserted == old(self).inserted + if effect is Inserted { 1int } else { 0int },
            final(self).updated == old(self).updated + if effect is Updated { 1int } else { 0int },
            final(self).hash_unchanged == old(self).hash_unchanged + if effect is HashMatched {
                1int
            } else {
                0int
            },
            final(self).deleted == old(self).deleted,
            final(self).skipped_outside_vault == old(self).skipped_outside_vault,
            final(self).walk_errors == old(self).walk_errors,
            final(self).duration_ms == old(self).duration_ms,
    {
        match effect {
            ProcessEffect::Inserted { .. } => {
                self.inserted = self.inserted + 1;
            },
            ProcessEffect::Updated { .. } => {
                self.updated = self.updated + 1;
            },
            ProcessEffect::HashMatched => {
                self.hash_unchanged = self.hash_unchanged + 1;
            },
            _ => {},
        }
    }
}

/// How many of `effects` satisfy `f`.
pub open spec fn count_effects(effects: Seq<ProcessEffect>, f: spec_fn(ProcessEffect) -> bool) -> nat
    decreases effects.len(),
{
    if effects.len() == 0 {
        0
    } else {
        count_effects(effects.drop_last(), f) + if f(effects.last()) {
            1nat
        } else {
            0nat
        }
    }
}

proof fn lemma_count_effects_le_len(effects: Seq<ProcessEffect>, f: spec_fn(ProcessEffect) -> bool)
    ensures
        count_effects(effects, f) <= effects.len(),
    decreases effects.len(),
{
    if effects.len() > 0 {
        lemma_count_effects_le_len(effects.drop_last(), f);
    }
}

/// The report of a full scan: the walk's skip and error counts, the files
/// inserted, updated and confirmed unchanged among the effects of
/// processing the walked files, the number of stored paths the plan
/// deletes, and the duration.
pub fn scan_report(walked: &crate::walk::WalkOutcome, effects: &Vec<ProcessEffect>, plan: &ScanPlan, duration_ms: u64) -> (r:
    ScanReport)
    ensures
        r.skipped_outside_vault == walked.skipped_outside_vault,
        r.walk_errors == walked.walk_errors,
        r.inserted == count_effects(effects@, |e: ProcessEffect| e is Inserted),
        r.updated == count_effects(effects@, |e: ProcessEffect| e is Updated),
        r.hash_unchanged == count_effects(effects@, |e: ProcessEffect| e is HashMatched),
        r.deleted == plan.to_delete@.len(),
        r.duration_ms == duration_ms,
{
    let deleted = plan.to_delete.len();
    let mut report = ScanReport {
        inserted: 0,
        updated: 0,
        hash_unchanged: 0,
        deleted,
        skipped_outside_vault: walked.skipped_outside_vault,
        walk_errors: walked.walk_errors,
        duration_ms,
    };
    let mut i: usize = 0;
    while i < effects.len()
        invariant
            i <= effects@.len(),
            report.skipped_outside_vault == walked.skipped_outside_vault,
            report.walk_errors == walked.walk_errors,
            report.deleted == deleted,
            report.duration_ms == duration_ms,
            report.inserted == count_effects(effects@.take(i as int), |e: ProcessEffect| e is Inserted),
            report.updated == count_effects(effects@.take(i as int), |e: ProcessEffect| e is Updated),
            report.hash_unchanged == count_effects(effects@.take(i as int), |e: ProcessEffect| e is HashMatched),
        decreases effects@.len() - i,
    {
        proof {
            let next = effects@.take(i + 1);
            assert(next.drop_last() =~= effects@.take(i as int));
            assert(next.last() == effects@[i as int]);
            lemma_count_effects_le_len(effects@.take(i as int), |e: ProcessEffect| e is Inserted);
            lemma_count_effects_le_len(effects@.take(i as int), |e: ProcessEffect| e is Updated);
            lemma_count_effects_le_len(effects@.take(i as int), |e: ProcessEffect| e is HashMatched);
        }
        report.tally(&effects[i]);
        i += 1;
    }
    proof {
        assert(effects@.take(i as int) =~= effects@);
    }
    report
}

/// Whether an embedding failure makes the scan skip the file, keeping its
/// previous row: the service was unreachable, failed with a 5xx status, or
/// answered with vectors of the wrong dimension. Any other failure aborts
/// the file's processing with an error.
pub fn embedding_failure_skips_file(e: &EmbeddingError) -> (r: bool)
    ensures
        r == match *e {
            EmbeddingError::Transport(_) => true,
            EmbeddingError::Status { code, .. } => 500 <= code <= 599,
            EmbeddingError::DimensionMismatch { .. } => true,
            _ => false,
        },
{
    match e {
        EmbeddingError::Transport(_) => true,
        EmbeddingError::Status { code, .. } => 500 <= *code && *code <= 599,
        EmbeddingError::DimensionMismatch { .. } => true,
        _ => false,
    }
}

/// The effect of writing a re-indexed file: an insert when the index held
/// no row for it, else an update, with the new content hash.
pub fn written_effect(was_insert: bool, content_hash: String) -> (e: ProcessEffect)
    ensures
        e == (if was_insert {
            ProcessEffect::Inserted { content_hash }
        } else {
            ProcessEffect::Updated { content_hash }
        }),
{
    if was_insert {
        ProcessEffect::Inserted { content_hash }
    } else {
        ProcessEffect::Updated { content_hash }
    }
}

/// What the index holds of a file.
#[derive(Debug, Clone, PartialEq, Eq)]
pub struct StoredFile {
    pub size: i64,
    pub mtime: String,
    pub content_hash: String,
}

/// The stat gate: a file whose size and mtime match its row is not read
/// again, unless its row is marked for re-embedding by an empty hash.
pub fn stat_gate_hit(prior: Option<&StoredFile>, size: i64, mtime: &str) -> (r: bool)
    ensures
        r == match prior {
            Some(p) => p.size == size && p.mtime@ == mtime@ && p.content_hash@.len() > 0,
            None => false,
        },
{
    match prior {
        Some(p) => p.size == size && str_eq(p.mtime.as_str(), mtime) && !p.content_hash.as_str().is_empty(),
        None => false,
    }
}

/// After reading a file: its content is unchanged when the row holds the
/// same hash.
pub fn content_unchanged(prior: Option<&StoredFile>, new_hash: &str) -> (r: bool)
    ensures
        r == match prior {
            Some(p) => p.content_hash@ == new_hash@,
            None => false,
        },
{
    match prior {
        Some(p) => str_eq(p.content_hash.as_str(), new_hash),
        None => false,
    }
}

/// The content hash of a file's bytes: `sha256:` and the lowercase hex
/// SHA-256 digest.
pub open spec fn file_hash_spec(bytes: Seq<u8>) -> Seq<char> {
    "sha256:"@ + hex_chars(sha256_digest(bytes))
}

pub fn file_hash_of_bytes(bytes: &[u8]) -> (h: String)
    ensures
        h@ == file_hash_spec(bytes@),
{
    let d = sha256(bytes);
    let hex = hex_encode(d.as_slice());
    concat("sha256:", hex.as_str())
}

/// `s` with every `sep` replaced by `/`.
pub open spec fn forward_slashes(s: Seq<char>, sep: char) -> Seq<char> {
    Seq::new(s.len(), |i: int| if s[i] == sep { '/' } else { s[i] })
}

/// A relative path in the index's form: `/`-separated, whatever the
/// platform separator `sep`.
pub fn to_forward_slash(s: &str, sep: char) -> (r: String)
    ensures
        r@ == forward_slashes(s@, sep),
{
    if sep == '/' {
        let r = owned(s);
        assert(r@ =~= forward_slashes(s@, sep));
        return r;
    }
    let v = chars_of(s);
    let mut r = String::new();
    let mut i: usize = 0;
    while i < v.len()
        invariant
            i <= v@.len(),
            v@ == s@,
            r@ == forward_slashes(s@, sep).take(i as int),
        decreases v@.len() - i,
    {
        if v[i] == sep {
            string_push(&mut r, '/');
        } else {
            string_push(&mut r, v[i]);
        }
        i += 1;
        assert(r@ =~= forward_slashes(s@, sep).take(i as int));
    }
    assert(forward_slashes(s@, sep).take(i as int) =~= forward_slashes(s@, sep));
    r
}


// ---------------------------------------------------------------------------
// Planning a full scan
// ---------------------------------------------------------------------------

/// The stored row of path `p`, if the index holds one.
pub open spec fn stored_row(existing: Seq<(String, StoredFile)>, p: Seq<char>) -> Option<StoredFile>
    decreases existing.len(),
{
    if existing.len() == 0 {
        None
    } else if existing.last().0@ == p {
        Some(existing.last().1)
    } else {
        stored_row(existing.drop_last(), p)
    }
}

/// No path is stored twice.
pub open spec fn distinct_paths(existing: Seq<(String, StoredFile)>) -> bool {
    forall|i: int, j: int|
        0 <= i < j < existing.len() ==> #[trigger] existing[i].0@ != #[trigger] existing[j].0@
}

/// Whether a walked file has relative path `p`.
pub open spec fn walked_has(walked: Seq<WalkedFile>, p: Seq<char>) -> bool {
    exists|k: int| 0 <= k < walked.len() && #[trigger] walked[k].rel_path@ == p
}

/// The stored row a walked file is compared with: its path's row, unless an
/// earlier walked file already took it.
pub open spec fn prior_of(walked: Seq<WalkedFile>, existing: Seq<(String, StoredFile)>, i: int) -> Option<StoredFile> {
    if exists|k: int| 0 <= k < i && #[trigger] walked[k].rel_path@ == walked[i].rel_path@ {
        None
    } else {
        stored_row(existing, walked[i].rel_path@)
    }
}

/// What a full scan does with the walk against the index: the stored row
/// each walked file is compared with, and the stored paths no longer on
/// disk, which are deleted.
#[derive(Debug, Clone, PartialEq, Eq)]
pub struct ScanPlan {
    pub priors: Vec<Option<StoredFile>>,
    pub to_delete: Vec<String>,
}

proof fn lemma_stored_row_found(existing: Seq<(String, StoredFile)>, j: int)
    requires
        distinct_paths(existing),
        0 <= j < existing.len(),
    ensures
        stored_row(existing, existing[j].0@) == Some(existing[j].1),
    decreases existing.len(),
{
    if j < existing.len() - 1 {
        assert(existing.last() == existing[existing.len() - 1]);
        assert(existing.drop_last()[j] == existing[j]);
        assert(distinct_paths(existing.drop_last())) by {
            assert forall|a: int, b: int| 0 <= a < b < existing.drop_last().len() implies
                #[trigger] existing.drop_last()[a].0@ != #[trigger] existing.drop_last()[b].0@ by {
                assert(existing.drop_last()[a] == existing[a]);
                assert(existing.drop_last()[b] == existing[b]);
            }
        }
        lemma_stored_row_found(existing.drop_last(), j);
    }
}

proof fn lemma_stored_row_absent(existing: Seq<(String, StoredFile)>, p: Seq<char>)
    requires
        forall|j: int| 0 <= j < existing.len() ==> #[trigger] existing[j].0@ != p,
    ensures
        stored_row(existing, p) is None,
    decreases existing.len(),
{
    if existing.len() > 0 {
        assert(existing.last() == existing[existing.len() - 1]);
        assert forall|j: int| 0 <= j < existing.drop_last().len() implies #[trigger] existing.drop_last()[j].0@
            != p by {
            assert(existing.drop_last()[j] == existing[j]);
        }
        lemma_stored_row_absent(existing.drop_last(), p);
    }
}

fn copy_stored(f: &StoredFile) -> (c: StoredFile)
    ensures
        c == *f,
{
    StoredFile { size: f.size, mtime: f.mtime.clone(), content_hash: f.content_hash.clone() }
}

/// Plans a full scan: each walked file, in walk order, meets the stored
/// row of its path (a path walked twice meets it once); the stored paths
/// that were not walked are deleted.
pub fn plan_scan(walked: &Vec<WalkedFile>, existing: &Vec<(String, StoredFile)>) -> (p: ScanPlan)
    requires
        distinct_paths(existing@),
    ensures
        p.priors@.len() == walked@.len(),
        forall|i: int| 0 <= i < walked@.len() ==> #[trigger] p.priors@[i] == prior_of(walked@, existing@, i),
        forall|x: int, y: int| 0 <= x < y < p.to_delete@.len() ==> #[trigger] p.to_delete@[x]@ != #[trigger] p.to_delete@[y]@,
        forall|k: int| 0 <= k < p.to_delete@.len() ==> !walked_has(walked@, #[trigger] p.to_delete@[k]@) && exists|j: int|
            0 <= j < existing@.len() && existing@[j].0@ == p.to_delete@[k]@,
        forall|j: int| 0 <= j < existing@.len() && !walked_has(walked@, #[trigger] existing@[j].0@) ==> exists|k: int|
            0 <= k < p.to_delete@.len() && p.to_delete@[k]@ == existing@[j].0@,
{
    let mut priors: Vec<Option<StoredFile>> = Vec::new();
    let mut i: usize = 0;
    while i < walked.len()
        invariant
            i <= walked@.len(),
            distinct_paths(existing@),
            priors@.len() == i,
            forall|q: int| 0 <= q < i ==> #[trigger] priors@[q] == prior_of(walked@, existing@, q),
        decreases walked@.len() - i,
    {
        let rel = walked[i].rel_path.as_str();
        let mut seen = false;
        let mut k: usize = 0;
        while k < i
            invariant
                k <= i < walked@.len(),
                rel@ == walked@[i as int].rel_path@,
                seen <==> exists|q: int| 0 <= q < k && #[trigger] walked@[q].rel_path@ == walked@[i as int].rel_path@,
            decreases i - k,
        {
            if !seen && str_eq(walked[k].rel_path.as_str(), rel) {
                seen = true;
            }
            k += 1;
        }
        let mut found: Option<StoredFile> = None;
        if !seen {
            let mut j: usize = 0;
            while j < existing.len()
                invariant
                    j <= existing@.len(),
                    distinct_paths(existing@),
                    rel@ == walked@[i as int].rel_path@,
                    found is None ==> forall|q: int| 0 <= q < j ==> #[trigger] existing@[q].0@ != rel@,
                    found matches Some(f) ==> stored_row(existing@, rel@) == Some(f),
                decreases existing@.len() - j,
            {
                if found.is_none() && str_eq(existing[j].0.as_str(), rel) {
                    proof {
                        lemma_stored_row_found(existing@, j as int);
                    }
                    found = Some(copy_stored(&existing[j].1));
                }
                j += 1;
            }
            proof {
                if found is None {
                    lemma_stored_row_absent(existing@, rel@);
                }
            }
        }
        priors.push(found);
        i += 1;
    }
    let mut to_delete: Vec<String> = Vec::new();
    let mut j: usize = 0;
    while j < existing.len()
        invariant
            j <= existing@.len(),
            distinct_paths(existing@),
            forall|x: int, y: int| 0 <= x < y < to_delete@.len() ==> #[trigger] to_delete@[x]@ != #[trigger] to_delete@[y]@,
            forall|k: int| 0 <= k < to_delete@.len() ==> !walked_has(walked@, #[trigger] to_delete@[k]@) && exists|q: int|
                0 <= q < j && existing@[q].0@ == to_delete@[k]@,
            forall|q: int| 0 <= q < j && !walked_has(walked@, #[trigger] existing@[q].0@) ==> exists|k: int|
                0 <= k < to_delete@.len() && to_delete@[k]@ == existing@[q].0@,
        decreases existing@.len() - j,
    {
        let path = existing[j].0.as_str();
        let mut on_disk = false;
        let mut k: usize = 0;
        while k < walked.len()
            invariant
                k <= walked@.len(),
                path@ == existing@[j as int].0@,
                on_disk <==> exists|q: int| 0 <= q < k && #[trigger] walked@[q].rel_path@ == path@,
            decreases walked@.len() - k,
        {
            if !on_disk && str_eq(walked[k].rel_path.as_str(), path) {
                on_disk = true;
            }
            k += 1;
        }
        if !on_disk {
            let ghost before = to_delete@;
            proof {
                assert forall|x: int| 0 <= x < before.len() implies before[x]@ != path@ by {
                    let q = choose|q: int| 0 <= q < j && existing@[q].0@ == before[x]@;
                    assert(existing@[q].0@ != existing@[j as int].0@);
                }
            }
            to_delete.push(existing[j].0.clone());
            proof {
                assert(to_delete@[before.len() as int]@ == existing@[j as int].0@);
                assert forall|k2: int| 0 <= k2 < to_delete@.len() implies !walked_has(walked@, #[trigger] to_delete@[k2]@)
                    && exists|q: int| 0 <= q < j + 1 && existing@[q].0@ == to_delete@[k2]@ by {
                    if k2 < before.len() {
                        assert(to_delete@[k2] == before[k2]);
                    } else {
                        assert(existing@[j as int].0@ == to_delete@[k2]@);
                    }
                }
                assert forall|q: int| 0 <= q < j + 1 && !walked_has(walked@, #[trigger] existing@[q].0@) implies exists|k2: int|
                    0 <= k2 < to_delete@.len() && to_delete@[k2]@ == existing@[q].0@ by {
                    if q < j {
                        let k2 = choose|k2: int| 0 <= k2 < before.len() && before[k2]@ == existing@[q].0@;
                        assert(to_delete@[k2] == before[k2]);
                    } else {
                        assert(to_delete@[before.len() as int]@ == existing@[q].0@);
                    }
                }
            }
        }
        j += 1;
    }
    ScanPlan { priors, to_delete }
}

} // verus!
