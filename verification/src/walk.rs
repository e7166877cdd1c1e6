//! The decisions of a vault walk: which files it reports, under which
//! relative path, and what it counts as skipped or failed. Reading the
//! directory tree and the files' metadata is done at the edge.

use vstd::prelude::*;
use crate::paths::{components, is_markdown, is_markdown_path, path_components, path_starts_with, starts_with_path};
use crate::text::string_from_chars;

verus! {

/// A Markdown file found in a vault.
#[derive(Debug, Clone, PartialEq, Eq)]
pub struct WalkedFile {
    /// Path relative to the vault, `/`-separated.
    pub rel_path: String,
    pub abs_path: String,
    pub size: i64,
    /// Modification time, RFC 3339.
    pub mtime: String,
}

/// What a walk of a vault found.
#[derive(Debug, Clone, PartialEq, Eq)]
pub struct WalkOutcome {
    pub entries: Vec<WalkedFile>,
    pub skipped_outside_vault: usize,
    pub walk_errors: usize,
}

/// Pieces joined with `/`.
pub open spec fn join_slash(ps: Seq<Seq<char>>) -> Seq<char>
    decreases ps.len(),
{
    if ps.len() == 0 {
        seq![]
    } else if ps.len() == 1 {
        ps[0]
    } else {
        join_slash(ps.drop_last()) + seq!['/'] + ps.last()
    }
}

/// The path of `p` below `base`: its components after those of `base`,
/// joined with `/`.
pub open spec fn relative_to(p: Seq<char>, base: Seq<char>) -> Seq<char> {
    join_slash(components(p).skip(components(base).len() as int))
}

/// The walk's verdict on one regular file.
#[derive(Debug, Clone, PartialEq, Eq)]
pub enum WalkVerdict {
    /// Not reported, and not counted.
    Skip,
    /// Counted as a walk error.
    Error,
    /// Counted as lying outside the vault.
    Outside,
    /// A Markdown file of the vault, under this relative path.
    Candidate(String),
}

fn join_from(ps: &Vec<Vec<char>>, from: usize) -> (s: String)
    requires
        from <= ps@.len(),
    ensures
        s@ == join_slash(ps@.map_values(|p: Vec<char>| p@).skip(from as int)),
{
    let ghost pv = ps@.map_values(|p: Vec<char>| p@);
    let mut out: Vec<char> = Vec::new();
    let mut i = from;
    proof {
        assert(pv.skip(from as int).take(0) =~= Seq::<Seq<char>>::empty());
    }
    while i < ps.len()
        invariant
            from <= i <= ps@.len(),
            pv == ps@.map_values(|p: Vec<char>| p@),
            out@ == join_slash(pv.skip(from as int).take(i - from)),
        decreases ps@.len() - i,
    {
        let ghost before = out@;
        let ghost t = pv.skip(from as int);
        proof {
            assert(t.take(i - from + 1).drop_last() =~= t.take(i - from));
            assert(t.take(i - from + 1).last() == ps@[i as int]@);
        }
        if i > from {
            out.push('/');
        }
        let piece = &ps[i];
        let mut k: usize = 0;
        let ghost mid = out@;
        while k < piece.len()
            invariant
                k <= piece@.len(),
                out@ == mid + piece@.take(k as int),
            decreases piece@.len() - k,
        {
            out.push(piece[k]);
            k += 1;
            assert(out@ =~= mid + piece@.take(k as int));
        }
        proof {
            assert(piece@.take(k as int) =~= piece@);
            if i == from {
                assert(before =~= Seq::<char>::empty());
                assert(out@ =~= piece@);
            } else {
                assert(out@ =~= before + seq!['/'] + piece@);
            }
        }
        i += 1;
    }
    proof {
        assert(pv.skip(from as int).take(i - from) =~= pv.skip(from as int));
    }
    string_from_chars(&out)
}

/// The verdict on one regular file of the walk.
pub fn classify_walked_file(path: &str, canonical: Option<&str>, canonical_vault: &str) -> (v: WalkVerdict)
    ensures
        !is_markdown(path@) ==> v is Skip,
        is_markdown(path@) && canonical is None ==> v is Error,
        is_markdown(path@) && canonical is Some ==> {
            let c = canonical.unwrap()@;
            if !starts_with_path(c, canonical_vault@) {
                v is Outside
            } else if starts_with_path(path@, canonical_vault@) {
                v matches WalkVerdict::Candidate(r) && r@ == relative_to(path@, canonical_vault@)
            } else {
                v is Skip
            }
        },
{
    if !is_markdown_path(path) {
        return WalkVerdict::Skip;
    }
    let c = match canonical {
        None => {
            return WalkVerdict::Error;
        },
        Some(c) => c,
    };
    if !path_starts_with(c, canonical_vault) {
        return WalkVerdict::Outside;
    }
    if !path_starts_with(path, canonical_vault) {
        return WalkVerdict::Skip;
    }
    let pc = path_components(path);
    let vc = path_components(canonical_vault);
    proof {
        assert(pc@.map_values(|p: Vec<char>| p@).len() == pc@.len());
        assert(vc@.map_values(|p: Vec<char>| p@).len() == vc@.len());
    }
    let rel = join_from(&pc, vc.len());
    WalkVerdict::Candidate(rel)
}

/// The outcome as `o` after recording one file with verdict `v`.
pub open spec fn recorded(
    o: WalkOutcome,
    n: WalkOutcome,
    v: WalkVerdict,
    abs_path: String,
    included: bool,
    meta: Option<(i64, Option<String>)>,
) -> bool {
    match v {
        WalkVerdict::Skip => n == o,
        WalkVerdict::Error => n == WalkOutcome { walk_errors: (o.walk_errors + 1) as usize, ..o },
        WalkVerdict::Outside => n == WalkOutcome {
            skipped_outside_vault: (o.skipped_outside_vault + 1) as usize,
            ..o
        },
        WalkVerdict::Candidate(rel) => if !included {
            n == o
        } else {
            match meta {
                Some((size, Some(mtime))) => n.walk_errors == o.walk_errors && n.skipped_outside_vault
                    == o.skipped_outside_vault && n.entries@ == o.entries@.push(
                    WalkedFile { rel_path: rel, abs_path, size, mtime },
                ),
                _ => n == WalkOutcome { walk_errors: (o.walk_errors + 1) as usize, ..o },
            }
        },
    }
}

impl WalkOutcome {
    /// Nothing found yet.
    pub fn new() -> (o: WalkOutcome)
        ensures
            o.entries@.len() == 0,
            o.skipped_outside_vault == 0,
            o.walk_errors == 0,
    {
        WalkOutcome { entries: Vec::new(), skipped_outside_vault: 0, walk_errors: 0 }
    }

    /// An entry the walk itself could not read.
    pub fn note_walk_error(&mut self)
        requires
            old(self).walk_errors < usize::MAX,
        ensures
            *final(self) == (WalkOutcome { walk_errors: (old(self).walk_errors + 1) as usize, ..*old(self) }),
    {
        self.walk_errors = self.walk_errors + 1;
    }

    /// Records a regular file with its verdict. A candidate is reported
    /// when the ignore rules include it (`included`) and its metadata, given
    /// as size and modification time, could be read; a missing size or time
    /// counts as a walk error.
    pub fn record(&mut self, v: WalkVerdict, abs_path: String, included: bool, meta: Option<(i64, Option<String>)>)
        requires
            old(self).walk_errors < usize::MAX,
            old(self).skipped_outside_vault < usize::MAX,
        ensures
            recorded(*old(self), *final(self), v, abs_path, included, meta),
    {
        match v {
            WalkVerdict::Skip => {},
            WalkVerdict::Error => {
                self.walk_errors = self.walk_errors + 1;
            },
            WalkVerdict::Outside => {
                self.skipped_outside_vault = self.skipped_outside_vault + 1;
            },
            WalkVerdict::Candidate(rel) => {
                if included {
                    match meta {
                        Some((size, Some(mtime))) => {
                            self.entries.push(WalkedFile { rel_path: rel, abs_path, size, mtime });
                        },
                        _ => {
                            self.walk_errors = self.walk_errors + 1;
                        },
                    }
                }
            },
        }
    }
}

} // verus!
