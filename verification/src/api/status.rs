//! The `/status` answer: per-vault file counts and last index times, their
//! totals, and each vault's initial-scan state.

use vstd::prelude::*;
use crate::api::search::{seq_lt, seq_lt_exec};
use crate::api::types::{BootstrapBlock, StatusResponse, VaultStatusEntry};
use crate::text::{chars_of, owned};

verus! {

/// A vault's initial-scan state, as read from its runner. `started_at` is
/// already rendered as RFC 3339 text.
#[derive(Debug, Clone, PartialEq, Eq)]
pub enum BootstrapState {
    Indexing { started_at: String, files_seen: u64, files_indexed: u64 },
    Ready,
    Errored(String),
}

/// The wire block of a bootstrap state; `None` stands for a state that
/// could not be read (a poisoned lock), reported as errored.
pub fn read_bootstrap_block(state: Option<&BootstrapState>) -> (b: BootstrapBlock)
    ensures
        match state {
            Some(BootstrapState::Indexing { started_at, files_seen, files_indexed }) => b.state@
                == "indexing"@ && b.started_at == Some(*started_at) && b.files_seen == files_seen
                && b.files_indexed == files_indexed && b.message is None,
            Some(BootstrapState::Ready) => b.state@ == "ready"@ && b.started_at is None && b.files_seen
                == 0 && b.files_indexed == 0 && b.message is None,
            Some(BootstrapState::Errored(m)) => b.state@ == "errored"@ && b.started_at is None
                && b.files_seen == 0 && b.files_indexed == 0 && b.message == Some(*m),
            None => b.state@ == "errored"@ && b.started_at is None && b.files_seen == 0
                && b.files_indexed == 0 && (b.message matches Some(m) && m@
                == "bootstrap state lock poisoned"@),
        },
{
    match state {
        Some(BootstrapState::Indexing { started_at, files_seen, files_indexed }) => BootstrapBlock {
            state: owned("indexing"),
            started_at: Some(started_at.clone()),
            files_seen: *files_seen,
            files_indexed: *files_indexed,
            message: None,
        },
        Some(BootstrapState::Ready) => BootstrapBlock {
            state: owned("ready"),
            started_at: None,
            files_seen: 0,
            files_indexed: 0,
            message: None,
        },
        Some(BootstrapState::Errored(m)) => BootstrapBlock {
            state: owned("errored"),
            started_at: None,
            files_seen: 0,
            files_indexed: 0,
            message: Some(m.clone()),
        },
        None => BootstrapBlock {
            state: owned("errored"),
            started_at: None,
            files_seen: 0,
            files_indexed: 0,
            message: Some(owned("bootstrap state lock poisoned")),
        },
    }
}

fn copy_opt(o: &Option<String>) -> (c: Option<String>)
    ensures
        c == *o,
{
    match o {
        Some(s) => Some(s.clone()),
        None => None,
    }
}

fn copy_block(b: &BootstrapBlock) -> (c: BootstrapBlock)
    ensures
        c == *b,
{
    BootstrapBlock {
        state: b.state.clone(),
        started_at: copy_opt(&b.started_at),
        files_seen: b.files_seen,
        files_indexed: b.files_indexed,
        message: copy_opt(&b.message),
    }
}

/// What the index of one active vault reports: its file count and the
/// latest `indexed_at` among its files.
#[derive(Debug, Clone, PartialEq, Eq)]
pub struct VaultIndexStats {
    pub id: String,
    pub name: String,
    pub path: String,
    pub file_count: i64,
    pub last_indexed_at: Option<String>,
    pub bootstrap: BootstrapBlock,
}

/// The sum of the vaults' file counts.
pub open spec fn count_sum(v: Seq<VaultIndexStats>) -> int
    decreases v.len(),
{
    if v.len() == 0 {
        0
    } else {
        count_sum(v.drop_last()) + v.last().file_count
    }
}

/// Every running total of the file counts fits in an `i64`.
pub open spec fn sums_fit(v: Seq<VaultIndexStats>) -> bool {
    forall|k: int| 0 <= k <= v.len() ==> i64::MIN <= #[trigger] count_sum(v.take(k)) <= i64::MAX
}

/// The later of two index times, by the text's order; the first on a tie.
pub open spec fn later(prev: Option<Seq<char>>, next: Seq<char>) -> Option<Seq<char>> {
    match prev {
        Some(p) => if seq_lt(p, next) {
            Some(next)
        } else {
            Some(p)
        },
        None => Some(next),
    }
}

/// The latest index time over the vaults that have one.
pub open spec fn latest_indexed(v: Seq<VaultIndexStats>) -> Option<Seq<char>>
    decreases v.len(),
{
    if v.len() == 0 {
        None
    } else {
        let m = latest_indexed(v.drop_last());
        match v.last().last_indexed_at {
            Some(li) => later(m, li@),
            None => m,
        }
    }
}

/// A count clamped to be non-negative.
pub open spec fn clamp_count(n: int) -> u64 {
    if n < 0 {
        0
    } else {
        n as u64
    }
}

pub open spec fn opt_chars(o: Option<String>) -> Option<Seq<char>> {
    match o {
        Some(s) => Some(s@),
        None => None,
    }
}

/// The status entry of one vault.
pub open spec fn entry_ok(e: VaultStatusEntry, s: VaultIndexStats) -> bool {
    &&& e.id == s.id
    &&& e.name == s.name
    &&& e.path == s.path
    &&& e.indexed_file_count == clamp_count(s.file_count as int)
    &&& e.last_indexed_at == s.last_indexed_at
    &&& e.bootstrap == s.bootstrap
}

/// The `/status` answer over the active vaults, in order. With none, every
/// field is empty; otherwise the first vault's path stands for the daemon,
/// the counts are summed and the latest index time is kept.
pub fn assemble_status(vaults: Vec<VaultIndexStats>) -> (r: StatusResponse)
    requires
        sums_fit(vaults@),
    ensures
        vaults@.len() == 0 ==> r.vault@ == ""@ && r.indexed_file_count == 0 && r.last_indexed_at is None
            && r.vaults@.len() == 0,
        vaults@.len() > 0 ==> {
            &&& r.vault == vaults@[0].path
            &&& r.indexed_file_count == clamp_count(count_sum(vaults@))
            &&& opt_chars(r.last_indexed_at) == latest_indexed(vaults@)
            &&& r.vaults@.len() == vaults@.len()
            &&& forall|i: int| 0 <= i < vaults@.len() ==> entry_ok(#[trigger] r.vaults@[i], vaults@[i])
        },
{
    if vaults.len() == 0 {
        return StatusResponse {
            vault: owned(""),
            indexed_file_count: 0,
            last_indexed_at: None,
            vaults: Vec::new(),
        };
    }
    let mut total: i64 = 0;
    let mut latest: Option<String> = None;
    let mut entries: Vec<VaultStatusEntry> = Vec::new();
    let mut i: usize = 0;
    proof {
        assert(vaults@.take(0) =~= Seq::<VaultIndexStats>::empty());
    }
    while i < vaults.len()
        invariant
            i <= vaults@.len(),
            sums_fit(vaults@),
            total == count_sum(vaults@.take(i as int)),
            opt_chars(latest) == latest_indexed(vaults@.take(i as int)),
            entries@.len() == i,
            forall|j: int| 0 <= j < i ==> entry_ok(#[trigger] entries@[j], vaults@[j]),
        decreases vaults@.len() - i,
    {
        let v = &vaults[i];
        proof {
            assert(vaults@.take(i + 1).drop_last() =~= vaults@.take(i as int));
            assert(vaults@.take(i + 1).last() == vaults@[i as int]);
            assert(i64::MIN <= count_sum(vaults@.take(i + 1)) <= i64::MAX);
        }
        total = total + v.file_count;
        match &v.last_indexed_at {
            Some(li) => {
                let next = match &latest {
                    Some(prev) => {
                        if seq_lt_exec(&chars_of(prev.as_str()), &chars_of(li.as_str())) {
                            li.clone()
                        } else {
                            prev.clone()
                        }
                    },
                    None => li.clone(),
                };
                latest = Some(next);
            },
            None => {},
        }
        let count: u64 = if v.file_count < 0 {
            0
        } else {
            v.file_count as u64
        };
        entries.push(
            VaultStatusEntry {
                id: v.id.clone(),
                name: v.name.clone(),
                path: v.path.clone(),
                indexed_file_count: count,
                last_indexed_at: copy_opt(&v.last_indexed_at),
                bootstrap: copy_block(&v.bootstrap),
            },
        );
        i += 1;
    }
    proof {
        assert(vaults@.take(vaults@.len() as int) =~= vaults@);
    }
    let clamped: u64 = if total < 0 {
        0
    } else {
        total as u64
    };
    StatusResponse {
        vault: vaults[0].path.clone(),
        indexed_file_count: clamped,
        last_indexed_at: latest,
        vaults: entries,
    }
}

} // verus!
