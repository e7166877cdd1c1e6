//! The health report: vault counts and the overall status ladder from what
//! the probes found.

use vstd::prelude::*;
use crate::api::types::{EmbeddingHealth, HealthResponse};
use crate::control_plane::VaultStatus;
use crate::text::owned;

verus! {

/// The number of vaults with status `s`.
pub open spec fn count_status(v: Seq<VaultStatus>, s: VaultStatus) -> nat
    decreases v.len(),
{
    if v.len() == 0 {
        0
    } else {
        count_status(v.drop_last(), s) + if v.last() == s {
            1nat
        } else {
            0nat
        }
    }
}

proof fn lemma_count_le(v: Seq<VaultStatus>, s: VaultStatus)
    ensures
        count_status(v, s) <= v.len(),
    decreases v.len(),
{
    if v.len() > 0 {
        lemma_count_le(v.drop_last(), s);
    }
}

fn count_exec(v: &Vec<VaultStatus>, s: VaultStatus) -> (n: u64)
    ensures
        n == count_status(v@, s),
{
    let mut n: u64 = 0;
    let mut i: usize = 0;
    while i < v.len()
        invariant
            i <= v@.len(),
            n == count_status(v@.take(i as int), s),
            n <= i,
        decreases v@.len() - i,
    {
        proof {
            assert(v@.take(i + 1).drop_last() =~= v@.take(i as int));
        }
        if v[i] == s {
            n = n + 1;
        }
        i += 1;
    }
    assert(v@.take(i as int) =~= v@);
    n
}

/// The embedding service's health: healthy when it answered the probe.
pub fn embedding_health(endpoint: String, reachable: bool) -> (h: EmbeddingHealth)
    ensures
        h.endpoint == endpoint,
        h.status@ == (if reachable {
            "healthy"@
        } else {
            "degraded"@
        }),
{
    EmbeddingHealth { status: owned(if reachable { "healthy" } else { "degraded" }), endpoint }
}

/// The overall status: unhealthy when a watcher died or a vault database
/// does not answer; degraded when a vault is errored or the embedding
/// service is unreachable; healthy otherwise.
pub open spec fn health_status_spec(
    watcher_dead: bool,
    db_ok: bool,
    errored: nat,
    embedding_degraded: bool,
) -> Seq<char> {
    if watcher_dead || !db_ok {
        "unhealthy"@
    } else if errored > 0 || embedding_degraded {
        "degraded"@
    } else {
        "healthy"@
    }
}

/// The health report. `statuses` is `None` when the vault registry could
/// not be read, which makes the daemon unhealthy outright.
pub fn health_report(
    statuses: Option<&Vec<VaultStatus>>,
    watcher_dead: bool,
    db_ok: bool,
    embedding: Option<EmbeddingHealth>,
    uptime_seconds: u64,
) -> (r: HealthResponse)
    ensures
        r.uptime_seconds == uptime_seconds,
        match statuses {
            None => r.status@ == "unhealthy"@ && r.vaults_active == 0 && r.vaults_errored == 0
                && r.embedding is None,
            Some(v) => {
                &&& r.vaults_active == count_status(v@, VaultStatus::Active)
                &&& r.vaults_errored == count_status(v@, VaultStatus::Errored)
                &&& r.embedding == embedding
                &&& r.status@ == health_status_spec(
                    watcher_dead,
                    db_ok,
                    count_status(v@, VaultStatus::Errored),
                    match embedding {
                        Some(e) => e.status@ == "degraded"@,
                        None => false,
                    },
                )
            },
        },
{
    match statuses {
        None => HealthResponse {
            status: owned("unhealthy"),
            vaults_active: 0,
            vaults_errored: 0,
            uptime_seconds,
            embedding: None,
        },
        Some(v) => {
            let active = count_exec(v, VaultStatus::Active);
            let errored = count_exec(v, VaultStatus::Errored);
            let degraded_embedding = match &embedding {
                Some(e) => crate::text::str_eq(e.status.as_str(), "degraded"),
                None => false,
            };
            let status = if watcher_dead || !db_ok {
                "unhealthy"
            } else if errored > 0 || degraded_embedding {
                "degraded"
            } else {
                "healthy"
            };
            HealthResponse {
                status: owned(status),
                vaults_active: active,
                vaults_errored: errored,
                uptime_seconds,
                embedding,
            }
        },
    }
}

/// The HTTP status of a health answer: 200 when healthy, else 503.
pub fn health_http_status(status: &str) -> (code: u16)
    ensures
        code == (if status@ == "healthy"@ {
            200u16
        } else {
            503u16
        }),
{
    if crate::text::str_eq(status, "healthy") {
        200
    } else {
        503
    }
}

/// A healthy answer needs every probe to pass.
pub proof fn law_healthy_needs_every_probe(
    watcher_dead: bool,
    db_ok: bool,
    errored: nat,
    embedding_degraded: bool,
)
    ensures
        health_status_spec(watcher_dead, db_ok, errored, embedding_degraded) == "healthy"@
            ==> !watcher_dead && db_ok && errored == 0 && !embedding_degraded,
{
    reveal_strlit("healthy");
    reveal_strlit("degraded");
    reveal_strlit("unhealthy");
    assert("unhealthy"@.len() != "healthy"@.len());
    assert("degraded"@[0] != "healthy"@[0]);
}

} // verus!
