//! Change events published to watchers, and which subscriptions they reach.

use vstd::prelude::*;
use crate::text::str_eq;

verus! {

/// Capacity of the in-process event bus.
pub const BUS_CAPACITY: usize = 256;

#[derive(Debug, Clone, Copy, PartialEq, Eq, Structural)]
pub enum EventType {
    Created,
    Modified,
    Deleted,
}

/// A file of a vault changed. `vault` is the vault's id.
#[derive(Debug, Clone, PartialEq, Eq)]
pub struct FileChangedEvent {
    pub event_type: EventType,
    pub vault: String,
    pub path: String,
    pub content_hash: Option<String>,
    pub detected_at: String,
}

/// A subscriber fell behind and missed events; `vault` is absent when the
/// lag is not tied to one vault.
#[derive(Debug, Clone, PartialEq, Eq)]
pub struct StreamLaggedEvent {
    pub vault: Option<String>,
    pub missed: Option<u64>,
    pub action: StreamLagAction,
    pub detected_at: String,
}

#[derive(Debug, Clone, Copy, PartialEq, Eq, Structural)]
pub enum StreamLagAction {
    ResyncRequired,
}

#[derive(Debug, Clone, PartialEq, Eq)]
pub enum StreamEvent {
    FileChanged(FileChangedEvent),
    StreamLagged(StreamLaggedEvent),
}

/// An ASCII decimal digit.
pub open spec fn is_digit(c: char) -> bool {
    '0' <= c && c <= '9'
}

/// `s[i..i + k]` are ASCII digits.
pub open spec fn digits_at(s: Seq<char>, i: int, k: int) -> bool {
    forall|j: int| i <= j < i + k ==> #[trigger] is_digit(s[j])
}

/// An RFC 3339 UTC time with microseconds, as chrono writes it with
/// `SecondsFormat::Micros` and `use_z`: a year of at least four digits
/// (with a sign only outside 0..=9999), then `-MM-DDTHH:MM:SS.ffffffZ`.
pub open spec fn rfc3339_utc_micros(s: Seq<char>) -> bool {
    let t = s.len() - 23;
    &&& s.len() >= 27
    &&& digits_at(s, t - 4, 4)
    &&& s[t] == '-'
    &&& digits_at(s, t + 1, 2)
    &&& s[t + 3] == '-'
    &&& digits_at(s, t + 4, 2)
    &&& s[t + 6] == 'T'
    &&& digits_at(s, t + 7, 2)
    &&& s[t + 9] == ':'
    &&& digits_at(s, t + 10, 2)
    &&& s[t + 12] == ':'
    &&& digits_at(s, t + 13, 2)
    &&& s[t + 15] == '.'
    &&& digits_at(s, t + 16, 6)
    &&& s[t + 22] == 'Z'
}

/// `chrono::Utc::now()` rendered by `to_rfc3339_opts(SecondsFormat::Micros,
/// true)`. The time read is not stated; its written form is: chrono writes
/// the year (four digits in 0..=9999, else signed), two-digit month, day,
/// hour, minute and second, `.` and six digits of microseconds, and `Z`
/// for the zero offset.
#[verifier::external_body]
fn now_rfc3339_micros() -> (s: String)
    ensures
        rfc3339_utc_micros(s@),
{
    chrono::Utc::now().to_rfc3339_opts(chrono::SecondsFormat::Micros, true)
}

impl FileChangedEvent {
    /// The event, stamped with the current time.
    pub fn now(vault: String, event_type: EventType, path: String, content_hash: Option<String>) -> (e:
        FileChangedEvent)
        ensures
            e.event_type == event_type,
            e.vault == vault,
            e.path == path,
            e.content_hash == content_hash,
            rfc3339_utc_micros(e.detected_at@),
    {
        FileChangedEvent { event_type, vault, path, content_hash, detected_at: now_rfc3339_micros() }
    }
}

impl StreamLaggedEvent {
    /// A lag event for one vault, stamped with the current time.
    pub fn now_for_vault(vault: String, missed: Option<u64>) -> (e: StreamLaggedEvent)
        ensures
            e.vault == Some(vault),
            e.missed == missed,
            e.action == StreamLagAction::ResyncRequired,
            rfc3339_utc_micros(e.detected_at@),
    {
        StreamLaggedEvent {
            vault: Some(vault),
            missed,
            action: StreamLagAction::ResyncRequired,
            detected_at: now_rfc3339_micros(),
        }
    }

    /// A lag event for every vault, stamped with the current time.
    pub fn now_undirected(missed: Option<u64>) -> (e: StreamLaggedEvent)
        ensures
            e.vault is None,
            e.missed == missed,
            e.action == StreamLagAction::ResyncRequired,
            rfc3339_utc_micros(e.detected_at@),
    {
        StreamLaggedEvent {
            vault: None,
            missed,
            action: StreamLagAction::ResyncRequired,
            detected_at: now_rfc3339_micros(),
        }
    }
}

impl StreamEvent {
    pub fn file_changed(vault: String, event_type: EventType, path: String, content_hash: Option<String>) -> (e:
        StreamEvent)
        ensures
            e matches StreamEvent::FileChanged(f) && f.event_type == event_type && f.vault == vault
                && f.path == path && f.content_hash == content_hash && rfc3339_utc_micros(f.detected_at@),
    {
        StreamEvent::FileChanged(FileChangedEvent::now(vault, event_type, path, content_hash))
    }

    pub fn stream_lagged_for_vault(vault: String, missed: Option<u64>) -> (e: StreamEvent)
        ensures
            e matches StreamEvent::StreamLagged(l) && l.vault == Some(vault) && l.missed == missed
                && l.action == StreamLagAction::ResyncRequired && rfc3339_utc_micros(l.detected_at@),
    {
        StreamEvent::StreamLagged(StreamLaggedEvent::now_for_vault(vault, missed))
    }
}

/// Whether an event reaches a subscription to vault `id`: its own file
/// changes, and lag events for it or for no vault in particular.
pub open spec fn reaches_vault(e: StreamEvent, id: Seq<char>) -> bool {
    match e {
        StreamEvent::FileChanged(f) => f.vault@ == id,
        StreamEvent::StreamLagged(l) => match l.vault {
            Some(v) => v@ == id,
            None => true,
        },
    }
}

/// Whether an event reaches a subscription to the vaults `ids`.
pub open spec fn reaches_set(e: StreamEvent, ids: Seq<Seq<char>>) -> bool {
    match e {
        StreamEvent::FileChanged(f) => ids.contains(f.vault@),
        StreamEvent::StreamLagged(l) => match l.vault {
            Some(v) => ids.contains(v@),
            None => true,
        },
    }
}

pub fn event_vault_matches(event: &StreamEvent, id: &str) -> (r: bool)
    ensures
        r == reaches_vault(*event, id@),
{
    match event {
        StreamEvent::FileChanged(e) => str_eq(e.vault.as_str(), id),
        StreamEvent::StreamLagged(e) => match &e.vault {
            Some(v) => str_eq(v.as_str(), id),
            None => true,
        },
    }
}

fn contains_id(ids: &Vec<String>, v: &str) -> (r: bool)
    ensures
        r == ids@.map_values(|s: String| s@).contains(v@),
{
    let ghost views = ids@.map_values(|s: String| s@);
    let mut i: usize = 0;
    while i < ids.len()
        invariant
            i <= ids@.len(),
            views == ids@.map_values(|s: String| s@),
            forall|j: int| 0 <= j < i ==> views[j] != v@,
        decreases ids@.len() - i,
    {
        if str_eq(ids[i].as_str(), v) {
            assert(views[i as int] == v@);
            return true;
        }
        i += 1;
    }
    false
}

pub fn event_in_set(event: &StreamEvent, ids: &Vec<String>) -> (r: bool)
    ensures
        r == reaches_set(*event, ids@.map_values(|s: String| s@)),
{
    match event {
        StreamEvent::FileChanged(e) => contains_id(ids, e.vault.as_str()),
        StreamEvent::StreamLagged(e) => match &e.vault {
            Some(v) => contains_id(ids, v.as_str()),
            None => true,
        },
    }
}

/// A subscription to one vault and a subscription to a set holding just
/// that vault receive the same events.
pub proof fn law_single_vault_is_singleton_set(e: StreamEvent, id: Seq<char>)
    ensures
        reaches_vault(e, id) == reaches_set(e, seq![id]),
{
    match e {
        StreamEvent::FileChanged(f) => {
            if f.vault@ == id {
                assert(seq![id][0] == id);
            }
        },
        StreamEvent::StreamLagged(l) => match l.vault {
            Some(v) => {
                if v@ == id {
                    assert(seq![id][0] == id);
                }
            },
            None => {},
        },
    }
}

// ---------------------------------------------------------------------------
// Watch streams
// ---------------------------------------------------------------------------

/// What a watch stream follows: one vault, or the vaults active when it
/// was opened.
#[derive(Debug, Clone, PartialEq, Eq)]
pub enum WatchScope {
    Vault(String),
    Vaults(Vec<String>),
}

/// What the stream's subscription to the event bus delivered next.
#[derive(Debug, Clone, PartialEq, Eq)]
pub enum Received {
    Event(StreamEvent),
    /// The subscriber fell behind and this many events were dropped.
    Lagged(u64),
    /// The bus is gone.
    Closed,
}

/// What the stream does with it.
#[derive(Debug, Clone, PartialEq, Eq)]
pub enum WatchAction {
    /// Write this event as one NDJSON line.
    Emit(StreamEvent),
    /// Wait for the next delivery.
    Skip,
    /// End the stream.
    End,
}

/// One step of a watch stream: events in scope are passed on, others
/// dropped; a lag becomes a lag event, for the followed vault or, for a
/// set, for no vault in particular; a closed bus ends the stream.
pub fn watch_step(scope: &WatchScope, received: Received) -> (a: WatchAction)
    ensures
        match received {
            Received::Event(e) => if (match *scope {
                WatchScope::Vault(id) => reaches_vault(e, id@),
                WatchScope::Vaults(ids) => reaches_set(e, ids@.map_values(|s: String| s@)),
            }) {
                a == WatchAction::Emit(e)
            } else {
                a == WatchAction::Skip
            },
            Received::Lagged(n) => a matches WatchAction::Emit(StreamEvent::StreamLagged(l)) && l.missed == Some(n)
                && l.action == StreamLagAction::ResyncRequired && rfc3339_utc_micros(l.detected_at@) && l.vault == match *scope {
                WatchScope::Vault(id) => Some(id),
                WatchScope::Vaults(_) => None::<String>,
            },
            Received::Closed => a == WatchAction::End,
        },
{
    match received {
        Received::Event(e) => {
            let keep = match scope {
                WatchScope::Vault(id) => event_vault_matches(&e, id.as_str()),
                WatchScope::Vaults(ids) => event_in_set(&e, ids),
            };
            if keep {
                WatchAction::Emit(e)
            } else {
                WatchAction::Skip
            }
        },
        Received::Lagged(n) => match scope {
            WatchScope::Vault(id) => WatchAction::Emit(StreamEvent::stream_lagged_for_vault(id.clone(), Some(n))),
            WatchScope::Vaults(_) => WatchAction::Emit(
                StreamEvent::StreamLagged(StreamLaggedEvent::now_undirected(Some(n))),
            ),
        },
        Received::Closed => WatchAction::End,
    }
}

/// A single-vault watch is refused unless the resolved vault `id` is among
/// the active vaults: a paused or errored vault would stream nothing.
pub fn require_active_for_watch(active_ids: &Vec<String>, id: &str, name_or_id: &str) -> (r: Result<
    (),
    crate::api::error::ApiError,
>)
    ensures
        r is Ok <==> active_ids@.map_values(|s: String| s@).contains(id@),
        r matches Err(e) ==> e@ == (crate::api::error::STATUS_CONFLICT, "vault_not_active"@, "vault "@
            + name_or_id@ + " is not active (paused or errored)"@),
{
    if contains_id(active_ids, id) {
        return Ok(());
    }
    let mut m = crate::text::concat("vault ", name_or_id);
    crate::text::push_str(&mut m, " is not active (paused or errored)");
    Err(crate::api::error::ApiError::vault_not_active(m))
}

} // verus!
