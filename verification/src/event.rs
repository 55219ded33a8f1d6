//! The data model: normalized events, per-agent and per-source counter
//! rows, alert rows, and the id allocator.

use vstd::prelude::*;
use vstd::string::StringExecFns;

use crate::status::Status;
use crate::text::{dec_str, lemma_dec_str_injective, lemma_dec_str_len_pos, u64_to_dec};

verus! {

/// The parts of an event's metadata that the aggregation reads, extracted
/// to plain values, next to the raw JSON text of the whole metadata value.
pub struct Metadata {
    /// `metadata.source`; `manual` when the payload names none.
    pub source: String,
    /// `metadata.tokenUsage.totalTokens`; 0 when absent.
    pub token_total: u64,
    /// `metadata.costDelta` in micro-USD when strictly positive, else 0.
    pub cost_delta_micro: u64,
    /// The whole metadata value as JSON text.
    pub raw: String,
}

impl Metadata {
    /// A field-for-field copy.
    pub fn duplicate(&self) -> (r: Metadata)
        ensures
            r == *self,
    {
        Metadata {
            source: self.source.clone(),
            token_total: self.token_total,
            cost_delta_micro: self.cost_delta_micro,
            raw: self.raw.clone(),
        }
    }
}

/// One normalized record of agent activity, immutable once built.
pub struct Event {
    /// `"e"` followed by the allocated sequence number.
    pub id: String,
    pub agent_id: String,
    /// The event kind, a free-form word such as `heartbeat`.
    pub event: String,
    pub status: Status,
    pub latency_ms: Option<i64>,
    pub message: String,
    pub metadata: Metadata,
    /// Source-supplied RFC 3339 timestamp.
    pub timestamp: String,
    /// Receive time, RFC 3339 UTC.
    pub received_at: String,
}

impl Event {
    /// A field-for-field copy.
    pub fn duplicate(&self) -> (r: Event)
        ensures
            r == *self,
    {
        Event {
            id: self.id.clone(),
            agent_id: self.agent_id.clone(),
            event: self.event.clone(),
            status: self.status,
            latency_ms: self.latency_ms,
            message: self.message.clone(),
            metadata: self.metadata.duplicate(),
            timestamp: self.timestamp.clone(),
            received_at: self.received_at.clone(),
        }
    }
}

/// One row per observed agent id; created on first event, never dropped.
pub struct AgentRow {
    pub agent_id: String,
    pub last_seen: String,
    pub total: u64,
    pub ok: u64,
    pub warning: u64,
    pub error: u64,
    pub token_total: u64,
    pub cost_micro_usd: u64,
    pub last_event: String,
    pub latency_ms: Option<i64>,
}

impl AgentRow {
    /// The three status buckets partition the total.
    pub open spec fn wf(self) -> bool {
        self.total as int == self.ok as int + self.warning as int + self.error as int
    }

    /// A field-for-field copy.
    pub fn duplicate(&self) -> (r: AgentRow)
        ensures
            r == *self,
    {
        AgentRow {
            agent_id: self.agent_id.clone(),
            last_seen: self.last_seen.clone(),
            total: self.total,
            ok: self.ok,
            warning: self.warning,
            error: self.error,
            token_total: self.token_total,
            cost_micro_usd: self.cost_micro_usd,
            last_event: self.last_event.clone(),
            latency_ms: self.latency_ms,
        }
    }
}

/// One row per observed metadata source; created on first event.
pub struct SourceRow {
    pub source: String,
    pub total: u64,
    pub ok: u64,
    pub warning: u64,
    pub error: u64,
    pub last_seen: String,
}

impl SourceRow {
    /// The three status buckets partition the total.
    pub open spec fn wf(self) -> bool {
        self.total as int == self.ok as int + self.warning as int + self.error as int
    }

    /// A field-for-field copy.
    pub fn duplicate(&self) -> (r: SourceRow)
        ensures
            r == *self,
    {
        SourceRow {
            source: self.source.clone(),
            total: self.total,
            ok: self.ok,
            warning: self.warning,
            error: self.error,
            last_seen: self.last_seen.clone(),
        }
    }
}

/// A derived record created for every warning or error event.
pub struct AlertRow {
    /// `"a"` followed by the allocated sequence number.
    pub id: String,
    /// Restricted to warning and error.
    pub severity: Status,
    pub agent_id: String,
    pub event: String,
    /// The event's message, `No message` when that was empty.
    pub message: String,
    pub created_at: String,
}

impl AlertRow {
    /// A field-for-field copy.
    pub fn duplicate(&self) -> (r: AlertRow)
        ensures
            r == *self,
    {
        AlertRow {
            id: self.id.clone(),
            severity: self.severity,
            agent_id: self.agent_id.clone(),
            event: self.event.clone(),
            message: self.message.clone(),
            created_at: self.created_at.clone(),
        }
    }
}

/// One row of the dashboard workflow list.
pub struct WorkflowRow {
    pub role_id: String,
    pub active: bool,
    /// `blocked`, `at-risk`, `running` or `idle`.
    pub status: String,
    pub total: u64,
    pub last_event: String,
    pub last_seen: Option<String>,
}

/// The process-wide id sequence: event ids and alert ids are both drawn
/// from it, so ids are unique across both kinds.
pub struct IdCounter {
    pub next: u64,
}

impl IdCounter {
    pub fn new(start: u64) -> (r: IdCounter)
        ensures
            r.next == start,
    {
        IdCounter { next: start }
    }

    /// Allocate the next number; consecutive calls return strictly
    /// increasing values, which keeps ids unique.
    pub fn take(&mut self) -> (n: u64)
        requires
            old(self).next < u64::MAX,
        ensures
            n == old(self).next,
            final(self).next == old(self).next + 1,
    {
        let n = self.next;
        self.next = self.next + 1;
        n
    }
}

/// Text of an event id: `e` then the decimal sequence number.
pub open spec fn spec_event_id(n: nat) -> Seq<char> {
    seq!['e'] + dec_str(n)
}

/// Text of an alert id: `a` then the decimal sequence number.
pub open spec fn spec_alert_id(n: nat) -> Seq<char> {
    seq!['a'] + dec_str(n)
}

/// Ids drawn from the one sequence never collide: different numbers give
/// different id texts, and an event id never reads as an alert id.
pub proof fn lemma_ids_unique(m: nat, n: nat)
    ensures
        m != n ==> spec_event_id(m) != spec_event_id(n),
        m != n ==> spec_alert_id(m) != spec_alert_id(n),
        spec_event_id(m) != spec_alert_id(n),
{
    lemma_dec_str_len_pos(m);
    lemma_dec_str_len_pos(n);
    assert(spec_event_id(m)[0] == 'e');
    assert(spec_alert_id(n)[0] == 'a');
    if m != n {
        lemma_dec_str_injective(m, n);
        assert(spec_event_id(m).drop_first() =~= dec_str(m));
        assert(spec_event_id(n).drop_first() =~= dec_str(n));
        assert(spec_alert_id(m).drop_first() =~= dec_str(m));
        assert(spec_alert_id(n).drop_first() =~= dec_str(n));
    }
}

pub fn event_id(n: u64) -> (r: String)
    ensures
        r@ == spec_event_id(n as nat),
{
    let r = String::from_str("e").concat(u64_to_dec(n).as_str());
    proof {
        reveal_strlit("e");
        assert(r@ =~= spec_event_id(n as nat));
    }
    r
}

pub fn alert_id(n: u64) -> (r: String)
    ensures
        r@ == spec_alert_id(n as nat),
{
    let r = String::from_str("a").concat(u64_to_dec(n).as_str());
    proof {
        reveal_strlit("a");
        assert(r@ =~= spec_alert_id(n as nat));
    }
    r
}

} // verus!
