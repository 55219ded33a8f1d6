//! The stats-cache differ: summing the per-model costs of the cache
//! file, tracking the last observed total, and emitting a `cost_update`
//! event for each strictly positive increase.

use vstd::prelude::*;
use vstd::string::{StrSliceExecFns, StringExecFns};

use crate::event::{event_id, spec_event_id, Event, IdCounter, Metadata};
use crate::jsonval::{json_get, json_object_values, json_parse, json_text};
use crate::snapshot::capped;
use crate::status::Status;
use crate::text::{
    lemma_micro_value_range, micro_of_text, micro_text, micro_to_text, parse_micro_text,
    u64_to_dec,
};

verus! {

/// What one observation of a changed stats cache asks for.
pub struct StatsTracker {
    /// Whether a total has been observed before.
    pub initialized: bool,
    /// The last observed summed cost, micro-USD.
    pub last_cost_micro: u64,
}

impl StatsTracker {
    /// A tracker that has seen nothing yet.
    pub fn new() -> (r: StatsTracker)
        ensures
            !r.initialized,
            r.last_cost_micro == 0,
    {
        StatsTracker { initialized: false, last_cost_micro: 0 }
    }

    /// A tracker seeded with the total read at startup.
    pub fn seeded(micro: u64) -> (r: StatsTracker)
        ensures
            r.initialized,
            r.last_cost_micro == micro,
    {
        StatsTracker { initialized: true, last_cost_micro: micro }
    }

    /// Take in a freshly parsed total.  The first observation only
    /// records it; later ones record it and hand back the delta exactly
    /// when the total strictly rose — a fall or standstill emits
    /// nothing, so the cost total of the store never falls.
    pub fn observe(&mut self, total_micro: u64) -> (r: Option<u64>)
        ensures
            final(self).initialized,
            final(self).last_cost_micro == total_micro,
            r == if old(self).initialized && total_micro > old(self).last_cost_micro {
                Some((total_micro - old(self).last_cost_micro) as u64)
            } else {
                None::<u64>
            },
    {
        if !self.initialized {
            self.initialized = true;
            self.last_cost_micro = total_micro;
            return None;
        }
        if total_micro > self.last_cost_micro {
            let delta = total_micro - self.last_cost_micro;
            self.last_cost_micro = total_micro;
            Some(delta)
        } else {
            self.last_cost_micro = total_micro;
            None
        }
    }
}

/// The micro-USD value an amount text contributes: 0 when it is not a
/// recognized decimal.
pub open spec fn micro_text_or_zero(s: Seq<char>) -> int {
    match micro_of_text(s) {
        Some(v) => v,
        None => 0,
    }
}

/// Summed contributions of a list of amount texts, micro-USD.
pub open spec fn sum_micro_texts(texts: Seq<Seq<char>>) -> int
    decreases texts.len(),
{
    if texts.len() == 0 {
        0
    } else {
        sum_micro_texts(texts.drop_last()) + micro_text_or_zero(texts.last())
    }
}

proof fn lemma_sum_micro_nonneg(texts: Seq<Seq<char>>)
    ensures
        sum_micro_texts(texts) >= 0,
    decreases texts.len(),
{
    if texts.len() > 0 {
        lemma_sum_micro_nonneg(texts.drop_last());
        lemma_micro_value_range(texts.last());
    }
}

/// Sum a list of amount texts in micro-USD, held to the counter range;
/// texts that are not recognized decimals contribute nothing.
#[verifier::loop_isolation(false)]
pub fn sum_cost_texts(texts: &Vec<String>) -> (r: u64)
    ensures
        r as int == capped(sum_micro_texts(texts.deep_view())),
{
    let ghost dv = texts.deep_view();
    let mut total: u64 = 0;
    let mut i: usize = 0;
    proof {
        assert(dv.take(0) =~= Seq::<Seq<char>>::empty());
    }
    while i < texts.len()
        invariant
            i <= texts@.len(),
            dv == texts.deep_view(),
            total as int == capped(sum_micro_texts(dv.take(i as int))),
        decreases texts@.len() - i,
    {
        proof {
            assert(dv[i as int] == texts@[i as int]@);
            assert(dv.take(i as int + 1).drop_last() =~= dv.take(i as int));
            assert(dv.take(i as int + 1).last() == dv[i as int]);
            lemma_micro_value_range(dv[i as int]);
            lemma_sum_micro_nonneg(dv.take(i as int));
        }
        let v = match parse_micro_text(texts[i].as_str()) {
            Some(m) => m,
            None => 0,
        };
        total = total.saturating_add(v);
        i += 1;
    }
    proof {
        assert(dv.take(texts@.len() as int) =~= dv);
    }
    total
}

/// Sum the `modelUsage.<model>.costUSD` amounts of the stats-cache text,
/// in micro-USD; `None` when the text is not a JSON object with a
/// `modelUsage` object.  The texts come off the opaque JSON through the
/// trusted readers; the summation itself is `sum_cost_texts`, whose
/// contract fixes the result for the collected texts.  Entries without
/// a `costUSD` member contribute nothing.
pub fn stats_total_micro(bytes: &[u8]) -> (r: Option<u64>) {
    let v = match json_parse(bytes) {
        Some(v) => v,
        None => {
            return None;
        },
    };
    let mu = match json_get(&v, "modelUsage") {
        Some(m) => m,
        None => {
            return None;
        },
    };
    let vals = match json_object_values(mu) {
        Some(vs) => vs,
        None => {
            return None;
        },
    };
    let mut texts: Vec<String> = Vec::new();
    let mut i: usize = 0;
    while i < vals.len()
        invariant
            i <= vals@.len(),
        decreases vals@.len() - i,
    {
        match json_get(vals[i], "costUSD") {
            Some(c) => {
                texts.push(json_text(c));
            },
            None => {},
        }
        i += 1;
    }
    Some(sum_cost_texts(&texts))
}

/// Metadata text of a cost event: the delta and the new total, both in
/// USD with six decimal places, and the source tag.
pub open spec fn cost_meta_text(delta_micro: nat, total_micro: nat) -> Seq<char> {
    "{\"costDelta\":"@ + micro_text(delta_micro) + ",\"costTotalUsd\":"@ + micro_text(total_micro)
        + ",\"source\":\"stats_cache\"}"@
}

/// Build the `cost_update` event for a positive cost delta: agent
/// `lead`, status ok, the delta in the message and, extracted, in the
/// metadata — the append pipeline then raises the cost total by exactly
/// this delta.
pub fn cost_event_from_totals(
    delta_micro: u64,
    total_micro: u64,
    ids: &mut IdCounter,
    now: &str,
) -> (e: Event)
    requires
        old(ids).next < u64::MAX,
    ensures
        final(ids).next == old(ids).next + 1,
        e.id@ == spec_event_id(old(ids).next as nat),
        e.agent_id@ == "lead"@,
        e.event@ == "cost_update"@,
        e.status is Okay,
        e.latency_ms is None,
        e.message@ == "cost +$"@ + micro_text(delta_micro as nat),
        e.metadata.source@ == "stats_cache"@,
        e.metadata.token_total == 0,
        e.metadata.cost_delta_micro == delta_micro,
        e.metadata.raw@ == cost_meta_text(delta_micro as nat, total_micro as nat),
        e.timestamp@ == now@,
        e.received_at@ == now@,
{
    let n = ids.take();
    let mut msg = String::from_str("cost +$");
    msg.append(micro_to_text(delta_micro).as_str());
    let mut raw = String::from_str("{\"costDelta\":");
    raw.append(micro_to_text(delta_micro).as_str());
    raw.append(",\"costTotalUsd\":");
    raw.append(micro_to_text(total_micro).as_str());
    raw.append(",\"source\":\"stats_cache\"}");
    proof {
        assert(raw@ =~= cost_meta_text(delta_micro as nat, total_micro as nat));
    }
    Event {
        id: event_id(n),
        agent_id: String::from_str("lead"),
        event: String::from_str("cost_update"),
        status: Status::Okay,
        latency_ms: None,
        message: msg,
        metadata: Metadata {
            source: String::from_str("stats_cache"),
            token_total: 0,
            cost_delta_micro: delta_micro,
            raw,
        },
        timestamp: now.to_owned(),
        received_at: now.to_owned(),
    }
}

} // verus!
