//! The shared aggregate and the append pipeline: bounded buffers of
//! recent events and alerts, per-agent and per-source counter rows, and
//! the global token and cost totals.

use vstd::prelude::*;
use vstd::pervasive::VecAdditionalExecFns;
use vstd::string::StringExecFns;

use crate::event::{
    alert_id, spec_alert_id, AgentRow, AlertRow, Event, IdCounter, SourceRow,
};
use crate::status::Status;

verus! {

/// The process-wide aggregate.
pub struct State {
    /// Recent events, newest first, at most 200.
    pub recent: Vec<Event>,
    /// Alert rows, newest first, at most 120.
    pub alerts: Vec<AlertRow>,
    /// One row per observed agent id.
    pub agents: Vec<AgentRow>,
    /// One row per observed metadata source.
    pub sources: Vec<SourceRow>,
    /// Sum over agents of their token totals.
    pub token_total: u64,
    /// Baseline plus the sum of applied cost deltas, micro-USD.
    pub cost_total_micro: u64,
    /// The seed read once from the stats cache, micro-USD.
    pub cost_baseline_micro: u64,
}

/// Sum of the token totals of `rows`.
pub open spec fn sum_tokens(rows: Seq<AgentRow>) -> int
    decreases rows.len(),
{
    if rows.len() == 0 {
        0
    } else {
        sum_tokens(rows.drop_last()) + rows.last().token_total
    }
}

/// Sum of the cost totals of `rows`, micro-USD.
pub open spec fn sum_cost(rows: Seq<AgentRow>) -> int
    decreases rows.len(),
{
    if rows.len() == 0 {
        0
    } else {
        sum_cost(rows.drop_last()) + rows.last().cost_micro_usd
    }
}

/// No two rows share an agent id.
pub open spec fn agents_distinct(rows: Seq<AgentRow>) -> bool {
    forall|i: int, j: int|
        #![trigger rows[i], rows[j]]
        0 <= i < j < rows.len() ==> rows[i].agent_id@ != rows[j].agent_id@
}

/// No two rows share a source name.
pub open spec fn sources_distinct(rows: Seq<SourceRow>) -> bool {
    forall|i: int, j: int|
        #![trigger rows[i], rows[j]]
        0 <= i < j < rows.len() ==> rows[i].source@ != rows[j].source@
}

/// Some row of `rows` carries the agent id `id`.
pub open spec fn has_agent(rows: Seq<AgentRow>, id: Seq<char>) -> bool {
    exists|i: int| 0 <= i < rows.len() && (#[trigger] rows[i]).agent_id@ == id
}

/// The index of the row carrying `id` (meaningful under `has_agent`).
pub open spec fn agent_idx(rows: Seq<AgentRow>, id: Seq<char>) -> int {
    choose|i: int| 0 <= i < rows.len() && (#[trigger] rows[i]).agent_id@ == id
}

/// Some row of `rows` carries the source name `name`.
pub open spec fn has_source(rows: Seq<SourceRow>, name: Seq<char>) -> bool {
    exists|i: int| 0 <= i < rows.len() && (#[trigger] rows[i]).source@ == name
}

/// The index of the row carrying `name` (meaningful under `has_source`).
pub open spec fn source_idx(rows: Seq<SourceRow>, name: Seq<char>) -> int {
    choose|i: int| 0 <= i < rows.len() && (#[trigger] rows[i]).source@ == name
}

impl State {
    /// The store invariant: bounded buffers, well-formed counter rows,
    /// unique row keys, and totals that are really the sums they claim
    /// to be.
    pub open spec fn wf(self) -> bool {
        &&& self.recent@.len() <= 200
        &&& self.alerts@.len() <= 120
        &&& forall|i: int| 0 <= i < self.agents@.len() ==> (#[trigger] self.agents@[i]).wf()
        &&& forall|i: int| 0 <= i < self.sources@.len() ==> (#[trigger] self.sources@[i]).wf()
        &&& agents_distinct(self.agents@)
        &&& sources_distinct(self.sources@)
        &&& self.token_total as int == sum_tokens(self.agents@)
        &&& self.cost_total_micro as int == self.cost_baseline_micro + sum_cost(self.agents@)
    }

    /// Total of the agent row keyed by `id`, 0 when there is none.
    pub open spec fn agent_total_of(self, id: Seq<char>) -> int {
        if has_agent(self.agents@, id) {
            self.agents@[agent_idx(self.agents@, id)].total as int
        } else {
            0
        }
    }

    /// Total of the source row keyed by `name`, 0 when there is none.
    pub open spec fn source_total_of(self, name: Seq<char>) -> int {
        if has_source(self.sources@, name) {
            self.sources@[source_idx(self.sources@, name)].total as int
        } else {
            0
        }
    }

    /// The empty aggregate.
    pub fn new() -> (r: State)
        ensures
            r.wf(),
            r.recent@.len() == 0,
            r.alerts@.len() == 0,
            r.agents@.len() == 0,
            r.sources@.len() == 0,
            r.token_total == 0,
            r.cost_total_micro == 0,
            r.cost_baseline_micro == 0,
    {
        State {
            recent: Vec::new(),
            alerts: Vec::new(),
            agents: Vec::new(),
            sources: Vec::new(),
            token_total: 0,
            cost_total_micro: 0,
            cost_baseline_micro: 0,
        }
    }
}

/// The cost delta an event contributes: its extracted `costDelta`, and
/// only for events of kind `cost_update`.
pub open spec fn applied_cost(evt: Event) -> u64 {
    if evt.event@ == "cost_update"@ {
        evt.metadata.cost_delta_micro
    } else {
        0
    }
}

/// A just-created agent row, before the event is counted into it.
pub open spec fn agent_seeded(evt: Event) -> AgentRow {
    AgentRow {
        agent_id: evt.agent_id,
        last_seen: evt.received_at,
        total: 0,
        ok: 0,
        warning: 0,
        error: 0,
        token_total: 0,
        cost_micro_usd: 0,
        last_event: evt.event,
        latency_ms: None,
    }
}

/// `row` after counting `evt` into it.
pub open spec fn agent_updated(row: AgentRow, evt: Event) -> AgentRow {
    AgentRow {
        agent_id: row.agent_id,
        last_seen: evt.received_at,
        total: (row.total + 1) as u64,
        ok: if evt.status is Okay {
            (row.ok + 1) as u64
        } else {
            row.ok
        },
        warning: if evt.status is Warning {
            (row.warning + 1) as u64
        } else {
            row.warning
        },
        error: if evt.status is Error {
            (row.error + 1) as u64
        } else {
            row.error
        },
        token_total: (row.token_total + evt.metadata.token_total) as u64,
        cost_micro_usd: (row.cost_micro_usd + applied_cost(evt)) as u64,
        last_event: evt.event,
        latency_ms: evt.latency_ms,
    }
}

/// A just-created source row, before the event is counted into it.
pub open spec fn source_seeded(evt: Event) -> SourceRow {
    SourceRow {
        source: evt.metadata.source,
        total: 0,
        ok: 0,
        warning: 0,
        error: 0,
        last_seen: evt.received_at,
    }
}

/// `row` after counting `evt` into it.
pub open spec fn source_updated(row: SourceRow, evt: Event) -> SourceRow {
    SourceRow {
        source: row.source,
        total: (row.total + 1) as u64,
        ok: if evt.status is Okay {
            (row.ok + 1) as u64
        } else {
            row.ok
        },
        warning: if evt.status is Warning {
            (row.warning + 1) as u64
        } else {
            row.warning
        },
        error: if evt.status is Error {
            (row.error + 1) as u64
        } else {
            row.error
        },
        last_seen: evt.received_at,
    }
}

/// The alert row derived from `evt` under the allocated number `n`:
/// same severity, agent and kind; the message substituted with
/// `No message` when empty; created at the event's receive time.
pub open spec fn alert_matches(a: AlertRow, evt: Event, n: nat) -> bool {
    &&& a.id@ == spec_alert_id(n)
    &&& a.severity == evt.status
    &&& a.agent_id == evt.agent_id
    &&& a.event == evt.event
    &&& a.message@ == if evt.message@.len() == 0 {
        "No message"@
    } else {
        evt.message@
    }
    &&& a.created_at == evt.received_at
}

/// The whole effect of appending `evt`: the event at the head of a
/// bounded `recent`; its agent and source rows created or advanced in
/// place; the token and cost totals raised by the event's contribution;
/// a fresh alert row at the head of a bounded `alerts` for a warning or
/// error, and the id sequence advanced exactly for that alert.
pub open spec fn append_effect(
    pre: State,
    post: State,
    evt: Event,
    pre_next: u64,
    post_next: u64,
) -> bool {
    &&& post.recent@ == (seq![evt] + pre.recent@).take(
        if pre.recent@.len() + 1 <= 200 {
            pre.recent@.len() as int + 1
        } else {
            200
        },
    )
    &&& if has_agent(pre.agents@, evt.agent_id@) {
        post.agents@ == pre.agents@.update(
            agent_idx(pre.agents@, evt.agent_id@),
            agent_updated(pre.agents@[agent_idx(pre.agents@, evt.agent_id@)], evt),
        )
    } else {
        post.agents@ == pre.agents@.push(agent_updated(agent_seeded(evt), evt))
    }
    &&& if has_source(pre.sources@, evt.metadata.source@) {
        post.sources@ == pre.sources@.update(
            source_idx(pre.sources@, evt.metadata.source@),
            source_updated(pre.sources@[source_idx(pre.sources@, evt.metadata.source@)], evt),
        )
    } else {
        post.sources@ == pre.sources@.push(source_updated(source_seeded(evt), evt))
    }
    &&& post.token_total as int == pre.token_total + evt.metadata.token_total
    &&& post.cost_total_micro as int == pre.cost_total_micro + applied_cost(evt)
    &&& post.cost_baseline_micro == pre.cost_baseline_micro
    &&& if evt.status is Okay {
        post.alerts@ == pre.alerts@ && post_next == pre_next
    } else {
        &&& post.alerts@.len() == if pre.alerts@.len() + 1 <= 120 {
            pre.alerts@.len() + 1
        } else {
            120
        }
        &&& alert_matches(post.alerts@[0], evt, pre_next as nat)
        &&& post.alerts@.skip(1) == pre.alerts@.take(post.alerts@.len() - 1)
        &&& post_next as int == pre_next + 1
    }
}

proof fn lemma_sum_tokens_nonneg(rows: Seq<AgentRow>)
    ensures
        sum_tokens(rows) >= 0,
        sum_cost(rows) >= 0,
    decreases rows.len(),
{
    if rows.len() > 0 {
        lemma_sum_tokens_nonneg(rows.drop_last());
    }
}

proof fn lemma_sum_elem(rows: Seq<AgentRow>, i: int)
    requires
        0 <= i < rows.len(),
    ensures
        rows[i].token_total <= sum_tokens(rows),
        rows[i].cost_micro_usd <= sum_cost(rows),
    decreases rows.len(),
{
    lemma_sum_tokens_nonneg(rows.drop_last());
    if i == rows.len() - 1 {
    } else {
        lemma_sum_elem(rows.drop_last(), i);
    }
}

proof fn lemma_sum_update(rows: Seq<AgentRow>, i: int, row: AgentRow)
    requires
        0 <= i < rows.len(),
    ensures
        sum_tokens(rows.update(i, row)) == sum_tokens(rows) - rows[i].token_total
            + row.token_total,
        sum_cost(rows.update(i, row)) == sum_cost(rows) - rows[i].cost_micro_usd
            + row.cost_micro_usd,
    decreases rows.len(),
{
    let u = rows.update(i, row);
    if i == rows.len() - 1 {
        assert(u.drop_last() =~= rows.drop_last());
        assert(u.last() == row);
    } else {
        assert(u.drop_last() =~= rows.drop_last().update(i, row));
        assert(u.last() == rows.last());
        lemma_sum_update(rows.drop_last(), i, row);
    }
}

proof fn lemma_sum_push(rows: Seq<AgentRow>, row: AgentRow)
    ensures
        sum_tokens(rows.push(row)) == sum_tokens(rows) + row.token_total,
        sum_cost(rows.push(row)) == sum_cost(rows) + row.cost_micro_usd,
{
    assert(rows.push(row).drop_last() =~= rows);
    assert(rows.push(row).last() == row);
}

/// Any row found to carry `id` stands at `agent_idx` when ids are unique.
proof fn lemma_agent_idx_is(rows: Seq<AgentRow>, id: Seq<char>, i: int)
    requires
        agents_distinct(rows),
        0 <= i < rows.len(),
        rows[i].agent_id@ == id,
    ensures
        has_agent(rows, id),
        agent_idx(rows, id) == i,
{
    assert(has_agent(rows, id));
    let k = agent_idx(rows, id);
    assert(0 <= k < rows.len() && rows[k].agent_id@ == id);
    if k < i {
        assert(rows[k].agent_id@ != rows[i].agent_id@);
    } else if i < k {
        assert(rows[i].agent_id@ != rows[k].agent_id@);
    }
}

/// Any row found to carry `name` stands at `source_idx` when names are
/// unique.
proof fn lemma_source_idx_is(rows: Seq<SourceRow>, name: Seq<char>, i: int)
    requires
        sources_distinct(rows),
        0 <= i < rows.len(),
        rows[i].source@ == name,
    ensures
        has_source(rows, name),
        source_idx(rows, name) == i,
{
    assert(has_source(rows, name));
    let k = source_idx(rows, name);
    assert(0 <= k < rows.len() && rows[k].source@ == name);
    if k < i {
        assert(rows[k].source@ != rows[i].source@);
    } else if i < k {
        assert(rows[i].source@ != rows[k].source@);
    }
}

impl State {
    /// Index of the agent row keyed by `id`, if any.
    #[verifier::loop_isolation(false)]
    pub fn find_agent(&self, id: &String) -> (r: Option<usize>)
        requires
            agents_distinct(self.agents@),
        ensures
            match r {
                Some(i) => {
                    &&& i < self.agents@.len()
                    &&& self.agents@[i as int].agent_id@ == id@
                    &&& has_agent(self.agents@, id@)
                    &&& agent_idx(self.agents@, id@) == i
                },
                None => !has_agent(self.agents@, id@),
            },
    {
        let n = self.agents.len();
        let mut i: usize = 0;
        while i < n
            invariant
                i <= n,
                n == self.agents@.len(),
                forall|j: int| 0 <= j < i ==> (#[trigger] self.agents@[j]).agent_id@ != id@,
            decreases n - i,
        {
            if self.agents[i].agent_id == *id {
                proof {
                    lemma_agent_idx_is(self.agents@, id@, i as int);
                }
                return Some(i);
            }
            i += 1;
        }
        None
    }

    /// Index of the source row keyed by `name`, if any.
    #[verifier::loop_isolation(false)]
    pub fn find_source(&self, name: &String) -> (r: Option<usize>)
        requires
            sources_distinct(self.sources@),
        ensures
            match r {
                Some(i) => {
                    &&& i < self.sources@.len()
                    &&& self.sources@[i as int].source@ == name@
                    &&& has_source(self.sources@, name@)
                    &&& source_idx(self.sources@, name@) == i
                },
                None => !has_source(self.sources@, name@),
            },
    {
        let n = self.sources.len();
        let mut i: usize = 0;
        while i < n
            invariant
                i <= n,
                n == self.sources@.len(),
                forall|j: int| 0 <= j < i ==> (#[trigger] self.sources@[j]).source@ != name@,
            decreases n - i,
        {
            if self.sources[i].source == *name {
                proof {
                    lemma_source_idx_is(self.sources@, name@, i as int);
                }
                return Some(i);
            }
            i += 1;
        }
        None
    }
}

/// Whether `evt` contributes its cost delta (kind `cost_update`).
fn is_cost_update(evt: &Event) -> (r: bool)
    ensures
        r == (evt.event@ == "cost_update"@),
{
    let word = String::from_str("cost_update");
    evt.event == word
}

/// `row` after counting `evt` into it.
fn updated_agent_exec(row: &AgentRow, evt: &Event) -> (r: AgentRow)
    requires
        row.wf(),
        row.total < u64::MAX,
        row.token_total + evt.metadata.token_total <= u64::MAX,
        row.cost_micro_usd + applied_cost(*evt) <= u64::MAX,
    ensures
        r == agent_updated(*row, *evt),
{
    let delta = if is_cost_update(evt) {
        evt.metadata.cost_delta_micro
    } else {
        0
    };
    AgentRow {
        agent_id: row.agent_id.clone(),
        last_seen: evt.received_at.clone(),
        total: row.total + 1,
        ok: if matches!(evt.status, Status::Okay) {
            row.ok + 1
        } else {
            row.ok
        },
        warning: if matches!(evt.status, Status::Warning) {
            row.warning + 1
        } else {
            row.warning
        },
        error: if matches!(evt.status, Status::Error) {
            row.error + 1
        } else {
            row.error
        },
        token_total: row.token_total + evt.metadata.token_total,
        cost_micro_usd: row.cost_micro_usd + delta,
        last_event: evt.event.clone(),
        latency_ms: evt.latency_ms,
    }
}

/// `row` after counting `evt` into it.
fn updated_source_exec(row: &SourceRow, evt: &Event) -> (r: SourceRow)
    requires
        row.wf(),
        row.total < u64::MAX,
    ensures
        r == source_updated(*row, *evt),
{
    SourceRow {
        source: row.source.clone(),
        total: row.total + 1,
        ok: if matches!(evt.status, Status::Okay) {
            row.ok + 1
        } else {
            row.ok
        },
        warning: if matches!(evt.status, Status::Warning) {
            row.warning + 1
        } else {
            row.warning
        },
        error: if matches!(evt.status, Status::Error) {
            row.error + 1
        } else {
            row.error
        },
        last_seen: evt.received_at.clone(),
    }
}

/// A fresh agent row for `evt`, already counting it.
fn new_agent_exec(evt: &Event) -> (r: AgentRow)
    ensures
        r == agent_updated(agent_seeded(*evt), *evt),
{
    let delta = if is_cost_update(evt) {
        evt.metadata.cost_delta_micro
    } else {
        0
    };
    AgentRow {
        agent_id: evt.agent_id.clone(),
        last_seen: evt.received_at.clone(),
        total: 1,
        ok: if matches!(evt.status, Status::Okay) {
            1
        } else {
            0
        },
        warning: if matches!(evt.status, Status::Warning) {
            1
        } else {
            0
        },
        error: if matches!(evt.status, Status::Error) {
            1
        } else {
            0
        },
        token_total: evt.metadata.token_total,
        cost_micro_usd: delta,
        last_event: evt.event.clone(),
        latency_ms: evt.latency_ms,
    }
}

/// A fresh source row for `evt`, already counting it.
fn new_source_exec(evt: &Event) -> (r: SourceRow)
    ensures
        r == source_updated(source_seeded(*evt), *evt),
{
    SourceRow {
        source: evt.metadata.source.clone(),
        total: 1,
        ok: if matches!(evt.status, Status::Okay) {
            1
        } else {
            0
        },
        warning: if matches!(evt.status, Status::Warning) {
            1
        } else {
            0
        },
        error: if matches!(evt.status, Status::Error) {
            1
        } else {
            0
        },
        last_seen: evt.received_at.clone(),
    }
}

impl State {
    /// Append one normalized event under the state lock: put it at the
    /// head of `recent`, count it into its agent and source rows, raise
    /// the token and cost totals, and derive an alert row for a warning
    /// or error.
    #[verifier::loop_isolation(false)]
    pub fn append_event(&mut self, evt: Event, ids: &mut IdCounter)
        requires
            old(self).wf(),
            old(ids).next < u64::MAX,
            old(self).token_total + evt.metadata.token_total <= u64::MAX,
            old(self).cost_total_micro + applied_cost(evt) <= u64::MAX,
            old(self).agent_total_of(evt.agent_id@) < u64::MAX,
            old(self).source_total_of(evt.metadata.source@) < u64::MAX,
        ensures
            final(self).wf(),
            append_effect(*old(self), *final(self), evt, old(ids).next, final(ids).next),
            final(self).recent@.len() <= 200,
            final(self).recent@[0] == evt,
            final(self).alerts@.len() <= 120,
            final(self).cost_total_micro >= old(self).cost_total_micro,
            !(evt.status is Okay) ==> final(self).alerts@.len() >= 1 && alert_matches(
                final(self).alerts@[0],
                evt,
                old(ids).next as nat,
            ),
    {
        let ghost pre = *self;

        // recent: insert at the head, cut the tail to 200
        self.recent.insert(0, evt.duplicate());
        if self.recent.len() > 200 {
            self.recent.truncate(200);
        }
        proof {
            if pre.recent@.len() + 1 <= 200 {
                assert(self.recent@ =~= (seq![evt] + pre.recent@).take(
                    pre.recent@.len() as int + 1,
                ));
            } else {
                assert(self.recent@ =~= (seq![evt] + pre.recent@).take(200));
            }
        }

        // agent row: advance in place or create
        let tokens = evt.metadata.token_total;
        let delta = if is_cost_update(&evt) {
            evt.metadata.cost_delta_micro
        } else {
            0
        };
        match self.find_agent(&evt.agent_id) {
            Some(i) => {
                proof {
                    lemma_sum_elem(self.agents@, i as int);
                    lemma_sum_update(
                        self.agents@,
                        i as int,
                        agent_updated(self.agents@[i as int], evt),
                    );
                }
                let row = updated_agent_exec(&self.agents[i], &evt);
                self.agents.set(i, row);
            },
            None => {
                proof {
                    lemma_sum_push(self.agents@, agent_updated(agent_seeded(evt), evt));
                    lemma_sum_tokens_nonneg(self.agents@);
                }
                let row = new_agent_exec(&evt);
                self.agents.push(row);
            },
        }
        self.token_total = self.token_total + tokens;
        self.cost_total_micro = self.cost_total_micro + delta;

        // source row: advance in place or create
        match self.find_source(&evt.metadata.source) {
            Some(i) => {
                let row = updated_source_exec(&self.sources[i], &evt);
                self.sources.set(i, row);
            },
            None => {
                let row = new_source_exec(&evt);
                self.sources.push(row);
            },
        }

        // alert row for a warning or error
        if !matches!(evt.status, Status::Okay) {
            let n = ids.take();
            let message = if evt.message.as_str().is_empty() {
                String::from_str("No message")
            } else {
                evt.message.clone()
            };
            let alert = AlertRow {
                id: alert_id(n),
                severity: evt.status,
                agent_id: evt.agent_id.clone(),
                event: evt.event.clone(),
                message,
                created_at: evt.received_at.clone(),
            };
            self.alerts.insert(0, alert);
            if self.alerts.len() > 120 {
                self.alerts.truncate(120);
            }
            proof {
                assert(self.alerts@.skip(1) =~= pre.alerts@.take(
                    self.alerts@.len() - 1,
                ));
            }
        }
    }
}

/// The cost total rises by exactly the event's applied delta — the
/// extracted `costDelta` for kind `cost_update`, nothing otherwise — so
/// it never falls across any sequence of appends.
pub proof fn lemma_cost_monotonic(pre: State, post: State, evt: Event, pre_next: u64, post_next: u64)
    requires
        append_effect(pre, post, evt, pre_next, post_next),
    ensures
        post.cost_total_micro as int == pre.cost_total_micro + applied_cost(evt),
        post.cost_total_micro >= pre.cost_total_micro,
{
}

/// The appended event stands at the head of `recent`, which is the old
/// buffer shifted down and cut to 200 — newest first, never more.
pub proof fn lemma_recent_bound(pre: State, post: State, evt: Event, pre_next: u64, post_next: u64)
    requires
        append_effect(pre, post, evt, pre_next, post_next),
    ensures
        post.recent@.len() >= 1,
        post.recent@.len() <= 200,
        post.recent@[0] == evt,
        post.recent@ == (seq![evt] + pre.recent@).take(
            if pre.recent@.len() + 1 <= 200 {
                pre.recent@.len() as int + 1
            } else {
                200
            },
        ),
{
}

/// A warning or error derives exactly one alert at the head — a fresh
/// id from the shared sequence, the event's severity, agent, kind and
/// receive time, an empty message substituted — with the old alerts
/// behind it cut to 120; an ok append leaves the alerts untouched.
pub proof fn lemma_alert_derivation(
    pre: State,
    post: State,
    evt: Event,
    pre_next: u64,
    post_next: u64,
)
    requires
        append_effect(pre, post, evt, pre_next, post_next),
    ensures
        !(evt.status is Okay) ==> post.alerts@.len() >= 1 && post.alerts@.len() <= 120
            && alert_matches(
            post.alerts@[0],
            evt,
            pre_next as nat,
        ) && post.alerts@.skip(1) == pre.alerts@.take(post.alerts@.len() - 1) && post_next as int
            == pre_next + 1,
        evt.status is Okay ==> post.alerts@ == pre.alerts@ && post_next == pre_next,
{
}

/// Every row of a well-formed store balances: the three status buckets
/// partition the row's total, for agents and for sources alike.
pub proof fn lemma_row_sums(s: State)
    requires
        s.wf(),
    ensures
        forall|i: int|
            0 <= i < s.agents@.len() ==> (#[trigger] s.agents@[i]).total as int
                == s.agents@[i].ok as int + s.agents@[i].warning as int + s.agents@[i].error as int,
        forall|i: int|
            0 <= i < s.sources@.len() ==> (#[trigger] s.sources@[i]).total as int
                == s.sources@[i].ok as int + s.sources@[i].warning as int
                + s.sources@[i].error as int,
{
}

impl State {
    /// Seed the cost total once at startup from the stats cache, before
    /// any event has been counted.
    pub fn seed_cost_baseline(&mut self, micro: u64)
        requires
            old(self).wf(),
            old(self).agents@.len() == 0,
        ensures
            final(self).wf(),
            final(self).cost_total_micro == micro,
            final(self).cost_baseline_micro == micro,
            final(self).recent == old(self).recent,
            final(self).alerts == old(self).alerts,
            final(self).agents == old(self).agents,
            final(self).sources == old(self).sources,
            final(self).token_total == old(self).token_total,
    {
        self.cost_baseline_micro = micro;
        self.cost_total_micro = micro;
    }
}

impl State {
    /// Append `evt` when every counter has room, as `append_event` does;
    /// drop it (leaving the store and the id sequence unchanged) when a
    /// counter or the id sequence would run over — the one case the
    /// contract of `append_event` leaves out.
    pub fn try_append_event(&mut self, evt: Event, ids: &mut IdCounter) -> (r: bool)
        requires
            old(self).wf(),
        ensures
            final(self).wf(),
            r == (old(ids).next < u64::MAX && old(self).token_total + evt.metadata.token_total
                <= u64::MAX && old(self).cost_total_micro + applied_cost(evt) <= u64::MAX && old(
                self,
            ).agent_total_of(evt.agent_id@) < u64::MAX && old(self).source_total_of(
                evt.metadata.source@,
            ) < u64::MAX),
            r ==> append_effect(*old(self), *final(self), evt, old(ids).next, final(ids).next),
            r ==> final(self).recent@.len() >= 1 && final(self).recent@[0] == evt,
            !r ==> *final(self) == *old(self) && *final(ids) == *old(ids),
            final(self).cost_total_micro >= old(self).cost_total_micro,
    {
        if ids.next == u64::MAX {
            return false;
        }
        if self.token_total > u64::MAX - evt.metadata.token_total {
            return false;
        }
        let delta = if is_cost_update(&evt) {
            evt.metadata.cost_delta_micro
        } else {
            0
        };
        if self.cost_total_micro > u64::MAX - delta {
            return false;
        }
        let agent_room = match self.find_agent(&evt.agent_id) {
            Some(i) => self.agents[i].total < u64::MAX,
            None => true,
        };
        if !agent_room {
            return false;
        }
        let source_room = match self.find_source(&evt.metadata.source) {
            Some(i) => self.sources[i].total < u64::MAX,
            None => true,
        };
        if !source_room {
            return false;
        }
        self.append_event(evt, ids);
        true
    }
}

} // verus!
