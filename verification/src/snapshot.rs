//! The dashboard view: agents and sources sorted by key, derived totals,
//! bounded copies of the recent and alert buffers, and the workflow list.

use vstd::prelude::*;
use vstd::string::{StrSliceExecFns, StringExecFns};

use crate::event::{AgentRow, AlertRow, Event, SourceRow, WorkflowRow};
use crate::store::{agents_distinct, agent_idx, append_effect, has_agent, sum_tokens, State};

verus! {

broadcast use vstd::seq_lib::group_to_multiset_ensures;

/// Code-point-wise lexicographic order on text.
pub open spec fn lex_le_chars(a: Seq<char>, b: Seq<char>) -> bool
    decreases a.len(),
{
    if a.len() == 0 {
        true
    } else if b.len() == 0 {
        false
    } else if (a[0] as int) < (b[0] as int) {
        true
    } else if (a[0] as int) > (b[0] as int) {
        false
    } else {
        lex_le_chars(a.drop_first(), b.drop_first())
    }
}

pub proof fn lemma_lex_le_refl(a: Seq<char>)
    ensures
        lex_le_chars(a, a),
{
    lemma_lex_le_total(a, a);
}

pub proof fn lemma_lex_le_total(a: Seq<char>, b: Seq<char>)
    ensures
        lex_le_chars(a, b) || lex_le_chars(b, a),
    decreases a.len(),
{
    if a.len() > 0 && b.len() > 0 && a[0] == b[0] {
        lemma_lex_le_total(a.drop_first(), b.drop_first());
    }
}

/// How a comparison loop that has matched the first `i` code points
/// decides the order.
proof fn lemma_lex_le_step(a: Seq<char>, b: Seq<char>, i: int)
    requires
        0 <= i <= a.len(),
        i <= b.len(),
        forall|j: int| 0 <= j < i ==> a[j] == b[j],
    ensures
        i == a.len() ==> lex_le_chars(a, b),
        i < a.len() && i == b.len() ==> !lex_le_chars(a, b),
        i < a.len() && i < b.len() && (a[i] as int) < (b[i] as int) ==> lex_le_chars(a, b),
        i < a.len() && i < b.len() && (a[i] as int) > (b[i] as int) ==> !lex_le_chars(a, b),
    decreases a.len(),
{
    if i > 0 {
        assert(a[0] == b[0]);
        let at = a.drop_first();
        let bt = b.drop_first();
        assert(forall|j: int| 0 <= j < i - 1 ==> at[j] == bt[j]);
        lemma_lex_le_step(at, bt, i - 1);
    }
}

/// Decide `lex_le_chars(a@, b@)`.
#[verifier::loop_isolation(false)]
pub fn str_le(a: &str, b: &str) -> (r: bool)
    ensures
        r == lex_le_chars(a@, b@),
{
    let la = a.unicode_len();
    let lb = b.unicode_len();
    let mut i: usize = 0;
    while i < la && i < lb
        invariant
            i <= la,
            i <= lb,
            forall|j: int| 0 <= j < i ==> a@[j] == b@[j],
        decreases la - i,
    {
        let ca = a.get_char(i);
        let cb = b.get_char(i);
        if (ca as u32) < (cb as u32) {
            proof {
                lemma_lex_le_step(a@, b@, i as int);
            }
            return true;
        }
        if (ca as u32) > (cb as u32) {
            proof {
                lemma_lex_le_step(a@, b@, i as int);
            }
            return false;
        }
        proof {
            assert(a@[i as int] == b@[i as int]);
        }
        i += 1;
    }
    proof {
        lemma_lex_le_step(a@, b@, i as int);
    }
    la <= lb
}

/// Agent rows in ascending agent-id order.
pub open spec fn agents_sorted(rows: Seq<AgentRow>) -> bool {
    forall|i: int, j: int|
        #![trigger rows[i], rows[j]]
        0 <= i < j < rows.len() ==> lex_le_chars(rows[i].agent_id@, rows[j].agent_id@)
}

/// Source rows in ascending name order.
pub open spec fn sources_sorted(rows: Seq<SourceRow>) -> bool {
    forall|i: int, j: int|
        #![trigger rows[i], rows[j]]
        0 <= i < j < rows.len() ==> lex_le_chars(rows[i].source@, rows[j].source@)
}

/// Sort agent rows ascending by agent id; the rows themselves are kept
/// (same multiset).
#[verifier::loop_isolation(false)]
fn sort_agents(input: Vec<AgentRow>) -> (out: Vec<AgentRow>)
    ensures
        out@.to_multiset() == input@.to_multiset(),
        agents_sorted(out@),
{
    let ghost orig = input@.to_multiset();
    let mut rest = input;
    let mut out: Vec<AgentRow> = Vec::new();
    while rest.len() > 0
        invariant
            out@.to_multiset().add(rest@.to_multiset()) == orig,
            agents_sorted(out@),
            forall|i: int, j: int|
                #![trigger out@[i], rest@[j]]
                0 <= i < out@.len() && 0 <= j < rest@.len() ==> lex_le_chars(
                    out@[i].agent_id@,
                    rest@[j].agent_id@,
                ),
        decreases rest@.len(),
    {
        // index of a least remaining row
        let mut m: usize = 0;
        let mut k: usize = 1;
        proof {
            lemma_lex_le_refl(rest@[0].agent_id@);
        }
        while k < rest.len()
            invariant
                m < k <= rest@.len(),
                forall|j: int| 0 <= j < k ==> lex_le_chars(
                    rest@[m as int].agent_id@,
                    (#[trigger] rest@[j]).agent_id@,
                ),
            decreases rest@.len() - k,
        {
            if !str_le(rest[m].agent_id.as_str(), rest[k].agent_id.as_str()) {
                proof {
                    lemma_lex_le_total(rest@[m as int].agent_id@, rest@[k as int].agent_id@);
                    assert forall|j: int| 0 <= j < k + 1 implies lex_le_chars(
                        rest@[k as int].agent_id@,
                        (#[trigger] rest@[j]).agent_id@,
                    ) by {
                        if j < k {
                            lemma_lex_le_trans(
                                rest@[k as int].agent_id@,
                                rest@[m as int].agent_id@,
                                rest@[j].agent_id@,
                            );
                        } else {
                            lemma_lex_le_total(rest@[k as int].agent_id@, rest@[k as int].agent_id@);
                        }
                    }
                }
                m = k;
            }
            k += 1;
        }
        let ghost pre_rest = rest@;
        let ghost pre_out = out@;
        let row = rest.remove(m);
        out.push(row);
        proof {
            assert(out@.to_multiset() =~= pre_out.to_multiset().insert(row));
            assert(rest@.to_multiset() =~= pre_rest.to_multiset().remove(row));
            assert(out@.to_multiset().add(rest@.to_multiset()) =~= orig);
            assert(forall|j: int|
                0 <= j < rest@.len() ==> #[trigger] rest@[j] == if j < m {
                    pre_rest[j]
                } else {
                    pre_rest[j + 1]
                });
        }
    }
    out
}

pub proof fn lemma_lex_le_trans(a: Seq<char>, b: Seq<char>, c: Seq<char>)
    requires
        lex_le_chars(a, b),
        lex_le_chars(b, c),
    ensures
        lex_le_chars(a, c),
    decreases a.len(),
{
    if a.len() > 0 && b.len() > 0 && c.len() > 0 && a[0] == b[0] && b[0] == c[0] {
        lemma_lex_le_trans(a.drop_first(), b.drop_first(), c.drop_first());
    }
}

/// Sort source rows ascending by name; the rows themselves are kept.
#[verifier::loop_isolation(false)]
fn sort_sources(input: Vec<SourceRow>) -> (out: Vec<SourceRow>)
    ensures
        out@.to_multiset() == input@.to_multiset(),
        sources_sorted(out@),
{
    let ghost orig = input@.to_multiset();
    let mut rest = input;
    let mut out: Vec<SourceRow> = Vec::new();
    while rest.len() > 0
        invariant
            out@.to_multiset().add(rest@.to_multiset()) == orig,
            sources_sorted(out@),
            forall|i: int, j: int|
                #![trigger out@[i], rest@[j]]
                0 <= i < out@.len() && 0 <= j < rest@.len() ==> lex_le_chars(
                    out@[i].source@,
                    rest@[j].source@,
                ),
        decreases rest@.len(),
    {
        let mut m: usize = 0;
        let mut k: usize = 1;
        proof {
            lemma_lex_le_refl(rest@[0].source@);
        }
        while k < rest.len()
            invariant
                m < k <= rest@.len(),
                forall|j: int| 0 <= j < k ==> lex_le_chars(
                    rest@[m as int].source@,
                    (#[trigger] rest@[j]).source@,
                ),
            decreases rest@.len() - k,
        {
            if !str_le(rest[m].source.as_str(), rest[k].source.as_str()) {
                proof {
                    lemma_lex_le_total(rest@[m as int].source@, rest@[k as int].source@);
                    assert forall|j: int| 0 <= j < k + 1 implies lex_le_chars(
                        rest@[k as int].source@,
                        (#[trigger] rest@[j]).source@,
                    ) by {
                        if j < k {
                            lemma_lex_le_trans(
                                rest@[k as int].source@,
                                rest@[m as int].source@,
                                rest@[j].source@,
                            );
                        } else {
                            lemma_lex_le_total(rest@[k as int].source@, rest@[k as int].source@);
                        }
                    }
                }
                m = k;
            }
            k += 1;
        }
        let ghost pre_rest = rest@;
        let ghost pre_out = out@;
        let row = rest.remove(m);
        out.push(row);
        proof {
            assert(out@.to_multiset() =~= pre_out.to_multiset().insert(row));
            assert(rest@.to_multiset() =~= pre_rest.to_multiset().remove(row));
            assert(out@.to_multiset().add(rest@.to_multiset()) =~= orig);
            assert(forall|j: int|
                0 <= j < rest@.len() ==> #[trigger] rest@[j] == if j < m {
                    pre_rest[j]
                } else {
                    pre_rest[j + 1]
                });
        }
    }
    out
}

/// Derived sums of the agent rows: (total, ok, warning, error).
pub open spec fn sum_buckets(rows: Seq<AgentRow>) -> (int, int, int, int)
    decreases rows.len(),
{
    if rows.len() == 0 {
        (0, 0, 0, 0)
    } else {
        let rest = sum_buckets(rows.drop_last());
        (
            rest.0 + rows.last().total,
            rest.1 + rows.last().ok,
            rest.2 + rows.last().warning,
            rest.3 + rows.last().error,
        )
    }
}

/// `x` held to the range of a 64-bit counter.
pub open spec fn capped(x: int) -> int {
    if x > u64::MAX {
        u64::MAX as int
    } else {
        x
    }
}

/// The derived totals block of a snapshot.
pub struct Totals {
    pub agents: usize,
    pub total: u64,
    pub ok: u64,
    pub warning: u64,
    pub error: u64,
    pub token_total: u64,
    pub cost_total_micro: u64,
}

/// The dashboard payload, derived from the store.
pub struct Snapshot {
    pub generated_at: String,
    pub totals: Totals,
    pub agents: Vec<AgentRow>,
    pub sources: Vec<SourceRow>,
    pub recent: Vec<Event>,
    pub alerts: Vec<AlertRow>,
    pub workflow_progress: Vec<WorkflowRow>,
}

/// The workflow status word of an agent row: `blocked` over `at-risk`
/// over `running` over `idle`.
pub open spec fn spec_workflow_status(row: AgentRow) -> Seq<char> {
    if row.error > 0 {
        "blocked"@
    } else if row.warning > 0 {
        "at-risk"@
    } else if row.total > 0 {
        "running"@
    } else {
        "idle"@
    }
}

/// `w` is the workflow row derived from the present agent row `row`.
pub open spec fn workflow_of(row: AgentRow, w: WorkflowRow) -> bool {
    &&& w.role_id == row.agent_id
    &&& w.active == true
    &&& w.status@ == spec_workflow_status(row)
    &&& w.total == row.total
    &&& w.last_event == row.last_event
    &&& w.last_seen == Some(row.last_seen)
}

/// `w` is the workflow row for a role that has no agent row.
pub open spec fn workflow_absent(role_id: Seq<char>, w: WorkflowRow) -> bool {
    &&& w.role_id@ == role_id
    &&& w.active == false
    &&& w.status@ == "idle"@
    &&& w.total == 0
    &&& w.last_event@ == "-"@
    &&& w.last_seen is None
}

/// The workflow row of a present agent row.
fn workflow_row_of(row: &AgentRow) -> (w: WorkflowRow)
    ensures
        workflow_of(*row, w),
{
    let status = if row.error > 0 {
        String::from_str("blocked")
    } else if row.warning > 0 {
        String::from_str("at-risk")
    } else if row.total > 0 {
        String::from_str("running")
    } else {
        String::from_str("idle")
    };
    WorkflowRow {
        role_id: row.agent_id.clone(),
        active: true,
        status,
        total: row.total,
        last_event: row.last_event.clone(),
        last_seen: Some(row.last_seen.clone()),
    }
}

/// The workflow row for `role_id`: derived from its agent row when one
/// exists, otherwise the inactive idle row.
pub fn workflow_row(state: &State, role_id: &str) -> (w: WorkflowRow)
    requires
        agents_distinct(state.agents@),
    ensures
        has_agent(state.agents@, role_id@) ==> workflow_of(
            state.agents@[agent_idx(state.agents@, role_id@)],
            w,
        ),
        !has_agent(state.agents@, role_id@) ==> workflow_absent(role_id@, w),
{
    let id = role_id.to_owned();
    match state.find_agent(&id) {
        Some(i) => workflow_row_of(&state.agents[i]),
        None => WorkflowRow {
            role_id: id,
            active: false,
            status: String::from_str("idle"),
            total: 0,
            last_event: String::from_str("-"),
            last_seen: None,
        },
    }
}

/// `snap` is a faithful view of `state`: sorted copies of the agent and
/// source rows, the first 300 recent events and first 20 alerts, totals
/// summed over the agent rows (held to the counter range), and one
/// workflow row per agent row, in the same sorted order.
pub open spec fn snapshot_of(state: State, snap: Snapshot) -> bool {
    &&& snap.agents@.to_multiset() == state.agents@.to_multiset()
    &&& agents_sorted(snap.agents@)
    &&& snap.sources@.to_multiset() == state.sources@.to_multiset()
    &&& sources_sorted(snap.sources@)
    &&& snap.recent@ == state.recent@.take(
        if state.recent@.len() <= 300 {
            state.recent@.len() as int
        } else {
            300
        },
    )
    &&& snap.alerts@ == state.alerts@.take(
        if state.alerts@.len() <= 20 {
            state.alerts@.len() as int
        } else {
            20
        },
    )
    &&& snap.totals.agents == state.agents@.len()
    &&& snap.totals.total as int == capped(sum_buckets(state.agents@).0)
    &&& snap.totals.ok as int == capped(sum_buckets(state.agents@).1)
    &&& snap.totals.warning as int == capped(sum_buckets(state.agents@).2)
    &&& snap.totals.error as int == capped(sum_buckets(state.agents@).3)
    &&& snap.totals.token_total as int == capped(sum_tokens(state.agents@))
    &&& snap.totals.cost_total_micro == state.cost_total_micro
    &&& snap.workflow_progress@.len() == snap.agents@.len()
    &&& forall|i: int|
        0 <= i < snap.agents@.len() ==> workflow_of(
            snap.agents@[i],
            #[trigger] snap.workflow_progress@[i],
        )
}

/// Build the dashboard payload from the store.
#[verifier::loop_isolation(false)]
pub fn build_snapshot(state: &State, generated_at: String) -> (snap: Snapshot)
    ensures
        snapshot_of(*state, snap),
        snap.generated_at == generated_at,
{
    // sorted copies of the rows
    let mut agent_copy: Vec<AgentRow> = Vec::new();
    let mut i: usize = 0;
    while i < state.agents.len()
        invariant
            i <= state.agents@.len(),
            agent_copy@ == state.agents@.take(i as int),
        decreases state.agents@.len() - i,
    {
        agent_copy.push(state.agents[i].duplicate());
        proof {
            assert(agent_copy@ =~= state.agents@.take(i as int + 1));
        }
        i += 1;
    }
    proof {
        assert(state.agents@.take(state.agents@.len() as int) =~= state.agents@);
    }
    let agents = sort_agents(agent_copy);

    let mut source_copy: Vec<SourceRow> = Vec::new();
    let mut i: usize = 0;
    while i < state.sources.len()
        invariant
            i <= state.sources@.len(),
            source_copy@ == state.sources@.take(i as int),
        decreases state.sources@.len() - i,
    {
        source_copy.push(state.sources[i].duplicate());
        proof {
            assert(source_copy@ =~= state.sources@.take(i as int + 1));
        }
        i += 1;
    }
    proof {
        assert(state.sources@.take(state.sources@.len() as int) =~= state.sources@);
    }
    let sources = sort_sources(source_copy);

    // totals over the stored agent rows
    let mut total: u64 = 0;
    let mut ok: u64 = 0;
    let mut warning: u64 = 0;
    let mut error: u64 = 0;
    let mut token_total: u64 = 0;
    let mut i: usize = 0;
    while i < state.agents.len()
        invariant
            i <= state.agents@.len(),
            total as int == capped(sum_buckets(state.agents@.take(i as int)).0),
            ok as int == capped(sum_buckets(state.agents@.take(i as int)).1),
            warning as int == capped(sum_buckets(state.agents@.take(i as int)).2),
            error as int == capped(sum_buckets(state.agents@.take(i as int)).3),
            token_total as int == capped(sum_tokens(state.agents@.take(i as int))),
        decreases state.agents@.len() - i,
    {
        let row = &state.agents[i];
        proof {
            assert(state.agents@.take(i as int + 1).drop_last() =~= state.agents@.take(i as int));
            assert(state.agents@.take(i as int + 1).last() == state.agents@[i as int]);
        }
        total = total.saturating_add(row.total);
        ok = ok.saturating_add(row.ok);
        warning = warning.saturating_add(row.warning);
        error = error.saturating_add(row.error);
        token_total = token_total.saturating_add(row.token_total);
        i += 1;
    }
    proof {
        assert(state.agents@.take(state.agents@.len() as int) =~= state.agents@);
    }

    // bounded copies of the buffers
    let recent_n = if state.recent.len() <= 300 {
        state.recent.len()
    } else {
        300
    };
    let mut recent: Vec<Event> = Vec::new();
    let mut i: usize = 0;
    while i < recent_n
        invariant
            i <= recent_n,
            recent@ == state.recent@.take(i as int),
        decreases recent_n - i,
    {
        recent.push(state.recent[i].duplicate());
        proof {
            assert(recent@ =~= state.recent@.take(i as int + 1));
        }
        i += 1;
    }
    let alerts_n = if state.alerts.len() <= 20 {
        state.alerts.len()
    } else {
        20
    };
    let mut alerts: Vec<AlertRow> = Vec::new();
    let mut i: usize = 0;
    while i < alerts_n
        invariant
            i <= alerts_n,
            alerts@ == state.alerts@.take(i as int),
        decreases alerts_n - i,
    {
        alerts.push(state.alerts[i].duplicate());
        proof {
            assert(alerts@ =~= state.alerts@.take(i as int + 1));
        }
        i += 1;
    }

    // one workflow row per agent row, in sorted order
    let mut workflow_progress: Vec<WorkflowRow> = Vec::new();
    let mut i: usize = 0;
    while i < agents.len()
        invariant
            i <= agents@.len(),
            workflow_progress@.len() == i,
            forall|j: int|
                0 <= j < i ==> workflow_of(agents@[j], #[trigger] workflow_progress@[j]),
        decreases agents@.len() - i,
    {
        workflow_progress.push(workflow_row_of(&agents[i]));
        i += 1;
    }

    Snapshot {
        generated_at,
        totals: Totals {
            agents: state.agents.len(),
            total,
            ok,
            warning,
            error,
            token_total,
            cost_total_micro: state.cost_total_micro,
        },
        agents,
        sources,
        recent,
        alerts,
        workflow_progress,
    }
}

} // verus!

verus! {

/// An appended event is visible to a reader right away: the head of
/// `recent` in any snapshot built from the new store is that event.
pub proof fn lemma_pushed_event_visible(
    pre: State,
    post: State,
    evt: Event,
    pre_next: u64,
    post_next: u64,
    snap: Snapshot,
)
    requires
        append_effect(pre, post, evt, pre_next, post_next),
        snapshot_of(post, snap),
    ensures
        snap.recent@.len() >= 1,
        snap.recent@[0] == evt,
{
    assert(post.recent@[0] == evt);
}

} // verus!
