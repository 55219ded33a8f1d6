//! Verified JSON writing for the wire format: string escaping, number
//! text, and the fixed object shapes the server emits.

use vstd::prelude::*;
use vstd::string::{StrSliceExecFns, StringExecFns};

use crate::event::{AgentRow, AlertRow, Event, SourceRow, WorkflowRow};
use crate::snapshot::Snapshot;
use crate::text::{dec_str, micro_text, micro_to_text, u64_to_dec};

verus! {

/// Hex digit character of `d` (meaningful for `0 <= d <= 15`).
pub open spec fn hex_char(d: int) -> char {
    if d < 10 {
        crate::text::digit_char(d)
    } else if d == 10 {
        'a'
    } else if d == 11 {
        'b'
    } else if d == 12 {
        'c'
    } else if d == 13 {
        'd'
    } else if d == 14 {
        'e'
    } else {
        'f'
    }
}

/// The JSON escape of one character: the two-character escapes for the
/// quote, backslash and common control characters, `\u00XX` for the
/// remaining control characters, the character itself otherwise.
pub open spec fn esc_char(c: char) -> Seq<char> {
    if c == '"' {
        seq!['\\', '"']
    } else if c == '\\' {
        seq!['\\', '\\']
    } else if c == '\n' {
        seq!['\\', 'n']
    } else if c == '\r' {
        seq!['\\', 'r']
    } else if c == '\t' {
        seq!['\\', 't']
    } else if c as int == 8 {
        seq!['\\', 'b']
    } else if c as int == 12 {
        seq!['\\', 'f']
    } else if (c as int) < 32 {
        seq!['\\', 'u', '0', '0', hex_char(c as int / 16), hex_char(c as int % 16)]
    } else {
        seq![c]
    }
}

/// The body of the JSON string literal for `s`.
pub open spec fn json_escaped(s: Seq<char>) -> Seq<char>
    decreases s.len(),
{
    if s.len() == 0 {
        Seq::empty()
    } else {
        json_escaped(s.drop_last()) + esc_char(s.last())
    }
}

/// The JSON string literal for `s`, quotes included.
pub open spec fn json_quoted(s: Seq<char>) -> Seq<char> {
    seq!['"'] + json_escaped(s) + seq!['"']
}

fn hex_str(d: u32) -> (r: &'static str)
    requires
        d < 16,
    ensures
        r@ =~= seq![hex_char(d as int)],
{
    proof {
        reveal_strlit("a");
        reveal_strlit("b");
        reveal_strlit("c");
        reveal_strlit("d");
        reveal_strlit("e");
        reveal_strlit("f");
    }
    if d < 10 {
        crate::text::digit_str(d as u64)
    } else {
        match d {
            10 => "a",
            11 => "b",
            12 => "c",
            13 => "d",
            14 => "e",
            _ => "f",
        }
    }
}

/// Append the JSON escape of the characters of `s` to `out`.
#[verifier::loop_isolation(false)]
fn append_escaped(out: &mut String, s: &str)
    ensures
        final(out)@ == old(out)@ + json_escaped(s@),
{
    let n = s.unicode_len();
    let mut i: usize = 0;
    proof {
        assert(old(out)@ + json_escaped(s@.take(0)) =~= old(out)@);
    }
    while i < n
        invariant
            i <= n,
            n == s@.len(),
            out@ == old(out)@ + json_escaped(s@.take(i as int)),
        decreases n - i,
    {
        let c = s.get_char(i);
        proof {
            assert(s@.take(i as int + 1).drop_last() =~= s@.take(i as int));
            assert(s@.take(i as int + 1).last() == s@[i as int]);
            reveal_strlit("\\\"");
            reveal_strlit("\\\\");
            reveal_strlit("\\n");
            reveal_strlit("\\r");
            reveal_strlit("\\t");
            reveal_strlit("\\b");
            reveal_strlit("\\f");
            reveal_strlit("\\u00");
        }
        let cu = c as u32;
        if c == '"' {
            out.append("\\\"");
        } else if c == '\\' {
            out.append("\\\\");
        } else if c == '\n' {
            out.append("\\n");
        } else if c == '\r' {
            out.append("\\r");
        } else if c == '\t' {
            out.append("\\t");
        } else if cu == 8 {
            out.append("\\b");
        } else if cu == 12 {
            out.append("\\f");
        } else if cu < 32 {
            out.append("\\u00");
            out.append(hex_str(cu / 16));
            out.append(hex_str(cu % 16));
        } else {
            let piece = s.substring_char(i, i + 1);
            out.append(piece);
            proof {
                assert(piece@ =~= seq![s@[i as int]]);
            }
        }
        proof {
            assert(out@ =~= old(out)@ + json_escaped(s@.take(i as int + 1)));
        }
        i += 1;
    }
    proof {
        assert(s@.take(n as int) =~= s@);
    }
}

/// The JSON string literal for `s`, quotes included.
pub fn json_string(s: &str) -> (r: String)
    ensures
        r@ == json_quoted(s@),
{
    let mut out = String::new();
    proof {
        reveal_strlit("\"");
    }
    out.append("\"");
    append_escaped(&mut out, s);
    out.append("\"");
    proof {
        assert(out@ =~= json_quoted(s@));
    }
    out
}

/// Decimal text of a signed number.
pub open spec fn dec_str_i64(n: int) -> Seq<char> {
    if n < 0 {
        seq!['-'] + dec_str((-n) as nat)
    } else {
        dec_str(n as nat)
    }
}

pub fn i64_to_dec(n: i64) -> (r: String)
    ensures
        r@ == dec_str_i64(n as int),
{
    if n >= 0 {
        u64_to_dec(n as u64)
    } else {
        // compute the magnitude without overflowing at i64::MIN
        let m: u64 = ((-(n + 1)) as u64) + 1;
        proof {
            assert(m as int == -(n as int));
            reveal_strlit("-");
        }
        let r = String::from_str("-").concat(u64_to_dec(m).as_str());
        proof {
            assert(r@ =~= dec_str_i64(n as int));
        }
        r
    }
}

} // verus!

verus! {

/// The texts of `elems` joined with commas.
pub open spec fn joined(elems: Seq<Seq<char>>) -> Seq<char>
    decreases elems.len(),
{
    if elems.len() == 0 {
        Seq::empty()
    } else if elems.len() == 1 {
        elems[0]
    } else {
        joined(elems.drop_last()) + seq![','] + elems.last()
    }
}

/// The JSON text of an event, fields in wire order, the metadata text
/// spliced in as it stands.
pub open spec fn event_json_text(e: Event) -> Seq<char> {
    "{\"id\":"@ + json_quoted(e.id@) + ",\"agentId\":"@ + json_quoted(e.agent_id@) + ",\"event\":"@
        + json_quoted(e.event@) + ",\"status\":\""@ + e.status.spec_text() + "\",\"latencyMs\":"@
        + (match e.latency_ms {
        Some(n) => dec_str_i64(n as int),
        None => "null"@,
    }) + ",\"message\":"@ + json_quoted(e.message@) + ",\"metadata\":"@ + e.metadata.raw@
        + ",\"timestamp\":"@ + json_quoted(e.timestamp@) + ",\"receivedAt\":"@ + json_quoted(
        e.received_at@,
    ) + "}"@
}

/// The JSON text of an event.
pub fn event_json(e: &Event) -> (r: String)
    ensures
        r@ == event_json_text(*e),
{
    let mut out = String::from_str("{\"id\":");
    out.append(json_string(e.id.as_str()).as_str());
    out.append(",\"agentId\":");
    out.append(json_string(e.agent_id.as_str()).as_str());
    out.append(",\"event\":");
    out.append(json_string(e.event.as_str()).as_str());
    out.append(",\"status\":\"");
    out.append(e.status.text().as_str());
    out.append("\",\"latencyMs\":");
    match e.latency_ms {
        Some(n) => out.append(i64_to_dec(n).as_str()),
        None => out.append("null"),
    }
    out.append(",\"message\":");
    out.append(json_string(e.message.as_str()).as_str());
    out.append(",\"metadata\":");
    out.append(e.metadata.raw.as_str());
    out.append(",\"timestamp\":");
    out.append(json_string(e.timestamp.as_str()).as_str());
    out.append(",\"receivedAt\":");
    out.append(json_string(e.received_at.as_str()).as_str());
    out.append("}");
    proof {
        assert(out@ =~= event_json_text(*e));
    }
    out
}

/// The SSE frame that broadcasts an appended event.
pub open spec fn event_frame_text(e: Event) -> Seq<char> {
    "data: {\"type\":\"event\",\"payload\":"@ + event_json_text(e) + "}\n\n"@
}

/// The SSE frame that broadcasts an appended event.
pub fn event_frame(e: &Event) -> (r: String)
    ensures
        r@ == event_frame_text(*e),
{
    let mut out = String::from_str("data: {\"type\":\"event\",\"payload\":");
    out.append(event_json(e).as_str());
    out.append("}\n\n");
    proof {
        assert(out@ =~= event_frame_text(*e));
    }
    out
}

/// The SSE frame opening a subscription: the whole snapshot.
pub open spec fn snapshot_frame_text(s: Snapshot) -> Seq<char> {
    "data: {\"type\":\"snapshot\",\"payload\":"@ + snapshot_json_text(s) + "}\n\n"@
}

/// The SSE frame opening a subscription: the whole snapshot.
pub fn snapshot_frame(s: &Snapshot) -> (r: String)
    ensures
        r@ == snapshot_frame_text(*s),
{
    let mut out = String::from_str("data: {\"type\":\"snapshot\",\"payload\":");
    out.append(snapshot_json(s).as_str());
    out.append("}\n\n");
    proof {
        assert(out@ =~= snapshot_frame_text(*s));
    }
    out
}

/// The JSON text of an alert row, fields in wire order.
pub open spec fn alert_json_text(a: AlertRow) -> Seq<char> {
    "{\"id\":"@ + json_quoted(a.id@) + ",\"severity\":\""@ + a.severity.spec_text()
        + "\",\"agentId\":"@ + json_quoted(a.agent_id@) + ",\"event\":"@ + json_quoted(a.event@)
        + ",\"message\":"@ + json_quoted(a.message@) + ",\"createdAt\":"@ + json_quoted(
        a.created_at@,
    ) + "}"@
}

pub fn alert_json(a: &AlertRow) -> (r: String)
    ensures
        r@ == alert_json_text(*a),
{
    let mut out = String::from_str("{\"id\":");
    out.append(json_string(a.id.as_str()).as_str());
    out.append(",\"severity\":\"");
    out.append(a.severity.text().as_str());
    out.append("\",\"agentId\":");
    out.append(json_string(a.agent_id.as_str()).as_str());
    out.append(",\"event\":");
    out.append(json_string(a.event.as_str()).as_str());
    out.append(",\"message\":");
    out.append(json_string(a.message.as_str()).as_str());
    out.append(",\"createdAt\":");
    out.append(json_string(a.created_at.as_str()).as_str());
    out.append("}");
    proof {
        assert(out@ =~= alert_json_text(*a));
    }
    out
}

/// The JSON text of an agent row, fields in wire order; the cost in USD
/// with six decimal places.
pub open spec fn agent_json_text(a: AgentRow) -> Seq<char> {
    "{\"agentId\":"@ + json_quoted(a.agent_id@) + ",\"lastSeen\":"@ + json_quoted(a.last_seen@)
        + ",\"total\":"@ + dec_str(a.total as nat) + ",\"ok\":"@ + dec_str(a.ok as nat)
        + ",\"warning\":"@ + dec_str(a.warning as nat) + ",\"error\":"@ + dec_str(a.error as nat)
        + ",\"tokenTotal\":"@ + dec_str(a.token_total as nat) + ",\"costUsd\":"@ + micro_text(
        a.cost_micro_usd as nat,
    ) + ",\"lastEvent\":"@ + json_quoted(a.last_event@) + ",\"latencyMs\":"@ + (match a.latency_ms {
        Some(n) => dec_str_i64(n as int),
        None => "null"@,
    }) + "}"@
}

pub fn agent_json(a: &AgentRow) -> (r: String)
    ensures
        r@ == agent_json_text(*a),
{
    let mut out = String::from_str("{\"agentId\":");
    out.append(json_string(a.agent_id.as_str()).as_str());
    out.append(",\"lastSeen\":");
    out.append(json_string(a.last_seen.as_str()).as_str());
    out.append(",\"total\":");
    out.append(u64_to_dec(a.total).as_str());
    out.append(",\"ok\":");
    out.append(u64_to_dec(a.ok).as_str());
    out.append(",\"warning\":");
    out.append(u64_to_dec(a.warning).as_str());
    out.append(",\"error\":");
    out.append(u64_to_dec(a.error).as_str());
    out.append(",\"tokenTotal\":");
    out.append(u64_to_dec(a.token_total).as_str());
    out.append(",\"costUsd\":");
    out.append(micro_to_text(a.cost_micro_usd).as_str());
    out.append(",\"lastEvent\":");
    out.append(json_string(a.last_event.as_str()).as_str());
    out.append(",\"latencyMs\":");
    match a.latency_ms {
        Some(n) => out.append(i64_to_dec(n).as_str()),
        None => out.append("null"),
    }
    out.append("}");
    proof {
        assert(out@ =~= agent_json_text(*a));
    }
    out
}

/// The JSON text of a source row, fields in wire order.
pub open spec fn source_json_text(srow: SourceRow) -> Seq<char> {
    "{\"source\":"@ + json_quoted(srow.source@) + ",\"total\":"@ + dec_str(srow.total as nat)
        + ",\"ok\":"@ + dec_str(srow.ok as nat) + ",\"warning\":"@ + dec_str(srow.warning as nat)
        + ",\"error\":"@ + dec_str(srow.error as nat) + ",\"lastSeen\":"@ + json_quoted(
        srow.last_seen@,
    ) + "}"@
}

pub fn source_json(srow: &SourceRow) -> (r: String)
    ensures
        r@ == source_json_text(*srow),
{
    let mut out = String::from_str("{\"source\":");
    out.append(json_string(srow.source.as_str()).as_str());
    out.append(",\"total\":");
    out.append(u64_to_dec(srow.total).as_str());
    out.append(",\"ok\":");
    out.append(u64_to_dec(srow.ok).as_str());
    out.append(",\"warning\":");
    out.append(u64_to_dec(srow.warning).as_str());
    out.append(",\"error\":");
    out.append(u64_to_dec(srow.error).as_str());
    out.append(",\"lastSeen\":");
    out.append(json_string(srow.last_seen.as_str()).as_str());
    out.append("}");
    proof {
        assert(out@ =~= source_json_text(*srow));
    }
    out
}

/// The JSON text of a workflow row, fields in wire order.
pub open spec fn workflow_json_text(w: WorkflowRow) -> Seq<char> {
    "{\"roleId\":"@ + json_quoted(w.role_id@) + ",\"active\":"@ + (if w.active {
        "true"@
    } else {
        "false"@
    }) + ",\"status\":"@ + json_quoted(w.status@) + ",\"total\":"@ + dec_str(w.total as nat)
        + ",\"lastEvent\":"@ + json_quoted(w.last_event@) + ",\"lastSeen\":"@ + (match w.last_seen {
        Some(t) => json_quoted(t@),
        None => "null"@,
    }) + "}"@
}

pub fn workflow_json(w: &WorkflowRow) -> (r: String)
    ensures
        r@ == workflow_json_text(*w),
{
    let mut out = String::from_str("{\"roleId\":");
    out.append(json_string(w.role_id.as_str()).as_str());
    out.append(",\"active\":");
    if w.active {
        out.append("true");
    } else {
        out.append("false");
    }
    out.append(",\"status\":");
    out.append(json_string(w.status.as_str()).as_str());
    out.append(",\"total\":");
    out.append(u64_to_dec(w.total).as_str());
    out.append(",\"lastEvent\":");
    out.append(json_string(w.last_event.as_str()).as_str());
    out.append(",\"lastSeen\":");
    match &w.last_seen {
        Some(t) => out.append(json_string(t.as_str()).as_str()),
        None => out.append("null"),
    }
    out.append("}");
    proof {
        assert(out@ =~= workflow_json_text(*w));
    }
    out
}

/// The JSON text of the whole snapshot: generation time, derived totals
/// (keys in alphabetical order, as the totals object has on the wire),
/// then the sorted rows and bounded buffers, fields in wire order.
pub open spec fn snapshot_json_text(s: Snapshot) -> Seq<char> {
    "{\"generatedAt\":"@ + json_quoted(s.generated_at@) + ",\"totals\":{\"agents\":"@ + dec_str(
        s.totals.agents as nat,
    ) + ",\"costTotalUsd\":"@ + micro_text(s.totals.cost_total_micro as nat) + ",\"error\":"@
        + dec_str(s.totals.error as nat) + ",\"ok\":"@ + dec_str(s.totals.ok as nat)
        + ",\"tokenTotal\":"@ + dec_str(s.totals.token_total as nat) + ",\"total\":"@ + dec_str(
        s.totals.total as nat,
    ) + ",\"warning\":"@ + dec_str(s.totals.warning as nat) + "},\"agents\":["@ + joined(
        s.agents@.map_values(|a: AgentRow| agent_json_text(a)),
    ) + "],\"sources\":["@ + joined(s.sources@.map_values(|r: SourceRow| source_json_text(r)))
        + "],\"recent\":["@ + joined(s.recent@.map_values(|e: Event| event_json_text(e)))
        + "],\"alerts\":["@ + joined(s.alerts@.map_values(|a: AlertRow| alert_json_text(a)))
        + "],\"workflowProgress\":["@ + joined(
        s.workflow_progress@.map_values(|w: WorkflowRow| workflow_json_text(w)),
    ) + "]}"@
}

fn agents_array(rows: &Vec<AgentRow>) -> (r: String)
    ensures
        r@ == joined(rows@.map_values(|a: AgentRow| agent_json_text(a))),
{
    let ghost texts = rows@.map_values(|a: AgentRow| agent_json_text(a));
    let mut out = String::new();
    let mut i: usize = 0;
    while i < rows.len()
        invariant
            i <= rows@.len(),
            texts == rows@.map_values(|a: AgentRow| agent_json_text(a)),
            out@ == joined(texts.take(i as int)),
        decreases rows@.len() - i,
    {
        if i > 0 {
            out.append(",");
        }
        out.append(agent_json(&rows[i]).as_str());
        proof {
            reveal_strlit(",");
            assert(texts.take(i as int + 1).drop_last() =~= texts.take(i as int));
            assert(out@ =~= joined(texts.take(i as int + 1)));
        }
        i += 1;
    }
    proof {
        assert(texts.take(rows@.len() as int) =~= texts);
    }
    out
}

fn sources_array(rows: &Vec<SourceRow>) -> (r: String)
    ensures
        r@ == joined(rows@.map_values(|a: SourceRow| source_json_text(a))),
{
    let ghost texts = rows@.map_values(|a: SourceRow| source_json_text(a));
    let mut out = String::new();
    let mut i: usize = 0;
    while i < rows.len()
        invariant
            i <= rows@.len(),
            texts == rows@.map_values(|a: SourceRow| source_json_text(a)),
            out@ == joined(texts.take(i as int)),
        decreases rows@.len() - i,
    {
        if i > 0 {
            out.append(",");
        }
        out.append(source_json(&rows[i]).as_str());
        proof {
            reveal_strlit(",");
            assert(texts.take(i as int + 1).drop_last() =~= texts.take(i as int));
            assert(out@ =~= joined(texts.take(i as int + 1)));
        }
        i += 1;
    }
    proof {
        assert(texts.take(rows@.len() as int) =~= texts);
    }
    out
}

fn events_array(rows: &Vec<Event>) -> (r: String)
    ensures
        r@ == joined(rows@.map_values(|a: Event| event_json_text(a))),
{
    let ghost texts = rows@.map_values(|a: Event| event_json_text(a));
    let mut out = String::new();
    let mut i: usize = 0;
    while i < rows.len()
        invariant
            i <= rows@.len(),
            texts == rows@.map_values(|a: Event| event_json_text(a)),
            out@ == joined(texts.take(i as int)),
        decreases rows@.len() - i,
    {
        if i > 0 {
            out.append(",");
        }
        out.append(event_json(&rows[i]).as_str());
        proof {
            reveal_strlit(",");
            assert(texts.take(i as int + 1).drop_last() =~= texts.take(i as int));
            assert(out@ =~= joined(texts.take(i as int + 1)));
        }
        i += 1;
    }
    proof {
        assert(texts.take(rows@.len() as int) =~= texts);
    }
    out
}

fn alerts_array(rows: &Vec<AlertRow>) -> (r: String)
    ensures
        r@ == joined(rows@.map_values(|a: AlertRow| alert_json_text(a))),
{
    let ghost texts = rows@.map_values(|a: AlertRow| alert_json_text(a));
    let mut out = String::new();
    let mut i: usize = 0;
    while i < rows.len()
        invariant
            i <= rows@.len(),
            texts == rows@.map_values(|a: AlertRow| alert_json_text(a)),
            out@ == joined(texts.take(i as int)),
        decreases rows@.len() - i,
    {
        if i > 0 {
            out.append(",");
        }
        out.append(alert_json(&rows[i]).as_str());
        proof {
            reveal_strlit(",");
            assert(texts.take(i as int + 1).drop_last() =~= texts.take(i as int));
            assert(out@ =~= joined(texts.take(i as int + 1)));
        }
        i += 1;
    }
    proof {
        assert(texts.take(rows@.len() as int) =~= texts);
    }
    out
}

fn workflow_array(rows: &Vec<WorkflowRow>) -> (r: String)
    ensures
        r@ == joined(rows@.map_values(|a: WorkflowRow| workflow_json_text(a))),
{
    let ghost texts = rows@.map_values(|a: WorkflowRow| workflow_json_text(a));
    let mut out = String::new();
    let mut i: usize = 0;
    while i < rows.len()
        invariant
            i <= rows@.len(),
            texts == rows@.map_values(|a: WorkflowRow| workflow_json_text(a)),
            out@ == joined(texts.take(i as int)),
        decreases rows@.len() - i,
    {
        if i > 0 {
            out.append(",");
        }
        out.append(workflow_json(&rows[i]).as_str());
        proof {
            reveal_strlit(",");
            assert(texts.take(i as int + 1).drop_last() =~= texts.take(i as int));
            assert(out@ =~= joined(texts.take(i as int + 1)));
        }
        i += 1;
    }
    proof {
        assert(texts.take(rows@.len() as int) =~= texts);
    }
    out
}

/// The JSON text of the whole snapshot.
#[verifier::rlimit(30)]
pub fn snapshot_json(s: &Snapshot) -> (r: String)
    ensures
        r@ == snapshot_json_text(*s),
{
    let mut out = String::from_str("{\"generatedAt\":");
    out.append(json_string(s.generated_at.as_str()).as_str());
    out.append(",\"totals\":{\"agents\":");
    out.append(u64_to_dec(s.totals.agents as u64).as_str());
    out.append(",\"costTotalUsd\":");
    out.append(micro_to_text(s.totals.cost_total_micro).as_str());
    out.append(",\"error\":");
    out.append(u64_to_dec(s.totals.error).as_str());
    out.append(",\"ok\":");
    out.append(u64_to_dec(s.totals.ok).as_str());
    out.append(",\"tokenTotal\":");
    out.append(u64_to_dec(s.totals.token_total).as_str());
    out.append(",\"total\":");
    out.append(u64_to_dec(s.totals.total).as_str());
    out.append(",\"warning\":");
    out.append(u64_to_dec(s.totals.warning).as_str());
    out.append("},\"agents\":[");
    out.append(agents_array(&s.agents).as_str());
    out.append("],\"sources\":[");
    out.append(sources_array(&s.sources).as_str());
    out.append("],\"recent\":[");
    out.append(events_array(&s.recent).as_str());
    out.append("],\"alerts\":[");
    out.append(alerts_array(&s.alerts).as_str());
    out.append("],\"workflowProgress\":[");
    out.append(workflow_array(&s.workflow_progress).as_str());
    out.append("]}");
    proof {
        assert(out@ =~= snapshot_json_text(*s));
    }
    out
}

/// The body of the alerts endpoint: the first `alerts` wrapped in one
/// object.
pub open spec fn alerts_body_text(alerts: Seq<AlertRow>) -> Seq<char> {
    "{\"alerts\":["@ + joined(alerts.map_values(|a: AlertRow| alert_json_text(a))) + "]}"@
}

/// The alerts-endpoint body for the first `limit` alert rows.
#[verifier::loop_isolation(false)]
pub fn alerts_body(alerts: &Vec<AlertRow>, limit: usize) -> (r: String)
    ensures
        r@ == alerts_body_text(
            alerts@.take(
                if alerts@.len() <= limit {
                    alerts@.len() as int
                } else {
                    limit as int
                },
            ),
        ),
{
    let n = if alerts.len() <= limit {
        alerts.len()
    } else {
        limit
    };
    let ghost shown = alerts@.take(n as int);
    let ghost texts = shown.map_values(|a: AlertRow| alert_json_text(a));
    let mut out = String::from_str("{\"alerts\":[");
    let ghost mark = out@;
    let mut i: usize = 0;
    while i < n
        invariant
            i <= n,
            n <= alerts@.len(),
            shown == alerts@.take(n as int),
            texts == shown.map_values(|a: AlertRow| alert_json_text(a)),
            out@ == mark + joined(texts.take(i as int)),
        decreases n - i,
    {
        if i > 0 {
            out.append(",");
        }
        out.append(alert_json(&alerts[i]).as_str());
        proof {
            reveal_strlit(",");
            assert(texts.take(i as int + 1).drop_last() =~= texts.take(i as int));
            assert(out@ =~= mark + joined(texts.take(i as int + 1)));
        }
        i += 1;
    }
    proof {
        assert(texts.take(n as int) =~= texts);
    }
    out.append("]}");
    proof {
        assert(out@ =~= alerts_body_text(shown));
    }
    out
}

} // verus!
