//! Source parsers: raw records from the history file, the per-session
//! files and the push endpoint become normalized events.  The JSON
//! reading goes through the trusted wrappers; every decision on the
//! extracted plain values is verified, and the event builders carry
//! exact contracts.

use vstd::prelude::*;
use vstd::string::{StrSliceExecFns, StringExecFns};

use crate::clock::{rfc3339_of_unix, unix_to_rfc3339, RFC3339_UNIX_MAX};
use crate::event::{event_id, spec_event_id, Event, IdCounter, Metadata};
use crate::jsonout::{json_quoted, json_string};
use crate::jsonval::{json_get, json_i64, json_parse, json_str, json_text, json_u64};
use crate::status::{spec_status_of, Status};
use crate::text::{dec_str, micro_of_text, parse_micro_text, spec_truncate, truncate_chars, u64_to_dec};

verus! {

/// The fields read from one line of the history file.
pub struct HistoryRecord {
    pub text: String,
    pub ts: i64,
    pub session_id: String,
}

/// Metadata text of a history event: the session id, the source tag and
/// the byte length of the full text.
pub open spec fn history_meta_text(sid: Seq<char>, text_len: nat) -> Seq<char> {
    "{\"sessionId\":"@ + json_quoted(sid) + ",\"source\":\"claude_history\",\"textLength\":"@
        + dec_str(text_len) + "}"@
}

fn history_meta(sid: &str, text_len: usize) -> (r: String)
    ensures
        r@ == history_meta_text(sid@, text_len as nat),
{
    let mut out = String::from_str("{\"sessionId\":");
    out.append(json_string(sid).as_str());
    out.append(",\"source\":\"claude_history\",\"textLength\":");
    out.append(u64_to_dec(text_len as u64).as_str());
    out.append("}");
    proof {
        assert(out@ =~= history_meta_text(sid@, text_len as nat));
    }
    out
}

/// Build the `user_request` event for one history record: agent `lead`,
/// status ok, the text cut to 120 code points, the record's timestamp
/// rendered as RFC 3339 (the current time when it is out of range).
pub fn history_event_from_record(rec: &HistoryRecord, ids: &mut IdCounter, now: &str) -> (e: Event)
    requires
        old(ids).next < u64::MAX,
    ensures
        final(ids).next == old(ids).next + 1,
        e.id@ == spec_event_id(old(ids).next as nat),
        e.agent_id@ == "lead"@,
        e.event@ == "user_request"@,
        e.status is Okay,
        e.latency_ms is None,
        e.message@ == spec_truncate(rec.text@, 120),
        e.metadata.source@ == "claude_history"@,
        e.metadata.token_total == 0,
        e.metadata.cost_delta_micro == 0,
        e.metadata.raw@ == history_meta_text(
            rec.session_id@,
            (vstd::utf8::encode_utf8(rec.text@).len() as usize) as nat,
        ),
        0 <= rec.ts <= RFC3339_UNIX_MAX ==> e.timestamp@ == rfc3339_of_unix(rec.ts as int),
        e.timestamp@ == rfc3339_of_unix(rec.ts as int) || e.timestamp@ == now@,
        e.received_at@ == now@,
{
    let n = ids.take();
    let raw = history_meta(rec.session_id.as_str(), rec.text.as_str().len());
    Event {
        id: event_id(n),
        agent_id: String::from_str("lead"),
        event: String::from_str("user_request"),
        status: Status::Okay,
        latency_ms: None,
        message: truncate_chars(rec.text.as_str(), 120),
        metadata: Metadata {
            source: String::from_str("claude_history"),
            token_total: 0,
            cost_delta_micro: 0,
            raw,
        },
        timestamp: unix_to_rfc3339(rec.ts, now.to_owned()),
        received_at: now.to_owned(),
    }
}

/// Pull the fields of one history line out of its JSON value: the text
/// is required, timestamp and session id have defaults.
fn extract_history(v: &serde_json::Value) -> (r: Option<HistoryRecord>) {
    let text = match json_get(v, "text") {
        Some(t) => match json_str(t) {
            Some(s) => s,
            None => {
                return None;
            },
        },
        None => {
            return None;
        },
    };
    let ts = match json_get(v, "ts") {
        Some(t) => match json_i64(t) {
            Some(n) => n,
            None => 0,
        },
        None => 0,
    };
    let session_id = match json_get(v, "session_id") {
        Some(t) => match json_str(t) {
            Some(s) => s,
            None => String::new(),
        },
        None => String::new(),
    };
    Some(HistoryRecord { text, ts, session_id })
}

/// Parse one line of the history file.  A malformed line or one without
/// a string `text` field yields nothing; otherwise the one `user_request`
/// event, as `history_event_from_record` builds it.
pub fn parse_history_event(line: &[u8], ids: &mut IdCounter, now: &str) -> (r: Option<Event>)
    requires
        old(ids).next < u64::MAX,
    ensures
        match r {
            Some(e) => {
                &&& final(ids).next == old(ids).next + 1
                &&& e.id@ == spec_event_id(old(ids).next as nat)
                &&& e.agent_id@ == "lead"@
                &&& e.event@ == "user_request"@
                &&& e.status is Okay
                &&& e.message@.len() <= 120
                &&& e.metadata.source@ == "claude_history"@
                &&& e.metadata.token_total == 0
                &&& e.metadata.cost_delta_micro == 0
                &&& e.received_at@ == now@
            },
            None => *final(ids) == *old(ids),
        },
{
    let v = match json_parse(line) {
        Some(v) => v,
        None => {
            return None;
        },
    };
    let rec = match extract_history(&v) {
        Some(r) => r,
        None => {
            return None;
        },
    };
    Some(history_event_from_record(&rec, ids, now))
}

/// The fields read from a pushed payload, each as the payload gave it.
pub struct PushRecord {
    pub agent_id: Option<String>,
    pub event: Option<String>,
    pub status: Option<String>,
    pub latency_ms: Option<i64>,
    pub message: Option<String>,
    pub timestamp: Option<String>,
    pub meta_source: Option<String>,
    pub meta_token_total: Option<u64>,
    pub meta_cost_text: Option<String>,
    /// The metadata value as JSON text, `{}` when the payload has none.
    pub meta_raw: String,
}

/// The micro-USD value of an optional amount text: 0 when absent or not
/// a recognized non-negative decimal (exponent forms included).
pub open spec fn micro_or_zero(t: Option<String>) -> int {
    match t {
        Some(s) => match micro_of_text(s@) {
            Some(v) => v,
            None => 0,
        },
        None => 0,
    }
}

/// Build the event a pushed payload normalizes to: every missing field
/// replaced by its default, the status text normalized, a fresh id and
/// receive time assigned.
pub fn normalize_from_record(rec: PushRecord, ids: &mut IdCounter, now: &str) -> (e: Event)
    requires
        old(ids).next < u64::MAX,
    ensures
        final(ids).next == old(ids).next + 1,
        e.id@ == spec_event_id(old(ids).next as nat),
        e.agent_id@ == match rec.agent_id {
            Some(a) => a@,
            None => "unknown-agent"@,
        },
        e.event@ == match rec.event {
            Some(k) => k@,
            None => "heartbeat"@,
        },
        e.status == match rec.status {
            Some(s) => spec_status_of(s@),
            None => Status::Okay,
        },
        e.latency_ms == rec.latency_ms,
        e.message@ == match rec.message {
            Some(m) => m@,
            None => Seq::<char>::empty(),
        },
        e.timestamp@ == match rec.timestamp {
            Some(t) => t@,
            None => now@,
        },
        e.received_at@ == now@,
        e.metadata.source@ == match rec.meta_source {
            Some(s) => s@,
            None => "manual"@,
        },
        e.metadata.token_total == match rec.meta_token_total {
            Some(t) => t,
            None => 0u64,
        },
        e.metadata.cost_delta_micro as int == micro_or_zero(rec.meta_cost_text),
        e.metadata.raw == rec.meta_raw,
{
    let n = ids.take();
    let cost_delta_micro = match &rec.meta_cost_text {
        Some(t) => match parse_micro_text(t.as_str()) {
            Some(v) => v,
            None => 0,
        },
        None => 0,
    };
    proof {
        reveal_strlit("");
    }
    Event {
        id: event_id(n),
        agent_id: match rec.agent_id {
            Some(a) => a,
            None => String::from_str("unknown-agent"),
        },
        event: match rec.event {
            Some(k) => k,
            None => String::from_str("heartbeat"),
        },
        status: match rec.status {
            Some(s) => Status::parse(s.as_str()),
            None => Status::Okay,
        },
        latency_ms: rec.latency_ms,
        message: match rec.message {
            Some(m) => m,
            None => String::new(),
        },
        metadata: Metadata {
            source: match rec.meta_source {
                Some(s) => s,
                None => String::from_str("manual"),
            },
            token_total: match rec.meta_token_total {
                Some(t) => t,
                None => 0,
            },
            cost_delta_micro,
            raw: rec.meta_raw,
        },
        timestamp: match rec.timestamp {
            Some(t) => t,
            None => now.to_owned(),
        },
        received_at: now.to_owned(),
    }
}

/// Pull the recognized fields out of a pushed JSON payload.
fn extract_push(v: &serde_json::Value) -> (r: PushRecord) {
    let agent_id = match json_get(v, "agentId") {
        Some(a) => json_str(a),
        None => None,
    };
    let event = match json_get(v, "event") {
        Some(a) => json_str(a),
        None => None,
    };
    let status = match json_get(v, "status") {
        Some(a) => json_str(a),
        None => None,
    };
    let latency_ms = match json_get(v, "latencyMs") {
        Some(a) => json_i64(a),
        None => None,
    };
    let message = match json_get(v, "message") {
        Some(a) => json_str(a),
        None => None,
    };
    let timestamp = match json_get(v, "timestamp") {
        Some(a) => json_str(a),
        None => None,
    };
    match json_get(v, "metadata") {
        Some(meta) => {
            let meta_source = match json_get(meta, "source") {
                Some(s) => json_str(s),
                None => None,
            };
            let meta_token_total = match json_get(meta, "tokenUsage") {
                Some(tu) => match json_get(tu, "totalTokens") {
                    Some(t) => json_u64(t),
                    None => None,
                },
                None => None,
            };
            let meta_cost_text = match json_get(meta, "costDelta") {
                Some(c) => Some(json_text(c)),
                None => None,
            };
            PushRecord {
                agent_id,
                event,
                status,
                latency_ms,
                message,
                timestamp,
                meta_source,
                meta_token_total,
                meta_cost_text,
                meta_raw: json_text(meta),
            }
        },
        None => PushRecord {
            agent_id,
            event,
            status,
            latency_ms,
            message,
            timestamp,
            meta_source: None,
            meta_token_total: None,
            meta_cost_text: None,
            meta_raw: String::from_str("{}"),
        },
    }
}

/// Extract the metadata parts the aggregation reads from a metadata
/// value: the source tag (`manual` when absent), the token total, the
/// cost delta as micro-USD, and the whole value as JSON text.
pub fn metadata_from_value(v: &serde_json::Value) -> (m: Metadata) {
    let source = match json_get(v, "source") {
        Some(sv) => match json_str(sv) {
            Some(s) => s,
            None => String::from_str("manual"),
        },
        None => String::from_str("manual"),
    };
    let token_total = match json_get(v, "tokenUsage") {
        Some(tu) => match json_get(tu, "totalTokens") {
            Some(t) => match json_u64(t) {
                Some(x) => x,
                None => 0,
            },
            None => 0,
        },
        None => 0,
    };
    let cost_delta_micro = match json_get(v, "costDelta") {
        Some(c) => match parse_micro_text(json_text(c).as_str()) {
            Some(x) => x,
            None => 0,
        },
        None => 0,
    };
    Metadata { source, token_total, cost_delta_micro, raw: json_text(v) }
}

/// Normalize a pushed payload to an event: extraction of the recognized
/// fields, then `normalize_from_record` with its defaults.
pub fn normalize_incoming(payload: &serde_json::Value, ids: &mut IdCounter, now: &str) -> (e:
    Event)
    requires
        old(ids).next < u64::MAX,
    ensures
        final(ids).next == old(ids).next + 1,
        e.id@ == spec_event_id(old(ids).next as nat),
        e.received_at@ == now@,
{
    let rec = extract_push(payload);
    normalize_from_record(rec, ids, now)
}

} // verus!

verus! {

/// Token counts read from an assistant record's `usage` object.
pub struct UsageRecord {
    pub input_tokens: u64,
    pub output_tokens: u64,
    pub cache_read: u64,
}

/// One entry of an assistant record's content array.
pub enum ContentItem {
    Text { text: String },
    ToolUse { name: String, input_json: String },
    Other,
}

/// The fields read from one line of a per-session file.
pub enum SessionRecord {
    User { content: String },
    Assistant { model: String, items: Vec<ContentItem>, usage: Option<UsageRecord> },
    Other,
}

/// One session line with its common fields.
pub struct SessionLine {
    pub record: SessionRecord,
    pub session_id: String,
    pub timestamp: Option<String>,
}

pub open spec fn user_meta_text(sid: Seq<char>) -> Seq<char> {
    "{\"sessionId\":"@ + json_quoted(sid) + ",\"source\":\"claude_session\"}"@
}

pub open spec fn assistant_meta_text(model: Seq<char>, sid: Seq<char>) -> Seq<char> {
    "{\"model\":"@ + json_quoted(model) + ",\"sessionId\":"@ + json_quoted(sid)
        + ",\"source\":\"claude_session\"}"@
}

pub open spec fn tool_meta_text(model: Seq<char>, sid: Seq<char>, input_json: Seq<char>) -> Seq<
    char,
> {
    "{\"model\":"@ + json_quoted(model) + ",\"sessionId\":"@ + json_quoted(sid)
        + ",\"source\":\"claude_session\",\"toolInput\":"@ + input_json + "}"@
}

/// The input and output tokens of `u`, held to the counter range.
pub open spec fn usage_total(u: UsageRecord) -> int {
    if u.input_tokens + u.output_tokens > u64::MAX {
        u64::MAX as int
    } else {
        u.input_tokens + u.output_tokens
    }
}

pub open spec fn usage_meta_text(model: Seq<char>, sid: Seq<char>, u: UsageRecord) -> Seq<char> {
    "{\"model\":"@ + json_quoted(model) + ",\"sessionId\":"@ + json_quoted(sid)
        + ",\"source\":\"claude_session\",\"tokenUsage\":{\"cacheReadInputTokens\":"@ + dec_str(
        u.cache_read as nat,
    ) + ",\"inputTokens\":"@ + dec_str(u.input_tokens as nat) + ",\"outputTokens\":"@ + dec_str(
        u.output_tokens as nat,
    ) + ",\"totalTokens\":"@ + dec_str(usage_total(u) as nat) + "}}"@
}

fn user_meta(sid: &str) -> (r: String)
    ensures
        r@ == user_meta_text(sid@),
{
    let mut out = String::from_str("{\"sessionId\":");
    out.append(json_string(sid).as_str());
    out.append(",\"source\":\"claude_session\"}");
    proof {
        assert(out@ =~= user_meta_text(sid@));
    }
    out
}

fn assistant_meta(model: &str, sid: &str) -> (r: String)
    ensures
        r@ == assistant_meta_text(model@, sid@),
{
    let mut out = String::from_str("{\"model\":");
    out.append(json_string(model).as_str());
    out.append(",\"sessionId\":");
    out.append(json_string(sid).as_str());
    out.append(",\"source\":\"claude_session\"}");
    proof {
        assert(out@ =~= assistant_meta_text(model@, sid@));
    }
    out
}

fn tool_meta(model: &str, sid: &str, input_json: &str) -> (r: String)
    ensures
        r@ == tool_meta_text(model@, sid@, input_json@),
{
    let mut out = String::from_str("{\"model\":");
    out.append(json_string(model).as_str());
    out.append(",\"sessionId\":");
    out.append(json_string(sid).as_str());
    out.append(",\"source\":\"claude_session\",\"toolInput\":");
    out.append(input_json);
    out.append("}");
    proof {
        assert(out@ =~= tool_meta_text(model@, sid@, input_json@));
    }
    out
}

fn usage_meta(model: &str, sid: &str, u: &UsageRecord) -> (r: String)
    ensures
        r@ == usage_meta_text(model@, sid@, *u),
{
    let total = u.input_tokens.saturating_add(u.output_tokens);
    let mut out = String::from_str("{\"model\":");
    out.append(json_string(model).as_str());
    out.append(",\"sessionId\":");
    out.append(json_string(sid).as_str());
    out.append(",\"source\":\"claude_session\",\"tokenUsage\":{\"cacheReadInputTokens\":");
    out.append(u64_to_dec(u.cache_read).as_str());
    out.append(",\"inputTokens\":");
    out.append(u64_to_dec(u.input_tokens).as_str());
    out.append(",\"outputTokens\":");
    out.append(u64_to_dec(u.output_tokens).as_str());
    out.append(",\"totalTokens\":");
    out.append(u64_to_dec(total).as_str());
    out.append("}}");
    proof {
        assert(out@ =~= usage_meta_text(model@, sid@, *u));
    }
    out
}

/// The one event a non-empty user message becomes.
pub open spec fn user_msg_event(
    content: Seq<char>,
    e: Event,
    sid: Seq<char>,
    ts: Seq<char>,
    now: Seq<char>,
    n: nat,
) -> bool {
    &&& e.id@ == spec_event_id(n)
    &&& e.agent_id@ == "lead"@
    &&& e.event@ == "user_message"@
    &&& e.status is Okay
    &&& e.latency_ms is None
    &&& e.message@ == spec_truncate(content, 120)
    &&& e.metadata.source@ == "claude_session"@
    &&& e.metadata.token_total == 0
    &&& e.metadata.cost_delta_micro == 0
    &&& e.metadata.raw@ == user_meta_text(sid)
    &&& e.timestamp@ == ts
    &&& e.received_at@ == now
}

/// Whether a content item yields an event.
pub open spec fn emits(it: ContentItem) -> bool {
    match it {
        ContentItem::Text { text } => text@.len() > 0,
        ContentItem::ToolUse { .. } => true,
        ContentItem::Other => false,
    }
}

/// The content items that yield events, in order.
pub open spec fn emitted(items: Seq<ContentItem>) -> Seq<ContentItem>
    decreases items.len(),
{
    if items.len() == 0 {
        Seq::empty()
    } else {
        let rest = emitted(items.drop_last());
        if emits(items.last()) {
            rest.push(items.last())
        } else {
            rest
        }
    }
}

pub proof fn lemma_emitted_len(items: Seq<ContentItem>)
    ensures
        emitted(items).len() <= items.len(),
    decreases items.len(),
{
    if items.len() > 0 {
        lemma_emitted_len(items.drop_last());
    }
}

/// The event one emitted content item becomes.
pub open spec fn assistant_item_event(
    it: ContentItem,
    e: Event,
    model: Seq<char>,
    sid: Seq<char>,
    ts: Seq<char>,
    now: Seq<char>,
    n: nat,
) -> bool {
    match it {
        ContentItem::Text { text } => {
            &&& e.id@ == spec_event_id(n)
            &&& e.agent_id@ == "lead"@
            &&& e.event@ == "assistant_message"@
            &&& e.status is Okay
            &&& e.latency_ms is None
            &&& e.message@ == spec_truncate(text@, 120)
            &&& e.metadata.source@ == "claude_session"@
            &&& e.metadata.token_total == 0
            &&& e.metadata.cost_delta_micro == 0
            &&& e.metadata.raw@ == assistant_meta_text(model, sid)
            &&& e.timestamp@ == ts
            &&& e.received_at@ == now
        },
        ContentItem::ToolUse { name, input_json } => {
            &&& e.id@ == spec_event_id(n)
            &&& e.agent_id@ == "lead"@
            &&& e.event@ == "tool_call"@
            &&& e.status is Okay
            &&& e.latency_ms is None
            &&& e.message == name
            &&& e.metadata.source@ == "claude_session"@
            &&& e.metadata.token_total == 0
            &&& e.metadata.cost_delta_micro == 0
            &&& e.metadata.raw@ == tool_meta_text(model, sid, input_json@)
            &&& e.timestamp@ == ts
            &&& e.received_at@ == now
        },
        ContentItem::Other => false,
    }
}

/// The `token_usage` event of an assistant record with counted tokens.
pub open spec fn usage_event(
    u: UsageRecord,
    e: Event,
    model: Seq<char>,
    sid: Seq<char>,
    ts: Seq<char>,
    now: Seq<char>,
    n: nat,
) -> bool {
    &&& e.id@ == spec_event_id(n)
    &&& e.agent_id@ == "lead"@
    &&& e.event@ == "token_usage"@
    &&& e.status is Okay
    &&& e.latency_ms is None
    &&& e.message@ == "tokens +"@ + dec_str(usage_total(u) as nat)
    &&& e.metadata.source@ == "claude_session"@
    &&& e.metadata.token_total as int == usage_total(u)
    &&& e.metadata.cost_delta_micro == 0
    &&& e.metadata.raw@ == usage_meta_text(model, sid, u)
    &&& e.timestamp@ == ts
    &&& e.received_at@ == now
}

/// Ids a session record may consume.
pub open spec fn session_event_bound(rec: SessionRecord) -> int {
    match rec {
        SessionRecord::User { .. } => 1,
        SessionRecord::Assistant { items, .. } => items@.len() as int + 1,
        SessionRecord::Other => 0,
    }
}

/// Build the events of one session record: one `user_message` for a
/// non-empty user line; for an assistant line one event per non-empty
/// text item and per tool use, in content order, then one `token_usage`
/// event when the usage object counts tokens; nothing otherwise.
#[verifier::loop_isolation(false)]
pub fn session_events_from_record(
    rec: SessionRecord,
    session_id: &str,
    timestamp: &str,
    ids: &mut IdCounter,
    now: &str,
) -> (evs: Vec<Event>)
    requires
        old(ids).next + session_event_bound(rec) <= u64::MAX,
    ensures
        final(ids).next == old(ids).next + evs@.len(),
        match rec {
            SessionRecord::User { content } => {
                if content@.len() == 0 {
                    evs@.len() == 0
                } else {
                    evs@.len() == 1 && user_msg_event(
                        content@,
                        evs@[0],
                        session_id@,
                        timestamp@,
                        now@,
                        old(ids).next as nat,
                    )
                }
            },
            SessionRecord::Assistant { model, items, usage } => {
                let ems = emitted(items@);
                let nu: int = match usage {
                    Some(u) => if usage_total(u) > 0 {
                        1
                    } else {
                        0
                    },
                    None => 0,
                };
                &&& evs@.len() == ems.len() + nu
                &&& forall|j: int|
                    0 <= j < ems.len() ==> assistant_item_event(
                        ems[j],
                        #[trigger] evs@[j],
                        model@,
                        session_id@,
                        timestamp@,
                        now@,
                        (old(ids).next + j) as nat,
                    )
                &&& nu == 1 ==> usage_event(
                    usage->Some_0,
                    evs@[ems.len() as int],
                    model@,
                    session_id@,
                    timestamp@,
                    now@,
                    (old(ids).next + ems.len()) as nat,
                )
            },
            SessionRecord::Other => evs@.len() == 0,
        },
{
    match rec {
        SessionRecord::User { content } => {
            let mut evs: Vec<Event> = Vec::new();
            if !content.as_str().is_empty() {
                let n = ids.take();
                evs.push(
                    Event {
                        id: event_id(n),
                        agent_id: String::from_str("lead"),
                        event: String::from_str("user_message"),
                        status: Status::Okay,
                        latency_ms: None,
                        message: truncate_chars(content.as_str(), 120),
                        metadata: Metadata {
                            source: String::from_str("claude_session"),
                            token_total: 0,
                            cost_delta_micro: 0,
                            raw: user_meta(session_id),
                        },
                        timestamp: timestamp.to_owned(),
                        received_at: now.to_owned(),
                    },
                );
            }
            evs
        },
        SessionRecord::Assistant { model, items, usage } => {
            let mut evs: Vec<Event> = Vec::new();
            let mut i: usize = 0;
            proof {
                assert(emitted(items@.take(0)) =~= Seq::<ContentItem>::empty());
            }
            while i < items.len()
                invariant
                    i <= items@.len(),
                    evs@.len() == emitted(items@.take(i as int)).len(),
                    evs@.len() <= i,
                    ids.next == old(ids).next + evs@.len(),
                    forall|j: int|
                        0 <= j < evs@.len() ==> assistant_item_event(
                            emitted(items@.take(i as int))[j],
                            #[trigger] evs@[j],
                            model@,
                            session_id@,
                            timestamp@,
                            now@,
                            (old(ids).next + j) as nat,
                        ),
                decreases items@.len() - i,
            {
                proof {
                    assert(items@.take(i as int + 1).drop_last() =~= items@.take(i as int));
                    assert(items@.take(i as int + 1).last() == items@[i as int]);
                    lemma_emitted_len(items@.take(i as int));
                }
                let ghost pre = emitted(items@.take(i as int));
                match &items[i] {
                    ContentItem::Text { text } => {
                        if !text.as_str().is_empty() {
                            let n = ids.take();
                            evs.push(
                                Event {
                                    id: event_id(n),
                                    agent_id: String::from_str("lead"),
                                    event: String::from_str("assistant_message"),
                                    status: Status::Okay,
                                    latency_ms: None,
                                    message: truncate_chars(text.as_str(), 120),
                                    metadata: Metadata {
                                        source: String::from_str("claude_session"),
                                        token_total: 0,
                                        cost_delta_micro: 0,
                                        raw: assistant_meta(model.as_str(), session_id),
                                    },
                                    timestamp: timestamp.to_owned(),
                                    received_at: now.to_owned(),
                                },
                            );
                            proof {
                                assert(emitted(items@.take(i as int + 1)) =~= pre.push(
                                    items@[i as int],
                                ));
                            }
                        } else {
                            proof {
                                assert(emitted(items@.take(i as int + 1)) =~= pre);
                            }
                        }
                    },
                    ContentItem::ToolUse { name, input_json } => {
                        let n = ids.take();
                        evs.push(
                            Event {
                                id: event_id(n),
                                agent_id: String::from_str("lead"),
                                event: String::from_str("tool_call"),
                                status: Status::Okay,
                                latency_ms: None,
                                message: name.clone(),
                                metadata: Metadata {
                                    source: String::from_str("claude_session"),
                                    token_total: 0,
                                    cost_delta_micro: 0,
                                    raw: tool_meta(
                                        model.as_str(),
                                        session_id,
                                        input_json.as_str(),
                                    ),
                                },
                                timestamp: timestamp.to_owned(),
                                received_at: now.to_owned(),
                            },
                        );
                        proof {
                            assert(emitted(items@.take(i as int + 1)) =~= pre.push(
                                items@[i as int],
                            ));
                        }
                    },
                    ContentItem::Other => {
                        proof {
                            assert(emitted(items@.take(i as int + 1)) =~= pre);
                        }
                    },
                }
                i += 1;
            }
            proof {
                assert(items@.take(items@.len() as int) =~= items@);
                lemma_emitted_len(items@);
            }
            match &usage {
                Some(u) => {
                    let total = u.input_tokens.saturating_add(u.output_tokens);
                    if total > 0 {
                        let n = ids.take();
                        let mut msg = String::from_str("tokens +");
                        msg.append(u64_to_dec(total).as_str());
                        evs.push(
                            Event {
                                id: event_id(n),
                                agent_id: String::from_str("lead"),
                                event: String::from_str("token_usage"),
                                status: Status::Okay,
                                latency_ms: None,
                                message: msg,
                                metadata: Metadata {
                                    source: String::from_str("claude_session"),
                                    token_total: total,
                                    cost_delta_micro: 0,
                                    raw: usage_meta(model.as_str(), session_id, u),
                                },
                                timestamp: timestamp.to_owned(),
                                received_at: now.to_owned(),
                            },
                        );
                    }
                },
                None => {},
            }
            evs
        },
        SessionRecord::Other => Vec::new(),
    }
}

/// Pull one content array entry out of its JSON value.
fn extract_content_item(v: &serde_json::Value) -> (r: ContentItem) {
    let ty = match json_get(v, "type") {
        Some(t) => match json_str(t) {
            Some(s) => s,
            None => String::new(),
        },
        None => String::new(),
    };
    if ty == String::from_str("text") {
        let text = match json_get(v, "text") {
            Some(t) => match json_str(t) {
                Some(s) => s,
                None => String::new(),
            },
            None => String::new(),
        };
        ContentItem::Text { text }
    } else if ty == String::from_str("tool_use") {
        let name = match json_get(v, "name") {
            Some(t) => match json_str(t) {
                Some(s) => s,
                None => String::from_str("unknown_tool"),
            },
            None => String::from_str("unknown_tool"),
        };
        let input_json = match json_get(v, "input") {
            Some(inp) => json_text(inp),
            None => String::from_str("{}"),
        };
        ContentItem::ToolUse { name, input_json }
    } else {
        ContentItem::Other
    }
}

/// Pull the fields of one session line out of its JSON value.
fn extract_session_line(v: &serde_json::Value) -> (r: SessionLine) {
    let session_id = match json_get(v, "sessionId") {
        Some(t) => match json_str(t) {
            Some(s) => s,
            None => String::new(),
        },
        None => String::new(),
    };
    let timestamp = match json_get(v, "timestamp") {
        Some(t) => json_str(t),
        None => None,
    };
    let ty = match json_get(v, "type") {
        Some(t) => match json_str(t) {
            Some(s) => s,
            None => String::new(),
        },
        None => String::new(),
    };
    let record = if ty == String::from_str("user") {
        let content = match json_get(v, "message") {
            Some(m) => match json_get(m, "content") {
                Some(c) => match json_str(c) {
                    Some(s) => s,
                    None => String::new(),
                },
                None => String::new(),
            },
            None => String::new(),
        };
        SessionRecord::User { content }
    } else if ty == String::from_str("assistant") {
        match json_get(v, "message") {
            Some(m) => {
                let model = match json_get(m, "model") {
                    Some(t) => match json_str(t) {
                        Some(s) => s,
                        None => String::new(),
                    },
                    None => String::new(),
                };
                let mut items: Vec<ContentItem> = Vec::new();
                match json_get(m, "content") {
                    Some(c) => {
                        match crate::jsonval::json_array_len(c) {
                            Some(n) => {
                                let mut i: usize = 0;
                                while i < n
                                    invariant
                                        i <= n,
                                    decreases n - i,
                                {
                                    match crate::jsonval::json_array_get(c, i) {
                                        Some(item) => items.push(extract_content_item(item)),
                                        None => items.push(ContentItem::Other),
                                    }
                                    i += 1;
                                }
                            },
                            None => {},
                        }
                    },
                    None => {},
                }
                let usage = match json_get(m, "usage") {
                    Some(u) => Some(
                        UsageRecord {
                            input_tokens: match json_get(u, "input_tokens") {
                                Some(t) => match json_u64(t) {
                                    Some(x) => x,
                                    None => 0,
                                },
                                None => 0,
                            },
                            output_tokens: match json_get(u, "output_tokens") {
                                Some(t) => match json_u64(t) {
                                    Some(x) => x,
                                    None => 0,
                                },
                                None => 0,
                            },
                            cache_read: match json_get(u, "cache_read_input_tokens") {
                                Some(t) => match json_u64(t) {
                                    Some(x) => x,
                                    None => 0,
                                },
                                None => 0,
                            },
                        },
                    ),
                    None => None,
                };
                SessionRecord::Assistant { model, items, usage }
            },
            None => SessionRecord::Assistant {
                model: String::new(),
                items: Vec::new(),
                usage: None,
            },
        }
    } else {
        SessionRecord::Other
    };
    SessionLine { record, session_id, timestamp }
}

/// Parse one line of a per-session file into its events.  Malformed JSON
/// or an unrecognized record type yields nothing; otherwise the events
/// of `session_events_from_record`, with the line's timestamp (or the
/// current time) and session id.
pub fn parse_session_line(line: &[u8], ids: &mut IdCounter, now: &str) -> (r: Vec<Event>)
    ensures
        final(ids).next as int == old(ids).next + r@.len(),
        forall|j: int|
            0 <= j < r@.len() ==> (#[trigger] r@[j]).agent_id@ == "lead"@ && r@[j].received_at@
                == now@ && r@[j].status is Okay && r@[j].latency_ms is None
                && r@[j].metadata.source@ == "claude_session"@ && r@[j].id@ == spec_event_id(
                (old(ids).next + j) as nat,
            ),
{
    let v = match json_parse(line) {
        Some(v) => v,
        None => {
            return Vec::new();
        },
    };
    let sl = extract_session_line(&v);
    let bound: usize = match &sl.record {
        SessionRecord::User { .. } => 1,
        SessionRecord::Assistant { items, .. } => {
            if items.len() >= usize::MAX {
                return Vec::new();
            }
            items.len() + 1
        },
        SessionRecord::Other => 0,
    };
    if ids.next > u64::MAX - (bound as u64) {
        // the id sequence cannot cover this record
        return Vec::new();
    }
    let ts = match &sl.timestamp {
        Some(t) => t.clone(),
        None => now.to_owned(),
    };
    let ghost pre_ids = *ids;
    let evs = session_events_from_record(sl.record, sl.session_id.as_str(), ts.as_str(), ids, now);
    proof {
        lemma_session_events_common(
            sl.record,
            evs@,
            sl.session_id@,
            ts@,
            now@,
            pre_ids.next,
        );
    }
    evs
}

/// Every event a session record yields carries agent `lead`, status ok,
/// no latency, the session source tag, the given receive time, and the
/// id allocated for its position.
proof fn lemma_session_events_common(
    rec: SessionRecord,
    evs: Seq<Event>,
    sid: Seq<char>,
    ts: Seq<char>,
    now: Seq<char>,
    first: u64,
)
    requires
        match rec {
            SessionRecord::User { content } => {
                if content@.len() == 0 {
                    evs.len() == 0
                } else {
                    evs.len() == 1 && user_msg_event(content@, evs[0], sid, ts, now, first as nat)
                }
            },
            SessionRecord::Assistant { model, items, usage } => {
                let ems = emitted(items@);
                let nu: int = match usage {
                    Some(u) => if usage_total(u) > 0 {
                        1
                    } else {
                        0
                    },
                    None => 0,
                };
                &&& evs.len() == ems.len() + nu
                &&& forall|j: int|
                    0 <= j < ems.len() ==> assistant_item_event(
                        ems[j],
                        #[trigger] evs[j],
                        model@,
                        sid,
                        ts,
                        now,
                        (first + j) as nat,
                    )
                &&& nu == 1 ==> usage_event(
                    usage->Some_0,
                    evs[ems.len() as int],
                    model@,
                    sid,
                    ts,
                    now,
                    (first + ems.len()) as nat,
                )
            },
            SessionRecord::Other => evs.len() == 0,
        },
    ensures
        forall|j: int|
            0 <= j < evs.len() ==> (#[trigger] evs[j]).agent_id@ == "lead"@ && evs[j].received_at@
                == now && evs[j].status is Okay && evs[j].latency_ms is None
                && evs[j].metadata.source@ == "claude_session"@ && evs[j].id@ == spec_event_id(
                (first + j) as nat,
            ),
{
    match rec {
        SessionRecord::User { .. } => {
        },
        SessionRecord::Assistant { model, items, usage } => {
            let ems = emitted(items@);
            assert forall|j: int|
                0 <= j < evs.len() implies (#[trigger] evs[j]).agent_id@ == "lead"@
                && evs[j].received_at@ == now && evs[j].status is Okay && evs[j].latency_ms is None
                && evs[j].metadata.source@ == "claude_session"@ && evs[j].id@ == spec_event_id(
                (first + j) as nat,
            ) by {
                if j < ems.len() {
                    assert(assistant_item_event(
                        ems[j],
                        evs[j],
                        model@,
                        sid,
                        ts,
                        now,
                        (first + j) as nat,
                    ));
                    match ems[j] {
                        ContentItem::Text { .. } => {},
                        ContentItem::ToolUse { .. } => {},
                        ContentItem::Other => {},
                    }
                } else {
                    assert(j == ems.len());
                    assert(usage_event(
                        usage->Some_0,
                        evs[j],
                        model@,
                        sid,
                        ts,
                        now,
                        (first + j) as nat,
                    ));
                }
            }
        },
        SessionRecord::Other => {
        },
    }
}

} // verus!
