use fleet_monitor::event::IdCounter;
use fleet_monitor::parsers::{
    metadata_from_value, normalize_incoming, parse_history_event, parse_session_line,
};
use fleet_monitor::stats::{cost_event_from_totals, stats_total_micro, StatsTracker};
use fleet_monitor::status::Status;

const NOW: &str = "2025-06-01T12:00:00Z";

fn payload(text: &str) -> serde_json::Value {
    serde_json::from_str(text).unwrap()
}

#[test]
fn test_normalize_incoming_full_payload() {
    let payload = payload(
        r#"{"agentId":"bot-1","event":"task_complete","status":"ok","latencyMs":123,
            "message":"done","timestamp":"2025-06-01T00:00:00Z","metadata":{"source":"test"}}"#,
    );
    let mut ids = IdCounter::new(1);
    let evt = normalize_incoming(&payload, &mut ids, NOW);
    assert_eq!(evt.agent_id, "bot-1");
    assert_eq!(evt.event, "task_complete");
    assert_eq!(evt.status.text(), "ok");
    assert_eq!(evt.latency_ms, Some(123));
    assert_eq!(evt.message, "done");
    assert_eq!(evt.timestamp, "2025-06-01T00:00:00Z");
    assert!(evt.id.starts_with('e'));
}

#[test]
fn test_normalize_incoming_missing_fields() {
    let payload = payload("{}");
    let mut ids = IdCounter::new(1);
    let evt = normalize_incoming(&payload, &mut ids, NOW);
    assert_eq!(evt.agent_id, "unknown-agent");
    assert_eq!(evt.event, "heartbeat");
    assert_eq!(evt.status.text(), "ok");
    assert_eq!(evt.latency_ms, None);
    assert_eq!(evt.message, "");
}

#[test]
fn test_normalize_incoming_status_normalized() {
    let payload = payload(r#"{ "status": "ERROR" }"#);
    let mut ids = IdCounter::new(1);
    let evt = normalize_incoming(&payload, &mut ids, NOW);
    assert_eq!(evt.status.text(), "error");
}

#[test]
fn test_normalize_incoming_assigns_sequential_ids() {
    let mut ids = IdCounter::new(1);
    let e1 = normalize_incoming(&payload("{}"), &mut ids, NOW);
    let e2 = normalize_incoming(&payload("{}"), &mut ids, NOW);
    assert_eq!(e1.id, "e1");
    assert_eq!(e2.id, "e2");
}

#[test]
fn test_metadata_extraction() {
    let v = payload(r#"{"source":"stats_cache","tokenUsage":{"totalTokens":42},"costDelta":0.25}"#);
    let m = metadata_from_value(&v);
    assert_eq!(m.source, "stats_cache");
    assert_eq!(m.token_total, 42);
    assert_eq!(m.cost_delta_micro, 250_000);
    let back: serde_json::Value = serde_json::from_str(&m.raw).unwrap();
    assert_eq!(back["tokenUsage"]["totalTokens"], 42);
}

#[test]
fn test_parse_history_event_valid() {
    let mut ids = IdCounter::new(1);
    let line = r#"{"text":"hello world","ts":1700000000,"session_id":"s1"}"#;
    let evt = parse_history_event(line.as_bytes(), &mut ids, NOW);
    assert!(evt.is_some());
    let evt = evt.unwrap();
    assert_eq!(evt.agent_id, "lead");
    assert_eq!(evt.event, "user_request");
    assert_eq!(evt.message, "hello world");
    assert_eq!(evt.timestamp, "2023-11-14T22:13:20Z");
    let meta: serde_json::Value = serde_json::from_str(&evt.metadata.raw).unwrap();
    assert_eq!(meta["sessionId"], "s1");
    assert_eq!(meta["source"], "claude_history");
}

#[test]
fn test_parse_history_event_invalid_json() {
    let mut ids = IdCounter::new(1);
    assert!(parse_history_event(b"not json", &mut ids, NOW).is_none());
}

#[test]
fn test_parse_history_event_missing_text() {
    let mut ids = IdCounter::new(1);
    assert!(parse_history_event(br#"{"ts":0}"#, &mut ids, NOW).is_none());
}

#[test]
fn test_parse_history_event_unrenderable_timestamp_falls_back() {
    let mut ids = IdCounter::new(1);
    // a timestamp past year 9999: the receive time stands in
    let line = r#"{"text":"x","ts":999999999999999}"#;
    let evt = parse_history_event(line.as_bytes(), &mut ids, NOW).unwrap();
    assert_eq!(evt.timestamp, NOW);
}

#[test]
fn test_parse_history_event_truncates_at_120_chars() {
    let mut ids = IdCounter::new(1);
    let long_text = "a".repeat(200);
    let line = format!(r#"{{"text":"{}","ts":0}}"#, long_text);
    let evt = parse_history_event(line.as_bytes(), &mut ids, NOW).unwrap();
    assert_eq!(evt.message.len(), 120);
}

#[test]
fn test_parse_session_line_user_message() {
    let mut ids = IdCounter::new(1);
    let line = r#"{"type":"user","message":{"content":"hi"},"sessionId":"s1","timestamp":"2025-01-01T00:00:00Z"}"#;
    let events = parse_session_line(line.as_bytes(), &mut ids, NOW);
    assert_eq!(events.len(), 1);
    assert_eq!(events[0].event, "user_message");
    assert_eq!(events[0].message, "hi");
}

#[test]
fn test_parse_session_line_user_empty_content_ignored() {
    let mut ids = IdCounter::new(1);
    let line = r#"{"type":"user","message":{"content":""},"sessionId":"s1"}"#;
    let events = parse_session_line(line.as_bytes(), &mut ids, NOW);
    assert!(events.is_empty());
}

#[test]
fn test_parse_session_line_assistant_text_and_tool() {
    let mut ids = IdCounter::new(1);
    let line = r#"{"type":"assistant","message":{"model":"m-3","content":[{"type":"text","text":"hello"},{"type":"tool_use","name":"bash","input":{}}]},"sessionId":"s1","timestamp":"2025-01-01T00:00:00Z"}"#;
    let events = parse_session_line(line.as_bytes(), &mut ids, NOW);
    assert_eq!(events.len(), 2);
    assert_eq!(events[0].event, "assistant_message");
    assert_eq!(events[0].message, "hello");
    assert_eq!(events[1].event, "tool_call");
    assert_eq!(events[1].message, "bash");
}

#[test]
fn test_parse_session_line_assistant_with_usage() {
    let mut ids = IdCounter::new(1);
    let line = r#"{"type":"assistant","message":{"model":"m-3","content":[{"type":"text","text":"hi"}],"usage":{"input_tokens":100,"output_tokens":50,"cache_read_input_tokens":10}},"sessionId":"s1","timestamp":"2025-01-01T00:00:00Z"}"#;
    let events = parse_session_line(line.as_bytes(), &mut ids, NOW);
    assert_eq!(events.len(), 2);
    assert_eq!(events[1].event, "token_usage");
    assert!(events[1].message.contains("150"));
    assert_eq!(events[1].metadata.token_total, 150);
}

#[test]
fn test_parse_session_line_unknown_type_ignored() {
    let mut ids = IdCounter::new(1);
    let line = r#"{"type":"system","message":{},"sessionId":"s1"}"#;
    let events = parse_session_line(line.as_bytes(), &mut ids, NOW);
    assert!(events.is_empty());
}

#[test]
fn test_parse_session_line_invalid_json() {
    let mut ids = IdCounter::new(1);
    let events = parse_session_line(b"not json", &mut ids, NOW);
    assert!(events.is_empty());
}

#[test]
fn test_parse_session_line_assistant_empty_text_ignored() {
    let mut ids = IdCounter::new(1);
    let line = r#"{"type":"assistant","message":{"model":"m","content":[{"type":"text","text":""}]},"sessionId":"s1","timestamp":"2025-01-01T00:00:00Z"}"#;
    let events = parse_session_line(line.as_bytes(), &mut ids, NOW);
    assert!(events.is_empty());
}

#[test]
fn test_parse_session_line_assistant_unknown_content_item() {
    let mut ids = IdCounter::new(1);
    let line = r#"{"type":"assistant","message":{"model":"m","content":[{"type":"image","url":"x"}]},"sessionId":"s1","timestamp":"2025-01-01T00:00:00Z"}"#;
    let events = parse_session_line(line.as_bytes(), &mut ids, NOW);
    assert!(events.is_empty());
}

#[test]
fn test_session_events_in_file_order() {
    let mut ids = IdCounter::new(5);
    let line = r#"{"type":"assistant","message":{"model":"m","content":[{"type":"text","text":"one"},{"type":"text","text":""},{"type":"tool_use","name":"grep","input":{"q":1}}]},"sessionId":"s9","timestamp":"2025-01-01T00:00:00Z"}"#;
    let events = parse_session_line(line.as_bytes(), &mut ids, NOW);
    assert_eq!(events.len(), 2);
    assert_eq!(events[0].id, "e5");
    assert_eq!(events[1].id, "e6");
    assert_eq!(events[1].event, "tool_call");
    let meta: serde_json::Value = serde_json::from_str(&events[1].metadata.raw).unwrap();
    assert_eq!(meta["toolInput"]["q"], 1);
}

#[test]
fn test_stats_total_sums_models() {
    let text = br#"{"modelUsage":{"m1":{"costUSD":1.0},"m2":{"costUSD":0.25}}}"#;
    assert_eq!(stats_total_micro(text), Some(1_250_000));
    assert_eq!(stats_total_micro(b"not json"), None);
    assert_eq!(stats_total_micro(br#"{"other":1}"#), None);
    // an entry without a plain decimal cost contributes nothing
    let partial = br#"{"modelUsage":{"m1":{"costUSD":2.0},"m2":{"note":"x"}}}"#;
    assert_eq!(stats_total_micro(partial), Some(2_000_000));
}

#[test]
fn test_stats_tracker_emits_only_positive_deltas() {
    // the startup observation seeds the tracker, no event
    let mut t = StatsTracker::seeded(1_000_000);
    // cost rose: one delta
    assert_eq!(t.observe(2_500_000), Some(1_500_000));
    // rose again
    assert_eq!(t.observe(3_000_000), Some(500_000));
    // fell: nothing comes out
    assert_eq!(t.observe(2_000_000), None);
}

#[test]
fn test_stats_tracker_first_observation_emits_nothing() {
    let mut t = StatsTracker::new();
    assert_eq!(t.observe(1_500_000), None);
    assert_eq!(t.observe(2_000_000), Some(500_000));
}

#[test]
fn test_cost_event_shape() {
    let mut ids = IdCounter::new(9);
    let evt = cost_event_from_totals(1_500_000, 2_500_000, &mut ids, NOW);
    assert_eq!(evt.id, "e9");
    assert_eq!(evt.agent_id, "lead");
    assert_eq!(evt.event, "cost_update");
    assert_eq!(evt.status, Status::Okay);
    assert_eq!(evt.message, "cost +$1.500000");
    assert_eq!(evt.metadata.cost_delta_micro, 1_500_000);
    let meta: serde_json::Value = serde_json::from_str(&evt.metadata.raw).unwrap();
    assert_eq!(meta["source"], "stats_cache");
    assert_eq!(meta["costDelta"], 1.5);
    assert_eq!(meta["costTotalUsd"], 2.5);
}
