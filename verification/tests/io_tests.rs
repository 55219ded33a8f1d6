use fleet_monitor::clock::now_iso;
use fleet_monitor::event::IdCounter;
use fleet_monitor::http::{parse_request_head, static_candidate};
use fleet_monitor::jsonout::{alerts_body, event_frame, snapshot_frame, snapshot_json};
use fleet_monitor::parsers::metadata_from_value;
use fleet_monitor::snapshot::build_snapshot;
use fleet_monitor::status::Status;
use fleet_monitor::store::State;
use fleet_monitor::tailer::{tail_lines, TailCursor};

fn lines_as_strings(lines: Vec<Vec<u8>>) -> Vec<String> {
    lines
        .into_iter()
        .map(|l| String::from_utf8(l).unwrap())
        .collect()
}

#[test]
fn test_cursor_reads_each_line_once() {
    let mut cursor = TailCursor::new();
    // first poll: the file holds two complete lines
    let start = cursor.prepare_read(12, 1024).unwrap();
    assert_eq!(start, 0);
    let lines = cursor.consume(&b"line1\nline2\n".to_vec(), 12);
    assert_eq!(lines_as_strings(lines), vec!["line1", "line2"]);
    // nothing new
    assert!(cursor.prepare_read(12, 1024).is_none());
    // one appended line
    let start = cursor.prepare_read(18, 1024).unwrap();
    assert_eq!(start, 12);
    let lines = cursor.consume(&b"line3\n".to_vec(), 18);
    assert_eq!(lines_as_strings(lines), vec!["line3"]);
}

#[test]
fn test_cursor_resets_on_truncation() {
    let mut cursor = TailCursor::new();
    cursor.prepare_read(14, 1024).unwrap();
    cursor.consume(&b"aaaaaa\nbbbbbb\n".to_vec(), 14);
    assert_eq!(cursor.offset, 14);
    // the file shrank: the next read starts over
    let start = cursor.prepare_read(3, 1024).unwrap();
    assert_eq!(start, 0);
    assert_eq!(cursor.offset, 0);
    let lines = cursor.consume(&b"cc\n".to_vec(), 3);
    assert_eq!(lines_as_strings(lines), vec!["cc"]);
}

#[test]
fn test_cursor_carries_partial_lines() {
    let mut cursor = TailCursor::new();
    let lines = cursor.consume(&b"first\nsec".to_vec(), 9);
    assert_eq!(lines_as_strings(lines), vec!["first"]);
    // the broken tail is completed by the next chunk, exactly once
    let lines = cursor.consume(&b"ond\nthird\n".to_vec(), 19);
    assert_eq!(lines_as_strings(lines), vec!["second", "third"]);
}

#[test]
fn test_cursor_bounded_catch_up() {
    let mut cursor = TailCursor::new();
    // a large gap is cut to the last max_bytes
    let start = cursor.prepare_read(1000, 30).unwrap();
    assert_eq!(start, 970);
}

#[test]
fn test_tail_lines_takes_the_last_n() {
    let content = b"one\ntwo\nthree\nfour".to_vec();
    assert_eq!(
        lines_as_strings(tail_lines(&content, 25)),
        vec!["one", "two", "three", "four"]
    );
    assert_eq!(
        lines_as_strings(tail_lines(&content, 2)),
        vec!["three", "four"]
    );
    assert!(tail_lines(&b"".to_vec(), 5).is_empty());
}

#[test]
fn test_parse_request_head_full() {
    let data =
        b"POST /api/events?src=ci HTTP/1.1\r\nHost: localhost\r\nContent-Length: 5\r\nX-Api-Key: secret123\r\n\r\nhello"
            .to_vec();
    let h = parse_request_head(&data).unwrap();
    assert_eq!(h.method, "POST");
    assert_eq!(h.path, "/api/events");
    assert_eq!(h.content_length, 5);
    assert_eq!(h.api_key, Some(b"secret123".to_vec()));
    assert_eq!(&data[h.body_start..h.body_start + h.content_length], b"hello");
}

#[test]
fn test_parse_request_head_defaults() {
    let data = b"GET /api/health HTTP/1.1\r\nHost: localhost\r\n\r\n".to_vec();
    let h = parse_request_head(&data).unwrap();
    assert_eq!(h.method, "GET");
    assert_eq!(h.path, "/api/health");
    assert_eq!(h.content_length, 0);
    assert!(h.api_key.is_none());
}

#[test]
fn test_parse_request_head_header_names_ignore_case() {
    let data = b"POST /api/events HTTP/1.1\r\ncOnTeNt-LeNgTh: 2\r\n\r\nok".to_vec();
    let h = parse_request_head(&data).unwrap();
    assert_eq!(h.content_length, 2);
}

#[test]
fn test_parse_request_head_rejects() {
    // no blank line yet: keep reading
    assert!(parse_request_head(&b"GET / HTTP/1.1\r\nHost: x\r\n".to_vec()).is_none());
    // no path token
    assert!(parse_request_head(&b"GET\r\n\r\n".to_vec()).is_none());
    // chunked bodies are refused, alone or as a list member
    let chunked = b"POST /api/events HTTP/1.1\r\nTransfer-Encoding: chunked\r\n\r\n".to_vec();
    assert!(parse_request_head(&chunked).is_none());
    let listed = b"POST /api/events HTTP/1.1\r\nTransfer-Encoding: gzip, chunked\r\n\r\n".to_vec();
    assert!(parse_request_head(&listed).is_none());
    let other = b"POST /api/events HTTP/1.1\r\nTransfer-Encoding: gzip\r\nContent-Length: 2\r\n\r\nok".to_vec();
    assert!(parse_request_head(&other).is_some());
    // oversize declared body
    let big = b"POST /api/events HTTP/1.1\r\nContent-Length: 2000000\r\n\r\n".to_vec();
    assert!(parse_request_head(&big).is_none());
}

#[test]
fn test_event_frame_wire_shape() {
    let mut ids = IdCounter::new(1);
    let v: serde_json::Value = serde_json::from_str(r#"{"source":"manual"}"#).unwrap();
    let evt = fleet_monitor::event::Event {
        id: fleet_monitor::event::event_id(ids.take()),
        agent_id: "a1".to_string(),
        event: "test".to_string(),
        status: Status::Okay,
        latency_ms: Some(12),
        message: "hi \"there\"".to_string(),
        metadata: metadata_from_value(&v),
        timestamp: "2025-01-01T00:00:00Z".to_string(),
        received_at: "2025-01-01T00:00:00Z".to_string(),
    };
    let frame = event_frame(&evt);
    assert!(frame.starts_with("data: {\"type\":\"event\",\"payload\":"));
    assert!(frame.ends_with("}\n\n"));
    let json_part = &frame["data: ".len()..frame.len() - 2];
    let v: serde_json::Value = serde_json::from_str(json_part).unwrap();
    assert_eq!(v["payload"]["id"], "e1");
    assert_eq!(v["payload"]["agentId"], "a1");
    assert_eq!(v["payload"]["latencyMs"], 12);
    assert_eq!(v["payload"]["message"], "hi \"there\"");
    assert_eq!(v["payload"]["metadata"]["source"], "manual");
}

#[test]
fn test_snapshot_json_round_trips() {
    let mut state = State::new();
    let mut ids = IdCounter::new(1);
    let v: serde_json::Value = serde_json::from_str("{}").unwrap();
    let evt = fleet_monitor::event::Event {
        id: fleet_monitor::event::event_id(ids.take()),
        agent_id: "a1".to_string(),
        event: "test".to_string(),
        status: Status::Okay,
        latency_ms: None,
        message: "m".to_string(),
        metadata: metadata_from_value(&v),
        timestamp: "2025-01-01T00:00:00Z".to_string(),
        received_at: "2025-01-01T00:00:00Z".to_string(),
    };
    state.append_event(evt, &mut ids);
    let snap = build_snapshot(&state, "2025-01-01T00:00:01Z".to_string());
    let text = snapshot_json(&snap);
    let v: serde_json::Value = serde_json::from_str(&text).unwrap();
    assert_eq!(v["generatedAt"], "2025-01-01T00:00:01Z");
    assert_eq!(v["totals"]["agents"], 1);
    assert_eq!(v["totals"]["total"], 1);
    assert_eq!(v["agents"][0]["agentId"], "a1");
    assert_eq!(v["recent"][0]["event"], "test");
    assert_eq!(v["workflowProgress"][0]["status"], "running");
    assert_eq!(v["sources"][0]["source"], "manual");
}

#[test]
fn test_static_candidate_rewrites_root() {
    assert_eq!(static_candidate("/"), "/index.html");
    assert_eq!(static_candidate("/app.js"), "/app.js");
}

#[test]
fn test_snapshot_frame_wire_shape() {
    let state = State::new();
    let snap = build_snapshot(&state, "2025-01-01T00:00:00Z".to_string());
    let frame = snapshot_frame(&snap);
    assert!(frame.starts_with("data: {\"type\":\"snapshot\",\"payload\":{"));
    assert!(frame.ends_with("}\n\n"));
    let json_part = &frame["data: ".len()..frame.len() - 2];
    let v: serde_json::Value = serde_json::from_str(json_part).unwrap();
    assert_eq!(v["payload"]["totals"]["agents"], 0);
}

#[test]
fn test_pushed_event_heads_snapshot_recent() {
    // a pushed payload is visible at the head of the next snapshot
    let mut state = State::new();
    let mut ids = IdCounter::new(1);
    let payload: serde_json::Value =
        serde_json::from_str(r#"{"agentId":"a1","event":"test","status":"ok"}"#).unwrap();
    let evt = fleet_monitor::parsers::normalize_incoming(&payload, &mut ids, &now_iso());
    let id = evt.id.clone();
    state.append_event(evt, &mut ids);
    assert_eq!(id, "e1");
    let snap = build_snapshot(&state, now_iso());
    assert_eq!(snap.recent[0].event, "test");
    assert_eq!(snap.agents[0].agent_id, "a1");
    assert_eq!(snap.agents[0].total, 1);
    assert_eq!(snap.totals.total, 1);
}

#[test]
fn test_alerts_body_limits_and_serializes() {
    let mut state = State::new();
    let mut ids = IdCounter::new(1);
    let v: serde_json::Value = serde_json::from_str("{}").unwrap();
    for i in 0..60 {
        let evt = fleet_monitor::event::Event {
            id: fleet_monitor::event::event_id(ids.take()),
            agent_id: "a1".to_string(),
            event: format!("k{}", i),
            status: Status::Error,
            latency_ms: None,
            message: "boom".to_string(),
            metadata: metadata_from_value(&v),
            timestamp: "2025-01-01T00:00:00Z".to_string(),
            received_at: "2025-01-01T00:00:00Z".to_string(),
        };
        state.append_event(evt, &mut ids);
    }
    let body = alerts_body(&state.alerts, 50);
    let v: serde_json::Value = serde_json::from_str(&body).unwrap();
    assert_eq!(v["alerts"].as_array().unwrap().len(), 50);
    assert_eq!(v["alerts"][0]["severity"], "error");
    assert_eq!(v["alerts"][0]["message"], "boom");
}
