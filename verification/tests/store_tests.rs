use fleet_monitor::clock::now_iso;
use fleet_monitor::event::{AgentRow, Event, IdCounter};
use fleet_monitor::parsers::metadata_from_value;
use fleet_monitor::snapshot::{build_snapshot, workflow_row};
use fleet_monitor::sse::SseRegistry;
use fleet_monitor::status::Status;
use fleet_monitor::store::State;

fn make_test_event(status: &str, event: &str, agent_id: &str, meta_json: &str) -> Event {
    let v: serde_json::Value = serde_json::from_str(meta_json).unwrap();
    Event {
        id: "e0".to_string(),
        agent_id: agent_id.to_string(),
        event: event.to_string(),
        status: Status::parse(status),
        latency_ms: None,
        message: "test".to_string(),
        metadata: metadata_from_value(&v),
        timestamp: "2025-01-01T00:00:00Z".to_string(),
        received_at: "2025-01-01T00:00:00Z".to_string(),
    }
}

fn agent_row(agent_id: &str, totals: (u64, u64, u64, u64), last_event: &str) -> AgentRow {
    AgentRow {
        agent_id: agent_id.to_string(),
        last_seen: "2025-01-01T00:00:00Z".to_string(),
        total: totals.0,
        ok: totals.1,
        warning: totals.2,
        error: totals.3,
        token_total: 0,
        cost_micro_usd: 0,
        last_event: last_event.to_string(),
        latency_ms: None,
    }
}

#[test]
fn test_workflow_row_idle_when_agent_missing() {
    let state = State::new();
    let row = workflow_row(&state, "missing-agent");
    assert_eq!(row.role_id, "missing-agent");
    assert!(!row.active);
    assert_eq!(row.status, "idle");
    assert_eq!(row.total, 0);
    assert!(row.last_seen.is_none());
}

#[test]
fn test_workflow_row_running() {
    let mut state = State::new();
    state.agents.push(agent_row("agent-1", (5, 5, 0, 0), "heartbeat"));
    let row = workflow_row(&state, "agent-1");
    assert!(row.active);
    assert_eq!(row.status, "running");
    assert_eq!(row.total, 5);
}

#[test]
fn test_workflow_row_at_risk() {
    let mut state = State::new();
    state.agents.push(agent_row("agent-1", (3, 1, 2, 0), "warn"));
    let row = workflow_row(&state, "agent-1");
    assert_eq!(row.status, "at-risk");
}

#[test]
fn test_workflow_row_blocked() {
    let mut state = State::new();
    state.agents.push(agent_row("agent-1", (2, 0, 1, 1), "error"));
    let row = workflow_row(&state, "agent-1");
    assert_eq!(row.status, "blocked");
}

#[test]
fn test_workflow_row_idle_with_zero_total() {
    let mut state = State::new();
    state.agents.push(agent_row("agent-1", (0, 0, 0, 0), "-"));
    let row = workflow_row(&state, "agent-1");
    assert!(row.active);
    assert_eq!(row.status, "idle");
}

#[test]
fn test_build_snapshot_empty_state() {
    let state = State::new();
    let snap = build_snapshot(&state, now_iso());
    assert!(snap.agents.is_empty());
    assert!(snap.sources.is_empty());
    assert!(snap.recent.is_empty());
    assert!(snap.alerts.is_empty());
    assert!(snap.workflow_progress.is_empty());
    assert_eq!(snap.totals.agents, 0);
}

#[test]
fn test_build_snapshot_with_agents() {
    let mut state = State::new();
    let mut a1 = agent_row("a1", (10, 7, 2, 1), "test");
    a1.token_total = 100;
    a1.cost_micro_usd = 500_000;
    a1.latency_ms = Some(42);
    a1.last_seen = now_iso();
    state.agents.push(a1);
    let mut a2 = agent_row("a2", (5, 5, 0, 0), "ok");
    a2.token_total = 50;
    a2.cost_micro_usd = 100_000;
    a2.last_seen = now_iso();
    state.agents.push(a2);
    let snap = build_snapshot(&state, now_iso());
    assert_eq!(snap.agents.len(), 2);
    assert_eq!(snap.totals.agents, 2);
    assert_eq!(snap.totals.total, 15);
    assert_eq!(snap.totals.ok, 12);
    assert_eq!(snap.totals.warning, 2);
    assert_eq!(snap.totals.error, 1);
    assert_eq!(snap.totals.token_total, 150);
    assert_eq!(snap.workflow_progress.len(), 2);
}

#[test]
fn test_build_snapshot_sorts_agents() {
    let mut state = State::new();
    state.agents.push(agent_row("zeta", (1, 1, 0, 0), "x"));
    state.agents.push(agent_row("alpha", (1, 1, 0, 0), "x"));
    state.agents.push(agent_row("mid", (1, 1, 0, 0), "x"));
    let snap = build_snapshot(&state, now_iso());
    assert_eq!(snap.agents[0].agent_id, "alpha");
    assert_eq!(snap.agents[1].agent_id, "mid");
    assert_eq!(snap.agents[2].agent_id, "zeta");
}

#[test]
fn test_append_event_adds_to_recent() {
    let mut state = State::new();
    let mut ids = IdCounter::new(1);
    let evt = make_test_event("ok", "ping", "agent-1", "{}");
    state.append_event(evt, &mut ids);
    assert_eq!(state.recent.len(), 1);
    assert_eq!(state.recent[0].event, "ping");
}

#[test]
fn test_append_event_updates_agent_counters() {
    let mut state = State::new();
    let mut ids = IdCounter::new(1);
    state.append_event(make_test_event("ok", "e1", "a1", "{}"), &mut ids);
    state.append_event(make_test_event("error", "e2", "a1", "{}"), &mut ids);
    state.append_event(make_test_event("warning", "e3", "a1", "{}"), &mut ids);
    assert_eq!(state.agents.len(), 1);
    let row = &state.agents[0];
    assert_eq!(row.total, 3);
    assert_eq!(row.ok, 1);
    assert_eq!(row.error, 1);
    assert_eq!(row.warning, 1);
}

#[test]
fn test_append_event_creates_alerts_for_error_and_warning() {
    let mut state = State::new();
    let mut ids = IdCounter::new(1);
    state.append_event(make_test_event("ok", "e1", "a1", "{}"), &mut ids);
    state.append_event(make_test_event("error", "e2", "a1", "{}"), &mut ids);
    state.append_event(make_test_event("warning", "e3", "a1", "{}"), &mut ids);
    assert_eq!(state.alerts.len(), 2);
    assert_eq!(state.alerts[0].severity.text(), "warning");
    assert_eq!(state.alerts[1].severity.text(), "error");
}

#[test]
fn test_append_event_recent_truncates_at_200() {
    let mut state = State::new();
    let mut ids = IdCounter::new(1);
    for i in 0..210 {
        state.append_event(
            make_test_event("ok", &format!("e{}", i), "a1", "{}"),
            &mut ids,
        );
    }
    assert_eq!(state.recent.len(), 200);
}

#[test]
fn test_append_event_alerts_truncates_at_120() {
    let mut state = State::new();
    let mut ids = IdCounter::new(1);
    for i in 0..130 {
        state.append_event(
            make_test_event("error", &format!("e{}", i), "a1", "{}"),
            &mut ids,
        );
    }
    assert_eq!(state.alerts.len(), 120);
}

#[test]
fn test_append_event_token_and_cost_accumulation() {
    let mut state = State::new();
    let mut ids = IdCounter::new(1);
    let meta = r#"{"tokenUsage":{"totalTokens":100}}"#;
    state.append_event(make_test_event("ok", "msg", "a1", meta), &mut ids);
    let cost_meta = r#"{"costDelta":0.05}"#;
    state.append_event(make_test_event("ok", "cost_update", "a1", cost_meta), &mut ids);
    assert_eq!(state.token_total, 100);
    assert_eq!(state.cost_total_micro, 50_000);
    let row = &state.agents[0];
    assert_eq!(row.token_total, 100);
    assert_eq!(row.cost_micro_usd, 50_000);
}

#[test]
fn test_append_event_source_tracking() {
    let mut state = State::new();
    let mut ids = IdCounter::new(1);
    let meta = r#"{"source":"claude_session"}"#;
    state.append_event(make_test_event("ok", "e1", "a1", meta), &mut ids);
    state.append_event(make_test_event("error", "e2", "a1", meta), &mut ids);
    assert_eq!(state.sources.len(), 1);
    let src = &state.sources[0];
    assert_eq!(src.source, "claude_session");
    assert_eq!(src.total, 2);
    assert_eq!(src.ok, 1);
    assert_eq!(src.error, 1);
}

#[test]
fn test_append_event_default_source_is_manual() {
    let mut state = State::new();
    let mut ids = IdCounter::new(1);
    state.append_event(make_test_event("ok", "e1", "a1", "{}"), &mut ids);
    assert!(state.sources.iter().any(|s| s.source == "manual"));
}

#[test]
fn test_append_event_empty_message_becomes_no_message_in_alert() {
    let mut state = State::new();
    let mut ids = IdCounter::new(1);
    let mut evt = make_test_event("error", "e1", "a1", "{}");
    evt.message = "".to_string();
    state.append_event(evt, &mut ids);
    assert_eq!(state.alerts[0].message, "No message");
}

#[test]
fn test_append_event_cost_ignored_for_other_kinds() {
    let mut state = State::new();
    let mut ids = IdCounter::new(1);
    // a positive delta on a kind other than cost_update contributes nothing
    let meta = r#"{"costDelta":2.5}"#;
    state.append_event(make_test_event("ok", "heartbeat", "a1", meta), &mut ids);
    assert_eq!(state.cost_total_micro, 0);
}

#[test]
fn test_append_event_alert_ids_advance() {
    let mut state = State::new();
    let mut ids = IdCounter::new(1);
    state.append_event(make_test_event("error", "e1", "a1", "{}"), &mut ids);
    state.append_event(make_test_event("warning", "e2", "a1", "{}"), &mut ids);
    assert_eq!(state.alerts[1].id, "a1");
    assert_eq!(state.alerts[0].id, "a2");
}

#[test]
fn test_seed_cost_baseline() {
    let mut state = State::new();
    state.seed_cost_baseline(1_000_000);
    assert_eq!(state.cost_total_micro, 1_000_000);
    let mut ids = IdCounter::new(1);
    let cost_meta = r#"{"costDelta":1.5}"#;
    state.append_event(make_test_event("ok", "cost_update", "a1", cost_meta), &mut ids);
    assert_eq!(state.cost_total_micro, 2_500_000);
}

#[test]
fn test_try_append_event_accepts_ordinary_events() {
    let mut state = State::new();
    let mut ids = IdCounter::new(1);
    assert!(state.try_append_event(make_test_event("ok", "e1", "a1", "{}"), &mut ids));
    assert_eq!(state.recent.len(), 1);
}

#[test]
fn test_broadcast_sse_delivers_to_clients() {
    let mut reg = SseRegistry::new();
    let (tx, rx) = std::sync::mpsc::channel::<String>();
    reg.subscribe(tx);
    reg.broadcast(&"hello".to_string());
    assert_eq!(rx.recv().unwrap(), "hello");
}

#[test]
fn test_broadcast_sse_removes_disconnected_clients() {
    let mut reg = SseRegistry::new();
    let (tx, rx) = std::sync::mpsc::channel::<String>();
    reg.subscribe(tx);
    drop(rx);
    reg.broadcast(&"hello".to_string());
    assert_eq!(reg.client_count(), 0);
}
