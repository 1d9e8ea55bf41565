use laya_gateway::stats::{DecisionMode, GatewayEvent, Stats};

fn event(id: &str, mode: DecisionMode, latency: Option<u64>) -> GatewayEvent {
    GatewayEvent {
        id: id.to_string(),
        at_unix_secs: 1_700_000_000,
        at_nanos: 5,
        mode,
        reason: None,
        tool: None,
        confidence_bits: None,
        laya_latency_ms: latency,
        upstream_latency_ms: Some(10),
        prompt_tokens: None,
        completion_tokens: None,
        model: Some("gpt".to_string()),
        tools_count: 3,
    }
}

#[test]
fn counters_by_mode() {
    let mut s = Stats::new(10, true);
    s.record(event("a", DecisionMode::Forced, Some(40)));
    s.record(event("b", DecisionMode::NoTool, Some(60)));
    s.record(event("c", DecisionMode::Passthrough, None));
    s.bump_laya_error();
    let snap = s.snapshot();
    let c = snap.counters;
    assert_eq!(c.requests, 3);
    assert_eq!(c.routed, 2);
    assert_eq!(c.forced, 1);
    assert_eq!(c.no_tool, 1);
    assert_eq!(c.passthrough, 1);
    assert_eq!(c.laya_errors, 1);
    assert_eq!(c.laya_calls, 2);
    assert_eq!(c.laya_latency_sum_ms, 100);
    assert!(snap.routing_enabled);
}

#[test]
fn log_keeps_latest_newest_first() {
    let mut s = Stats::new(2, false);
    for id in ["1", "2", "3"] {
        s.record(event(id, DecisionMode::Passthrough, None));
    }
    let ids: Vec<String> = s.snapshot().events.into_iter().map(|e| e.id).collect();
    assert_eq!(ids, vec!["3".to_string(), "2".to_string()]);
}

#[test]
fn log_with_zero_capacity_keeps_one() {
    let mut s = Stats::new(0, true);
    s.record(event("1", DecisionMode::Forced, None));
    s.record(event("2", DecisionMode::Forced, None));
    let events = s.snapshot().events;
    assert_eq!(events.len(), 1);
    assert_eq!(events[0].id, "2");
}

#[test]
fn empty_id_gets_uuid() {
    let mut s = Stats::new(5, true);
    s.record(event("", DecisionMode::NoTool, None));
    let events = s.snapshot().events;
    assert_eq!(events[0].id.chars().count(), 36);
    assert_eq!(events[0].model, Some("gpt".to_string()));
    assert_eq!(events[0].tools_count, 3);
}

#[test]
fn routing_switch_reads_back() {
    let mut s = Stats::new(5, true);
    assert!(s.routing_enabled());
    s.set_routing(false);
    assert!(!s.routing_enabled());
    s.set_routing(true);
    assert!(s.routing_enabled());
}
