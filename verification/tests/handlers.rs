use laya_gateway::decide::{AnswerOutcome, DecideInput, ToolInfo};
use laya_gateway::error::ApiError;
use laya_gateway::handlers::{
    apply_tool_choice, event_for_request, laya_error_outcome, model_of, outcome_of_answers, plan_route, usage_of,
    RoutePlan, ToolChoiceOverride,
};
use laya_gateway::json::{JsonNumber, JsonValue};
use laya_gateway::stats::{DecisionMode, Stats};

fn s(text: &str) -> JsonValue {
    JsonValue::String(text.to_string())
}

fn obj(members: Vec<(&str, JsonValue)>) -> JsonValue {
    JsonValue::Object(members.into_iter().map(|(k, v)| (k.to_string(), v)).collect())
}

fn one_tool() -> DecideInput {
    DecideInput {
        system: String::new(),
        last_user: "hi".into(),
        tools: vec![ToolInfo { name: "bash".into(), description: String::new() }],
        tool_choice_decided: false,
    }
}

#[test]
fn routing_off_passes_through() {
    match plan_route(false, &one_tool(), None) {
        RoutePlan::Decided(o) => {
            assert_eq!(o.mode, DecisionMode::Passthrough);
            assert_eq!(o.reason, Some("routing_off".to_string()));
            assert_eq!(o.tool_choice, ToolChoiceOverride::Keep);
        }
        RoutePlan::AskLaya(_) => panic!("expected a decision"),
    }
}

#[test]
fn skipped_request_passes_through() {
    let mut input = one_tool();
    input.tools.clear();
    match plan_route(true, &input, None) {
        RoutePlan::Decided(o) => assert_eq!(o.reason, Some("no_tools".to_string())),
        RoutePlan::AskLaya(_) => panic!("expected a decision"),
    }
}

#[test]
fn routable_request_asks_laya() {
    match plan_route(true, &one_tool(), Some("laya-1".into())) {
        RoutePlan::AskLaya(q) => {
            assert_eq!(q.model, Some("laya-1".to_string()));
            assert!(q.state_body.ends_with("- bash: "));
        }
        RoutePlan::Decided(_) => panic!("expected a request"),
    }
}

#[test]
fn outcomes_of_answers() {
    let f = outcome_of_answers(AnswerOutcome::Forced("bash".into()), String::new());
    assert_eq!(f.mode, DecisionMode::Forced);
    assert_eq!(f.tool, Some("bash".to_string()));
    assert_eq!(f.tool_choice, ToolChoiceOverride::Function("bash".into()));
    let n = outcome_of_answers(AnswerOutcome::NoTool, String::new());
    assert_eq!(n.mode, DecisionMode::NoTool);
    assert_eq!(n.tool_choice, ToolChoiceOverride::PlainText);
    let m = outcome_of_answers(AnswerOutcome::MissingToolAnswer, String::new());
    assert_eq!(m.reason, Some("laya_missing_tool_answer".to_string()));
    let l = outcome_of_answers(AnswerOutcome::LowConfidence, "low_confidence:0.200".into());
    assert_eq!(l.mode, DecisionMode::Passthrough);
    assert_eq!(l.reason, Some("low_confidence:0.200".to_string()));
}

#[test]
fn laya_failure_is_fail_open() {
    let o = laya_error_outcome("timeout");
    assert_eq!(o.mode, DecisionMode::Passthrough);
    assert_eq!(o.reason, Some("laya_error:timeout".to_string()));
    let mut payload = obj(vec![("model", s("gpt")), ("tool_choice", s("auto"))]);
    apply_tool_choice(&mut payload, &o.tool_choice);
    assert_eq!(format!("{payload:?}"), format!("{:?}", obj(vec![("model", s("gpt")), ("tool_choice", s("auto"))])));
}

#[test]
fn tool_choice_is_set() {
    let mut payload = obj(vec![("model", s("gpt")), ("tool_choice", s("auto"))]);
    apply_tool_choice(&mut payload, &ToolChoiceOverride::PlainText);
    assert_eq!(
        format!("{payload:?}"),
        format!("{:?}", obj(vec![("model", s("gpt")), ("tool_choice", s("none"))]))
    );
    let mut payload = obj(vec![("model", s("gpt"))]);
    apply_tool_choice(&mut payload, &ToolChoiceOverride::Function("bash".into()));
    let expected = obj(vec![
        ("model", s("gpt")),
        (
            "tool_choice",
            obj(vec![("function", obj(vec![("name", s("bash"))])), ("type", s("function"))]),
        ),
    ]);
    assert_eq!(format!("{payload:?}"), format!("{expected:?}"));
    let mut not_object = s("x");
    apply_tool_choice(&mut not_object, &ToolChoiceOverride::PlainText);
    assert_eq!(format!("{not_object:?}"), format!("{:?}", s("x")));
}

#[test]
fn model_and_usage() {
    let body = obj(vec![
        ("model", s("gpt")),
        (
            "usage",
            obj(vec![
                ("prompt_tokens", JsonValue::Number(JsonNumber::PosInt(12))),
                ("completion_tokens", JsonValue::Number(JsonNumber::NegInt(-1))),
            ]),
        ),
    ]);
    assert_eq!(model_of(&body), Some("gpt".to_string()));
    assert_eq!(usage_of(&body), (Some(12), None));
    assert_eq!(model_of(&s("x")), None);
    assert_eq!(usage_of(&JsonValue::Null), (None, None));
}

#[test]
fn api_error_responses() {
    assert_eq!(ApiError::Upstream("down".into()).response_parts(), (502, "down".to_string()));
    assert_eq!(ApiError::Other("boom".into()).response_parts(), (500, "boom".to_string()));
}

#[test]
fn event_carries_route_and_metadata_only() {
    let forced = outcome_of_answers(AnswerOutcome::Forced("bash".into()), String::new());
    let e = event_for_request(
        forced,
        Some(0.9f64.to_bits()),
        1_700_000_000,
        7,
        Some(12),
        Some(340),
        Some(10),
        Some(20),
        Some("gpt".into()),
        2,
    );
    assert_eq!(e.id, "");
    assert_eq!(e.mode, DecisionMode::Forced);
    assert_eq!(e.tool, Some("bash".to_string()));
    assert_eq!(e.reason, None);
    assert_eq!(e.confidence_bits, Some(0.9f64.to_bits()));
    assert_eq!((e.at_unix_secs, e.at_nanos), (1_700_000_000, 7));
    assert_eq!((e.laya_latency_ms, e.upstream_latency_ms), (Some(12), Some(340)));
    assert_eq!((e.prompt_tokens, e.completion_tokens), (Some(10), Some(20)));
    assert_eq!(e.model, Some("gpt".to_string()));
    assert_eq!(e.tools_count, 2);

    let mut stats = Stats::new(4, true);
    stats.record(e);
    let kept = stats.snapshot().events;
    assert_eq!(kept[0].id.chars().count(), 36);

    let low = outcome_of_answers(AnswerOutcome::LowConfidence, "low_confidence:0.100".into());
    let p = event_for_request(low, Some(0.1f64.to_bits()), 0, 0, Some(5), None, None, None, None, 1);
    assert_eq!(p.mode, DecisionMode::Passthrough);
    assert_eq!(p.confidence_bits, None);
    assert_eq!(p.reason, Some("low_confidence:0.100".to_string()));
}
