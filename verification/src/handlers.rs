use vstd::prelude::*;
use vstd::string::*;

use crate::decide::{
    build_request, is_request_for, safe_flags, skip_outcome, skip_reason_kind, str_member, AnswerOutcome, DecideInput,
};
use crate::json::{member, JsonValue};
use crate::laya::SystemOneRequest;
use crate::stats::{DecisionMode, GatewayEvent};

verus! {

broadcast use vstd::string::group_string_axioms;

/// The body of a request that switches routing on or off.
#[derive(Debug, Clone, Copy, PartialEq, Eq, Structural)]
pub struct RoutingBody {
    pub enabled: bool,
}

/// What becomes of the request's `tool_choice`.
#[derive(Debug, Clone, PartialEq, Eq)]
pub enum ToolChoiceOverride {
    /// Left as the agent sent it.
    Keep,
    /// Set to `"none"`: answer in plain text.
    PlainText,
    /// Set to call this function.
    Function(String),
}

/// How one chat request is routed.
#[derive(Debug, Clone)]
pub struct RouteOutcome {
    pub mode: DecisionMode,
    pub reason: Option<String>,
    pub tool: Option<String>,
    pub tool_choice: ToolChoiceOverride,
}

/// The first step for a chat request: decided at once, or ask System One.
#[derive(Debug, Clone)]
pub enum RoutePlan {
    Decided(RouteOutcome),
    AskLaya(SystemOneRequest),
}

/// A request passed through untouched, for `reason`.
pub open spec fn is_passthrough(o: RouteOutcome, reason: Seq<char>) -> bool {
    &&& o.mode == DecisionMode::Passthrough
    &&& o.reason matches Some(r) && r@ == reason
    &&& o.tool is None
    &&& o.tool_choice == ToolChoiceOverride::Keep
}

/// The mode, the reason, the tool and the `tool_choice` override of an
/// outcome agree: a pass-through keeps the request and gives a reason, a
/// plain-text answer sets `none`, a forced call sets the tool it names.
pub open spec fn outcome_consistent(o: RouteOutcome) -> bool {
    match o.mode {
        DecisionMode::Passthrough => o.reason is Some && o.tool is None && o.tool_choice
            == ToolChoiceOverride::Keep,
        DecisionMode::NoTool => o.reason is None && o.tool is None && o.tool_choice
            == ToolChoiceOverride::PlainText,
        DecisionMode::Forced => o.reason is None && (o.tool_choice matches ToolChoiceOverride::Function(
            t,
        ) && o.tool == Some(t)),
    }
}

/// A routed request is left as the agent sent it exactly when it is passed
/// through.
pub proof fn lemma_untouched_iff_passthrough(o: RouteOutcome)
    requires
        outcome_consistent(o),
    ensures
        (o.tool_choice == ToolChoiceOverride::Keep) <==> (o.mode == DecisionMode::Passthrough),
{
}

fn passthrough(reason: String) -> (o: RouteOutcome)
    ensures
        is_passthrough(o, reason@),
        outcome_consistent(o),
{
    RouteOutcome {
        mode: DecisionMode::Passthrough,
        reason: Some(reason),
        tool: None,
        tool_choice: ToolChoiceOverride::Keep,
    }
}

/// Decides whether a chat request is passed through at once (routing off,
/// or a reason to skip) or System One is asked, and with which request.
pub fn plan_route(routing_enabled: bool, input: &DecideInput, laya_model: Option<String>) -> (r:
    RoutePlan)
    ensures
        r matches RoutePlan::Decided(o) ==> outcome_consistent(o),
        !routing_enabled ==> (r matches RoutePlan::Decided(o) && is_passthrough(o, "routing_off"@)),
        routing_enabled && skip_outcome(*input, safe_flags(input.tools@)) is Some ==> (
        r matches RoutePlan::Decided(o) && is_passthrough(
            o,
            skip_outcome(*input, safe_flags(input.tools@))->0.spec_text(),
        )),
        routing_enabled && skip_outcome(*input, safe_flags(input.tools@)) is None ==> (
        r matches RoutePlan::AskLaya(q) && is_request_for(q, *input, laya_model)),
{
    if !routing_enabled {
        return RoutePlan::Decided(passthrough(String::from_str("routing_off")));
    }
    match skip_reason_kind(input) {
        Some(k) => RoutePlan::Decided(passthrough(String::from_str(k.as_str()))),
        None => RoutePlan::AskLaya(build_request(input, laya_model)),
    }
}

/// How the request is routed once System One has answered;
/// `low_confidence_reason` is the reason reported when the confidence is too
/// low.
pub fn outcome_of_answers(outcome: AnswerOutcome, low_confidence_reason: String) -> (r: RouteOutcome)
    ensures
        outcome_consistent(r),
        outcome == AnswerOutcome::MissingToolAnswer ==> is_passthrough(r, "laya_missing_tool_answer"@),
        outcome == AnswerOutcome::LowConfidence ==> is_passthrough(r, low_confidence_reason@),
        outcome == AnswerOutcome::NoTool ==> r.mode == DecisionMode::NoTool && r.reason is None
            && r.tool is None && r.tool_choice == ToolChoiceOverride::PlainText,
        outcome matches AnswerOutcome::Forced(t) ==> r.mode == DecisionMode::Forced && r.reason is None
            && r.tool == Some(t) && r.tool_choice == ToolChoiceOverride::Function(t),
{
    match outcome {
        AnswerOutcome::MissingToolAnswer => passthrough(String::from_str("laya_missing_tool_answer")),
        AnswerOutcome::LowConfidence => passthrough(low_confidence_reason),
        AnswerOutcome::NoTool => RouteOutcome {
            mode: DecisionMode::NoTool,
            reason: None,
            tool: None,
            tool_choice: ToolChoiceOverride::PlainText,
        },
        AnswerOutcome::Forced(t) => RouteOutcome {
            mode: DecisionMode::Forced,
            reason: None,
            tool: Some(t.clone()),
            tool_choice: ToolChoiceOverride::Function(t),
        },
    }
}

/// How the request is routed when System One could not be asked: passed
/// through, with the error in the reason.
pub fn laya_error_outcome(error: &str) -> (r: RouteOutcome)
    ensures
        is_passthrough(r, "laya_error:"@ + error@),
        outcome_consistent(r),
{
    let mut reason = String::from_str("laya_error:");
    reason.append(error);
    passthrough(reason)
}

/// Replacing the first member named `x.0` changes only that name's value.
pub proof fn lemma_member_update(ms: Seq<(String, JsonValue)>, j: int, x: (String, JsonValue), k: Seq<char>)
    requires
        0 <= j < ms.len(),
        ms[j].0@ == x.0@,
        forall|i: int| 0 <= i < j ==> (#[trigger] ms[i]).0@ != x.0@,
    ensures
        member(ms.update(j, x), k) == if k == x.0@ {
            Some(x.1)
        } else {
            member(ms, k)
        },
    decreases j,
{
    let u = ms.update(j, x);
    if j == 0 {
        assert(u.drop_first() == ms.drop_first());
    } else {
        assert(u[0] == ms[0]);
        assert(ms[0].0@ != x.0@);
        assert(u.drop_first() == ms.drop_first().update(j - 1, x));
        assert forall|i: int| 0 <= i < j - 1 implies (#[trigger] ms.drop_first()[i]).0@ != x.0@ by {
            assert(ms.drop_first()[i] == ms[i + 1]);
        }
        lemma_member_update(ms.drop_first(), j - 1, x, k);
    }
}

/// Appending a member whose name is new changes only that name's value.
pub proof fn lemma_member_push(ms: Seq<(String, JsonValue)>, x: (String, JsonValue), k: Seq<char>)
    requires
        forall|i: int| 0 <= i < ms.len() ==> (#[trigger] ms[i]).0@ != x.0@,
    ensures
        member(ms.push(x), k) == if k == x.0@ {
            Some(x.1)
        } else {
            member(ms, k)
        },
    decreases ms.len(),
{
    let p = ms.push(x);
    if ms.len() == 0 {
        assert(p[0] == x);
        assert(p.drop_first().len() == 0);
        assert(member(p.drop_first(), k) == None::<JsonValue>);
        assert(member(ms, k) == None::<JsonValue>);
    } else {
        assert(p[0] == ms[0]);
        assert(p.drop_first() == ms.drop_first().push(x));
        assert forall|i: int| 0 <= i < ms.drop_first().len() implies (#[trigger] ms.drop_first()[i]).0@ != x.0@ by {
            assert(ms.drop_first()[i] == ms[i + 1]);
        }
        lemma_member_push(ms.drop_first(), x, k);
        assert(ms[0].0@ != x.0@);
    }
}

/// Sets member `key` of `members` to `value`: the first member of that name
/// gets the value, or a new member is appended.
pub fn set_member(members: &mut Vec<(String, JsonValue)>, key: String, value: JsonValue)
    ensures
        forall|k: Seq<char>| #[trigger] member(final(members)@, k) == if k == key@ {
            Some(value)
        } else {
            member(old(members)@, k)
        },
{
    let n = members.len();
    for j in 0..n
        invariant
            n == members@.len(),
            members@ == old(members)@,
            forall|i: int| 0 <= i < j ==> (#[trigger] members@[i]).0@ != key@,
    {
        if members[j].0 == key {
            let ghost before = members@;
            let ghost x = (key, value);
            proof {
                assert forall|k: Seq<char>| #[trigger] member(before.update(j as int, x), k) == if k == key@ {
                    Some(value)
                } else {
                    member(before, k)
                } by {
                    lemma_member_update(before, j as int, x, k);
                }
            }
            members.set(j, (key, value));
            return;
        }
    }
    let ghost before = members@;
    let ghost x = (key, value);
    proof {
        assert forall|k: Seq<char>| #[trigger] member(before.push(x), k) == if k == key@ {
            Some(value)
        } else {
            member(before, k)
        } by {
            lemma_member_push(before, x, k);
        }
    }
    members.push((key, value));
}

/// `v` is exactly `{"function": {"name": name}, "type": "function"}`: those two
/// members in that order (the order of a sorted JSON object), and `function`
/// with the single member `name`.
pub open spec fn is_forced_choice(v: JsonValue, name: Seq<char>) -> bool {
    match v {
        JsonValue::Object(ms) => {
            &&& ms@.len() == 2
            &&& ms@[0].0@ == "function"@
            &&& (ms@[0].1 matches JsonValue::Object(inner) && inner@.len() == 1 && inner@[0].0@
                == "name"@ && inner@[0].1.spec_as_str() == Some(name))
            &&& ms@[1].0@ == "type"@
            &&& ms@[1].1.spec_as_str() == Some("function"@)
        },
        _ => false,
    }
}

/// `v` is the `tool_choice` value that `choice` sets (a `Keep` sets none):
/// the string `"none"`, or the forced-function object.
pub open spec fn override_value_ok(choice: ToolChoiceOverride, v: JsonValue) -> bool {
    match choice {
        ToolChoiceOverride::Keep => false,
        ToolChoiceOverride::PlainText => v.spec_as_str() == Some("none"@),
        ToolChoiceOverride::Function(name) => is_forced_choice(v, name@),
    }
}

/// The `tool_choice` value that forces a call of function `name`.
fn override_value(name: &String) -> (v: JsonValue)
    ensures
        is_forced_choice(v, name@),
{
    let mut inner: Vec<(String, JsonValue)> = Vec::new();
    inner.push((String::from_str("name"), JsonValue::String(name.clone())));
    let mut outer: Vec<(String, JsonValue)> = Vec::new();
    outer.push((String::from_str("function"), JsonValue::Object(inner)));
    outer.push((String::from_str("type"), JsonValue::String(String::from_str("function"))));
    JsonValue::Object(outer)
}

/// Applies a `tool_choice` override to the chat request body: an object
/// gets its `tool_choice` member set, and nothing else changes.
pub fn apply_tool_choice(payload: &mut JsonValue, choice: &ToolChoiceOverride)
    ensures
        *choice == ToolChoiceOverride::Keep ==> *final(payload) == *old(payload),
        !(*old(payload) is Object) ==> *final(payload) == *old(payload),
        (*old(payload) is Object && *choice != ToolChoiceOverride::Keep) ==> {
            &&& *final(payload) is Object
            &&& (final(payload).spec_get("tool_choice"@) matches Some(v) && override_value_ok(*choice, v))
            &&& forall|k: Seq<char>|
                k != "tool_choice"@ ==> #[trigger] final(payload).spec_get(k) == old(payload).spec_get(k)
        },
{
    let value = match choice {
        ToolChoiceOverride::Keep => {
            return;
        },
        ToolChoiceOverride::PlainText => JsonValue::String(String::from_str("none")),
        ToolChoiceOverride::Function(name) => override_value(name),
    };
    match payload {
        JsonValue::Object(members) => {
            set_member(members, String::from_str("tool_choice"), value);
        },
        _ => {},
    }
}

/// The `model` named by a chat request body.
pub fn model_of(payload: &JsonValue) -> (r: Option<String>)
    ensures
        r matches Some(m) ==> (payload.spec_get("model"@) matches Some(v) && v.spec_as_str() == Some(
            m@,
        )),
        r is None ==> !(payload.spec_get("model"@) matches Some(v) && v.spec_as_str() is Some),
{
    match payload.get("model") {
        Some(v) => match v.as_str() {
            Some(s) => Some(String::from_str(s)),
            None => None,
        },
        None => None,
    }
}

/// `usage[key]` of an upstream reply, as a non-negative integer.
pub open spec fn usage_count(body: JsonValue, key: Seq<char>) -> Option<u64> {
    match body.spec_get("usage"@) {
        Some(u) => match u.spec_get(key) {
            Some(n) => n.spec_as_u64(),
            None => None,
        },
        None => None,
    }
}

/// The prompt and completion token counts of an upstream reply.
pub fn usage_of(body: &JsonValue) -> (r: (Option<u64>, Option<u64>))
    ensures
        r.0 == usage_count(*body, "prompt_tokens"@),
        r.1 == usage_count(*body, "completion_tokens"@),
{
    match body.get("usage") {
        Some(u) => {
            let prompt = match u.get("prompt_tokens") {
                Some(n) => n.as_u64(),
                None => None,
            };
            let completion = match u.get("completion_tokens") {
                Some(n) => n.as_u64(),
                None => None,
            };
            (prompt, completion)
        },
        None => (None, None),
    }
}

/// The statistics entry for one routed request. It is built from the
/// routing outcome, the model name, the number of tools, the timings and the
/// token counts alone: no message text, tool arguments or credentials. The
/// confidence is kept only where System One's answer decided the route, and
/// the identifier is left empty for `Stats::record` to fill in.
pub fn event_for_request(
    route: RouteOutcome,
    confidence_bits: Option<u64>,
    at_unix_secs: i64,
    at_nanos: u32,
    laya_latency_ms: Option<u64>,
    upstream_latency_ms: Option<u64>,
    prompt_tokens: Option<u64>,
    completion_tokens: Option<u64>,
    model: Option<String>,
    tools_count: usize,
) -> (e: GatewayEvent)
    ensures
        e.id@.len() == 0,
        e.at_unix_secs == at_unix_secs,
        e.at_nanos == at_nanos,
        e.mode == route.mode,
        e.reason == route.reason,
        e.tool == route.tool,
        e.confidence_bits == (if route.mode == DecisionMode::Passthrough {
            None
        } else {
            confidence_bits
        }),
        e.laya_latency_ms == laya_latency_ms,
        e.upstream_latency_ms == upstream_latency_ms,
        e.prompt_tokens == prompt_tokens,
        e.completion_tokens == completion_tokens,
        e.model == model,
        e.tools_count == tools_count,
{
    let confidence_bits = match route.mode {
        DecisionMode::Passthrough => None,
        _ => confidence_bits,
    };
    GatewayEvent {
        id: String::new(),
        at_unix_secs,
        at_nanos,
        mode: route.mode,
        reason: route.reason,
        tool: route.tool,
        confidence_bits,
        laya_latency_ms,
        upstream_latency_ms,
        prompt_tokens,
        completion_tokens,
        model,
        tools_count,
    }
}

} // verus!
