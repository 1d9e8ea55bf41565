use laya_gateway::decide::{
    build_request, extract_from_chat, interpret_outcome, is_safe_tool_name, message_text,
    skip_reason, skip_reason_given, truncate, AnswerOutcome, DecideInput, SkipReason, ToolInfo,
    NO_TOOL,
};
use laya_gateway::json::{JsonNumber, JsonValue};

fn tool(name: &str, description: &str) -> ToolInfo {
    ToolInfo { name: name.to_string(), description: description.to_string() }
}

fn input(tools: Vec<ToolInfo>) -> DecideInput {
    DecideInput {
        system: String::new(),
        last_user: "hi".into(),
        tools,
        tool_choice_decided: false,
    }
}

fn s(text: &str) -> JsonValue {
    JsonValue::String(text.to_string())
}

fn obj(members: Vec<(&str, JsonValue)>) -> JsonValue {
    JsonValue::Object(members.into_iter().map(|(k, v)| (k.to_string(), v)).collect())
}

#[test]
fn skip_when_no_tools() {
    let input = DecideInput {
        system: String::new(),
        last_user: "hi".into(),
        tools: vec![],
        tool_choice_decided: false,
    };
    assert_eq!(skip_reason(&input), Some("no_tools"));
}

#[test]
fn skip_reasons_in_order() {
    let mut decided = input(vec![tool("bash", "")]);
    decided.tool_choice_decided = true;
    assert_eq!(skip_reason(&decided), Some("tool_choice_already_decided"));

    let many: Vec<ToolInfo> = (0..33).map(|i| tool(&format!("t{i}"), "")).collect();
    assert_eq!(skip_reason(&input(many)), Some("too_many_tools"));
    let just_enough: Vec<ToolInfo> = (0..32).map(|i| tool(&format!("t{i}"), "")).collect();
    assert_eq!(skip_reason(&input(just_enough)), None);

    let mut silent = input(vec![tool("bash", "")]);
    silent.last_user = " \n\t".into();
    silent.system = "\u{3000}".into();
    assert_eq!(skip_reason(&silent), Some("no_messages"));
    silent.system = "be brief".into();
    assert_eq!(skip_reason(&silent), None);

    assert_eq!(skip_reason(&input(vec![tool("has space", "")])), Some("unsafe_tool_name"));
    assert_eq!(skip_reason(&input(vec![tool("", "")])), Some("unsafe_tool_name"));
    assert_eq!(skip_reason(&input(vec![tool(NO_TOOL, "")])), Some("reserved_tool_name"));
    assert_eq!(
        skip_reason(&input(vec![tool(NO_TOOL, ""), tool("bad name", "")])),
        Some("reserved_tool_name")
    );
    assert_eq!(
        skip_reason(&input(vec![tool("a", ""), tool("b", ""), tool("a", "x")])),
        Some("duplicate_tool_names")
    );
    assert_eq!(skip_reason(&input(vec![tool("read_file", ""), tool("mcp:git/log-1.2", "")])), None);
}

#[test]
fn skip_given_flags() {
    let i = input(vec![tool("a", ""), tool("b", "")]);
    assert_eq!(skip_reason_given(&i, &vec![true, false]), Some(SkipReason::UnsafeToolName));
    assert_eq!(skip_reason_given(&i, &vec![true, true]), None);
    assert_eq!(SkipReason::DuplicateToolNames.as_str(), "duplicate_tool_names");
}

#[test]
fn tool_name_pattern() {
    assert!(is_safe_tool_name("read_file"));
    assert!(is_safe_tool_name("Ünïcödé.名前"));
    assert!(!is_safe_tool_name("read file"));
    assert!(!is_safe_tool_name("x;rm"));
    assert!(!is_safe_tool_name(&"a".repeat(129)));
    assert!(is_safe_tool_name(&"a".repeat(128)));
}

#[test]
fn truncate_counts_characters() {
    assert_eq!(truncate("héllo", 5), "héllo");
    assert_eq!(truncate("héllo", 2), "hé\u{2026}");
    assert_eq!(truncate("", 0), "");
    assert_eq!(truncate("a", 0), "\u{2026}");
}

#[test]
fn request_body_and_questions() {
    let i = DecideInput {
        system: "sys".into(),
        last_user: "do it".into(),
        tools: vec![tool("read_file", "Read a file"), tool("bash", "")],
        tool_choice_decided: false,
    };
    let r = build_request(&i, Some("m1".into()));
    assert_eq!(
        r.state_body,
        "system:\nsys\n\nuser:\ndo it\n\ntools:\n- read_file: Read a file\n- bash: "
    );
    assert_eq!(r.model, Some("m1".to_string()));
    assert_eq!(r.questions.len(), 2);
    assert_eq!(r.questions[0].0, "needs_tool");
    assert_eq!(r.questions[0].1.kind, "noul");
    assert!(r.questions[0].1.criteria.is_none());
    assert_eq!(r.questions[1].0, "tool");
    assert_eq!(r.questions[1].1.kind, "choice");
    let c = r.questions[1].1.criteria.clone().unwrap();
    assert_eq!(
        c,
        vec![
            ("read_file".to_string(), Some("Read a file".to_string())),
            ("bash".to_string(), None),
            (NO_TOOL.to_string(), Some("Reply in plain text; no tool call is needed.".to_string())),
        ]
    );
}

#[test]
fn request_criteria_later_tool_wins() {
    let i = input(vec![tool("a", "first"), tool("a", "second"), tool(NO_TOOL, "mine")]);
    let r = build_request(&i, None);
    let c = r.questions[1].1.criteria.clone().unwrap();
    assert_eq!(
        c,
        vec![
            ("a".to_string(), Some("second".to_string())),
            (NO_TOOL.to_string(), Some("Reply in plain text; no tool call is needed.".to_string())),
        ]
    );
    assert_eq!(r.model, None);
}

#[test]
fn request_body_truncates() {
    let long = "x".repeat(4001);
    let i = DecideInput {
        system: "y".repeat(2001),
        last_user: long,
        tools: vec![tool("t", &"d".repeat(201))],
        tool_choice_decided: false,
    };
    let r = build_request(&i, None);
    let expected = format!(
        "system:\n{}\u{2026}\n\nuser:\n{}\u{2026}\n\ntools:\n- t: {}\u{2026}",
        "y".repeat(2000),
        "x".repeat(4000),
        "d".repeat(200)
    );
    assert_eq!(r.state_body, expected);
}

#[test]
fn force_when_confident_choice() {
    assert_eq!(
        interpret_outcome(true, false, Some("read_file".into()), false),
        AnswerOutcome::Forced("read_file".into())
    );
}

#[test]
fn passthrough_when_below_minimum() {
    assert_eq!(interpret_outcome(true, true, Some("bash".into()), false), AnswerOutcome::LowConfidence);
    assert_eq!(interpret_outcome(false, false, None, false), AnswerOutcome::MissingToolAnswer);
}

#[test]
fn plain_text_outcomes() {
    assert_eq!(interpret_outcome(true, false, None, false), AnswerOutcome::NoTool);
    assert_eq!(interpret_outcome(true, false, Some(String::new()), false), AnswerOutcome::NoTool);
    assert_eq!(interpret_outcome(true, false, Some(NO_TOOL.into()), false), AnswerOutcome::NoTool);
    assert_eq!(interpret_outcome(true, false, Some("bash".into()), true), AnswerOutcome::NoTool);
}

#[test]
fn message_text_forms() {
    assert_eq!(message_text(Some(&s("hello"))), "hello");
    let parts = JsonValue::Array(vec![
        obj(vec![("type", s("text")), ("text", s("a"))]),
        obj(vec![("type", s("image_url")), ("text", s("skip"))]),
        obj(vec![("type", s("text"))]),
        obj(vec![("type", s("text")), ("text", s("b"))]),
    ]);
    assert_eq!(message_text(Some(&parts)), "a\nb");
    assert_eq!(message_text(Some(&JsonValue::Null)), "");
    assert_eq!(message_text(None), "");
}

#[test]
fn extract_chat_body() {
    let body = obj(vec![
        (
            "messages",
            JsonValue::Array(vec![
                obj(vec![("role", s("system")), ("content", s("one"))]),
                obj(vec![("role", s("user")), ("content", s("first"))]),
                obj(vec![("role", s("developer")), ("content", s("two"))]),
                obj(vec![("role", s("assistant")), ("content", s("ignored"))]),
                obj(vec![("role", s("user")), ("content", s("second"))]),
            ]),
        ),
        (
            "tools",
            JsonValue::Array(vec![
                obj(vec![
                    ("type", s("function")),
                    ("function", obj(vec![("name", s("read_file")), ("description", s("Read"))])),
                ]),
                obj(vec![("type", s("web_search"))]),
                obj(vec![("type", s("function")), ("function", obj(vec![("name", JsonValue::Null)]))]),
                obj(vec![("type", s("function")), ("function", obj(vec![("name", s("bash"))]))]),
            ]),
        ),
        ("tool_choice", s("auto")),
        ("temperature", JsonValue::Number(JsonNumber::FloatBits(0x3fe0000000000000))),
    ]);
    let input = extract_from_chat(&body);
    assert_eq!(input.system, "one\n\ntwo");
    assert_eq!(input.last_user, "second");
    assert_eq!(input.tools.len(), 2);
    assert_eq!(input.tools[0].name, "read_file");
    assert_eq!(input.tools[0].description, "Read");
    assert_eq!(input.tools[1].name, "bash");
    assert_eq!(input.tools[1].description, "");
    assert!(!input.tool_choice_decided);
}

#[test]
fn extract_tool_choice_forms() {
    let with = |v: Option<JsonValue>| {
        let mut members = vec![];
        if let Some(v) = v {
            members.push(("tool_choice", v));
        }
        extract_from_chat(&obj(members)).tool_choice_decided
    };
    assert!(!with(None));
    assert!(!with(Some(s("auto"))));
    assert!(!with(Some(s("required"))));
    assert!(with(Some(s("none"))));
    assert!(with(Some(obj(vec![("type", s("function"))]))));
    assert!(!with(Some(JsonValue::Null)));
    assert!(!with(Some(JsonValue::Bool(true))));
}

#[test]
fn extract_from_non_object() {
    let input = extract_from_chat(&JsonValue::Array(vec![]));
    assert_eq!(input.system, "");
    assert_eq!(input.last_user, "");
    assert!(input.tools.is_empty());
    assert!(!input.tool_choice_decided);
    let empty_system = obj(vec![(
        "messages",
        JsonValue::Array(vec![
            obj(vec![("role", s("system")), ("content", s(""))]),
            obj(vec![("role", s("system")), ("content", s("x"))]),
        ]),
    )]);
    assert_eq!(extract_from_chat(&empty_system).system, "x");
}
