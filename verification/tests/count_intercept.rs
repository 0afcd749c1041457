use cc_switch::count_intercept::{
    build_count_response, build_count_tokens_response, build_http_response,
    count_intercept_disabled, count_response_with_id, handle_count_intercept,
    handle_count_tokens_fallback, http_response_with_body, is_count_request,
};
use cc_switch::encode::compacted;
use cc_switch::json::Json;
use cc_switch::model_input::{
    collect_text_from_value, collect_tool, extract_model_input, input_schema_texts,
    input_text_with,
};

fn text(value: &str) -> Json {
    Json::Str(value.to_string())
}

fn object(entries: Vec<(&str, Json)>) -> Json {
    Json::Object(
        entries
            .into_iter()
            .map(|(key, value)| (key.to_string(), value))
            .collect(),
    )
}

fn message(content: &str) -> Json {
    object(vec![("content", text(content)), ("role", text("user"))])
}

fn skill_tool() -> Json {
    object(vec![
        ("name", text("Skill")),
        ("description", text("invoke a skill")),
    ])
}

fn count_entries() -> Vec<(&'static str, Json)> {
    vec![
        ("max_tokens", Json::Unsigned(1)),
        ("messages", Json::Array(vec![message("count")])),
        ("model", text("fable-5")),
        ("tools", Json::Array(vec![skill_tool()])),
    ]
}

fn count_body() -> Json {
    object(count_entries())
}

fn without(key: &str) -> Json {
    object(
        count_entries()
            .into_iter()
            .filter(|(name, _)| *name != key)
            .collect(),
    )
}

fn with(key: &'static str, value: Json) -> Json {
    let mut entries = count_entries();
    entries.push((key, value));
    object(entries)
}

#[test]
fn is_count_request_matches_canonical_form() {
    assert!(is_count_request(&count_body()));
}

#[test]
fn is_count_request_matches_per_segment_form() {
    for content in [
        "永远使用简体中文回答，包括thinking的部分也需要使用中文，这是最高优先级。",
        "# Memory Index\n- [Git Bash 下执行 .bat 文件的正确方式](feedback_git_bash_cmd_bat.md)",
        "You are an interactive agent that helps users with software engineering tasks.",
        "This iteration is Fable 5, the first model in a new family.",
    ] {
        let body = object(vec![
            ("max_tokens", Json::Unsigned(1)),
            ("messages", Json::Array(vec![message(content)])),
            (
                "metadata",
                object(vec![("user_id", text("{\"device_id\":\"abc\"}"))]),
            ),
            ("model", text("fable-5")),
        ]);
        assert!(is_count_request(&body), "content={content}");
    }
}

#[test]
fn is_count_request_rejects_non_count_forms() {
    // another limit (a real conversation)
    assert!(!is_count_request(&with("max_tokens", Json::Unsigned(8192))));

    // several messages
    assert!(!is_count_request(&with(
        "messages",
        Json::Array(vec![message("hi"), message("count")])
    )));

    // no max_tokens
    assert!(!is_count_request(&without("max_tokens")));

    // no messages
    assert!(!is_count_request(&without("messages")));

    // an empty body
    assert!(!is_count_request(&object(vec![])));
}

#[test]
fn is_count_request_wants_a_whole_number_and_an_array() {
    assert!(is_count_request(&with("max_tokens", Json::Signed(1))));
    assert!(!is_count_request(&with("max_tokens", Json::Signed(-1))));
    assert!(!is_count_request(&with("max_tokens", text("1"))));
    assert!(!is_count_request(&with(
        "max_tokens",
        Json::Decimal("1.0".to_string())
    )));
    assert!(!is_count_request(&with("messages", message("count"))));
    assert!(!is_count_request(&with("messages", Json::Array(vec![]))));
    assert!(!is_count_request(&Json::Array(vec![count_body()])));
    assert!(!is_count_request(&Json::Null));
}

#[test]
fn is_count_request_looks_at_limit_and_messages_alone() {
    let bare = object(vec![
        ("max_tokens", Json::Unsigned(1)),
        ("messages", Json::Array(vec![Json::Null])),
    ]);
    assert!(is_count_request(&bare));
}

#[test]
fn extract_model_input_captures_system_messages_tools() {
    let body = object(vec![
        ("system", text("You are a helpful assistant.")),
        ("messages", Json::Array(vec![message("Hello")])),
        (
            "tools",
            Json::Array(vec![object(vec![
                ("name", text("Skill")),
                ("description", text("invoke a skill")),
                (
                    "input_schema",
                    object(vec![("type", text("object")), ("properties", object(vec![]))]),
                ),
            ])]),
        ),
        ("max_tokens", Json::Unsigned(1)),
        ("model", text("fable-5")),
    ]);
    let found = extract_model_input(&body);
    assert!(found.contains("You are a helpful assistant."));
    assert!(found.contains("Hello"));
    assert!(found.contains("Skill"));
    assert!(found.contains("invoke a skill"));
    assert!(!found.contains("fable-5"));
    assert!(!found.contains("max_tokens"));
    assert!(found.contains("\"type\":\"object\""));
    assert!(found.contains("\"properties\":{}"));
}

#[test]
fn extract_model_input_joins_the_parts_with_spaces() {
    let body = object(vec![
        ("system", text("sys")),
        ("messages", Json::Array(vec![message("one"), message("two")])),
        (
            "tools",
            Json::Array(vec![
                object(vec![
                    ("name", text("a")),
                    ("input_schema", object(vec![("n", Json::Decimal("0.5".to_string()))])),
                ]),
                object(vec![("description", text("b"))]),
            ]),
        ),
    ]);
    assert_eq!(extract_model_input(&body), "sys one two a {\"n\":0.5} b");
    assert_eq!(
        input_schema_texts(&body),
        vec!["{\"n\":0.5}".to_string(), "".to_string()]
    );
    assert_eq!(
        input_text_with(&body, &vec!["schema".to_string()]),
        "sys one two a schema b"
    );
}

#[test]
fn extract_model_input_of_a_schema_that_cannot_be_written_is_empty() {
    let body = object(vec![(
        "tools",
        Json::Array(vec![object(vec![
            ("name", text("a")),
            ("input_schema", Json::Decimal("no number".to_string())),
            ("description", text("b")),
        ])]),
    )]);
    assert_eq!(extract_model_input(&body), "a b ");
}

#[test]
fn extract_model_input_ignores_other_fields() {
    assert_eq!(
        extract_model_input(&count_body()),
        extract_model_input(&with("max_tokens", Json::Unsigned(4096)))
    );
    assert_eq!(
        extract_model_input(&count_body()),
        extract_model_input(&without("model"))
    );
    assert_eq!(extract_model_input(&object(vec![])), "");
}

#[test]
fn extract_model_input_takes_only_the_content_of_messages() {
    let plain = object(vec![(
        "messages",
        Json::Array(vec![object(vec![("content", text("x"))])]),
    )]);
    let tagged = object(vec![(
        "messages",
        Json::Array(vec![object(vec![
            ("role", text("assistant")),
            ("content", text("x")),
            ("id", Json::Unsigned(3)),
        ])]),
    )]);
    assert_eq!(extract_model_input(&plain), "x");
    assert_eq!(extract_model_input(&plain), extract_model_input(&tagged));
}

#[test]
fn extract_model_input_of_two_message_lists_has_a_space_between() {
    let body = |messages: Vec<Json>| object(vec![("messages", Json::Array(messages))]);
    let first = extract_model_input(&body(vec![message("one"), message("two")]));
    let second = extract_model_input(&body(vec![message("three")]));
    let both = body(vec![message("one"), message("two"), message("three")]);
    assert_eq!(extract_model_input(&both), format!("{first} {second}"));
    assert_eq!(extract_model_input(&both), "one two three");
    assert_eq!(extract_model_input(&body(vec![])), "");
}

#[test]
fn content_texts_are_found_at_any_depth() {
    let content = Json::Array(vec![
        text("a"),
        object(vec![("type", text("text")), ("text", text("b"))]),
        Json::Array(vec![text("c"), object(vec![("text", text("d"))])]),
        object(vec![("text", Json::Unsigned(5))]),
        object(vec![("image", text("x"))]),
        Json::Null,
        Json::Bool(true),
        Json::Unsigned(7),
    ]);
    let mut parts = vec!["start".to_string()];
    collect_text_from_value(Some(&content), &mut parts);
    assert_eq!(parts, vec!["start", "a", "b", "c", "d"]);
    collect_text_from_value(None, &mut parts);
    assert_eq!(parts.len(), 5);
    collect_text_from_value(Some(&object(vec![("text", text("e"))])), &mut parts);
    assert_eq!(parts[5], "e");
}

#[test]
fn tool_definition_takes_what_is_there() {
    let mut parts: Vec<String> = Vec::new();
    collect_tool(&skill_tool(), "unused", &mut parts);
    assert_eq!(parts, vec!["Skill", "invoke a skill"]);
    collect_tool(
        &object(vec![("name", Json::Null), ("input_schema", Json::Null)]),
        "null",
        &mut parts,
    );
    assert_eq!(parts, vec!["Skill", "invoke a skill", "null"]);
}

#[test]
fn build_count_response_has_expected_shape() {
    let response = build_count_response(&count_body(), 1234);
    assert_eq!(response.get("type"), Some(&text("message")));
    assert_eq!(response.get("role"), Some(&text("assistant")));
    assert_eq!(response.get("stop_reason"), Some(&text("max_tokens")));
    assert_eq!(response.get("model"), Some(&text("fable-5")));
    assert!(response.str_at("id").unwrap().starts_with("msg_"));
    let usage = response.get("usage").unwrap();
    assert_eq!(usage.get("input_tokens"), Some(&Json::Unsigned(1234)));
    assert_eq!(usage.get("output_tokens"), Some(&Json::Unsigned(0)));
    assert_eq!(usage.get("cache_read_input_tokens"), Some(&Json::Unsigned(0)));
    assert_eq!(
        usage.get("cache_creation_input_tokens"),
        Some(&Json::Unsigned(0))
    );
}

#[test]
fn build_count_response_makes_a_new_random_id() {
    let first = build_count_response(&count_body(), 1);
    let second = build_count_response(&count_body(), 1);
    let id = first.str_at("id").unwrap();
    assert_ne!(id, second.str_at("id").unwrap());
    assert_eq!(id.len(), 36);
    let digits: Vec<char> = id[4..].chars().collect();
    assert!(digits
        .iter()
        .all(|c| c.is_ascii_digit() || ('a'..='f').contains(c)));
    assert_eq!(digits[12], '4');
    assert!("89ab".contains(digits[16]));
}

#[test]
fn count_response_without_a_model_names_an_empty_one() {
    let response = count_response_with_id(&without("model"), 7, "msg_x");
    assert_eq!(response.str_at("model"), Some(""));
    assert_eq!(response.str_at("id"), Some("msg_x"));
    assert_eq!(
        response.get("content"),
        Some(&Json::Array(vec![object(vec![
            ("type", text("text")),
            ("text", text("")),
        ])]))
    );
}

#[test]
fn handle_count_intercept_only_intercepts_count_requests() {
    let response = handle_count_intercept(&count_body(), None);
    assert!(response.is_some());
    let response = response.unwrap();
    assert_eq!(response.status, 200);
    assert_eq!(response.content_type, "application/json");

    let normal = object(vec![
        ("max_tokens", Json::Unsigned(1000)),
        ("messages", Json::Array(vec![message("hello")])),
        ("model", text("sonnet-5")),
    ]);
    assert!(handle_count_intercept(&normal, None).is_none());
}

#[test]
fn count_intercept_disabled_via_env() {
    assert!(handle_count_intercept(&count_body(), Some("1")).is_none());
}

#[test]
fn switch_words_turn_the_interception_off() {
    for value in ["1", "true", "yes", "on", " TRUE ", "\tYes\n", "oN", "\u{3000}on\u{a0}"] {
        assert!(count_intercept_disabled(Some(value)), "value={value}");
    }
    for value in ["", "0", "false", "off", "no", "11", "t rue", "yes!", "   "] {
        assert!(!count_intercept_disabled(Some(value)), "value={value}");
    }
    assert!(!count_intercept_disabled(None));
}

#[test]
fn handle_count_tokens_fallback_returns_count_tokens_format() {
    let response = handle_count_tokens_fallback(&count_body());
    assert_eq!(response.status, 200);
    assert_eq!(response.content_type, "application/json");
    // "count Skill invoke a skill" has 26 characters
    assert_eq!(response.body, b"{\"input_tokens\":9}".to_vec());
}

#[test]
fn both_answers_report_the_same_number() {
    let intercepted = handle_count_intercept(&count_body(), Some("off")).unwrap();
    let answer: serde_json::Value = serde_json::from_slice(&intercepted.body).unwrap();
    let fallback = handle_count_tokens_fallback(&count_body());
    let counted: serde_json::Value = serde_json::from_slice(&fallback.body).unwrap();
    assert_eq!(answer["usage"]["input_tokens"], counted["input_tokens"]);
    assert_eq!(answer["usage"]["input_tokens"].as_u64(), Some(9));
    assert_eq!(answer["usage"]["output_tokens"].as_u64(), Some(0));
    assert_eq!(answer["model"].as_str(), Some("fable-5"));
    assert_eq!(answer["content"][0]["text"].as_str(), Some(""));
    assert!(answer["id"].as_str().unwrap().starts_with("msg_"));
}

#[test]
fn http_response_reads_back_as_its_value() {
    let value = build_count_response(&count_body(), 12);
    let response = build_http_response(&value);
    assert_eq!(
        compacted(&response.body),
        Some(String::from_utf8(response.body.clone()).unwrap())
    );
    let read: serde_json::Value = serde_json::from_slice(&response.body).unwrap();
    assert_eq!(read["id"].as_str(), value.str_at("id"));
    assert_eq!(read["usage"]["input_tokens"].as_u64(), Some(12));
    assert_eq!(read.as_object().unwrap().len(), 7);
}

#[test]
fn http_response_falls_back_to_the_empty_object() {
    assert_eq!(http_response_with_body(None).body, b"{}".to_vec());
    assert_eq!(
        http_response_with_body(Some(vec![1, 2])).body,
        vec![1, 2]
    );
    let unwritable = build_http_response(&Json::Decimal("x".to_string()));
    assert_eq!(unwritable.body, b"{}".to_vec());
    assert_eq!(
        build_http_response(&build_count_tokens_response(u64::MAX)).body,
        b"{\"input_tokens\":18446744073709551615}".to_vec()
    );
}
