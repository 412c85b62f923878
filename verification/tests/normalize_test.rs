use mempal::detect::Format;
use mempal::json::JsonValue;
use mempal::normalize::{
    normalize_chatgpt_value, normalize_content, record_message, render_transcript, NormalizeError,
};

fn s(text: &str) -> JsonValue {
    JsonValue::String(text.to_string())
}

fn obj(members: Vec<(&str, JsonValue)>) -> JsonValue {
    JsonValue::Object(members.into_iter().map(|(k, v)| (k.to_string(), v)).collect())
}

fn pair(role: &str, content: &str) -> (String, String) {
    (role.to_string(), content.to_string())
}

#[test]
fn plain_text_is_trimmed() {
    let out = normalize_content("  \n hello world \t\n", Format::PlainText).unwrap();
    assert_eq!(out, "hello world");
    let ideographic = normalize_content("\u{3000}text\u{85}", Format::PlainText).unwrap();
    assert_eq!(ideographic, "text");
    assert_eq!(normalize_content("", Format::PlainText).unwrap(), "");
}

#[test]
fn plain_normalize_is_idempotent() {
    let once = normalize_content("\t a b \n", Format::PlainText).unwrap();
    let twice = normalize_content(&once, Format::PlainText).unwrap();
    assert_eq!(once, twice);
}

#[test]
fn render_quotes_users_and_drops_blank_messages() {
    let items = vec![
        pair("user", "  question  "),
        pair("assistant", "answer"),
        pair("human", "again"),
        pair("system", "   "),
        pair("tool", "\nresult\n"),
    ];
    assert_eq!(render_transcript(&items), "> question\nanswer\n> again\nresult");
    assert_eq!(render_transcript(&Vec::new()), "");
}

#[test]
fn claude_roles_default_to_assistant() {
    let content = "{\"message\":\"no type\"}\n{\"type\":\"user\",\"content\":\"asked\"}\n{\"type\":\"human\",\"message\":\"   \"}";
    let out = normalize_content(content, Format::ClaudeJsonl).unwrap();
    assert_eq!(out, "no type\n> asked");
}

#[test]
fn claude_bad_line_is_a_json_error() {
    let content = "{\"type\":\"user\",\"message\":\"ok\"}\n{broken";
    match normalize_content(content, Format::ClaudeJsonl) {
        Err(NormalizeError::Json(_)) => {}
        other => panic!("expected a JSON error, got {other:?}"),
    }
}

#[test]
fn chatgpt_invalid_json_is_a_json_error() {
    match normalize_content("not json", Format::ChatGptJson) {
        Err(NormalizeError::Json(_)) => {}
        other => panic!("expected a JSON error, got {other:?}"),
    }
}

#[test]
fn chatgpt_unknown_shape_is_unsupported() {
    match normalize_content("{\"messages\": 3}", Format::ChatGptJson) {
        Err(NormalizeError::UnsupportedChatGptShape) => {}
        other => panic!("expected an unsupported shape, got {other:?}"),
    }
    match normalize_chatgpt_value(&obj(vec![("mapping", JsonValue::Array(vec![]))])) {
        Err(NormalizeError::UnsupportedChatGptShape) => {}
        other => panic!("expected an unsupported shape, got {other:?}"),
    }
}

#[test]
fn chatgpt_messages_object() {
    let content = r#"{"messages":[{"role":"user","content":["a","b"]},{"content":"no role"},{"role":"assistant","content":{"parts":["c"]}}]}"#;
    let out = normalize_content(content, Format::ChatGptJson).unwrap();
    assert_eq!(out, "> a\nb\nc");
}

#[test]
fn chatgpt_mapping_is_walked_from_the_root() {
    let content = r#"{"mapping":{
        "b":{"parent":"a","message":{"author":{"role":"assistant"},"content":{"parts":["hello"]}},"children":["c"]},
        "a":{"parent":null,"message":{"author":{"role":"user"},"content":{"parts":["hi"]}},"children":["b", 7, "missing"]},
        "c":{"parent":"b","message":{"author":{"role":"user"},"content":{"parts":["bye"]}}}
    }}"#;
    let out = normalize_content(content, Format::ChatGptJson).unwrap();
    assert_eq!(out, "> hi\nhello\n> bye");
}

#[test]
fn chatgpt_mapping_root_with_empty_parent() {
    let value = obj(vec![(
        "mapping",
        obj(vec![
            ("x", obj(vec![("parent", s("y")), ("message", obj(vec![("author", obj(vec![("role", s("user"))])), ("content", s("child"))]))])),
            ("y", obj(vec![("parent", s("")), ("children", JsonValue::Array(vec![s("x")]))])),
        ]),
    )]);
    assert_eq!(normalize_chatgpt_value(&value).unwrap(), "> child");
}

#[test]
fn chatgpt_mapping_without_root_is_empty() {
    let content = r#"{"mapping":{"a":{"parent":"b"},"b":{"parent":"a"}}}"#;
    assert_eq!(normalize_content(content, Format::ChatGptJson).unwrap(), "");
}

#[test]
fn chatgpt_mapping_cycle_stops_at_the_mapping_size() {
    let content = r#"{"mapping":{
        "a":{"parent":null,"message":{"author":{"role":"user"},"content":{"parts":["x"]}},"children":["b"]},
        "b":{"parent":"a","message":{"author":{"role":"assistant"},"content":{"parts":["y"]}},"children":["a"]}
    }}"#;
    assert_eq!(normalize_content(content, Format::ChatGptJson).unwrap(), "> x\ny\n> x");
}

#[test]
fn chatgpt_mapping_first_root_in_key_order() {
    let content = r#"{"mapping":{
        "z":{"parent":null,"message":{"author":{"role":"assistant"},"content":{"parts":["from z"]}}},
        "a":{"parent":"","message":{"author":{"role":"assistant"},"content":{"parts":["from a"]}}}
    }}"#;
    assert_eq!(normalize_content(content, Format::ChatGptJson).unwrap(), "from a");
}

#[test]
fn detected_formats_normalize() {
    let claude = "{\"type\":\"user\",\"message\":\"q\"}\n{\"type\":\"bot\",\"content\":[\"a\"]}";
    let format = mempal::detect::detect_format(claude);
    assert_eq!(format, Format::ClaudeJsonl);
    assert_eq!(normalize_content(claude, format).unwrap(), "> q\na");
    let chatgpt = "{\"messages\": {}}";
    let format = mempal::detect::detect_format(chatgpt);
    assert_eq!(format, Format::ChatGptJson);
    assert!(matches!(
        normalize_content(chatgpt, format),
        Err(NormalizeError::UnsupportedChatGptShape)
    ));
}

#[test]
fn record_message_defaults() {
    let record = obj(vec![("content", JsonValue::Array(vec![s("x"), s("y")]))]);
    assert_eq!(record_message(&record), pair("assistant", "x\ny"));
    let typed = obj(vec![("type", s("user")), ("message", s(" hi "))]);
    assert_eq!(record_message(&typed), pair("user", " hi "));
    assert_eq!(record_message(&JsonValue::Null), pair("assistant", ""));
}
