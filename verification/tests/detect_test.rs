use mempal::detect::{
    detect_format, extract_content_text, extract_message_text, is_chatgpt_value,
    is_claude_record, Format,
};
use mempal::json::JsonValue;

fn s(text: &str) -> JsonValue {
    JsonValue::String(text.to_string())
}

fn obj(members: Vec<(&str, JsonValue)>) -> JsonValue {
    JsonValue::Object(members.into_iter().map(|(k, v)| (k.to_string(), v)).collect())
}

#[test]
fn detects_chatgpt_array() {
    assert_eq!(detect_format(r#"[{"role":"user","content":"x"}]"#), Format::ChatGptJson);
}

#[test]
fn detects_chatgpt_messages_and_mapping_objects() {
    assert_eq!(detect_format(r#"{"messages": 3}"#), Format::ChatGptJson);
    assert_eq!(detect_format(r#"{"mapping": {}}"#), Format::ChatGptJson);
}

#[test]
fn json_of_no_known_shape_is_plain_text() {
    assert_eq!(detect_format(r#"{"a": 1}"#), Format::PlainText);
    assert_eq!(detect_format("\"just a string\""), Format::PlainText);
}

#[test]
fn blank_content_is_plain_text() {
    assert_eq!(detect_format(""), Format::PlainText);
    assert_eq!(detect_format("  \n\t\n"), Format::PlainText);
}

#[test]
fn claude_jsonl_needs_every_line() {
    let bad_line = "{\"type\":\"human\",\"message\":\"hi\"}\nnot json";
    assert_eq!(detect_format(bad_line), Format::PlainText);
    let no_type = "{\"type\":\"human\",\"message\":\"hi\"}\n{\"message\":\"x\"}";
    assert_eq!(detect_format(no_type), Format::PlainText);
    let no_text = "{\"type\":\"human\",\"message\":5}";
    assert_eq!(detect_format(no_text), Format::PlainText);
}

#[test]
fn claude_jsonl_skips_blank_lines_and_carriage_returns() {
    let content = "\r\n  {\"type\":\"user\",\"content\":[\"a\",\"b\"]}\r\n\n   \n";
    assert_eq!(detect_format(content), Format::ClaudeJsonl);
}

#[test]
fn content_text_of_each_shape() {
    assert_eq!(extract_content_text(&s("plain")), Some("plain".to_string()));
    let items = JsonValue::Array(vec![s("one"), JsonValue::Null, s("two")]);
    assert_eq!(extract_content_text(&items), Some("one\ntwo".to_string()));
    assert_eq!(extract_content_text(&JsonValue::Array(vec![])), Some(String::new()));
    let parts = obj(vec![("parts", JsonValue::Array(vec![s("p1"), s("p2")]))]);
    assert_eq!(extract_content_text(&parts), Some("p1\np2".to_string()));
    let empty_parts = obj(vec![("parts", JsonValue::Array(vec![JsonValue::Bool(true)]))]);
    assert_eq!(extract_content_text(&empty_parts), None);
    assert_eq!(extract_content_text(&obj(vec![("other", s("x"))])), None);
    assert_eq!(extract_content_text(&JsonValue::Bool(false)), None);
}

#[test]
fn message_text_prefers_a_message_string() {
    let both = obj(vec![("message", s("m")), ("content", s("c"))]);
    assert_eq!(extract_message_text(&both), Some("m".to_string()));
    let not_string = obj(vec![("message", JsonValue::Null), ("content", s("c"))]);
    assert_eq!(extract_message_text(&not_string), Some("c".to_string()));
    assert_eq!(extract_message_text(&obj(vec![])), None);
}

#[test]
fn claude_record_needs_type_and_text() {
    assert!(is_claude_record(&obj(vec![("type", s("user")), ("message", s("hi"))])));
    assert!(!is_claude_record(&obj(vec![("message", s("hi"))])));
    assert!(!is_claude_record(&obj(vec![("type", JsonValue::Null), ("message", s("hi"))])));
    assert!(!is_claude_record(&obj(vec![("type", s("user"))])));
    assert!(!is_claude_record(&s("user")));
}

#[test]
fn chatgpt_value_shapes() {
    assert!(is_chatgpt_value(&JsonValue::Array(vec![])));
    assert!(is_chatgpt_value(&obj(vec![("messages", JsonValue::Null)])));
    assert!(is_chatgpt_value(&obj(vec![("mapping", JsonValue::Null)])));
    assert!(!is_chatgpt_value(&obj(vec![("message", JsonValue::Null)])));
    assert!(!is_chatgpt_value(&JsonValue::Null));
}
