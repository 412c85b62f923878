use mempal::detect::{detect_format, Format};
use mempal::normalize::normalize_content;

#[test]
fn test_detect_claude_jsonl() {
    let content = r#"{"type":"human","message":"hello"}
{"type":"assistant","message":"hi"}"#;

    assert_eq!(detect_format(content), Format::ClaudeJsonl);
}

#[test]
fn test_detect_plain_text() {
    let content = "This is a regular markdown file.";

    assert_eq!(detect_format(content), Format::PlainText);
}

#[test]
fn test_normalize_claude_jsonl() {
    let content = r#"{"type":"human","message":"hello"}
{"type":"assistant","message":"hi"}"#;

    let normalized =
        normalize_content(content, Format::ClaudeJsonl).expect("jsonl transcript should normalize");

    assert_eq!(normalized, "> hello\nhi");
}

#[test]
fn test_normalize_chatgpt_json() {
    let content = r#"[
  {"role":"user","content":"how do I fix this?"},
  {"role":"assistant","content":"restart the process"}
]"#;

    let normalized =
        normalize_content(content, Format::ChatGptJson).expect("chatgpt json should normalize");

    assert_eq!(normalized, "> how do I fix this?\nrestart the process");
}
