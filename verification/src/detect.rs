//! Recognising what a file holds: a JSONL transcript (`ClaudeJsonl`), a ChatGPT JSON
//! export, or plain text.

use vstd::prelude::*;
use crate::json::{entry_lookup, json_parse, member, member_text, parse_json, text_of, JsonValue};
use crate::text::{join, join_lines, nonblank_lines, nonblank_lines_of, opt_text, str_chars, string_of, texts};

verus! {

/// The kinds of content the ingest pipeline tells apart.
#[derive(Debug, Clone, Copy, PartialEq, Eq, Structural)]
pub enum Format {
    ClaudeJsonl,
    ChatGptJson,
    PlainText,
}

/// The texts of the items that are JSON strings, in order.
pub open spec fn string_items(items: Seq<JsonValue>) -> Seq<Seq<char>>
    decreases items.len(),
{
    if items.len() == 0 {
        Seq::<Seq<char>>::empty()
    } else {
        let rest = string_items(items.drop_last());
        match text_of(items.last()) {
            Some(t) => rest.push(t),
            None => rest,
        }
    }
}

/// The string items joined with newlines.
pub open spec fn joined_strings(items: Seq<JsonValue>) -> Seq<char> {
    join(string_items(items), seq!['\n'])
}

/// The text carried by a message's `content`: a string as it is; an array
/// as its string items joined with newlines; an object as the string items
/// of its `parts` array, joined, where that gives a non-empty text.
pub open spec fn content_text(v: JsonValue) -> Option<Seq<char>> {
    match v {
        JsonValue::String(t) => Some(t@),
        JsonValue::Array(items) => Some(joined_strings(items@)),
        JsonValue::Object(entries) => match entry_lookup(entries@, "parts"@) {
            Some(JsonValue::Array(parts)) => {
                let t = joined_strings(parts@);
                if t.len() > 0 {
                    Some(t)
                } else {
                    None
                }
            },
            _ => None,
        },
        _ => None,
    }
}

/// The text of a record: its `message` where that is a string, else the
/// text of its `content`.
pub open spec fn message_text(v: JsonValue) -> Option<Seq<char>> {
    match member_text(v, "message"@) {
        Some(t) => Some(t),
        None => match member(v, "content"@) {
            Some(c) => content_text(c),
            None => None,
        },
    }
}

/// A `ClaudeJsonl` record: a string `type` and a message text.
pub open spec fn claude_record(v: JsonValue) -> bool {
    &&& member_text(v, "type"@) is Some
    &&& message_text(v) is Some
}

/// Every non-blank line parses as JSON into a JSONL record, and there is at
/// least one such line.
pub open spec fn claude_jsonl(content: Seq<char>) -> bool {
    let lines = nonblank_lines(content);
    &&& lines.len() > 0
    &&& forall|i: int|
        0 <= i < lines.len() ==> match #[trigger] json_parse(lines[i]) {
            Some(v) => claude_record(v),
            None => false,
        }
}

/// A ChatGPT export: an array, or an object with `messages` or `mapping`.
pub open spec fn chatgpt_value(v: JsonValue) -> bool {
    ||| v is Array
    ||| member(v, "messages"@) is Some
    ||| member(v, "mapping"@) is Some
}

/// The whole content parses as JSON into a ChatGPT export.
pub open spec fn chatgpt_json(content: Seq<char>) -> bool {
    match json_parse(content) {
        Some(v) => chatgpt_value(v),
        None => false,
    }
}

/// The format of `content`: `ClaudeJsonl` first, then ChatGPT JSON, else
/// plain text.
pub open spec fn format_of(content: Seq<char>) -> Format {
    if claude_jsonl(content) {
        Format::ClaudeJsonl
    } else if chatgpt_json(content) {
        Format::ChatGptJson
    } else {
        Format::PlainText
    }
}

/// The string items of `items`, joined with newlines.
fn join_string_items(items: &Vec<JsonValue>) -> (r: String)
    ensures
        r@ == joined_strings(items@),
{
    let mut parts: Vec<Vec<char>> = Vec::new();
    let n = items.len();
    assert(items@.take(0) =~= Seq::<JsonValue>::empty());
    assert(texts(parts@) =~= Seq::<Seq<char>>::empty());
    for i in 0..n
        invariant
            n == items@.len(),
            texts(parts@) == string_items(items@.take(i as int)),
    {
        let ghost before = parts@;
        assert(items@.take(i + 1).drop_last() =~= items@.take(i as int));
        assert(items@.take(i + 1).last() == items@[i as int]);
        match items[i].as_str() {
            Some(t) => {
                parts.push(str_chars(t.as_str()));
                assert(texts(parts@) =~= texts(before).push(t@));
            },
            None => {},
        }
    }
    assert(items@.take(n as int) =~= items@);
    string_of(&join_lines(&parts))
}

/// The text carried by a message's `content` value.
pub fn extract_content_text(value: &JsonValue) -> (r: Option<String>)
    ensures
        opt_text(r) == content_text(*value),
{
    match value {
        JsonValue::String(text) => Some(text.clone()),
        JsonValue::Array(items) => Some(join_string_items(items)),
        JsonValue::Object(_) => match value.get("parts") {
            Some(JsonValue::Array(parts)) => {
                let text = join_string_items(parts);
                if !text.as_str().is_empty() {
                    Some(text)
                } else {
                    None
                }
            },
            _ => None,
        },
        _ => None,
    }
}

/// The text of a record: its `message` string, else its `content` text.
pub fn extract_message_text(value: &JsonValue) -> (r: Option<String>)
    ensures
        opt_text(r) == message_text(*value),
{
    match value.get_str("message") {
        Some(text) => Some(text.clone()),
        None => match value.get("content") {
            Some(content) => extract_content_text(content),
            None => None,
        },
    }
}

/// Whether a parsed line is a `ClaudeJsonl` record.
pub fn is_claude_record(value: &JsonValue) -> (r: bool)
    ensures
        r == claude_record(*value),
{
    value.get_str("type").is_some() && extract_message_text(value).is_some()
}

/// Whether every non-blank line of `content` is a `ClaudeJsonl` record, with
/// at least one such line.
fn is_claude_jsonl(content: &str) -> (r: bool)
    ensures
        r == claude_jsonl(content@),
{
    let chars = str_chars(content);
    let lines = nonblank_lines_of(&chars);
    let ghost spec_lines = nonblank_lines(content@);
    let mut saw_line = false;
    let n = lines.len();
    for i in 0..n
        invariant
            n == lines@.len(),
            texts(lines@) == spec_lines,
            spec_lines == nonblank_lines(content@),
            saw_line == (i > 0),
            forall|j: int|
                0 <= j < i ==> match #[trigger] json_parse(spec_lines[j]) {
                    Some(v) => claude_record(v),
                    None => false,
                },
    {
        let line = string_of(&lines[i]);
        assert(spec_lines[i as int] == lines@[i as int]@);
        match parse_json(line.as_str()) {
            Ok(value) => {
                if !is_claude_record(&value) {
                    return false;
                }
            },
            Err(_) => {
                return false;
            },
        }
        saw_line = true;
    }
    saw_line
}

/// Whether a parsed document is a ChatGPT export.
pub fn is_chatgpt_value(value: &JsonValue) -> (r: bool)
    ensures
        r == chatgpt_value(*value),
{
    match value {
        JsonValue::Array(_) => true,
        _ => value.get("messages").is_some() || value.get("mapping").is_some(),
    }
}

/// Whether `content` parses as a ChatGPT export.
fn is_chatgpt_json(content: &str) -> (r: bool)
    ensures
        r == chatgpt_json(content@),
{
    match parse_json(content) {
        Ok(value) => is_chatgpt_value(&value),
        Err(_) => false,
    }
}

/// The format of `content`.
pub fn detect_format(content: &str) -> (r: Format)
    ensures
        r == format_of(content@),
{
    if is_claude_jsonl(content) {
        return Format::ClaudeJsonl;
    }
    if is_chatgpt_json(content) {
        return Format::ChatGptJson;
    }
    Format::PlainText
}


/// A text is a JSONL transcript exactly when it has a non-blank line and
/// every non-blank line, trimmed, parses as JSON with a string `type` and a
/// message text, whatever the roles its records name; and it is then
/// detected as such before any other format.
pub proof fn lemma_jsonl_detection(content: Seq<char>)
    ensures
        (format_of(content) == Format::ClaudeJsonl) <==> (nonblank_lines(content).len() > 0
            && forall|i: int|
            0 <= i < nonblank_lines(content).len() ==> match #[trigger] json_parse(
                nonblank_lines(content)[i],
            ) {
                Some(v) => member_text(v, "type"@) is Some && message_text(v) is Some,
                None => false,
            }),
{
}


/// A text is detected as a ChatGPT export exactly when it is not a JSONL
/// transcript and the whole text parses as JSON into an array or into an
/// object with a `messages` or a `mapping` member; any other text is plain.
pub proof fn lemma_chatgpt_detection(content: Seq<char>)
    ensures
        (format_of(content) == Format::ChatGptJson) <==> (!claude_jsonl(content) && match json_parse(
            content,
        ) {
            Some(v) => v is Array || member(v, "messages"@) is Some || member(v, "mapping"@) is Some,
            None => false,
        }),
        (format_of(content) == Format::PlainText) <==> (!claude_jsonl(content) && !match json_parse(
            content,
        ) {
            Some(v) => v is Array || member(v, "messages"@) is Some || member(v, "mapping"@) is Some,
            None => false,
        }),
{
}


/// The string items of two lists are those of the first, then those of the
/// second; a string contributes its text and any other value nothing.
pub proof fn lemma_string_items_in_order(a: Seq<JsonValue>, b: Seq<JsonValue>, x: JsonValue)
    ensures
        string_items(a + b) == string_items(a) + string_items(b),
        string_items(seq![x]) == match text_of(x) {
            Some(t) => seq![t],
            None => Seq::<Seq<char>>::empty(),
        },
    decreases b.len(),
{
    assert(seq![x].drop_last() =~= Seq::<JsonValue>::empty());
    assert(seq![x].last() == x);
    assert(string_items(Seq::<JsonValue>::empty()) == Seq::<Seq<char>>::empty());
    if let Some(t) = text_of(x) {
        assert(Seq::<Seq<char>>::empty().push(t) =~= seq![t]);
        assert(string_items(seq![x]) =~= seq![t]);
    } else {
        assert(string_items(seq![x]) =~= Seq::<Seq<char>>::empty());
    }
    if b.len() == 0 {
        assert(a + b =~= a);
        assert(string_items(a) + string_items(b) =~= string_items(a));
    } else {
        assert((a + b).drop_last() =~= a + b.drop_last());
        assert((a + b).last() == b.last());
        lemma_string_items_in_order(a, b.drop_last(), x);
        if let Some(t) = text_of(b.last()) {
            assert((string_items(a) + string_items(b.drop_last())).push(t) =~= string_items(a)
                + string_items(b));
        } else {
        }
    }
}

/// The text of a string content is the string; that of an array is its
/// string items joined by newlines; an object gives the joined string
/// items of its `parts` array only where they are not empty.
pub proof fn lemma_content_text_shapes(v: JsonValue)
    ensures
        v matches JsonValue::String(t) ==> content_text(v) == Some(t@),
        v matches JsonValue::Array(items) ==> content_text(v) == Some(
            join(string_items(items@), seq!['\n']),
        ),
        (v is Null || v is Bool || v is Number) ==> content_text(v) is None,
        v is Object ==> (content_text(v) matches Some(t) ==> t.len() > 0),
{
}

} // verus!
