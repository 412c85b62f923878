//! Turning a transcript into plain text: one line per message, the user's
//! lines quoted with `"> "`.

use vstd::prelude::*;
use crate::detect::{claude_jsonl, format_of, content_text, extract_content_text, extract_message_text, message_text, Format};
use crate::json::{entry_lookup, json_parse, lookup, member, member_text, parse_json, text_of, JsonValue};
use crate::text::{
    join, join_lines, nonblank_lines, nonblank_lines_of, str_chars, str_equals, string_of, texts,
    trim, trim_chars,
};

verus! {

/// Why a transcript could not be normalized.
#[derive(Debug)]
pub enum NormalizeError {
    /// The content, or one of its lines, is not JSON.
    Json(serde_json::Error),
    /// The JSON holds none of the shapes a ChatGPT export has.
    UnsupportedChatGptShape,
}

/// The (role, content) texts of a list of messages.
pub open spec fn pair_texts(v: Seq<(String, String)>) -> Seq<(Seq<char>, Seq<char>)> {
    v.map_values(|p: (String, String)| (p.0@, p.1@))
}

/// The roles whose lines are quoted.
pub open spec fn is_user_role(role: Seq<char>) -> bool {
    role == "user"@ || role == "human"@
}

/// The line for one message: its trimmed content, quoted with `"> "` for a
/// user; none where the trimmed content is empty.
pub open spec fn transcript_line(role: Seq<char>, content: Seq<char>) -> Option<Seq<char>> {
    let t = trim(content);
    if t.len() == 0 {
        None
    } else if is_user_role(role) {
        Some(seq!['>', ' '] + t)
    } else {
        Some(t)
    }
}

/// The lines for a list of messages, in order.
pub open spec fn transcript_lines(items: Seq<(Seq<char>, Seq<char>)>) -> Seq<Seq<char>>
    decreases items.len(),
{
    if items.len() == 0 {
        Seq::<Seq<char>>::empty()
    } else {
        let rest = transcript_lines(items.drop_last());
        match transcript_line(items.last().0, items.last().1) {
            Some(l) => rest.push(l),
            None => rest,
        }
    }
}

/// The transcript of a list of messages: their lines joined with newlines.
pub open spec fn transcript(items: Seq<(Seq<char>, Seq<char>)>) -> Seq<char> {
    join(transcript_lines(items), seq!['\n'])
}

/// The role of a JSONL record: its `type`, `"assistant"` where it has none.
pub open spec fn claude_role(v: JsonValue) -> Seq<char> {
    match member_text(v, "type"@) {
        Some(r) => r,
        None => "assistant"@,
    }
}

/// The (role, text) of a JSONL record; the text is empty where it has none.
pub open spec fn claude_message(v: JsonValue) -> (Seq<char>, Seq<char>) {
    (
        claude_role(v),
        match message_text(v) {
            Some(t) => t,
            None => Seq::<char>::empty(),
        },
    )
}

/// The messages of parsed JSONL lines; `None` where a line is not JSON.
pub open spec fn claude_messages(lines: Seq<Seq<char>>) -> Option<Seq<(Seq<char>, Seq<char>)>>
    decreases lines.len(),
{
    if lines.len() == 0 {
        Some(Seq::<(Seq<char>, Seq<char>)>::empty())
    } else {
        match (claude_messages(lines.drop_last()), json_parse(lines.last())) {
            (Some(rest), Some(v)) => Some(rest.push(claude_message(v))),
            _ => None,
        }
    }
}

/// The transcript of a `ClaudeJsonl` file; `None` where a non-blank line is
/// not JSON.
pub open spec fn claude_transcript(content: Seq<char>) -> Option<Seq<char>> {
    match claude_messages(nonblank_lines(content)) {
        Some(items) => Some(transcript(items)),
        None => None,
    }
}

/// The (role, content) of a ChatGPT message with a string `role` and a
/// content text.
pub open spec fn chat_message(m: JsonValue) -> Option<(Seq<char>, Seq<char>)> {
    match member_text(m, "role"@) {
        Some(role) => match member(m, "content"@) {
            Some(c) => match content_text(c) {
                Some(t) => Some((role, t)),
                None => None,
            },
            None => None,
        },
        None => None,
    }
}

/// The messages of a ChatGPT message list, those without role or content
/// left out.
pub open spec fn chat_messages(items: Seq<JsonValue>) -> Seq<(Seq<char>, Seq<char>)>
    decreases items.len(),
{
    if items.len() == 0 {
        Seq::<(Seq<char>, Seq<char>)>::empty()
    } else {
        let rest = chat_messages(items.drop_last());
        match chat_message(items.last()) {
            Some(p) => rest.push(p),
            None => rest,
        }
    }
}

/// A root of a ChatGPT mapping: no `parent`, a null one, or an empty one.
pub open spec fn is_root_node(node: JsonValue) -> bool {
    match member(node, "parent"@) {
        None => true,
        Some(p) => p is Null || text_of(p) == Some(Seq::<char>::empty()),
    }
}

/// The id of the first root node of a mapping, in the mapping's order.
pub open spec fn root_node(entries: Seq<(String, JsonValue)>) -> Option<Seq<char>>
    decreases entries.len(),
{
    if entries.len() == 0 {
        None
    } else if is_root_node(entries[0].1) {
        Some(entries[0].0@)
    } else {
        root_node(entries.drop_first())
    }
}

/// The role of a message's author.
pub open spec fn author_role(m: JsonValue) -> Option<Seq<char>> {
    match member(m, "author"@) {
        Some(a) => member_text(a, "role"@),
        None => None,
    }
}

/// The message a mapping node carries, where it has an author role and a
/// content text.
pub open spec fn node_message(node: JsonValue) -> Seq<(Seq<char>, Seq<char>)> {
    match member(node, "message"@) {
        Some(m) => match author_role(m) {
            Some(role) => match member(m, "content"@) {
                Some(c) => match content_text(c) {
                    Some(t) => seq![(role, t)],
                    None => Seq::<(Seq<char>, Seq<char>)>::empty(),
                },
                None => Seq::<(Seq<char>, Seq<char>)>::empty(),
            },
            None => Seq::<(Seq<char>, Seq<char>)>::empty(),
        },
        None => Seq::<(Seq<char>, Seq<char>)>::empty(),
    }
}

/// The messages met in a depth-first walk of the mapping from node `id`:
/// the node's own message, then those under each child in order. Children
/// are followed `depth` levels down.
pub open spec fn walk(entries: Seq<(String, JsonValue)>, id: Seq<char>, depth: nat) -> Seq<
    (Seq<char>, Seq<char>),
>
    decreases depth, 0nat, 0nat,
{
    match entry_lookup(entries, id) {
        None => Seq::<(Seq<char>, Seq<char>)>::empty(),
        Some(node) => node_message(node) + if depth == 0 {
            Seq::<(Seq<char>, Seq<char>)>::empty()
        } else {
            match member(node, "children"@) {
                Some(JsonValue::Array(children)) => walk_children(
                    entries,
                    children@,
                    (depth - 1) as nat,
                ),
                _ => Seq::<(Seq<char>, Seq<char>)>::empty(),
            }
        },
    }
}

/// The walks from each child whose id is a string, in order.
pub open spec fn walk_children(
    entries: Seq<(String, JsonValue)>,
    children: Seq<JsonValue>,
    depth: nat,
) -> Seq<(Seq<char>, Seq<char>)>
    decreases depth, 1nat, children.len(),
{
    if children.len() == 0 {
        Seq::<(Seq<char>, Seq<char>)>::empty()
    } else {
        walk_children(entries, children.drop_last(), depth) + match text_of(children.last()) {
            Some(child) => walk(entries, child, depth),
            None => Seq::<(Seq<char>, Seq<char>)>::empty(),
        }
    }
}

/// The messages of a ChatGPT mapping, walked from its first root. The walk
/// goes as deep as the mapping has members: a walk whose paths repeat no
/// node never needs more (`lemma_walk_depth_suffices`), and a walk round a
/// cycle stops there instead of going on for ever.
pub open spec fn mapping_messages(entries: Seq<(String, JsonValue)>) -> Seq<
    (Seq<char>, Seq<char>),
> {
    match root_node(entries) {
        Some(root) => walk(entries, root, entries.len()),
        None => Seq::<(Seq<char>, Seq<char>)>::empty(),
    }
}

/// The transcript of a parsed ChatGPT export: a message array, an object
/// with a `messages` array, or an object with a `mapping` object; `None` for
/// any other shape.
pub open spec fn chatgpt_transcript(v: JsonValue) -> Option<Seq<char>> {
    match v {
        JsonValue::Array(items) => Some(transcript(chat_messages(items@))),
        _ => match member(v, "messages"@) {
            Some(JsonValue::Array(items)) => Some(transcript(chat_messages(items@))),
            _ => match member(v, "mapping"@) {
                Some(JsonValue::Object(entries)) => Some(transcript(mapping_messages(entries@))),
                _ => None,
            },
        },
    }
}

/// Whether `role` is a user's role.
fn is_user(role: &str) -> (r: bool)
    ensures
        r == is_user_role(role@),
{
    str_equals(role, "user") || str_equals(role, "human")
}

/// The transcript of a list of (role, content) messages.
pub fn render_transcript(items: &Vec<(String, String)>) -> (r: String)
    ensures
        r@ == transcript(pair_texts(items@)),
{
    let mut lines: Vec<Vec<char>> = Vec::new();
    let n = items.len();
    let ghost all = pair_texts(items@);
    assert(all.take(0) =~= Seq::<(Seq<char>, Seq<char>)>::empty());
    assert(texts(lines@) =~= Seq::<Seq<char>>::empty());
    for i in 0..n
        invariant
            n == items@.len(),
            all == pair_texts(items@),
            texts(lines@) == transcript_lines(all.take(i as int)),
    {
        let ghost before = lines@;
        let role = &items[i].0;
        let content = &items[i].1;
        assert(all.take(i + 1).drop_last() =~= all.take(i as int));
        assert(all.take(i + 1).last() == (role@, content@));
        let t = trim_chars(&str_chars(content.as_str()));
        if t.len() > 0 {
            if is_user(role.as_str()) {
                let mut line: Vec<char> = Vec::new();
                line.push('>');
                line.push(' ');
                let m = t.len();
                for k in 0..m
                    invariant
                        m == t@.len(),
                        line@ == seq!['>', ' '] + t@.take(k as int),
                {
                    line.push(t[k]);
                    assert(t@.take(k + 1) =~= t@.take(k as int).push(t[k as int]));
                }
                assert(t@.take(m as int) =~= t@);
                lines.push(line);
            } else {
                lines.push(t);
            }
            assert(texts(lines@) =~= texts(before).push(lines@.last()@));
        }
    }
    assert(all.take(n as int) =~= all);
    string_of(&join_lines(&lines))
}

/// The (role, text) of a parsed JSONL record: its `type`, or `"assistant"`
/// where it has none, and its message text, or nothing.
pub fn record_message(value: &JsonValue) -> (r: (String, String))
    ensures
        (r.0@, r.1@) == claude_message(*value),
{
    let role = match value.get_str("type") {
        Some(role) => role.clone(),
        None => String::from_str("assistant"),
    };
    let message = match extract_message_text(value) {
        Some(message) => message,
        None => String::new(),
    };
    (role, message)
}

/// The transcript of a `ClaudeJsonl` file.
fn normalize_claude_jsonl(content: &str) -> (r: Result<String, NormalizeError>)
    ensures
        match claude_transcript(content@) {
            Some(t) => r matches Ok(s) && s@ == t,
            None => r matches Err(NormalizeError::Json(_)),
        },
{
    let chars = str_chars(content);
    let lines = nonblank_lines_of(&chars);
    let ghost spec_lines = nonblank_lines(content@);
    let mut items: Vec<(String, String)> = Vec::new();
    let n = lines.len();
    assert(spec_lines.take(0) =~= Seq::<Seq<char>>::empty());
    assert(pair_texts(items@) =~= Seq::<(Seq<char>, Seq<char>)>::empty());
    for i in 0..n
        invariant
            n == lines@.len(),
            texts(lines@) == spec_lines,
            spec_lines == nonblank_lines(content@),
            claude_messages(spec_lines.take(i as int)) == Some(pair_texts(items@)),
    {
        let line = string_of(&lines[i]);
        assert(spec_lines[i as int] == lines@[i as int]@);
        assert(spec_lines.take(i + 1).drop_last() =~= spec_lines.take(i as int));
        assert(spec_lines.take(i + 1).last() == spec_lines[i as int]);
        let value = match parse_json(line.as_str()) {
            Ok(value) => value,
            Err(e) => {
                proof {
                    lemma_claude_messages_fail(spec_lines, i as int);
                }
                return Err(NormalizeError::Json(e));
            },
        };
        let ghost before = items@;
        items.push(record_message(&value));
        assert(pair_texts(items@) =~= pair_texts(before).push(claude_message(value)));
    }
    assert(spec_lines.take(n as int) =~= spec_lines);
    Ok(render_transcript(&items))
}

/// Once a line fails to parse, every longer prefix fails too.
proof fn lemma_claude_messages_fail(lines: Seq<Seq<char>>, i: int)
    requires
        0 <= i < lines.len(),
        json_parse(lines[i]) is None,
    ensures
        claude_messages(lines) is None,
    decreases lines.len(),
{
    if i < lines.len() - 1 {
        assert(lines.drop_last()[i] == lines[i]);
        lemma_claude_messages_fail(lines.drop_last(), i);
    }
}


/// The (role, content) messages of a ChatGPT message list.
fn chatgpt_message_pairs(messages: &Vec<JsonValue>) -> (r: Vec<(String, String)>)
    ensures
        pair_texts(r@) == chat_messages(messages@),
{
    let mut items: Vec<(String, String)> = Vec::new();
    let n = messages.len();
    assert(messages@.take(0) =~= Seq::<JsonValue>::empty());
    assert(pair_texts(items@) =~= Seq::<(Seq<char>, Seq<char>)>::empty());
    for i in 0..n
        invariant
            n == messages@.len(),
            pair_texts(items@) == chat_messages(messages@.take(i as int)),
    {
        let message = &messages[i];
        assert(messages@.take(i + 1).drop_last() =~= messages@.take(i as int));
        assert(messages@.take(i + 1).last() == *message);
        let ghost before = items@;
        if let Some(role) = message.get_str("role") {
            if let Some(content) = message.get("content") {
                if let Some(text) = extract_content_text(content) {
                    items.push((role.clone(), text));
                    assert(pair_texts(items@) =~= pair_texts(before).push((role@, text@)));
                }
            }
        }
    }
    assert(messages@.take(n as int) =~= messages@);
    items
}

/// The transcript of a ChatGPT message list.
fn normalize_chatgpt_messages(messages: &Vec<JsonValue>) -> (r: String)
    ensures
        r@ == transcript(chat_messages(messages@)),
{
    render_transcript(&chatgpt_message_pairs(messages))
}

/// Whether a mapping node is a root.
fn is_root(node: &JsonValue) -> (r: bool)
    ensures
        r == is_root_node(*node),
{
    match node.get("parent") {
        None => true,
        Some(parent) => parent.is_null() || match parent.as_str() {
            Some(text) => {
                let empty = text.as_str().is_empty();
                assert(empty <==> text@ =~= Seq::<char>::empty());
                empty
            },
            None => false,
        },
    }
}

/// The id of the first root node of a mapping.
fn find_root_node(mapping: &Vec<(String, JsonValue)>) -> (r: Option<String>)
    ensures
        match r {
            Some(id) => root_node(mapping@) == Some(id@),
            None => root_node(mapping@) is None,
        },
{
    let n = mapping.len();
    assert(mapping@.skip(0) =~= mapping@);
    for i in 0..n
        invariant
            n == mapping@.len(),
            root_node(mapping@) == root_node(mapping@.skip(i as int)),
    {
        assert(mapping@.skip(i as int)[0] == mapping@[i as int]);
        if is_root(&mapping[i].1) {
            return Some(mapping[i].0.clone());
        }
        assert(mapping@.skip(i as int).drop_first() =~= mapping@.skip(i + 1));
    }
    None
}

/// Appends the messages of a walk from `node_id`, `depth` levels deep.
fn collect_messages_dfs(
    mapping: &Vec<(String, JsonValue)>,
    node_id: &str,
    depth: usize,
    result: &mut Vec<(String, String)>,
)
    ensures
        pair_texts(final(result)@) == pair_texts(old(result)@) + walk(
            mapping@,
            node_id@,
            depth as nat,
        ),
    decreases depth,
{
    let ghost start = pair_texts(result@);
    let node = match lookup(mapping, node_id) {
        Some(node) => node,
        None => {
            assert(pair_texts(result@) =~= start + Seq::<(Seq<char>, Seq<char>)>::empty());
            return;
        },
    };
    if let Some(message) = node.get("message") {
        let role = match message.get("author") {
            Some(author) => author.get_str("role"),
            None => None,
        };
        let content = match message.get("content") {
            Some(content) => extract_content_text(content),
            None => None,
        };
        if let (Some(role), Some(content)) = (role, content) {
            let ghost before = result@;
            result.push((role.clone(), content));
            assert(pair_texts(result@) =~= pair_texts(before).push((role@, content@)));
        }
    }
    let ghost own = pair_texts(result@);
    assert(own == start + node_message(*node));
    if depth == 0 {
        assert(pair_texts(result@) =~= start + node_message(*node) + Seq::<
            (Seq<char>, Seq<char>),
        >::empty());
        return;
    }
    match node.get("children") {
        Some(JsonValue::Array(children)) => {
            let n = children.len();
            assert(children@.take(0) =~= Seq::<JsonValue>::empty());
            assert(pair_texts(result@) =~= own + Seq::<(Seq<char>, Seq<char>)>::empty());
            for i in 0..n
                invariant
                    n == children@.len(),
                    depth > 0,
                    pair_texts(result@) == own + walk_children(
                        mapping@,
                        children@.take(i as int),
                        (depth - 1) as nat,
                    ),
            {
                let ghost before = pair_texts(result@);
                assert(children@.take(i + 1).drop_last() =~= children@.take(i as int));
                assert(children@.take(i + 1).last() == children@[i as int]);
                if let Some(child_id) = children[i].as_str() {
                    collect_messages_dfs(mapping, child_id.as_str(), depth - 1, result);
                } else {
                    assert(pair_texts(result@) =~= before + Seq::<(Seq<char>, Seq<char>)>::empty());
                }
                assert(pair_texts(result@) =~= own + walk_children(
                    mapping@,
                    children@.take(i + 1),
                    (depth - 1) as nat,
                ));
            }
            assert(children@.take(n as int) =~= children@);
        },
        _ => {
            assert(pair_texts(result@) =~= start + node_message(*node) + Seq::<
                (Seq<char>, Seq<char>),
            >::empty());
        },
    }
}

/// The transcript of a parsed ChatGPT export; `UnsupportedChatGptShape` for
/// a value of no known shape.
pub fn normalize_chatgpt_value(value: &JsonValue) -> (r: Result<String, NormalizeError>)
    ensures
        match chatgpt_transcript(*value) {
            Some(t) => r matches Ok(s) && s@ == t,
            None => r matches Err(NormalizeError::UnsupportedChatGptShape),
        },
{
    if let Some(messages) = value.as_array() {
        return Ok(normalize_chatgpt_messages(messages));
    }
    if let Some(messages) = value.get("messages") {
        if let Some(messages) = messages.as_array() {
            return Ok(normalize_chatgpt_messages(messages));
        }
    }
    let mapping = match value.get("mapping") {
        Some(mapping) => mapping.as_object(),
        None => None,
    };
    if let Some(mapping) = mapping {
        let mut ordered: Vec<(String, String)> = Vec::new();
        if let Some(root_id) = find_root_node(mapping) {
            collect_messages_dfs(mapping, root_id.as_str(), mapping.len(), &mut ordered);
            assert(pair_texts(ordered@) =~= mapping_messages(mapping@));
        } else {
            assert(pair_texts(ordered@) =~= mapping_messages(mapping@));
        }
        return Ok(render_transcript(&ordered));
    }
    Err(NormalizeError::UnsupportedChatGptShape)
}

/// The transcript of a ChatGPT JSON export.
fn normalize_chatgpt_json(content: &str) -> (r: Result<String, NormalizeError>)
    ensures
        match json_parse(content@) {
            None => r matches Err(NormalizeError::Json(_)),
            Some(v) => match chatgpt_transcript(v) {
                Some(t) => r matches Ok(s) && s@ == t,
                None => r matches Err(NormalizeError::UnsupportedChatGptShape),
            },
        },
{
    match parse_json(content) {
        Ok(value) => normalize_chatgpt_value(&value),
        Err(e) => Err(NormalizeError::Json(e)),
    }
}

/// What normalizing `content` as `format` gives: the trimmed text for plain
/// text, the transcript for the two conversation formats; `None` where the
/// content cannot be read as that format.
pub open spec fn normalized(content: Seq<char>, format: Format) -> Option<Seq<char>> {
    match format {
        Format::PlainText => Some(trim(content)),
        Format::ClaudeJsonl => claude_transcript(content),
        Format::ChatGptJson => match json_parse(content) {
            Some(v) => chatgpt_transcript(v),
            None => None,
        },
    }
}

/// Normalizes `content`, read as `format`, into plain transcript text.
pub fn normalize_content(content: &str, format: Format) -> (r: Result<String, NormalizeError>)
    ensures
        match normalized(content@, format) {
            Some(t) => r matches Ok(s) && s@ == t,
            None => r is Err,
        },
        r matches Err(NormalizeError::UnsupportedChatGptShape) ==> format == Format::ChatGptJson
            && json_parse(content@) is Some,
        r matches Err(NormalizeError::Json(_)) ==> format != Format::PlainText && (format
            == Format::ChatGptJson ==> json_parse(content@) is None),
{
    match format {
        Format::PlainText => Ok(string_of(&trim_chars(&str_chars(content)))),
        Format::ClaudeJsonl => normalize_claude_jsonl(content),
        Format::ChatGptJson => normalize_chatgpt_json(content),
    }
}


/// Every line parses, so the JSONL messages are all there.
proof fn lemma_claude_messages_parse(lines: Seq<Seq<char>>)
    requires
        forall|i: int| 0 <= i < lines.len() ==> (#[trigger] json_parse(lines[i])) is Some,
    ensures
        claude_messages(lines) is Some,
    decreases lines.len(),
{
    if lines.len() > 0 {
        let init = lines.drop_last();
        assert forall|i: int| 0 <= i < init.len() implies (#[trigger] json_parse(init[i])) is Some by {
            assert(init[i] == lines[i]);
        }
        lemma_claude_messages_parse(init);
        assert(json_parse(lines[lines.len() - 1]) is Some);
    }
}

/// Content that `detect_format` reports in a format never fails to
/// normalize as that format for want of JSON: a `ClaudeJsonl` file always
/// normalizes, a ChatGPT export always parses (it can only miss a known
/// shape), and plain text always normalizes.
pub proof fn lemma_detected_format_normalizes(content: Seq<char>)
    ensures
        format_of(content) == Format::ClaudeJsonl ==> normalized(content, Format::ClaudeJsonl) is Some,
        format_of(content) == Format::ChatGptJson ==> json_parse(content) is Some,
        normalized(content, Format::PlainText) is Some,
{
    if format_of(content) == Format::ClaudeJsonl {
        let lines = nonblank_lines(content);
        assert(claude_jsonl(content));
        assert forall|i: int| 0 <= i < lines.len() implies (#[trigger] json_parse(lines[i])) is Some by {
            assert(match json_parse(lines[i]) {
                Some(v) => crate::detect::claude_record(v),
                None => false,
            });
        }
        lemma_claude_messages_parse(lines);
    }
}

/// Normalizing plain text twice gives what normalizing it once gives.
pub proof fn lemma_plain_normalize_idempotent(content: Seq<char>)
    ensures
        normalized(content, Format::PlainText) matches Some(t) && normalized(t, Format::PlainText)
            == Some(t),
{
    crate::text::lemma_trim_idempotent(content);
}


/// Whether `child` is the id of one of `node`'s children.
pub open spec fn is_child(node: JsonValue, child: Seq<char>) -> bool {
    match member(node, "children"@) {
        Some(JsonValue::Array(children)) => exists|i: int|
            0 <= i < children@.len() && text_of(#[trigger] children@[i]) == Some(child),
        _ => false,
    }
}

/// A path through a mapping: nodes present in it, each a child of the one
/// before.
pub open spec fn is_path(entries: Seq<(String, JsonValue)>, p: Seq<Seq<char>>) -> bool {
    &&& forall|i: int| 0 <= i < p.len() ==> (#[trigger] entry_lookup(entries, p[i])) is Some
    &&& forall|i: int|
        0 <= i < p.len() - 1 ==> is_child(entry_lookup(entries, #[trigger] p[i])->0, p[i + 1])
}

/// No path from `id` visits a node twice: exactly the mappings on which a
/// depth-first walk from `id` with no depth bound comes to an end.
pub open spec fn acyclic_from(entries: Seq<(String, JsonValue)>, id: Seq<char>) -> bool {
    forall|p: Seq<Seq<char>>|
        p.len() > 0 && p[0] == id && #[trigger] is_path(entries, p) ==> p.no_duplicates()
}

/// Every path from `id` has at most `k` nodes.
pub open spec fn paths_within(entries: Seq<(String, JsonValue)>, id: Seq<char>, k: nat) -> bool {
    forall|p: Seq<Seq<char>>|
        p.len() > 0 && p[0] == id && #[trigger] is_path(entries, p) ==> p.len() <= k
}

/// A present node's id is one of the mapping's keys.
proof fn lemma_lookup_key(entries: Seq<(String, JsonValue)>, key: Seq<char>)
    requires
        entry_lookup(entries, key) is Some,
    ensures
        entries.map_values(|x: (String, JsonValue)| x.0@).contains(key),
    decreases entries.len(),
{
    let keys = entries.map_values(|x: (String, JsonValue)| x.0@);
    if entries[0].0@ == key {
        assert(keys[0] == key);
    } else {
        lemma_lookup_key(entries.drop_first(), key);
        let rest = entries.drop_first().map_values(|x: (String, JsonValue)| x.0@);
        let j = choose|j: int| 0 <= j < rest.len() && rest[j] == key;
        assert(keys[j + 1] == key);
    }
}

/// Walks from children that are all absent find nothing.
proof fn lemma_children_absent(entries: Seq<(String, JsonValue)>, children: Seq<JsonValue>, k: nat)
    requires
        forall|i: int|
            0 <= i < children.len() ==> match text_of(#[trigger] children[i]) {
                Some(c) => entry_lookup(entries, c) is None,
                None => true,
            },
    ensures
        walk_children(entries, children, k) == Seq::<(Seq<char>, Seq<char>)>::empty(),
    decreases children.len(),
{
    if children.len() > 0 {
        let init = children.drop_last();
        assert forall|i: int| 0 <= i < init.len() implies match text_of(#[trigger] init[i]) {
            Some(c) => entry_lookup(entries, c) is None,
            None => true,
        } by {
            assert(init[i] == children[i]);
        }
        lemma_children_absent(entries, init, k);
        assert(children.last() == children[children.len() - 1]);
        if let Some(c) = text_of(children.last()) {
            assert(walk(entries, c, k) =~= Seq::<(Seq<char>, Seq<char>)>::empty());
        }
        assert(walk_children(entries, children, k) =~= Seq::<(Seq<char>, Seq<char>)>::empty());
    }
}

/// Prefixing a path from a child with its parent gives a path.
proof fn lemma_path_extend(
    entries: Seq<(String, JsonValue)>,
    id: Seq<char>,
    node: JsonValue,
    q: Seq<Seq<char>>,
)
    requires
        entry_lookup(entries, id) == Some(node),
        q.len() > 0,
        is_child(node, q[0]),
        is_path(entries, q),
    ensures
        is_path(entries, seq![id] + q),
        (seq![id] + q)[0] == id,
{
    let p = seq![id] + q;
    assert forall|i: int| 0 <= i < p.len() implies (#[trigger] entry_lookup(entries, p[i])) is Some by {
        if i > 0 {
            assert(p[i] == q[i - 1]);
        }
    }
    assert forall|i: int| 0 <= i < p.len() - 1 implies is_child(
        entry_lookup(entries, #[trigger] p[i])->0,
        p[i + 1],
    ) by {
        if i > 0 {
            assert(p[i] == q[i - 1]);
            assert(p[i + 1] == q[i]);
            assert(entry_lookup(entries, q[i - 1]) is Some);
        }
    }
}

/// Where no path from `id` is longer than `d + 1` nodes, walking one level
/// deeper than `d` finds nothing more.
proof fn lemma_walk_stable(entries: Seq<(String, JsonValue)>, id: Seq<char>, d: nat)
    requires
        paths_within(entries, id, d + 1),
    ensures
        walk(entries, id, d) == walk(entries, id, d + 1),
    decreases d, 0nat, 0nat,
{
    match entry_lookup(entries, id) {
        None => {},
        Some(node) => {
            match member(node, "children"@) {
                Some(JsonValue::Array(children)) => {
                    if d == 0 {
                        assert forall|i: int| 0 <= i < children@.len() implies match text_of(
                            #[trigger] children@[i],
                        ) {
                            Some(c) => entry_lookup(entries, c) is None,
                            None => true,
                        } by {
                            if let Some(c) = text_of(children@[i]) {
                                if entry_lookup(entries, c) is Some {
                                    assert(is_child(node, c));
                                    assert(is_path(entries, seq![c]));
                                    lemma_path_extend(entries, id, node, seq![c]);
                                    assert((seq![id] + seq![c]).len() == 2);
                                }
                            }
                        }
                        lemma_children_absent(entries, children@, 0);
                        assert(walk(entries, id, 0) =~= walk(entries, id, 1));
                    } else {
                        lemma_children_stable(entries, id, node, children@, (d - 1) as nat);
                    }
                },
                _ => {},
            }
        },
    }
}

/// The walks from a list of children of `id`'s node are stable one level
/// below `k`, where no path from `id` is longer than `k + 2` nodes.
proof fn lemma_children_stable(
    entries: Seq<(String, JsonValue)>,
    id: Seq<char>,
    node: JsonValue,
    children: Seq<JsonValue>,
    k: nat,
)
    requires
        entry_lookup(entries, id) == Some(node),
        paths_within(entries, id, k + 2),
        forall|i: int|
            0 <= i < children.len() ==> match #[trigger] text_of(children[i]) {
                Some(c) => is_child(node, c),
                None => true,
            },
    ensures
        walk_children(entries, children, k) == walk_children(entries, children, k + 1),
    decreases k, 1nat, children.len(),
{
    if children.len() > 0 {
        let init = children.drop_last();
        assert forall|i: int| 0 <= i < init.len() implies match #[trigger] text_of(init[i]) {
            Some(c) => is_child(node, c),
            None => true,
        } by {
            assert(init[i] == children[i]);
        }
        lemma_children_stable(entries, id, node, init, k);
        let last = children.last();
        assert(text_of(children[children.len() - 1]) == text_of(last));
        if let Some(c) = text_of(last) {
            if entry_lookup(entries, c) is Some {
                assert forall|q: Seq<Seq<char>>|
                    q.len() > 0 && q[0] == c && #[trigger] is_path(entries, q) implies q.len() <= k
                    + 1 by {
                    lemma_path_extend(entries, id, node, q);
                    assert((seq![id] + q).len() == q.len() + 1);
                }
                lemma_walk_stable(entries, c, k);
            }
        }
    }
}

/// On a mapping where no path from `id` repeats a node, no path has more
/// nodes than the mapping has members.
proof fn lemma_acyclic_paths_bounded(entries: Seq<(String, JsonValue)>, id: Seq<char>)
    requires
        acyclic_from(entries, id),
    ensures
        paths_within(entries, id, entries.len()),
{
    let keys = entries.map_values(|x: (String, JsonValue)| x.0@);
    assert forall|p: Seq<Seq<char>>|
        p.len() > 0 && p[0] == id && #[trigger] is_path(entries, p) implies p.len()
        <= entries.len() by {
        p.unique_seq_to_set();
        assert forall|x: Seq<char>| p.to_set().contains(x) implies keys.to_set().contains(x) by {
            let i = choose|i: int| 0 <= i < p.len() && p[i] == x;
            assert(entry_lookup(entries, p[i]) is Some);
            lemma_lookup_key(entries, x);
        }
        keys.lemma_cardinality_of_set();
        vstd::set_lib::lemma_len_subset(p.to_set(), keys.to_set());
    }
}

/// Where no path from `id` is longer than `d + 1` nodes, no deeper walk
/// finds more than the walk `d` levels deep.
proof fn lemma_walk_settled(entries: Seq<(String, JsonValue)>, id: Seq<char>, d: nat, deeper: nat)
    requires
        paths_within(entries, id, d + 1),
        d <= deeper,
    ensures
        walk(entries, id, deeper) == walk(entries, id, d),
    decreases deeper - d,
{
    if deeper > d {
        lemma_walk_settled(entries, id, d, (deeper - 1) as nat);
        assert(paths_within(entries, id, deeper));
        lemma_walk_stable(entries, id, (deeper - 1) as nat);
    }
}

/// On a mapping where no path from `id` repeats a node (the mappings on
/// which a depth-first walk without a bound ends), walking deeper than the
/// mapping has members finds nothing more: the bound that
/// `mapping_messages` puts on the walk cuts nothing off.
pub proof fn lemma_walk_depth_suffices(entries: Seq<(String, JsonValue)>, id: Seq<char>, depth: nat)
    requires
        acyclic_from(entries, id),
        depth >= entries.len(),
    ensures
        walk(entries, id, depth) == walk(entries, id, entries.len()),
{
    lemma_acyclic_paths_bounded(entries, id);
    assert(paths_within(entries, id, entries.len() + 1));
    lemma_walk_settled(entries, id, entries.len(), depth);
}


/// The roles other than `"user"` and `"human"` are all rendered alike, as
/// the assistant's are: the trimmed content, unquoted. `"user"` and
/// `"human"` lines are that same text behind `"> "`. A blank content gives
/// no line for any role.
pub proof fn lemma_only_users_quoted(role: Seq<char>, content: Seq<char>)
    ensures
        role != "user"@ && role != "human"@ ==> transcript_line(role, content)
            == transcript_line("assistant"@, content),
        trim(content).len() > 0 ==> transcript_line("assistant"@, content) == Some(trim(content)),
        trim(content).len() > 0 ==> transcript_line("user"@, content) == Some(
            seq!['>', ' '] + trim(content),
        ),
        transcript_line("human"@, content) == transcript_line("user"@, content),
        trim(content).len() == 0 ==> transcript_line(role, content) is None,
{
    reveal_strlit("assistant");
    reveal_strlit("user");
    reveal_strlit("human");
    assert("assistant"@ != "user"@) by {
        assert("assistant"@.len() != "user"@.len());
    }
    assert("assistant"@ != "human"@) by {
        assert("assistant"@.len() != "human"@.len());
    }
}

/// Appending `x` to a sequence that holds `m`, or a sequence that holds `m`
/// to `x`, keeps `m`.
proof fn lemma_concat_contains(
    a: Seq<(Seq<char>, Seq<char>)>,
    b: Seq<(Seq<char>, Seq<char>)>,
    m: (Seq<char>, Seq<char>),
)
    requires
        a.contains(m) || b.contains(m),
    ensures
        (a + b).contains(m),
{
    if a.contains(m) {
        let j = choose|j: int| 0 <= j < a.len() && a[j] == m;
        assert((a + b)[j] == m);
    } else {
        let j = choose|j: int| 0 <= j < b.len() && b[j] == m;
        assert((a + b)[a.len() + j] == m);
    }
}

/// The walks from a list of children hold whatever the walk from any one of
/// them holds.
proof fn lemma_children_contain(
    entries: Seq<(String, JsonValue)>,
    children: Seq<JsonValue>,
    i: int,
    child: Seq<char>,
    k: nat,
    m: (Seq<char>, Seq<char>),
)
    requires
        0 <= i < children.len(),
        text_of(children[i]) == Some(child),
        walk(entries, child, k).contains(m),
    ensures
        walk_children(entries, children, k).contains(m),
    decreases children.len(),
{
    let init = children.drop_last();
    let tail = match text_of(children.last()) {
        Some(c) => walk(entries, c, k),
        None => Seq::<(Seq<char>, Seq<char>)>::empty(),
    };
    if i == children.len() - 1 {
        assert(children.last() == children[i]);
        lemma_concat_contains(walk_children(entries, init, k), tail, m);
    } else {
        assert(init[i] == children[i]);
        lemma_children_contain(entries, init, i, child, k, m);
        lemma_concat_contains(walk_children(entries, init, k), tail, m);
    }
}

/// The walk from the first node of a path, deep enough for the path, holds
/// the message of the path's last node.
proof fn lemma_walk_reaches(
    entries: Seq<(String, JsonValue)>,
    p: Seq<Seq<char>>,
    d: nat,
    m: (Seq<char>, Seq<char>),
)
    requires
        p.len() > 0,
        p.len() <= d + 1,
        is_path(entries, p),
        node_message(entry_lookup(entries, p.last())->0).contains(m),
    ensures
        walk(entries, p[0], d).contains(m),
    decreases p.len(),
{
    assert(entry_lookup(entries, p[0]) is Some);
    let node = entry_lookup(entries, p[0])->0;
    if p.len() == 1 {
        assert(p.last() == p[0]);
        let rest = if d == 0 {
            Seq::<(Seq<char>, Seq<char>)>::empty()
        } else {
            match member(node, "children"@) {
                Some(JsonValue::Array(children)) => walk_children(
                    entries,
                    children@,
                    (d - 1) as nat,
                ),
                _ => Seq::<(Seq<char>, Seq<char>)>::empty(),
            }
        };
        lemma_concat_contains(node_message(node), rest, m);
    } else {
        let q = p.drop_first();
        assert forall|i: int| 0 <= i < q.len() implies (#[trigger] entry_lookup(entries, q[i])) is Some by {
            assert(q[i] == p[i + 1]);
        }
        assert forall|i: int| 0 <= i < q.len() - 1 implies is_child(
            entry_lookup(entries, #[trigger] q[i])->0,
            q[i + 1],
        ) by {
            assert(q[i] == p[i + 1]);
            assert(q[i + 1] == p[i + 2]);
        }
        assert(q.last() == p.last());
        lemma_walk_reaches(entries, q, (d - 1) as nat, m);
        assert(is_child(node, p[1]));
        match member(node, "children"@) {
            Some(JsonValue::Array(children)) => {
                let i = choose|i: int|
                    0 <= i < children@.len() && text_of(#[trigger] children@[i]) == Some(p[1]);
                assert(q[0] == p[1]);
                lemma_children_contain(entries, children@, i, p[1], (d - 1) as nat, m);
                lemma_concat_contains(
                    node_message(node),
                    walk_children(entries, children@, (d - 1) as nat),
                    m,
                );
            },
            _ => {},
        }
    }
}

/// On a mapping where no path from the root repeats a node, the messages of
/// the mapping hold the message of every node reachable from the root: no
/// part of the conversation is lost, however long it is.
pub proof fn lemma_mapping_messages_complete(
    entries: Seq<(String, JsonValue)>,
    p: Seq<Seq<char>>,
    m: (Seq<char>, Seq<char>),
)
    requires
        p.len() > 0,
        root_node(entries) == Some(p[0]),
        acyclic_from(entries, p[0]),
        is_path(entries, p),
        node_message(entry_lookup(entries, p.last())->0).contains(m),
    ensures
        mapping_messages(entries).contains(m),
{
    lemma_acyclic_paths_bounded(entries, p[0]);
    lemma_walk_reaches(entries, p, entries.len(), m);
}

/// On a mapping where no path from the root repeats a node, the messages of
/// the mapping are those of the walk from the root at any depth at least the
/// mapping's size: the walk is never cut short.
pub proof fn lemma_mapping_messages_unbounded(
    entries: Seq<(String, JsonValue)>,
    root: Seq<char>,
    depth: nat,
)
    requires
        root_node(entries) == Some(root),
        acyclic_from(entries, root),
        depth >= entries.len(),
    ensures
        mapping_messages(entries) == walk(entries, root, depth),
{
    lemma_walk_depth_suffices(entries, root, depth);
}


/// Adding a message adds its line at the end, after a newline where there
/// were lines before, and adds nothing for a blank message.
pub proof fn lemma_transcript_push(
    items: Seq<(Seq<char>, Seq<char>)>,
    role: Seq<char>,
    content: Seq<char>,
)
    ensures
        match transcript_line(role, content) {
            None => transcript(items.push((role, content))) == transcript(items),
            Some(l) => transcript(items.push((role, content))) == if transcript_lines(items).len()
                == 0 {
                l
            } else {
                transcript(items) + seq!['\n'] + l
            },
        },
{
    let all = items.push((role, content));
    assert(all.drop_last() =~= items);
    assert(all.last() == (role, content));
    if let Some(l) = transcript_line(role, content) {
        let lines = transcript_lines(items);
        assert(lines.push(l).drop_last() =~= lines);
        assert(lines.push(l).last() == l);
        if lines.len() == 0 {
            assert(lines.push(l)[0] == l);
        }
    }
}

/// A node's own message comes first in its walk, then the walks from its
/// children.
pub proof fn lemma_walk_node_first(
    entries: Seq<(String, JsonValue)>,
    id: Seq<char>,
    node: JsonValue,
    children: Seq<JsonValue>,
    d: nat,
)
    requires
        entry_lookup(entries, id) == Some(node),
        member(node, "children"@) matches Some(JsonValue::Array(cs)) && cs@ == children,
    ensures
        walk(entries, id, 0) == node_message(node),
        walk(entries, id, d + 1) == node_message(node) + walk_children(entries, children, d),
{
    assert(walk(entries, id, 0) =~= node_message(node));
}

/// The walks from a list of children are those from its first part, then
/// those from the rest: children are walked in their order.
pub proof fn lemma_children_in_order(
    entries: Seq<(String, JsonValue)>,
    a: Seq<JsonValue>,
    b: Seq<JsonValue>,
    d: nat,
)
    ensures
        walk_children(entries, a + b, d) == walk_children(entries, a, d) + walk_children(
            entries,
            b,
            d,
        ),
    decreases b.len(),
{
    if b.len() == 0 {
        assert(a + b =~= a);
        assert(walk_children(entries, a, d) + walk_children(entries, b, d) =~= walk_children(
            entries,
            a,
            d,
        ));
    } else {
        assert((a + b).drop_last() =~= a + b.drop_last());
        assert((a + b).last() == b.last());
        lemma_children_in_order(entries, a, b.drop_last(), d);
        let tail = match text_of(b.last()) {
            Some(c) => walk(entries, c, d),
            None => Seq::<(Seq<char>, Seq<char>)>::empty(),
        };
        assert(walk_children(entries, a, d) + walk_children(entries, b.drop_last(), d) + tail
            =~= walk_children(entries, a, d) + (walk_children(entries, b.drop_last(), d) + tail));
    }
}

/// A single child's walks are its own walk, where its id is a string, and
/// nothing otherwise.
pub proof fn lemma_single_child(entries: Seq<(String, JsonValue)>, child: JsonValue, d: nat)
    ensures
        walk_children(entries, seq![child], d) == match text_of(child) {
            Some(c) => walk(entries, c, d),
            None => Seq::<(Seq<char>, Seq<char>)>::empty(),
        },
{
    assert(seq![child].drop_last() =~= Seq::<JsonValue>::empty());
    assert(seq![child].last() == child);
    assert(walk_children(entries, Seq::<JsonValue>::empty(), d) + walk_children(entries, seq![child], d)
        =~= walk_children(entries, seq![child], d));
}

/// The root is the first member, in the mapping's order, that is a root
/// node; there is none only where no member is one.
pub proof fn lemma_root_is_first(entries: Seq<(String, JsonValue)>)
    ensures
        match root_node(entries) {
            Some(id) => exists|i: int|
                {
                    &&& 0 <= i < entries.len()
                    &&& entries[i].0@ == id
                    &&& is_root_node(entries[i].1)
                    &&& forall|j: int| 0 <= j < i ==> !is_root_node(#[trigger] entries[j].1)
                },
            None => forall|j: int| 0 <= j < entries.len() ==> !is_root_node(#[trigger] entries[j].1),
        },
    decreases entries.len(),
{
    if entries.len() > 0 && !is_root_node(entries[0].1) {
        let rest = entries.drop_first();
        lemma_root_is_first(rest);
        match root_node(rest) {
            Some(id) => {
                let i = choose|i: int|
                    {
                        &&& 0 <= i < rest.len()
                        &&& rest[i].0@ == id
                        &&& is_root_node(rest[i].1)
                        &&& forall|j: int| 0 <= j < i ==> !is_root_node(#[trigger] rest[j].1)
                    };
                assert(entries[i + 1] == rest[i]);
                assert forall|j: int| 0 <= j < i + 1 implies !is_root_node(#[trigger] entries[j].1) by {
                    if j > 0 {
                        assert(entries[j] == rest[j - 1]);
                    }
                }
            },
            None => {
                assert forall|j: int| 0 <= j < entries.len() implies !is_root_node(
                    #[trigger] entries[j].1,
                ) by {
                    if j > 0 {
                        assert(entries[j] == rest[j - 1]);
                    }
                }
            },
        }
    } else if entries.len() > 0 {
        assert(is_root_node(entries[0].1));
    }
}


/// A node is a root exactly where it has no parent, a null one, or an
/// empty-string one; a node whose parent is any other value is not a root.
pub proof fn lemma_root_nodes(node: JsonValue)
    ensures
        member(node, "parent"@) is None ==> is_root_node(node),
        member(node, "parent"@) == Some(JsonValue::Null) ==> is_root_node(node),
        member(node, "parent"@) matches Some(JsonValue::String(p)) ==> (is_root_node(node)
            <==> p@.len() == 0),
        member(node, "parent"@) matches Some(p) && !(p is Null) && !(p is String) ==> !is_root_node(
            node,
        ),
{
    if let Some(JsonValue::String(p)) = member(node, "parent"@) {
        if p@.len() == 0 {
            assert(p@ =~= Seq::<char>::empty());
        }
    }
}

} // verus!
