use reinject_core::monitor::{update_monitor, MonitorAction, MonitorEvent, MonitorState, MonitorStatus};
use reinject_core::parser::{
    count_text_bytes, count_tool_result_bytes, delta_counts, delta_lines, Content, ContentBlock,
    Message, ToolResultContent, ToolResultPart, TranscriptLine,
};
use serde_json::Value;

// Reads a JSON transcript line into the library's types, field by field, as the
// transcript's JSON shape defines them. `None` when the text is no such line.
fn opt_text(v: Option<&Value>) -> Result<Option<String>, ()> {
    match v {
        None | Some(Value::Null) => Ok(None),
        Some(Value::String(s)) => Ok(Some(s.clone())),
        Some(_) => Err(()),
    }
}

fn tool_result_content(v: Option<&Value>) -> Result<Option<ToolResultContent>, ()> {
    match v {
        None | Some(Value::Null) => Ok(None),
        Some(Value::String(s)) => Ok(Some(ToolResultContent::Plain(s.clone()))),
        Some(Value::Array(items)) => {
            let mut parts = Vec::new();
            for item in items {
                let obj = item.as_object().ok_or(())?;
                parts.push(ToolResultPart { text: opt_text(obj.get("text"))? });
            }
            Ok(Some(ToolResultContent::Parts(parts)))
        }
        Some(_) => Err(()),
    }
}

fn block(v: &Value) -> Result<ContentBlock, ()> {
    let obj = v.as_object().ok_or(())?;
    let tag = obj.get("type").and_then(|t| t.as_str()).ok_or(())?;
    Ok(match tag {
        "thinking" => ContentBlock::Thinking { thinking: opt_text(obj.get("thinking"))? },
        "text" => ContentBlock::Text { text: opt_text(obj.get("text"))? },
        "tool_use" => ContentBlock::ToolUse {
            input: match obj.get("input") {
                None | Some(Value::Null) => None,
                Some(v) => Some(v.to_string()),
            },
        },
        "tool_result" => ContentBlock::ToolResult { content: tool_result_content(obj.get("content"))? },
        _ => ContentBlock::Unknown,
    })
}

fn line_from_json(text: &str) -> Option<TranscriptLine> {
    let v: Value = serde_json::from_str(text).ok()?;
    let obj = v.as_object()?;
    let message = match obj.get("message") {
        None | Some(Value::Null) => None,
        Some(m) => {
            let m = m.as_object()?;
            let content = match m.get("content") {
                None | Some(Value::Null) => None,
                Some(Value::String(s)) => Some(Content::Plain(s.clone())),
                Some(Value::Array(items)) => {
                    let blocks: Result<Vec<ContentBlock>, ()> = items.iter().map(block).collect();
                    Some(Content::Blocks(blocks.ok()?))
                }
                Some(_) => return None,
            };
            Some(Message { content })
        }
    };
    Some(TranscriptLine { message })
}

fn parse_and_count(json: &str) -> (u64, u64) {
    let line = line_from_json(json).unwrap();
    count_text_bytes(&line)
}

// Counts a delta as the monitor does: its lines, each read as JSON, summed.
fn count_delta(data: &[u8]) -> (u64, u64) {
    let lines: Vec<TranscriptLine> =
        delta_lines(data).iter().filter_map(|t| line_from_json(t)).collect();
    delta_counts(&lines).unwrap()
}

// One monitor run over a transcript whose contents are `transcript` (or that is
// missing), from the saved state `state`; returns the state saved afterwards.
fn run(state: MonitorState, transcript: Option<&[u8]>) -> MonitorState {
    let event = match transcript {
        None => MonitorEvent::TranscriptMissing,
        Some(data) => MonitorEvent::TranscriptSize(data.len() as u64),
    };
    match update_monitor(&state, event) {
        MonitorAction::Done => state,
        MonitorAction::Save(next) => next,
        MonitorAction::CountDelta { offset } => {
            let data = transcript.unwrap();
            let (nt, th) = count_delta(&data[offset as usize..]);
            let event = MonitorEvent::DeltaCounted {
                size: data.len() as u64,
                non_thinking_bytes: nt,
                thinking_bytes: th,
            };
            match update_monitor(&state, event) {
                MonitorAction::Save(next) => next,
                other => panic!("unexpected action {other:?}"),
            }
        }
    }
}

fn fresh() -> MonitorState {
    MonitorState { offset: 0, status: None }
}

#[test]
fn plain_string_content() {
    let json = r#"{"message":{"content":"hello world"}}"#;
    assert_eq!(parse_and_count(json), (11, 0));
}

#[test]
fn text_block() {
    let json = r#"{"message":{"content":[{"type":"text","text":"abc"}]}}"#;
    assert_eq!(parse_and_count(json), (3, 0));
}

#[test]
fn thinking_block() {
    let json = r#"{"message":{"content":[{"type":"thinking","thinking":"deep thoughts"}]}}"#;
    assert_eq!(parse_and_count(json), (0, 13));
}

#[test]
fn mixed_blocks() {
    let json = r#"{"message":{"content":[
        {"type":"text","text":"visible"},
        {"type":"thinking","thinking":"hidden"},
        {"type":"text","text":"more"}
    ]}}"#;
    assert_eq!(parse_and_count(json), (11, 6));
}

#[test]
fn tool_use_block() {
    let json = r#"{"message":{"content":[{"type":"tool_use","input":{"key":"val"}}]}}"#;
    let (nt, th) = parse_and_count(json);
    assert_eq!(nt, r#"{"key":"val"}"#.len() as u64);
    assert_eq!(th, 0);
}

#[test]
fn tool_result_plain_string() {
    let json = r#"{"message":{"content":[{"type":"tool_result","content":"result text"}]}}"#;
    assert_eq!(parse_and_count(json), (11, 0));
}

#[test]
fn tool_result_parts_array() {
    let json = r#"{"message":{"content":[{"type":"tool_result","content":[{"text":"part1"},{"text":"part2"}]}]}}"#;
    assert_eq!(parse_and_count(json), (10, 0));
}

#[test]
fn no_message_field() {
    let json = r#"{"type":"system"}"#;
    assert_eq!(parse_and_count(json), (0, 0));
}

#[test]
fn no_content_field() {
    let json = r#"{"message":{"role":"assistant"}}"#;
    assert_eq!(parse_and_count(json), (0, 0));
}

#[test]
fn unknown_block_type_ignored() {
    let json = r#"{"message":{"content":[{"type":"image","source":"whatever"},{"type":"text","text":"hi"}]}}"#;
    assert_eq!(parse_and_count(json), (2, 0));
}

#[test]
fn empty_blocks_array() {
    let json = r#"{"message":{"content":[]}}"#;
    assert_eq!(parse_and_count(json), (0, 0));
}

#[test]
fn thinking_block_null_text() {
    let json = r#"{"message":{"content":[{"type":"thinking","thinking":null}]}}"#;
    assert_eq!(parse_and_count(json), (0, 0));
}

#[test]
fn tool_result_empty_parts() {
    let json =
        r#"{"message":{"content":[{"type":"tool_result","content":[{"text":null},{}]}]}}"#;
    assert_eq!(parse_and_count(json), (0, 0));
}

#[test]
fn multibyte_text_counts_utf8_bytes() {
    // "é" is two bytes and "—" three in UTF-8.
    let json = "{\"message\":{\"content\":\"\u{e9}\u{2014}\"}}";
    assert_eq!(parse_and_count(json), (5, 0));
}

#[test]
fn tool_use_input_is_counted_compact() {
    let json = r#"{"message":{"content":[{"type":"tool_use","input":{ "a" : [1, 2] }}]}}"#;
    assert_eq!(parse_and_count(json), (r#"{"a":[1,2]}"#.len() as u64, 0));
}

#[test]
fn count_tool_result_bytes_sums_parts() {
    let parts = ToolResultContent::Parts(vec![
        ToolResultPart { text: Some("ab".to_string()) },
        ToolResultPart { text: None },
        ToolResultPart { text: Some("cde".to_string()) },
    ]);
    assert_eq!(count_tool_result_bytes(&parts), 5);
    assert_eq!(count_tool_result_bytes(&ToolResultContent::Plain("xyz".to_string())), 3);
    assert_eq!(count_tool_result_bytes(&ToolResultContent::Parts(vec![])), 0);
}

#[test]
fn delta_lines_skip_first_and_empty_lines() {
    let lines = delta_lines(b"partial\n\nsecond\r\nthird");
    assert_eq!(lines, vec!["second".to_string(), "third".to_string()]);
}

#[test]
fn delta_lines_skip_only_the_first_line_even_if_not_utf8() {
    // A first fragment that is not UTF-8 (the offset fell inside a character)
    // is the skipped first line; every later line is kept.
    let lines = delta_lines(b"\xa9\xfe\nfirst\nsecond\n");
    assert_eq!(lines, vec!["first".to_string(), "second".to_string()]);
    let lines = delta_lines(b"skip\n\xff\nkept\n");
    assert_eq!(lines, vec!["kept".to_string()]);
}

#[test]
fn mid_character_offset_counts_later_lines() {
    let full = "{\"message\":{\"content\":\"\u{e9}\"}}\n{\"message\":{\"content\":\"abc\"}}\n{\"message\":{\"content\":\"de\"}}\n";
    let bytes = full.as_bytes();
    // Byte 24 lies inside the two-byte "é" of the first line.
    assert!(std::str::from_utf8(&bytes[24..]).is_err());
    assert_eq!(count_delta(&bytes[24..]), (5, 0));
}

#[test]
fn appended_line_adds_its_count() {
    let base = b"first\n{\"message\":{\"content\":\"abc\"}}\n".to_vec();
    let mut grown = base.clone();
    grown.extend_from_slice(b"{\"message\":{\"content\":[{\"type\":\"thinking\",\"thinking\":\"xy\"},{\"type\":\"text\",\"text\":\"z\"}]}}\n");
    assert_eq!(count_delta(&base), (3, 0));
    assert_eq!(count_delta(&grown), (4, 2));
}

#[test]
fn malformed_line_changes_nothing() {
    let plain = b"first\n{\"message\":{\"content\":\"abc\"}}\n{\"message\":{\"content\":\"d\"}}\n";
    let with_empty = b"first\n{\"message\":{\"content\":\"abc\"}}\n\n{\"message\":{\"content\":\"d\"}}\n";
    let with_invalid = b"first\n\xff\xfe\n{\"message\":{\"content\":\"abc\"}}\n{\"message\":{\"content\":\"d\"}}\n";
    let with_garbage = b"first\n{\"message\":{\"content\":\"abc\"}}\nnot json\n{\"message\":{\"content\":\"d\"}}\n";
    assert_eq!(delta_lines(with_empty), delta_lines(plain));
    assert_eq!(delta_lines(with_invalid), delta_lines(plain));
    assert_eq!(count_delta(with_garbage), count_delta(plain));
    assert_eq!(count_delta(plain), (4, 0));
}

#[test]
fn block_counts_are_additive_and_order_free() {
    let ab = parse_and_count(r#"{"message":{"content":[{"type":"text","text":"ab"},{"type":"thinking","thinking":"cde"}]}}"#);
    let ba = parse_and_count(r#"{"message":{"content":[{"type":"thinking","thinking":"cde"},{"type":"text","text":"ab"}]}}"#);
    let a = parse_and_count(r#"{"message":{"content":[{"type":"text","text":"ab"}]}}"#);
    let b = parse_and_count(r#"{"message":{"content":[{"type":"thinking","thinking":"cde"}]}}"#);
    assert_eq!(ab, (a.0 + b.0, a.1 + b.1));
    assert_eq!(ab, ba);
}

#[test]
fn tool_result_parts_are_additive() {
    let part = |t: &str| ToolResultPart { text: Some(t.to_string()) };
    let a = ToolResultContent::Parts(vec![part("xy"), part("z")]);
    let b = ToolResultContent::Parts(vec![part("uvw")]);
    let ab = ToolResultContent::Parts(vec![part("xy"), part("z"), part("uvw")]);
    assert_eq!(
        count_tool_result_bytes(&ab),
        count_tool_result_bytes(&a) + count_tool_result_bytes(&b)
    );
}

#[test]
fn delta_lines_single_line_yields_nothing() {
    assert!(delta_lines(b"{\"message\":{\"content\":\"x\"}}").is_empty());
    assert!(delta_lines(b"").is_empty());
    assert!(delta_lines(b"only\n").is_empty());
}

#[test]
fn delta_lines_keep_multibyte_text() {
    let lines = delta_lines("skip\n\u{e9}t\u{e9}\n".as_bytes());
    assert_eq!(lines, vec!["\u{e9}t\u{e9}".to_string()]);
}

#[test]
fn delta_lines_keep_carriage_return_of_last_line() {
    let lines = delta_lines(b"skip\nend\r");
    assert_eq!(lines, vec!["end\r".to_string()]);
}

#[test]
fn delta_counts_skip_unparsable_lines() {
    let data = b"first\n{\"message\":{\"content\":\"abc\"}}\nnot json\n{\"message\":{\"content\":[{\"type\":\"thinking\",\"thinking\":\"zz\"}]}}\n";
    assert_eq!(count_delta(data), (3, 2));
}

#[test]
fn delta_counts_are_additive() {
    let a = line_from_json(r#"{"message":{"content":"hello"}}"#).unwrap();
    let b = line_from_json(r#"{"message":{"content":[{"type":"thinking","thinking":"hmm"}]}}"#).unwrap();
    let c = line_from_json(r#"{"message":{"content":"hello"}}"#).unwrap();
    let d = line_from_json(r#"{"message":{"content":[{"type":"thinking","thinking":"hmm"}]}}"#).unwrap();
    assert_eq!(delta_counts(&vec![a]), Some((5, 0)));
    assert_eq!(delta_counts(&vec![b]), Some((0, 3)));
    assert_eq!(delta_counts(&vec![c, d]), Some((5, 3)));
    assert_eq!(delta_counts(&vec![]), Some((0, 0)));
}

#[test]
fn missing_transcript_is_noop() {
    let after = run(fresh(), None);
    assert!(after.status.is_none());
}

#[test]
fn first_run_accumulates_bytes() {
    // Two JSONL lines: first is skipped (partial-line safety), second is counted.
    let content = "{\"message\":{\"content\":\"hello\"}}\n{\"message\":{\"content\":\"world\"}}\n";
    let after = run(fresh(), Some(content.as_bytes()));
    let status = after.status.unwrap();
    // "world" = 5 bytes (first line skipped)
    assert_eq!(status.non_thinking_bytes, 5);
    assert_eq!(status.thinking_bytes, 0);
}

#[test]
fn no_growth_is_noop() {
    let content = "{\"message\":{\"content\":\"hello\"}}\n";
    // First call: advances offset to file size.
    let first = run(fresh(), Some(content.as_bytes()));
    let after_first = first.status.unwrap_or_default();
    // Second call: no growth.
    let second = run(first, Some(content.as_bytes()));
    let after_second = second.status.unwrap();
    assert_eq!(after_first, after_second);
}

#[test]
fn incremental_update_accumulates() {
    let mut transcript: Vec<u8> =
        b"{\"message\":{\"content\":\"aaa\"}}\n{\"message\":{\"content\":\"bbb\"}}\n".to_vec();
    let first = run(fresh(), Some(&transcript));
    // "bbb" = 3 bytes counted
    assert_eq!(first.status.unwrap().non_thinking_bytes, 3);

    // Append a third line: it is the first line of the new delta, so it is skipped.
    transcript.extend_from_slice(b"{\"message\":{\"content\":\"ccc\"}}\n");
    let second = run(first, Some(&transcript));
    assert_eq!(second.status.unwrap().non_thinking_bytes, 3);
}

#[test]
fn update_moves_offset_and_adds_to_saved_totals() {
    let state = MonitorState {
        offset: 10,
        status: Some(MonitorStatus { non_thinking_bytes: 7, thinking_bytes: 2 }),
    };
    assert_eq!(update_monitor(&state, MonitorEvent::TranscriptSize(10)), MonitorAction::Done);
    assert_eq!(
        update_monitor(&state, MonitorEvent::TranscriptSize(11)),
        MonitorAction::CountDelta { offset: 10 }
    );
    let action = update_monitor(
        &state,
        MonitorEvent::DeltaCounted { size: 40, non_thinking_bytes: 5, thinking_bytes: 1 },
    );
    assert_eq!(
        action,
        MonitorAction::Save(MonitorState {
            offset: 40,
            status: Some(MonitorStatus { non_thinking_bytes: 12, thinking_bytes: 3 }),
        })
    );
}

#[test]
fn run_never_lowers_state() {
    let mut state = fresh();
    let mut transcript: Vec<u8> = b"{\"message\":{\"content\":\"aa\"}}\n".to_vec();
    for i in 0..4 {
        let next = run(state, Some(&transcript));
        assert!(next.offset >= state.offset);
        let before = state.status.unwrap_or_default();
        let after = next.status.unwrap_or_default();
        assert!(after.non_thinking_bytes >= before.non_thinking_bytes);
        assert!(after.thinking_bytes >= before.thinking_bytes);
        state = next;
        transcript.extend_from_slice(format!("{{\"message\":{{\"content\":\"{i}\"}}}}\n").as_bytes());
    }
}

#[test]
fn two_runs_total_as_one() {
    let state = MonitorState { offset: 0, status: None };
    let step = |s: MonitorState, size: u64, nt: u64, th: u64| match update_monitor(
        &s,
        MonitorEvent::DeltaCounted { size, non_thinking_bytes: nt, thinking_bytes: th },
    ) {
        MonitorAction::Save(next) => next,
        other => panic!("unexpected action {other:?}"),
    };
    let twice = step(step(state, 10, 4, 1), 20, 6, 2);
    let once = step(state, 20, 10, 3);
    assert_eq!(twice, once);
}
