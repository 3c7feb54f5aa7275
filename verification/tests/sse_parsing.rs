use proxyclawd::json::Json;
use proxyclawd::sse::{SseEvent, SseFrame, SseParser};

fn frames_as_pairs(frames: &[SseFrame]) -> Vec<(String, String)> {
    frames.iter().map(|f| (f.event_type.clone(), f.data.clone())).collect()
}

fn obj(members: Vec<(&str, Json)>) -> Json {
    Json::Object(members.into_iter().map(|(k, v)| (k.to_string(), v)).collect())
}

fn s(text: &str) -> Json {
    Json::Str(text.to_string())
}

#[test]
fn feed_single_event() {
    let mut p = SseParser::new();
    let frames = p.feed_frames(b"event: message_stop\ndata: {}\n\n");
    assert_eq!(frames_as_pairs(&frames), vec![("message_stop".to_string(), "{}".to_string())]);
}

#[test]
fn feed_defaults_event_type_to_message() {
    let mut p = SseParser::new();
    let frames = p.feed_frames(b"data: hello\n\n");
    assert_eq!(frames_as_pairs(&frames), vec![("message".to_string(), "hello".to_string())]);
}

#[test]
fn feed_joins_data_lines_with_newlines() {
    let mut p = SseParser::new();
    let frames = p.feed_frames(b"data: a\ndata:\ndata: b\n\n");
    assert_eq!(frames_as_pairs(&frames), vec![("message".to_string(), "a\n\nb".to_string())]);
}

#[test]
fn feed_blank_line_without_data_emits_nothing() {
    let mut p = SseParser::new();
    let frames = p.feed_frames(b"event: ping\n\n");
    assert!(frames.is_empty());
    // The event type was reset by the blank line.
    let frames = p.feed_frames(b"data: x\n\n");
    assert_eq!(frames_as_pairs(&frames), vec![("message".to_string(), "x".to_string())]);
}

#[test]
fn feed_ignores_other_fields() {
    let mut p = SseParser::new();
    let frames = p.feed_frames(b": comment\nid: 7\nretry: 10\nevent:x\ndata: d\n\n");
    assert_eq!(frames_as_pairs(&frames), vec![("message".to_string(), "d".to_string())]);
}

#[test]
fn feed_empty_event_field() {
    let mut p = SseParser::new();
    let frames = p.feed_frames(b"event:\ndata: d\n\n");
    assert_eq!(frames_as_pairs(&frames), vec![("".to_string(), "d".to_string())]);
}

#[test]
fn feed_trims_carriage_returns() {
    let mut p = SseParser::new();
    let frames = p.feed_frames(b"event: message_stop\r\ndata: {}\r\r\n\r\n");
    assert_eq!(frames_as_pairs(&frames), vec![("message_stop".to_string(), "{}".to_string())]);
}

#[test]
fn feed_across_chunks_equals_whole() {
    let whole: &[u8] = b"event: content_block_delta\ndata: {\"a\":1}\n\nevent: message_stop\ndata: {}\n\n";
    let mut one = SseParser::new();
    let all = frames_as_pairs(&one.feed_frames(whole));
    for cut in 0..=whole.len() {
        let mut two = SseParser::new();
        let mut got = frames_as_pairs(&two.feed_frames(&whole[..cut]));
        got.extend(frames_as_pairs(&two.feed_frames(&whole[cut..])));
        assert_eq!(got, all, "cut at {cut}");
    }
    assert_eq!(all.len(), 2);
}

#[test]
fn feed_keeps_partial_line_buffered() {
    let mut p = SseParser::new();
    assert!(p.feed_frames(b"data: par").is_empty());
    assert!(p.feed_frames(b"tial\n").is_empty());
    let frames = p.feed_frames(b"\n");
    assert_eq!(frames_as_pairs(&frames), vec![("message".to_string(), "partial".to_string())]);
}

#[test]
fn feed_invalid_utf8_is_replaced() {
    let mut p = SseParser::new();
    let frames = p.feed_frames(b"data: a\xffb\n\n");
    assert_eq!(frames_as_pairs(&frames), vec![("message".to_string(), "a\u{fffd}b".to_string())]);
}

#[test]
fn process_line_direct() {
    let mut p = SseParser::new();
    let mut frames = Vec::new();
    p.process_line("event: message_stop", &mut frames);
    p.process_line("data: {}", &mut frames);
    assert!(frames.is_empty());
    p.process_line("", &mut frames);
    assert_eq!(frames_as_pairs(&frames), vec![("message_stop".to_string(), "{}".to_string())]);
}

fn frame(event_type: &str, data: &str) -> SseFrame {
    SseFrame { event_type: event_type.to_string(), data: data.to_string() }
}

#[test]
fn text_delta_becomes_content() {
    let f = frame("content_block_delta", "");
    assert!(f.wants_payload());
    let payload = obj(vec![
        ("type", s("content_block_delta")),
        ("index", Json::Number("0".to_string())),
        ("delta", obj(vec![("type", s("text_delta")), ("text", s("Hello"))])),
    ]);
    match f.event(&Some(payload)) {
        SseEvent::ContentBlockDelta { text } => assert_eq!(text, "Hello"),
        other => panic!("unexpected {:?}", matches!(other, SseEvent::Other)),
    }
}

#[test]
fn thinking_delta_becomes_content() {
    let f = frame("content_block_delta", "");
    let payload = obj(vec![("delta", obj(vec![("type", s("thinking_delta")), ("thinking", s("hmm"))]))]);
    assert!(matches!(f.event(&Some(payload)), SseEvent::ContentBlockDelta { text } if text == "hmm"));
}

#[test]
fn other_delta_kinds_are_other() {
    let f = frame("content_block_delta", "");
    let payload = obj(vec![("delta", obj(vec![("type", s("input_json_delta")), ("partial_json", s("{"))]))]);
    assert!(matches!(f.event(&Some(payload)), SseEvent::Other));
    let missing_text = obj(vec![("delta", obj(vec![("type", s("text_delta"))]))]);
    assert!(matches!(f.event(&Some(missing_text)), SseEvent::Other));
    assert!(matches!(f.event(&None), SseEvent::Other));
    let not_object = Json::Array(vec![]);
    assert!(matches!(f.event(&Some(not_object)), SseEvent::Other));
}

#[test]
fn message_stop_and_others() {
    assert!(matches!(frame("message_stop", "{}").event(&None), SseEvent::MessageStop));
    assert!(!frame("message_stop", "{}").wants_payload());
    assert!(matches!(frame("ping", "{}").event(&None), SseEvent::Other));
    assert!(matches!(frame("message", "x").event(&None), SseEvent::Other));
}

fn describe(events: &[SseEvent]) -> Vec<String> {
    events
        .iter()
        .map(|e| match e {
            SseEvent::ContentBlockDelta { text } => format!("delta:{text}"),
            SseEvent::MessageStop => "stop".to_string(),
            SseEvent::Other => "other".to_string(),
        })
        .collect()
}

#[test]
fn feed_reads_text_and_thinking_deltas() {
    let mut p = SseParser::new();
    let events = p.feed(
        b"event: content_block_delta\ndata: {\"delta\":{\"type\":\"text_delta\",\"text\":\"Hello\"}}\n\nevent: content_block_delta\ndata: {\"delta\":{\"type\":\"thinking_delta\",\"thinking\":\"hmm\"}}\n\n",
    );
    assert_eq!(describe(&events), vec!["delta:Hello", "delta:hmm"]);
}

#[test]
fn feed_reads_crlf_lines() {
    let mut p = SseParser::new();
    assert_eq!(describe(&p.feed(b"event: message_stop\r\ndata: {}\r\n\r\n")), vec!["stop"]);
}

#[test]
fn feed_completes_events_split_across_chunks() {
    let mut p = SseParser::new();
    assert!(p.feed(b"event: message_st").is_empty());
    assert!(p.feed(b"op\ndata: {}\n").is_empty());
    assert_eq!(describe(&p.feed(b"\n")), vec!["stop"]);
}

#[test]
fn feed_skips_blocks_without_data() {
    let mut p = SseParser::new();
    let events = p.feed(b"event: message_stop\n\n: keep-alive\nid: 7\nretry: 100\nevent: ping\n\n");
    assert!(events.is_empty());
}

#[test]
fn feed_gives_other_for_unknown_or_unreadable_events() {
    let mut p = SseParser::new();
    let events = p.feed(
        b"data: {}\n\nevent: content_block_delta\ndata: not json\n\nevent: content_block_delta\ndata: {\"delta\":{\"type\":\"input_json_delta\"}}\n\nevent: ping\ndata: {}\n\n",
    );
    assert_eq!(describe(&events), vec!["other", "other", "other", "other"]);
}

#[test]
fn feed_parses_joined_data_lines() {
    let mut p = SseParser::new();
    let events = p.feed(
        b"event: content_block_delta\ndata: {\"delta\":\ndata: {\"type\":\"text_delta\",\"text\":\"a\"}}\n\n",
    );
    assert_eq!(describe(&events), vec!["delta:a"]);
}

#[test]
fn feed_carries_nothing_past_a_blank_line() {
    let mut p = SseParser::new();
    let events = p.feed(b"event: message_stop\ndata: {}\n\ndata: {}\n\n");
    assert_eq!(describe(&events), vec!["stop", "other"]);
}

#[test]
fn new_parser_holds_nothing() {
    let mut p = SseParser::new();
    assert!(p.feed(b"\n").is_empty());
    assert_eq!(describe(&p.feed(b"data: {}\n\n")), vec!["other"]);
}

#[test]
fn feed_replaces_invalid_bytes() {
    let mut p = SseParser::new();
    let events = p.feed(b"event: content_block_delta\ndata: {\"delta\":{\"type\":\"text_delta\",\"text\":\"a\xffb\"}}\n\n");
    assert_eq!(describe(&events), vec!["delta:a\u{fffd}b"]);
}

#[test]
fn feed_in_valid_chunks_equals_whole() {
    let whole = "event: content_block_delta\ndata: {\"delta\":{\"type\":\"text_delta\",\"text\":\"h\u{e9}\"}}\n\nevent: message_stop\ndata: {}\n\n";
    let mut one = SseParser::new();
    let all = describe(&one.feed(whole.as_bytes()));
    for cut in (0..=whole.len()).filter(|&c| whole.is_char_boundary(c)) {
        let mut two = SseParser::new();
        let mut got = describe(&two.feed(&whole.as_bytes()[..cut]));
        got.extend(describe(&two.feed(&whole.as_bytes()[cut..])));
        assert_eq!(got, all, "cut at {cut}");
    }
    assert_eq!(all, vec!["delta:h\u{e9}", "stop"]);
}

#[test]
fn feed_str_reads_text_pieces() {
    let mut p = SseParser::new();
    assert!(p.feed_str("event: message_stop\r\ndata: {}\r\n").is_empty());
    assert_eq!(describe(&p.feed_str("\r\ndata: {}\n\n")), vec!["stop", "other"]);
}

#[test]
fn feed_reads_a_stray_byte_as_one_replacement() {
    let mut p = SseParser::new();
    assert_eq!(describe(&p.feed(b"data: \xff\n\n")), vec!["other"]);
    let events = p.feed(b"event: content_block_delta\ndata: {\"delta\":{\"type\":\"text_delta\",\"text\":\"a\x80b\"}}\n\n");
    assert_eq!(describe(&events), vec!["delta:a\u{fffd}b"]);
}
