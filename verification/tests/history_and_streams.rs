use council_core::history::{normalize_history, role_to_string};
use council_core::model::{Message, Role};
use council_core::sse::{
    anthropic_line_events, anthropic_stream_events, classify_sse_line, drain_lines,
    gemini_line_events, gemini_stream_events, next_stream_step, openai_line_events,
    openai_stream_events, AnthropicStreamEvent, ChunkOutcome, GeminiStreamPart, OpenAiStreamDelta,
    SseLine, StreamEvent, StreamStep,
};
use council_core::model::PanelError;

fn msg(role: Role, content: &str) -> Message {
    Message {
        id: "id".to_string(),
        role,
        content: content.to_string(),
        timestamp: 0,
    }
}

#[test]
fn test_role_to_string() {
    assert_eq!(role_to_string(&Role::User), "user");
    assert_eq!(role_to_string(&Role::System), "system");
    assert_eq!(role_to_string(&Role::Assistant), "assistant");
    assert_eq!(role_to_string(&Role::ExpertDraft { expert_id: "test".to_string() }), "assistant");
    assert_eq!(role_to_string(&Role::ExpertCritique { expert_id: "test".to_string() }), "assistant");
}

#[test]
fn test_normalize_history_merges_consecutive_expert_turns() {
    let history = vec![
        msg(Role::User, "what is the best database?"),
        msg(Role::ExpertDraft { expert_id: "expert-1".to_string() }, "Postgres."),
        msg(Role::ExpertDraft { expert_id: "expert-2".to_string() }, "SQLite."),
        msg(Role::User, "why?"),
    ];

    let normalized = normalize_history(&history);

    assert_eq!(normalized.len(), 3);
    assert_eq!(normalized[0].0, "user");
    assert_eq!(normalized[1].0, "assistant");
    assert_eq!(normalized[1].1, "[expert-1]: Postgres.\n\n[expert-2]: SQLite.");
    assert_eq!(normalized[2].0, "user");

    for pair in normalized.windows(2) {
        assert_ne!(pair[0].0, pair[1].0, "roles must alternate");
    }
}

#[test]
fn test_normalize_history_drops_system_and_leading_assistant() {
    let history = vec![
        msg(Role::System, "ignore me"),
        msg(Role::Assistant, "stray leading assistant turn"),
        msg(Role::User, "hello"),
    ];

    let normalized = normalize_history(&history);

    assert_eq!(normalized.len(), 1);
    assert_eq!(normalized[0].0, "user");
    assert_eq!(normalized[0].1, "hello");
}

#[test]
fn normalize_history_of_a_two_round_turn_collapses_onto_one_reply() {
    let history = vec![
        msg(Role::User, "first turn question"),
        msg(Role::ExpertDraft { expert_id: "expert-1".to_string() }, "opening one"),
        msg(Role::ExpertDraft { expert_id: "expert-2".to_string() }, "opening two"),
        msg(Role::ExpertCritique { expert_id: "expert-1".to_string() }, "closing one"),
        msg(Role::ExpertCritique { expert_id: "expert-2".to_string() }, "closing two"),
    ];
    let normalized = normalize_history(&history);
    assert_eq!(normalized.len(), 2, "four expert turns collapse onto one user turn");
    assert!(normalized[1].1.contains("[expert-1]: opening one"));
    assert!(normalized[1].1.contains("[expert-2]: closing two"));
}

#[test]
fn normalize_history_without_a_user_turn_is_empty() {
    let history = vec![
        msg(Role::System, "sys"),
        msg(Role::Assistant, "a"),
        msg(Role::ExpertDraft { expert_id: "e".to_string() }, "b"),
    ];
    assert!(normalize_history(&history).is_empty());
}

#[test]
fn normalize_history_merges_consecutive_user_turns() {
    let history = vec![msg(Role::User, "one"), msg(Role::System, "x"), msg(Role::User, "two")];
    let normalized = normalize_history(&history);
    assert_eq!(normalized, vec![("user".to_string(), "one\n\ntwo".to_string())]);
}

#[test]
fn test_drain_lines_preserves_utf8_split_across_chunks() {
    let mut buffer: Vec<u8> = Vec::new();
    let text = "data: 日本語\n";
    let bytes = text.as_bytes();

    let split = 7;
    buffer.extend_from_slice(&bytes[..split]);
    assert!(drain_lines(&mut buffer).is_empty(), "partial line must stay buffered");

    buffer.extend_from_slice(&bytes[split..]);
    let lines = drain_lines(&mut buffer);

    assert_eq!(lines.len(), 1);
    assert_eq!(lines[0].trim(), "data: 日本語");
    assert!(!lines[0].contains('\u{FFFD}'), "no replacement characters");
}

#[test]
fn test_drain_lines_keeps_trailing_partial() {
    let mut buffer: Vec<u8> = Vec::new();
    buffer.extend_from_slice(b"first\nsecond\nthir");

    let lines = drain_lines(&mut buffer);

    assert_eq!(lines, vec!["first\n".to_string(), "second\n".to_string()]);
    assert_eq!(buffer, b"thir");
}

#[test]
fn drain_lines_gives_the_same_lines_however_the_bytes_are_chunked() {
    let whole = b"a\nbc\n\nd".to_vec();
    let mut at_once = whole.clone();
    let lines_at_once = drain_lines(&mut at_once);
    for cut in 0..=whole.len() {
        let mut buffer = whole[..cut].to_vec();
        let mut lines = drain_lines(&mut buffer);
        buffer.extend_from_slice(&whole[cut..]);
        lines.extend(drain_lines(&mut buffer));
        assert_eq!(lines, lines_at_once);
        assert_eq!(buffer, at_once);
    }
}

#[test]
fn sse_lines_are_classified() {
    assert!(matches!(classify_sse_line("   \r\n", true), SseLine::Skip));
    assert!(matches!(classify_sse_line("data: [DONE]\n", true), SseLine::Done));
    match classify_sse_line("data: [DONE]\n", false) {
        SseLine::Data(d) => assert_eq!(d, "[DONE]"),
        _ => panic!("without the marker this is a data line"),
    }
    match classify_sse_line("  data: {\"a\":1}  \n", true) {
        SseLine::Data(d) => assert_eq!(d, "{\"a\":1}"),
        _ => panic!("expected data"),
    }
    assert!(matches!(classify_sse_line("event: ping\n", true), SseLine::Skip));
}

#[test]
fn provider_stream_events_follow_each_api() {
    let ev = openai_stream_events(OpenAiStreamDelta { content: Some("hi".to_string()) });
    assert!(matches!(&ev[..], [StreamEvent::Chunk(t)] if t == "hi"));
    assert!(openai_stream_events(OpenAiStreamDelta { content: None }).is_empty());

    let thinking_delta = || AnthropicStreamEvent {
        event_type: Some("content_block_delta".to_string()),
        delta_text: None,
        delta_thinking: Some("think".to_string()),
    };
    let ev = anthropic_stream_events(thinking_delta(), true);
    assert!(matches!(&ev[..], [StreamEvent::Thinking(t)] if t == "think"));
    assert!(anthropic_stream_events(thinking_delta(), false).is_empty());
    let ev = anthropic_stream_events(AnthropicStreamEvent {
        event_type: Some("message_stop".to_string()),
        delta_text: None,
        delta_thinking: None,
    }, false);
    assert!(matches!(&ev[..], [StreamEvent::Stop]));
    let ev = anthropic_stream_events(AnthropicStreamEvent {
        event_type: Some("ping".to_string()),
        delta_text: Some("x".to_string()),
        delta_thinking: None,
    }, true);
    assert!(ev.is_empty());

    let parts = || vec![
        GeminiStreamPart { text: Some("plan".to_string()), thought: Some(true) },
        GeminiStreamPart { text: None, thought: None },
        GeminiStreamPart { text: Some("answer".to_string()), thought: Some(false) },
    ];
    let ev = gemini_stream_events(parts(), true);
    assert_eq!(ev.len(), 2);
    assert!(matches!(&ev[0], StreamEvent::Thinking(t) if t == "plan"));
    assert!(matches!(&ev[1], StreamEvent::Chunk(t) if t == "answer"));
    let ev = gemini_stream_events(parts(), false);
    assert!(matches!(&ev[..], [StreamEvent::Chunk(t)] if t == "answer"));
}

#[test]
fn openai_lines_give_answer_text_only() {
    let line = "data: {\"choices\":[{\"delta\":{\"content\":\"hi\",\"reasoning_content\":\"hmm\"}}]}\n";
    let ev = openai_line_events(line);
    assert!(matches!(&ev[..], [StreamEvent::Chunk(t)] if t == "hi"));
    let ev = openai_line_events("data: {\"choices\":[{\"delta\":{\"reasoning_content\":\"hmm\"}}]}\n");
    assert!(ev.is_empty());
    assert!(matches!(&openai_line_events("  data: [DONE]\r\n")[..], [StreamEvent::Stop]));
    assert!(openai_line_events("data: {not json\n").is_empty());
    assert!(openai_line_events(": keep-alive\n").is_empty());
}

#[test]
fn anthropic_lines_follow_event_types() {
    let text = "data: {\"type\":\"content_block_delta\",\"delta\":{\"type\":\"text_delta\",\"text\":\"Hello\"}}\n";
    assert!(matches!(&anthropic_line_events(text, false)[..], [StreamEvent::Chunk(t)] if t == "Hello"));
    let thought = "data: {\"type\":\"content_block_delta\",\"delta\":{\"type\":\"thinking_delta\",\"thinking\":\"hm\"}}\n";
    assert!(matches!(&anthropic_line_events(thought, true)[..], [StreamEvent::Thinking(t)] if t == "hm"));
    assert!(anthropic_line_events(thought, false).is_empty());
    assert!(matches!(&anthropic_line_events("data: {\"type\":\"message_stop\"}\n", false)[..], [StreamEvent::Stop]));
    assert!(anthropic_line_events("event: message_stop\n", false).is_empty());
    assert!(anthropic_line_events("data: [DONE]\n", false).is_empty());
}

#[test]
fn gemini_lines_give_each_part() {
    let line = "data: {\"candidates\":[{\"content\":{\"parts\":[{\"text\":\"why\",\"thought\":true},{\"text\":\"because\"}]}}]}\n";
    let ev = gemini_line_events(line, true);
    assert_eq!(ev.len(), 2);
    assert!(matches!(&ev[0], StreamEvent::Thinking(t) if t == "why"));
    assert!(matches!(&ev[1], StreamEvent::Chunk(t) if t == "because"));
    let ev = gemini_line_events(line, false);
    assert!(matches!(&ev[..], [StreamEvent::Chunk(t)] if t == "because"));
    assert!(gemini_line_events("data: {\"candidates\":[]}\n", true).is_empty());
    assert!(gemini_line_events("data: nope\n", true).is_empty());
}

#[test]
fn stream_events_do_not_depend_on_chunking() {
    let body = "data: {\"choices\":[{\"delta\":{\"content\":\"日本\"}}]}\n\ndata: [DONE]\n".as_bytes().to_vec();
    let read = |cuts: &[usize]| {
        let mut buffer: Vec<u8> = Vec::new();
        let mut out: Vec<String> = Vec::new();
        let mut from = 0;
        for &cut in cuts.iter().chain(std::iter::once(&body.len())) {
            buffer.extend_from_slice(&body[from..cut]);
            from = cut;
            for line in drain_lines(&mut buffer) {
                for ev in openai_line_events(&line) {
                    match ev {
                        StreamEvent::Chunk(t) => out.push(t),
                        StreamEvent::Thinking(t) => out.push(format!("thinking:{}", t)),
                        StreamEvent::Stop => out.push("stop".to_string()),
                    }
                }
            }
        }
        out
    };
    let whole = read(&[]);
    assert_eq!(whole, vec!["日本".to_string(), "stop".to_string()]);
    for cut in 1..body.len() {
        assert_eq!(read(&[cut]), whole);
    }
    assert_eq!(read(&[3, 30, 31, 33, 40]), whole);
}

#[test]
fn stream_steps_turn_silence_into_an_error() {
    assert!(matches!(next_stream_step(ChunkOutcome::Cancelled, "OpenAI", 120), Ok(StreamStep::Done)));
    assert!(matches!(next_stream_step(ChunkOutcome::Ended, "OpenAI", 120), Ok(StreamStep::Done)));
    match next_stream_step(ChunkOutcome::Data(vec![1, 2]), "OpenAI", 120) {
        Ok(StreamStep::Chunk(b)) => assert_eq!(b, vec![1, 2]),
        _ => panic!("expected a chunk"),
    }
    match next_stream_step(ChunkOutcome::TimedOut, "Gemini", 120) {
        Err(PanelError::ApiError(m)) => {
            assert_eq!(m, "Gemini stream stalled: no data for 120 seconds")
        }
        _ => panic!("expected a stall error"),
    }
    match next_stream_step(ChunkOutcome::Failed("reset".to_string()), "Gemini", 120) {
        Err(PanelError::ApiError(m)) => assert_eq!(m, "reset"),
        _ => panic!("expected the transport error"),
    }
}

#[test]
fn panel_error_messages_match_their_kind() {
    assert_eq!(PanelError::ApiError("x".to_string()).message(), "API request failed: x");
    assert_eq!(PanelError::SerializationError("y".to_string()).message(), "Serialization failed: y");
    assert_eq!(PanelError::ConfigError("z".to_string()).message(), "Configuration error: z");
    assert_eq!(PanelError::Unknown("w".to_string()).message(), "Unknown error: w");
}

#[test]
fn drain_lines_replaces_invalid_bytes() {
    let mut buffer: Vec<u8> = vec![b'o', b'k', 0xff, b'\n', 0xe6];
    let lines = drain_lines(&mut buffer);
    assert_eq!(lines, vec!["ok\u{FFFD}\n".to_string()]);
    assert_eq!(buffer, vec![0xe6]);
}
