use shiro_daemon::llm::{
    anthropic_chunk, apply_chunk, connection_verdict, openai_chunk, sse_data, stream_end,
    take_line, AnthropicFrame, OpenAiDelta, OpenAiFrame, OpenAiUsage, StreamChunk, StreamEnd,
    StreamState, Usage,
};

#[test]
fn lines_cut_across_packets() {
    let mut buf = String::from("data: a\r\r\ndata: b\npartial");
    assert_eq!(take_line(&mut buf).as_deref(), Some("data: a"));
    assert_eq!(take_line(&mut buf).as_deref(), Some("data: b"));
    assert_eq!(take_line(&mut buf), None);
    assert_eq!(buf, "partial");
}

#[test]
fn sse_payloads() {
    assert_eq!(sse_data("data:  {\"a\":1} ").as_deref(), Some("{\"a\":1}"));
    assert_eq!(sse_data("event: x"), None);
}

#[test]
fn openai_frames() {
    assert_eq!(openai_chunk("[DONE]", None), Some(StreamChunk::Done));
    assert_eq!(openai_chunk("x", None), None);
    let usage = OpenAiUsage {
        prompt_tokens: 10,
        completion_tokens: 2,
        prompt_cache_hit_tokens: 4,
        cache_read_input_tokens: 6,
        prompt_cache_miss_tokens: 0,
        cache_creation_input_tokens: 0,
    };
    assert_eq!(
        openai_chunk("{}", Some(OpenAiFrame { usage: Some(usage), delta: None })),
        Some(StreamChunk::Usage(Usage { input: 10, output: 2, cache_read: 6, cache_write: 0 }))
    );
    let d = |r: Option<&str>, c: Option<&str>| OpenAiFrame {
        usage: None,
        delta: Some(OpenAiDelta { reasoning_content: r.map(String::from), content: c.map(String::from) }),
    };
    assert_eq!(openai_chunk("{}", Some(d(Some("想"), Some("说")))), Some(StreamChunk::Thinking("想".into())));
    assert_eq!(openai_chunk("{}", Some(d(Some(""), Some("说")))), Some(StreamChunk::Text("说".into())));
    assert_eq!(openai_chunk("{}", Some(d(None, Some("")))), None);
}

#[test]
fn anthropic_frames() {
    let f = |kind: &str| AnthropicFrame {
        kind: kind.into(),
        message_usage: None,
        delta_output: None,
        delta_type: None,
        delta_text: None,
        delta_thinking: None,
    };
    assert_eq!(anthropic_chunk(Some(f("message_stop"))), Some(StreamChunk::Done));
    assert_eq!(anthropic_chunk(Some(f("ping"))), None);
    let mut delta = f("content_block_delta");
    delta.delta_type = Some("text_delta".into());
    delta.delta_text = Some("你好".into());
    assert_eq!(anthropic_chunk(Some(delta)), Some(StreamChunk::Text("你好".into())));
    let mut md = f("message_delta");
    md.delta_output = Some(9);
    assert_eq!(anthropic_chunk(Some(md)), Some(StreamChunk::Usage(Usage { input: 0, output: 9, cache_read: 0, cache_write: 0 })));
}

#[test]
fn chunks_gathered() {
    let mut st = StreamState { text: String::new(), thinking: String::new(), usage: None };
    assert!(!apply_chunk(&mut st, StreamChunk::Text("a".into())));
    assert!(!apply_chunk(&mut st, StreamChunk::Text("b".into())));
    assert!(!apply_chunk(&mut st, StreamChunk::Thinking("t".into())));
    assert!(!apply_chunk(&mut st, StreamChunk::Usage(Usage { input: 5, output: 0, cache_read: 0, cache_write: 0 })));
    assert!(apply_chunk(&mut st, StreamChunk::Done));
    assert_eq!(st.text, "ab");
    assert_eq!(st.thinking, "t");
    assert_eq!(st.usage.unwrap().input, 5);
}

#[test]
fn stream_endings() {
    assert_eq!(stream_end(Some("reset".into()), 3, 1, 3, "ab"), StreamEnd::Retry);
    assert_eq!(
        stream_end(Some("reset".into()), 3, 3, 3, "ab"),
        StreamEnd::Fallback("流式响应中断：reset（已收 3 字符 / 尝试 3）".into())
    );
    assert_eq!(stream_end(None, 0, 1, 3, "  "), StreamEnd::Fallback("上游流式响应为空（疑似截断）".into()));
    assert_eq!(stream_end(None, 2, 1, 3, "ok"), StreamEnd::Output);
}

#[test]
fn connection_verdicts() {
    assert!(connection_verdict(200, "200 OK", "").is_ok());
    assert!(connection_verdict(429, "429 Too Many Requests", "").is_ok());
    assert_eq!(connection_verdict(401, "401", "").unwrap_err().message, "密钥无效或无权限");
    assert_eq!(connection_verdict(404, "404", "").unwrap_err().message, "端点或模型不存在（检查端点与模型名）");
    let e = connection_verdict(502, "502 Bad Gateway", &"x".repeat(300)).unwrap_err();
    assert!(e.retryable);
    assert_eq!(e.message.chars().count(), "上游返回 502 Bad Gateway：".chars().count() + 200);
    assert!(!connection_verdict(400, "400", "bad").unwrap_err().retryable);
}
