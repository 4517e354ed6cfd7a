use shiro_daemon::llm::{ChatOutput, LlmError, Usage};
use shiro_daemon::logs::{begin_attempt, finish_attempt, new_call_log, record_partial};

#[test]
fn a_call_log_records_each_attempt() {
    let mut log = new_call_log(3, 100, "notes", "片段 1", Some(0), "系统", "用户");
    assert_eq!(log.seq, 3);
    assert_eq!(log.request.system, "系统");
    assert!(log.attempts.is_empty());
    assert_eq!(log.ok, None);

    let first = begin_attempt(&mut log, 101);
    assert_eq!(first, 0);
    assert_eq!(log.attempts[0].ok, None);
    record_partial(&mut log, first, "半", "想", 40);
    assert_eq!(log.attempts[0].response, "半");
    assert_eq!(log.attempts[0].thinking, "想");
    let err: Result<ChatOutput, LlmError> = Err(LlmError { retryable: true, message: "网络错误".into() });
    finish_attempt(&mut log, first, &err, 50);
    assert_eq!(log.attempts[0].ok, Some(false));
    assert_eq!(log.attempts[0].error.as_deref(), Some("网络错误"));
    assert_eq!(log.attempts[0].response, "半");
    assert_eq!(log.ok, Some(false));
    assert_eq!(log.elapsed_ms, 50);

    let second = begin_attempt(&mut log, 160);
    assert_eq!(second, 1);
    let usage = Usage { input: 9, output: 4, cache_read: 0, cache_write: 0 };
    let ok: Result<ChatOutput, LlmError> = Ok(ChatOutput { text: "答".into(), thinking: String::new(), usage: Some(usage), fallback: true });
    finish_attempt(&mut log, second, &ok, 70);
    assert_eq!(log.attempts[1].ok, Some(true));
    assert_eq!(log.attempts[1].response, "答");
    assert_eq!(log.attempts[1].usage, Some(usage));
    assert!(log.attempts[1].fallback);
    assert_eq!(log.attempts[0].ok, Some(false));
    assert_eq!(log.ok, Some(true));
    assert_eq!(log.elapsed_ms, 120);
}
