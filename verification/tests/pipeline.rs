use shiro_daemon::engine::Progress;
use shiro_daemon::evidence::EvidencePack;
use shiro_daemon::logs::{is_pending_log, log_file_name, summarize_log, AttemptRecord, LogRecord};
use shiro_daemon::pipeline::{
    run_step, RunAction, RunFacts, RunPhase,
    evidence_error, finish_note, keep_regenerated, missing_files, note_attempts, note_call_failure,
    plan_notes, regenerate_again, second_wave, spawn_count, start_note, NoteCallFailure,
};

#[test]
fn notes_plan_splits_cached() {
    let (done, queue) = plan_notes(&[3, 0, 9, 1], 4, &[true, false, false, true]);
    assert_eq!(done, vec![3, 0]);
    assert_eq!(queue, vec![1]);
}

#[test]
fn window_fill() {
    assert_eq!(spawn_count(0, 4, 0, 10), 4);
    assert_eq!(spawn_count(3, 4, 2, 10), 1);
    assert_eq!(spawn_count(4, 4, 2, 10), 0);
    assert_eq!(spawn_count(0, 4, 8, 10), 2);
}

#[test]
fn note_progress() {
    let mut p = Progress::default();
    start_note(&mut p, 2);
    start_note(&mut p, 5);
    finish_note(&mut p, 2, true);
    finish_note(&mut p, 5, false);
    assert!(p.notes_active.is_empty());
    assert_eq!(p.notes_finished, vec![2]);
    assert_eq!(p.notes_failed, vec![5]);
    assert_eq!(p.notes_done, 2);
}

#[test]
fn note_failures() {
    assert!(matches!(note_call_failure(1, "a", true, "x"), NoteCallFailure::Retry));
    match note_call_failure(3, "片段 4", false, "401") {
        NoteCallFailure::Fatal(m) => assert_eq!(m, "段 3（片段 4）笔记调用失败（配置/协议）：401"),
        _ => panic!("fatal expected"),
    }
    assert_eq!(note_attempts(), 3);
}

#[test]
fn evidence_and_waves() {
    let empty = EvidencePack {
        character: "x".into(),
        aliases: vec![],
        dialogues: vec![],
        actions: vec![],
        events: vec![],
        mentions: vec![],
        relationship_signals: vec![],
        sampled: false,
    };
    assert_eq!(
        evidence_error("玛奇玛", &empty).unwrap(),
        "未在剧本中找到「玛奇玛」的证据：检查角色名与别名是否与剧本中的写法一致"
    );
    let w = second_wave();
    assert_eq!(missing_files(&w, &[true, false, true, false]), vec!["behavior_guide", "key_life_events"]);
    assert!(keep_regenerated(1, 2));
    assert!(!keep_regenerated(2, 2));
    assert!(regenerate_again(1, 0));
    assert!(!regenerate_again(1, 1));
    assert!(!regenerate_again(0, 0));
}

#[test]
fn log_names_and_pending() {
    assert_eq!(log_file_name(7, "notes"), "007-notes.json");
    assert_eq!(log_file_name(42, "generating"), "042-generating.json");
    assert_eq!(log_file_name(1234, "verifying"), "1234-verifying.json");
    assert!(is_pending_log(Some(None), None));
    assert!(!is_pending_log(Some(None), Some(true)));
    assert!(!is_pending_log(None, None));
    assert!(!is_pending_log(Some(Some(true)), None));
}

fn attempt(resp: &str, error: Option<&str>, input: u64, cache: u64, thinking: &str) -> AttemptRecord {
    AttemptRecord {
        response: Some(resp.into()),
        thinking: Some(thinking.into()),
        error: error.map(String::from),
        input: Some(input),
        output: Some(1),
        cache_read: Some(cache),
        cache_write: None,
    }
}

#[test]
fn log_summary_sums_attempts() {
    let rec = LogRecord {
        seq: Some(3),
        node: Some("notes".into()),
        detail: Some("片段 1".into()),
        segment: Some(0),
        ok: Some(true),
        abandoned: None,
        at: Some(100),
        elapsed_ms: Some(20),
        system: Some("系统".into()),
        user: Some("用户消息".into()),
        attempts: vec![attempt("", Some("超时"), 100, 0, ""), attempt("结果文本", None, 100, 50, "想")],
    };
    let s = summarize_log(&rec);
    assert_eq!(s.seq, 3);
    assert_eq!(s.request_chars, 6);
    assert_eq!(s.response_chars, 4);
    assert_eq!(s.error.as_deref(), Some("超时"));
    assert_eq!(s.attempt_count, 2);
    assert_eq!(s.input_tokens, Some(200));
    assert_eq!(s.output_tokens, Some(2));
    assert_eq!(s.cache_read, Some(50));
    assert_eq!(s.cache_hit_rate, Some(25));
    assert!(s.has_thinking);
    let empty = LogRecord { attempts: vec![], system: None, user: None, ..rec };
    let s = summarize_log(&empty);
    assert_eq!(s.attempt_count, 1);
    assert_eq!(s.input_tokens, None);
    assert!(!s.has_thinking);
}

fn facts(present: [bool; 7]) -> RunFacts {
    RunFacts {
        chunks_cached: false,
        probe_cached: false,
        selected: false,
        notes_parsed: 0,
        present: present.to_vec(),
        report_cached: false,
    }
}

#[test]
fn run_step_gates() {
    let mut f = facts([false; 7]);
    assert_eq!(run_step(RunPhase::Source, &f), (RunPhase::Selection, RunAction::ProbeAndChunk));
    f.chunks_cached = true;
    assert_eq!(run_step(RunPhase::Source, &f).1, RunAction::ProbeAndChunk);
    f.probe_cached = true;
    assert_eq!(run_step(RunPhase::Source, &f).1, RunAction::ReuseChunks);
    assert_eq!(run_step(RunPhase::Selection, &f), (RunPhase::Finished, RunAction::AwaitSelection));
    f.selected = true;
    assert_eq!(run_step(RunPhase::Selection, &f), (RunPhase::Notes, RunAction::WriteNotes));
    assert_eq!(
        run_step(RunPhase::Notes, &f),
        (RunPhase::Finished, RunAction::Fail("全部段落笔记解析失败，无法继续".to_string()))
    );
    f.notes_parsed = 3;
    assert_eq!(run_step(RunPhase::Notes, &f), (RunPhase::Evidence, RunAction::BuildEvidence));
    assert_eq!(run_step(RunPhase::Index, &f), (RunPhase::Verify, RunAction::VerifyQuotes));
    f.report_cached = true;
    assert_eq!(run_step(RunPhase::Index, &f), (RunPhase::Finished, RunAction::ReuseReport));
    assert_eq!(run_step(RunPhase::Verify, &f), (RunPhase::Finished, RunAction::Stop));
    assert_eq!(run_step(RunPhase::Finished, &f), (RunPhase::Finished, RunAction::Stop));
}

#[test]
fn run_step_waves_resume() {
    let f = facts([true, false, true, false, true, false, true]);
    assert_eq!(run_step(RunPhase::Evidence, &f), (RunPhase::Soul, RunAction::Generate(vec![])));
    assert_eq!(
        run_step(RunPhase::Soul, &f),
        (RunPhase::SecondWave, RunAction::Generate(vec!["speech_patterns".to_string(), "relationship_dynamics".to_string()]))
    );
    assert_eq!(run_step(RunPhase::SecondWave, &f), (RunPhase::Limit, RunAction::Generate(vec!["limit".to_string()])));
    assert_eq!(run_step(RunPhase::Limit, &f), (RunPhase::Index, RunAction::Generate(vec![])));
    let none = facts([false; 7]);
    assert_eq!(run_step(RunPhase::Evidence, &none).1, RunAction::Generate(vec!["soul".to_string()]));
}
