use shiro_daemon::engine::{
    abort_task, check_delete, check_interrupted, check_save, finish_run, generation_files,
    index_frontmatter, mark_done, new_task_record, normalize_selection, rename_task, retry_task,
    seg_excerpt, segment_infos, select_segments, settle_quotes, tasks_root, CreateParams, Progress,
    RunOutcome, TaskMeta, TaskRecord, TaskSummary, STAGE_ABORTED, STAGE_DONE, STAGE_FAILED,
    STAGE_INTERRUPTED, STAGE_NOTES, STAGE_PENDING, STAGE_SELECTING,
};
use shiro_daemon::chunk::SourceSegment;
use shiro_daemon::verify::QuoteCite;

fn meta(id: &str) -> TaskMeta {
    TaskMeta {
        id: id.into(),
        title: None,
        source_name: "s".into(),
        character: "c".into(),
        aliases: vec![],
        created_at: 1,
    }
}

fn record(stage: &str) -> TaskRecord {
    TaskRecord {
        meta: meta("x"),
        progress: Progress {
            stage: stage.into(),
            ..Default::default()
        },
    }
}

#[test]
fn frontmatter_format() {
    let meta = TaskMeta {
        id: "t1".into(),
        title: None,
        source_name: "链锯人".into(),
        character: "玛奇玛".into(),
        aliases: vec!["マキマ".into()],
        created_at: 1,
    };
    let fm = index_frontmatter(&meta, "script");
    assert!(fm.contains("shiro_asset: character"));
    assert!(fm.contains("depth: full"));
    assert!(fm.contains("name: \"玛奇玛\""));
    assert!(fm.contains("aliases: [\"マキマ\"]"));
    assert!(fm.contains("form: script"));
    let meta2 = TaskMeta {
        aliases: vec![],
        ..meta
    };
    assert!(!index_frontmatter(&meta2, "prose").contains("aliases"));
}

#[test]
fn frontmatter_exact_text() {
    let meta = TaskMeta {
        id: "t1".into(),
        title: None,
        source_name: "链锯人".into(),
        character: "玛奇玛".into(),
        aliases: vec!["a".into(), "b\"c".into()],
        created_at: 1,
    };
    assert_eq!(
        index_frontmatter(&meta, "script"),
        "---\nshiro_asset: character\ndepth: full\nname: \"玛奇玛\"\naliases: [\"a\", \"b\\\"c\"]\nsource_work:\n  title: \"链锯人\"\n  form: script\ntags: [拆书]\n---\n"
    );
}

#[test]
fn interrupted_marking() {
    let mut rec = record(STAGE_NOTES);
    assert!(check_interrupted(&mut rec, false), "非运行中且不在内存 → 中断");
    assert_eq!(rec.progress.stage, STAGE_INTERRUPTED);
    let mut rec2 = TaskRecord {
        progress: Progress {
            stage: STAGE_NOTES.into(),
            ..Default::default()
        },
        ..rec.clone()
    };
    rec2.meta.id = "y".into();
    assert!(!check_interrupted(&mut rec2, true));
    assert_eq!(rec2.progress.stage, STAGE_NOTES);
    assert!(!check_interrupted(&mut rec, false));
}

#[test]
fn interrupted_keeps_last_stage() {
    let mut rec = record("generating");
    assert!(check_interrupted(&mut rec, false));
    assert_eq!(rec.progress.last_stage.as_deref(), Some("generating"));
    assert!(rec.progress.error.unwrap().contains("继续"));
    let mut sel = record(STAGE_SELECTING);
    assert!(!check_interrupted(&mut sel, false));
}

#[test]
fn stage_predicates() {
    for s in [STAGE_DONE, STAGE_FAILED, STAGE_ABORTED] {
        let p = Progress { stage: s.into(), ..Default::default() };
        assert!(p.is_terminal());
        assert!(!p.is_running());
    }
    for s in [STAGE_SELECTING, STAGE_INTERRUPTED, ""] {
        let p = Progress { stage: s.into(), ..Default::default() };
        assert!(!p.is_terminal());
        assert!(!p.is_running());
    }
    let p = Progress { stage: STAGE_PENDING.into(), ..Default::default() };
    assert!(p.is_running());
}

#[test]
fn rename_trims_or_clears() {
    let mut rec = record(STAGE_DONE);
    rename_task(&mut rec, "  新名字 ");
    assert_eq!(rec.meta.title.as_deref(), Some("新名字"));
    rename_task(&mut rec, "   ");
    assert_eq!(rec.meta.title, None);
}

#[test]
fn selection_normalized() {
    assert_eq!(normalize_selection(&[5, 1, 3, 1, 9, 0], 6), vec![0, 1, 3, 5]);
    let mut rec = record(STAGE_SELECTING);
    rec.progress.segment_count = 4;
    assert_eq!(select_segments(&mut rec, &[7, 8], false), Err("至少选择一段".to_string()));
    assert_eq!(select_segments(&mut rec, &[2, 0, 2], true), Err("任务运行中，请稍候".to_string()));
    assert_eq!(select_segments(&mut rec, &[2, 0, 2], false), Ok(()));
    assert_eq!(rec.progress.selected, Some(vec![0, 2]));
    assert_eq!(rec.progress.stage, STAGE_PENDING);
    assert_eq!(select_segments(&mut rec, &[1], false), Err("任务不在待选择状态".to_string()));
}

#[test]
fn retry_rules() {
    let mut done = record(STAGE_DONE);
    assert_eq!(retry_task(&mut done, false), Err("任务已完成，无需重试".to_string()));
    let mut sel = record(STAGE_SELECTING);
    assert_eq!(retry_task(&mut sel, false), Err("任务等待用户选择段落，无需重试".to_string()));
    let mut notes = record(STAGE_NOTES);
    assert!(retry_task(&mut notes, false).unwrap_err().contains("状态不一致"));
    assert_eq!(retry_task(&mut notes, true), Err("任务运行中".to_string()));
    let mut failed = record(STAGE_FAILED);
    failed.progress.error = Some("boom".into());
    failed.progress.finished_at = Some(9);
    assert_eq!(retry_task(&mut failed, false), Ok(()));
    assert_eq!(failed.progress.stage, STAGE_PENDING);
    assert_eq!(failed.progress.error, None);
    assert_eq!(failed.progress.finished_at, None);
}

#[test]
fn abort_and_finish() {
    let mut rec = record(STAGE_NOTES);
    abort_task(&mut rec, 77);
    assert_eq!(rec.progress.stage, STAGE_ABORTED);
    assert_eq!(rec.progress.last_stage.as_deref(), Some(STAGE_NOTES));
    assert_eq!(rec.progress.finished_at, Some(77));
    assert_eq!(rec.progress.error.as_deref(), Some("已被用户中止"));

    let mut ok = record("verifying");
    finish_run(&mut ok, RunOutcome::Finished, 5);
    assert_eq!(ok.progress.stage, STAGE_DONE);
    assert_eq!(ok.progress.finished_at, Some(5));

    let mut paused = record(STAGE_SELECTING);
    finish_run(&mut paused, RunOutcome::Finished, 5);
    assert_eq!(paused.progress.stage, STAGE_SELECTING);
    assert_eq!(paused.progress.finished_at, None);

    let mut bad = record(STAGE_NOTES);
    finish_run(&mut bad, RunOutcome::Failed("全部段落笔记解析失败，无法继续".into()), 6);
    assert_eq!(bad.progress.stage, STAGE_FAILED);
    assert_eq!(bad.progress.last_stage.as_deref(), Some(STAGE_NOTES));
    assert_eq!(bad.progress.error.as_deref(), Some("全部段落笔记解析失败，无法继续"));
}

#[test]
fn new_record_validation() {
    let params = CreateParams {
        source_name: "  ".into(),
        content: "正文".into(),
        character: " 玛奇玛 ".into(),
        aliases: vec![" マキマ ".into(), "".into(), "玛奇玛".into()],
        selected: None,
    };
    let rec = new_task_record(&params, "abc".into(), 10).unwrap();
    assert_eq!(rec.meta.source_name, "未命名素材");
    assert_eq!(rec.meta.character, "玛奇玛");
    assert_eq!(rec.meta.aliases, vec!["マキマ"]);
    assert_eq!(rec.progress.stage, STAGE_PENDING);
    assert_eq!(rec.meta.created_at, 10);
    let empty = CreateParams {
        source_name: "x".into(),
        content: "  ".into(),
        character: "a".into(),
        aliases: vec![],
        selected: None,
    };
    assert_eq!(new_task_record(&empty, "a".into(), 1).unwrap_err(), "剧本内容为空");
    let noname = CreateParams {
        source_name: "x".into(),
        content: "y".into(),
        character: " ".into(),
        aliases: vec![],
        selected: Some(vec![1]),
    };
    assert_eq!(new_task_record(&noname, "a".into(), 1).unwrap_err(), "角色名不能为空");
}

#[test]
fn excerpt_and_segment_list() {
    assert_eq!(seg_excerpt("  a \n\t b  c "), "a b c");
    let long = "字".repeat(100);
    let e = seg_excerpt(&long);
    assert_eq!(e.chars().count(), 81);
    assert!(e.ends_with('…'));
    let segs = vec![
        SourceSegment { label: "第1章".into(), content: "玛奇玛 说话".into() },
        SourceSegment { label: "第2章".into(), content: "无关".into() },
    ];
    let m = TaskMeta { character: "玛奇玛".into(), ..meta("x") };
    let infos = segment_infos(&m, &segs);
    assert_eq!(infos.len(), 2);
    assert_eq!(infos[0].index, 0);
    assert_eq!(infos[0].chars, 6);
    assert!(infos[0].has_name);
    assert!(!infos[1].has_name);
}

#[test]
fn mark_done_once() {
    let mut p = Progress::default();
    p.current_files = vec!["soul".into(), "limit".into()];
    mark_done(&mut p, "soul");
    mark_done(&mut p, "soul");
    assert_eq!(p.files_done, vec!["soul"]);
    assert_eq!(p.current_files, vec!["limit"]);
}

#[test]
fn quotes_settled() {
    let text = "一「你的选项有两个。」（第1场）二「被改写的引文」（第2场）";
    let (passed, removed, out) = settle_quotes("soul", text, &[]);
    assert_eq!(passed, 2);
    assert!(removed.is_empty());
    assert_eq!(out, text);
    let failed = vec![QuoteCite { quote: "被改写的引文".into(), unit: "第2场".into() }];
    let (passed, removed, out) = settle_quotes("soul", text, &failed);
    assert_eq!(passed, 1);
    assert_eq!(removed.len(), 1);
    assert_eq!(removed[0].file, "soul");
    assert!(out.contains("被改写的引文（引文未在原文定位，已去除引号）"));
}

#[test]
fn misc_task_rules() {
    assert_eq!(tasks_root("/h/.config/shiro"), "/h/.config/shiro/db/deconstruct");
    assert_eq!(generation_files().len(), 7);
    assert_eq!(generation_files()[6], "index");
    assert_eq!(check_delete("a/b", false), Err("非法的任务 id".to_string()));
    assert_eq!(check_delete("ok", true), Err("任务运行中，暂不能删除".to_string()));
    assert_eq!(check_delete("ok", false), Ok(()));
    assert!(check_save(&record(STAGE_DONE)).is_ok());
    assert!(check_save(&record(STAGE_NOTES)).is_err());
    let s = TaskSummary::from_record(&record(STAGE_NOTES));
    assert_eq!(s.stage, STAGE_NOTES);
    assert_eq!(s.id, "x");
}
