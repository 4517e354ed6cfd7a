use shiro_daemon::evidence::{
    ActionLine, Dialogue, EvidencePack, Mention, NoteDialogue, NoteEvent, RelationshipSignal,
    SceneSummary, SegmentNote,
};
use shiro_daemon::prompts::{
    action_block, backfill_segment, behavior_prompt, dialogue_block, event_block, events_prompt,
    index_prompt, limit_prompt, mention_block, notes_prompt, rebuild_prompt, regen_with_failed_quotes,
    relation_block, relationship_prompt, soul_prompt, speech_prompt, synopsis_block, system,
    truncate_chars, COMMON_SYSTEM, NOTES_SYSTEM,
};

fn pack() -> EvidencePack {
    EvidencePack {
        character: "玛奇玛".into(),
        aliases: vec![],
        dialogues: vec![
            Dialogue { scene: "第1场".into(), line: "你的选项有两个。".into() },
            Dialogue { scene: "第2场".into(), line: "汪。".into() },
        ],
        actions: vec![ActionLine { scene: "第1场".into(), text: "（电次抬头看她）".into() }],
        events: vec![
            NoteEvent { scene: "第1场".into(), what: "提出选项".into(), who: vec!["玛奇玛".into(), "电次".into()], emotion: Some("平静".into()) },
            NoteEvent { scene: "第2场".into(), what: "离开".into(), who: vec!["玛奇玛".into()], emotion: Some(" ".into()) },
        ],
        mentions: vec![Mention { about: "玛奇玛".into(), by: "岸边".into(), content: "她是恶魔".into(), scene: "第1场".into() }],
        relationship_signals: vec![RelationshipSignal { a: "玛奇玛".into(), b: "电次".into(), signal: "支配".into(), scene: "第1场".into() }],
        sampled: true,
    }
}

fn empty_pack() -> EvidencePack {
    EvidencePack {
        character: "x".into(),
        aliases: vec![],
        dialogues: vec![],
        actions: vec![],
        events: vec![],
        mentions: vec![],
        relationship_signals: vec![],
        sampled: false,
    }
}

fn note(segment: &str, scenes: &[(&str, &str)]) -> SegmentNote {
    SegmentNote {
        segment: segment.into(),
        scene_summaries: scenes.iter().map(|(s, t)| SceneSummary { scene: s.to_string(), summary: t.to_string() }).collect(),
        characters_on_stage: vec![],
        events: vec![],
        relationship_signals: vec![],
        mentions: vec![],
        dialogues: vec![],
    }
}

#[test]
fn system_names_work_and_character() {
    let s = system("链锯人", "玛奇玛");
    assert!(s.starts_with(COMMON_SYSTEM));
    assert!(s.ends_with("\n\n当前作品：《链锯人》；研究对象：玛奇玛"));
}

#[test]
fn notes_prompt_layout() {
    let (sys, user) = notes_prompt("第1场", "正文");
    assert_eq!(sys, NOTES_SYSTEM);
    assert!(user.starts_with("【剧本片段：第1场】\n正文\n\n输出 JSON（只输出 JSON，不要任何其他文字）：\n{\n  \"scene_summaries\""));
    assert!(user.ends_with("- 没有内容的字段给空数组"));
}

#[test]
fn backfill_fills_placeholders() {
    let mut n = note("", &[("SEG", "a"), (" ", "b"), ("第3场", "c")]);
    n.dialogues = vec![NoteDialogue { character: "a".into(), line: "b".into(), scene: " SEG ".into() }];
    backfill_segment(&mut n, "片段 2");
    assert_eq!(n.segment, "片段 2");
    assert_eq!(n.scene_summaries[0].scene, "片段 2");
    assert_eq!(n.scene_summaries[1].scene, "片段 2");
    assert_eq!(n.scene_summaries[2].scene, "第3场");
    assert_eq!(n.dialogues[0].scene, "片段 2");
}

#[test]
fn material_blocks() {
    let p = pack();
    assert_eq!(dialogue_block(&p, 800), "[第1场] 你的选项有两个。\n[第2场] 汪。（台词已等距采样，全量 2 条）");
    assert_eq!(dialogue_block(&p, 1), "[第1场] 你的选项有两个。（台词已等距采样，全量 2 条）");
    assert_eq!(mention_block(&p), "[第1场] 岸边（玛奇玛）：她是恶魔");
    assert_eq!(event_block(&p), "[第1场] 提出选项（玛奇玛、电次，情绪：平静）\n[第2场] 离开（玛奇玛）");
    assert_eq!(relation_block(&p), "[第1场] 玛奇玛 ↔ 电次：支配");
    assert_eq!(action_block(&p), "[第1场] （电次抬头看她）");
    let e = empty_pack();
    assert_eq!(mention_block(&e), "（无他人评价材料）");
    assert_eq!(event_block(&e), "（无事件记录）");
    assert_eq!(relation_block(&e), "（无关系信号）");
    assert_eq!(action_block(&e), "（无动作/舞台指示摘录）");
    assert_eq!(dialogue_block(&e, 800), "");
}

#[test]
fn synopsis_skips_notes_without_scenes() {
    let notes = vec![note("片段 1", &[("第1场", "开会"), ("第2场", "散步")]), note("片段 2", &[]), note("片段 3", &[("第5场", "终")])];
    assert_eq!(synopsis_block(&notes), "【片段 1】\n第1场：开会\n第2场：散步\n\n【片段 3】\n第5场：终");
    assert_eq!(synopsis_block(&[]), "（无场次摘要）");
}

#[test]
fn truncation_and_regen() {
    assert_eq!(truncate_chars("abc", 3), "abc");
    assert_eq!(truncate_chars("abcd", 3), "abc\n…（已截断）");
    let r = regen_with_failed_quotes("原提示", &["甲".into(), "乙".into()]);
    assert!(r.starts_with("原提示\n\n【必须修复】"));
    assert!(r.ends_with("：\n- 「甲」\n- 「乙」"));
}

#[test]
fn card_prompts_carry_materials() {
    let p = pack();
    let notes = vec![note("片段 1", &[("第1场", "开会")])];
    let (sys, soul) = soul_prompt("链锯人", "玛奇玛", &p, &notes);
    assert!(sys.contains("研究对象：玛奇玛"));
    assert!(soul.starts_with("材料一：作品梗概（各片段场次摘要合成）\n【片段 1】\n第1场：开会\n\n材料二：玛奇玛 的事件时间线"));
    let (_, speech) = speech_prompt("链锯人", "玛奇玛", &p, "灵魂结论");
    assert!(speech.starts_with("材料一：玛奇玛 的全部台词语料（按时序，[引用单元] 台词）\n[第1场] 你的选项有两个。"));
    assert!(speech.contains("材料二：soul.md 结论（语言必须与灵魂一致）\n灵魂结论\n\n任务："));
    let (_, behavior) = behavior_prompt("链锯人", "玛奇玛", &p, "灵魂结论");
    assert!(behavior.contains("[第1场] （电次抬头看她）"));
    assert!(behavior.contains("灵魂结论"));
    let (_, rel) = relationship_prompt("链锯人", "玛奇玛", &p, "灵魂结论");
    assert!(rel.contains("玛奇玛 ↔ 电次：支配"));
    let (_, ev) = events_prompt("链锯人", "玛奇玛", &p, &notes, "灵魂结论");
    assert!(ev.contains("材料二：涉及 玛奇玛 的事件时间线\n[第1场] 提出选项"));
    let files = vec![("soul".to_string(), "s".repeat(2600)), ("limit".to_string(), "l".to_string())];
    let (_, limit) = limit_prompt("链锯人", "玛奇玛", &files);
    assert!(limit.contains("## 来自 soul\n"));
    assert!(limit.contains("…（已截断）\n\n## 来自 limit\nl\n"));
    let (_, index) = index_prompt("链锯人", "玛奇玛", &files[1..]);
    assert!(index.contains("───── limit ─────\nl\n"));
}

#[test]
fn rebuild_prompt_repeats_the_first_prompt_of_each_file() {
    let p = pack();
    let notes = vec![note("片段 1", &[("第1场", "相遇")])];
    let soul = "## 核心驱动力\n支配";
    let deps: Vec<(String, String)> = vec![("soul".into(), soul.into())];
    let six: Vec<(String, String)> = vec![("soul".into(), soul.into()), ("limit".into(), "## OOC 红线".into())];
    assert_eq!(rebuild_prompt("soul", "链锯人", "玛奇玛", &p, &notes, soul, &deps, &six), soul_prompt("链锯人", "玛奇玛", &p, &notes));
    assert_eq!(rebuild_prompt("speech_patterns", "链锯人", "玛奇玛", &p, &notes, soul, &deps, &six), speech_prompt("链锯人", "玛奇玛", &p, soul));
    assert_eq!(rebuild_prompt("behavior_guide", "链锯人", "玛奇玛", &p, &notes, soul, &deps, &six), behavior_prompt("链锯人", "玛奇玛", &p, soul));
    assert_eq!(rebuild_prompt("relationship_dynamics", "链锯人", "玛奇玛", &p, &notes, soul, &deps, &six), relationship_prompt("链锯人", "玛奇玛", &p, soul));
    assert_eq!(rebuild_prompt("key_life_events", "链锯人", "玛奇玛", &p, &notes, soul, &deps, &six), events_prompt("链锯人", "玛奇玛", &p, &notes, soul));
    assert_eq!(rebuild_prompt("limit", "链锯人", "玛奇玛", &p, &notes, soul, &deps, &six), limit_prompt("链锯人", "玛奇玛", &deps));
    assert_eq!(rebuild_prompt("index", "链锯人", "玛奇玛", &p, &notes, soul, &deps, &six), index_prompt("链锯人", "玛奇玛", &six));
}

#[test]
fn rebuild_prompt_of_an_unknown_file_is_a_note() {
    let (sys, user) = rebuild_prompt("cover", "链锯人", "玛奇玛", &empty_pack(), &[], "", &[], &[]);
    assert_eq!(sys, "");
    assert_eq!(user, "（未知文件 cover，无法重建提示词）");
}
