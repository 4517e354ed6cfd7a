use shiro_daemon::chunk::SourceSegment;
use shiro_daemon::evidence::{
    build_pack, name_matches, sample_evenly, Dialogue, Mention, NoteEvent, RelationshipSignal,
    SegmentNote,
};

fn seg() -> SourceSegment {
    SourceSegment {
        label: "第1场 ~ 第2场".into(),
        content: [
            "第1场 会议室 日",
            "玛奇玛：电次君，你的选项有两个。",
            "（电次抬头看她）",
            "电次：什么选项？",
            "岸边：别上当。",
            "玛奇玛：作为恶魔被我杀掉，还是作为人被我饲养。",
            "第2场 公园 夜",
            "玛奇玛：回复只需要「是」或「汪」。",
        ]
        .join("\n"),
    }
}

#[test]
fn name_matching() {
    assert!(name_matches("电次", &["电次君".into()], "电次"));
    assert!(name_matches("电次", &["电次君".into()], "电次君"));
    assert!(name_matches("电次", &["电次君".into()], "老年电次"));
    assert!(name_matches("电次", &[], "电次君"), "目标包含名字（≥2 字）也应命中");
    assert!(!name_matches("电", &[], "这次不一样"), "单字不参与包含匹配");
    assert!(!name_matches("电次", &["次".into()], "这次不一样"));
}

#[test]
fn name_matching_exact_alias() {
    assert!(name_matches("电次", &["次".into()], "次"), "目标等于别名（任意长度）应命中");
    assert!(name_matches("电次", &[" 次 ".into()], " 次"));
    assert!(!name_matches("电次", &["次".into()], "次郎"));
    assert!(!name_matches("电次", &["次".into()], "  "));
}

#[test]
fn pack_script_dialogues_and_scenes() {
    let s = seg();
    let pack = build_pack("玛奇玛", &[], &[s.clone()], &[], "script");
    assert_eq!(pack.dialogues.len(), 3);
    assert_eq!(pack.dialogues[0].line, "电次君，你的选项有两个。");
    assert!(pack.dialogues[0].scene.contains("第1场"));
    assert!(pack.dialogues[2].scene.contains("第2场"));
    assert!(pack.actions.iter().any(|a| a.text.contains("电次抬头")));
}

#[test]
fn pack_aggregates_notes() {
    let note = SegmentNote {
        segment: "片段 1".into(),
        scene_summaries: vec![],
        characters_on_stage: vec!["玛奇玛".into(), "电次".into()],
        events: vec![NoteEvent {
            scene: "第1场".into(),
            what: "提出饲养选项".into(),
            who: vec!["玛奇玛".into(), "电次".into()],
            emotion: Some("平静".into()),
        }],
        relationship_signals: vec![RelationshipSignal {
            a: "玛奇玛".into(),
            b: "电次".into(),
            signal: "支配".into(),
            scene: "第1场".into(),
        }],
        mentions: vec![Mention {
            about: "玛奇玛".into(),
            by: "岸边".into(),
            content: "她是恶魔".into(),
            scene: "第1场".into(),
        }],
        dialogues: vec![],
    };
    let pack = build_pack("玛奇玛", &[], &[], &[note], "prose");
    assert_eq!(pack.events.len(), 1);
    assert_eq!(pack.mentions.len(), 1);
    assert_eq!(pack.relationship_signals.len(), 1);
}

#[test]
fn sampling_deterministic_and_bounded() {
    let items: Vec<Dialogue> = (0..3000)
        .map(|i| Dialogue {
            scene: format!("s{}", i / 100),
            line: format!("台词{}", i),
        })
        .collect();
    let sampled = sample_evenly(&items, 400, 40);
    assert_eq!(sampled.len(), 400);
    assert_eq!(sampled[0].line, "台词0");
    assert_eq!(sampled.last().unwrap().line, "台词2999");
    assert_eq!(sampled, sample_evenly(&items, 400, 40));
    let small: Vec<Dialogue> = items[..100].to_vec();
    assert_eq!(sample_evenly(&small, 400, 40).len(), 100);
}

#[test]
fn sampling_picks_evenly_from_middle() {
    let items: Vec<Dialogue> = (0..10)
        .map(|i| Dialogue { scene: "s".into(), line: format!("{i}") })
        .collect();
    let s = sample_evenly(&items, 6, 1);
    let lines: Vec<&str> = s.iter().map(|d| d.line.as_str()).collect();
    assert_eq!(lines, vec!["0", "1", "3", "5", "7", "9"]);
}

#[test]
fn prose_pack_has_no_script_lines() {
    let pack = build_pack("玛奇玛", &["マキマ".into()], &[seg()], &[], "prose");
    assert!(pack.dialogues.is_empty());
    assert!(pack.actions.is_empty());
    assert_eq!(pack.aliases, vec!["マキマ"]);
}
