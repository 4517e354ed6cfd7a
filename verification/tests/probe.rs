use shiro_daemon::chunk::build_chunks;
use shiro_daemon::probe::{attribution_sample, citation_units, parse_dialogue_line, scene_at};

fn script_sample() -> String {
    [
        "第1场 公安会议室 日",
        "玛奇玛：电次君，你的选项有两个。",
        "电次：什么选项？",
        "玛奇玛：作为恶魔被我杀掉，还是作为人被我饲养。",
        "（电次沉默）",
        "第2场 公园 夜",
        "电次：真的可以吗？",
        "玛奇玛：回复只需要「是」或「汪」。",
    ]
    .join("\n")
}

#[test]
fn dialogue_line_parsing() {
    let (n, l) = parse_dialogue_line("玛奇玛：你的选项有两个。").unwrap();
    assert_eq!(n, "玛奇玛");
    assert_eq!(l, "你的选项有两个。");
    let (n, _) = parse_dialogue_line("【岸边】活下去。").unwrap();
    assert_eq!(n, "岸边");
    assert!(parse_dialogue_line("他说：这不是台词归属").is_none());
    assert!(parse_dialogue_line("普通叙述行").is_none());
}

#[test]
fn scene_at_finds_nearest() {
    let seg = script_sample();
    assert!(scene_at(&seg, "片段 1", 5).contains("第1场"));
    assert!(scene_at(&seg, "片段 1", 8).contains("第2场"));
    assert_eq!(scene_at(&seg, "片段 1", 0), "片段 1");
}

#[test]
fn citation_units_extract_scenes() {
    let text = script_sample();
    let chunks = build_chunks(&text);
    let units = citation_units(&chunks.segments);
    assert_eq!(units[0].scenes.len(), 2);
    assert!(units[0].scenes[0].contains("第1场"));
}

#[test]
fn probe_detects_script_form() {
    let s = attribution_sample(&script_sample());
    assert_eq!(s.form, "script");
    assert!(s.hits as f64 / s.sampled as f64 > 0.3);
}

#[test]
fn probe_detects_prose_form() {
    let text = "他走进房间，环顾四周。墙上挂着一幅画，画中是海。他想起很多年前的事，那时他还小。\n她低着头，没有说话。窗外的雨一直下，像是要把整个城市淹没。他们就这样站了很久。";
    assert_eq!(attribution_sample(text).form, "prose");
}

#[test]
fn attribution_counts() {
    let s = attribution_sample(&script_sample());
    assert_eq!(s.sampled, 8);
    assert_eq!(s.hits, 5);
}
