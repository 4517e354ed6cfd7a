use shiro_daemon::chunk::{build_chunks, MAX_MERGED_SEGMENT_CHARS, MAX_SEGMENT_CHARS};

fn heading(title: &str, body_chars: usize) -> String {
    let body = "正".repeat(body_chars);
    format!("{title}\n{body}\n")
}

#[test]
fn chapter_split_and_merge() {
    let mut text = String::new();
    for i in 1..=24 {
        text.push_str(&heading(&format!("第{i}章 测试"), 200));
    }
    let r = build_chunks(&text);
    assert_eq!(r.stats.strategy, "chapter");
    assert_eq!(r.segments.len(), 12);
    assert!(r.segments[0].label.contains('~'));
}

#[test]
fn chapter_few_stays_unmerged() {
    let mut text = String::new();
    for i in 1..=5 {
        text.push_str(&heading(&format!("第{i}章"), 200));
    }
    let r = build_chunks(&text);
    assert_eq!(r.segments.len(), 5);
    assert_eq!(r.segments[0].label, "第1章");
}

#[test]
fn short_chapters_filtered() {
    let mut text = String::new();
    text.push_str(&heading("第1章", 200));
    text.push_str(&heading("第2章", 50));
    text.push_str(&heading("第3章", 200));
    text.push_str(&heading("第4章", 200));
    let r = build_chunks(&text);
    assert_eq!(r.stats.discarded_chapter_count, 1);
    assert!(r.segments.iter().all(|s| s.label != "第2章"));
}

#[test]
fn scene_headings_detected() {
    let mut text = String::new();
    for i in 1..=6 {
        text.push_str(&heading(&format!("第{i}场"), 300));
    }
    let r = build_chunks(&text);
    assert_eq!(r.stats.strategy, "chapter");
    assert_eq!(r.segments.len(), 6);

    let mut text2 = String::new();
    for i in 1..=6 {
        text2.push_str(&heading(&format!("INT. 房间 {i}"), 300));
    }
    let r2 = build_chunks(&text2);
    assert_eq!(r2.stats.strategy, "chapter");
    assert_eq!(r2.segments.len(), 6);
}

#[test]
fn plain_sliding_window() {
    let para = "这是一段没有换行的长正文用于测试滑窗行为。".repeat(60);
    let mut text = String::new();
    for i in 1..=30 {
        text.push_str(&format!("段落{i}开始\n{para}\n\n"));
    }
    let r = build_chunks(&text);
    assert_eq!(r.stats.strategy, "plain");
    assert!(r.segments.len() >= 2, "约 3 万字应切成多段");
    assert_eq!(r.segments[0].label, "片段 1");
}

#[test]
fn plain_boundary_at_newline() {
    let a = "甲".repeat(6000);
    let b = "乙".repeat(200);
    let c = "丙".repeat(6000);
    let text = format!("{a}\n{b}\n{c}");
    let r = build_chunks(&text);
    assert_eq!(r.stats.strategy, "plain");
    assert!(r.segments.len() >= 2);
    for seg in &r.segments {
        assert!(seg.content.chars().count() <= MAX_SEGMENT_CHARS);
    }
    let second = &r.segments[1];
    assert!(
        second.content.starts_with("乙") || second.content.starts_with("丙") || second.content.starts_with("甲"),
        "边界应落在换行上，实际开头：{}",
        &second.content[..second.content.len().min(10)]
    );
}

#[test]
fn no_segment_cap() {
    let text = "正".repeat(300_000);
    let r = build_chunks(&text);
    assert!(r.segments.len() > 24, "实际段数 {}", r.segments.len());
}

#[test]
fn deterministic() {
    let text: String = (1..=15).map(|i| heading(&format!("第{i}章"), 300)).collect();
    let a = build_chunks(&text);
    let b = build_chunks(&text);
    assert_eq!(a, b);
}

#[test]
fn false_positive_heading_ignored() {
    let long_line = format!("他说到第三章的内容并且这句话非常长{}", "很长".repeat(60));
    let text = format!("{long_line}\n{}", "正文".repeat(400));
    let r = build_chunks(&text);
    assert_eq!(r.stats.strategy, "plain");
}

#[test]
fn merged_oversize_resplit() {
    let mut text = heading("第1章", 60_000);
    text.push_str(&heading("第2章", 200));
    text.push_str(&heading("第3章", 200));
    let r = build_chunks(&text);
    assert_eq!(r.stats.strategy, "chapter");
    assert!(r.segments.len() >= 4);
    assert_eq!(r.segments[0].label, "第1章");
    assert!(r.segments[1].label.contains("（二）"));
    assert!(r.segments.iter().all(|s| s.content.chars().count() <= MAX_MERGED_SEGMENT_CHARS));
}

#[test]
fn crlf_normalized() {
    let mut text = String::new();
    for i in 1..=4 {
        let body = "正".repeat(200);
        text.push_str(&format!("第{i}章\r\n{body}\r\n"));
    }
    let r = build_chunks(&text.replace('\n', "\r\n"));
    assert_eq!(r.stats.strategy, "chapter");
    assert_eq!(r.segments.len(), 4);
}

#[test]
fn unicode_digit_headings() {
    let digits = ["١", "٢", "٣", "٤", "٥"];
    let mut text = String::new();
    for d in digits {
        text.push_str(&heading(&format!("第{d}章"), 200));
    }
    let r = build_chunks(&text);
    assert_eq!(r.stats.strategy, "chapter");
    assert_eq!(r.segments.len(), 5);
    assert_eq!(r.segments[2].label, "第٣章");

    let mut english = String::new();
    for d in ["१", "२", "३"] {
        english.push_str(&heading(&format!("chapter {d}"), 200));
    }
    let r2 = build_chunks(&english);
    assert_eq!(r2.stats.strategy, "chapter");
    assert_eq!(r2.segments.len(), 3);
}

#[test]
fn lone_cr_chunks_like_lf() {
    let mut text = String::new();
    for i in 1..=4 {
        text.push_str(&heading(&format!("第{i}章"), 200));
    }
    let lf = build_chunks(&text);
    let cr = build_chunks(&text.replace('\n', "\r"));
    assert_eq!(lf.segments, cr.segments);
    assert_eq!(lf.stats.strategy, cr.stats.strategy);
    assert_eq!(lf.stats.covered_char_length, cr.stats.covered_char_length);
}
