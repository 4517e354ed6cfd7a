use shiro_daemon::chunk::SourceSegment;
use shiro_daemon::verify::{extract_quotes, normalize, strip_failed_quotes, verify_text, QuoteCite};

fn segs() -> Vec<SourceSegment> {
    vec![SourceSegment {
        label: "第1场 会议室".into(),
        content: "第1场 会议室\n玛奇玛：你的选项有两个。\n电次：什么选项？".into(),
    }]
}

#[test]
fn extract_and_verify() {
    let text = "她说过「你的选项有两个。」（第1场 会议室），这是关键。";
    let qcs = extract_quotes(text);
    assert_eq!(qcs.len(), 1);
    assert_eq!(qcs[0].quote, "你的选项有两个。");
    assert_eq!(qcs[0].unit, "第1场 会议室");
    let failed = verify_text(text, &segs(), "全文任意位置");
    assert!(failed.is_empty(), "段内命中");
}

#[test]
fn fulltext_fallback_and_quote_normalization() {
    let text = "结论：「什么选项？」（第X场 不存在的场）。";
    let failed = verify_text(text, &segs(), "前文随便\n电次：什么选项？\n后文");
    assert!(failed.is_empty());
    let text2 = "结论：「请说说选项？」（第1场 会议室）。";
    let failed2 = verify_text(text2, &segs(), "无关文本");
    assert_eq!(failed2.len(), 1);
}

#[test]
fn normalization_strips_quotes_and_space() {
    let text = "她说「 电次， “活下去” 」（第1场）。";
    let segs2 = vec![SourceSegment {
        label: "第1场".into(),
        content: "第1场\n玛奇玛：电次，“活下去”".into(),
    }];
    assert!(verify_text(text, &segs2, "").is_empty());
}

#[test]
fn strip_marks_degraded() {
    let text = "原句「被改写的引文」（第1场）保留在论断里。";
    let failed = vec![QuoteCite {
        quote: "被改写的引文".into(),
        unit: "第1场".into(),
    }];
    let out = strip_failed_quotes(text, &failed);
    assert!(!out.contains('「'));
    assert!(out.contains("引文未在原文定位"));
}

#[test]
fn normalize_exact() {
    assert_eq!(normalize("「 A，b 」"), "A,b");
    assert_eq!(normalize("“活下去”！"), "活下去!");
    assert_eq!(normalize("「 电次， “活下去” 」"), "电次,活下去");
    let once = normalize(" 『喂』\t ‘走’ ");
    assert_eq!(normalize(&once), once);
    assert!(once.chars().all(|c| !c.is_whitespace() && !"「」『』\"'“”‘’".contains(c)));
}

#[test]
fn quote_bounds() {
    assert!(extract_quotes("「短」（第1场）").is_empty());
    assert_eq!(extract_quotes("「两字」（场）").len(), 1);
}
