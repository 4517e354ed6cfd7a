use shiro_daemon::assets::{
    card_id_of, characters_dir, numbered_id, parse_character, save_feedback, skeleton_content, slug_for,
    split_frontmatter, field_strings, YamlField,
};
use shiro_daemon::paths::valid_asset_id;

#[test]
fn split_frontmatter_cases() {
    assert_eq!(split_frontmatter("没有 frontmatter"), None);
    assert_eq!(split_frontmatter("---\nname: a\n"), None);
    let (fm, body) = split_frontmatter("---\nname: a\n---\n\n正文\n").unwrap();
    assert_eq!(fm, "name: a");
    assert_eq!(body.trim(), "正文");
}

#[test]
fn id_validation() {
    assert!(valid_asset_id("fengpi-meirei"));
    assert!(!valid_asset_id(""));
    assert!(!valid_asset_id("../etc"));
    assert!(!valid_asset_id("a/b"));
    assert!(!valid_asset_id(".hidden"));
}

#[test]
fn slug_rules() {
    assert_eq!(slug_for("Feng Pi Mei Ren", 1700000000), "feng-pi-mei-ren");
    assert!(slug_for("沈青梧", 1700000000).starts_with("character-"), "纯中文名回退时间戳 id");
}

#[test]
fn slug_falls_back_to_time() {
    assert_eq!(slug_for("沈青梧", 1700000000), "character-1700000000");
    assert_eq!(slug_for("--A__b--", 5), "a-b");
    assert_eq!(slug_for("Kelvin \u{212A}", 5), "kelvin-k");
}

#[test]
fn skeleton_parses_as_character() {
    let mut map = std::collections::BTreeMap::new();
    map.insert("shiro_asset", "character");
    map.insert("name", "测试: 带冒号与\"引号\"的名");
    let fm_yaml = serde_yaml::to_string(&map).unwrap();
    let content = skeleton_content(&fm_yaml);
    let (fm, body) = split_frontmatter(&content).unwrap();
    let c = parse_character(&fm, &body, "test-id").unwrap();
    assert_eq!(c.name, "测试: 带冒号与\"引号\"的名");
    assert!(body.contains("## 可迁移"));
    assert!(body.contains("### 弧线类型"));
}

#[test]
fn parse_character_fields_and_fallbacks() {
    let fm = "shiro_asset: character\nname: 沈青梧\narchetype: [疯批美人, 高门弃女]\nrole: 对手\ntags: [女二]\nsource: db://characters/x";
    let c = parse_character(fm, "\n## 可迁移\n\n掌控欲强，以退为进。\n", "valid").unwrap();
    assert_eq!(c.id, "valid");
    assert_eq!(c.name, "沈青梧");
    assert_eq!(c.archetype, vec!["疯批美人", "高门弃女"]);
    assert_eq!(c.role.as_deref(), Some("对手"));
    assert_eq!(c.tags, vec!["女二"]);
    assert_eq!(c.source.as_deref(), Some("db://characters/x"));
    assert!(c.excerpt.contains("掌控欲强"));
    let noname = parse_character("shiro_asset: character", "无名字段，回退文件名", "noname").unwrap();
    assert_eq!(noname.name, "noname");
    assert!(parse_character("title: 随笔", "普通文档", "plain").is_none());
    assert!(parse_character("shiro_asset: character\nname: [未闭合", "正文", "broken").is_none());
    let single = parse_character("shiro_asset: character\narchetype: 孤狼", "", "x").unwrap();
    assert_eq!(single.archetype, vec!["孤狼"]);
}

#[test]
fn save_feedback_messages() {
    let r = save_feedback(None);
    assert!(!r.parsed);
    assert!(r.parse_error.unwrap().contains("不会出现在角色列表中"));
    let c = parse_character("shiro_asset: character\nname: a", "", "a").unwrap();
    let r = save_feedback(Some(c));
    assert!(r.parsed);
    assert!(r.parse_error.is_none());
}

#[test]
fn card_ids_and_dirs() {
    assert_eq!(numbered_id("makima", 2), "makima-2");
    assert_eq!(characters_dir("/home/u/.config/shiro"), "/home/u/.config/shiro/db/人物");
}

#[test]
fn frontmatter_later_fences_stay_in_body() {
    let (fm, body) = split_frontmatter("---\r\na: 1\r\n---\r\nx\r\n---\r\ny").unwrap();
    assert_eq!(fm, "a: 1");
    assert_eq!(body, "x\n---\ny");
}

#[test]
fn card_ids_of_library_entries() {
    assert_eq!(card_id_of("makima.md", false), Some("makima".to_string()));
    assert_eq!(card_id_of("makima", true), Some("makima".to_string()));
    assert_eq!(card_id_of("notes.txt", false), None);
    assert_eq!(card_id_of(".draft.md", false), None);
    assert_eq!(card_id_of(".cache", true), None);
    assert_eq!(card_id_of(".md", false), None);
    assert_eq!(card_id_of("a.MD", false), None);
}

#[test]
fn field_strings_by_kind() {
    assert_eq!(field_strings(&YamlField::Str("孤狼".into())), vec!["孤狼"]);
    assert_eq!(
        field_strings(&YamlField::Sequence(vec![Some("a".into()), None, Some("b".into())])),
        vec!["a", "b"]
    );
    assert!(field_strings(&YamlField::Number).is_empty());
    assert!(field_strings(&YamlField::Absent).is_empty());
    assert!(field_strings(&YamlField::Mapping).is_empty());
}

#[test]
fn list_fields_of_other_kinds_are_empty() {
    let c = parse_character("shiro_asset: character
tags: 3
archetype: [x, 2, y]", "", "z").unwrap();
    assert!(c.tags.is_empty());
    assert_eq!(c.archetype, vec!["x", "y"]);
}
