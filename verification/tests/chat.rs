use shiro_daemon::chat::{
    append_message, attachment_text, build_llm_messages, check_apply, create_session,
    mark_applied, parse_proposals, push_message, system_prompt, ChatMessage, Session,
};

fn session() -> Session {
    Session {
        id: "t".into(),
        title: "t".into(),
        created_at: 0,
        updated_at: 0,
        next_proposal_seq: 1,
        messages: Vec::new(),
    }
}

fn msg(role: &str, content: &str) -> ChatMessage {
    ChatMessage { role: role.into(), content: content.into(), at: 0, attachments: vec![], proposals: vec![] }
}

#[test]
fn proposals_parse_and_apply() {
    let mut session = session();
    let text = "先看修改建议。\n```shiro-edit\n{\"file\": \"正文/001.md\", \"content\": \"新内容\"}\n```\n以上。";
    let ps = parse_proposals(&mut session, text);
    assert_eq!(ps.len(), 1);
    assert_eq!(ps[0].file, "正文/001.md");
    assert_eq!(ps[0].id, "p1");
    let bad = "```shiro-edit\n{\"file\": \"../evil.md\", \"content\": \"x\"}\n```";
    assert!(parse_proposals(&mut session, bad).is_empty());
    assert_eq!(session.next_proposal_seq, 2);

    let mut s = session.clone();
    s.messages.push(ChatMessage {
        role: "assistant".into(),
        content: text.into(),
        at: 0,
        attachments: vec![],
        proposals: ps,
    });
    let (mi, pi) = check_apply(&s, "p1").unwrap();
    let applied = mark_applied(&mut s, mi, pi, 99);
    assert!(applied.applied);
    assert_eq!(applied.applied_at, Some(99));
    assert_eq!(applied.content, "新内容");
    assert_eq!(check_apply(&s, "p1"), Err("提案已应用".to_string()));
    assert_eq!(check_apply(&s, "p9"), Err("提案不存在".to_string()));
}

#[test]
fn proposals_skip_bad_blocks() {
    let mut s = session();
    let text = "```shiro-edit\nnot json\n```\n```shiro-edit\n{\"file\": \" a.md \", \"content\": \"\"}\n```\n```shiro-edit\n{\"file\": \" a.md \", \"content\": \"ok\"}\n```\n```shiro-edit\n{\"file\": \"b.md\"";
    let ps = parse_proposals(&mut s, text);
    assert_eq!(ps.len(), 1);
    assert_eq!(ps[0].file, "a.md");
    assert_eq!(ps[0].id, "p1");
    assert_eq!(s.next_proposal_seq, 2);
}

#[test]
fn session_title_rules() {
    let s = create_session("abc".into(), "  ", 7);
    assert_eq!(s.title, "新会话");
    assert_eq!(s.created_at, 7);
    assert_eq!(s.next_proposal_seq, 1);
    let mut s = create_session("abc".into(), " 标题 ", 7);
    assert_eq!(s.title, "标题");
    s.title = "新会话".into();
    push_message(&mut s, msg("user", "一二三四五六七八九十一二三四五六七八九十多余"), 9);
    assert_eq!(s.title, "一二三四五六七八九十一二三四五六七八九十");
    assert_eq!(s.updated_at, 9);
    assert_eq!(s.messages.len(), 1);
    let s2 = append_message(Some(s), msg("user", "再来"), 10).unwrap();
    assert_eq!(s2.title, "一二三四五六七八九十一二三四五六七八九十");
    assert_eq!(s2.messages.len(), 2);
    let summary = s2.summary();
    assert_eq!(summary.message_count, 2);
    assert_eq!(s2.detail().messages.len(), 2);
    assert_eq!(append_message(None, msg("user", "再来"), 11), Err("会话不存在".to_string()));
}

#[test]
fn llm_messages_window_and_attachments() {
    let mut s = session();
    for i in 0..25 {
        s.messages.push(msg(if i % 2 == 0 { "user" } else { "assistant" }, &format!("m{i}")));
    }
    s.messages.push(msg("system", "ignored"));
    let out = build_llm_messages("SYS", &s, "问题", &[("a.md".into(), "内容".into())]);
    assert_eq!(out[0].role, "system");
    assert_eq!(out[0].content, "SYS");
    assert_eq!(out.len(), 1 + 19 + 1);
    assert_eq!(out[1].content, "m6");
    assert_eq!(out.last().unwrap().content, "\n【引用文件：a.md】\n内容\n【引用结束】\n问题");
}

#[test]
fn attachments_truncated_and_missing() {
    assert_eq!(attachment_text("a.md", None), "（文件不存在或不可读：a.md）");
    assert_eq!(attachment_text("a.md", Some("短".into())), "短");
    let long = "字".repeat(30001);
    let t = attachment_text("a.md", Some(long));
    assert!(t.ends_with("\n…（已截断，全文 30001 字）"));
    assert_eq!(t.chars().count(), 30000 + "\n…（已截断，全文 30001 字）".chars().count());
}

#[test]
fn system_prompt_names_project() {
    let p = system_prompt("/home/u/我的小说/", "正文/\n");
    assert!(p.contains("当前项目：我的小说\n\n## 项目结构\n```\n正文/\n```"));
    assert!(p.ends_with("- 回复使用中文"));
}
