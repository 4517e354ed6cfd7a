use shiro_daemon::error::ErrorKind;
use shiro_daemon::paths::{
    check_relative_path, folder_name, is_markdown_sheet, is_sheet_file, is_under_work_folder,
    legal_rel, valid_session_id, valid_task_id, validate_name,
};
use shiro_daemon::projects::{project_display_name, touch_history, HistoryEntry};

#[test]
fn folder_names() {
    assert_eq!(folder_name("/home/u/我的小说/"), "我的小说");
    assert_eq!(folder_name("/a/b"), "b");
    assert_eq!(folder_name("/"), "");
    assert_eq!(folder_name("/a/.."), "/a/..");
}

#[test]
fn relative_paths() {
    assert!(legal_rel("正文/001.md"));
    assert!(!legal_rel("../evil.md"));
    assert!(!legal_rel("/etc/passwd"));
    assert!(!legal_rel("a/./b"));
    assert!(!legal_rel("  "));
    let e = check_relative_path("a\\..\\b").unwrap_err();
    assert_eq!(e.kind, ErrorKind::BadRequest);
    assert_eq!(e.message, "非法的文件路径");
}

#[test]
fn names_and_ids() {
    assert_eq!(validate_name("  第一卷 ").unwrap(), "第一卷");
    assert!(validate_name("a/b").is_err());
    assert!(validate_name("..").is_err());
    assert!(validate_name("   ").is_err());
    assert!(valid_task_id("18a2"));
    assert!(!valid_session_id(".x"));
}

#[test]
fn sheet_files() {
    assert!(is_sheet_file("a.MD"));
    assert!(is_sheet_file("b.markdown"));
    assert!(is_sheet_file("c.Txt"));
    assert!(!is_sheet_file("d.json"));
    assert!(is_markdown_sheet("a.md"));
    assert!(!is_markdown_sheet("a.TXT"));
    assert!(is_under_work_folder(".shiro/trash"));
    assert!(is_under_work_folder(".shiro"));
    assert!(!is_under_work_folder(".shiroX/a"));
}

#[test]
fn history_moves_to_front() {
    let mut h = vec![
        HistoryEntry { path: "/a".into(), opened_at: 1 },
        HistoryEntry { path: "/b".into(), opened_at: 2 },
        HistoryEntry { path: "/a".into(), opened_at: 3 },
    ];
    touch_history(&mut h, "/a", 9);
    assert_eq!(h, vec![
        HistoryEntry { path: "/a".into(), opened_at: 9 },
        HistoryEntry { path: "/b".into(), opened_at: 2 },
    ]);
    assert_eq!(project_display_name(Some("  ".into()), "/x/书"), "书");
    assert_eq!(project_display_name(Some("名".into()), "/x/书"), "名");
    assert_eq!(project_display_name(None, "/x/书/"), "书");
}
