use shiro_daemon::watch::rel_path;

fn segs(v: &[&str]) -> Vec<String> {
    v.iter().map(|s| s.to_string()).collect()
}

#[test]
fn changed_paths_are_joined_by_slash() {
    assert_eq!(rel_path(&segs(&["正文", "第一卷", "001.md"])), Some("正文/第一卷/001.md".to_string()));
    assert_eq!(rel_path(&segs(&["a.md"])), Some("a.md".to_string()));
}

#[test]
fn hidden_segments_are_not_reported() {
    assert_eq!(rel_path(&segs(&[".shiro", "chat", "x.json"])), None);
    assert_eq!(rel_path(&segs(&["正文", ".git"])), None);
}

#[test]
fn atomic_write_temporaries_are_not_reported() {
    assert_eq!(rel_path(&segs(&["正文", "001.shiro-tmp"])), None);
    assert_eq!(rel_path(&segs(&["正文", "001.shiro-tmp.md"])), Some("正文/001.shiro-tmp.md".to_string()));
}

#[test]
fn the_root_itself_is_the_empty_path() {
    assert_eq!(rel_path(&[]), Some(String::new()));
}
