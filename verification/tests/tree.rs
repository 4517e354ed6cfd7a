use shiro_daemon::tree::{is_hidden_name, tree_text, DirEntry, TREE_MAX_LINES};

fn file(name: &str) -> DirEntry {
    DirEntry { name: name.to_string(), is_dir: false, children: Vec::new() }
}

fn dir(name: &str, children: Vec<DirEntry>) -> DirEntry {
    DirEntry { name: name.to_string(), is_dir: true, children }
}

#[test]
fn tree_text_lists_folders_and_manuscripts() {
    let items = vec![
        dir("正文", vec![dir("第一卷", vec![file("001.md"), file("notes.json")]), file("大纲.txt")]),
        dir(".shiro", vec![file("project.toml")]),
        file("README.markdown"),
        file("cover.png"),
        file(".hidden.md"),
    ];
    assert_eq!(tree_text(&items), "正文/\n  第一卷/\n    001.md\n  大纲.txt\nREADME.markdown");
}

#[test]
fn tree_text_of_an_empty_project_is_empty() {
    assert_eq!(tree_text(&Vec::new()), "");
}

#[test]
fn tree_text_is_cut_after_the_line_limit() {
    let items: Vec<DirEntry> = (0..TREE_MAX_LINES + 5).map(|i| file(&format!("{i:03}.md"))).collect();
    let text = tree_text(&items);
    let lines: Vec<&str> = text.split('\n').collect();
    assert_eq!(lines.len(), TREE_MAX_LINES + 1);
    assert_eq!(lines[0], "000.md");
    assert_eq!(lines[TREE_MAX_LINES - 1], "199.md");
    assert_eq!(lines[TREE_MAX_LINES], "…（已截断）");
}

#[test]
fn a_folder_reaching_the_limit_is_not_opened() {
    let mut items: Vec<DirEntry> = (0..TREE_MAX_LINES - 1).map(|i| file(&format!("{i:03}.md"))).collect();
    items.push(dir("满", vec![file("x.md")]));
    items.push(file("zzz.md"));
    let text = tree_text(&items);
    let lines: Vec<&str> = text.split('\n').collect();
    assert_eq!(lines.len(), TREE_MAX_LINES + 1);
    assert_eq!(lines[TREE_MAX_LINES - 1], "满/");
    assert_eq!(lines[TREE_MAX_LINES], "…（已截断）");
}

#[test]
fn hidden_names_start_with_a_dot() {
    assert!(is_hidden_name(".shiro"));
    assert!(!is_hidden_name("正文"));
    assert!(!is_hidden_name(""));
}
