use shiro_daemon::excerpt::{excerpt_from_content, strip_inline_markdown, strip_markdown_line};

#[test]
fn block_marks_stripped() {
    assert_eq!(strip_markdown_line("  ## 标题 "), "标题");
    assert_eq!(strip_markdown_line("> - * 引用列表"), "引用列表");
    assert_eq!(strip_markdown_line("12. 第十二项"), "第十二项");
    assert_eq!(strip_markdown_line("2024年"), "2024年");
    assert_eq!(strip_markdown_line("3.14"), "3.14");
}

#[test]
fn inline_marks_stripped() {
    assert_eq!(strip_inline_markdown("看![图](a.png)这里"), "看这里");
    assert_eq!(strip_inline_markdown("[链接](http://x)文字"), "链接文字");
    assert_eq!(strip_inline_markdown("**粗体** `码` ~~删~~"), "粗体 码 删");
    assert_eq!(strip_inline_markdown("[未闭合"), "未闭合");
    assert_eq!(strip_inline_markdown("[只有括号]后文"), "只有括号后文");
}

#[test]
fn excerpt_joins_and_cuts() {
    let md = "# 第一章\n\n他走进**房间**。\n> 她说：[你好](x)\n";
    assert_eq!(excerpt_from_content(md, 160, true), "第一章 他走进房间。 她说：你好");
    assert_eq!(excerpt_from_content(md, 5, true), "第一章 他");
    assert_eq!(excerpt_from_content("  a  \n\n b ", 10, false), "a b");
    assert_eq!(excerpt_from_content("# x", 10, false), "# x");
    assert_eq!(excerpt_from_content("", 10, true), "");
}
