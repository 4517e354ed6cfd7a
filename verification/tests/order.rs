use shiro_daemon::order::{key_order, listing_order};

fn s(v: &[&str]) -> Vec<String> {
    v.iter().map(|x| x.to_string()).collect()
}

#[test]
fn newest_first_keeps_ties_in_order() {
    assert_eq!(key_order(&[5, 9, 5, 1, 9], true), vec![1, 4, 0, 2, 3]);
}

#[test]
fn ascending_keys_keep_ties_in_order() {
    assert_eq!(key_order(&[3, 1, 2, 1], false), vec![1, 3, 2, 0]);
    assert_eq!(key_order(&[], false), Vec::<usize>::new());
}

#[test]
fn listings_put_folders_first_then_names() {
    let names = s(&["b.md", "正文", "a.md", "大纲", "A.md"]);
    let dirs = [false, true, false, true, false];
    // folders first ("大纲" < "正文" by code point), then files by name ("A.md" < "a.md" < "b.md")
    assert_eq!(listing_order(&names, &dirs), vec![3, 1, 4, 2, 0]);
}

#[test]
fn name_order_matches_str_order() {
    let names = s(&["ab", "a", "", "b", "ab"]);
    let order = listing_order(&names, &[false; 5]);
    assert_eq!(order, vec![2, 1, 0, 4, 3]);
    let mut sorted = names.clone();
    sorted.sort();
    let ordered: Vec<String> = order.iter().map(|&i| names[i].clone()).collect();
    assert_eq!(ordered, sorted);
}
