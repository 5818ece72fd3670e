use everything_adapter::rows::SearchResult;
use everything_adapter::normalize::normalize;
use everything_adapter::order::title_le;
use everything_adapter::order::str_eq;

fn sr(title: &str, context: &str) -> SearchResult {
    SearchResult { title: title.to_string(), context: context.to_string() }
}

#[test]
fn output_no_longer_than_cap() {
    let input = vec![sr("d", "1"), sr("b", "2"), sr("e", "3"), sr("a", "4"), sr("c", "5")];
    let out = normalize(input, 3);
    assert_eq!(out.len(), 3);
}

#[test]
fn output_sorted_ascending_by_title() {
    let input = vec![sr("pear", "1"), sr("apple", "2"), sr("zebra", "3"), sr("fig", "4")];
    let out = normalize(input, 10);
    let titles: Vec<&str> = out.iter().map(|r| r.title.as_str()).collect();
    assert_eq!(titles, vec!["apple", "fig", "pear", "zebra"]);
}

#[test]
fn byte_wise_order_is_case_sensitive() {
    let input = vec![sr("a", "1"), sr("B", "2"), sr("A", "3")];
    let out = normalize(input, 10);
    let titles: Vec<&str> = out.iter().map(|r| r.title.as_str()).collect();
    assert_eq!(titles, vec!["A", "B", "a"]);
}

#[test]
fn duplicate_titles_keep_first_context() {
    let input = vec![sr("same", "first"), sr("other", "x"), sr("same", "second")];
    let out = normalize(input, 10);
    assert_eq!(out.len(), 2);
    assert_eq!(out[0].title, "other");
    assert_eq!(out[1].title, "same");
    assert_eq!(out[1].context, "first");
}

#[test]
fn no_two_output_entries_share_a_title() {
    let input = vec![sr("x", "1"), sr("x", "2"), sr("x", "3"), sr("y", "4")];
    let out = normalize(input, 10);
    assert_eq!(out.len(), 2);
    assert_eq!(out[0].title, "x");
    assert_eq!(out[0].context, "1");
    assert_eq!(out[1].title, "y");
}

#[test]
fn cap_applies_before_later_duplicates_are_seen() {
    let input = vec![sr("b", "1"), sr("a", "2"), sr("c", "3"), sr("a", "dup")];
    let out = normalize(input, 2);
    assert_eq!(out.len(), 2);
    assert_eq!(out[0].title, "a");
    assert_eq!(out[0].context, "2");
    assert_eq!(out[1].title, "b");
}

#[test]
fn empty_input_gives_empty_output() {
    let out = normalize(Vec::new(), 50);
    assert!(out.is_empty());
}

#[test]
fn cap_of_zero_gives_empty_output() {
    let input = vec![sr("a", "1"), sr("b", "2")];
    let out = normalize(input, 0);
    assert!(out.is_empty());
}

#[test]
fn title_le_orders_by_code_point() {
    assert!(title_le("abc", "abd"));
    assert!(!title_le("abd", "abc"));
    assert!(title_le("ab", "abc"));
    assert!(!title_le("abc", "ab"));
    assert!(title_le("abc", "abc"));
    assert!(title_le("", "a"));
}

#[test]
fn str_eq_compares_exactly() {
    assert!(str_eq("abc", "abc"));
    assert!(!str_eq("abc", "abd"));
    assert!(!str_eq("abc", "abcd"));
    assert!(str_eq("", ""));
}
