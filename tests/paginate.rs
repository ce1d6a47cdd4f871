use ewar_bot::paginate::{EmbedLinePaginator, PageAction, PaginatorOptions};

fn lines(n: usize) -> Vec<String> {
    (1..=n).map(|i| format!("line {i}")).collect()
}

#[test]
fn default_options_keep_short_lines_on_one_page() {
    let p = EmbedLinePaginator::new(lines(3), PaginatorOptions::new());
    assert_eq!(p.page_count(), 1);
    assert_eq!(p.page(1), "\nline 1\nline 2\nline 3");
    assert_eq!(p.current_page(), 1);
}

#[test]
fn max_lines_splits_pages() {
    let p = EmbedLinePaginator::new(lines(5), PaginatorOptions::new().max_lines(2));
    assert_eq!(p.page_count(), 3);
    assert_eq!(p.page(1), "\nline 1\nline 2");
    assert_eq!(p.page(3), "\nline 5");
}

#[test]
fn char_limit_splits_pages() {
    // each line is 6 characters, plus one separator byte
    let p = EmbedLinePaginator::new(lines(3), PaginatorOptions::new().char_limit(14));
    assert_eq!(p.page_count(), 2);
    assert_eq!(p.page(1), "\nline 1\nline 2");
    assert_eq!(p.page(2), "\nline 3");
}

#[test]
fn char_limit_is_capped() {
    let long: Vec<String> = vec!["x".repeat(3000), "y".repeat(3000)];
    let p = EmbedLinePaginator::new(long, PaginatorOptions::new().char_limit(100_000));
    assert_eq!(p.page_count(), 2);
}

#[test]
fn custom_separator() {
    let p = EmbedLinePaginator::new(lines(2), PaginatorOptions::new().sep(String::from(", ")));
    assert_eq!(p.page(1), ", line 1, line 2");
}

#[test]
fn no_lines_one_empty_page() {
    let p = EmbedLinePaginator::new(vec![], PaginatorOptions::new());
    assert_eq!(p.page_count(), 1);
    assert_eq!(p.page(1), "");
}

#[test]
fn navigation_wraps() {
    let mut p = EmbedLinePaginator::new(lines(3), PaginatorOptions::new().max_lines(1));
    assert!(p.navigate(PageAction::Previous));
    assert_eq!(p.current_page(), 3);
    assert!(p.navigate(PageAction::Next));
    assert_eq!(p.current_page(), 1);
    assert!(p.navigate(PageAction::Last));
    assert_eq!(p.current_page(), 3);
    assert!(p.navigate(PageAction::First));
    assert_eq!(p.current_page(), 1);
    assert!(!p.navigate(PageAction::Stop));
    assert_eq!(p.current_page(), 1);
}
