use kvikk::model::{GridFit, SelectionPoint, ViewMode};
use kvikk::search::{find_matches, next_search_result, recompute_search};
use kvikk::text::{make_snippet, ordered_selection, selected_text, useful_char_count};

fn chars(s: &str) -> Vec<char> {
    s.chars().collect()
}

fn fit(row_mode_cols: usize, overview_cols: usize, overview_rows: usize, page_count: usize) -> GridFit {
    GridFit { row_mode_cols, overview_cols, overview_rows, page_count }
}

#[test]
fn grid_spec_matches_documented_layouts() {
    let f = fit(5, 6, 4, 24);
    assert_eq!(ViewMode::Manual.grid_spec(f), None);
    assert_eq!(ViewMode::FitWidth.grid_spec(f), None);
    assert_eq!(ViewMode::FitHeight.grid_spec(f), None);
    assert_eq!(ViewMode::Spread.grid_spec(f), Some((2, 1)));
    assert_eq!(ViewMode::Rows2.grid_spec(f), Some((5, 2)));
    assert_eq!(ViewMode::Rows3.grid_spec(f), Some((5, 3)));
    assert_eq!(ViewMode::Rows4.grid_spec(f), Some((5, 4)));
    assert_eq!(ViewMode::Rows5.grid_spec(f), Some((5, 5)));
    assert_eq!(ViewMode::Rows7.grid_spec(f), Some((5, 7)));
    assert_eq!(ViewMode::Overview.grid_spec(f), Some((6, 4)));
    // A zero column count counts as one column.
    assert_eq!(ViewMode::Rows2.grid_spec(fit(0, 0, 0, 0)), Some((1, 2)));
    assert_eq!(ViewMode::Overview.grid_spec(fit(0, 0, 0, 0)), Some((1, 1)));
    assert_eq!(ViewMode::Rows3.requested_grid_rows(), Some(3));
    assert_eq!(ViewMode::Overview.requested_grid_rows(), None);
}

#[test]
fn pages_per_view_counts_grid_cells() {
    let f = fit(5, 6, 4, 23);
    assert_eq!(ViewMode::FitWidth.pages_per_view(f), 1);
    assert_eq!(ViewMode::Spread.pages_per_view(f), 2);
    assert_eq!(ViewMode::Rows2.pages_per_view(f), 10);
    assert_eq!(ViewMode::Rows7.pages_per_view(f), 35);
    assert_eq!(ViewMode::Overview.pages_per_view(f), 23);
    assert_eq!(ViewMode::Overview.pages_per_view(fit(1, 1, 1, 0)), 1);
    assert!(ViewMode::Rows3.is_grid());
    assert!(ViewMode::Overview.is_grid());
    assert!(ViewMode::Spread.is_grid());
    assert!(!ViewMode::Manual.is_grid());
    assert!(!ViewMode::FitHeight.is_grid());
}

#[test]
fn canonical_page_is_group_start() {
    let f = fit(3, 6, 4, 24);
    assert_eq!(ViewMode::Rows2.canonical_page(13, f), 12);
    assert_eq!(ViewMode::Rows2.canonical_page(12, f), 12);
    assert_eq!(ViewMode::Spread.canonical_page(5, f), 4);
    assert_eq!(ViewMode::FitHeight.canonical_page(7, f), 7);
    assert_eq!(ViewMode::Overview.canonical_page(23, f), 0);
    // Canonicalising twice changes nothing.
    let once = ViewMode::Rows5.canonical_page(50, f);
    assert_eq!(once, 45);
    assert_eq!(ViewMode::Rows5.canonical_page(once, f), once);
}

#[test]
fn useful_chars_skip_whitespace_and_controls() {
    assert_eq!(useful_char_count("  ab\tc\n"), 3);
    assert_eq!(useful_char_count("x\u{7}y\u{a0}z"), 3);
    assert_eq!(useful_char_count(""), 0);
    assert_eq!(useful_char_count("æøå"), 3);
}

#[test]
fn ordered_selection_puts_earlier_point_first() {
    let a = SelectionPoint { page: 2, glyph: 1 };
    let b = SelectionPoint { page: 0, glyph: 9 };
    assert_eq!(ordered_selection(a, b), (b, a));
    assert_eq!(ordered_selection(b, a), (b, a));
    let c = SelectionPoint { page: 2, glyph: 0 };
    assert_eq!(ordered_selection(a, c), (c, a));
}

#[test]
fn selected_text_spans_pages_with_line_breaks() {
    let pages = vec![Some(chars("abc")), None, Some(chars("defg"))];
    let anchor = SelectionPoint { page: 2, glyph: 1 };
    let focus = SelectionPoint { page: 0, glyph: 1 };
    assert_eq!(selected_text(Some(anchor), Some(focus), &pages), Some("bc\nde".to_string()));
    // The same selection made in the other direction.
    assert_eq!(selected_text(Some(focus), Some(anchor), &pages), Some("bc\nde".to_string()));
}

#[test]
fn selected_text_clamps_the_end_and_reports_nothing_when_empty() {
    let pages = vec![Some(chars("hello"))];
    let a = SelectionPoint { page: 0, glyph: 3 };
    let b = SelectionPoint { page: 0, glyph: 99 };
    assert_eq!(selected_text(Some(a), Some(b), &pages), Some("lo".to_string()));
    let far = SelectionPoint { page: 0, glyph: 10 };
    assert_eq!(selected_text(Some(far), Some(b), &pages), None);
    assert_eq!(selected_text(None, Some(b), &pages), None);
    let missing = SelectionPoint { page: 4, glyph: 0 };
    assert_eq!(selected_text(Some(missing), Some(missing), &pages), None);
}

#[test]
fn snippet_collapses_whitespace_without_ellipsis_for_short_text() {
    let text = chars("Hello   brave\tnew world");
    let lower = chars("hello   brave\tnew world");
    let s = make_snippet(&text, &lower, 8, 5);
    assert_eq!(s, "Hello brave new world");
}

#[test]
fn snippet_marks_cut_text_with_ellipses() {
    let prefix = "x".repeat(40);
    let suffix = "y".repeat(60);
    let raw = format!("{prefix}needle{suffix}");
    let text = chars(&raw);
    let s = make_snippet(&text, &text, 40, 6);
    let expected = format!("\u{2026}{}needle{}\u{2026}", "x".repeat(34), "y".repeat(52));
    assert_eq!(s, expected);
}

#[test]
fn matches_are_leftmost_and_non_overlapping() {
    assert_eq!(find_matches(&chars("aaaa"), &chars("aa"), 10), vec![0, 2]);
    assert_eq!(find_matches(&chars("abcabcab"), &chars("abc"), 10), vec![0, 3]);
    assert_eq!(find_matches(&chars("aaaaaa"), &chars("a"), 4), vec![0, 1, 2, 3]);
    assert_eq!(find_matches(&chars("abc"), &chars("abcd"), 4), Vec::<usize>::new());
}

#[test]
fn search_is_case_insensitive_and_trims_the_query() {
    let texts = vec![Some("Alpha beta ALPHA".to_string()), None, Some("alphabet".to_string())];
    let hits = recompute_search("  alpha ", &texts).expect("snippets");
    let pages: Vec<usize> = hits.iter().map(|h| h.page).collect();
    assert_eq!(pages, vec![0, 0, 2]);
    assert_eq!(hits[0].snippet, "Alpha beta ALPHA");
    assert_eq!(hits[2].snippet, "alphabet");
}

#[test]
fn blank_query_finds_nothing() {
    let texts = vec![Some("anything".to_string())];
    assert_eq!(recompute_search("   ", &texts).map(|v| v.len()), Some(0));
    assert_eq!(recompute_search("zzz", &texts).map(|v| v.len()), Some(0));
}

#[test]
fn search_caps_matches_per_page() {
    let texts = vec![Some("a ".repeat(700)), Some("a".to_string())];
    let hits = recompute_search("a", &texts).expect("snippets");
    assert_eq!(hits.len(), 501);
    assert_eq!(hits[500].page, 1);
}

#[test]
fn search_result_navigation_wraps() {
    assert_eq!(next_search_result(0, None, false), None);
    assert_eq!(next_search_result(3, None, false), Some(0));
    assert_eq!(next_search_result(3, None, true), Some(2));
    assert_eq!(next_search_result(3, Some(2), false), Some(0));
    assert_eq!(next_search_result(3, Some(0), true), Some(2));
    assert_eq!(next_search_result(3, Some(1), true), Some(0));
    // Forward then back returns to the same result.
    let next = next_search_result(5, Some(4), false).unwrap();
    assert_eq!(next_search_result(5, Some(next), true), Some(4));
}
