use std::collections::HashSet;
use kvikk::layout::{crop_for_page, fixed_row_columns, grid_rows, locate_page, row_for_page, GridRow};
use kvikk::model::{GridFit, LinkTarget, ViewMode};
use kvikk::navigation::{
    clamp_page, command_for_key, goto_page_plan, next_page_target, parse_usize, shortcut_for, speed_faster,
    speed_slower, speed_tenths, GotoBuffer, GotoPlan, KeyCommand, KeyOutcome, Shortcut, ShortcutKeys,
    DEFAULT_SPEED_LEVEL, SPEED_LEVEL_COUNT,
};
use kvikk::platform::{
    document_title, enqueue_open, eq_ignore_ascii_case_exec, fallback_title, is_openable_url, is_pdf,
    is_pdf_extension, link_target, string_has_text, take_open_paths, title_from, title_from_stem, window_title,
    OpenQueue,
};
use kvikk::render::{
    best_bitmap_key, dense_grid, desired_render_width, prune_plan, render_is_current, render_target_width,
    CacheEntry, RenderBook,
};

const FIT: GridFit = GridFit { row_mode_cols: 1, overview_cols: 1, overview_rows: 1, page_count: 5 };

#[test]
fn crop_is_used_only_when_enabled_and_known() {
    let crops = vec![Some(5u8), None];
    assert_eq!(crop_for_page(&crops, true, 0, 0), 5);
    assert_eq!(crop_for_page(&crops, true, 1, 0), 0);
    assert_eq!(crop_for_page(&crops, true, 7, 0), 0);
    assert_eq!(crop_for_page(&crops, false, 0, 0), 0);
}

#[test]
fn grid_rows_fill_groups_in_reading_order() {
    let rows = grid_rows(7, 3, 2);
    assert_eq!(
        rows,
        vec![
            GridRow { group: 0, row_in_group: 0, first_page: 0, count: 3 },
            GridRow { group: 0, row_in_group: 1, first_page: 3, count: 3 },
            GridRow { group: 1, row_in_group: 0, first_page: 6, count: 1 },
        ]
    );
    assert!(grid_rows(0, 2, 1).is_empty());
    let spread = grid_rows(5, 2, 1);
    assert_eq!(spread.len(), 3);
    assert_eq!(spread[2], GridRow { group: 2, row_in_group: 0, first_page: 4, count: 1 });
}

#[test]
fn pages_are_found_in_layout_rows() {
    let rows = vec![vec![0, 1], vec![2, 3], vec![4]];
    assert_eq!(row_for_page(&rows, 3), Some(1));
    assert_eq!(row_for_page(&rows, 9), None);
    assert_eq!(locate_page(&rows, 4), Some((2, 0)));
    assert_eq!(locate_page(&rows, 1), Some((0, 1)));
    assert_eq!(locate_page(&rows, 5), None);
}

#[test]
fn typed_keys_map_to_commands() {
    assert_eq!(command_for_key('g'), KeyCommand::StartGoto);
    assert_eq!(command_for_key('G'), KeyCommand::StartGoto);
    assert_eq!(command_for_key('K'), KeyCommand::TogglePlay);
    assert_eq!(command_for_key('p'), KeyCommand::TogglePacerMode);
    assert_eq!(command_for_key('0'), KeyCommand::ResetZoom);
    assert_eq!(command_for_key('1'), KeyCommand::SetMode(ViewMode::FitWidth));
    assert_eq!(command_for_key('2'), KeyCommand::SetMode(ViewMode::FitHeight));
    assert_eq!(command_for_key('3'), KeyCommand::SetMode(ViewMode::Spread));
    assert_eq!(command_for_key('4'), KeyCommand::SetMode(ViewMode::Rows2));
    assert_eq!(command_for_key('5'), KeyCommand::SetMode(ViewMode::Rows3));
    assert_eq!(command_for_key('6'), KeyCommand::SetMode(ViewMode::Rows4));
    assert_eq!(command_for_key('7'), KeyCommand::SetMode(ViewMode::Rows5));
    assert_eq!(command_for_key('8'), KeyCommand::SetMode(ViewMode::Rows7));
    assert_eq!(command_for_key('9'), KeyCommand::SetMode(ViewMode::Overview));
    assert_eq!(command_for_key('='), KeyCommand::ZoomIn);
    assert_eq!(command_for_key('\u{2212}'), KeyCommand::ZoomOut);
    assert_eq!(command_for_key('/'), KeyCommand::OpenSearch);
    assert_eq!(command_for_key('z'), KeyCommand::Nothing);
}

#[test]
fn goto_g45_goes_to_page_45() {
    let mut g = GotoBuffer::new();
    assert_eq!(g.type_char('g'), KeyOutcome::Command { goto: None, command: KeyCommand::StartGoto });
    assert_eq!(g.type_char('4'), KeyOutcome::GotoDigit);
    assert_eq!(g.type_char('5'), KeyOutcome::GotoDigit);
    // Any other key ends the entry and then does its own job.
    assert_eq!(g.type_char('i'), KeyOutcome::Command { goto: Some(44), command: KeyCommand::ToggleInvert });
    assert!(!g.active);
    assert_eq!(g.type_char('?'), KeyOutcome::ShowHelp);
}

#[test]
fn goto_entry_ends_on_timeout_and_handles_zero() {
    let mut g = GotoBuffer::new();
    g.start();
    g.type_char('0');
    assert_eq!(g.commit(), Some(0));
    g.start();
    assert_eq!(g.commit(), None);
    assert_eq!(g.commit(), None);
}

#[test]
fn page_numbers_parse_like_usize() {
    let p = |s: &str| parse_usize(&s.chars().collect());
    assert_eq!(p("45"), Some(45));
    assert_eq!(p("+7"), Some(7));
    assert_eq!(p("007"), Some(7));
    assert_eq!(p(""), None);
    assert_eq!(p("+"), None);
    assert_eq!(p("4a"), None);
    assert_eq!(p("99999999999999999999999"), None);
    assert_eq!(p(&usize::MAX.to_string()), Some(usize::MAX));
}

#[test]
fn goto_clamps_and_lands_on_group_start() {
    assert_eq!(clamp_page(5, 0), None);
    assert_eq!(clamp_page(5, 3), Some(2));
    let rows = vec![vec![0, 1], vec![2, 3], vec![4]];
    assert_eq!(goto_page_plan(ViewMode::Spread, FIT, 3, 5, false, &rows), GotoPlan::ScrollToRow { row: 1, page: 2 });
    assert_eq!(goto_page_plan(ViewMode::Spread, FIT, 99, 5, false, &rows), GotoPlan::ScrollToRow { row: 2, page: 4 });
    assert_eq!(goto_page_plan(ViewMode::Spread, FIT, 3, 5, true, &rows), GotoPlan::Defer(3));
    assert_eq!(goto_page_plan(ViewMode::Spread, FIT, 3, 0, false, &rows), GotoPlan::Nothing);
    assert_eq!(goto_page_plan(ViewMode::Spread, FIT, 3, 5, false, &vec![]), GotoPlan::Relayout(3));
}

#[test]
fn space_moves_by_page_groups() {
    // Two rows of three columns: groups of six pages.
    let f = GridFit { row_mode_cols: 3, overview_cols: 5, overview_rows: 4, page_count: 20 };
    assert_eq!(next_page_target(ViewMode::Rows2, f, 0, 20, false), Some(6));
    assert_eq!(next_page_target(ViewMode::Rows2, f, 18, 20, false), None);
    assert_eq!(next_page_target(ViewMode::Rows2, f, 12, 20, false), Some(18));
    assert_eq!(next_page_target(ViewMode::Rows2, f, 6, 20, true), Some(0));
    assert_eq!(next_page_target(ViewMode::FitWidth, f, 0, 20, true), None);
    assert_eq!(next_page_target(ViewMode::FitWidth, f, 19, 20, false), None);
    assert_eq!(next_page_target(ViewMode::FitWidth, f, 3, 20, false), Some(4));
    // The overview shows the whole document: Space goes nowhere.
    assert_eq!(next_page_target(ViewMode::Overview, f, 0, 20, false), None);
    assert_eq!(next_page_target(ViewMode::Overview, f, 0, 20, true), None);
}

#[test]
fn fixed_row_modes_fit_columns_to_window_and_document() {
    assert_eq!(fixed_row_columns(5, 100, 2), 5);
    assert_eq!(fixed_row_columns(12, 10, 2), 5);
    assert_eq!(fixed_row_columns(12, 11, 2), 6);
    assert_eq!(fixed_row_columns(0, 100, 3), 1);
    assert_eq!(fixed_row_columns(4, 0, 0), 1);
}

#[test]
fn pacer_speed_index_stays_in_range() {
    assert_eq!(speed_slower(0), 0);
    assert_eq!(speed_slower(5), 4);
    assert_eq!(speed_faster(SPEED_LEVEL_COUNT - 1), SPEED_LEVEL_COUNT - 1);
    assert_eq!(speed_faster(30), 31);
    assert_eq!(speed_faster(35), 36);
}

#[test]
fn pacer_ladder_defaults_to_15_and_tops_out_at_1250() {
    assert_eq!(SPEED_LEVEL_COUNT, 37);
    assert_eq!(speed_tenths(DEFAULT_SPEED_LEVEL), 150);
    assert_eq!(speed_tenths(0), 5);
    assert_eq!(speed_tenths(SPEED_LEVEL_COUNT - 1), 12500);
    assert_eq!(speed_tenths(32), 5500);
    assert_eq!(speed_tenths(33), 6500);
    for level in 1..SPEED_LEVEL_COUNT {
        assert!(speed_tenths(level - 1) < speed_tenths(level));
    }
}

#[test]
fn command_shortcuts_follow_their_precedence() {
    let none = ShortcutKeys { command: false, shift: false, tab: false, t: false, w: false, k: false, o: false, f: false, digit: None };
    let cmd = ShortcutKeys { command: true, ..none };
    assert_eq!(shortcut_for(ShortcutKeys { t: true, ..none }), Shortcut::Nothing);
    assert_eq!(shortcut_for(ShortcutKeys { shift: true, tab: true, ..cmd }), Shortcut::ReopenClosedTab);
    assert_eq!(shortcut_for(ShortcutKeys { shift: true, t: true, ..cmd }), Shortcut::ReopenClosedTab);
    assert_eq!(shortcut_for(ShortcutKeys { t: true, w: true, ..cmd }), Shortcut::NewTab);
    assert_eq!(shortcut_for(ShortcutKeys { w: true, digit: Some(2), ..cmd }), Shortcut::CloseTab);
    assert_eq!(shortcut_for(ShortcutKeys { digit: Some(9), k: true, ..cmd }), Shortcut::SwitchTab(9));
    assert_eq!(shortcut_for(ShortcutKeys { k: true, o: true, ..cmd }), Shortcut::ToggleCrop);
    assert_eq!(shortcut_for(ShortcutKeys { o: true, f: true, ..cmd }), Shortcut::OpenPdf);
    assert_eq!(shortcut_for(ShortcutKeys { f: true, ..cmd }), Shortcut::OpenSearch);
    assert_eq!(shortcut_for(ShortcutKeys { shift: true, ..cmd }), Shortcut::Nothing);
}

#[test]
fn render_widths_are_quantised_and_clamped() {
    assert_eq!(desired_render_width(100, false), 128);
    assert_eq!(desired_render_width(128, false), 128);
    assert_eq!(desired_render_width(10, false), 96);
    assert_eq!(desired_render_width(10, true), 32);
    assert_eq!(desired_render_width(33, true), 64);
    assert_eq!(desired_render_width(9000, false), 8192);
    assert_eq!(desired_render_width(u32::MAX, true), 8192);
    assert_eq!(render_target_width(10), 64);
    assert_eq!(render_target_width(100_000), 8192);
    let f = GridFit { row_mode_cols: 6, overview_cols: 3, overview_rows: 2, page_count: 6 };
    assert!(dense_grid(ViewMode::Rows7, f));
    assert!(!dense_grid(ViewMode::Rows5, f));
    assert!(dense_grid(ViewMode::Overview, f));
    assert!(!dense_grid(ViewMode::Spread, f));
}

#[test]
fn best_bitmap_prefers_narrowest_wide_enough() {
    let keys = vec![(1, 256), (1, 512), (2, 1024), (1, 128)];
    assert_eq!(best_bitmap_key(&keys, 1, 300), Some((1, 512)));
    assert_eq!(best_bitmap_key(&keys, 1, 600), Some((1, 512)));
    assert_eq!(best_bitmap_key(&keys, 1, 200), Some((1, 256)));
    assert_eq!(best_bitmap_key(&keys, 3, 200), None);
}

#[test]
fn pruning_drops_least_recently_used_hidden_bitmaps() {
    let entries = vec![
        CacheEntry { page: 0, last_used: 5, bytes: 40 },
        CacheEntry { page: 1, last_used: 1, bytes: 40 },
        CacheEntry { page: 2, last_used: 3, bytes: 40 },
        CacheEntry { page: 3, last_used: 0, bytes: 40 },
    ];
    let visible: HashSet<usize> = [3].into_iter().collect();
    assert_eq!(prune_plan(90, &entries, &visible, 100), vec![1, 2]);
    assert_eq!(prune_plan(91, &entries, &visible, 100), Vec::<usize>::new());
    assert_eq!(prune_plan(180, &entries, &visible, 200), Vec::<usize>::new());
    assert_eq!(prune_plan(0, &entries, &visible, 0), vec![1, 2, 0]);
}

#[test]
fn pdf_paths_are_recognised_by_extension() {
    assert!(is_pdf("/home/me/Paper.PDF"));
    assert!(is_pdf("book.pdf"));
    assert!(!is_pdf("notes.txt"));
    assert!(!is_pdf(".pdf"));
    assert!(!is_pdf("archive.pdf.zip"));
    assert!(!is_pdf("pdf"));
}

#[test]
fn open_requests_come_back_in_order() {
    let mut q = OpenQueue::new();
    enqueue_open(&mut q, "a.pdf".to_string());
    enqueue_open(&mut q, "b.pdf".to_string());
    assert_eq!(take_open_paths(&mut q), vec!["a.pdf".to_string(), "b.pdf".to_string()]);
    assert!(take_open_paths(&mut q).is_empty());
}

#[test]
fn titles_fall_back_sensibly() {
    assert_eq!(fallback_title("papers/report.pdf"), "report");
    assert_eq!(fallback_title("papers/  .pdf"), "PDF");
    assert_eq!(fallback_title(""), "PDF");
    assert_eq!(document_title(Some("  A Title \n".to_string()), "x/file.pdf"), "A Title");
    assert_eq!(document_title(Some("   ".to_string()), "x/file.pdf"), "file");
    assert_eq!(document_title(None, ""), "kvikk pdf");
    let t = "Report".to_string();
    assert_eq!(window_title(Some(&t)), "Report \u{2014} kvikk pdf");
    let blank = " ".to_string();
    assert_eq!(window_title(Some(&blank)), "kvikk pdf");
    let same = "kvikk pdf".to_string();
    assert_eq!(window_title(Some(&same)), "kvikk pdf");
    assert_eq!(window_title(None), "kvikk pdf");
}

#[test]
fn only_web_and_mail_links_are_opened() {
    assert!(is_openable_url("https://example.org"));
    assert!(is_openable_url("HTTP://example.org"));
    assert!(is_openable_url("MailTo:someone@example.org"));
    assert!(!is_openable_url("javascript:alert(1)"));
    assert!(!is_openable_url("file:///etc/passwd"));
    assert!(!is_openable_url("http:/"));
}

#[test]
fn link_destinations_take_precedence() {
    assert!(matches!(link_target(Some(3), Some("https://x".to_string()), Some(9)), Some(LinkTarget::Page(3))));
    assert!(matches!(link_target(None, Some("https://x".to_string()), Some(9)), Some(LinkTarget::Url(u)) if u == "https://x"));
    assert!(matches!(link_target(None, Some("  ".to_string()), Some(9)), Some(LinkTarget::Page(9))));
    assert!(link_target(None, None, None).is_none());
}

#[test]
fn title_helpers_work_from_the_extracted_path_parts() {
    assert!(is_pdf_extension(Some("PdF".to_string())));
    assert!(!is_pdf_extension(Some("pdfx".to_string())));
    assert!(!is_pdf_extension(None));
    assert!(eq_ignore_ascii_case_exec(&"AbC".chars().collect(), &"aBc".chars().collect()));
    assert!(!eq_ignore_ascii_case_exec(&"ab".chars().collect(), &"abc".chars().collect()));
    assert!(string_has_text(&" x ".to_string()));
    assert!(!string_has_text(&" \t\u{3000}".to_string()));
    assert_eq!(title_from_stem(Some("notes".to_string())), "notes");
    assert_eq!(title_from_stem(Some(" ".to_string())), "PDF");
    assert_eq!(title_from_stem(None), "PDF");
    assert_eq!(title_from(Some(" T ".to_string()), Some("s".to_string())), "T");
    assert_eq!(title_from(Some("\n".to_string()), Some("s".to_string())), "s");
    assert_eq!(title_from(None, None), "kvikk pdf");
}

#[test]
fn open_queue_keeps_any_path_type() {
    let mut q: OpenQueue<std::path::PathBuf> = OpenQueue::new();
    enqueue_open(&mut q, std::path::PathBuf::from("x.pdf"));
    assert_eq!(take_open_paths(&mut q), vec![std::path::PathBuf::from("x.pdf")]);
}

#[test]
fn render_requests_are_sent_once_and_stale_answers_dropped() {
    let mut book = RenderBook::new(7);
    assert!(book.request((1, 512), false));
    assert!(!book.request((1, 512), false));
    assert!(!book.request((2, 512), true));
    assert_eq!(book.in_flight, vec![(1, 512)]);
    // An answer for another document or an old generation is dropped.
    assert!(!book.on_result(3, 4, 7, (1, 512), true));
    assert!(!book.on_result(3, 3, 6, (1, 512), true));
    assert_eq!(book.in_flight, vec![(1, 512)]);
    // A current failure ends the request and is not asked again.
    assert!(book.on_result(3, 3, 7, (1, 512), false));
    assert!(book.in_flight.is_empty());
    assert_eq!(book.failed, vec![(1, 512)]);
    assert!(!book.request((1, 512), false));
    // A current success ends the request without marking it failed.
    assert!(book.request((2, 256), false));
    assert!(book.on_result(3, 3, 7, (2, 256), true));
    assert!(book.in_flight.is_empty());
    assert_eq!(book.failed, vec![(1, 512)]);
    // A new generation forgets everything; old answers no longer count.
    assert!(book.request((5, 64), false));
    book.invalidate(8);
    assert!(book.in_flight.is_empty() && book.failed.is_empty());
    assert_eq!(book.generation, 8);
    assert!(!book.on_result(3, 3, 7, (5, 64), true));
    assert!(book.request((1, 512), false));
    book.forget();
    assert!(book.in_flight.is_empty());
    assert_eq!(book.generation, 8);
}

#[test]
fn renderer_skips_commands_for_other_documents_or_generations() {
    assert!(render_is_current(2, 9, 2, 9));
    assert!(!render_is_current(2, 8, 2, 9));
    assert!(!render_is_current(1, 9, 2, 9));
}
