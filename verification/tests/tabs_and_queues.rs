use std::collections::HashSet;
use kvikk::indexing::{is_sparse, queue_text, OcrQueue};
use kvikk::tabs::{EventRoute, TabChange, TabRef, TabSet, CLOSED_TAB_HISTORY};

#[test]
fn opening_documents_creates_active_tabs_with_fresh_ids() {
    let mut tabs: TabSet<&'static str> = TabSet::new();
    let a = tabs.open_path("/docs/a.pdf".to_string(), "a".to_string(), None);
    assert_eq!(a, 1);
    assert_eq!(tabs.active_tab, Some(0));
    let b = tabs.open_path("/docs/b.pdf".to_string(), "b".to_string(), Some("state-a"));
    assert_eq!(b, 2);
    assert_eq!(tabs.active_tab, Some(1));
    assert_eq!(tabs.tabs[0].state, Some("state-a"));
    assert_eq!(tabs.tabs[1].state, None);
    assert_eq!(tabs.tabs[1].path.as_deref(), Some("/docs/b.pdf"));
}

#[test]
fn document_ids_skip_zero_when_they_wrap() {
    let mut tabs: TabSet<u8> = TabSet::new();
    tabs.next_doc_id = u64::MAX;
    let id = tabs.open_path("x.pdf".to_string(), "x".to_string(), None);
    assert_eq!(id, 1);
}

#[test]
fn opening_into_a_new_empty_tab_fills_it() {
    let mut tabs: TabSet<u8> = TabSet::new();
    tabs.open_path("a.pdf".to_string(), "a".to_string(), None);
    tabs.new_tab(Some(7));
    assert_eq!(tabs.tabs.len(), 2);
    assert_eq!(tabs.tabs[1].title, "New Tab");
    assert!(tabs.replaces_blank());
    let id = tabs.open_path("b.pdf".to_string(), "b".to_string(), None);
    assert_eq!(tabs.tabs.len(), 2);
    assert_eq!(tabs.active_tab, Some(1));
    assert_eq!(tabs.tabs[1].doc_id, id);
    assert_eq!(tabs.tabs[1].title, "b");
}

#[test]
fn closing_then_reopening_restores_the_tab() {
    let mut tabs: TabSet<&'static str> = TabSet::new();
    tabs.open_path("a.pdf".to_string(), "a".to_string(), None);
    tabs.open_path("b.pdf".to_string(), "b".to_string(), Some("reading-a"));
    let (change, forgotten) = tabs.close_current_tab("reading-b");
    assert_eq!(forgotten, None);
    assert!(matches!(change, TabChange::Restore("reading-a")));
    assert_eq!(tabs.active_tab, Some(0));
    assert_eq!(tabs.closed_tabs.len(), 1);
    let change = tabs.reopen_closed_tab(Some("reading-a-later"));
    assert!(matches!(change, TabChange::Restore("reading-b")));
    assert_eq!(tabs.active_tab, Some(1));
    assert_eq!(tabs.tabs[1].title, "b");
    assert_eq!(tabs.tabs[0].state, Some("reading-a-later"));
    assert!(tabs.closed_tabs.is_empty());
}

#[test]
fn closing_the_last_tab_leaves_a_blank_viewer() {
    let mut tabs: TabSet<u8> = TabSet::new();
    tabs.new_tab(None);
    let (change, _) = tabs.close_current_tab(1);
    assert!(matches!(change, TabChange::Blank));
    assert_eq!(tabs.active_tab, None);
    // Empty tabs are not remembered for reopening.
    assert!(tabs.closed_tabs.is_empty());
}

#[test]
fn closed_history_forgets_the_oldest_beyond_its_cap() {
    let mut tabs: TabSet<usize> = TabSet::new();
    let mut forgotten = Vec::new();
    for i in 0..(CLOSED_TAB_HISTORY + 2) {
        let live = if tabs.has_active() { Some(i) } else { None };
        let id = tabs.open_path(format!("{i}.pdf"), format!("{i}"), live);
        assert_eq!(id, i as u64 + 1);
        let (_, f) = tabs.close_current_tab(i);
        if let Some(doc) = f {
            forgotten.push(doc);
        }
    }
    assert_eq!(tabs.closed_tabs.len(), CLOSED_TAB_HISTORY);
    assert_eq!(forgotten, vec![1, 2]);
    assert_eq!(tabs.closed_tabs[0].doc_id, 3);
}

#[test]
fn switching_away_and_back_returns_the_saved_state() {
    let mut tabs: TabSet<&'static str> = TabSet::new();
    tabs.open_path("a.pdf".to_string(), "a".to_string(), None);
    tabs.open_path("b.pdf".to_string(), "b".to_string(), Some("a-state"));
    assert!(tabs.can_switch_to(0));
    assert!(!tabs.can_switch_to(1));
    assert!(!tabs.can_switch_to(5));
    let restored = tabs.switch_tab(0, "b-state");
    assert_eq!(restored, "a-state");
    let back = tabs.switch_tab(1, "a-state-2");
    assert_eq!(back, "b-state");
    // Switching to the active tab or to no tab changes nothing.
    assert_eq!(tabs.switch_tab(1, "live"), "live");
    assert_eq!(tabs.switch_tab(9, "live"), "live");
    assert_eq!(tabs.active_tab, Some(1));
}

#[test]
fn tab_shortcuts_pick_position_or_last_tab() {
    let mut tabs: TabSet<u8> = TabSet::new();
    assert_eq!(tabs.switch_tab_shortcut(1), None);
    tabs.open_path("a.pdf".to_string(), "a".to_string(), None);
    tabs.open_path("b.pdf".to_string(), "b".to_string(), Some(0));
    tabs.open_path("c.pdf".to_string(), "c".to_string(), Some(0));
    assert_eq!(tabs.switch_tab_shortcut(1), Some(0));
    assert_eq!(tabs.switch_tab_shortcut(3), Some(2));
    assert_eq!(tabs.switch_tab_shortcut(4), None);
    assert_eq!(tabs.switch_tab_shortcut(9), Some(2));
}

#[test]
fn worker_messages_reach_the_right_tab() {
    let mut tabs: TabSet<u8> = TabSet::new();
    let a = tabs.open_path("a.pdf".to_string(), "a".to_string(), None);
    let b = tabs.open_path("b.pdf".to_string(), "b".to_string(), Some(1));
    let _ = tabs.close_current_tab(2);
    assert_eq!(tabs.route_event(a, a, false), EventRoute::Active);
    assert_eq!(tabs.route_event(0, a, true), EventRoute::Active);
    assert_eq!(tabs.route_event(b, a, false), EventRoute::Tab(TabRef::Closed(0)));
    assert_eq!(tabs.route_event(99, a, false), EventRoute::Unknown);
    assert_eq!(tabs.find_doc(a), Some(TabRef::Open(0)));
}

#[test]
fn ocr_queue_accepts_each_page_once_and_runs_one_job() {
    let mut q = OcrQueue::new();
    let mut done = HashSet::new();
    q.queue_ocr(3, 10, true, &done);
    q.queue_ocr(3, 10, true, &done);
    q.queue_ocr(4, 10, true, &done);
    q.queue_ocr(12, 10, true, &done);
    q.queue_ocr(5, 10, false, &done);
    assert_eq!(q.queued.iter().copied().collect::<Vec<_>>(), vec![3, 4]);
    assert_eq!(q.dispatch_ocr(), Some(3));
    assert_eq!(q.dispatch_ocr(), None);
    q.queue_ocr(3, 10, true, &done);
    assert_eq!(q.queued.len(), 1);
    q.ocr_finished(3, &mut done);
    assert!(done.contains(&3));
    assert_eq!(q.dispatch_ocr(), Some(4));
    q.queue_ocr(3, 10, true, &done);
    assert_eq!(q.queued.len(), 0);
}

#[test]
fn text_requests_are_sent_once() {
    let mut requested = HashSet::new();
    assert!(queue_text(&mut requested, 2, 5, false));
    assert!(!queue_text(&mut requested, 2, 5, false));
    assert!(!queue_text(&mut requested, 3, 5, true));
    assert!(!queue_text(&mut requested, 7, 5, false));
}

#[test]
fn sparse_threshold_is_forty_eight_chars() {
    assert!(is_sparse(47));
    assert!(!is_sparse(48));
}

#[test]
fn indexing_step_requests_text_and_starts_ocr() {
    let mut q = OcrQueue::new();
    let mut requested = HashSet::new();
    let done = HashSet::new();
    let mut cursor = 0usize;
    // Page 0: sparse text; page 1: full text; pages 2..: unknown.
    let counts = vec![Some(3), Some(500), None, None, None, None, None, None, None, None];
    let step = q.pump_indexing(true, true, 10, &mut cursor, &counts, &mut requested, true, &done);
    assert_eq!(step.text_pages, vec![2, 3, 4, 5, 6, 7]);
    assert_eq!(step.ocr_page, Some(0));
    assert_eq!(cursor, 8);
    let step = q.pump_indexing(true, true, 10, &mut cursor, &counts, &mut requested, true, &done);
    assert_eq!(step.text_pages, vec![8, 9]);
    assert_eq!(step.ocr_page, None);
    assert_eq!(cursor, 10);
    // Closed search bar: nothing happens.
    let mut c2 = 0usize;
    let step = q.pump_indexing(false, true, 10, &mut c2, &counts, &mut requested, true, &done);
    assert!(step.text_pages.is_empty());
    assert_eq!(c2, 0);
}

#[test]
fn opening_search_queues_sparse_pages_and_text_arrival_adds_more() {
    let mut q = OcrQueue::new();
    let done = HashSet::new();
    let counts = vec![Some(0), Some(100), Some(10), None];
    q.queue_sparse_pages(4, &counts, true, &done);
    assert_eq!(q.queued.iter().copied().collect::<Vec<_>>(), vec![0, 2]);
    let mut requested: HashSet<usize> = [3].into_iter().collect();
    assert!(q.text_ready(&mut requested, 3, 5, 4, true, 4, true, &done));
    assert!(requested.is_empty());
    assert_eq!(q.queued.iter().copied().collect::<Vec<_>>(), vec![0, 2, 3]);
    assert!(!q.text_ready(&mut requested, 9, 5, 4, true, 4, true, &done));
}
