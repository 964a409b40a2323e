use rexymcp::dashboard::event_loop::{handle_key, BudgetDisplay, Key, KeyOutcome, LoopState};
use rexymcp::dashboard::filter::{ActivityFilter, EventKind, FilterState, FILTER_ITEM_COUNT};

#[test]
fn filter_filter_default_disables_progress() {
    let f = ActivityFilter::default();
    assert!(!f.progress, "progress should be disabled by default");
    assert!(f.session);
    assert!(f.prompt);
    assert!(f.completion);
    assert!(f.tool_call);
    assert!(f.parse_failed);
    assert!(f.tool_result);
    assert!(f.verify);
    assert!(f.hard_fail);
    assert!(f.metrics);
    assert!(f.compaction);
    assert!(f.output_filtered);
    assert!(f.read_evicted);
    assert!(f.read_deduped);
}

#[test]
fn dashboard_filter_default_disables_progress() {
    let f = ActivityFilter::default();
    assert!(!f.progress, "progress should be disabled by default");
    assert!(f.session);
    assert!(f.prompt);
    assert!(f.completion);
    assert!(f.tool_call);
    assert!(f.parse_failed);
    assert!(f.tool_result);
    assert!(f.verify);
    assert!(f.hard_fail);
    assert!(f.metrics);
    assert!(f.compaction);
}

#[test]
fn dashboard_filter_allows_progress_when_enabled() {
    let f = ActivityFilter { progress: true, ..Default::default() };
    assert!(f.allows(EventKind::Progress));
}

#[test]
fn filter_filter_allows_progress_when_enabled() {
    let f = ActivityFilter { progress: true, ..Default::default() };
    assert!(f.allows(EventKind::Progress));
}

#[test]
fn dashboard_filter_blocks_progress_by_default() {
    let f = ActivityFilter::default();
    assert!(!f.allows(EventKind::Progress));
    assert!(f.allows(EventKind::SessionStart));
    assert!(f.allows(EventKind::SessionEnd));
}

#[test]
fn filter_filter_blocks_progress_by_default() {
    let f = ActivityFilter::default();
    assert!(!f.allows(EventKind::Progress));
    assert!(f.allows(EventKind::SessionStart));
    assert!(f.allows(EventKind::SessionEnd));
}

#[test]
fn filter_filter_toggle_flips_field() {
    let mut f = ActivityFilter::default();
    assert!(!f.progress);
    f.toggle(8);
    assert!(f.progress);
    f.toggle(8);
    assert!(!f.progress);
}

#[test]
fn dashboard_filter_toggle_flips_field() {
    let mut f = ActivityFilter::default();
    assert!(!f.progress);
    f.toggle(8);
    assert!(f.progress);
    f.toggle(8);
    assert!(!f.progress);
}

#[test]
fn filter_toggle_out_of_range_changes_nothing() {
    let mut f = ActivityFilter::default();
    f.toggle(FILTER_ITEM_COUNT);
    assert_eq!(f, ActivityFilter::default());
    assert!(!f.is_enabled(FILTER_ITEM_COUNT));
    assert_eq!(ActivityFilter::item_label(FILTER_ITEM_COUNT), "?");
}

#[test]
fn filter_toggle_flips_only_its_item() {
    let mut f = ActivityFilter::default();
    f.toggle(0);
    assert!(!f.session);
    assert!(!f.allows(EventKind::SessionEnd));
    for i in 1..FILTER_ITEM_COUNT {
        assert_eq!(f.is_enabled(i), i != 8);
    }
}

#[test]
fn filter_item_labels() {
    assert_eq!(ActivityFilter::item_label(0), "session start/end");
    assert_eq!(ActivityFilter::item_label(8), "progress");
    assert_eq!(ActivityFilter::item_label(13), "read deduped");
}

#[test]
fn filter_filter_cursor_wraps_forward() {
    let mut fs = FilterState::default();
    fs.cursor = FILTER_ITEM_COUNT - 1;
    fs.cursor = (fs.cursor + 1) % FILTER_ITEM_COUNT;
    assert_eq!(fs.cursor, 0);
}

#[test]
fn filter_filter_cursor_wraps_backward() {
    let mut fs = FilterState::default();
    fs.cursor = 0;
    fs.cursor = (fs.cursor + FILTER_ITEM_COUNT - 1) % FILTER_ITEM_COUNT;
    assert_eq!(fs.cursor, FILTER_ITEM_COUNT - 1);
}

#[test]
fn dashboard_filter_cursor_wraps_forward() {
    let mut fs = FilterState::default();
    fs.cursor = FILTER_ITEM_COUNT - 1;
    fs.cursor = (fs.cursor + 1) % FILTER_ITEM_COUNT;
    assert_eq!(fs.cursor, 0);
}

#[test]
fn dashboard_filter_cursor_wraps_backward() {
    let mut fs = FilterState::default();
    fs.cursor = 0;
    fs.cursor = (fs.cursor + FILTER_ITEM_COUNT - 1) % FILTER_ITEM_COUNT;
    assert_eq!(fs.cursor, FILTER_ITEM_COUNT - 1);
}

#[test]
fn filter_state_cursor_methods_wrap() {
    let mut fs = FilterState::default();
    fs.cursor_up();
    assert_eq!(fs.cursor, FILTER_ITEM_COUNT - 1);
    fs.cursor_down();
    assert_eq!(fs.cursor, 0);
}

fn fresh_state() -> LoopState {
    LoopState { offset: 0, follow: true, filter: FilterState::default(), budget_display: BudgetDisplay::Dollars }
}

#[test]
fn keys_scroll_and_follow() {
    let mut st = fresh_state();
    assert_eq!(handle_key(&mut st, Key::Down), KeyOutcome::Continue);
    assert!(!st.follow);
    assert_eq!(st.offset, 1);
    handle_key(&mut st, Key::PageDown);
    assert_eq!(st.offset, 11);
    handle_key(&mut st, Key::PageUp);
    handle_key(&mut st, Key::PageUp);
    assert_eq!(st.offset, 0);
    handle_key(&mut st, Key::Up);
    assert_eq!(st.offset, 0);
    handle_key(&mut st, Key::End);
    assert!(st.follow);
    handle_key(&mut st, Key::Home);
    assert!(!st.follow);
    assert_eq!(st.offset, 0);
    st.offset = u16::MAX - 3;
    handle_key(&mut st, Key::PageDown);
    assert_eq!(st.offset, u16::MAX);
}

#[test]
fn keys_open_filter_toggle_and_close() {
    let mut st = fresh_state();
    handle_key(&mut st, Key::Char('f'));
    assert!(st.filter.open);
    assert_eq!(st.filter.cursor, 0);
    handle_key(&mut st, Key::Char('k'));
    assert_eq!(st.filter.cursor, FILTER_ITEM_COUNT - 1);
    handle_key(&mut st, Key::Char(' '));
    assert!(!st.filter.filter.read_deduped);
    // 'q' does not quit while the panel is open.
    assert_eq!(handle_key(&mut st, Key::Char('q')), KeyOutcome::Continue);
    handle_key(&mut st, Key::Esc);
    assert!(!st.filter.open);
    assert!(!st.filter.filter.read_deduped);
    assert_eq!(handle_key(&mut st, Key::Char('q')), KeyOutcome::Quit);
}

#[test]
fn keys_budget_display_switches() {
    let mut st = fresh_state();
    handle_key(&mut st, Key::Char('b'));
    assert_eq!(st.budget_display, BudgetDisplay::Tokens);
    handle_key(&mut st, Key::Char('b'));
    assert_eq!(st.budget_display, BudgetDisplay::Dollars);
    assert_eq!(handle_key(&mut st, Key::Esc), KeyOutcome::Quit);
}
