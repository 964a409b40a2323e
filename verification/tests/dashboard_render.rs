use rexymcp::dashboard::render::{
    cells_of_line, clamp_scroll, row_to_line, visible_offset, wrap_line, wrap_lines_hanging, StyledSpan,
    PLAIN_STYLE,
};

const RED: u32 = 1;
const BLUE: u32 = 2;

fn span(text: &str, style: u32) -> StyledSpan {
    StyledSpan { text: text.to_string(), style }
}

fn row_text(row: &[StyledSpan]) -> String {
    row.iter().map(|s| s.text.as_str()).collect()
}

fn row_width(row: &[StyledSpan]) -> usize {
    row.iter().map(|s| s.text.chars().count()).sum()
}

#[test]
fn render_visible_offset_follows_tail() {
    assert_eq!(visible_offset(true, 0, 100, 20), 80);
    assert_eq!(visible_offset(true, 0, 10, 20), 0);
}

#[test]
fn render_visible_offset_manual_clamped() {
    assert_eq!(visible_offset(false, 999, 100, 20), 80);
    assert_eq!(visible_offset(false, 5, 100, 20), 5);
}

#[test]
fn render_clamp_scroll_bounds_to_last_line() {
    assert_eq!(clamp_scroll(5, 3), 2);
    assert_eq!(clamp_scroll(0, 0), 0);
    assert_eq!(clamp_scroll(10, 100), 10);
    assert_eq!(clamp_scroll(0, 1), 0);
}

#[test]
fn dashboard_visible_offset_follows_tail() {
    assert_eq!(visible_offset(true, 0, 100, 20), 80);
    assert_eq!(visible_offset(true, 0, 10, 20), 0);
}

#[test]
fn dashboard_visible_offset_manual_clamped() {
    assert_eq!(visible_offset(false, 999, 100, 20), 80);
    assert_eq!(visible_offset(false, 5, 100, 20), 5);
}

#[test]
fn dashboard_clamp_scroll_bounds_to_last_line() {
    assert_eq!(clamp_scroll(5, 3), 2);
    assert_eq!(clamp_scroll(0, 0), 0);
    assert_eq!(clamp_scroll(10, 100), 10);
    assert_eq!(clamp_scroll(0, 1), 0);
}

#[test]
fn clamp_scroll_and_visible_offset_saturate_at_u16() {
    assert_eq!(visible_offset(true, 0, 1_000_000, 10), u16::MAX - 10);
    assert_eq!(clamp_scroll(u16::MAX, 70_000), 4463);
}

#[test]
fn wrap_line_splits_long_line_into_rows() {
    let line = vec![span(&"a".repeat(25), RED)];
    let rows = wrap_line(&line, 10);
    assert_eq!(rows.len(), 3);
    let joined: String = rows.iter().map(|r| row_text(r)).collect();
    assert_eq!(joined, "a".repeat(25));
    assert_eq!(rows[0][0].style, RED);
}

#[test]
fn wrap_line_keeps_short_line_intact() {
    let line = vec![span("hello", PLAIN_STYLE)];
    let rows = wrap_line(&line, 10);
    assert_eq!(rows.len(), 1);
    assert_eq!(rows[0][0].text, "hello");
}

#[test]
fn wrap_line_zero_width_is_noop() {
    let line = vec![span("hel", RED), span("lo", RED)];
    let rows = wrap_line(&line, 0);
    assert_eq!(rows.len(), 1);
    assert_eq!(rows[0].len(), 2);
}

#[test]
fn wrap_line_preserves_multispan_styles() {
    let line = vec![span("aa", RED), span("bbbb", BLUE)];
    let rows = wrap_line(&line, 3);
    assert_eq!(rows.len(), 2);
    assert_eq!(rows[0].len(), 2);
    assert_eq!(rows[0][0].style, RED);
    assert_eq!(rows[0][1].style, BLUE);
    assert_eq!(rows[1].len(), 1);
    assert_eq!(rows[1][0].style, BLUE);
}

#[test]
fn wrap_line_breaks_on_word_boundary() {
    let line = vec![span("hello world foo", PLAIN_STYLE)];
    let rows = wrap_line(&line, 8);
    let texts: Vec<String> = rows.iter().map(|r| row_text(r)).collect();
    assert_eq!(texts, vec!["hello ", "world ", "foo"]);
}

#[test]
fn wrap_line_hard_splits_word_longer_than_width() {
    let line = vec![span("supercalifragi", PLAIN_STYLE)];
    let rows = wrap_line(&line, 8);
    assert_eq!(rows.len(), 2, "should produce 2 rows");
    let joined: String = rows.iter().map(|r| row_text(r)).collect();
    assert_eq!(joined, "supercalifragi");
}

#[test]
fn wrap_line_word_boundary_preserves_styles() {
    let line = vec![span("hello", RED), span(" ", PLAIN_STYLE), span("world", BLUE)];
    let rows = wrap_line(&line, 8);
    let world_row = rows.iter().find(|r| row_text(r).contains("world")).expect("a row with 'world'");
    let world_span = world_row.iter().find(|s| s.text.contains("world")).expect("a span with 'world'");
    assert_eq!(world_span.style, BLUE);
}

#[test]
fn row_to_line_merges_equal_styles() {
    let cells = vec![('a', RED), ('b', RED), ('c', BLUE), ('d', RED)];
    let spans = row_to_line(&cells);
    assert_eq!(spans.len(), 3);
    assert_eq!(spans[0].text, "ab");
    assert_eq!(spans[1].text, "c");
    assert_eq!(spans[2].text, "d");
    assert!(row_to_line(&Vec::new()).is_empty());
    assert_eq!(cells_of_line(&spans), cells);
}

#[test]
fn wrap_lines_hanging_no_row_exceeds_width() {
    let lines = vec![vec![span("short", PLAIN_STYLE)], vec![span(&"x".repeat(23), PLAIN_STYLE)]];
    let width = 10;
    let wrapped = wrap_lines_hanging(&lines, width, 0);
    for row in &wrapped {
        assert!(row_width(row) <= width);
    }
}

#[test]
fn wrap_lines_hanging_total_drives_follow_offset() {
    let lines = vec![vec![span("hdr", PLAIN_STYLE)], vec![span(&"x".repeat(25), PLAIN_STYLE)]];
    let total = wrap_lines_hanging(&lines, 10, 0).len();
    assert_eq!(total, 4);
    let viewport: u16 = 1;
    assert_eq!(visible_offset(true, 0, total, viewport), 3);
    assert_eq!(visible_offset(true, 0, lines.len(), viewport), 1);
}

#[test]
fn wrap_lines_hanging_first_row_has_no_indent() {
    let lines = vec![vec![span(&"x".repeat(25), PLAIN_STYLE)]];
    let rows = wrap_lines_hanging(&lines, 14, 4);
    assert_eq!(rows.len(), 3);
    assert_ne!(rows[0][0].text, "    ");
    assert_eq!(row_width(&rows[0]), 10);
}

#[test]
fn wrap_lines_hanging_continuations_are_indented() {
    let lines = vec![vec![span(&"x".repeat(25), PLAIN_STYLE)]];
    let rows = wrap_lines_hanging(&lines, 14, 4);
    assert_eq!(rows.len(), 3);
    for row in &rows[1..] {
        assert_eq!(row[0].text, "    ");
        let total = row_width(row);
        assert!(total <= 14);
        assert!(total > 4);
    }
}
