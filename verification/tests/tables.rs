use tablestream::LiveTable;
use tablestream::StreamingTable;
use tablestream::separator::make_separator;

#[test]
fn separator_identical_groups_only_both_glyphs() {
    let s = make_separator(&[3, 2], &[3, 2], "├", "─", "┴", "┬", "┼", "┤");
    assert_eq!(s, "├───┼──┤\n");
    assert!(!s.contains('┴'));
    assert!(!s.contains('┬'));
}

#[test]
fn separator_one_sided_boundaries() {
    let above = make_separator(&[3, 2], &[6], "├", "─", "┴", "┬", "┼", "┤");
    assert_eq!(above, "├───┴──┤\n");
    let below = make_separator(&[6], &[3, 2], "├", "─", "┴", "┬", "┼", "┤");
    assert_eq!(below, "├───┬──┤\n");
}

#[test]
fn live_single_block_round_trip() {
    let mut t = LiveTable::new(vec![5, 5], 40);
    assert!(!t.table_started());
    assert_eq!(t.push_rendered("a".to_string()), "");
    assert_eq!(
        t.push_rendered("bb".to_string()),
        "┌─────┬─────┐\n│  a  │ bb  │\n"
    );
    assert!(t.table_started());
    assert_eq!(t.end_table_rendered(), "└─────┴─────┘\n");
    assert!(!t.table_started());
}

#[test]
fn live_restart_after_close_uses_head_separator() {
    let mut t = LiveTable::new(vec![5, 5], 40);
    t.push_rendered("a".to_string());
    t.push_rendered("b".to_string());
    t.end_table_rendered();
    t.push_rendered("x".to_string());
    let out = t.push_rendered("yy".to_string());
    assert_eq!(out, "┌─────┬─────┐\n│  x  │ yy  │\n");
}

#[test]
fn live_wrapped_cell_keeps_lines_aligned() {
    let mut t = LiveTable::new(vec![5], 9);
    let out = t.push_rendered("hello world".to_string());
    assert_eq!(out, "┌─────┐\n│hello│\n│world│\n");
    let lines: Vec<&str> = out.lines().collect();
    assert!(lines.len() > 2, "the long cell must wrap to several sub-lines");
    for line in &lines {
        assert_eq!(line.chars().count(), 7);
    }
}

#[test]
fn live_dashed_separator_between_wrapped_blocks() {
    let mut t = LiveTable::new(vec![10, 10], 13);
    assert_eq!(
        t.push_rendered("aaa".to_string()),
        "┌──────────┐\n│   aaa    │\n"
    );
    assert_eq!(
        t.push_rendered("bbb".to_string()),
        "├╌╌╌╌╌╌╌╌╌╌┤\n│   bbb    │\n"
    );
    assert_eq!(
        t.push_rendered("ccc".to_string()),
        "├──────────┤\n│   ccc    │\n"
    );
    assert_eq!(t.end_table_rendered(), "└──────────┘\n");
}

#[test]
fn live_push_writes_and_succeeds() {
    let mut t = LiveTable::new(vec![5, 5], 40);
    assert!(t.push("a".to_string()).is_ok());
    assert!(t.push("b".to_string()).is_ok());
    assert!(t.end_table().is_ok());
}

#[test]
fn streaming_wraps_rows_over_blocks() {
    let mut t = StreamingTable::new(4, 3, 9);
    assert_eq!(t.push_rendered("a".to_string()), "");
    assert_eq!(
        t.push_rendered("b".to_string()),
        "┌───┬───┐\n│ a │ b │\n"
    );
    assert_eq!(t.push_rendered("c".to_string()), "");
    assert_eq!(
        t.push_rendered("d".to_string()),
        "│---│---│\n│ c │ d │\n"
    );
    assert_eq!(t.push_rendered("e".to_string()), "");
    assert_eq!(
        t.push_rendered("f".to_string()),
        "├───┼───┤\n│ e │ f │\n"
    );
    assert_eq!(t.end_table_rendered(), "└───┴───┘\n");
}

#[test]
fn streaming_pads_partial_final_block() {
    let mut t = StreamingTable::new(3, 3, 9);
    t.push_rendered("a".to_string());
    t.push_rendered("b".to_string());
    let out = t.push_rendered("c".to_string());
    assert_eq!(out, "│---│---│\n│ c │   │\n");
    assert_eq!(t.end_table_rendered(), "└───┴───┘\n");
}

#[test]
fn streaming_all_columns_on_one_line() {
    let mut t = StreamingTable::new(2, 3, 40);
    assert!(!t.table_started());
    assert_eq!(t.push_rendered("a".to_string()), "");
    assert_eq!(
        t.push_rendered("b".to_string()),
        "┌───┬───┐\n│ a │ b │\n"
    );
    assert_eq!(t.push_rendered("c".to_string()), "");
    assert_eq!(
        t.push_rendered("d".to_string()),
        "├───┼───┤\n│ c │ d │\n"
    );
    assert!(t.table_started());
    assert_eq!(t.end_table_rendered(), "└───┴───┘\n");
    assert!(t.push("e".to_string()).is_ok());
    assert!(t.end_table().is_ok());
}

#[test]
fn streaming_restart_after_close_uses_head_separator() {
    let mut t = StreamingTable::new(2, 3, 40);
    t.push_rendered("a".to_string());
    t.push_rendered("b".to_string());
    t.end_table_rendered();
    t.push_rendered("x".to_string());
    let out = t.push_rendered("y".to_string());
    assert_eq!(out, "┌───┬───┐\n│ x │ y │\n");
}

#[test]
fn live_empty_cell_renders_blank_column() {
    let mut t = LiveTable::new(vec![5], 9);
    let out = t.push_rendered(String::new());
    assert_eq!(out, "┌─────┐\n│     │\n");
}

#[test]
fn live_multi_group_junctions_follow_boundaries() {
    let mut t = LiveTable::new(vec![10, 5, 10], 25);
    assert_eq!(t.push_rendered("aa".to_string()), "");
    assert_eq!(
        t.push_rendered("b".to_string()),
        "┌──────────┬─────┐\n│    aa    │  b  │\n"
    );
    assert_eq!(
        t.push_rendered("cc".to_string()),
        "├╌╌╌╌╌╌╌╌╌╌┴╌╌╌╌╌┤\n│       cc       │\n"
    );
    assert_eq!(
        t.push_rendered("d".to_string()),
        ""
    );
    assert_eq!(
        t.push_rendered("e".to_string()),
        "├──────────┬─────┤\n│    d     │  e  │\n"
    );
    assert_eq!(t.end_table_rendered(), "└────────────────┘\n");
}

#[test]
fn live_overlong_first_column_is_clamped_not_rejected() {
    let mut t = LiveTable::new(vec![30], 30);
    let out = t.push_rendered("x".to_string());
    let head = format!("┌{}┐\n", "─".repeat(28));
    let row = format!("│{}x{}│\n", " ".repeat(13), " ".repeat(14));
    assert_eq!(out, format!("{head}{row}"));
    assert_eq!(t.end_table_rendered(), format!("└{}┘\n", "─".repeat(28)));
}

#[test]
fn centering_puts_odd_space_on_the_right() {
    let mut t = LiveTable::new(vec![4], 9);
    let out = t.push_rendered("x".to_string());
    assert_eq!(out, "┌────┐\n│ x  │\n");
}
