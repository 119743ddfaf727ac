use system_monitor::cpu::{bar_width, core_label, is_aggregate, logical_count, summary_line, usage_bar};

#[test]
fn bar_half_full_has_no_padding_after_multibyte_blocks() {
    // Five full blocks already take fifteen bytes, more than the width.
    assert_eq!(usage_bar(5, 0, 10), "█████ ");
}

#[test]
fn bar_empty_with_partial_glyph_is_padded_by_bytes() {
    assert_eq!(usage_bar(0, 4, 10), "▌       ");
    assert_eq!(usage_bar(0, 4, 10).len(), 10);
}

#[test]
fn bar_zero_usage_is_all_spaces() {
    assert_eq!(usage_bar(0, 0, 5), "     ");
}

#[test]
fn bar_full_has_no_partial_glyph() {
    assert_eq!(usage_bar(10, 3, 10), "██████████");
}

#[test]
fn bar_partial_index_is_capped() {
    assert_eq!(usage_bar(1, 12, 5), "██");
}

#[test]
fn bar_width_is_clamped() {
    assert_eq!(bar_width(0), 5);
    assert_eq!(bar_width(10), 5);
    assert_eq!(bar_width(20), 12);
    assert_eq!(bar_width(33), 25);
    assert_eq!(bar_width(200), 25);
}

#[test]
fn core_counts() {
    assert_eq!(logical_count(8, 4), 8);
    assert_eq!(logical_count(1, 10), 10);
    assert!(is_aggregate(1, 10));
    assert!(!is_aggregate(1, 1));
    assert!(!is_aggregate(8, 8));
}

#[test]
fn summary_line_text() {
    assert_eq!(summary_line("Apple M1", 8, 8, 3200), " Apple M1 | 8C/8T | 3200MHz ");
    assert_eq!(summary_line("", 0, 0, 0), "  | 0C/0T | 0MHz ");
}

#[test]
fn core_labels_are_right_aligned() {
    assert_eq!(core_label("0"), "  0 ");
    assert_eq!(core_label("cpu12"), "cpu12 ");
}
