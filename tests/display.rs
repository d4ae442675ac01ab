use tuicr::display::{cursor_indicator, cursor_indicator_spaced, truncate_or_pad, truncate_str};

#[test]
fn indicators_mark_the_cursor_row() {
    assert_eq!(cursor_indicator(3, 3), "▶");
    assert_eq!(cursor_indicator(2, 3), " ");
    assert_eq!(cursor_indicator_spaced(0, 0), "▶ ");
    assert_eq!(cursor_indicator_spaced(1, 0), "  ");
}

#[test]
fn truncation_and_padding() {
    assert_eq!(truncate_str("hello", 10), "hello");
    assert_eq!(truncate_str("hello world", 8), "hello...");
    assert_eq!(truncate_str("abcdef", 2), "...");
    assert_eq!(truncate_or_pad("ab", 5), "ab   ");
    assert_eq!(truncate_or_pad("abcdefgh", 6), "abc...");
    assert_eq!(truncate_or_pad("héllo", 5), "héllo");
}
