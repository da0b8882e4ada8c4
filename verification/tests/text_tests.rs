use wtop::text::{display_width, maximum_scroll_offset, scroll_text};

#[test]
fn display_width_uses_terminal_cells_not_utf8_bytes() {
    assert_eq!(display_width("A界"), 3);
    assert_eq!(display_width("e\u{301}"), 1);
}

#[test]
fn scroll_text_marks_content_outside_the_viewport() {
    assert_eq!(scroll_text("abcdef", 0, 4), "abc›");
    assert_eq!(scroll_text("abcdef", 2, 4), "‹cd›");
    assert_eq!(scroll_text("abcdef", 3, 4), "‹def");
}

#[test]
fn scrolling_never_splits_a_wide_grapheme() {
    assert_eq!(maximum_scroll_offset("A界BC", 4), 3);
    assert_eq!(scroll_text("A界BC", 2, 4), "‹界›");
    assert_eq!(scroll_text("A界BC", 3, 4), "‹BC");
}

#[test]
fn text_that_fits_is_shown_whole_and_never_scrolls() {
    assert_eq!(maximum_scroll_offset("abc", 4), 0);
    assert_eq!(scroll_text("abc", 0, 4), "abc");
    assert_eq!(scroll_text("abc", 9, 4), "abc");
    assert_eq!(scroll_text("abcd", 0, 4), "abcd");
}

#[test]
fn a_zero_width_viewport_shows_nothing() {
    assert_eq!(maximum_scroll_offset("abcdef", 0), 0);
    assert_eq!(scroll_text("abcdef", 3, 0), "");
}

#[test]
fn offsets_past_the_end_are_clamped() {
    assert_eq!(maximum_scroll_offset("abcdef", 4), 3);
    assert_eq!(scroll_text("abcdef", 200, 4), "‹def");
}

#[test]
fn combining_marks_stay_with_their_base_character() {
    assert_eq!(display_width("ae\u{301}bcd"), 5);
    assert_eq!(scroll_text("ae\u{301}bcd", 1, 3), "‹e\u{301}›");
}

#[test]
fn a_one_cell_viewport_never_shows_two_indicators() {
    assert_eq!(scroll_text("ab", 1, 1), "‹");
    assert_eq!(scroll_text("ab", 0, 1), "›");
    assert_eq!(scroll_text("abc", 2, 1), "‹");
    assert_eq!(scroll_text("a", 0, 1), "a");
}

#[test]
fn scrolled_text_never_takes_more_cells_than_the_viewport() {
    for text in ["abcdef", "A界BC", "界界界", "ae\u{301}bcd", "x"] {
        for viewport in 1u16..8 {
            for offset in 0u16..8 {
                let rendered = scroll_text(text, offset, viewport);
                assert!(display_width(&rendered) <= viewport, "{text:?} {offset} {viewport} -> {rendered:?}");
            }
        }
    }
}

#[test]
fn text_that_fits_is_shown_unchanged() {
    for offset in [0u16, 1, 5] {
        assert_eq!(scroll_text("A界B", offset, 4), "A界B");
        assert_eq!(scroll_text("ae\u{301}", offset, 2), "ae\u{301}");
    }
}
