use dc34_vault::theme::{
    cell_width_of, clip, fit, label_slot, list_columns, list_first, list_rows, marquee,
    name_to_style, numbered_row, rows_to_paint, FontStyle, Repaint, RowCut,
};

#[test]
fn marquee_holds_then_scrolls_through_a_gap() {
    assert_eq!(marquee("short", 99_999, 10, 1000), "short");
    assert_eq!(marquee("abcdefgh", 500, 4, 1000), "abcd");
    assert_eq!(marquee("abcdefgh", 1000, 4, 1000), "abcd");
    assert_eq!(marquee("abcdefgh", 1250, 4, 1000), "bcde");
    assert_eq!(marquee("abcdefgh", 1000 + 250 * 6, 4, 1000), "gh  ");
    assert_eq!(marquee("abcdefgh", 1000 + 250 * 10, 4, 1000), " abc");
    assert_eq!(marquee("abcdefgh", 1000 + 250 * 11, 4, 1000), "abcd");
    assert_eq!(marquee("h\u{e9}llo world", 0, 3, 0), "h\u{e9}l");
}

#[test]
fn fit_and_clip() {
    assert_eq!(fit("hello", 5), "hello");
    assert_eq!(fit("hello!", 5), "hell\u{2026}");
    assert_eq!(fit("hello", 0), "\u{2026}");
    assert_eq!(clip("hello", 3), "hel");
    assert_eq!(clip("hi", 3), "hi");
}

#[test]
fn list_layout() {
    assert_eq!(list_rows(128, 14), 7);
    assert_eq!(list_rows(20, 14), 1);
    assert_eq!(list_rows(128, 200), 1);
    assert_eq!(list_first(3, 7), 0);
    assert_eq!(list_first(7, 7), 1);
    assert_eq!(list_first(20, 7), 14);
    assert_eq!(list_columns(128, 0, 8), 14);
    assert_eq!(list_columns(128, 10, 8), 13);
    assert_eq!(list_columns(3, 0, 8), 1);
    assert_eq!(cell_width_of(60), 8);
    assert_eq!(cell_width_of(56), 7);
    assert_eq!(cell_width_of(0), 7);
}

#[test]
fn numbered_rows() {
    assert_eq!(numbered_row(0, "https://example.com", 10, RowCut::Fit), "1. https:\u{2026}");
    assert_eq!(numbered_row(9, "abc", 10, RowCut::Fit), "10. abc");
    assert_eq!(numbered_row(0, "abcdefghij", 6, RowCut::Clip), "1. abc");
    assert_eq!(numbered_row(0, "abcdefghij", 6, RowCut::Scroll(1250)), "1. bcd");
}

#[test]
fn label_slots_tile_the_bar() {
    assert_eq!(label_slot(0, 128), (0, 42));
    assert_eq!(label_slot(1, 128), (42, 84));
    assert_eq!(label_slot(2, 128), (84, 128));
}

#[test]
fn font_names_map_to_styles() {
    assert_eq!(name_to_style("regular"), Some(FontStyle::Regular));
    assert_eq!(name_to_style("tall"), Some(FontStyle::Tall));
    assert_eq!(name_to_style("mono"), Some(FontStyle::Monospace));
    assert_eq!(name_to_style("cjk"), Some(FontStyle::Cjk));
    assert_eq!(name_to_style("bold"), Some(FontStyle::Bold));
    assert_eq!(name_to_style("large"), Some(FontStyle::Large));
    assert_eq!(name_to_style("small"), Some(FontStyle::Small));
}

#[test]
fn unknown_font_names_have_no_style() {
    assert_eq!(name_to_style(""), None);
    assert_eq!(name_to_style("Regular"), None);
    assert_eq!(name_to_style("monospace"), None);
}

#[test]
fn rows_to_paint_follow_the_cursor() {
    assert_eq!(rows_to_paint(0, 4, 10, Repaint::All), vec![0, 1, 2, 3]);
    assert_eq!(rows_to_paint(6, 4, 10, Repaint::All), vec![3, 4, 5, 6]);
    assert_eq!(rows_to_paint(1, 4, 2, Repaint::All), vec![0, 1]);
    assert_eq!(rows_to_paint(6, 4, 10, Repaint::FocusedRow), vec![6]);
    assert_eq!(rows_to_paint(0, 4, 0, Repaint::All), Vec::<usize>::new());
}
