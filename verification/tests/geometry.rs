use mosaic::cursor::{
    char_to_cursor, clamp_cursor, cursor_to_char, line_visible_len, Cursor,
};
use mosaic::cursor_set::{
    cursor_before, dedup_cursors, normalize, sort_cursors, squash_out_of_bounds_cursors,
};
use mosaic::editor::Editor;
use mosaic::cursor::CursorMove;
use ropey::Rope;

fn c(line: usize, col: usize) -> Cursor {
    Cursor { line, col }
}

#[test]
fn cursor_new_holds_line_and_column() {
    assert_eq!(Cursor::new(3, 7), c(3, 7));
}

#[test]
fn visible_length_leaves_out_the_line_feed() {
    let rope = Rope::from_str("abc\n\nde");
    assert_eq!(line_visible_len(&rope, 0), 3);
    assert_eq!(line_visible_len(&rope, 1), 0);
    assert_eq!(line_visible_len(&rope, 2), 2);
    assert_eq!(line_visible_len(&rope, 3), 0);
    assert_eq!(line_visible_len(&rope, 99), 0);
}

#[test]
fn a_text_that_ends_with_a_line_feed_has_an_empty_last_line() {
    let rope = Rope::from_str("abc\n");
    assert_eq!(rope.len_lines(), 2);
    assert_eq!(line_visible_len(&rope, 1), 0);
    assert_eq!(clamp_cursor(&rope, c(5, 5)), c(1, 0));
    assert_eq!(char_to_cursor(&rope, 4), c(1, 0));
    assert_eq!(cursor_to_char(&rope, c(1, 0)), 4);
}

#[test]
fn only_the_line_feed_breaks_a_line() {
    let rope = Rope::from_str("a\rb\u{2028}c\u{0B}d\r\ne\u{85}f");
    assert_eq!(rope.len_lines(), 2);
    assert_eq!(line_visible_len(&rope, 0), 8);
    assert_eq!(line_visible_len(&rope, 1), 3);
    assert_eq!(char_to_cursor(&rope, 8), c(0, 8));
    assert_eq!(char_to_cursor(&rope, 9), c(1, 0));
    assert_eq!(cursor_to_char(&rope, c(1, 1)), 10);
}

#[test]
fn clamp_brings_a_cursor_into_the_text() {
    let rope = Rope::from_str("abc\nde");
    assert_eq!(clamp_cursor(&rope, c(0, 2)), c(0, 2));
    assert_eq!(clamp_cursor(&rope, c(0, 9)), c(0, 3));
    assert_eq!(clamp_cursor(&rope, c(1, 9)), c(1, 2));
    assert_eq!(clamp_cursor(&rope, c(7, 1)), c(1, 1));
    assert_eq!(clamp_cursor(&rope, c(usize::MAX, usize::MAX)), c(1, 2));
    let empty = Rope::from_str("");
    assert_eq!(clamp_cursor(&empty, c(3, 3)), c(0, 0));
}

#[test]
fn offsets_and_cursors_are_two_names_for_a_place() {
    let rope = Rope::from_str("ab\n\ncdé\nf");
    let expected = [
        c(0, 0), c(0, 1), c(0, 2), c(1, 0), c(2, 0), c(2, 1), c(2, 2), c(2, 3), c(3, 0), c(3, 1),
    ];
    for offset in 0..=rope.len_chars() {
        let cursor = char_to_cursor(&rope, offset);
        assert_eq!(cursor, expected[offset]);
        assert_eq!(cursor_to_char(&rope, cursor), offset);
    }
}

#[test]
fn sorting_is_by_line_and_then_by_column() {
    let mut cursors = vec![c(2, 1), c(0, 5), c(2, 0), c(0, 5), c(1, 9), c(0, 0)];
    sort_cursors(&mut cursors);
    assert_eq!(cursors, vec![c(0, 0), c(0, 5), c(0, 5), c(1, 9), c(2, 0), c(2, 1)]);
    let mut expected = vec![c(2, 1), c(0, 5), c(2, 0), c(0, 5), c(1, 9), c(0, 0)];
    expected.sort();
    assert_eq!(cursors, expected);
    assert!(cursor_before(c(0, 9), c(1, 0)));
    assert!(cursor_before(c(1, 0), c(1, 1)));
    assert!(!cursor_before(c(1, 1), c(1, 1)));
    assert!(!cursor_before(c(2, 0), c(1, 5)));
    let mut none: Vec<Cursor> = vec![];
    sort_cursors(&mut none);
    assert!(none.is_empty());
}

#[test]
fn dedup_drops_repeats_of_the_cursor_before() {
    let mut cursors = vec![c(0, 0), c(0, 0), c(1, 1), c(0, 0), c(0, 0), c(2, 2), c(2, 2)];
    dedup_cursors(&mut cursors);
    assert_eq!(cursors, vec![c(0, 0), c(1, 1), c(0, 0), c(2, 2)]);
}

#[test]
fn normalize_clamps_sorts_and_drops_repeats() {
    let rope = Rope::from_str("abc\nde");
    let mut cursors = vec![c(5, 5), c(0, 7), c(1, 2), c(0, 1), c(0, 3)];
    normalize(&rope, &mut cursors);
    assert_eq!(cursors, vec![c(0, 1), c(0, 3), c(1, 2)]);
}

#[test]
fn squash_leaves_the_first_cursor_of_the_first_and_of_the_last_line() {
    let mut cursors = vec![c(0, 1), c(0, 4), c(1, 0), c(1, 3), c(3, 2), c(3, 5), c(2, 0)];
    squash_out_of_bounds_cursors(&mut cursors, 3);
    assert_eq!(cursors, vec![c(0, 1), c(1, 0), c(1, 3), c(3, 2), c(2, 0)]);
    let mut one_line = vec![c(0, 1), c(0, 4), c(0, 6)];
    squash_out_of_bounds_cursors(&mut one_line, 0);
    assert_eq!(one_line, vec![c(0, 1)]);
}

#[test]
fn newline_keeps_the_indentation_of_the_line() {
    let mut editor = Editor::new(Some("  \tfoo"), None);
    editor.set_height(5);
    for _ in 0..6 {
        editor.move_cursor(CursorMove::Forward);
    }
    editor.newline();
    assert_eq!(editor.text(), "  \tfoo\n  \t");
    assert_eq!(editor.cursors(), &vec![c(1, 3)]);
    editor.newline();
    assert_eq!(editor.text(), "  \tfoo\n  \t\n  \t");
    assert_eq!(editor.cursors(), &vec![c(2, 3)]);
}

#[test]
fn newline_on_a_line_without_indentation() {
    let mut editor = Editor::new(Some("ab\n\ncd"), None);
    editor.move_cursor(CursorMove::Down);
    editor.newline();
    assert_eq!(editor.text(), "ab\n\n\ncd");
    assert_eq!(editor.cursors(), &vec![c(2, 0)]);
}

#[test]
fn reverse_tab_takes_back_at_most_the_indentation() {
    let mut editor = Editor::new(Some("      x"), None);
    for _ in 0..6 {
        editor.move_cursor(CursorMove::Forward);
    }
    editor.reverse_tab(4);
    assert_eq!(editor.text(), "  x");
    assert_eq!(editor.cursors(), &vec![c(0, 2)]);
    editor.reverse_tab(4);
    assert_eq!(editor.text(), "x");
    assert_eq!(editor.cursors(), &vec![c(0, 0)]);
    editor.reverse_tab(4);
    assert_eq!(editor.text(), "x");
}

#[test]
fn type_chars_types_one_after_the_other() {
    let mut editor = Editor::new(Some("ab\ncd"), None);
    editor.add_cursor_at(1, 2);
    editor.type_chars(&vec!['x', '\n', 'y']);
    assert_eq!(editor.text(), "x\nyab\ncdx\ny");
    assert_eq!(editor.cursors(), &vec![c(1, 1), c(3, 1)]);
}
