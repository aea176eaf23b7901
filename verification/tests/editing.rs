use mosaic::cursor::{Cursor, CursorMove};
use mosaic::editor::Editor;

fn at(line: usize, col: usize) -> Cursor {
    Cursor { line, col }
}

fn editor_with(text: &str, height: usize) -> Editor {
    let mut editor = Editor::new(Some(text), None);
    editor.set_height(height);
    editor
}

fn forward(editor: &mut Editor, times: usize) {
    for _ in 0..times {
        editor.move_cursor(CursorMove::Forward);
    }
}

#[test]
fn new_editor_has_one_cursor_at_the_start() {
    let editor = Editor::new(Some("hello\nworld"), None);
    assert_eq!(editor.cursors(), &vec![at(0, 0)]);
    assert_eq!(editor.text(), "hello\nworld");
    assert_eq!(editor.top_line(), 0);
    assert_eq!(editor.height(), 0);
}

#[test]
fn new_editor_without_text_is_one_empty_line() {
    let editor = Editor::new(None, None);
    assert_eq!(editor.text(), "");
    assert_eq!(editor.rope().len_lines(), 1);
    assert_eq!(editor.cursors(), &vec![at(0, 0)]);
}

#[test]
fn input_inserts_at_the_cursor_and_advances_it() {
    let mut editor = editor_with("hello", 10);
    editor.input('x');
    assert_eq!(editor.text(), "xhello");
    assert_eq!(editor.cursors(), &vec![at(0, 1)]);
}

#[test]
fn input_of_a_line_feed_moves_to_the_start_of_the_next_line() {
    let mut editor = editor_with("hello", 10);
    forward(&mut editor, 2);
    editor.input('\n');
    assert_eq!(editor.text(), "he\nllo");
    assert_eq!(editor.cursors(), &vec![at(1, 0)]);
}

#[test]
fn multi_cursor_insert_does_not_depend_on_storage_order() {
    let text = "abcdefghijklmnopqrst";

    let mut low_first = editor_with(text, 10);
    forward(&mut low_first, 5);
    low_first.add_cursor_at(0, 10);
    assert_eq!(low_first.cursors(), &vec![at(0, 5), at(0, 10)]);

    let mut high_first = editor_with(text, 10);
    forward(&mut high_first, 10);
    high_first.add_cursor_at(0, 5);
    assert_eq!(high_first.cursors(), &vec![at(0, 10), at(0, 5)]);

    low_first.input('X');
    high_first.input('X');

    assert_eq!(low_first.text(), "abcdeXfghijXklmnopqrst");
    assert_eq!(high_first.text(), low_first.text());
    assert_eq!(low_first.cursors(), &vec![at(0, 6), at(0, 12)]);
    assert_eq!(high_first.cursors(), low_first.cursors());
}

#[test]
fn multi_cursor_insert_across_lines() {
    let mut editor = editor_with("ab\ncd\nef", 10);
    editor.add_cursor_at(1, 1);
    editor.add_cursor_at(2, 2);
    editor.input('-');
    assert_eq!(editor.text(), "-ab\nc-d\nef-");
    assert_eq!(editor.cursors(), &vec![at(0, 1), at(1, 2), at(2, 3)]);
}

#[test]
fn multi_cursor_line_feed_splits_every_line() {
    let mut editor = editor_with("ab\ncd", 10);
    forward(&mut editor, 1);
    editor.add_cursor_at(1, 1);
    editor.input('\n');
    assert_eq!(editor.text(), "a\nb\nc\nd");
    assert_eq!(editor.cursors(), &vec![at(1, 0), at(3, 0)]);
}

#[test]
fn backspace_at_offset_zero_changes_nothing() {
    let mut editor = editor_with("hello", 10);
    editor.backspace();
    assert_eq!(editor.text(), "hello");
    assert_eq!(editor.cursors(), &vec![at(0, 0)]);
}

#[test]
fn backspace_deletes_the_character_before_the_cursor() {
    let mut editor = editor_with("hello", 10);
    forward(&mut editor, 3);
    editor.backspace();
    assert_eq!(editor.text(), "helo");
    assert_eq!(editor.cursors(), &vec![at(0, 2)]);
}

#[test]
fn backspace_at_the_start_of_a_line_merges_it_with_the_line_before() {
    let mut editor = editor_with("ab\ncd", 10);
    editor.move_cursor(CursorMove::Down);
    assert_eq!(editor.cursors(), &vec![at(1, 0)]);
    editor.backspace();
    assert_eq!(editor.text(), "abcd");
    assert_eq!(editor.cursors(), &vec![at(0, 2)]);
}

#[test]
fn backspace_at_several_cursors() {
    let mut editor = editor_with("abcdef", 10);
    forward(&mut editor, 2);
    editor.add_cursor_at(0, 5);
    editor.backspace();
    assert_eq!(editor.text(), "acdf");
    assert_eq!(editor.cursors(), &vec![at(0, 1), at(0, 3)]);
}

#[test]
fn backspace_with_a_cursor_at_the_start_leaves_that_cursor() {
    let mut editor = editor_with("abcdef", 10);
    editor.add_cursor_at(0, 3);
    editor.backspace();
    assert_eq!(editor.text(), "abdef");
    assert_eq!(editor.cursors(), &vec![at(0, 0), at(0, 2)]);
}

#[test]
fn backspace_with_neighbouring_cursors_leaves_one_cursor() {
    let mut editor = editor_with("abcdef", 10);
    forward(&mut editor, 1);
    editor.add_cursor_at(0, 2);
    editor.backspace();
    assert_eq!(editor.text(), "cdef");
    assert_eq!(editor.cursors(), &vec![at(0, 0)]);
}

#[test]
fn tab_inserts_four_spaces() {
    let mut editor = editor_with("x", 10);
    editor.tab();
    assert_eq!(editor.text(), "    x");
    assert_eq!(editor.cursors(), &vec![at(0, 4)]);
}

#[test]
fn indent_inserts_as_many_spaces_as_asked_for_at_every_cursor() {
    let mut editor = editor_with("a\nb", 10);
    editor.add_cursor_at(1, 0);
    editor.indent(2);
    assert_eq!(editor.text(), "  a\n  b");
    assert_eq!(editor.cursors(), &vec![at(0, 2), at(1, 2)]);
    editor.indent(0);
    assert_eq!(editor.text(), "  a\n  b");
}

#[test]
fn open_file_round_trip() {
    let mut editor = editor_with("old text", 10);
    forward(&mut editor, 3);
    let content = "first line\nsecond line\n\ttabbed ü\r\nlast";
    editor.open_file("notes/list.txt", content);
    assert_eq!(editor.text(), content);
    assert_eq!(editor.cursors(), &vec![at(0, 0)]);
    assert_eq!(editor.top_line(), 0);
    assert_eq!(editor.height(), 10);
}

#[test]
fn add_cursor_below_adds_one_for_each_cursor() {
    let mut editor = editor_with("abc\nd\nefg\nhij", 10);
    forward(&mut editor, 3);
    editor.add_cursor_below();
    assert_eq!(editor.cursors(), &vec![at(0, 3), at(1, 1)]);
    editor.add_cursor_below();
    assert_eq!(editor.cursors(), &vec![at(0, 3), at(1, 1), at(2, 1)]);
}

#[test]
fn add_cursor_below_on_the_last_line_creates_no_duplicate() {
    let mut editor = editor_with("abc\ndef", 10);
    editor.move_cursor(CursorMove::Down);
    assert_eq!(editor.cursors(), &vec![at(1, 0)]);
    editor.add_cursor_below();
    assert_eq!(editor.cursors(), &vec![at(1, 0)]);
}

#[test]
fn add_cursor_below_leaves_one_cursor_on_the_last_line() {
    let mut editor = editor_with("abc\ndef\nghi", 10);
    editor.add_cursor_at(1, 2);
    editor.add_cursor_at(2, 1);
    editor.add_cursor_below();
    assert_eq!(editor.cursors(), &vec![at(0, 0), at(1, 0), at(1, 2), at(2, 1)]);
}

#[test]
fn add_cursor_above_leaves_one_cursor_on_the_first_line() {
    let mut editor = editor_with("abc\ndef\nghi", 10);
    forward(&mut editor, 2);
    editor.add_cursor_at(1, 1);
    editor.add_cursor_at(2, 3);
    editor.add_cursor_above();
    assert_eq!(editor.cursors(), &vec![at(0, 1), at(1, 1), at(1, 3), at(2, 3)]);
}

#[test]
fn add_cursor_above_on_the_first_line_changes_nothing() {
    let mut editor = editor_with("abc\ndef", 10);
    editor.add_cursor_above();
    assert_eq!(editor.cursors(), &vec![at(0, 0)]);
}

#[test]
fn add_cursor_at_clamps_and_does_not_repeat() {
    let mut editor = editor_with("abc\nde", 10);
    editor.add_cursor_at(7, 9);
    assert_eq!(editor.cursors(), &vec![at(0, 0), at(1, 2)]);
    editor.add_cursor_at(1, 2);
    assert_eq!(editor.cursors(), &vec![at(0, 0), at(1, 2)]);
}

#[test]
fn clear_cursors_keeps_the_lowest() {
    let mut editor = editor_with("abc\ndef\nghi", 10);
    editor.move_cursor(CursorMove::Down);
    editor.move_cursor(CursorMove::Down);
    editor.add_cursor_at(1, 2);
    editor.add_cursor_at(1, 1);
    assert_eq!(editor.cursors(), &vec![at(2, 0), at(1, 2), at(1, 1)]);
    editor.clear_cursors();
    assert_eq!(editor.cursors(), &vec![at(1, 1)]);
}

#[test]
fn every_cursor_stays_inside_the_text() {
    let mut editor = editor_with("one\ntwo\n\nthree", 3);
    editor.add_cursor_at(3, 5);
    editor.add_cursor_at(1, 3);
    let moves = [
        CursorMove::Down,
        CursorMove::Forward,
        CursorMove::WordForward,
        CursorMove::Up,
        CursorMove::WordBack,
        CursorMove::Back,
    ];
    for round in 0..12 {
        editor.move_cursor(moves[round % moves.len()]);
        if round % 3 == 0 {
            editor.backspace();
        } else if round % 3 == 1 {
            editor.input('\n');
        } else {
            editor.add_cursor_below();
        }
        let rope = editor.rope().clone();
        for c in editor.cursors() {
            assert!(c.line < rope.len_lines());
            assert!(c.col <= mosaic::cursor::line_visible_len(&rope, c.line));
        }
    }
}
