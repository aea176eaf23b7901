use mosaic::cursor::{Cursor, CursorDirection, CursorMove};
use mosaic::editor::Editor;
use mosaic::motion::step;
use ropey::Rope;

fn c(line: usize, col: usize) -> Cursor {
    Cursor { line, col }
}

#[test]
fn back_wraps_to_the_end_of_the_line_before() {
    let rope = Rope::from_str("abc\nde");
    assert_eq!(step(&rope, c(1, 1), CursorMove::Back), c(1, 0));
    assert_eq!(step(&rope, c(1, 0), CursorMove::Back), c(0, 3));
    assert_eq!(step(&rope, c(0, 0), CursorMove::Back), c(0, 0));
}

#[test]
fn forward_wraps_to_the_start_of_the_next_line() {
    let rope = Rope::from_str("abc\nde");
    assert_eq!(step(&rope, c(0, 2), CursorMove::Forward), c(0, 3));
    assert_eq!(step(&rope, c(0, 3), CursorMove::Forward), c(1, 0));
    assert_eq!(step(&rope, c(1, 2), CursorMove::Forward), c(1, 2));
}

#[test]
fn up_and_down_clamp_the_column() {
    let rope = Rope::from_str("abcdef\nxy\nlonger line");
    assert_eq!(step(&rope, c(0, 5), CursorMove::Down), c(1, 2));
    assert_eq!(step(&rope, c(1, 2), CursorMove::Down), c(2, 2));
    assert_eq!(step(&rope, c(2, 9), CursorMove::Up), c(1, 2));
    assert_eq!(step(&rope, c(0, 4), CursorMove::Up), c(0, 4));
    assert_eq!(step(&rope, c(2, 4), CursorMove::Down), c(2, 4));
}

#[test]
fn the_column_is_not_remembered_across_a_short_line() {
    let mut editor = Editor::new(Some("abcdef\nxy\nabcdef"), None);
    editor.set_height(10);
    for _ in 0..5 {
        editor.move_cursor(CursorMove::Forward);
    }
    editor.move_cursor(CursorMove::Down);
    editor.move_cursor(CursorMove::Down);
    assert_eq!(editor.cursors(), &vec![c(2, 2)]);
}

#[test]
fn word_forward_lands_on_the_next_word() {
    let rope = Rope::from_str("one  two\nthree");
    assert_eq!(step(&rope, c(0, 0), CursorMove::WordForward), c(0, 5));
    assert_eq!(step(&rope, c(0, 1), CursorMove::WordForward), c(0, 5));
    assert_eq!(step(&rope, c(0, 3), CursorMove::WordForward), c(0, 5));
    assert_eq!(step(&rope, c(0, 5), CursorMove::WordForward), c(1, 0));
    assert_eq!(step(&rope, c(1, 0), CursorMove::WordForward), c(1, 5));
}

#[test]
fn word_back_lands_on_the_start_of_the_word_before() {
    let rope = Rope::from_str("one  two\nthree");
    assert_eq!(step(&rope, c(1, 5), CursorMove::WordBack), c(1, 0));
    assert_eq!(step(&rope, c(1, 0), CursorMove::WordBack), c(0, 5));
    assert_eq!(step(&rope, c(0, 5), CursorMove::WordBack), c(0, 0));
    assert_eq!(step(&rope, c(0, 7), CursorMove::WordBack), c(0, 5));
}

#[test]
fn word_forward_from_the_end_of_the_buffer_is_a_no_op() {
    let rope = Rope::from_str("one two");
    assert_eq!(step(&rope, c(0, 7), CursorMove::WordForward), c(0, 7));
    let mut editor = Editor::new(Some("one two"), None);
    for _ in 0..7 {
        editor.move_cursor(CursorMove::Forward);
    }
    editor.move_cursor(CursorMove::WordForward);
    assert_eq!(editor.cursors(), &vec![c(0, 7)]);
    assert_eq!(editor.text(), "one two");
}

#[test]
fn word_forward_from_the_last_character_goes_to_the_end() {
    let rope = Rope::from_str("one two");
    assert_eq!(step(&rope, c(0, 6), CursorMove::WordForward), c(0, 7));
}

#[test]
fn word_back_from_offset_zero_is_a_no_op() {
    let rope = Rope::from_str("one two");
    assert_eq!(step(&rope, c(0, 0), CursorMove::WordBack), c(0, 0));
    let mut editor = Editor::new(Some("  one"), None);
    editor.move_cursor(CursorMove::WordBack);
    assert_eq!(editor.cursors(), &vec![c(0, 0)]);
}

#[test]
fn word_motions_in_white_space_only() {
    let rope = Rope::from_str("   ");
    assert_eq!(step(&rope, c(0, 1), CursorMove::WordForward), c(0, 3));
    assert_eq!(step(&rope, c(0, 3), CursorMove::WordBack), c(0, 0));
}

#[test]
fn motions_on_an_empty_buffer_stay_put() {
    let rope = Rope::from_str("");
    let moves = [
        CursorMove::Back,
        CursorMove::Forward,
        CursorMove::Up,
        CursorMove::Down,
        CursorMove::WordBack,
        CursorMove::WordForward,
    ];
    for m in moves {
        assert_eq!(step(&rope, c(0, 0), m), c(0, 0));
    }
}

#[test]
fn only_the_primary_cursor_moves() {
    let mut editor = Editor::new(Some("abc\ndef\nghi"), None);
    editor.set_height(10);
    editor.add_cursor_at(2, 1);
    editor.move_cursor(CursorMove::Down);
    assert_eq!(editor.cursors(), &vec![c(1, 0), c(2, 1)]);
    editor.move_cursor(CursorMove::Forward);
    assert_eq!(editor.cursors(), &vec![c(1, 1), c(2, 1)]);
}

#[test]
fn directions_name_the_motions() {
    assert_eq!(CursorDirection::Left.to_move(), CursorMove::Back);
    assert_eq!(CursorDirection::Right.to_move(), CursorMove::Forward);
    assert_eq!(CursorDirection::Up.to_move(), CursorMove::Up);
    assert_eq!(CursorDirection::Down.to_move(), CursorMove::Down);
    assert_eq!(CursorDirection::WordLeft.to_move(), CursorMove::WordBack);
    assert_eq!(CursorDirection::WordRight.to_move(), CursorMove::WordForward);
}
