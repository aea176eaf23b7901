use mosaic::cursor::{Cursor, CursorMove};
use mosaic::editor::Editor;
use mosaic::viewport::Viewport;

fn lines(n: usize) -> String {
    let mut text = String::new();
    for i in 0..n {
        if i > 0 {
            text.push('\n');
        }
        text.push_str(&format!("line {}", i));
    }
    text
}

#[test]
fn ensure_visible_scrolls_up_to_a_line_above() {
    let mut v = Viewport { top_line: 7, height: 10 };
    v.ensure_visible(3);
    assert_eq!(v, Viewport { top_line: 3, height: 10 });
}

#[test]
fn ensure_visible_scrolls_down_to_a_line_below() {
    let mut v = Viewport { top_line: 0, height: 10 };
    v.ensure_visible(25);
    assert_eq!(v, Viewport { top_line: 16, height: 10 });
    v.ensure_visible(26);
    assert_eq!(v.top_line, 17);
}

#[test]
fn ensure_visible_leaves_a_visible_line_alone() {
    let mut v = Viewport { top_line: 5, height: 10 };
    v.ensure_visible(5);
    assert_eq!(v.top_line, 5);
    v.ensure_visible(14);
    assert_eq!(v.top_line, 5);
    v.ensure_visible(15);
    assert_eq!(v.top_line, 6);
}

#[test]
fn ensure_visible_without_rows() {
    let mut v = Viewport::new();
    assert_eq!(v, Viewport { top_line: 0, height: 0 });
    v.ensure_visible(4);
    assert_eq!(v.top_line, 5);
    v.ensure_visible(4);
    assert_eq!(v.top_line, 4);
    let mut far = Viewport { top_line: 0, height: 0 };
    far.ensure_visible(usize::MAX);
    assert_eq!(far.top_line, usize::MAX);
}

#[test]
fn viewport_follows_the_cursor_to_line_25() {
    let mut editor = Editor::new(Some(&lines(40)), None);
    editor.set_height(10);
    for _ in 0..25 {
        editor.move_cursor(CursorMove::Down);
    }
    assert_eq!(editor.cursors()[0].line, 25);
    assert_eq!(editor.top_line(), 16);
    assert!(editor.top_line() <= 25 && 25 < editor.top_line() + 10);
}

#[test]
fn viewport_follows_the_cursor_by_other_ways_to_line_25() {
    let mut editor = Editor::new(Some(&lines(40)), None);
    editor.set_height(10);
    for _ in 0..30 {
        editor.move_cursor(CursorMove::Down);
    }
    for _ in 0..3 {
        editor.move_cursor(CursorMove::Up);
    }
    for _ in 0..4 {
        editor.move_cursor(CursorMove::WordBack);
    }
    assert_eq!(editor.cursors()[0].line, 25);
    let top = editor.top_line();
    assert!(top <= 25 && 25 < top + 10);

    let mut typed = Editor::new(Some(""), None);
    typed.set_height(10);
    for _ in 0..25 {
        typed.input('\n');
    }
    assert_eq!(typed.cursors(), &vec![Cursor { line: 25, col: 0 }]);
    assert_eq!(typed.top_line(), 16);
}

#[test]
fn scroll_down_pulls_the_cursor_to_the_first_row() {
    let mut editor = Editor::new(Some(&lines(40)), None);
    editor.set_height(10);
    editor.move_cursor(CursorMove::Forward);
    editor.scroll_down();
    assert_eq!(editor.top_line(), 1);
    assert_eq!(editor.cursors(), &vec![Cursor { line: 1, col: 1 }]);
}

#[test]
fn scroll_up_pulls_the_cursor_to_the_last_row() {
    let mut editor = Editor::new(Some(&lines(40)), None);
    editor.set_height(10);
    for _ in 0..20 {
        editor.move_cursor(CursorMove::Down);
    }
    assert_eq!(editor.top_line(), 11);
    editor.scroll_up();
    assert_eq!(editor.top_line(), 10);
    assert_eq!(editor.cursors(), &vec![Cursor { line: 19, col: 0 }]);
}

#[test]
fn scroll_leaves_a_visible_cursor_alone() {
    let mut editor = Editor::new(Some(&lines(40)), None);
    editor.set_height(10);
    for _ in 0..5 {
        editor.move_cursor(CursorMove::Down);
    }
    editor.scroll_down();
    assert_eq!(editor.top_line(), 1);
    assert_eq!(editor.cursors(), &vec![Cursor { line: 5, col: 0 }]);
    editor.scroll_up();
    assert_eq!(editor.top_line(), 0);
    assert_eq!(editor.cursors(), &vec![Cursor { line: 5, col: 0 }]);
}

#[test]
fn scroll_stops_at_the_ends_of_the_text() {
    let mut editor = Editor::new(Some("a\nb\nc"), None);
    editor.set_height(2);
    editor.scroll_up();
    assert_eq!(editor.top_line(), 0);
    editor.scroll_down();
    editor.scroll_down();
    editor.scroll_down();
    editor.scroll_down();
    assert_eq!(editor.top_line(), 2);
    assert_eq!(editor.cursors(), &vec![Cursor { line: 2, col: 0 }]);
}

#[test]
fn scroll_reclamps_the_column_of_a_pulled_cursor() {
    let mut editor = Editor::new(Some("long first line\nab\nc"), None);
    editor.set_height(1);
    for _ in 0..10 {
        editor.move_cursor(CursorMove::Forward);
    }
    editor.scroll_down();
    assert_eq!(editor.top_line(), 1);
    assert_eq!(editor.cursors(), &vec![Cursor { line: 1, col: 2 }]);
}

#[test]
fn nearest_visible_line() {
    let v = Viewport { top_line: 5, height: 3 };
    assert_eq!(v.nearest_visible(2), 5);
    assert_eq!(v.nearest_visible(6), 6);
    assert_eq!(v.nearest_visible(8), 7);
    let none = Viewport { top_line: 5, height: 0 };
    assert_eq!(none.nearest_visible(9), 9);
    assert_eq!(none.nearest_visible(1), 5);
}
