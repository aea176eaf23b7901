//! Cursors: positions in a text by line and column, their validity with
//! respect to a text, and their conversion to and from character offsets.

use crate::rope::rope_text;
use crate::text::{
    lemma_line_of, lemma_line_shape, lemma_line_start, lemma_line_start_le,
    lemma_line_start_monotone, line_count, line_of, line_start, visible_len,
};
use ropey::Rope;
use vstd::prelude::*;

verus! {

/// A caret position: a line, and a column counted in characters from the
/// start of that line.
#[derive(Clone, Copy, Debug, PartialEq, Eq, PartialOrd, Ord, Structural)]
pub struct Cursor {
    pub line: usize,
    pub col: usize,
}

/// The motions of the primary cursor.
#[derive(Clone, Copy, Debug, PartialEq, Eq, Structural)]
pub enum CursorMove {
    Back,
    Forward,
    Up,
    Down,
    WordBack,
    WordForward,
}

/// The same motions, named by the direction on screen.
#[derive(Clone, Copy, Debug, PartialEq, Eq, Structural)]
pub enum CursorDirection {
    Left,
    Right,
    Up,
    Down,
    WordRight,
    WordLeft,
}

impl CursorDirection {
    /// The motion that goes in this direction.
    pub open spec fn motion(self) -> CursorMove {
        match self {
            CursorDirection::Left => CursorMove::Back,
            CursorDirection::Right => CursorMove::Forward,
            CursorDirection::Up => CursorMove::Up,
            CursorDirection::Down => CursorMove::Down,
            CursorDirection::WordRight => CursorMove::WordForward,
            CursorDirection::WordLeft => CursorMove::WordBack,
        }
    }

    /// The motion that goes in this direction.
    pub fn to_move(self) -> (m: CursorMove)
        ensures
            m == self.motion(),
    {
        match self {
            CursorDirection::Left => CursorMove::Back,
            CursorDirection::Right => CursorMove::Forward,
            CursorDirection::Up => CursorMove::Up,
            CursorDirection::Down => CursorMove::Down,
            CursorDirection::WordRight => CursorMove::WordForward,
            CursorDirection::WordLeft => CursorMove::WordBack,
        }
    }
}

/// A cursor is valid in a text when its line exists and its column is not
/// past the visible end of that line: it may stand just after the last
/// visible character, never after the line feed.
pub open spec fn is_valid(text: Seq<char>, c: Cursor) -> bool {
    &&& c.line < line_count(text)
    &&& c.col <= visible_len(text, c.line as nat)
}

/// The valid cursor nearest to `c`: the line is brought down to the last
/// line, then the column down to the visible length of that line.
pub open spec fn clamped(text: Seq<char>, c: Cursor) -> Cursor {
    let line = if c.line < line_count(text) {
        c.line
    } else {
        (line_count(text) - 1) as usize
    };
    let col = if c.col <= visible_len(text, line as nat) {
        c.col
    } else {
        visible_len(text, line as nat) as usize
    };
    Cursor { line, col }
}

/// The character offset of a cursor.
pub open spec fn offset_of(text: Seq<char>, c: Cursor) -> int {
    line_start(text, c.line as nat) + c.col
}

/// The cursor at a character offset.
pub open spec fn cursor_at(text: Seq<char>, offset: int) -> Cursor {
    Cursor {
        line: line_of(text, offset) as usize,
        col: (offset - line_start(text, line_of(text, offset))) as usize,
    }
}

/// `a` comes before `b`, or is `b`: by line, then by column.
pub open spec fn cursor_le(a: Cursor, b: Cursor) -> bool {
    a.line < b.line || (a.line == b.line && a.col <= b.col)
}

/// `a` comes before `b`: by line, then by column.
pub open spec fn cursor_lt(a: Cursor, b: Cursor) -> bool {
    a.line < b.line || (a.line == b.line && a.col < b.col)
}

/// The offset of a valid cursor lies in the text, and the cursor at that
/// offset is the cursor itself.
pub proof fn lemma_offset_of_valid(text: Seq<char>, c: Cursor)
    requires
        is_valid(text, c),
    ensures
        0 <= offset_of(text, c) <= text.len(),
        line_of(text, offset_of(text, c)) == c.line,
        cursor_at(text, offset_of(text, c)) == c,
{
    let l = c.line as nat;
    let off = offset_of(text, c);
    lemma_line_start(text, l);
    lemma_line_start(text, l + 1);
    lemma_line_shape(text, l);
    lemma_line_start_le(text, l, off);
    if l + 1 < line_count(text) {
        lemma_line_start_le(text, l + 1, off);
    } else {
        crate::text::lemma_newlines_monotone(text, off, text.len() as int);
    }
}

/// The cursor at an offset inside a text is valid, where its line index
/// fits the machine, and its offset is that offset.
pub proof fn lemma_cursor_at_valid(text: Seq<char>, offset: int)
    requires
        0 <= offset <= text.len() <= usize::MAX,
        line_of(text, offset) <= usize::MAX,
    ensures
        is_valid(text, cursor_at(text, offset)),
        offset_of(text, cursor_at(text, offset)) == offset,
{
    let l = line_of(text, offset);
    lemma_line_of(text, offset);
    lemma_line_start(text, l);
    lemma_line_start(text, l + 1);
    lemma_line_shape(text, l);
}

/// Among valid cursors, the order by line and column is the order by
/// offset.
pub proof fn lemma_order_is_offset_order(text: Seq<char>, a: Cursor, b: Cursor)
    requires
        is_valid(text, a),
        is_valid(text, b),
    ensures
        cursor_lt(a, b) <==> offset_of(text, a) < offset_of(text, b),
        cursor_le(a, b) <==> offset_of(text, a) <= offset_of(text, b),
        a == b <==> offset_of(text, a) == offset_of(text, b),
{
    lemma_offset_of_valid(text, a);
    lemma_offset_of_valid(text, b);
    if a.line < b.line {
        lemma_line_shape(text, a.line as nat);
        lemma_line_start_monotone(text, (a.line + 1) as nat, b.line as nat);
    }
    if b.line < a.line {
        lemma_line_shape(text, b.line as nat);
        lemma_line_start_monotone(text, (b.line + 1) as nat, a.line as nat);
    }
}

/// Clamping leaves a valid cursor as it is.
pub proof fn lemma_clamped_of_valid(text: Seq<char>, c: Cursor)
    requires
        is_valid(text, c),
    ensures
        clamped(text, c) == c,
{
}

/// Clamping gives a valid cursor, where the number of lines fits the
/// machine.
pub proof fn lemma_clamped_valid(text: Seq<char>, c: Cursor)
    requires
        line_count(text) <= usize::MAX,
    ensures
        is_valid(text, clamped(text, c)),
{
    let line = if c.line < line_count(text) {
        c.line as nat
    } else {
        (line_count(text) - 1) as nat
    };
    lemma_line_shape(text, line);
    lemma_line_start(text, line);
    lemma_line_start(text, line + 1);
}

impl Cursor {
    /// A cursor at the given line and column.
    pub fn new(line: usize, col: usize) -> (c: Cursor)
        ensures
            c == (Cursor { line, col }),
    {
        Cursor { line, col }
    }
}

/// The number of characters of line `line` before its line feed; 0 for a
/// line that the rope does not have.
pub fn line_visible_len(rope: &Rope, line: usize) -> (n: usize)
    ensures
        n == if line < line_count(rope_text(*rope)) {
            visible_len(rope_text(*rope), line as nat)
        } else {
            0
        },
{
    if line >= rope.len_lines() {
        return 0;
    }
    proof {
        lemma_line_shape(rope_text(*rope), line as nat);
        lemma_line_start(rope_text(*rope), line as nat);
        lemma_line_start(rope_text(*rope), (line + 1) as nat);
    }
    let start = rope.line_to_char(line);
    let end = rope.line_to_char(line + 1);
    let len = end - start;
    if len > 0 && rope.char(end - 1) == '\n' {
        len - 1
    } else {
        len
    }
}

/// Brings a cursor back into the rope: its line down to the last line, its
/// column down to the visible length of that line.
pub fn clamp_cursor(rope: &Rope, c: Cursor) -> (r: Cursor)
    ensures
        r == clamped(rope_text(*rope), c),
        is_valid(rope_text(*rope), r),
{
    let max_line = rope.len_lines() - 1;
    let line = if c.line < max_line {
        c.line
    } else {
        max_line
    };
    let visible = line_visible_len(rope, line);
    let col = if c.col <= visible {
        c.col
    } else {
        visible
    };
    proof {
        lemma_clamped_valid(rope_text(*rope), c);
    }
    Cursor { line, col }
}

/// The character offset of a valid cursor.
pub fn cursor_to_char(rope: &Rope, c: Cursor) -> (offset: usize)
    requires
        is_valid(rope_text(*rope), c),
    ensures
        offset == offset_of(rope_text(*rope), c),
        offset <= rope_text(*rope).len(),
{
    // the length is asked for only to learn that it is a `usize`
    let _len = rope.len_chars();
    proof {
        lemma_offset_of_valid(rope_text(*rope), c);
    }
    rope.line_to_char(c.line) + c.col
}

/// The cursor at a character offset, which may be the length of the text.
pub fn char_to_cursor(rope: &Rope, offset: usize) -> (c: Cursor)
    requires
        offset <= rope_text(*rope).len(),
    ensures
        c == cursor_at(rope_text(*rope), offset as int),
        is_valid(rope_text(*rope), c),
{
    let line = rope.char_to_line(offset);
    let _len = rope.len_chars();
    proof {
        lemma_line_of(rope_text(*rope), offset as int);
        lemma_cursor_at_valid(rope_text(*rope), offset as int);
    }
    let col = offset - rope.line_to_char(line);
    Cursor { line, col }
}

} // verus!
