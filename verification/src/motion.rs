//! Cursor motions: where a cursor goes when it is moved through a text.
//! None of them changes the text.

use crate::chars::white_space;
use crate::cursor::{
    char_to_cursor, cursor_at, cursor_to_char, is_valid, line_visible_len, offset_of, Cursor,
    CursorMove,
};
use crate::rope::rope_text;
use crate::text::{lemma_line_shape, line_count, visible_len};
use ropey::Rope;
use vstd::prelude::*;

verus! {

/// One character back; from the start of a line, to the end of the line
/// before.
pub open spec fn moved_back(text: Seq<char>, c: Cursor) -> Cursor {
    if c.col > 0 {
        Cursor { line: c.line, col: (c.col - 1) as usize }
    } else if c.line > 0 {
        Cursor {
            line: (c.line - 1) as usize,
            col: visible_len(text, (c.line - 1) as nat) as usize,
        }
    } else {
        c
    }
}

/// One character forward; from the end of a line, to the start of the next
/// line.
pub open spec fn moved_forward(text: Seq<char>, c: Cursor) -> Cursor {
    if c.col < visible_len(text, c.line as nat) {
        Cursor { line: c.line, col: (c.col + 1) as usize }
    } else if c.line + 1 < line_count(text) {
        Cursor { line: (c.line + 1) as usize, col: 0 }
    } else {
        c
    }
}

/// `c` on line `line`, its column brought down to the visible length of
/// that line. The column that the cursor came from is not remembered.
pub open spec fn on_line(text: Seq<char>, c: Cursor, line: usize) -> Cursor {
    Cursor {
        line,
        col: if c.col <= visible_len(text, line as nat) {
            c.col
        } else {
            visible_len(text, line as nat) as usize
        },
    }
}

/// One line up, where there is one.
pub open spec fn moved_up(text: Seq<char>, c: Cursor) -> Cursor {
    if c.line > 0 {
        on_line(text, c, (c.line - 1) as usize)
    } else {
        c
    }
}

/// One line down, where there is one.
pub open spec fn moved_down(text: Seq<char>, c: Cursor) -> Cursor {
    if c.line + 1 < line_count(text) {
        on_line(text, c, (c.line + 1) as usize)
    } else {
        c
    }
}

/// The first offset at or after `pos` whose character is not of the class
/// `space` (white space if `space`, anything else if not), or the length of
/// the text.
pub open spec fn run_end(text: Seq<char>, pos: int, space: bool) -> int
    decreases text.len() - pos,
{
    if pos < 0 || pos >= text.len() {
        text.len() as int
    } else if white_space(text[pos]) == space {
        run_end(text, pos + 1, space)
    } else {
        pos
    }
}

/// The offset that a word forward from `pos` lands on: past the run of
/// white space or of other characters that `pos` is in, and past the white
/// space that follows a run of other characters.
pub open spec fn word_forward(text: Seq<char>, pos: int) -> int {
    if white_space(text[pos]) {
        run_end(text, pos, true)
    } else {
        run_end(text, run_end(text, pos, false), true)
    }
}

/// The last offset at or before `pos` whose character is not white space,
/// or 0.
pub open spec fn space_start(text: Seq<char>, pos: int) -> int
    decreases pos,
{
    if pos > 0 && white_space(text[pos]) {
        space_start(text, pos - 1)
    } else {
        pos
    }
}

/// The first offset of the run of characters other than white space that
/// ends just before `pos`; `pos` itself where white space comes before it.
pub open spec fn word_start(text: Seq<char>, pos: int) -> int
    decreases pos,
{
    if pos > 0 && !white_space(text[pos - 1]) {
        word_start(text, pos - 1)
    } else {
        pos
    }
}

/// The offset that a word back from `pos` lands on: one character back,
/// back over white space, and to the start of the word found there.
pub open spec fn word_back(text: Seq<char>, pos: int) -> int {
    word_start(text, space_start(text, pos - 1))
}

/// Where the cursor `c` goes by the motion `direction`. A motion that has
/// nowhere to go leaves the cursor where it is.
pub open spec fn moved(text: Seq<char>, c: Cursor, direction: CursorMove) -> Cursor {
    match direction {
        CursorMove::Back => moved_back(text, c),
        CursorMove::Forward => moved_forward(text, c),
        CursorMove::Up => moved_up(text, c),
        CursorMove::Down => moved_down(text, c),
        CursorMove::WordBack => if offset_of(text, c) > 0 {
            cursor_at(text, word_back(text, offset_of(text, c)))
        } else {
            c
        },
        CursorMove::WordForward => if offset_of(text, c) < text.len() {
            cursor_at(text, word_forward(text, offset_of(text, c)))
        } else {
            c
        },
    }
}

/// A run ends at or after the place it is looked for from, and inside the
/// text.
pub proof fn lemma_run_end(text: Seq<char>, pos: int, space: bool)
    requires
        0 <= pos <= text.len(),
    ensures
        pos <= run_end(text, pos, space) <= text.len(),
    decreases text.len() - pos,
{
    if pos < text.len() && white_space(text[pos]) == space {
        lemma_run_end(text, pos + 1, space);
    }
}

/// A word forward lands after the place it starts from, and inside the
/// text.
pub proof fn lemma_word_forward(text: Seq<char>, pos: int)
    requires
        0 <= pos < text.len(),
    ensures
        pos < word_forward(text, pos) <= text.len(),
{
    if white_space(text[pos]) {
        lemma_run_end(text, pos + 1, true);
    } else {
        lemma_run_end(text, pos + 1, false);
        lemma_run_end(text, run_end(text, pos, false), true);
    }
}

/// A word back lands before the place it starts from, and inside the text.
pub proof fn lemma_word_back(text: Seq<char>, pos: int)
    requires
        0 < pos <= text.len(),
    ensures
        0 <= word_back(text, pos) < pos,
{
    lemma_space_start(text, pos - 1);
    lemma_word_start(text, space_start(text, pos - 1));
}

proof fn lemma_space_start(text: Seq<char>, pos: int)
    requires
        0 <= pos,
    ensures
        0 <= space_start(text, pos) <= pos,
    decreases pos,
{
    if pos > 0 && white_space(text[pos]) {
        lemma_space_start(text, pos - 1);
    }
}

proof fn lemma_word_start(text: Seq<char>, pos: int)
    requires
        0 <= pos,
    ensures
        0 <= word_start(text, pos) <= pos,
    decreases pos,
{
    if pos > 0 && !white_space(text[pos - 1]) {
        lemma_word_start(text, pos - 1);
    }
}

fn skip_run(rope: &Rope, pos: usize, space: bool) -> (end: usize)
    requires
        pos <= rope_text(*rope).len(),
    ensures
        end == run_end(rope_text(*rope), pos as int, space),
        pos <= end <= rope_text(*rope).len(),
{
    let total = rope.len_chars();
    let mut p = pos;
    while p < total && rope.char(p).is_whitespace() == space
        invariant
            pos <= p <= total,
            total == rope_text(*rope).len(),
            run_end(rope_text(*rope), pos as int, space) == run_end(
                rope_text(*rope),
                p as int,
                space,
            ),
        decreases total - p,
    {
        p += 1;
    }
    p
}

/// The offset that a word forward from `pos` lands on.
pub fn word_forward_from(rope: &Rope, pos: usize) -> (end: usize)
    requires
        pos < rope_text(*rope).len(),
    ensures
        end == word_forward(rope_text(*rope), pos as int),
        pos < end <= rope_text(*rope).len(),
{
    proof {
        lemma_word_forward(rope_text(*rope), pos as int);
    }
    if rope.char(pos).is_whitespace() {
        skip_run(rope, pos, true)
    } else {
        let word_end = skip_run(rope, pos, false);
        skip_run(rope, word_end, true)
    }
}

/// The offset that a word back from `pos` lands on.
pub fn word_back_from(rope: &Rope, pos: usize) -> (start: usize)
    requires
        0 < pos <= rope_text(*rope).len(),
    ensures
        start == word_back(rope_text(*rope), pos as int),
        start < pos,
{
    proof {
        lemma_word_back(rope_text(*rope), pos as int);
    }
    let mut p = pos - 1;
    while p > 0 && rope.char(p).is_whitespace()
        invariant
            p < pos <= rope_text(*rope).len(),
            space_start(rope_text(*rope), pos - 1) == space_start(rope_text(*rope), p as int),
        decreases p,
    {
        p -= 1;
    }
    while p > 0 && !rope.char(p - 1).is_whitespace()
        invariant
            p < pos <= rope_text(*rope).len(),
            word_back(rope_text(*rope), pos as int) == word_start(rope_text(*rope), p as int),
        decreases p,
    {
        p -= 1;
    }
    p
}

/// Moves a cursor through the text of `rope`.
pub fn step(rope: &Rope, c: Cursor, direction: CursorMove) -> (r: Cursor)
    requires
        is_valid(rope_text(*rope), c),
    ensures
        r == moved(rope_text(*rope), c, direction),
        is_valid(rope_text(*rope), r),
{
    let line_count = rope.len_lines();
    match direction {
        CursorMove::Back => {
            if c.col > 0 {
                Cursor { line: c.line, col: c.col - 1 }
            } else if c.line > 0 {
                Cursor { line: c.line - 1, col: line_visible_len(rope, c.line - 1) }
            } else {
                c
            }
        },
        CursorMove::Forward => {
            if c.col < line_visible_len(rope, c.line) {
                Cursor { line: c.line, col: c.col + 1 }
            } else if c.line + 1 < line_count {
                proof {
                    lemma_line_shape(rope_text(*rope), (c.line + 1) as nat);
                }
                Cursor { line: c.line + 1, col: 0 }
            } else {
                c
            }
        },
        CursorMove::Up => {
            if c.line > 0 {
                let visible = line_visible_len(rope, c.line - 1);
                Cursor { line: c.line - 1, col: if c.col <= visible { c.col } else { visible } }
            } else {
                c
            }
        },
        CursorMove::Down => {
            if c.line + 1 < line_count {
                let visible = line_visible_len(rope, c.line + 1);
                Cursor { line: c.line + 1, col: if c.col <= visible { c.col } else { visible } }
            } else {
                c
            }
        },
        CursorMove::WordBack => {
            let pos = cursor_to_char(rope, c);
            if pos > 0 {
                char_to_cursor(rope, word_back_from(rope, pos))
            } else {
                c
            }
        },
        CursorMove::WordForward => {
            let pos = cursor_to_char(rope, c);
            if pos < rope.len_chars() {
                char_to_cursor(rope, word_forward_from(rope, pos))
            } else {
                c
            }
        },
    }
}

} // verus!
