//! The editor: a rope of text, the cursors in it and the viewport over it.
//!
//! `EditorView` is the editor as mathematics, and its functions say what
//! each operation makes of it. The operations themselves are in the
//! submodules.

use crate::cursor::{clamped, Cursor, CursorMove};
use crate::cursor_set::{all_valid, in_order, normalized, squashed};
use crate::edits::{delete_points, deleted, inserted, moved_by_delete, moved_by_insert, offsets};
use crate::motion::{moved, on_line};
use crate::chars::white_space;
use crate::path::{extension_of, file_extension};
use crate::rope::{rope_text, rope_to_string};
use crate::text::{lemma_line_shape, line_count, line_text};
use crate::viewport::Viewport;
use ropey::Rope;
use vstd::prelude::*;

mod edit;
mod multi;
mod navigate;

verus! {

/// For each cursor of `cs` that has a line below it, a cursor on that
/// line, at the same column or at the end of the line.
pub open spec fn below(text: Seq<char>, cs: Seq<Cursor>) -> Seq<Cursor>
    decreases cs.len(),
{
    if cs.len() == 0 {
        cs
    } else if cs.last().line + 1 < line_count(text) {
        below(text, cs.drop_last()).push(on_line(text, cs.last(), (cs.last().line + 1) as usize))
    } else {
        below(text, cs.drop_last())
    }
}

/// For each cursor of `cs` that has a line above it, a cursor on that
/// line, at the same column or at the end of the line.
pub open spec fn above(text: Seq<char>, cs: Seq<Cursor>) -> Seq<Cursor>
    decreases cs.len(),
{
    if cs.len() == 0 {
        cs
    } else if cs.last().line > 0 {
        above(text, cs.drop_last()).push(on_line(text, cs.last(), (cs.last().line - 1) as usize))
    } else {
        above(text, cs.drop_last())
    }
}

/// The white space that `line` starts with, up to its line feed.
pub open spec fn leading_space(line: Seq<char>) -> Seq<char>
    decreases line.len(),
{
    if line.len() > 0 && white_space(line[0]) && line[0] != '\n' {
        seq![line[0]] + leading_space(line.drop_first())
    } else {
        Seq::empty()
    }
}

/// What an editor holds, as mathematics.
pub struct EditorView {
    pub text: Seq<char>,
    pub cursors: Seq<Cursor>,
    pub viewport: Viewport,
    pub file_path: Option<Seq<char>>,
    pub show_gutter: bool,
    pub insert_inactive: bool,
}

impl EditorView {
    /// An editor is well formed when it has a cursor and every cursor is
    /// valid in its text.
    pub open spec fn wf(self) -> bool {
        &&& self.cursors.len() >= 1
        &&& all_valid(self.text, self.cursors)
    }

    /// The primary cursor: the first of the sequence.
    pub open spec fn primary(self) -> Cursor {
        self.cursors[0]
    }

    /// No two cursors are on line `line`.
    pub open spec fn at_most_one_on(self, line: usize) -> bool {
        forall|i: int, j: int|
            0 <= i < j < self.cursors.len() ==> !(self.cursors[i].line == line
                && self.cursors[j].line == line)
    }

    /// Whether the line of the primary cursor is on screen.
    pub open spec fn in_view(self) -> bool {
        self.viewport.shows(self.primary().line)
    }

    /// This editor with another text and other cursors, its viewport
    /// having followed the new primary cursor.
    pub open spec fn with(self, text: Seq<char>, cursors: Seq<Cursor>) -> EditorView {
        EditorView { text, cursors, viewport: self.viewport.following(cursors[0].line), ..self }
    }

    /// The editor after `ch` has been typed: `ch` is put in at every
    /// cursor, every cursor stands behind what was put in at or before it,
    /// and the cursors are normalized.
    pub open spec fn after_input(self, ch: char) -> EditorView {
        let offs = offsets(self.text, in_order(self.cursors));
        let text = inserted(self.text, offs, ch);
        self.with(text, normalized(text, moved_by_insert(self.text, offs, ch)))
    }

    /// The editor after `n` spaces have been typed one after the other.
    pub open spec fn after_spaces(self, n: nat) -> EditorView
        decreases n,
    {
        if n == 0 {
            self
        } else {
            self.after_spaces((n - 1) as nat).after_input(' ')
        }
    }

    /// The editor after the characters `chars` have been typed one after
    /// the other.
    pub open spec fn after_typing(self, chars: Seq<char>) -> EditorView
        decreases chars.len(),
    {
        if chars.len() == 0 {
            self
        } else {
            self.after_typing(chars.drop_last()).after_input(chars.last())
        }
    }

    /// The editor after `n` backspaces.
    pub open spec fn after_backspaces(self, n: nat) -> EditorView
        decreases n,
    {
        if n == 0 {
            self
        } else {
            self.after_backspaces((n - 1) as nat).after_backspace()
        }
    }

    /// The white space that the line of the primary cursor starts with.
    pub open spec fn indent(self) -> Seq<char> {
        leading_space(line_text(self.text, self.cursors[0].line as nat))
    }

    /// The editor after a new line has been started: a line feed has been
    /// typed, and then the white space that the line of the primary cursor
    /// started with.
    pub open spec fn after_newline(self) -> EditorView {
        self.after_typing(seq!['\n'] + self.indent())
    }

    /// The editor after a step of indentation has been taken back: as many
    /// backspaces as the line of the primary cursor starts with white
    /// space, and at most `tab_size`.
    pub open spec fn after_reverse_tab(self, tab_size: usize) -> EditorView {
        self.after_backspaces(
            if self.indent().len() < tab_size {
                self.indent().len()
            } else {
                tab_size as nat
            },
        )
    }

    /// The index of the last line.
    pub open spec fn last_line(self) -> usize {
        (line_count(self.text) - 1) as usize
    }

    /// The editor after the primary cursor has moved. The other cursors
    /// stay where they are.
    pub open spec fn after_move(self, direction: CursorMove) -> EditorView {
        self.with(self.text, self.cursors.update(0, moved(self.text, self.cursors[0], direction)))
    }

    /// This editor with the viewport `viewport`, and the primary cursor
    /// brought to the nearest line on screen, at the same column or at the
    /// end of that line.
    pub open spec fn pulled_into(self, viewport: Viewport) -> EditorView {
        EditorView {
            viewport,
            cursors: self.cursors.update(
                0,
                clamped(
                    self.text,
                    Cursor {
                        line: viewport.nearest(self.cursors[0].line),
                        col: self.cursors[0].col,
                    },
                ),
            ),
            ..self
        }
    }

    /// The editor after the screen has been scrolled one line up.
    pub open spec fn after_scroll_up(self) -> EditorView {
        self.pulled_into(self.viewport.scrolled_up(self.last_line()))
    }

    /// The editor after the screen has been scrolled one line down.
    pub open spec fn after_scroll_down(self) -> EditorView {
        self.pulled_into(self.viewport.scrolled_down(self.last_line()))
    }

    /// The editor after every cursor with a line below it has got a new
    /// cursor on that line: the cursors are normalized, and of those on the
    /// first line and of those on the last line only the first stays.
    pub open spec fn after_add_cursor_below(self) -> EditorView {
        self.with(
            self.text,
            squashed(
                normalized(self.text, self.cursors + below(self.text, self.cursors)),
                self.last_line(),
            ),
        )
    }

    /// The editor after every cursor with a line above it has got a new
    /// cursor on that line: the cursors are normalized, and of those on the
    /// first line and of those on the last line only the first stays.
    pub open spec fn after_add_cursor_above(self) -> EditorView {
        self.with(
            self.text,
            squashed(
                normalized(self.text, self.cursors + above(self.text, self.cursors)),
                self.last_line(),
            ),
        )
    }

    /// The editor with one more cursor, at `line` and `col` or as near to
    /// that as the text allows. Where a cursor stands there already,
    /// nothing is added.
    pub open spec fn after_add_cursor_at(self, line: usize, col: usize) -> EditorView {
        let added = clamped(self.text, Cursor { line, col });
        if self.cursors.contains(added) {
            self
        } else {
            EditorView { cursors: self.cursors.push(added), ..self }
        }
    }

    /// The editor with only the first of its cursors in order of position.
    pub open spec fn after_clear_cursors(self) -> EditorView {
        self.with(self.text, seq![normalized(self.text, self.cursors)[0]])
    }

    /// The editor after the document `content` has been opened from
    /// `path`: one cursor at the start, the viewport at the top.
    pub open spec fn after_open(self, path: Seq<char>, content: Seq<char>) -> EditorView {
        EditorView {
            text: content,
            cursors: seq![Cursor { line: 0, col: 0 }],
            viewport: Viewport { top_line: 0, height: self.viewport.height },
            file_path: Some(path),
            ..self
        }
    }

    /// The editor after a backspace: the character before every cursor
    /// that is not at the start of the text is deleted, once where several
    /// cursors stand at one place; every cursor moves back by the number of
    /// characters deleted before it, and the cursors are normalized.
    pub open spec fn after_backspace(self) -> EditorView {
        let offs = offsets(self.text, in_order(self.cursors));
        let text = deleted(self.text, delete_points(offs));
        self.with(text, normalized(text, moved_by_delete(self.text, offs)))
    }
}

/// The text-editing session over one document.
pub struct Editor {
    rope: Rope,
    cursors: Vec<Cursor>,
    viewport: Viewport,
    file_path: Option<String>,
    show_gutter: bool,
    insert_inactive: bool,
}

impl View for Editor {
    type V = EditorView;

    closed spec fn view(&self) -> EditorView {
        EditorView {
            text: rope_text(self.rope),
            cursors: self.cursors@,
            viewport: self.viewport,
            file_path: match self.file_path {
                Some(p) => Some(p@),
                None => None,
            },
            show_gutter: self.show_gutter,
            insert_inactive: self.insert_inactive,
        }
    }
}

impl Editor {
    /// See `EditorView::wf`.
    pub open spec fn wf(&self) -> bool {
        self@.wf()
    }

    /// An editor over `initial`, or over the empty text, with one cursor
    /// at the start and the viewport at the top.
    pub fn new(initial: Option<&str>, file_path: Option<String>) -> (editor: Editor)
        ensures
            editor.wf(),
            editor@ == (EditorView {
                text: match initial {
                    Some(text) => text@,
                    None => Seq::empty(),
                },
                cursors: seq![Cursor { line: 0, col: 0 }],
                viewport: Viewport { top_line: 0, height: 0 },
                file_path: match file_path {
                    Some(p) => Some(p@),
                    None => None,
                },
                show_gutter: true,
                insert_inactive: true,
            }),
    {
        let rope = match initial {
            Some(text) => Rope::from_str(text),
            None => {
                proof {
                    reveal_strlit("");
                }
                Rope::from_str("")
            },
        };
        let mut cursors: Vec<Cursor> = Vec::new();
        cursors.push(Cursor { line: 0, col: 0 });
        proof {
            lemma_line_shape(rope_text(rope), 0);
            assert(cursors@ =~= seq![Cursor { line: 0, col: 0 }]);
            if initial is None {
                assert(rope_text(rope) =~= Seq::empty());
            }
        }
        Editor {
            rope,
            cursors,
            viewport: Viewport::new(),
            file_path,
            show_gutter: true,
            insert_inactive: true,
        }
    }

    /// Opens a document that the host has read from `file_path`. The host
    /// calls this only when it could read the file.
    pub fn open_file(&mut self, file_path: &str, content: &str)
        ensures
            final(self)@ == old(self)@.after_open(file_path@, content@),
            final(self).wf(),
    {
        self.rope = Rope::from_str(content);
        self.file_path = Some(file_path.to_owned());
        let mut cursors: Vec<Cursor> = Vec::new();
        cursors.push(Cursor { line: 0, col: 0 });
        proof {
            lemma_line_shape(rope_text(self.rope), 0);
            assert(cursors@ =~= seq![Cursor { line: 0, col: 0 }]);
        }
        self.cursors = cursors;
        self.viewport.top_line = 0;
    }

    /// The rope that holds the text.
    pub fn rope(&self) -> (rope: &Rope)
        ensures
            rope_text(*rope) == self@.text,
    {
        &self.rope
    }

    /// The text, as a string.
    pub fn text(&self) -> (text: String)
        ensures
            text@ == self@.text,
    {
        rope_to_string(&self.rope)
    }

    /// The cursors, the primary cursor first.
    pub fn cursors(&self) -> (cursors: &Vec<Cursor>)
        ensures
            cursors@ == self@.cursors,
    {
        &self.cursors
    }

    /// The path of the document, where it has one.
    pub fn file_path(&self) -> (path: Option<&String>)
        ensures
            match path {
                Some(p) => self@.file_path == Some(p@),
                None => self@.file_path is None,
            },
    {
        self.file_path.as_ref()
    }

    /// The extension of the path of the document, by which the host finds
    /// the rules of its language.
    pub fn get_file_extension(&self) -> (extension: Option<String>)
        ensures
            match extension {
                Some(ext) => self@.file_path matches Some(p) && extension_of(p) == Some(ext@),
                None => self@.file_path matches Some(p) ==> extension_of(p) is None,
            },
    {
        match &self.file_path {
            Some(path) => file_extension(path.as_str()),
            None => None,
        }
    }

    /// Whether the line numbers are shown.
    pub fn show_gutter(&self) -> (shown: bool)
        ensures
            shown == self@.show_gutter,
    {
        self.show_gutter
    }

    /// Shows the line numbers if they are hidden, and hides them if they
    /// are shown.
    pub fn toggle_gutter(&mut self)
        ensures
            final(self)@ == (EditorView { show_gutter: !old(self)@.show_gutter, ..old(self)@ }),
    {
        self.show_gutter = !self.show_gutter;
    }

    /// Whether the editor is out of insert mode, and its cursors are shown
    /// dimmed.
    pub fn insert_inactive(&self) -> (inactive: bool)
        ensures
            inactive == self@.insert_inactive,
    {
        self.insert_inactive
    }

    /// Says whether the editor is out of insert mode.
    pub fn set_insert_inactive(&mut self, inactive: bool)
        ensures
            final(self)@ == (EditorView { insert_inactive: inactive, ..old(self)@ }),
    {
        self.insert_inactive = inactive;
    }

    /// The first line on screen.
    pub fn top_line(&self) -> (line: usize)
        ensures
            line == self@.viewport.top_line,
    {
        self.viewport.top_line
    }

    /// The number of rows on screen.
    pub fn height(&self) -> (rows: usize)
        ensures
            rows == self@.viewport.height,
    {
        self.viewport.height
    }

    /// Sets the number of rows on screen, as the host has laid it out.
    /// Nothing scrolls until the next operation.
    pub fn set_height(&mut self, height: usize)
        ensures
            final(self)@ == (EditorView {
                viewport: Viewport { top_line: old(self)@.viewport.top_line, height },
                ..old(self)@
            }),
    {
        self.viewport.height = height;
    }
}

} // verus!
