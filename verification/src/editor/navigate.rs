//! Moving the primary cursor, and scrolling the screen by hand.

use crate::cursor::{clamp_cursor, is_valid, Cursor, CursorMove};
use crate::editor::Editor;
use crate::motion::step;
use vstd::prelude::*;

verus! {

impl Editor {
    /// Moves the primary cursor, and scrolls so that it stays on screen.
    pub fn move_cursor(&mut self, direction: CursorMove)
        requires
            old(self).wf(),
        ensures
            final(self)@ == old(self)@.after_move(direction),
            final(self).wf(),
            final(self)@.viewport.height >= 1 ==> final(self)@.in_view(),
    {
        assert(is_valid(self@.text, self.cursors@[0]));
        let c = step(&self.rope, self.cursors[0], direction);
        self.cursors.set(0, c);
        self.viewport.ensure_visible(c.line);
    }

    /// Brings the primary cursor to the nearest line on screen.
    fn pull_cursor(&mut self)
        requires
            old(self).wf(),
        ensures
            final(self)@ == old(self)@.pulled_into(old(self)@.viewport),
            final(self).wf(),
    {
        let c = self.cursors[0];
        let line = self.viewport.nearest_visible(c.line);
        let pulled = clamp_cursor(&self.rope, Cursor { line, col: c.col });
        self.cursors.set(0, pulled);
    }

    /// Scrolls one line up. A primary cursor that is then off screen is
    /// brought to the nearest line on screen.
    pub fn scroll_up(&mut self)
        requires
            old(self).wf(),
        ensures
            final(self)@ == old(self)@.after_scroll_up(),
            final(self).wf(),
            final(self)@.viewport.height >= 1 ==> final(self)@.in_view(),
    {
        let last_line = self.rope.len_lines() - 1;
        self.viewport.scroll_up(last_line);
        self.pull_cursor();
    }

    /// Scrolls one line down. A primary cursor that is then off screen is
    /// brought to the nearest line on screen.
    pub fn scroll_down(&mut self)
        requires
            old(self).wf(),
        ensures
            final(self)@ == old(self)@.after_scroll_down(),
            final(self).wf(),
            final(self)@.viewport.height >= 1 ==> final(self)@.in_view(),
    {
        let last_line = self.rope.len_lines() - 1;
        self.viewport.scroll_down(last_line);
        self.pull_cursor();
    }
}

} // verus!
