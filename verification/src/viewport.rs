//! The viewport: which lines of the text are on screen.

use vstd::prelude::*;

verus! {

/// The window of lines on screen: its first line and its number of rows.
/// The host sets the number of rows whenever it lays the screen out.
#[derive(Clone, Copy, Debug, PartialEq, Eq, Structural)]
pub struct Viewport {
    pub top_line: usize,
    pub height: usize,
}

impl Viewport {
    /// Whether `line` is on screen.
    pub open spec fn shows(self, line: usize) -> bool {
        self.top_line <= line < self.top_line + self.height
    }

    /// The viewport after it has followed a cursor to `line`: a line above
    /// the window becomes the first line; a line below it becomes the last
    /// row; a line on screen moves nothing.
    pub open spec fn following(self, line: usize) -> Viewport {
        if line < self.top_line {
            Viewport { top_line: line, height: self.height }
        } else if line - self.top_line >= self.height {
            Viewport {
                top_line: if line - self.height < usize::MAX {
                    (line - self.height + 1) as usize
                } else {
                    usize::MAX
                },
                height: self.height,
            }
        } else {
            self
        }
    }

    /// The viewport one line further up, and not past line `last_line`.
    pub open spec fn scrolled_up(self, last_line: usize) -> Viewport {
        let top = if self.top_line > 0 {
            (self.top_line - 1) as usize
        } else {
            0
        };
        Viewport { top_line: if top <= last_line { top } else { last_line }, height: self.height }
    }

    /// The viewport one line further down, and not past line `last_line`.
    pub open spec fn scrolled_down(self, last_line: usize) -> Viewport {
        Viewport {
            top_line: if self.top_line < last_line {
                (self.top_line + 1) as usize
            } else {
                last_line
            },
            height: self.height,
        }
    }

    /// The line on screen nearest to `line`. A window without rows shows
    /// nothing: then only a line above the window is brought down to its
    /// first line.
    pub open spec fn nearest(self, line: usize) -> usize {
        if line < self.top_line {
            self.top_line
        } else if self.height > 0 && line - self.top_line >= self.height {
            (self.top_line + self.height - 1) as usize
        } else {
            line
        }
    }

    /// A viewport at the top of the text, with no rows yet.
    pub fn new() -> (v: Viewport)
        ensures
            v == (Viewport { top_line: 0, height: 0 }),
    {
        Viewport { top_line: 0, height: 0 }
    }

    /// Scrolls so that `cursor_line` is on screen, and no further.
    pub fn ensure_visible(&mut self, cursor_line: usize)
        ensures
            *final(self) == old(self).following(cursor_line),
            old(self).height >= 1 ==> final(self).shows(cursor_line),
    {
        if cursor_line < self.top_line {
            self.top_line = cursor_line;
        } else if cursor_line - self.top_line >= self.height {
            self.top_line = (cursor_line - self.height).saturating_add(1);
        }
    }

    /// Scrolls one line up; the first line stays within `0..=last_line`.
    pub fn scroll_up(&mut self, last_line: usize)
        ensures
            *final(self) == old(self).scrolled_up(last_line),
            final(self).top_line <= last_line,
    {
        if self.top_line > 0 {
            self.top_line -= 1;
        }
        if self.top_line > last_line {
            self.top_line = last_line;
        }
    }

    /// Scrolls one line down; the first line stays within `0..=last_line`.
    pub fn scroll_down(&mut self, last_line: usize)
        ensures
            *final(self) == old(self).scrolled_down(last_line),
            final(self).top_line <= last_line,
    {
        if self.top_line < last_line {
            self.top_line += 1;
        } else {
            self.top_line = last_line;
        }
    }

    /// The line on screen nearest to `line`.
    pub fn nearest_visible(&self, line: usize) -> (r: usize)
        ensures
            r == self.nearest(line),
            self.height >= 1 ==> self.shows(r),
            self.shows(line) ==> r == line,
    {
        if line < self.top_line {
            self.top_line
        } else if self.height > 0 && line - self.top_line >= self.height {
            self.top_line + (self.height - 1)
        } else {
            line
        }
    }
}

} // verus!
