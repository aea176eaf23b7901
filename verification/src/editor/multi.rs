//! More cursors, and fewer.

use crate::cursor::{clamp_cursor, is_valid, line_visible_len, Cursor};
use crate::cursor_set::{
    all_valid, lemma_squashed, normalize, normalized, squash_out_of_bounds_cursors, squashed,
    strictly_sorted,
};
use crate::editor::{above, below, Editor, EditorView};
use crate::rope::rope_text;
use crate::text::line_count;
use vstd::prelude::*;

verus! {

/// Whether `c` is one of `cursors`.
fn holds_cursor(cursors: &Vec<Cursor>, c: Cursor) -> (b: bool)
    ensures
        b == cursors@.contains(c),
{
    let mut i: usize = 0;
    while i < cursors.len()
        invariant
            i <= cursors@.len(),
            forall|j: int| 0 <= j < i ==> cursors@[j] != c,
        decreases cursors@.len() - i,
    {
        if cursors[i] == c {
            return true;
        }
        i += 1;
    }
    false
}

impl Editor {
    /// Normalizes the cursors, leaves only the first of those on the first
    /// line and of those on the last line, and scrolls to the primary
    /// cursor.
    fn settle_cursors(&mut self)
        requires
            old(self)@.cursors.len() >= 1,
        ensures
            final(self)@ == old(self)@.with(
                old(self)@.text,
                squashed(normalized(old(self)@.text, old(self)@.cursors), old(self)@.last_line()),
            ),
            final(self).wf(),
            final(self)@.viewport.height >= 1 ==> final(self)@.in_view(),
            strictly_sorted(final(self)@.cursors),
            final(self)@.at_most_one_on(0),
            final(self)@.at_most_one_on(final(self)@.last_line()),
    {
        let last_line = self.rope.len_lines() - 1;
        normalize(&self.rope, &mut self.cursors);
        proof {
            lemma_squashed(self.cursors@, last_line);
            let cs = self.cursors@;
            let out = squashed(cs, last_line);
            assert forall|i: int| 0 <= i < out.len() implies is_valid(
                self@.text,
                #[trigger] out[i],
            ) by {
                assert(out.contains(out[i]));
                assert(cs.contains(out[i]));
                let k = choose|k: int| 0 <= k < cs.len() && cs[k] == out[i];
                assert(is_valid(self@.text, cs[k]));
            }
        }
        squash_out_of_bounds_cursors(&mut self.cursors, last_line);
        self.viewport.ensure_visible(self.cursors[0].line);
    }

    /// Adds a cursor one line below every cursor that has a line below it.
    pub fn add_cursor_below(&mut self)
        requires
            old(self).wf(),
        ensures
            final(self)@ == old(self)@.after_add_cursor_below(),
            final(self).wf(),
            final(self)@.viewport.height >= 1 ==> final(self)@.in_view(),
            strictly_sorted(final(self)@.cursors),
            final(self)@.at_most_one_on(0),
            final(self)@.at_most_one_on(final(self)@.last_line()),
    {
        let lines = self.rope.len_lines();
        let n = self.cursors.len();
        let mut i: usize = 0;
        let ghost before = self.cursors@;
        while i < n
            invariant
                i <= n,
                n == before.len(),
                lines == line_count(rope_text(self.rope)),
                all_valid(rope_text(self.rope), before),
                self.cursors@ == before + below(rope_text(self.rope), before.subrange(0, i as int)),
                self@ == (EditorView { cursors: self.cursors@, ..old(self)@ }),
            decreases n - i,
        {
            let c = self.cursors[i];
            proof {
                let s = before.subrange(0, i + 1);
                assert(s.drop_last() =~= before.subrange(0, i as int));
                assert(s.last() == c);
                assert(is_valid(rope_text(self.rope), before[i as int]));
            }
            if c.line + 1 < lines {
                let visible = line_visible_len(&self.rope, c.line + 1);
                let added = Cursor {
                    line: c.line + 1,
                    col: if c.col <= visible {
                        c.col
                    } else {
                        visible
                    },
                };
                proof {
                    let sofar = below(rope_text(self.rope), before.subrange(0, i as int));
                    assert((before + sofar).push(added) =~= before + sofar.push(added));
                }
                self.cursors.push(added);
            }
            i += 1;
        }
        proof {
            assert(before.subrange(0, n as int) =~= before);
        }
        self.settle_cursors();
    }

    /// Adds a cursor one line above every cursor that has a line above it.
    pub fn add_cursor_above(&mut self)
        requires
            old(self).wf(),
        ensures
            final(self)@ == old(self)@.after_add_cursor_above(),
            final(self).wf(),
            final(self)@.viewport.height >= 1 ==> final(self)@.in_view(),
            strictly_sorted(final(self)@.cursors),
            final(self)@.at_most_one_on(0),
            final(self)@.at_most_one_on(final(self)@.last_line()),
    {
        let n = self.cursors.len();
        let mut i: usize = 0;
        let ghost before = self.cursors@;
        while i < n
            invariant
                i <= n,
                n == before.len(),
                all_valid(rope_text(self.rope), before),
                self.cursors@ == before + above(rope_text(self.rope), before.subrange(0, i as int)),
                self@ == (EditorView { cursors: self.cursors@, ..old(self)@ }),
            decreases n - i,
        {
            let c = self.cursors[i];
            proof {
                let s = before.subrange(0, i + 1);
                assert(s.drop_last() =~= before.subrange(0, i as int));
                assert(s.last() == c);
                assert(is_valid(rope_text(self.rope), before[i as int]));
            }
            if c.line > 0 {
                let visible = line_visible_len(&self.rope, c.line - 1);
                let added = Cursor {
                    line: c.line - 1,
                    col: if c.col <= visible {
                        c.col
                    } else {
                        visible
                    },
                };
                proof {
                    let sofar = above(rope_text(self.rope), before.subrange(0, i as int));
                    assert((before + sofar).push(added) =~= before + sofar.push(added));
                }
                self.cursors.push(added);
            }
            i += 1;
        }
        proof {
            assert(before.subrange(0, n as int) =~= before);
        }
        self.settle_cursors();
    }

    /// Adds a cursor at `line` and `col`, or as near to that as the text
    /// allows, unless a cursor stands there already. The new cursor comes
    /// last, so the primary cursor stays what it is.
    pub fn add_cursor_at(&mut self, line: usize, col: usize)
        requires
            old(self).wf(),
        ensures
            final(self)@ == old(self)@.after_add_cursor_at(line, col),
            final(self).wf(),
    {
        let added = clamp_cursor(&self.rope, Cursor { line, col });
        if !holds_cursor(&self.cursors, added) {
            self.cursors.push(added);
        }
    }

    /// Leaves only the first of the cursors in order of position.
    pub fn clear_cursors(&mut self)
        requires
            old(self).wf(),
        ensures
            final(self)@ == old(self)@.after_clear_cursors(),
            final(self).wf(),
            final(self)@.viewport.height >= 1 ==> final(self)@.in_view(),
            final(self)@.cursors.len() == 1,
    {
        normalize(&self.rope, &mut self.cursors);
        let primary = self.cursors[0];
        let mut only: Vec<Cursor> = Vec::new();
        only.push(primary);
        proof {
            assert(only@ =~= seq![primary]);
        }
        self.cursors = only;
        self.viewport.ensure_visible(primary.line);
    }
}

} // verus!
