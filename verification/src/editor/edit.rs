//! Typing and deleting at every cursor.

use crate::cursor::{char_to_cursor, cursor_at, cursor_to_char, is_valid, offset_of, Cursor};
use crate::cursor_set::{all_valid, in_order, lemma_in_order, normalize, sort_cursors};
use crate::editor::{leading_space, Editor, EditorView};
use crate::edits::{
    count_at_or_before, delete_points, deleted, inserted, lemma_count_of_distinct,
    lemma_delete_points, lemma_offsets_of_sorted, moved_by_delete, moved_by_insert, offsets,
    within,
};
use crate::rope::{rope_line_chars, rope_remove, rope_text};
use ropey::Rope;
use vstd::prelude::*;

verus! {

/// Machine offsets as mathematical ones.
pub open spec fn as_ints(v: Seq<usize>) -> Seq<int> {
    Seq::new(v.len(), |i: int| v[i] as int)
}

/// How many of the offsets `offs` are at or before `p`.
fn count_before(offs: &Vec<usize>, p: usize) -> (n: usize)
    ensures
        n == count_at_or_before(as_ints(offs@), p as int),
        n <= offs@.len(),
{
    let mut n: usize = 0;
    let mut i: usize = 0;
    while i < offs.len()
        invariant
            i <= offs@.len(),
            n <= i,
            n == count_at_or_before(as_ints(offs@).subrange(0, i as int), p as int),
        decreases offs@.len() - i,
    {
        proof {
            let s = as_ints(offs@).subrange(0, i + 1);
            assert(s.drop_last() =~= as_ints(offs@).subrange(0, i as int));
            assert(s.last() == offs@[i as int] as int);
        }
        if offs[i] <= p {
            n += 1;
        }
        i += 1;
    }
    proof {
        assert(as_ints(offs@).subrange(0, offs@.len() as int) =~= as_ints(offs@));
    }
    n
}

/// The offsets of valid cursors, in their order.
fn cursor_offsets(rope: &Rope, cursors: &Vec<Cursor>) -> (offs: Vec<usize>)
    requires
        all_valid(rope_text(*rope), cursors@),
    ensures
        as_ints(offs@) == offsets(rope_text(*rope), cursors@),
        offs@.len() == cursors@.len(),
{
    let mut offs: Vec<usize> = Vec::new();
    let mut i: usize = 0;
    while i < cursors.len()
        invariant
            i <= cursors@.len(),
            all_valid(rope_text(*rope), cursors@),
            offs@.len() == i,
            forall|j: int| 0 <= j < i ==> offs@[j] as int == offset_of(rope_text(*rope), cursors@[j]),
        decreases cursors@.len() - i,
    {
        assert(is_valid(rope_text(*rope), cursors@[i as int]));
        let p = cursor_to_char(rope, cursors[i]);
        offs.push(p);
        i += 1;
    }
    proof {
        assert(as_ints(offs@) =~= offsets(rope_text(*rope), cursors@));
    }
    offs
}

/// The offsets of `offs` above 0, each once, where `offs` is ascending.
fn points_to_delete(offs: &Vec<usize>) -> (points: Vec<usize>)
    ensures
        as_ints(points@) == delete_points(as_ints(offs@)),
{
    let mut points: Vec<usize> = Vec::new();
    let mut i: usize = 0;
    while i < offs.len()
        invariant
            i <= offs@.len(),
            as_ints(points@) == delete_points(as_ints(offs@).subrange(0, i as int)),
        decreases offs@.len() - i,
    {
        let p = offs[i];
        proof {
            let s = as_ints(offs@).subrange(0, i + 1);
            assert(s.drop_last() =~= as_ints(offs@).subrange(0, i as int));
            assert(s.last() == p as int);
            if i > 0 {
                assert(s[s.len() - 2] == offs@[i - 1] as int);
            }
        }
        if p > 0 && (i == 0 || offs[i - 1] != p) {
            proof {
                assert(as_ints(points@.push(p)) =~= as_ints(points@).push(p as int));
            }
            points.push(p);
        }
        i += 1;
    }
    proof {
        assert(as_ints(offs@).subrange(0, offs@.len() as int) =~= as_ints(offs@));
    }
    points
}

impl Editor {
    /// Types `ch`: puts it in at every cursor and moves every cursor behind
    /// what was put in at or before it.
    /// Puts the cursors in order and gives their offsets.
    fn sorted_offsets(&mut self) -> (positions: Vec<usize>)
        requires
            old(self).wf(),
        ensures
            final(self)@ == (EditorView {
                cursors: in_order(old(self)@.cursors),
                ..old(self)@
            }),
            as_ints(positions@) == offsets(old(self)@.text, in_order(old(self)@.cursors)),
            positions@.len() == old(self)@.cursors.len(),
            crate::edits::ascending(as_ints(positions@)),
            within(as_ints(positions@), 0, old(self)@.text.len() as int),
    {
        let ghost text0 = rope_text(self.rope);
        let ghost sorted0 = in_order(self.cursors@);
        proof {
            lemma_in_order(self.cursors@);
            assert(all_valid(text0, sorted0)) by {
                assert forall|i: int| 0 <= i < sorted0.len() implies is_valid(
                    text0,
                    #[trigger] sorted0[i],
                ) by {
                    assert(sorted0.contains(sorted0[i]));
                    assert(self.cursors@.contains(sorted0[i]));
                    let k = choose|k: int|
                        0 <= k < self.cursors@.len() && self.cursors@[k] == sorted0[i];
                    assert(is_valid(text0, self.cursors@[k]));
                }
            }
            lemma_offsets_of_sorted(text0, sorted0);
        }
        sort_cursors(&mut self.cursors);
        cursor_offsets(&self.rope, &self.cursors)
    }

    /// Types `ch`: puts it in at every cursor and moves every cursor behind
    /// what was put in at or before it.
    pub fn input(&mut self, ch: char)
        requires
            old(self).wf(),
            old(self)@.text.len() + old(self)@.cursors.len() <= usize::MAX,
        ensures
            final(self)@ == old(self)@.after_input(ch),
            final(self).wf(),
            final(self)@.viewport.height >= 1 ==> final(self)@.in_view(),
            crate::cursor_set::strictly_sorted(final(self)@.cursors),
            final(self)@.text.len() == old(self)@.text.len() + old(self)@.cursors.len(),
            final(self)@.cursors.len() <= old(self)@.cursors.len(),
    {
        let ghost text0 = rope_text(self.rope);
        let ghost sorted0 = in_order(self.cursors@);
        let positions = self.sorted_offsets();
        let ghost offs = as_ints(positions@);
        let k = positions.len();
        proof {
            assert(offs.subrange(0, k as int) =~= offs);
        }

        let mut i: usize = k;
        while i > 0
            invariant
                i <= k,
                k == positions@.len(),
                offs == as_ints(positions@),
                within(offs, 0, text0.len() as int),
                text0.len() + k <= usize::MAX,
                rope_text(self.rope).len() == text0.len() + (k - i),
                inserted(text0, offs, ch) == inserted(
                    rope_text(self.rope),
                    offs.subrange(0, i as int),
                    ch,
                ),
                self@ == (EditorView {
                    text: rope_text(self.rope),
                    cursors: sorted0,
                    ..old(self)@
                }),
            decreases i,
        {
            i -= 1;
            proof {
                let s = offs.subrange(0, i + 1);
                assert(s.drop_last() =~= offs.subrange(0, i as int));
                assert(s.last() == offs[i as int]);
                assert(0 <= offs[i as int] <= text0.len());
            }
            self.rope.insert_char(positions[i], ch);
        }
        let ghost text1 = rope_text(self.rope);
        proof {
            assert(offs.subrange(0, 0) =~= Seq::<int>::empty());
            assert(text1 == inserted(text0, offs, ch));
        }

        let mut moved: Vec<Cursor> = Vec::new();
        let mut j: usize = 0;
        while j < k
            invariant
                j <= k,
                k == positions@.len(),
                offs == as_ints(positions@),
                within(offs, 0, text0.len() as int),
                rope_text(self.rope) == text1,
                text1 == inserted(text0, offs, ch),
                text1.len() == text0.len() + k,
                text0.len() + k <= usize::MAX,
                moved@.len() == j,
                forall|m: int|
                    0 <= m < j ==> moved@[m] == cursor_at(
                        text1,
                        offs[m] + count_at_or_before(offs, offs[m]),
                    ),
            decreases k - j,
        {
            let shift = count_before(&positions, positions[j]);
            proof {
                assert(0 <= offs[j as int] <= text0.len());
            }
            let c = char_to_cursor(&self.rope, positions[j] + shift);
            moved.push(c);
            j += 1;
        }
        proof {
            assert(moved@ =~= moved_by_insert(text0, offs, ch));
        }
        self.cursors = moved;
        normalize(&self.rope, &mut self.cursors);
        self.viewport.ensure_visible(self.cursors[0].line);
    }

    /// Deletes the character before every cursor that is not at the start
    /// of the text, once where several cursors stand at one place, and
    /// moves every cursor back by the number of characters deleted before
    /// it.
    pub fn backspace(&mut self)
        requires
            old(self).wf(),
        ensures
            final(self)@ == old(self)@.after_backspace(),
            final(self).wf(),
            final(self)@.viewport.height >= 1 ==> final(self)@.in_view(),
            crate::cursor_set::strictly_sorted(final(self)@.cursors),
    {
        let ghost text0 = rope_text(self.rope);
        let ghost sorted0 = in_order(self.cursors@);
        let positions = self.sorted_offsets();
        let ghost offs = as_ints(positions@);
        let k = positions.len();
        let points = points_to_delete(&positions);
        let ghost pts = as_ints(points@);
        let n = points.len();
        proof {
            lemma_delete_points(offs, text0.len() as int);
            assert(pts.subrange(0, n as int) =~= pts);
        }

        let mut i: usize = n;
        while i > 0
            invariant
                i <= n,
                n == points@.len(),
                pts == as_ints(points@),
                within(pts, 1, text0.len() as int),
                forall|a: int, b: int| 0 <= a < b < pts.len() ==> pts[a] < pts[b],
                rope_text(self.rope).len() == text0.len() - (n - i),
                i > 0 ==> pts[i - 1] <= rope_text(self.rope).len(),
                deleted(text0, pts) == deleted(rope_text(self.rope), pts.subrange(0, i as int)),
                self@ == (EditorView {
                    text: rope_text(self.rope),
                    cursors: sorted0,
                    ..old(self)@
                }),
            decreases i,
        {
            i -= 1;
            proof {
                let s = pts.subrange(0, i + 1);
                assert(s.drop_last() =~= pts.subrange(0, i as int));
                assert(s.last() == pts[i as int]);
                assert(1 <= pts[i as int] <= text0.len());
                if i > 0 {
                    assert(pts[i - 1] < pts[i as int]);
                }
                let cur = rope_text(self.rope);
                let q = pts[i as int];
                assert(cur.remove(q - 1) =~= cur.subrange(0, q - 1) + cur.subrange(
                    q,
                    cur.len() as int,
                ));
            }
            rope_remove(&mut self.rope, points[i] - 1, points[i]);
        }
        let ghost text1 = rope_text(self.rope);
        proof {
            assert(pts.subrange(0, 0) =~= Seq::<int>::empty());
            assert(text1 == deleted(text0, pts));
        }

        let mut moved: Vec<Cursor> = Vec::new();
        let mut j: usize = 0;
        while j < k
            invariant
                j <= k,
                k == positions@.len(),
                n == points@.len(),
                offs == as_ints(positions@),
                pts == as_ints(points@),
                pts == delete_points(offs),
                within(offs, 0, text0.len() as int),
                within(pts, 1, text0.len() as int),
                forall|a: int, b: int| 0 <= a < b < pts.len() ==> pts[a] < pts[b],
                rope_text(self.rope) == text1,
                text1 == deleted(text0, pts),
                text1.len() == text0.len() - n,
                moved@.len() == j,
                forall|m: int|
                    0 <= m < j ==> moved@[m] == cursor_at(
                        text1,
                        offs[m] - count_at_or_before(pts, offs[m]),
                    ),
            decreases k - j,
        {
            let shift = count_before(&points, positions[j]);
            proof {
                assert(0 <= offs[j as int] <= text0.len());
                lemma_count_of_distinct(pts, offs[j as int], text0.len() as int);
            }
            let c = char_to_cursor(&self.rope, positions[j] - shift);
            moved.push(c);
            j += 1;
        }
        proof {
            assert(moved@ =~= moved_by_delete(text0, offs));
        }
        self.cursors = moved;
        normalize(&self.rope, &mut self.cursors);
        self.viewport.ensure_visible(self.cursors[0].line);
    }

    /// Types `width` spaces, one after the other.
    pub fn indent(&mut self, width: usize)
        requires
            old(self).wf(),
            old(self)@.text.len() + width * old(self)@.cursors.len() <= usize::MAX,
        ensures
            final(self)@ == old(self)@.after_spaces(width as nat),
            final(self).wf(),
    {
        let mut i: usize = 0;
        while i < width
            invariant
                i <= width,
                self.wf(),
                self@ == old(self)@.after_spaces(i as nat),
                self@.cursors.len() <= old(self)@.cursors.len(),
                self@.text.len() <= old(self)@.text.len() + i * old(self)@.cursors.len(),
                old(self)@.text.len() + width * old(self)@.cursors.len() <= usize::MAX,
            decreases width - i,
        {
            proof {
                let k = old(self)@.cursors.len() as int;
                assert((i + 1) * k == i * k + k) by (nonlinear_arith);
                assert((i + 1) * k <= width * k) by (nonlinear_arith)
                    requires
                        i + 1 <= width,
                        k >= 0,
                ;
            }
            self.input(' ');
            i += 1;
        }
    }

    /// Types a tab: four spaces.
    pub fn tab(&mut self)
        requires
            old(self).wf(),
            old(self)@.text.len() + 4 * old(self)@.cursors.len() <= usize::MAX,
        ensures
            final(self)@ == old(self)@.after_spaces(4),
            final(self).wf(),
    {
        self.indent(4);
    }

    /// Types the characters of `chars`, one after the other.
    pub fn type_chars(&mut self, chars: &Vec<char>)
        requires
            old(self).wf(),
            old(self)@.text.len() + chars@.len() * old(self)@.cursors.len() <= usize::MAX,
        ensures
            final(self)@ == old(self)@.after_typing(chars@),
            final(self).wf(),
    {
        let n = chars.len();
        let mut i: usize = 0;
        proof {
            assert(chars@.subrange(0, 0) =~= Seq::<char>::empty());
        }
        while i < n
            invariant
                i <= n == chars@.len(),
                self.wf(),
                self@ == old(self)@.after_typing(chars@.subrange(0, i as int)),
                self@.cursors.len() <= old(self)@.cursors.len(),
                self@.text.len() <= old(self)@.text.len() + i * old(self)@.cursors.len(),
                old(self)@.text.len() + n * old(self)@.cursors.len() <= usize::MAX,
            decreases n - i,
        {
            proof {
                let k = old(self)@.cursors.len() as int;
                assert((i + 1) * k == i * k + k) by (nonlinear_arith);
                assert((i + 1) * k <= n * k) by (nonlinear_arith)
                    requires
                        i + 1 <= n,
                        k >= 0,
                ;
                let s = chars@.subrange(0, i + 1);
                assert(s.drop_last() =~= chars@.subrange(0, i as int));
                assert(s.last() == chars@[i as int]);
            }
            self.input(chars[i]);
            i += 1;
        }
        proof {
            assert(chars@.subrange(0, n as int) =~= chars@);
        }
    }

    /// The white space that the line of the primary cursor starts with.
    fn indent_chars(&self) -> (indent: Vec<char>)
        requires
            self.wf(),
        ensures
            indent@ == self@.indent(),
            indent@.len() <= self@.text.len(),
    {
        assert(is_valid(self@.text, self.cursors@[0]));
        let line = rope_line_chars(&self.rope, self.cursors[0].line);
        let _len = self.rope.len_chars();
        proof {
            crate::text::lemma_line_start(self@.text, self.cursors@[0].line as nat);
            crate::text::lemma_line_start(self@.text, (self.cursors@[0].line + 1) as nat);
            crate::text::lemma_line_shape(self@.text, self.cursors@[0].line as nat);
        }
        let mut indent: Vec<char> = Vec::new();
        let mut i: usize = 0;
        proof {
            assert(line@.subrange(0, line@.len() as int) =~= line@);
        }
        while i < line.len() && line[i].is_whitespace() && line[i] != '\n'
            invariant
                i <= line@.len(),
                indent@.len() == i,
                leading_space(line@) == indent@ + leading_space(
                    line@.subrange(i as int, line@.len() as int),
                ),
            decreases line@.len() - i,
        {
            proof {
                let rest = line@.subrange(i as int, line@.len() as int);
                assert(rest[0] == line@[i as int]);
                assert(rest.drop_first() =~= line@.subrange(i + 1, line@.len() as int));
                assert(indent@ + (seq![line@[i as int]] + leading_space(rest.drop_first()))
                    =~= indent@.push(line@[i as int]) + leading_space(rest.drop_first()));
            }
            indent.push(line[i]);
            i += 1;
        }
        proof {
            let rest = line@.subrange(i as int, line@.len() as int);
            if i < line@.len() {
                assert(rest[0] == line@[i as int]);
            }
            assert(leading_space(rest) =~= Seq::<char>::empty());
            assert(indent@ + Seq::<char>::empty() =~= indent@);
        }
        indent
    }

    /// Starts a new line at every cursor, indented like the line of the
    /// primary cursor.
    pub fn newline(&mut self)
        requires
            old(self).wf(),
            old(self)@.text.len() + (old(self)@.indent().len() + 1) * old(self)@.cursors.len()
                <= usize::MAX,
        ensures
            final(self)@ == old(self)@.after_newline(),
            final(self).wf(),
    {
        let indent = self.indent_chars();
        let mut chars: Vec<char> = Vec::new();
        chars.push('\n');
        let mut i: usize = 0;
        while i < indent.len()
            invariant
                i <= indent@.len(),
                chars@ == seq!['\n'] + indent@.subrange(0, i as int),
            decreases indent@.len() - i,
        {
            proof {
                assert((seq!['\n'] + indent@.subrange(0, i as int)).push(indent@[i as int])
                    =~= seq!['\n'] + indent@.subrange(0, i + 1));
            }
            chars.push(indent[i]);
            i += 1;
        }
        proof {
            assert(indent@.subrange(0, indent@.len() as int) =~= indent@);
        }
        self.type_chars(&chars);
    }

    /// Takes a step of indentation back: as many backspaces as the line of
    /// the primary cursor starts with white space, and at most `tab_size`.
    pub fn reverse_tab(&mut self, tab_size: usize)
        requires
            old(self).wf(),
        ensures
            final(self)@ == old(self)@.after_reverse_tab(tab_size),
            final(self).wf(),
    {
        let indent = self.indent_chars();
        let count = if indent.len() < tab_size {
            indent.len()
        } else {
            tab_size
        };
        let mut i: usize = 0;
        while i < count
            invariant
                i <= count,
                self.wf(),
                self@ == old(self)@.after_backspaces(i as nat),
            decreases count - i,
        {
            self.backspace();
            i += 1;
        }
    }
}

} // verus!
