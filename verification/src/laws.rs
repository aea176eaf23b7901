//! What holds of the editor's operations, whatever the text and wherever
//! the cursors stand.

use crate::cursor::{
    clamped, cursor_at, cursor_lt, is_valid, lemma_clamped_of_valid, lemma_cursor_at_valid,
    lemma_offset_of_valid, offset_of, Cursor,
};
use crate::cursor_set::{
    all_valid, in_order, lemma_in_order, lemma_in_order_of_permutation, lemma_normalized,
    lemma_without_repeats, normalized, sorted, strictly_sorted,
};
use crate::editor::EditorView;
use crate::cursor::{lemma_order_is_offset_order, CursorMove};
use crate::edits::{
    ascending, count_at_or_before, delete_points, deleted, inserted, lemma_count_at_index,
    lemma_delete_points, lemma_deleted_len, lemma_inserted_len, lemma_offsets_of_sorted,
    moved_by_delete, moved_by_insert, offsets, within,
};
use crate::motion::{moved, moved_back};
use crate::text::{
    lemma_line_shape, lemma_line_start, lemma_line_start_is, lemma_line_start_le,
    lemma_newlines_bound, lemma_newlines_insert, lemma_newlines_monotone, lemma_newlines_remove,
    line_start, newlines,
};
use vstd::prelude::*;

verus! {

/// Typing does the same to two editors that differ only in the order in
/// which they hold their cursors.
pub proof fn law_input_ignores_cursor_order(a: EditorView, b: EditorView, ch: char)
    requires
        a.cursors.to_multiset() == b.cursors.to_multiset(),
        b == (EditorView { cursors: b.cursors, ..a }),
    ensures
        a.after_input(ch) == b.after_input(ch),
{
    lemma_in_order_of_permutation(a.cursors, b.cursors);
}

/// A backspace does the same to two editors that differ only in the order
/// in which they hold their cursors.
pub proof fn law_backspace_ignores_cursor_order(a: EditorView, b: EditorView)
    requires
        a.cursors.to_multiset() == b.cursors.to_multiset(),
        b == (EditorView { cursors: b.cursors, ..a }),
    ensures
        a.after_backspace() == b.after_backspace(),
{
    lemma_in_order_of_permutation(a.cursors, b.cursors);
}

/// A sequence of one valid cursor is its own normal form.
proof fn lemma_normalized_one(text: Seq<char>, c: Cursor)
    requires
        is_valid(text, c),
    ensures
        normalized(text, seq![c]) == seq![c],
{
    let cs = seq![c];
    assert(all_valid(text, cs));
    assert(strictly_sorted(cs));
    lemma_normalized(text, cs);
}

/// With one cursor, typing puts the character in at the cursor. A line
/// feed takes the cursor to the start of the next line; any other
/// character takes it one column on.
pub proof fn law_input_at_one_cursor(v: EditorView, ch: char)
    requires
        v.wf(),
        v.cursors.len() == 1,
        v.text.len() < usize::MAX,
    ensures
        v.after_input(ch).text == v.text.insert(offset_of(v.text, v.cursors[0]), ch),
        v.after_input(ch).cursors == seq![
            if ch == '\n' {
                Cursor { line: (v.cursors[0].line + 1) as usize, col: 0 }
            } else {
                Cursor { line: v.cursors[0].line, col: (v.cursors[0].col + 1) as usize }
            },
        ],
{
    let c = v.cursors[0];
    let text = v.text;
    let p = offset_of(text, c);
    assert(is_valid(text, c));
    lemma_offset_of_valid(text, c);
    lemma_in_order(v.cursors);
    assert(v.cursors =~= seq![c]);
    assert(sorted(v.cursors));
    let offs = offsets(text, in_order(v.cursors));
    assert(offs =~= seq![p]);
    assert(offs.drop_last() =~= Seq::<int>::empty());
    let after = text.insert(p, ch);
    assert(inserted(text, offs, ch) == after) by {
        assert(inserted(after, offs.drop_last(), ch) == after);
    }
    assert(count_at_or_before(offs, p) == 1) by {
        assert(count_at_or_before(offs.drop_last(), p) == 0);
    }
    let landed = cursor_at(after, p + 1);
    assert(moved_by_insert(text, offs, ch) =~= seq![landed]);

    // where the cursor lands
    text.insert_ensures(p, ch);
    lemma_newlines_insert(text, p, ch, p + 1);
    lemma_newlines_bound(after, p + 1);
    lemma_newlines_bound(text, text.len() as int);
    lemma_line_start(text, c.line as nat);
    lemma_line_start_le(text, c.line as nat, p);
    if ch == '\n' {
        assert forall|i: int| 0 <= i < p + 1 implies newlines(after, i) < c.line + 1 by {
            lemma_newlines_insert(text, p, ch, i);
            lemma_newlines_monotone(text, i, p);
        }
        lemma_line_start_is(after, (c.line + 1) as nat, p + 1);
    } else {
        let start = line_start(text, c.line as nat);
        lemma_newlines_insert(text, p, ch, start);
        assert forall|i: int| 0 <= i < start implies newlines(after, i) < c.line by {
            lemma_newlines_insert(text, p, ch, i);
            crate::text::lemma_first_after(text, c.line as nat, 0);
        }
        lemma_line_start_is(after, c.line as nat, start);
    }
    lemma_cursor_at_valid(after, p + 1);
    lemma_normalized_one(after, landed);
}

/// With one cursor that is not at the start of the text, a backspace
/// deletes the character before the cursor and takes the cursor where one
/// step back would have taken it: one column back, or to the end of the
/// line before, which the line of the cursor is then joined to.
pub proof fn law_backspace_at_one_cursor(v: EditorView)
    requires
        v.wf(),
        v.cursors.len() == 1,
        v.text.len() <= usize::MAX,
        offset_of(v.text, v.cursors[0]) > 0,
    ensures
        v.after_backspace().text == v.text.remove(offset_of(v.text, v.cursors[0]) - 1),
        v.after_backspace().cursors == seq![moved_back(v.text, v.cursors[0])],
{
    let c = v.cursors[0];
    let text = v.text;
    let p = offset_of(text, c);
    assert(is_valid(text, c));
    lemma_offset_of_valid(text, c);
    lemma_in_order(v.cursors);
    assert(v.cursors =~= seq![c]);
    assert(sorted(v.cursors));
    let offs = offsets(text, in_order(v.cursors));
    assert(offs =~= seq![p]);
    assert(offs.drop_last() =~= Seq::<int>::empty());
    let pts = delete_points(offs);
    assert(pts =~= seq![p]) by {
        assert(delete_points(offs.drop_last()) =~= Seq::<int>::empty());
    }
    assert(pts.drop_last() =~= Seq::<int>::empty());
    let after = text.remove(p - 1);
    assert(deleted(text, pts) == after) by {
        assert(deleted(after, pts.drop_last()) == after);
    }
    assert(count_at_or_before(pts, p) == 1) by {
        assert(count_at_or_before(pts.drop_last(), p) == 0);
    }
    let landed = cursor_at(after, p - 1);
    assert(moved_by_delete(text, offs) =~= seq![landed]);

    text.remove_ensures(p - 1);
    lemma_newlines_remove(text, p - 1, p - 1);
    lemma_newlines_bound(after, p - 1);
    lemma_line_start(text, c.line as nat);
    lemma_line_shape(text, c.line as nat);
    if c.col > 0 {
        let start = line_start(text, c.line as nat);
        lemma_line_start_le(text, c.line as nat, p - 1);
        lemma_newlines_monotone(text, p - 1, p);
        lemma_newlines_remove(text, p - 1, start);
        assert forall|i: int| 0 <= i < start implies newlines(after, i) < c.line by {
            lemma_newlines_remove(text, p - 1, i);
            crate::text::lemma_first_after(text, c.line as nat, 0);
        }
        lemma_line_start_is(after, c.line as nat, start);
    } else {
        let before = (c.line - 1) as nat;
        let start = line_start(text, before);
        lemma_line_start(text, before);
        lemma_line_shape(text, before);
        lemma_line_start_le(text, before, p - 1);
        lemma_newlines_remove(text, p - 1, start);
        assert forall|i: int| 0 <= i < start implies newlines(after, i) < before by {
            lemma_newlines_remove(text, p - 1, i);
            crate::text::lemma_first_after(text, before, 0);
        }
        lemma_line_start_is(after, before, start);
    }
    lemma_cursor_at_valid(after, p - 1);
    lemma_normalized_one(after, landed);
}

/// The cursor at the start of a text.
pub open spec fn origin() -> Cursor {
    Cursor { line: 0, col: 0 }
}

/// Where every cursor stands at the start of the text, a backspace leaves
/// the text as it is and one cursor at the start.
pub proof fn law_backspace_at_the_start(v: EditorView)
    requires
        v.wf(),
        forall|i: int| 0 <= i < v.cursors.len() ==> v.cursors[i] == origin(),
    ensures
        v.after_backspace().text == v.text,
        v.after_backspace().cursors == seq![origin()],
{
    let text = v.text;
    let ordered = in_order(v.cursors);
    lemma_in_order(v.cursors);
    assert forall|i: int| 0 <= i < ordered.len() implies ordered[i] == origin() by {
        assert(ordered.contains(ordered[i]));
        assert(v.cursors.contains(ordered[i]));
    }
    let offs = offsets(text, ordered);
    lemma_line_start(text, 0);
    assert forall|i: int| 0 <= i < offs.len() implies offs[i] == 0 by {
        assert(ordered[i] == origin());
    }
    assert(crate::edits::ascending(offs));
    assert(crate::edits::within(offs, 0, text.len() as int));
    lemma_delete_points(offs, text.len() as int);
    let pts = delete_points(offs);
    assert(pts =~= Seq::<int>::empty());
    assert(deleted(text, pts) == text);
    let moved = moved_by_delete(text, offs);
    assert(cursor_at(text, 0) == origin());
    assert forall|i: int| 0 <= i < moved.len() implies moved[i] == origin() by {
        assert(offs[i] == 0);
        assert(count_at_or_before(pts, 0) == 0);
    }
    assert(is_valid(text, v.cursors[0]));
    lemma_all_at_origin(text, moved);
}

proof fn lemma_all_at_origin(text: Seq<char>, cs: Seq<Cursor>)
    requires
        cs.len() >= 1,
        is_valid(text, origin()),
        forall|i: int| 0 <= i < cs.len() ==> cs[i] == origin(),
    ensures
        normalized(text, cs) == seq![origin()],
{
    let out = normalized(text, cs);
    assert(all_valid(text, cs));
    assert(sorted(cs));
    lemma_normalized(text, cs);
    lemma_without_repeats(cs);
    assert(out.len() == 1) by {
        if out.len() >= 2 {
            assert(out.contains(out[0]));
            assert(out.contains(out[1]));
            assert(cs.contains(out[0]));
            assert(cs.contains(out[1]));
            assert(cursor_lt(out[0], out[1]));
        }
    }
    assert(out[0] == cs[0]);
    assert(out =~= seq![origin()]);
}

/// A cursor at the start of the text stays there through a backspace,
/// wherever the other cursors stand, and stays the primary cursor.
pub proof fn law_backspace_keeps_the_cursor_at_the_start(v: EditorView)
    requires
        v.wf(),
        v.cursors.contains(origin()),
    ensures
        v.after_backspace().cursors[0] == origin(),
{
    let text = v.text;
    let ordered = in_order(v.cursors);
    lemma_in_order(v.cursors);
    assert(ordered.contains(origin()));
    let k = choose|k: int| 0 <= k < ordered.len() && ordered[k] == origin();
    lemma_line_start(text, 0);
    assert(ordered[0] == origin()) by {
        if k > 0 {
            assert(crate::cursor::cursor_le(ordered[0], ordered[k]));
        }
    }
    assert(all_valid(text, ordered)) by {
        assert forall|i: int| 0 <= i < ordered.len() implies is_valid(
            text,
            #[trigger] ordered[i],
        ) by {
            assert(ordered.contains(ordered[i]));
            assert(v.cursors.contains(ordered[i]));
            let m = choose|m: int| 0 <= m < v.cursors.len() && v.cursors[m] == ordered[i];
            assert(is_valid(text, v.cursors[m]));
        }
    }
    let offs = offsets(text, ordered);
    crate::edits::lemma_offsets_of_sorted(text, ordered);
    lemma_delete_points(offs, text.len() as int);
    let pts = delete_points(offs);
    assert(offs[0] == 0);
    assert(count_at_or_before(pts, 0) == 0) by {
        lemma_none_at_or_before(pts, 0);
    }
    let after = deleted(text, pts);
    let moved = moved_by_delete(text, offs);
    lemma_line_start(after, 0);
    assert(moved[0] == origin());
    lemma_line_shape(after, 0);
    assert(is_valid(after, origin()));
    lemma_clamped_of_valid(after, origin());
    let out = normalized(after, moved);
    lemma_normalized(after, moved);
    assert(out.contains(origin())) by {
        assert(clamped(after, moved[0]) == origin());
    }
    let j = choose|j: int| 0 <= j < out.len() && out[j] == origin();
    if j > 0 {
        assert(cursor_lt(out[0], out[j]));
    }
}

proof fn lemma_none_at_or_before(offs: Seq<int>, p: int)
    requires
        forall|i: int| 0 <= i < offs.len() ==> offs[i] > p,
    ensures
        count_at_or_before(offs, p) == 0,
    decreases offs.len(),
{
    if offs.len() > 0 {
        let init = offs.drop_last();
        assert forall|i: int| 0 <= i < init.len() implies init[i] > p by {
            assert(offs[i] > p);
        }
        lemma_none_at_or_before(init, p);
        assert(offs[offs.len() - 1] > p);
    }
}

/// The cursors in order of position are the cursors themselves, each as
/// often, and are valid where the cursors are.
proof fn lemma_in_order_valid(text: Seq<char>, cs: Seq<Cursor>)
    requires
        all_valid(text, cs),
    ensures
        all_valid(text, in_order(cs)),
        sorted(in_order(cs)),
        in_order(cs).len() == cs.len(),
{
    let ordered = in_order(cs);
    lemma_in_order(cs);
    assert forall|i: int| 0 <= i < ordered.len() implies is_valid(text, #[trigger] ordered[i]) by {
        assert(ordered.contains(ordered[i]));
        assert(cs.contains(ordered[i]));
        let m = choose|m: int| 0 <= m < cs.len() && cs[m] == ordered[i];
        assert(is_valid(text, cs[m]));
    }
}

/// Typing makes the text longer by one character for each cursor. A
/// backspace makes it shorter by one character for each place above the
/// start at which a cursor stands, and never longer.
pub proof fn law_edits_change_the_length(v: EditorView, ch: char)
    requires
        v.wf(),
    ensures
        v.after_input(ch).text.len() == v.text.len() + v.cursors.len(),
        v.after_backspace().text.len() == v.text.len() - delete_points(
            offsets(v.text, in_order(v.cursors)),
        ).len(),
        v.after_backspace().text.len() <= v.text.len(),
{
    let ordered = in_order(v.cursors);
    lemma_in_order_valid(v.text, v.cursors);
    lemma_offsets_of_sorted(v.text, ordered);
    let offs = offsets(v.text, ordered);
    lemma_inserted_len(v.text, offs, ch);
    lemma_delete_points(offs, v.text.len() as int);
    lemma_deleted_len(v.text, delete_points(offs));
}

/// Where the cursors stand in order of position, none twice, typing moves
/// the cursor at index `i` on by `i + 1` characters: by the character put
/// in at the cursor itself and by those put in at the cursors before it.
/// No cursor is lost.
pub proof fn law_input_moves_each_cursor(v: EditorView, ch: char)
    requires
        v.wf(),
        strictly_sorted(v.cursors),
        v.text.len() + v.cursors.len() <= usize::MAX,
    ensures
        v.after_input(ch).cursors.len() == v.cursors.len(),
        forall|i: int|
            0 <= i < v.cursors.len() ==> offset_of(
                v.after_input(ch).text,
                #[trigger] v.after_input(ch).cursors[i],
            ) == offset_of(v.text, v.cursors[i]) + i + 1,
{
    let text = v.text;
    let cs = v.cursors;
    assert(sorted(cs)) by {
        assert forall|i: int, j: int| 0 <= i < j < cs.len() implies crate::cursor::cursor_le(
            cs[i],
            cs[j],
        ) by {
            assert(cursor_lt(cs[i], cs[j]));
        }
    }
    lemma_in_order(cs);
    let offs = offsets(text, cs);
    lemma_offsets_of_sorted(text, cs);
    assert forall|a: int, b: int| 0 <= a < b < offs.len() implies offs[a] < offs[b] by {
        assert(is_valid(text, cs[a]) && is_valid(text, cs[b]));
        assert(cursor_lt(cs[a], cs[b]));
        lemma_order_is_offset_order(text, cs[a], cs[b]);
    }
    let after = inserted(text, offs, ch);
    lemma_inserted_len(text, offs, ch);
    let landed = moved_by_insert(text, offs, ch);
    assert forall|i: int| 0 <= i < landed.len() implies is_valid(after, #[trigger] landed[i])
        && offset_of(after, landed[i]) == offs[i] + i + 1 by {
        lemma_count_at_index(offs, i);
        assert(0 <= offs[i] <= text.len());
        lemma_newlines_bound(after, offs[i] + i + 1);
        lemma_cursor_at_valid(after, offs[i] + i + 1);
    }
    assert(strictly_sorted(landed)) by {
        assert forall|i: int, j: int| 0 <= i < j < landed.len() implies cursor_lt(
            landed[i],
            landed[j],
        ) by {
            assert(is_valid(after, landed[i]) && is_valid(after, landed[j]));
            assert(offs[i] < offs[j]);
            lemma_order_is_offset_order(after, landed[i], landed[j]);
        }
    }
    assert(all_valid(after, landed));
    lemma_normalized(after, landed);
}

/// A word forward from the end of the text, and a word back from its
/// start, leave the cursor where it is.
pub proof fn law_word_motion_stops_at_the_ends(text: Seq<char>, c: Cursor)
    requires
        is_valid(text, c),
    ensures
        offset_of(text, c) == text.len() ==> moved(text, c, CursorMove::WordForward) == c,
        offset_of(text, c) == 0 ==> moved(text, c, CursorMove::WordBack) == c,
{
}

} // verus!
