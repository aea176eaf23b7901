//! Sequences of cursors: putting them in order, dropping repeats, and
//! thinning what piles up on the first and the last line.

use crate::cursor::{
    clamp_cursor, clamped, cursor_le, cursor_lt, is_valid, lemma_clamped_of_valid, Cursor,
};
use crate::rope::rope_text;
use ropey::Rope;
use vstd::prelude::*;
use vstd::relations::{sorted_by, total_ordering};
use vstd::seq_lib::{group_to_multiset_ensures, lemma_sorted_unique};

verus! {

/// The order of cursors by line and then by column, as a relation.
pub open spec fn by_position() -> spec_fn(Cursor, Cursor) -> bool {
    |a: Cursor, b: Cursor| cursor_le(a, b)
}

/// The cursors of `cs` in order of position, repeats kept.
pub open spec fn in_order(cs: Seq<Cursor>) -> Seq<Cursor> {
    cs.sort_by(by_position())
}

/// Each cursor is at or after the ones before it.
pub open spec fn sorted(cs: Seq<Cursor>) -> bool {
    forall|i: int, j: int| 0 <= i < j < cs.len() ==> cursor_le(cs[i], cs[j])
}

/// Each cursor is after the ones before it: the cursors are in order and
/// none occurs twice.
pub open spec fn strictly_sorted(cs: Seq<Cursor>) -> bool {
    forall|i: int, j: int| 0 <= i < j < cs.len() ==> cursor_lt(cs[i], cs[j])
}

/// Every cursor of `cs` is valid in `text`.
pub open spec fn all_valid(text: Seq<char>, cs: Seq<Cursor>) -> bool {
    forall|i: int| 0 <= i < cs.len() ==> is_valid(text, #[trigger] cs[i])
}

/// `cs` with each cursor clamped to `text`.
pub open spec fn all_clamped(text: Seq<char>, cs: Seq<Cursor>) -> Seq<Cursor> {
    Seq::new(cs.len(), |i: int| clamped(text, cs[i]))
}

/// `cs` without the cursors that repeat the one just before them.
pub open spec fn without_repeats(cs: Seq<Cursor>) -> Seq<Cursor>
    decreases cs.len(),
{
    if cs.len() == 0 {
        cs
    } else if cs.len() >= 2 && cs[cs.len() - 2] == cs.last() {
        without_repeats(cs.drop_last())
    } else {
        without_repeats(cs.drop_last()).push(cs.last())
    }
}

/// The normal form of a sequence of cursors over a text: each cursor
/// clamped, all in order of position, none twice.
pub open spec fn normalized(text: Seq<char>, cs: Seq<Cursor>) -> Seq<Cursor> {
    without_repeats(in_order(all_clamped(text, cs)))
}

/// Whether the cursor at index `i` stays when the piles on the first line
/// and on line `last_line` are thinned: on either of these lines only the
/// first cursor of the sequence stays.
pub open spec fn stays(cs: Seq<Cursor>, last_line: usize, i: int) -> bool {
    if cs[i].line == 0 {
        forall|j: int| 0 <= j < i ==> cs[j].line != 0
    } else if cs[i].line == last_line {
        forall|j: int| 0 <= j < i ==> cs[j].line != last_line
    } else {
        true
    }
}

/// `cs` with at most one cursor left on the first line and at most one on
/// line `last_line`: the first of each in the sequence.
pub open spec fn squashed(cs: Seq<Cursor>, last_line: usize) -> Seq<Cursor>
    decreases cs.len(),
{
    if cs.len() == 0 {
        cs
    } else if stays(cs, last_line, cs.len() - 1) {
        squashed(cs.drop_last(), last_line).push(cs.last())
    } else {
        squashed(cs.drop_last(), last_line)
    }
}

/// The order by position is a total order.
pub proof fn lemma_by_position_total()
    ensures
        total_ordering(by_position()),
{
    let r = by_position();
    assert forall|a: Cursor, b: Cursor| #[trigger] r(a, b) && r(b, a) implies a == b by {}
    assert(vstd::relations::reflexive(r));
    assert(vstd::relations::antisymmetric(r));
    assert(vstd::relations::transitive(r));
    assert(vstd::relations::strongly_connected(r));
}

/// Putting cursors in order keeps each of them, as often as it occurs, and
/// gives the one sequence in order that does so.
pub proof fn lemma_in_order(cs: Seq<Cursor>)
    ensures
        sorted(in_order(cs)),
        in_order(cs).to_multiset() == cs.to_multiset(),
        in_order(cs).len() == cs.len(),
        forall|c: Cursor| in_order(cs).contains(c) <==> cs.contains(c),
        sorted(cs) ==> in_order(cs) == cs,
{
    broadcast use group_to_multiset_ensures;

    lemma_by_position_total();
    cs.lemma_sort_by_ensures(by_position());
    let s = in_order(cs);
    assert(s.len() == cs.len()) by {
        assert(s.to_multiset().len() == s.len());
        assert(cs.to_multiset().len() == cs.len());
    }
    assert(sorted(s)) by {
        assert forall|i: int, j: int| 0 <= i < j < s.len() implies cursor_le(s[i], s[j]) by {
            assert(by_position()(s[i], s[j]));
        }
    }
    assert forall|c: Cursor| s.contains(c) <==> cs.contains(c) by {
        assert(s.contains(c) <==> s.to_multiset().count(c) > 0);
        assert(cs.contains(c) <==> cs.to_multiset().count(c) > 0);
    }
    if sorted(cs) {
        assert(sorted_by(cs, by_position())) by {
            assert forall|i: int, j: int| 0 <= i < j < cs.len() implies #[trigger] by_position()(
                cs[i],
                cs[j],
            ) by {
                assert(cursor_le(cs[i], cs[j]));
            }
        }
        lemma_sorted_unique(s, cs, by_position());
    }
}

/// Two sequences with the same cursors, each as often, come out the same
/// when put in order.
pub proof fn lemma_in_order_of_permutation(a: Seq<Cursor>, b: Seq<Cursor>)
    requires
        a.to_multiset() == b.to_multiset(),
    ensures
        in_order(a) == in_order(b),
{
    lemma_by_position_total();
    a.lemma_sort_by_ensures(by_position());
    b.lemma_sort_by_ensures(by_position());
    lemma_sorted_unique(in_order(a), in_order(b), by_position());
}

/// Dropping repeats from cursors in order leaves each cursor once, still in
/// order, and keeps the first and the last.
pub proof fn lemma_without_repeats(cs: Seq<Cursor>)
    requires
        sorted(cs),
    ensures
        strictly_sorted(without_repeats(cs)),
        without_repeats(cs).len() <= cs.len(),
        forall|c: Cursor| without_repeats(cs).contains(c) <==> cs.contains(c),
        cs.len() > 0 ==> without_repeats(cs).len() > 0 && without_repeats(cs).last() == cs.last()
            && without_repeats(cs)[0] == cs[0],
        strictly_sorted(cs) ==> without_repeats(cs) == cs,
    decreases cs.len(),
{
    if cs.len() > 0 {
        let init = cs.drop_last();
        let r = without_repeats(init);
        lemma_without_repeats(init);
        let out = without_repeats(cs);
        let last = cs.last();
        if cs.len() >= 2 && cs[cs.len() - 2] == last {
            assert(out == r);
            assert(init.last() == last);
            assert(init[0] == cs[0]);
            assert forall|c: Cursor| out.contains(c) <==> cs.contains(c) by {
                if cs.contains(c) {
                    let i = choose|i: int| 0 <= i < cs.len() && cs[i] == c;
                    if i == cs.len() - 1 {
                        assert(init[cs.len() - 2] == c);
                    } else {
                        assert(init[i] == c);
                    }
                    assert(init.contains(c));
                    assert(r.contains(c));
                }
                if out.contains(c) {
                    assert(r.contains(c));
                    assert(init.contains(c));
                    let i = choose|i: int| 0 <= i < init.len() && init[i] == c;
                    assert(cs[i] == c);
                }
            }
            assert(!strictly_sorted(cs)) by {
                if strictly_sorted(cs) {
                    assert(cursor_lt(cs[cs.len() - 2], cs[cs.len() - 1]));
                }
            }
        } else {
            assert(out == r.push(last));
            assert forall|i: int, j: int| 0 <= i < j < out.len() implies cursor_lt(
                out[i],
                out[j],
            ) by {
                if j == out.len() - 1 {
                    assert(out[i] == r[i]);
                    assert(r.contains(r[i]));
                    assert(init.contains(r[i]));
                    let k = choose|k: int| 0 <= k < init.len() && init[k] == r[i];
                    assert(cs[k] == r[i]);
                    assert(cursor_le(cs[k], cs[cs.len() - 1]));
                    assert(cursor_le(cs[k], cs[cs.len() - 2]));
                    assert(cursor_le(cs[cs.len() - 2], cs[cs.len() - 1]));
                    assert(cs[cs.len() - 2] != last);
                } else {
                    assert(out[i] == r[i] && out[j] == r[j]);
                }
            }
            assert forall|c: Cursor| out.contains(c) <==> cs.contains(c) by {
                if cs.contains(c) {
                    let i = choose|i: int| 0 <= i < cs.len() && cs[i] == c;
                    if i == cs.len() - 1 {
                        assert(out[out.len() - 1] == c);
                    } else {
                        assert(init[i] == c);
                        assert(init.contains(c));
                        assert(r.contains(c));
                        let k = choose|k: int| 0 <= k < r.len() && r[k] == c;
                        assert(out[k] == c);
                    }
                }
                if out.contains(c) {
                    let i = choose|i: int| 0 <= i < out.len() && out[i] == c;
                    if i == out.len() - 1 {
                        assert(cs[cs.len() - 1] == c);
                    } else {
                        assert(r[i] == c);
                        assert(r.contains(c));
                        assert(init.contains(c));
                        let k = choose|k: int| 0 <= k < init.len() && init[k] == c;
                        assert(cs[k] == c);
                    }
                }
            }
            if init.len() > 0 {
                assert(out[0] == r[0]);
                assert(init[0] == cs[0]);
            }
            if strictly_sorted(cs) {
                assert(strictly_sorted(init)) by {
                    assert forall|i: int, j: int| 0 <= i < j < init.len() implies cursor_lt(
                        init[i],
                        init[j],
                    ) by {
                        assert(cursor_lt(cs[i], cs[j]));
                    }
                }
                assert(r == init);
                assert(out =~= cs);
            }
        }
    }
}

/// The normal form of a sequence that is not empty is not empty; its
/// cursors are in order and without repeats, and they are the clamped
/// cursors of the sequence. A sequence of valid cursors in order, none
/// twice, is its own normal form.
pub proof fn lemma_normalized(text: Seq<char>, cs: Seq<Cursor>)
    ensures
        strictly_sorted(normalized(text, cs)),
        normalized(text, cs).len() <= cs.len(),
        cs.len() > 0 ==> normalized(text, cs).len() > 0,
        forall|c: Cursor|
            normalized(text, cs).contains(c) <==> exists|i: int|
                0 <= i < cs.len() && c == clamped(text, cs[i]),
        all_valid(text, all_clamped(text, cs)) ==> all_valid(text, normalized(text, cs)),
        all_valid(text, cs) && strictly_sorted(cs) ==> normalized(text, cs) == cs,
        all_valid(text, cs) && sorted(cs) ==> normalized(text, cs) == without_repeats(cs),
{
    let cl = all_clamped(text, cs);
    let so = in_order(cl);
    let out = normalized(text, cs);
    lemma_in_order(cl);
    lemma_without_repeats(so);
    assert forall|c: Cursor| out.contains(c) <==> exists|i: int|
        0 <= i < cs.len() && c == clamped(text, cs[i]) by {
        if out.contains(c) {
            assert(so.contains(c));
            assert(cl.contains(c));
            let i = choose|i: int| 0 <= i < cl.len() && cl[i] == c;
            assert(c == clamped(text, cs[i]));
        }
        if exists|i: int| 0 <= i < cs.len() && c == clamped(text, cs[i]) {
            let i = choose|i: int| 0 <= i < cs.len() && c == clamped(text, cs[i]);
            assert(cl[i] == c);
            assert(cl.contains(c));
            assert(so.contains(c));
        }
    }
    if all_valid(text, cl) {
        assert forall|k: int| 0 <= k < out.len() implies is_valid(text, #[trigger] out[k]) by {
            assert(out.contains(out[k]));
            assert(so.contains(out[k]));
            assert(cl.contains(out[k]));
            let i = choose|i: int| 0 <= i < cl.len() && cl[i] == out[k];
            assert(is_valid(text, cl[i]));
        }
    }
    if all_valid(text, cs) {
        assert(cl =~= cs) by {
            assert forall|i: int| 0 <= i < cs.len() implies cl[i] == cs[i] by {
                assert(is_valid(text, cs[i]));
                lemma_clamped_of_valid(text, cs[i]);
            }
        }
        if strictly_sorted(cs) {
            assert(sorted(cs)) by {
                assert forall|i: int, j: int| 0 <= i < j < cs.len() implies cursor_le(
                    cs[i],
                    cs[j],
                ) by {
                    assert(cursor_lt(cs[i], cs[j]));
                }
            }
        }
    }
}

/// Whether `a` comes before `b`, by line and then by column.
pub fn cursor_before(a: Cursor, b: Cursor) -> (r: bool)
    ensures
        r == cursor_lt(a, b),
{
    a.line < b.line || (a.line == b.line && a.col < b.col)
}

proof fn lemma_insert_to_multiset(s: Seq<Cursor>, j: int, c: Cursor)
    requires
        0 <= j <= s.len(),
    ensures
        s.insert(j, c).to_multiset() == s.to_multiset().insert(c),
{
    broadcast use group_to_multiset_ensures;

    let t = s.insert(j, c);
    assert(t.remove(j) =~= s);
    assert(t.remove(j).to_multiset() == t.to_multiset().remove(c));
    assert(t.to_multiset().count(c) > 0) by {
        assert(t[j] == c);
        assert(t.contains(c));
    }
    assert(t.to_multiset() =~= t.to_multiset().remove(c).insert(c));
}

/// Puts the cursors in order of position. Cursors that compare equal are
/// the same cursor, so nothing depends on how they stood before.
pub fn sort_cursors(cursors: &mut Vec<Cursor>)
    ensures
        final(cursors)@ == in_order(old(cursors)@),
{
    let mut out: Vec<Cursor> = Vec::new();
    let n = cursors.len();
    let mut i: usize = 0;
    proof {
        assert(cursors@.subrange(0, 0) =~= out@);
    }
    while i < n
        invariant
            n == cursors.len(),
            i <= n,
            sorted(out@),
            out@.to_multiset() == cursors@.subrange(0, i as int).to_multiset(),
        decreases n - i,
    {
        let c = cursors[i];
        let mut j = out.len();
        while j > 0 && cursor_before(c, out[j - 1])
            invariant
                j <= out.len(),
                forall|k: int| j <= k < out.len() ==> cursor_lt(c, out@[k]),
            decreases j,
        {
            j -= 1;
        }
        proof {
            broadcast use group_to_multiset_ensures;

            lemma_insert_to_multiset(out@, j as int, c);
            assert(cursors@.subrange(0, i + 1) =~= cursors@.subrange(0, i as int).push(c));
            let t = out@.insert(j as int, c);
            assert forall|a: int, b: int| 0 <= a < b < t.len() implies cursor_le(t[a], t[b]) by {
                if a < j && b > j {
                    assert(cursor_le(out@[a], out@[b - 1]));
                } else if a < j && b < j {
                    assert(cursor_le(out@[a], out@[b]));
                } else if a > j {
                    assert(cursor_le(out@[a - 1], out@[b - 1]));
                } else if a == j {
                    assert(cursor_lt(c, out@[b - 1]));
                } else {
                    // b == j: what stands before j is not after c
                    assert(a < j && b == j);
                    assert(cursor_le(out@[a], out@[j - 1]) || a == j - 1);
                    assert(!cursor_lt(c, out@[j - 1]));
                }
            }
        }
        out.insert(j, c);
        i += 1;
    }
    proof {
        assert(cursors@.subrange(0, n as int) =~= cursors@);
        lemma_by_position_total();
        lemma_in_order(cursors@);
        assert(sorted_by(out@, by_position())) by {
            assert forall|a: int, b: int| 0 <= a < b < out@.len() implies #[trigger] by_position()(
                out@[a],
                out@[b],
            ) by {
                assert(cursor_le(out@[a], out@[b]));
            }
        }
        cursors@.lemma_sort_by_ensures(by_position());
        lemma_sorted_unique(out@, in_order(cursors@), by_position());
    }
    *cursors = out;
}

/// Drops each cursor that repeats the one just before it.
pub fn dedup_cursors(cursors: &mut Vec<Cursor>)
    ensures
        final(cursors)@ == without_repeats(old(cursors)@),
{
    let mut out: Vec<Cursor> = Vec::new();
    let n = cursors.len();
    let mut i: usize = 0;
    while i < n
        invariant
            n == cursors.len(),
            i <= n,
            out@ == without_repeats(cursors@.subrange(0, i as int)),
        decreases n - i,
    {
        let c = cursors[i];
        proof {
            let s = cursors@.subrange(0, i + 1);
            assert(s.drop_last() =~= cursors@.subrange(0, i as int));
            assert(s.last() == c);
            if i > 0 {
                assert(s[s.len() - 2] == cursors@[i - 1]);
            }
        }
        if i == 0 || cursors[i - 1] != c {
            out.push(c);
        }
        i += 1;
    }
    proof {
        assert(cursors@.subrange(0, n as int) =~= cursors@);
    }
    *cursors = out;
}

/// Brings every cursor into the rope, puts them in order and drops the
/// repeats.
pub fn normalize(rope: &Rope, cursors: &mut Vec<Cursor>)
    ensures
        final(cursors)@ == normalized(rope_text(*rope), old(cursors)@),
        all_valid(rope_text(*rope), final(cursors)@),
        strictly_sorted(final(cursors)@),
        final(cursors)@.len() <= old(cursors)@.len(),
        old(cursors)@.len() > 0 ==> final(cursors)@.len() > 0,
{
    let n = cursors.len();
    let mut out: Vec<Cursor> = Vec::new();
    let mut i: usize = 0;
    while i < n
        invariant
            n == cursors.len(),
            i <= n,
            out@ == all_clamped(rope_text(*rope), cursors@.subrange(0, i as int)),
            all_valid(rope_text(*rope), out@),
        decreases n - i,
    {
        let c = clamp_cursor(rope, cursors[i]);
        proof {
            assert(all_clamped(rope_text(*rope), cursors@.subrange(0, i + 1)) =~= out@.push(c));
        }
        out.push(c);
        i += 1;
    }
    proof {
        assert(cursors@.subrange(0, n as int) =~= cursors@);
        lemma_normalized(rope_text(*rope), cursors@);
    }
    sort_cursors(&mut out);
    dedup_cursors(&mut out);
    *cursors = out;
}

/// Leaves at most one cursor on the first line and at most one on line
/// `last_line`: on each the first that the sequence holds.
pub fn squash_out_of_bounds_cursors(cursors: &mut Vec<Cursor>, last_line: usize)
    ensures
        final(cursors)@ == squashed(old(cursors)@, last_line),
{
    let mut out: Vec<Cursor> = Vec::new();
    let n = cursors.len();
    let mut has_top = false;
    let mut has_bottom = false;
    let mut i: usize = 0;
    while i < n
        invariant
            n == cursors.len(),
            i <= n,
            out@ == squashed(cursors@.subrange(0, i as int), last_line),
            has_top <==> exists|j: int| 0 <= j < i && cursors@[j].line == 0,
            has_bottom <==> exists|j: int|
                0 <= j < i && cursors@[j].line != 0 && cursors@[j].line == last_line,
        decreases n - i,
    {
        let c = cursors[i];
        proof {
            let s = cursors@.subrange(0, i + 1);
            assert(s.drop_last() =~= cursors@.subrange(0, i as int));
            assert(s.last() == c);
            assert(forall|j: int| 0 <= j < i ==> s[j] == cursors@[j]);
            if c.line == 0 {
                assert(stays(s, last_line, i as int) <==> !has_top) by {
                    if has_top {
                        let j = choose|j: int| 0 <= j < i && cursors@[j].line == 0;
                        assert(s[j].line == 0);
                    }
                }
            } else if c.line == last_line {
                assert(stays(s, last_line, i as int) <==> !has_bottom) by {
                    if has_bottom {
                        let j = choose|j: int|
                            0 <= j < i && cursors@[j].line != 0 && cursors@[j].line == last_line;
                        assert(s[j].line == last_line);
                    }
                }
            } else {
                assert(stays(s, last_line, i as int));
            }
        }
        if c.line == 0 {
            if !has_top {
                has_top = true;
                out.push(c);
            }
        } else if c.line == last_line {
            if !has_bottom {
                has_bottom = true;
                out.push(c);
            }
        } else {
            out.push(c);
        }
        i += 1;
    }
    proof {
        assert(cursors@.subrange(0, n as int) =~= cursors@);
    }
    *cursors = out;
}

/// Thinning keeps the order, and keeps the first cursor; it leaves no two
/// cursors on the first line and no two on line `last_line`.
pub proof fn lemma_squashed(cs: Seq<Cursor>, last_line: usize)
    ensures
        squashed(cs, last_line).len() <= cs.len(),
        forall|c: Cursor| squashed(cs, last_line).contains(c) ==> cs.contains(c),
        cs.len() > 0 ==> squashed(cs, last_line).len() > 0 && squashed(cs, last_line)[0] == cs[0],
        strictly_sorted(cs) ==> strictly_sorted(squashed(cs, last_line)),
        forall|i: int, j: int|
            0 <= i < j < squashed(cs, last_line).len() ==> !(squashed(cs, last_line)[i].line == 0
                && squashed(cs, last_line)[j].line == 0),
        forall|i: int, j: int|
            0 <= i < j < squashed(cs, last_line).len() ==> !(squashed(cs, last_line)[i].line
                == last_line && squashed(cs, last_line)[j].line == last_line),
    decreases cs.len(),
{
    if cs.len() > 0 {
        let init = cs.drop_last();
        let last = cs.last();
        let r = squashed(init, last_line);
        let out = squashed(cs, last_line);
        lemma_squashed(init, last_line);
        assert forall|k: int| 0 <= k < r.len() implies exists|m: int|
            0 <= m < init.len() && cs[m] == #[trigger] r[k] by {
            assert(r.contains(r[k]));
            assert(init.contains(r[k]));
            let m = choose|m: int| 0 <= m < init.len() && init[m] == r[k];
            assert(cs[m] == r[k]);
        }
        if init.len() == 0 {
            assert(stays(cs, last_line, 0));
            assert(out == r.push(last));
        } else {
            assert(init[0] == cs[0]);
        }
        if stays(cs, last_line, cs.len() - 1) {
            assert(out == r.push(last));
            assert forall|c: Cursor| out.contains(c) implies cs.contains(c) by {
                let k = choose|k: int| 0 <= k < out.len() && out[k] == c;
                if k < r.len() {
                    assert(r[k] == c);
                    let m = choose|m: int| 0 <= m < init.len() && cs[m] == r[k];
                    assert(cs[m] == c);
                } else {
                    assert(cs[cs.len() - 1] == c);
                }
            }
            assert forall|i: int, j: int| 0 <= i < j < out.len() implies !(out[i].line == 0
                && out[j].line == 0) && !(out[i].line == last_line && out[j].line == last_line) by {
                if j == out.len() - 1 {
                    assert(out[i] == r[i]);
                    let m = choose|m: int| 0 <= m < init.len() && cs[m] == r[i];
                    assert(cs[m] == out[i]);
                    assert(out[j] == last);
                } else {
                    assert(out[i] == r[i] && out[j] == r[j]);
                }
            }
            if strictly_sorted(cs) {
                assert(strictly_sorted(init)) by {
                    assert forall|i: int, j: int| 0 <= i < j < init.len() implies cursor_lt(
                        init[i],
                        init[j],
                    ) by {
                        assert(cursor_lt(cs[i], cs[j]));
                    }
                }
                assert forall|i: int, j: int| 0 <= i < j < out.len() implies cursor_lt(
                    out[i],
                    out[j],
                ) by {
                    if j == out.len() - 1 {
                        assert(out[i] == r[i]);
                        let m = choose|m: int| 0 <= m < init.len() && cs[m] == r[i];
                        assert(cursor_lt(cs[m], cs[cs.len() - 1]));
                    } else {
                        assert(out[i] == r[i] && out[j] == r[j]);
                    }
                }
            }
        } else {
            assert(out == r);
            assert forall|c: Cursor| out.contains(c) implies cs.contains(c) by {
                let k = choose|k: int| 0 <= k < r.len() && r[k] == c;
                let m = choose|m: int| 0 <= m < init.len() && cs[m] == r[k];
                assert(cs[m] == c);
            }
            if strictly_sorted(cs) {
                assert(strictly_sorted(init)) by {
                    assert forall|i: int, j: int| 0 <= i < j < init.len() implies cursor_lt(
                        init[i],
                        init[j],
                    ) by {
                        assert(cursor_lt(cs[i], cs[j]));
                    }
                }
            }
        }
    }
}

} // verus!
