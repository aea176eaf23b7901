//! What an edit at several cursors does to a text and to the offsets of
//! the cursors, as mathematics.
//!
//! The offsets of an edit are taken in ascending order; the buffer is
//! changed at the last offset first, so that no change moves a place that
//! is still to be changed. Each cursor then moves by as much as the changes
//! at or before it have made the text grow or shrink.

use crate::cursor::{cursor_at, is_valid, lemma_offset_of_valid, lemma_order_is_offset_order, offset_of, Cursor};
use crate::cursor_set::{all_valid, sorted};
use vstd::prelude::*;

verus! {

/// The offsets of the cursors `cs` in `text`, in the order of `cs`.
pub open spec fn offsets(text: Seq<char>, cs: Seq<Cursor>) -> Seq<int> {
    Seq::new(cs.len(), |i: int| offset_of(text, cs[i]))
}

/// Each offset is at or after the ones before it.
pub open spec fn ascending(offs: Seq<int>) -> bool {
    forall|i: int, j: int| 0 <= i < j < offs.len() ==> offs[i] <= offs[j]
}

/// Each offset lies between `low` and `high`.
pub open spec fn within(offs: Seq<int>, low: int, high: int) -> bool {
    forall|i: int| 0 <= i < offs.len() ==> low <= #[trigger] offs[i] <= high
}

/// How many of the offsets `offs` are at or before `p`.
pub open spec fn count_at_or_before(offs: Seq<int>, p: int) -> nat
    decreases offs.len(),
{
    if offs.len() == 0 {
        0
    } else {
        count_at_or_before(offs.drop_last(), p) + if offs.last() <= p {
            1nat
        } else {
            0nat
        }
    }
}

/// `text` with `ch` put in at each offset of `offs`, the last offset first.
pub open spec fn inserted(text: Seq<char>, offs: Seq<int>, ch: char) -> Seq<char>
    decreases offs.len(),
{
    if offs.len() == 0 {
        text
    } else {
        inserted(text.insert(offs.last(), ch), offs.drop_last(), ch)
    }
}

/// The offsets before which a character is deleted: each offset of `offs`
/// above 0, once, where `offs` is ascending.
pub open spec fn delete_points(offs: Seq<int>) -> Seq<int>
    decreases offs.len(),
{
    if offs.len() == 0 {
        offs
    } else if offs.last() > 0 && !(offs.len() >= 2 && offs[offs.len() - 2] == offs.last()) {
        delete_points(offs.drop_last()).push(offs.last())
    } else {
        delete_points(offs.drop_last())
    }
}

/// `text` without the character before each offset of `points`, the last
/// offset first.
pub open spec fn deleted(text: Seq<char>, points: Seq<int>) -> Seq<char>
    decreases points.len(),
{
    if points.len() == 0 {
        text
    } else {
        deleted(text.remove(points.last() - 1), points.drop_last())
    }
}

/// The cursors after `ch` has been put in at each of the ascending offsets
/// `offs`: the cursor that stood at an offset stands behind the characters
/// put in at or before it.
pub open spec fn moved_by_insert(text: Seq<char>, offs: Seq<int>, ch: char) -> Seq<Cursor> {
    Seq::new(
        offs.len(),
        |i: int| cursor_at(inserted(text, offs, ch), offs[i] + count_at_or_before(offs, offs[i])),
    )
}

/// The cursors after the character before each of the ascending offsets
/// `offs` has been deleted: the cursor that stood at an offset has moved
/// back by the number of characters deleted before it.
pub open spec fn moved_by_delete(text: Seq<char>, offs: Seq<int>) -> Seq<Cursor> {
    Seq::new(
        offs.len(),
        |i: int|
            cursor_at(
                deleted(text, delete_points(offs)),
                offs[i] - count_at_or_before(delete_points(offs), offs[i]),
            ),
    )
}

/// Among ascending offsets, the one at index `i` has more than `i` offsets
/// at or before it; where the offsets are all different, exactly `i + 1`.
pub proof fn lemma_count_at_index(offs: Seq<int>, i: int)
    requires
        ascending(offs),
        0 <= i < offs.len(),
    ensures
        count_at_or_before(offs, offs[i]) > i,
        (forall|a: int, b: int| 0 <= a < b < offs.len() ==> offs[a] < offs[b])
            ==> count_at_or_before(offs, offs[i]) == i + 1,
    decreases offs.len(),
{
    let init = offs.drop_last();
    if i < offs.len() - 1 {
        assert(ascending(init)) by {
            assert forall|a: int, b: int| 0 <= a < b < init.len() implies init[a] <= init[b] by {
                assert(offs[a] <= offs[b]);
            }
        }
        assert(init[i] == offs[i]);
        lemma_count_at_index(init, i);
        if forall|a: int, b: int| 0 <= a < b < offs.len() ==> offs[a] < offs[b] {
            assert forall|a: int, b: int| 0 <= a < b < init.len() implies init[a] < init[b] by {
                assert(offs[a] < offs[b]);
            }
            assert(offs[i] < offs[offs.len() - 1]);
        }
    } else {
        lemma_count_all_before(init, offs[i]);
    }
}

/// Where every offset is at or before `p`, all of them are counted.
pub proof fn lemma_count_all_before(offs: Seq<int>, p: int)
    requires
        forall|i: int| 0 <= i < offs.len() ==> offs[i] <= p,
    ensures
        count_at_or_before(offs, p) == offs.len(),
    decreases offs.len(),
{
    if offs.len() > 0 {
        let init = offs.drop_last();
        assert forall|i: int| 0 <= i < init.len() implies init[i] <= p by {
            assert(offs[i] <= p);
        }
        lemma_count_all_before(init, p);
    }
}

/// Putting a character in at each of `n` offsets makes the text `n`
/// characters longer.
pub proof fn lemma_inserted_len(text: Seq<char>, offs: Seq<int>, ch: char)
    requires
        within(offs, 0, text.len() as int),
    ensures
        inserted(text, offs, ch).len() == text.len() + offs.len(),
    decreases offs.len(),
{
    if offs.len() > 0 {
        let init = offs.drop_last();
        let next = text.insert(offs.last(), ch);
        assert(0 <= offs[offs.len() - 1] <= text.len());
        assert(within(init, 0, next.len() as int)) by {
            assert forall|i: int| 0 <= i < init.len() implies 0 <= #[trigger] init[i]
                <= next.len() by {
                assert(0 <= offs[i] <= text.len());
            }
        }
        lemma_inserted_len(next, init, ch);
    }
}

/// The delete points of ascending offsets inside a text are ascending, all
/// different, above 0 and inside the text; there are no more of them than
/// offsets, and none where every offset is 0.
pub proof fn lemma_delete_points(offs: Seq<int>, len: int)
    requires
        ascending(offs),
        within(offs, 0, len),
    ensures
        delete_points(offs).len() <= offs.len(),
        within(delete_points(offs), 1, len),
        forall|a: int, b: int|
            0 <= a < b < delete_points(offs).len() ==> delete_points(offs)[a] < delete_points(
                offs,
            )[b],
        delete_points(offs).len() > 0 ==> offs.len() > 0 && delete_points(offs).last()
            == offs.last(),
        (forall|i: int| 0 <= i < offs.len() ==> offs[i] == 0) ==> delete_points(offs).len() == 0,
        forall|i: int| 0 <= i < offs.len() && offs[i] > 0 ==> delete_points(offs).contains(offs[i]),
    decreases offs.len(),
{
    if offs.len() > 0 {
        let init = offs.drop_last();
        let last = offs.last();
        let r = delete_points(init);
        let out = delete_points(offs);
        assert(ascending(init)) by {
            assert forall|a: int, b: int| 0 <= a < b < init.len() implies init[a] <= init[b] by {
                assert(offs[a] <= offs[b]);
            }
        }
        assert(within(init, 0, len)) by {
            assert forall|i: int| 0 <= i < init.len() implies 0 <= #[trigger] init[i] <= len by {
                assert(0 <= offs[i] <= len);
            }
        }
        assert(0 <= offs[offs.len() - 1] <= len);
        lemma_delete_points(init, len);
        if last > 0 && !(offs.len() >= 2 && offs[offs.len() - 2] == last) {
            assert(out == r.push(last));
            assert forall|a: int, b: int| 0 <= a < b < out.len() implies out[a] < out[b] by {
                if b == out.len() - 1 {
                    assert(out[a] == r[a]);
                    if a == r.len() - 1 {
                        assert(r.last() == init.last());
                        assert(init.last() == offs[offs.len() - 2]);
                        assert(offs[offs.len() - 2] <= offs[offs.len() - 1]);
                    } else {
                        assert(r[a] < r[r.len() - 1]);
                        assert(r.last() == init.last());
                        assert(init.last() == offs[offs.len() - 2]);
                        assert(offs[offs.len() - 2] <= offs[offs.len() - 1]);
                    }
                } else {
                    assert(out[a] == r[a] && out[b] == r[b]);
                }
            }
            assert(within(out, 1, len)) by {
                assert forall|i: int| 0 <= i < out.len() implies 1 <= #[trigger] out[i] <= len by {
                    if i < r.len() {
                        assert(out[i] == r[i]);
                    }
                }
            }
            assert forall|i: int| 0 <= i < offs.len() && offs[i] > 0 implies out.contains(
                offs[i],
            ) by {
                if i == offs.len() - 1 {
                    assert(out[out.len() - 1] == offs[i]);
                } else {
                    assert(init[i] == offs[i]);
                    assert(r.contains(init[i]));
                    let k = choose|k: int| 0 <= k < r.len() && r[k] == init[i];
                    assert(out[k] == offs[i]);
                }
            }
        } else {
            assert(out == r);
            assert forall|i: int| 0 <= i < offs.len() && offs[i] > 0 implies out.contains(
                offs[i],
            ) by {
                if i == offs.len() - 1 {
                    assert(offs.len() >= 2 && offs[offs.len() - 2] == last);
                    assert(init[offs.len() - 2] == last);
                    assert(r.contains(init[offs.len() - 2]));
                } else {
                    assert(init[i] == offs[i]);
                    assert(r.contains(init[i]));
                }
            }
            if r.len() > 0 {
                if last > 0 {
                    assert(init.last() == offs[offs.len() - 2]);
                } else {
                    assert(r.last() == init.last());
                    assert(r[r.len() - 1] >= 1);
                    assert(init.last() == offs[offs.len() - 2]);
                    assert(offs[offs.len() - 2] <= offs[offs.len() - 1]);
                }
            }
        }
    }
}

/// Deleting before each of `n` different offsets makes the text `n`
/// characters shorter.
pub proof fn lemma_deleted_len(text: Seq<char>, points: Seq<int>)
    requires
        within(points, 1, text.len() as int),
        forall|a: int, b: int| 0 <= a < b < points.len() ==> points[a] < points[b],
    ensures
        deleted(text, points).len() == text.len() - points.len(),
        points.len() <= text.len(),
    decreases points.len(),
{
    if points.len() > 0 {
        let init = points.drop_last();
        let last = points.last();
        assert(1 <= points[points.len() - 1] <= text.len());
        let next = text.remove(last - 1);
        assert(next.len() == text.len() - 1);
        assert(within(init, 1, next.len() as int)) by {
            assert forall|i: int| 0 <= i < init.len() implies 1 <= #[trigger] init[i]
                <= next.len() by {
                assert(1 <= points[i] <= text.len());
                assert(points[i] < points[points.len() - 1]);
            }
        }
        assert forall|a: int, b: int| 0 <= a < b < init.len() implies init[a] < init[b] by {
            assert(points[a] < points[b]);
        }
        lemma_deleted_len(next, init);
    }
}

/// Among offsets that are all different and lie in `1..=high`, at most `p`
/// are at or before `p`, and at most `high - p` are after it.
pub proof fn lemma_count_of_distinct(points: Seq<int>, p: int, high: int)
    requires
        within(points, 1, high),
        forall|a: int, b: int| 0 <= a < b < points.len() ==> points[a] < points[b],
        0 <= p <= high,
    ensures
        count_at_or_before(points, p) <= p,
        points.len() - count_at_or_before(points, p) <= high - p,
    decreases points.len(),
{
    if points.len() > 0 {
        let init = points.drop_last();
        let last = points.last();
        assert(1 <= points[points.len() - 1] <= high);
        assert(within(init, 1, last - 1)) by {
            assert forall|i: int| 0 <= i < init.len() implies 1 <= #[trigger] init[i] <= last
                - 1 by {
                assert(1 <= points[i] <= high);
                assert(points[i] < points[points.len() - 1]);
            }
        }
        assert forall|a: int, b: int| 0 <= a < b < init.len() implies init[a] < init[b] by {
            assert(points[a] < points[b]);
        }
        if last <= p {
            lemma_count_of_distinct(init, last - 1, last - 1);
            assert forall|i: int| 0 <= i < init.len() implies init[i] <= last - 1 by {
                assert(1 <= init[i] <= last - 1);
            }
            lemma_count_all_before(init, last - 1);
            assert forall|i: int| 0 <= i < init.len() implies init[i] <= p by {
                assert(1 <= init[i] <= last - 1);
            }
            lemma_count_all_before(init, p);
        } else {
            lemma_count_of_distinct(init, p, last - 1);
        }
    }
}

/// The offsets of valid cursors in order are ascending and inside the text.
pub proof fn lemma_offsets_of_sorted(text: Seq<char>, cs: Seq<Cursor>)
    requires
        all_valid(text, cs),
        sorted(cs),
    ensures
        ascending(offsets(text, cs)),
        within(offsets(text, cs), 0, text.len() as int),
{
    let offs = offsets(text, cs);
    assert forall|i: int, j: int| 0 <= i < j < offs.len() implies offs[i] <= offs[j] by {
        assert(is_valid(text, cs[i]) && is_valid(text, cs[j]));
        lemma_order_is_offset_order(text, cs[i], cs[j]);
    }
    assert forall|i: int| 0 <= i < offs.len() implies 0 <= #[trigger] offs[i] <= text.len() by {
        assert(is_valid(text, cs[i]));
        lemma_offset_of_valid(text, cs[i]);
    }
}

} // verus!
