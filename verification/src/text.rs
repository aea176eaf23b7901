//! The line structure of a text, as mathematics over `Seq<char>`.
//!
//! A line feed (U+000A) ends a line and belongs to the line it ends. The
//! start of the text and every position just after a line feed start a line,
//! so a text with `n` line feeds has `n + 1` lines, the last of which may be
//! empty.

use vstd::prelude::*;

verus! {

/// The number of line feeds among the first `end` characters of `s`.
pub open spec fn newlines(s: Seq<char>, end: int) -> nat
    decreases end,
{
    if end <= 0 {
        0
    } else {
        newlines(s, end - 1) + if end <= s.len() && s[end - 1] == '\n' {
            1nat
        } else {
            0nat
        }
    }
}

/// The number of lines of `s`.
pub open spec fn line_count(s: Seq<char>) -> nat {
    newlines(s, s.len() as int) + 1
}

/// The index of the line that holds position `idx`.
pub open spec fn line_of(s: Seq<char>, idx: int) -> nat {
    newlines(s, idx)
}

/// The first position at or after `from` that has `line` line feeds before
/// it, or the length of `s` when there is none.
pub open spec fn first_after(s: Seq<char>, line: nat, from: int) -> int
    decreases s.len() - from,
{
    if from >= s.len() {
        s.len() as int
    } else if newlines(s, from) >= line {
        from
    } else {
        first_after(s, line, from + 1)
    }
}

/// The position at which line `line` starts: the first position with `line`
/// line feeds before it. For a `line` past the last one it is the length of
/// `s`.
pub open spec fn line_start(s: Seq<char>, line: nat) -> int {
    first_after(s, line, 0)
}

/// The number of characters of line `line`, its line feed included.
pub open spec fn line_len(s: Seq<char>, line: nat) -> int {
    line_start(s, line + 1) - line_start(s, line)
}

/// The characters of line `line`, its line feed included.
pub open spec fn line_text(s: Seq<char>, line: nat) -> Seq<char> {
    s.subrange(line_start(s, line), line_start(s, line + 1))
}

/// The number of characters of line `line` before its line feed.
pub open spec fn visible_len(s: Seq<char>, line: nat) -> int {
    let end = line_start(s, line + 1);
    if line_len(s, line) > 0 && s[end - 1] == '\n' {
        line_len(s, line) - 1
    } else {
        line_len(s, line)
    }
}

/// Counting line feeds never goes down, and goes up by at most one for each
/// position.
pub proof fn lemma_newlines_monotone(s: Seq<char>, a: int, b: int)
    requires
        a <= b,
    ensures
        newlines(s, a) <= newlines(s, b),
        a >= 0 ==> newlines(s, b) - newlines(s, a) <= b - a,
    decreases b - a,
{
    if a < b {
        lemma_newlines_monotone(s, a, b - 1);
    }
}

/// No more line feeds can come before a position than there are positions.
pub proof fn lemma_newlines_bound(s: Seq<char>, end: int)
    ensures
        newlines(s, end) <= if end < 0 { 0 } else { end },
        newlines(s, end) <= s.len(),
    decreases end,
{
    if end > 0 {
        lemma_newlines_bound(s, end - 1);
        if end > s.len() {
            lemma_newlines_past_end(s, end);
        }
    }
}

/// Positions past the end of the text add no line feeds.
pub proof fn lemma_newlines_past_end(s: Seq<char>, end: int)
    requires
        end >= s.len(),
    ensures
        newlines(s, end) == newlines(s, s.len() as int),
    decreases end,
{
    if end > s.len() {
        lemma_newlines_past_end(s, end - 1);
    }
}

/// What `first_after` returns lies between `from` and the end of the text,
/// and nothing between `from` and it has `line` line feeds before it.
pub proof fn lemma_first_after(s: Seq<char>, line: nat, from: int)
    requires
        0 <= from <= s.len(),
    ensures
        from <= first_after(s, line, from) <= s.len(),
        first_after(s, line, from) < s.len() ==> newlines(s, first_after(s, line, from)) >= line,
        forall|i: int| from <= i < first_after(s, line, from) ==> newlines(s, i) < line,
    decreases s.len() - from,
{
    if from < s.len() && newlines(s, from) < line {
        lemma_first_after(s, line, from + 1);
    }
}

/// A line starts inside the text, and exactly `line` line feeds come before
/// the start of a line that exists.
pub proof fn lemma_line_start(s: Seq<char>, line: nat)
    ensures
        0 <= line_start(s, line) <= s.len(),
        line < line_count(s) ==> newlines(s, line_start(s, line)) == line,
        line >= line_count(s) ==> line_start(s, line) == s.len(),
        line == 0 ==> line_start(s, line) == 0,
        line > 0 && line < line_count(s) ==> line_start(s, line) > 0 && s[line_start(s, line) - 1]
            == '\n',
{
    lemma_first_after(s, line, 0);
    let p = line_start(s, line);
    let total = newlines(s, s.len() as int);
    if line <= total {
        if p == s.len() {
            // every earlier position has fewer line feeds before it; so has
            // the end unless it has exactly `line`
            if p > 0 {
                assert(newlines(s, p - 1) < line);
            }
        } else {
            if p > 0 {
                assert(newlines(s, p - 1) < line);
            }
        }
    } else {
        if p < s.len() {
            lemma_newlines_monotone(s, p, s.len() as int);
        }
    }
}

/// A position is at or after the start of a line exactly when that many
/// line feeds come before it.
pub proof fn lemma_line_start_le(s: Seq<char>, line: nat, idx: int)
    requires
        0 <= idx <= s.len(),
        line < line_count(s),
    ensures
        line_start(s, line) <= idx <==> line <= line_of(s, idx),
{
    lemma_first_after(s, line, 0);
    lemma_line_start(s, line);
    let p = line_start(s, line);
    if p <= idx {
        lemma_newlines_monotone(s, p, idx);
    }
}

/// Lines start in the order of their indices.
pub proof fn lemma_line_start_monotone(s: Seq<char>, a: nat, b: nat)
    requires
        a <= b,
    ensures
        line_start(s, a) <= line_start(s, b),
{
    lemma_line_start(s, a);
    lemma_line_start(s, b);
    if b < line_count(s) {
        lemma_line_start_le(s, a, line_start(s, b));
    }
}

/// The line of a position starts at or before it, and the next line, if
/// there is one, starts after it.
pub proof fn lemma_line_of(s: Seq<char>, idx: int)
    requires
        0 <= idx <= s.len(),
    ensures
        line_of(s, idx) < line_count(s),
        line_start(s, line_of(s, idx)) <= idx,
        idx <= line_start(s, line_of(s, idx) + 1),
        line_of(s, idx) + 1 < line_count(s) ==> idx < line_start(s, line_of(s, idx) + 1),
{
    let l = line_of(s, idx);
    lemma_newlines_monotone(s, idx, s.len() as int);
    lemma_line_start_le(s, l, idx);
    lemma_line_start(s, l + 1);
    if l + 1 < line_count(s) {
        lemma_line_start_le(s, l + 1, idx);
    }
}

/// A line that is not the last ends with a line feed, and holds no other;
/// the last line holds none.
pub proof fn lemma_line_shape(s: Seq<char>, line: nat)
    requires
        line < line_count(s),
    ensures
        0 <= line_len(s, line),
        0 <= visible_len(s, line) <= line_len(s, line),
        line + 1 < line_count(s) ==> visible_len(s, line) == line_len(s, line) - 1,
        line + 1 == line_count(s) ==> visible_len(s, line) == line_len(s, line),
        forall|i: int|
            line_start(s, line) <= i < line_start(s, line) + visible_len(s, line) ==> s[i] != '\n',
{
    lemma_line_start(s, line);
    lemma_line_start(s, line + 1);
    lemma_line_start_monotone(s, line, line + 1);
    let a = line_start(s, line);
    let b = line_start(s, line + 1);
    if line + 1 == line_count(s) {
        if b > a && s[b - 1] == '\n' {
            lemma_newlines_monotone(s, a, b - 1);
        }
    }
    assert forall|i: int| a <= i < a + visible_len(s, line) implies s[i] != '\n' by {
        if s[i] == '\n' {
            lemma_newlines_monotone(s, a, i);
            lemma_newlines_monotone(s, i + 1, b);
            if line + 1 < line_count(s) {
                lemma_newlines_monotone(s, i + 1, b - 1);
            }
        }
    }
}

/// A line starts at the one position that has `line` line feeds before it
/// while no earlier position has.
pub proof fn lemma_line_start_is(s: Seq<char>, line: nat, idx: int)
    requires
        0 <= idx <= s.len(),
        newlines(s, idx) >= line,
        forall|i: int| 0 <= i < idx ==> newlines(s, i) < line,
    ensures
        line_start(s, line) == idx,
{
    lemma_first_after(s, line, 0);
    let p = line_start(s, line);
    if p < idx {
        assert(newlines(s, p) < line);
    }
}

/// Counting line feeds in a text that has got one more character: before
/// the new character nothing has changed, and after it the count is that
/// of one place before, and one more where the character is a line feed.
pub proof fn lemma_newlines_insert(s: Seq<char>, at: int, ch: char, idx: int)
    requires
        0 <= at <= s.len(),
        0 <= idx <= s.len() + 1,
    ensures
        newlines(s.insert(at, ch), idx) == if idx <= at {
            newlines(s, idx)
        } else {
            newlines(s, idx - 1) + if ch == '\n' {
                1nat
            } else {
                0nat
            }
        },
    decreases idx,
{
    let t = s.insert(at, ch);
    s.insert_ensures(at, ch);
    if idx > 0 {
        lemma_newlines_insert(s, at, ch, idx - 1);
        if idx - 1 < at {
            assert(t[idx - 1] == s[idx - 1]);
        } else if idx - 1 == at {
            assert(t[idx - 1] == ch);
        } else {
            assert(t[idx - 1] == s[idx - 2]);
        }
    }
}

/// Counting line feeds in a text that has lost a character: before the
/// lost character nothing has changed, and after it the count is that of
/// one place further on, and one less where the character was a line feed.
pub proof fn lemma_newlines_remove(s: Seq<char>, at: int, idx: int)
    requires
        0 <= at < s.len(),
        0 <= idx <= s.len() - 1,
    ensures
        newlines(s.remove(at), idx) == if idx <= at {
            newlines(s, idx) as int
        } else {
            newlines(s, idx + 1) - if s[at] == '\n' {
                1int
            } else {
                0int
            }
        },
    decreases idx,
{
    let t = s.remove(at);
    s.remove_ensures(at);
    if idx > 0 {
        lemma_newlines_remove(s, at, idx - 1);
        if idx - 1 < at {
            assert(t[idx - 1] == s[idx - 1]);
        } else {
            assert(t[idx - 1] == s[idx]);
            assert(newlines(s, idx + 1) == newlines(s, idx) + if s[idx] == '\n' {
                1nat
            } else {
                0nat
            });
            if idx - 1 == at {
                assert(newlines(s, idx) == newlines(s, idx - 1) + if s[at] == '\n' {
                    1nat
                } else {
                    0nat
                });
            }
        }
    }
}

} // verus!
