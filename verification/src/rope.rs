//! What this library takes on trust about `ropey::Rope`.
//!
//! The rope is built without ropey's `cr_lines` and `unicode_lines`
//! features, so the only line break it knows is the line feed, alone or
//! after a carriage return. Nothing below is proved: each contract restates
//! what ropey documents for the method it names.

use crate::text::{line_count, line_of, line_start, line_text};
use ropey::Rope;
use vstd::prelude::*;

verus! {

/// `ropey::Rope`, as a type whose inside is not looked into.
#[verifier::external_type_specification]
#[verifier::external_body]
pub struct ExRope(ropey::Rope);

/// The characters that a rope holds, in order.
pub uninterp spec fn rope_text(rope: Rope) -> Seq<char>;

/// `Rope::from_str`: the rope holds the characters of `text`.
pub assume_specification[ Rope::from_str ](text: &str) -> (rope: Rope)
    ensures
        rope_text(rope) == text@,
;

/// `Rope::len_chars`: the number of characters held.
pub assume_specification[ Rope::len_chars ](rope: &Rope) -> (n: usize)
    ensures
        n == rope_text(*rope).len(),
;

/// `Rope::len_lines`: one more than the number of line breaks held.
pub assume_specification[ Rope::len_lines ](rope: &Rope) -> (n: usize)
    ensures
        n == line_count(rope_text(*rope)),
;

/// `Rope::char`: the character at `char_idx`. Ropey panics on an index that
/// is not below the length.
pub assume_specification[ Rope::char ](rope: &Rope, char_idx: usize) -> (c: char)
    requires
        char_idx < rope_text(*rope).len(),
    ensures
        c == rope_text(*rope)[char_idx as int],
;

/// `Rope::char_to_line`: the number of line breaks before `char_idx`, which
/// may be the length. Ropey panics on an index above the length.
pub assume_specification[ Rope::char_to_line ](rope: &Rope, char_idx: usize) -> (line: usize)
    requires
        char_idx <= rope_text(*rope).len(),
    ensures
        line == line_of(rope_text(*rope), char_idx as int),
;

/// `Rope::line_to_char`: the index of the first character of line
/// `line_idx`; for the line count itself, the length. Ropey panics on a
/// line index above the line count.
pub assume_specification[ Rope::line_to_char ](rope: &Rope, line_idx: usize) -> (idx: usize)
    requires
        line_idx <= line_count(rope_text(*rope)),
    ensures
        idx == line_start(rope_text(*rope), line_idx as nat),
;

/// `Rope::insert_char`: `ch` is put in at `char_idx`, and what stood at or
/// after that index moves up by one. Ropey panics on an index above the
/// length; the bound on the length keeps the new length a `usize`.
pub assume_specification[ Rope::insert_char ](rope: &mut Rope, char_idx: usize, ch: char)
    requires
        char_idx <= rope_text(*old(rope)).len(),
        rope_text(*old(rope)).len() < usize::MAX,
    ensures
        rope_text(*final(rope)) == rope_text(*old(rope)).insert(char_idx as int, ch),
;

/// `Rope::remove` on the range `start..end`: the characters of that range
/// are taken out. Ropey panics when the range runs backwards or past the
/// length.
#[verifier::external_body]
pub(crate) fn rope_remove(rope: &mut Rope, start: usize, end: usize)
    requires
        start <= end <= rope_text(*old(rope)).len(),
    ensures
        rope_text(*final(rope)) == rope_text(*old(rope)).subrange(0, start as int) + rope_text(
            *old(rope),
        ).subrange(end as int, rope_text(*old(rope)).len() as int),
{
    rope.remove(start..end)
}

/// `Rope::line`, copied out character by character: the characters of line
/// `line_idx`, its line break included. Ropey panics on a line index that
/// is not below the line count.
#[verifier::external_body]
pub(crate) fn rope_line_chars(rope: &Rope, line_idx: usize) -> (chars: Vec<char>)
    requires
        line_idx < line_count(rope_text(*rope)),
    ensures
        chars@ == line_text(rope_text(*rope), line_idx as nat),
{
    rope.line(line_idx).chars().collect()
}

/// `String::from(&Rope)`: a string of the characters held.
#[verifier::external_body]
pub(crate) fn rope_to_string(rope: &Rope) -> (text: String)
    ensures
        text@ == rope_text(*rope),
{
    String::from(rope)
}

} // verus!
