//! The extension of a file path, by which the rules of its language are
//! found. The segments of a path are set apart by `/`.

use crate::chars::{chars_of, copy_range, string_from_chars};
use vstd::prelude::*;

verus! {

/// Where the segment of `path` that ends at `end` starts: just after the
/// last `/` before `end`, or at 0.
pub open spec fn segment_start(path: Seq<char>, end: int) -> int
    decreases end,
{
    if end <= 0 {
        0
    } else if path[end - 1] == '/' {
        end
    } else {
        segment_start(path, end - 1)
    }
}

/// The file name in `path[..end]`, by its start and its end: the last
/// segment that is neither empty nor `.`. There is none where no such
/// segment stands in the path, and none where that segment is `..`.
pub open spec fn file_name(path: Seq<char>, end: int) -> Option<(int, int)>
    decreases end,
    via file_name_ends
{
    if end <= 0 {
        None
    } else if path[end - 1] == '/' {
        file_name(path, end - 1)
    } else {
        let start = segment_start(path, end);
        let name = path.subrange(start, end);
        if name == seq!['.'] {
            file_name(path, start)
        } else if name == seq!['.', '.'] {
            None
        } else {
            Some((start, end))
        }
    }
}

#[via_fn]
proof fn file_name_ends(path: Seq<char>, end: int) {
    if end > 0 && path[end - 1] != '/' {
        lemma_segment_start(path, end);
    }
}

/// The index of the last `.` in `name[..end]`, or -1.
pub open spec fn last_dot(name: Seq<char>, end: int) -> int
    decreases end,
{
    if end <= 0 {
        -1
    } else if name[end - 1] == '.' {
        end - 1
    } else {
        last_dot(name, end - 1)
    }
}

/// The extension of the file that `path` names: what follows the last `.`
/// of the file name, where that `.` is not the first character of the
/// name.
pub open spec fn extension_of(path: Seq<char>) -> Option<Seq<char>> {
    match file_name(path, path.len() as int) {
        Some((start, end)) => {
            let dot = last_dot(path.subrange(start, end), end - start);
            if dot > 0 {
                Some(path.subrange(start + dot + 1, end))
            } else {
                None
            }
        },
        None => None,
    }
}

/// A segment starts before its end unless a `/` stands just before the
/// end, and holds no `/`.
pub proof fn lemma_segment_start(path: Seq<char>, end: int)
    requires
        0 <= end,
    ensures
        0 <= segment_start(path, end) <= end,
        end > 0 && path[end - 1] != '/' ==> segment_start(path, end) < end,
        segment_start(path, end) > 0 ==> path[segment_start(path, end) - 1] == '/',
        forall|i: int| segment_start(path, end) <= i < end ==> path[i] != '/',
    decreases end,
{
    if end > 0 && path[end - 1] != '/' {
        lemma_segment_start(path, end - 1);
    }
}

/// Where the segment of `path` that ends at `end` starts.
fn start_of_segment(path: &Vec<char>, end: usize) -> (start: usize)
    requires
        end <= path@.len(),
    ensures
        start == segment_start(path@, end as int),
        start <= end,
{
    let mut start: usize = end;
    while start > 0 && path[start - 1] != '/'
        invariant
            start <= end <= path@.len(),
            segment_start(path@, end as int) == segment_start(path@, start as int),
        decreases start,
    {
        start -= 1;
    }
    start
}

/// The start and the end of the file name of `path`.
fn name_of_file(path: &Vec<char>) -> (name: Option<(usize, usize)>)
    ensures
        match name {
            Some((start, end)) => file_name(path@, path@.len() as int) == Some(
                (start as int, end as int),
            ) && start < end <= path@.len(),
            None => file_name(path@, path@.len() as int) is None,
        },
{
    let mut end: usize = path.len();
    while end > 0
        invariant
            end <= path@.len(),
            file_name(path@, path@.len() as int) == file_name(path@, end as int),
        decreases end,
    {
        if path[end - 1] == '/' {
            end -= 1;
        } else {
            let start = start_of_segment(path, end);
            proof {
                lemma_segment_start(path@, end as int);
                let name = path@.subrange(start as int, end as int);
                if end - start == 1 && path@[start as int] == '.' {
                    assert(name =~= seq!['.']);
                } else if name == seq!['.'] {
                    assert(seq!['.'].len() == 1);
                    assert(name[0] == '.');
                }
                if end - start == 2 && path@[start as int] == '.' && path@[start + 1] == '.' {
                    assert(name =~= seq!['.', '.']);
                } else if name == seq!['.', '.'] {
                    assert(seq!['.', '.'].len() == 2);
                    assert(name[0] == '.' && name[1] == '.');
                }
            }
            if end - start == 1 && path[start] == '.' {
                end = start;
            } else if end - start == 2 && path[start] == '.' && path[start + 1] == '.' {
                return None;
            } else {
                return Some((start, end));
            }
        }
    }
    None
}

/// The extension of the file that `path` names.
pub fn file_extension(path: &str) -> (extension: Option<String>)
    ensures
        match extension {
            Some(ext) => extension_of(path@) == Some(ext@),
            None => extension_of(path@) is None,
        },
{
    let chars = chars_of(path);
    match name_of_file(&chars) {
        Some((start, end)) => {
            let ghost name = chars@.subrange(start as int, end as int);
            let mut dot: usize = end;
            while dot > start && chars[dot - 1] != '.'
                invariant
                    start <= dot <= end <= chars@.len(),
                    name == chars@.subrange(start as int, end as int),
                    last_dot(name, end - start) == last_dot(name, dot - start),
                decreases dot,
            {
                proof {
                    assert(name[dot - start - 1] == chars@[dot - 1]);
                }
                dot -= 1;
            }
            proof {
                if dot > start {
                    assert(name[dot - start - 1] == chars@[dot - 1]);
                }
            }
            // `dot` is just behind the last `.` of the name, or at its start
            if dot > start + 1 {
                Some(string_from_chars(copy_range(&chars, dot, end)))
            } else {
                None
            }
        },
        None => None,
    }
}

} // verus!
