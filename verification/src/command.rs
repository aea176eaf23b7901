//! The command line of command mode: which command a line asks for. The
//! host carries the command out.

use crate::chars::{chars_of, copy_range, string_from_chars};
use crate::keys::{name_views, pieces, split};
use vstd::prelude::*;

verus! {

/// What a command line asks for.
#[derive(Clone, Debug, PartialEq, Eq)]
pub enum Command {
    /// `q`: leave, unless there are changes that have not been saved.
    Quit,
    /// `q!`: leave, whatever has changed.
    ForceQuit,
    /// `w` or `w path`: save the document, to `path` where it has no path
    /// of its own.
    Write(Option<String>),
    /// `f`: look for text.
    Find,
    /// `1command`: run `command`, which is the rest of the line, in the
    /// shell.
    Shell(String),
    /// `3name`: run the program `name` of the working directory.
    Local(String),
    /// Anything else.
    Unknown,
}

/// What a command line asks for, as mathematics.
pub enum CommandView {
    Quit,
    ForceQuit,
    Write(Option<Seq<char>>),
    Find,
    Shell(Seq<char>),
    Local(Seq<char>),
    Unknown,
}

impl View for Command {
    type V = CommandView;

    open spec fn view(&self) -> CommandView {
        match self {
            Command::Quit => CommandView::Quit,
            Command::ForceQuit => CommandView::ForceQuit,
            Command::Write(path) => CommandView::Write(
                match path {
                    Some(p) => Some(p@),
                    None => None,
                },
            ),
            Command::Find => CommandView::Find,
            Command::Shell(command) => CommandView::Shell(command@),
            Command::Local(name) => CommandView::Local(name@),
            Command::Unknown => CommandView::Unknown,
        }
    }
}

/// `s` from the first character on that is not `c`.
pub open spec fn without_leading(s: Seq<char>, c: char) -> Seq<char>
    decreases s.len(),
{
    if s.len() > 0 && s[0] == c {
        without_leading(s.drop_first(), c)
    } else {
        s
    }
}

/// The command that `line` asks for. The words of a line are set apart by
/// single spaces, and the first word says which command it is.
pub open spec fn command_of(line: Seq<char>) -> CommandView {
    let words = pieces(line, ' ');
    let first = words[0];
    if first == "q"@ {
        CommandView::Quit
    } else if first == "q!"@ {
        CommandView::ForceQuit
    } else if first == "w"@ {
        CommandView::Write(
            if words.len() >= 2 {
                Some(words[1])
            } else {
                None
            },
        )
    } else if first == "f"@ {
        CommandView::Find
    } else if first.len() > 0 && first[0] == '1' {
        CommandView::Shell(line.subrange(1, line.len() as int))
    } else if first.len() > 0 && first[0] == '3' {
        CommandView::Local(without_leading(first, '3'))
    } else {
        CommandView::Unknown
    }
}

/// The first word of a line starts the line.
proof fn lemma_first_piece(s: Seq<char>, sep: char)
    ensures
        pieces(s, sep).len() >= 1,
        pieces(s, sep)[0].len() <= s.len(),
        pieces(s, sep)[0] == s.subrange(0, pieces(s, sep)[0].len() as int),
    decreases s.len(),
{
    if s.len() > 0 {
        let init = s.drop_last();
        lemma_first_piece(init, sep);
        let before = pieces(init, sep);
        let first = before[0];
        assert(first =~= init.subrange(0, first.len() as int));
        assert(init.subrange(0, first.len() as int) =~= s.subrange(0, first.len() as int));
        if s.last() != sep && before.len() == 1 {
            let grown = first.push(s.last());
            assert(pieces(s, sep)[0] == grown);
            assert(first.len() == init.len()) by {
                lemma_one_piece(init, sep);
            }
            assert(grown =~= s.subrange(0, grown.len() as int));
        } else if s.last() != sep {
            assert(pieces(s, sep)[0] == first);
        } else {
            assert(pieces(s, sep)[0] == first);
        }
    } else {
        assert(pieces(s, sep)[0] =~= s.subrange(0, 0));
    }
}

/// A text that is one piece holds no separator, and is that piece.
proof fn lemma_one_piece(s: Seq<char>, sep: char)
    requires
        pieces(s, sep).len() == 1,
    ensures
        pieces(s, sep)[0] == s,
    decreases s.len(),
{
    if s.len() > 0 {
        let init = s.drop_last();
        let before = pieces(init, sep);
        lemma_first_piece_count(init, sep);
        if s.last() == sep {
            assert(pieces(s, sep).len() == before.len() + 1);
        } else {
            assert(pieces(s, sep).len() == before.len());
            lemma_one_piece(init, sep);
            assert(pieces(s, sep)[0] =~= init.push(s.last()));
            assert(init.push(s.last()) =~= s);
        }
    } else {
        assert(pieces(s, sep)[0] =~= s);
    }
}

/// There is always a piece.
proof fn lemma_first_piece_count(s: Seq<char>, sep: char)
    ensures
        pieces(s, sep).len() >= 1,
    decreases s.len(),
{
    if s.len() > 0 {
        lemma_first_piece_count(s.drop_last(), sep);
    }
}

/// Whether `word` is the characters of `text`.
fn is_word(word: &Vec<char>, text: &str) -> (b: bool)
    ensures
        b == (word@ == text@),
{
    let chars = chars_of(text);
    if word.len() != chars.len() {
        return false;
    }
    let mut i: usize = 0;
    while i < word.len()
        invariant
            i <= word@.len() == chars@.len(),
            chars@ == text@,
            forall|j: int| 0 <= j < i ==> word@[j] == chars@[j],
        decreases word@.len() - i,
    {
        if word[i] != chars[i] {
            return false;
        }
        i += 1;
    }
    proof {
        assert(word@ =~= text@);
    }
    true
}

/// Reads a command line.
pub fn parse_command(line: &str) -> (command: Command)
    ensures
        command@ == command_of(line@),
{
    let chars = chars_of(line);
    let words = split(&chars, ' ');
    proof {
        lemma_first_piece(line@, ' ');
        assert(name_views(words@).len() == words@.len());
        assert(name_views(words@)[0] == words@[0]@);
        if words@.len() >= 2 {
            assert(name_views(words@)[1] == words@[1]@);
        }
    }
    let first = &words[0];
    if is_word(first, "q") {
        Command::Quit
    } else if is_word(first, "q!") {
        Command::ForceQuit
    } else if is_word(first, "w") {
        if words.len() >= 2 {
            let path = string_from_chars(copy_range(&words[1], 0, words[1].len()));
            proof {
                assert(words@[1]@.subrange(0, words@[1]@.len() as int) =~= words@[1]@);
            }
            Command::Write(Some(path))
        } else {
            Command::Write(None)
        }
    } else if is_word(first, "f") {
        Command::Find
    } else if first.len() > 0 && first[0] == '1' {
        Command::Shell(string_from_chars(copy_range(&chars, 1, chars.len())))
    } else if first.len() > 0 && first[0] == '3' {
        let mut start: usize = 0;
        proof {
            assert(first@.subrange(0, first@.len() as int) =~= first@);
        }
        while start < first.len() && first[start] == '3'
            invariant
                start <= first@.len(),
                without_leading(first@, '3') == without_leading(
                    first@.subrange(start as int, first@.len() as int),
                    '3',
                ),
            decreases first@.len() - start,
        {
            proof {
                let rest = first@.subrange(start as int, first@.len() as int);
                assert(rest[0] == first@[start as int]);
                assert(rest.drop_first() =~= first@.subrange(start + 1, first@.len() as int));
            }
            start += 1;
        }
        proof {
            let rest = first@.subrange(start as int, first@.len() as int);
            if start < first@.len() {
                assert(rest[0] == first@[start as int]);
            }
            assert(without_leading(rest, '3') == rest);
        }
        Command::Local(string_from_chars(copy_range(first, start, first.len())))
    } else {
        Command::Unknown
    }
}

} // verus!
