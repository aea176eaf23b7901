//! The lexical model of a line: which spans a line falls into under a set
//! of rules, and what is still open at its end.
//!
//! The lexer is greedy and never looks back. At each place it tries the
//! comment delimiters in their order, then the string delimiters in their
//! order, then the character classes. It knows one open comment or string
//! at a time and no nesting.

use crate::chars::{alphanumeric, is_digit, white_space};
use vstd::prelude::*;

verus! {

/// The classes of a span.
#[derive(Clone, Copy, Debug, PartialEq, Eq, Structural)]
pub enum TokenKind {
    Keyword,
    Comment,
    StringLiteral,
    Number,
    Plain,
    Whitespace,
    Punctuation,
}

/// A pair of delimiters: what opens a comment or a string, and what
/// closes it.
pub struct PairView {
    pub start: Seq<char>,
    pub end: Seq<char>,
}

/// A set of rules.
pub struct RulesView {
    pub keywords: Seq<Seq<char>>,
    pub comments: Seq<PairView>,
    pub strings: Seq<PairView>,
}

/// What is open at the end of a line: the delimiter that will close the
/// open comment, and the one that will close the open string.
pub struct CarryView {
    pub comment: Option<Seq<char>>,
    pub string: Option<Seq<char>>,
}

/// A span: a piece of a line and its class.
pub struct SpanView {
    pub text: Seq<char>,
    pub kind: TokenKind,
}

/// A line as the lexer leaves it: its spans, and what is open at its end.
pub struct LineView {
    pub spans: Seq<SpanView>,
    pub carry: CarryView,
}

/// The runs of characters that the lexer takes as one span.
#[derive(Clone, Copy, Debug, PartialEq, Eq, Structural)]
pub enum CharClass {
    Space,
    NumberPart,
    WordPart,
}

/// Nothing open.
pub open spec fn nothing_open() -> CarryView {
    CarryView { comment: None, string: None }
}

/// Whether `needle` stands in `hay` at `at`.
pub open spec fn occurs_at(hay: Seq<char>, needle: Seq<char>, at: int) -> bool {
    &&& 0 <= at
    &&& at + needle.len() <= hay.len()
    &&& hay.subrange(at, at + needle.len()) == needle
}

/// The first place at or after `from` at which `needle` stands in `hay`.
pub open spec fn find_from(hay: Seq<char>, needle: Seq<char>, from: int) -> Option<int>
    decreases hay.len() + 1 - from,
{
    if from < 0 || from + needle.len() > hay.len() {
        None
    } else if occurs_at(hay, needle, from) {
        Some(from)
    } else {
        find_from(hay, needle, from + 1)
    }
}

/// The index of the first pair, from index `k` on, whose opening delimiter
/// stands in `line` at `pos`. A pair with an empty opening delimiter opens
/// nothing.
pub open spec fn opening(pairs: Seq<PairView>, line: Seq<char>, pos: int, k: int) -> Option<int>
    decreases pairs.len() - k,
{
    if k < 0 || k >= pairs.len() {
        None
    } else if pairs[k].start.len() > 0 && occurs_at(line, pairs[k].start, pos) {
        Some(k)
    } else {
        opening(pairs, line, pos, k + 1)
    }
}

/// Whether `c` belongs to a run of class `class`.
pub open spec fn in_class(c: char, class: CharClass) -> bool {
    match class {
        CharClass::Space => white_space(c),
        CharClass::NumberPart => is_digit(c) || c == '.' || c == '_',
        CharClass::WordPart => alphanumeric(c) || c == '_',
    }
}

/// The end of the run of class `class` that starts at `pos`.
pub open spec fn class_end(line: Seq<char>, pos: int, class: CharClass) -> int
    decreases line.len() - pos,
{
    if pos < 0 || pos >= line.len() {
        line.len() as int
    } else if in_class(line[pos], class) {
        class_end(line, pos + 1, class)
    } else {
        pos
    }
}

/// What the lexer finds at one place: where the span ends, its class, and
/// what it leaves open. A span that leaves something open runs to the end
/// of the line.
pub struct Step {
    pub end: int,
    pub kind: TokenKind,
    pub carry: CarryView,
}

/// The span that the pair `pair` opens at `pos`: it ends behind the first
/// closing delimiter that follows the opening one, or runs to the end of
/// the line and stays open. Where `to_line_end` holds, the span runs to
/// the end of the line and nothing stays open.
pub open spec fn delimited(line: Seq<char>, pos: int, pair: PairView, to_line_end: bool) -> (
    int,
    Option<Seq<char>>,
) {
    if to_line_end {
        (line.len() as int, None)
    } else {
        match find_from(line, pair.end, pos + pair.start.len()) {
            Some(at) => (at + pair.end.len(), None),
            None => (line.len() as int, Some(pair.end)),
        }
    }
}

/// The span that starts at `pos`, which lies in the line.
pub open spec fn step_at(rules: RulesView, line: Seq<char>, pos: int) -> Step {
    match opening(rules.comments, line, pos, 0) {
        Some(k) => {
            let pair = rules.comments[k];
            let found = delimited(line, pos, pair, pair.end == seq!['\n']);
            Step {
                end: found.0,
                kind: TokenKind::Comment,
                carry: CarryView { comment: found.1, string: None },
            }
        },
        None => match opening(rules.strings, line, pos, 0) {
            Some(k) => {
                let found = delimited(line, pos, rules.strings[k], false);
                Step {
                    end: found.0,
                    kind: TokenKind::StringLiteral,
                    carry: CarryView { comment: None, string: found.1 },
                }
            },
            None => {
                let c = line[pos];
                if white_space(c) {
                    Step {
                        end: class_end(line, pos, CharClass::Space),
                        kind: TokenKind::Whitespace,
                        carry: nothing_open(),
                    }
                } else if is_digit(c) {
                    Step {
                        end: class_end(line, pos, CharClass::NumberPart),
                        kind: TokenKind::Number,
                        carry: nothing_open(),
                    }
                } else if alphanumeric(c) || c == '_' {
                    let end = class_end(line, pos, CharClass::WordPart);
                    Step {
                        end,
                        kind: if rules.keywords.contains(line.subrange(pos, end)) {
                            TokenKind::Keyword
                        } else {
                            TokenKind::Plain
                        },
                        carry: nothing_open(),
                    }
                } else {
                    Step { end: pos + 1, kind: TokenKind::Punctuation, carry: nothing_open() }
                }
            },
        },
    }
}

/// The spans of `line` from `pos` on, where nothing is open at `pos`.
pub open spec fn lex_from(rules: RulesView, line: Seq<char>, pos: int) -> LineView
    decreases line.len() - pos,
    via lex_from_ends
{
    if pos < 0 || pos >= line.len() {
        LineView { spans: Seq::empty(), carry: nothing_open() }
    } else {
        let step = step_at(rules, line, pos);
        let span = SpanView { text: line.subrange(pos, step.end), kind: step.kind };
        if step.carry != nothing_open() {
            LineView { spans: seq![span], carry: step.carry }
        } else {
            let rest = lex_from(rules, line, step.end);
            LineView { spans: seq![span] + rest.spans, carry: rest.carry }
        }
    }
}

#[via_fn]
proof fn lex_from_ends(rules: RulesView, line: Seq<char>, pos: int) {
    if 0 <= pos < line.len() {
        lemma_step_at(rules, line, pos);
    }
}

/// The spans of `line` from `pos` on, where no comment is open at `pos`
/// but a string may be. An open string is looked at only where the line
/// goes on: it ends behind its closing delimiter, or takes the rest of the
/// line and stays open.
pub open spec fn lex_in_string(
    rules: RulesView,
    line: Seq<char>,
    pos: int,
    string: Option<Seq<char>>,
) -> LineView {
    match string {
        Some(end) if pos < line.len() => match find_from(line, end, pos) {
            Some(at) => {
                let span = SpanView {
                    text: line.subrange(pos, at + end.len()),
                    kind: TokenKind::StringLiteral,
                };
                let rest = lex_from(rules, line, at + end.len());
                LineView { spans: seq![span] + rest.spans, carry: rest.carry }
            },
            None => LineView {
                spans: seq![
                    SpanView {
                        text: line.subrange(pos, line.len() as int),
                        kind: TokenKind::StringLiteral,
                    },
                ],
                carry: CarryView { comment: None, string: Some(end) },
            },
        },
        Some(end) => LineView {
            spans: Seq::empty(),
            carry: CarryView { comment: None, string: Some(end) },
        },
        None => lex_from(rules, line, pos),
    }
}

/// The spans of a whole line that is entered with `carry` open. An open
/// comment ends behind its closing delimiter, and the line goes on from
/// there; where the line does not hold that delimiter, the line is one
/// comment and what was open stays open.
pub open spec fn lex_line(rules: RulesView, line: Seq<char>, carry: CarryView) -> LineView {
    match carry.comment {
        Some(end) => match find_from(line, end, 0) {
            Some(at) => {
                let span = SpanView {
                    text: line.subrange(0, at + end.len()),
                    kind: TokenKind::Comment,
                };
                let rest = lex_in_string(rules, line, at + end.len(), carry.string);
                LineView { spans: seq![span] + rest.spans, carry: rest.carry }
            },
            None => LineView {
                spans: seq![SpanView { text: line, kind: TokenKind::Comment }],
                carry,
            },
        },
        None => lex_in_string(rules, line, 0, carry.string),
    }
}

/// Some lines as the lexer leaves them: the spans of each, and what is
/// open at the end of the last.
pub struct PageView {
    pub lines: Seq<Seq<SpanView>>,
    pub carry: CarryView,
}

/// The spans of the lines `lines[from..]`, the first of them entered with
/// `carry` open, and each of the others with what the line before it left
/// open.
pub open spec fn lex_lines(rules: RulesView, lines: Seq<Seq<char>>, from: int, carry: CarryView)
    -> PageView
    decreases lines.len() - from,
{
    if from < 0 || from >= lines.len() {
        PageView { lines: Seq::empty(), carry }
    } else {
        let first = lex_line(rules, lines[from], carry);
        let rest = lex_lines(rules, lines, from + 1, first.carry);
        PageView { lines: seq![first.spans] + rest.lines, carry: rest.carry }
    }
}

/// The texts of the spans, one after the other.
pub open spec fn joined(spans: Seq<SpanView>) -> Seq<char>
    decreases spans.len(),
{
    if spans.len() == 0 {
        Seq::empty()
    } else {
        spans[0].text + joined(spans.drop_first())
    }
}

/// What is found, is found at or after the place the search starts from,
/// and the needle stands there and nowhere between.
pub proof fn lemma_find_from(hay: Seq<char>, needle: Seq<char>, from: int)
    requires
        0 <= from,
    ensures
        find_from(hay, needle, from) matches Some(at) ==> from <= at && occurs_at(hay, needle, at)
            && forall|i: int| from <= i < at ==> !occurs_at(hay, needle, i),
        find_from(hay, needle, from) is None ==> forall|i: int|
            from <= i ==> !occurs_at(hay, needle, i),
    decreases hay.len() + 1 - from,
{
    if from + needle.len() <= hay.len() && !occurs_at(hay, needle, from) {
        lemma_find_from(hay, needle, from + 1);
    }
}

/// The pair that opens is the first, from `k` on, whose opening delimiter
/// is not empty and stands at the place.
pub proof fn lemma_opening(pairs: Seq<PairView>, line: Seq<char>, pos: int, k: int)
    requires
        0 <= k,
    ensures
        opening(pairs, line, pos, k) matches Some(i) ==> k <= i < pairs.len() && pairs[i].start.len()
            > 0 && occurs_at(line, pairs[i].start, pos),
    decreases pairs.len() - k,
{
    if k < pairs.len() && !(pairs[k].start.len() > 0 && occurs_at(line, pairs[k].start, pos)) {
        lemma_opening(pairs, line, pos, k + 1);
    }
}

/// A run ends at or after its start, and inside the line.
pub proof fn lemma_class_end(line: Seq<char>, pos: int, class: CharClass)
    requires
        0 <= pos <= line.len(),
    ensures
        pos <= class_end(line, pos, class) <= line.len(),
        pos < line.len() && in_class(line[pos], class) ==> pos < class_end(line, pos, class),
    decreases line.len() - pos,
{
    if pos < line.len() && in_class(line[pos], class) {
        lemma_class_end(line, pos + 1, class);
    }
}

/// Every span takes at least one character and ends inside the line.
pub proof fn lemma_step_at(rules: RulesView, line: Seq<char>, pos: int)
    requires
        0 <= pos < line.len(),
    ensures
        pos < step_at(rules, line, pos).end <= line.len(),
        step_at(rules, line, pos).carry != nothing_open() ==> step_at(rules, line, pos).end
            == line.len(),
{
    lemma_opening(rules.comments, line, pos, 0);
    lemma_opening(rules.strings, line, pos, 0);
    lemma_class_end(line, pos, CharClass::Space);
    lemma_class_end(line, pos, CharClass::NumberPart);
    lemma_class_end(line, pos, CharClass::WordPart);
    match opening(rules.comments, line, pos, 0) {
        Some(k) => {
            lemma_find_from(line, rules.comments[k].end, pos + rules.comments[k].start.len());
        },
        None => match opening(rules.strings, line, pos, 0) {
            Some(k) => {
                lemma_find_from(line, rules.strings[k].end, pos + rules.strings[k].start.len());
            },
            None => {},
        },
    }
}

/// The spans from a place on, joined, are the line from that place on: the
/// lexer drops no character and makes none up.
pub proof fn lemma_lex_from_joined(rules: RulesView, line: Seq<char>, pos: int)
    requires
        0 <= pos <= line.len(),
    ensures
        joined(lex_from(rules, line, pos).spans) == line.subrange(pos, line.len() as int),
    decreases line.len() - pos,
{
    if pos < line.len() {
        let step = step_at(rules, line, pos);
        lemma_step_at(rules, line, pos);
        let span = SpanView { text: line.subrange(pos, step.end), kind: step.kind };
        if step.carry != nothing_open() {
            lemma_joined_one(span);
        } else {
            let rest = lex_from(rules, line, step.end);
            lemma_lex_from_joined(rules, line, step.end);
            lemma_joined_cons(span, rest.spans);
            assert(line.subrange(pos, step.end) + line.subrange(step.end, line.len() as int)
                =~= line.subrange(pos, line.len() as int));
        }
    } else {
        assert(line.subrange(pos, line.len() as int) =~= Seq::<char>::empty());
    }
}

proof fn lemma_joined_one(span: SpanView)
    ensures
        joined(seq![span]) == span.text,
{
    let rest = seq![span].drop_first();
    assert(rest =~= Seq::<SpanView>::empty());
    assert(joined(rest) =~= Seq::<char>::empty());
    assert(joined(seq![span]) == span.text + joined(rest));
    assert(span.text + Seq::<char>::empty() =~= span.text);
}

proof fn lemma_joined_cons(span: SpanView, rest: Seq<SpanView>)
    ensures
        joined(seq![span] + rest) == span.text + joined(rest),
{
    assert((seq![span] + rest).drop_first() =~= rest);
}

/// The spans of a line, joined, are the line, whatever was open at its
/// start.
pub proof fn lemma_lex_line_joined(rules: RulesView, line: Seq<char>, carry: CarryView)
    ensures
        joined(lex_line(rules, line, carry).spans) == line,
{
    let len = line.len() as int;
    assert(line.subrange(0, len) =~= line);
    match carry.comment {
        Some(end) => {
            lemma_find_from(line, end, 0);
            match find_from(line, end, 0) {
                Some(at) => {
                    let span = SpanView {
                        text: line.subrange(0, at + end.len()),
                        kind: TokenKind::Comment,
                    };
                    let rest = lex_in_string(rules, line, at + end.len(), carry.string);
                    lemma_lex_in_string_joined(rules, line, at + end.len(), carry.string);
                    lemma_joined_cons(span, rest.spans);
                    assert(line.subrange(0, at + end.len()) + line.subrange(at + end.len(), len)
                        =~= line);
                },
                None => {
                    lemma_joined_one(SpanView { text: line, kind: TokenKind::Comment });
                },
            }
        },
        None => {
            lemma_lex_in_string_joined(rules, line, 0, carry.string);
        },
    }
}

proof fn lemma_lex_in_string_joined(
    rules: RulesView,
    line: Seq<char>,
    pos: int,
    string: Option<Seq<char>>,
)
    requires
        0 <= pos <= line.len(),
    ensures
        joined(lex_in_string(rules, line, pos, string).spans) == line.subrange(
            pos,
            line.len() as int,
        ),
{
    let len = line.len() as int;
    match string {
        Some(end) => {
            if pos < len {
                lemma_find_from(line, end, pos);
                match find_from(line, end, pos) {
                    Some(at) => {
                        let span = SpanView {
                            text: line.subrange(pos, at + end.len()),
                            kind: TokenKind::StringLiteral,
                        };
                        let rest = lex_from(rules, line, at + end.len());
                        lemma_lex_from_joined(rules, line, at + end.len());
                        lemma_joined_cons(span, rest.spans);
                        assert(line.subrange(pos, at + end.len()) + line.subrange(
                            at + end.len(),
                            len,
                        ) =~= line.subrange(pos, len));
                    },
                    None => {
                        lemma_joined_one(
                            SpanView {
                                text: line.subrange(pos, len),
                                kind: TokenKind::StringLiteral,
                            },
                        );
                    },
                }
            } else {
                assert(line.subrange(pos, len) =~= Seq::<char>::empty());
            }
        },
        None => {
            lemma_lex_from_joined(rules, line, pos);
        },
    }
}

/// Every line comes out as one sequence of spans, and the spans of each
/// line, joined, are that line.
pub proof fn lemma_lex_lines_joined(
    rules: RulesView,
    lines: Seq<Seq<char>>,
    from: int,
    carry: CarryView,
)
    requires
        0 <= from <= lines.len(),
    ensures
        lex_lines(rules, lines, from, carry).lines.len() == lines.len() - from,
        forall|i: int|
            0 <= i < lines.len() - from ==> joined(
                #[trigger] lex_lines(rules, lines, from, carry).lines[i],
            ) == lines[from + i],
    decreases lines.len() - from,
{
    if from < lines.len() {
        let first = lex_line(rules, lines[from], carry);
        let rest = lex_lines(rules, lines, from + 1, first.carry);
        let page = lex_lines(rules, lines, from, carry);
        lemma_lex_line_joined(rules, lines[from], carry);
        lemma_lex_lines_joined(rules, lines, from + 1, first.carry);
        assert(page.lines == seq![first.spans] + rest.lines);
        assert forall|i: int| 0 <= i < lines.len() - from implies joined(
            #[trigger] page.lines[i],
        ) == lines[from + i] by {
            if i > 0 {
                assert(page.lines[i] == rest.lines[i - 1]);
            }
        }
    }
}

} // verus!
