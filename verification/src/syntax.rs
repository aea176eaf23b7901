//! Syntax rules and the tokenizer that turns lines into classed spans.

use crate::chars::{chars_of, copy_range, digit, str_eq, string_from_chars};
use crate::lexer::{
    class_end, delimited, find_from, in_class, joined, lemma_find_from, lemma_lex_line_joined,
    lemma_lex_lines_joined,
    lemma_opening, lemma_step_at, lex_from, lex_in_string, lex_line, lex_lines, nothing_open,
    occurs_at, opening, step_at, CarryView, CharClass, LineView, PairView, RulesView,
    SpanView, TokenKind,
};
use crate::rope::{rope_line_chars, rope_text};
use crate::text::{line_count, line_text};
use ropey::Rope;
use vstd::prelude::*;

verus! {

/// A piece of a line and its class.
#[derive(Clone, Debug, PartialEq, Eq)]
pub struct Span {
    pub text: String,
    pub kind: TokenKind,
}

impl View for Span {
    type V = SpanView;

    open spec fn view(&self) -> SpanView {
        SpanView { text: self.text@, kind: self.kind }
    }
}

/// The spans of `spans`, as mathematics.
pub open spec fn span_views(spans: Seq<Span>) -> Seq<SpanView> {
    Seq::new(spans.len(), |i: int| spans[i]@)
}

/// The lines of `lines`, as mathematics.
pub open spec fn line_views(lines: Seq<Vec<Span>>) -> Seq<Seq<SpanView>> {
    Seq::new(lines.len(), |i: int| span_views(lines[i]@))
}

/// What is open at the end of a line, to be handed to the next line: the
/// delimiter that will close the open comment, and the one that will close
/// the open string.
#[derive(Clone, Debug, PartialEq, Eq)]
pub struct CarryState {
    pub open_comment_terminator: Option<String>,
    pub open_string_terminator: Option<String>,
}

impl View for CarryState {
    type V = CarryView;

    open spec fn view(&self) -> CarryView {
        CarryView {
            comment: match self.open_comment_terminator {
                Some(end) => Some(end@),
                None => None,
            },
            string: match self.open_string_terminator {
                Some(end) => Some(end@),
                None => None,
            },
        }
    }
}

impl CarryState {
    /// Nothing open: the state in which a document starts.
    pub fn new() -> (carry: CarryState)
        ensures
            carry@ == nothing_open(),
    {
        CarryState { open_comment_terminator: None, open_string_terminator: None }
    }
}

/// The rules of one language: its keywords, and the delimiters of its
/// comments and of its strings, each list in the order in which the
/// tokenizer tries it.
#[derive(Clone, Debug, PartialEq, Eq)]
pub struct SyntaxConfig {
    pub extension: String,
    pub keywords: Vec<String>,
    pub comment_delimiters: Vec<(String, String)>,
    pub string_delimiters: Vec<(String, String)>,
}

/// The pairs of `pairs`, as mathematics.
pub open spec fn pair_views(pairs: Seq<(String, String)>) -> Seq<PairView> {
    Seq::new(pairs.len(), |i: int| PairView { start: pairs[i].0@, end: pairs[i].1@ })
}

impl View for SyntaxConfig {
    type V = RulesView;

    open spec fn view(&self) -> RulesView {
        RulesView {
            keywords: Seq::new(self.keywords@.len(), |i: int| self.keywords@[i]@),
            comments: pair_views(self.comment_delimiters@),
            strings: pair_views(self.string_delimiters@),
        }
    }
}

/// A pair of delimiters, as characters.
struct Pair {
    start: Vec<char>,
    end: Vec<char>,
}

/// The rules as the tokenizer reads them: every string as characters.
struct Lexicon {
    keywords: Vec<Vec<char>>,
    comments: Vec<Pair>,
    strings: Vec<Pair>,
}

/// What is open, as characters.
struct Open {
    comment: Option<Vec<char>>,
    string: Option<Vec<char>>,
}

spec fn pairs_view(pairs: Seq<Pair>) -> Seq<PairView> {
    Seq::new(pairs.len(), |i: int| PairView { start: pairs[i].start@, end: pairs[i].end@ })
}

impl View for Lexicon {
    type V = RulesView;

    closed spec fn view(&self) -> RulesView {
        RulesView {
            keywords: Seq::new(self.keywords@.len(), |i: int| self.keywords@[i]@),
            comments: pairs_view(self.comments@),
            strings: pairs_view(self.strings@),
        }
    }
}

impl View for Open {
    type V = CarryView;

    closed spec fn view(&self) -> CarryView {
        CarryView {
            comment: match self.comment {
                Some(end) => Some(end@),
                None => None,
            },
            string: match self.string {
                Some(end) => Some(end@),
                None => None,
            },
        }
    }
}

fn compile_pairs(pairs: &Vec<(String, String)>) -> (out: Vec<Pair>)
    ensures
        pairs_view(out@) == pair_views(pairs@),
{
    let mut out: Vec<Pair> = Vec::new();
    let mut i: usize = 0;
    while i < pairs.len()
        invariant
            i <= pairs@.len(),
            out@.len() == i,
            forall|j: int|
                0 <= j < i ==> out@[j].start@ == pairs@[j].0@ && out@[j].end@ == pairs@[j].1@,
        decreases pairs@.len() - i,
    {
        let start = chars_of(pairs[i].0.as_str());
        let end = chars_of(pairs[i].1.as_str());
        out.push(Pair { start, end });
        i += 1;
    }
    proof {
        assert(pairs_view(out@) =~= pair_views(pairs@));
    }
    out
}

fn compile(config: &SyntaxConfig) -> (lexicon: Lexicon)
    ensures
        lexicon@ == config@,
{
    let mut keywords: Vec<Vec<char>> = Vec::new();
    let mut i: usize = 0;
    while i < config.keywords.len()
        invariant
            i <= config.keywords@.len(),
            keywords@.len() == i,
            forall|j: int| 0 <= j < i ==> keywords@[j]@ == config.keywords@[j]@,
        decreases config.keywords@.len() - i,
    {
        keywords.push(chars_of(config.keywords[i].as_str()));
        i += 1;
    }
    let comments = compile_pairs(&config.comment_delimiters);
    let strings = compile_pairs(&config.string_delimiters);
    let lexicon = Lexicon { keywords, comments, strings };
    proof {
        assert(lexicon@.keywords =~= config@.keywords);
    }
    lexicon
}

fn open_of(carry: &CarryState) -> (open: Open)
    ensures
        open@ == carry@,
{
    let comment = match &carry.open_comment_terminator {
        Some(end) => Some(chars_of(end.as_str())),
        None => None,
    };
    let string = match &carry.open_string_terminator {
        Some(end) => Some(chars_of(end.as_str())),
        None => None,
    };
    Open { comment, string }
}

fn carry_of(open: Open) -> (carry: CarryState)
    ensures
        carry@ == open@,
{
    let open_comment_terminator = match open.comment {
        Some(end) => Some(string_from_chars(end)),
        None => None,
    };
    let open_string_terminator = match open.string {
        Some(end) => Some(string_from_chars(end)),
        None => None,
    };
    CarryState { open_comment_terminator, open_string_terminator }
}

/// Whether `needle` stands in `hay` at `at`.
fn occurs(hay: &Vec<char>, needle: &Vec<char>, at: usize) -> (b: bool)
    ensures
        b == occurs_at(hay@, needle@, at as int),
{
    let n = needle.len();
    if n > hay.len() || at > hay.len() - n {
        return false;
    }
    let mut i: usize = 0;
    while i < n
        invariant
            i <= n,
            n == needle@.len(),
            at + n <= hay@.len() <= usize::MAX,
            forall|j: int| 0 <= j < i ==> hay@[at + j] == needle@[j],
        decreases n - i,
    {
        if hay[at + i] != needle[i] {
            proof {
                assert(hay@.subrange(at as int, at + n)[i as int] == hay@[at + i]);
            }
            return false;
        }
        i += 1;
    }
    proof {
        assert(hay@.subrange(at as int, at + n) =~= needle@);
    }
    true
}

/// The first place at or after `from` at which `needle` stands in `hay`.
fn find(hay: &Vec<char>, needle: &Vec<char>, from: usize) -> (found: Option<usize>)
    ensures
        match found {
            Some(at) => find_from(hay@, needle@, from as int) == Some(at as int) && at
                + needle@.len() <= hay@.len() <= usize::MAX,
            None => find_from(hay@, needle@, from as int) is None,
        },
{
    let n = needle.len();
    if n > hay.len() {
        return None;
    }
    let last = hay.len() - n;
    let mut at: usize = from;
    while at <= last
        invariant
            from <= at,
            n == needle@.len(),
            last + n == hay@.len() <= usize::MAX,
            find_from(hay@, needle@, from as int) == find_from(hay@, needle@, at as int),
        decreases last + 1 - at,
    {
        if occurs(hay, needle, at) {
            return Some(at);
        }
        if at == last {
            proof {
                assert(find_from(hay@, needle@, at + 1) is None);
            }
            return None;
        }
        at += 1;
    }
    None
}

/// The index of the first pair whose opening delimiter is not empty and
/// stands in `line` at `pos`.
fn first_opening(pairs: &Vec<Pair>, line: &Vec<char>, pos: usize) -> (found: Option<usize>)
    ensures
        match found {
            Some(k) => opening(pairs_view(pairs@), line@, pos as int, 0) == Some(k as int) && k
                < pairs@.len(),
            None => opening(pairs_view(pairs@), line@, pos as int, 0) is None,
        },
{
    let mut k: usize = 0;
    while k < pairs.len()
        invariant
            k <= pairs@.len(),
            opening(pairs_view(pairs@), line@, pos as int, 0) == opening(
                pairs_view(pairs@),
                line@,
                pos as int,
                k as int,
            ),
        decreases pairs@.len() - k,
    {
        if pairs[k].start.len() > 0 && occurs(line, &pairs[k].start, pos) {
            return Some(k);
        }
        k += 1;
    }
    None
}

/// Whether `c` belongs to a run of class `class`.
fn belongs(c: char, class: CharClass) -> (b: bool)
    ensures
        b == in_class(c, class),
{
    match class {
        CharClass::Space => c.is_whitespace(),
        CharClass::NumberPart => digit(c) || c == '.' || c == '_',
        CharClass::WordPart => c.is_alphanumeric() || c == '_',
    }
}

/// The end of the run of class `class` that starts at `pos`.
fn run_end(line: &Vec<char>, pos: usize, class: CharClass) -> (end: usize)
    requires
        pos <= line@.len(),
    ensures
        end == class_end(line@, pos as int, class),
        pos <= end <= line@.len(),
{
    let mut end: usize = pos;
    while end < line.len() && belongs(line[end], class)
        invariant
            pos <= end <= line@.len(),
            class_end(line@, pos as int, class) == class_end(line@, end as int, class),
        decreases line@.len() - end,
    {
        end += 1;
    }
    end
}

/// Whether `word` is one of `keywords`.
fn is_keyword(keywords: &Vec<Vec<char>>, word: &Vec<char>) -> (b: bool)
    ensures
        b == Seq::new(keywords@.len(), |i: int| keywords@[i]@).contains(word@),
{
    let ghost views = Seq::new(keywords@.len(), |i: int| keywords@[i]@);
    let mut i: usize = 0;
    while i < keywords.len()
        invariant
            i <= keywords@.len(),
            views == Seq::new(keywords@.len(), |i: int| keywords@[i]@),
            forall|j: int| 0 <= j < i ==> views[j] != word@,
        decreases keywords@.len() - i,
    {
        if keywords[i].len() == word.len() && occurs(&keywords[i], word, 0) {
            proof {
                assert(keywords@[i as int]@.subrange(0, word@.len() as int) =~= keywords@[i as int]@);
                assert(views[i as int] == word@);
            }
            return true;
        }
        proof {
            if views[i as int] == word@ {
                assert(keywords@[i as int]@.subrange(0, word@.len() as int) =~= word@);
            }
        }
        i += 1;
    }
    false
}

/// The span of `line` from `start` up to `end`, of class `kind`.
fn span_of(line: &Vec<char>, start: usize, end: usize, kind: TokenKind) -> (span: Span)
    requires
        start <= end <= line@.len(),
    ensures
        span@ == (SpanView { text: line@.subrange(start as int, end as int), kind }),
{
    Span { text: string_from_chars(copy_range(line, start, end)), kind }
}

/// Where the span that `pair` opens at `pos` ends, and the delimiter that
/// it leaves open.
fn close(line: &Vec<char>, pos: usize, pair: &Pair, to_line_end: bool) -> (found: (
    usize,
    Option<Vec<char>>,
))
    requires
        occurs_at(line@, pair.start@, pos as int),
    ensures
        found.0 == delimited(
            line@,
            pos as int,
            PairView { start: pair.start@, end: pair.end@ },
            to_line_end,
        ).0,
        match found.1 {
            Some(end) => Some(end@),
            None => None,
        } == delimited(
            line@,
            pos as int,
            PairView { start: pair.start@, end: pair.end@ },
            to_line_end,
        ).1,
        pos + pair.start@.len() <= found.0 <= line@.len(),
{
    let len = line.len();
    if to_line_end {
        return (len, None);
    }
    proof {
        lemma_find_from(line@, pair.end@, pos + pair.start@.len());
    }
    match find(line, &pair.end, pos + pair.start.len()) {
        Some(at) => (at + pair.end.len(), None),
        None => (len, Some(copy_range(&pair.end, 0, pair.end.len()))),
    }
}

/// The span that starts at `pos`: where it ends, its class, and what it
/// leaves open.
fn next_span(lexicon: &Lexicon, line: &Vec<char>, pos: usize) -> (found: (usize, TokenKind, Open))
    requires
        pos < line@.len() <= usize::MAX,
    ensures
        found.0 == step_at(lexicon@, line@, pos as int).end,
        found.1 == step_at(lexicon@, line@, pos as int).kind,
        found.2@ == step_at(lexicon@, line@, pos as int).carry,
        pos < found.0 <= line@.len(),
{
    proof {
        lemma_step_at(lexicon@, line@, pos as int);
        lemma_opening(lexicon@.comments, line@, pos as int, 0);
        lemma_opening(lexicon@.strings, line@, pos as int, 0);
    }
    match first_opening(&lexicon.comments, line, pos) {
        Some(k) => {
            let pair = &lexicon.comments[k];
            let to_line_end = pair.end.len() == 1 && pair.end[0] == '\n';
            proof {
                if to_line_end {
                    assert(pair.end@ =~= seq!['\n']);
                } else if pair.end@ == seq!['\n'] {
                    assert(seq!['\n'].len() == 1);
                    assert(seq!['\n'][0] == '\n');
                }
                assert(lexicon@.comments[k as int] == (PairView {
                    start: pair.start@,
                    end: pair.end@,
                }));
            }
            let (end, open) = close(line, pos, pair, to_line_end);
            return (end, TokenKind::Comment, Open { comment: open, string: None });
        },
        None => {},
    }
    match first_opening(&lexicon.strings, line, pos) {
        Some(k) => {
            let pair = &lexicon.strings[k];
            proof {
                assert(lexicon@.strings[k as int] == (PairView {
                    start: pair.start@,
                    end: pair.end@,
                }));
            }
            let (end, open) = close(line, pos, pair, false);
            return (end, TokenKind::StringLiteral, Open { comment: None, string: open });
        },
        None => {},
    }
    let c = line[pos];
    let nothing = Open { comment: None, string: None };
    if c.is_whitespace() {
        (run_end(line, pos, CharClass::Space), TokenKind::Whitespace, nothing)
    } else if digit(c) {
        (run_end(line, pos, CharClass::NumberPart), TokenKind::Number, nothing)
    } else if c.is_alphanumeric() || c == '_' {
        let end = run_end(line, pos, CharClass::WordPart);
        let word = copy_range(line, pos, end);
        if is_keyword(&lexicon.keywords, &word) {
            (end, TokenKind::Keyword, nothing)
        } else {
            (end, TokenKind::Plain, nothing)
        }
    } else {
        (pos + 1, TokenKind::Punctuation, nothing)
    }
}

/// Appends the spans of `line` from `pos` on, where nothing is open at
/// `pos`, and gives what is open at the end of the line.
fn lex_rest(lexicon: &Lexicon, line: &Vec<char>, pos: usize, spans: &mut Vec<Span>) -> (open: Open)
    requires
        pos <= line@.len(),
    ensures
        span_views(final(spans)@) == span_views(old(spans)@) + lex_from(
            lexicon@,
            line@,
            pos as int,
        ).spans,
        open@ == lex_from(lexicon@, line@, pos as int).carry,
{
    let ghost before = span_views(spans@);
    let ghost whole = lex_from(lexicon@, line@, pos as int);
    let len = line.len();
    let mut open = Open { comment: None, string: None };
    let mut p: usize = pos;
    proof {
        assert(before + whole.spans =~= span_views(spans@) + whole.spans);
    }
    while p < len && open.comment.is_none() && open.string.is_none()
        invariant
            p <= len == line@.len(),
            open@ == nothing_open() ==> before + whole.spans == span_views(spans@) + lex_from(
                lexicon@,
                line@,
                p as int,
            ).spans && whole.carry == lex_from(lexicon@, line@, p as int).carry,
            open@ != nothing_open() ==> before + whole.spans == span_views(spans@) && whole.carry
                == open@,
        decreases len - p, if open@ == nothing_open() { 1nat } else { 0nat },
    {
        let (end, kind, left_open) = next_span(lexicon, line, p);
        let span = span_of(line, p, end, kind);
        let ghost sofar = span_views(spans@);
        let ghost here = lex_from(lexicon@, line@, p as int);
        spans.push(span);
        proof {
            assert(span_views(spans@) =~= sofar.push(span@));
            if left_open@ != nothing_open() {
                assert(here == (LineView { spans: seq![span@], carry: left_open@ }));
                assert(sofar + seq![span@] =~= sofar.push(span@));
            } else {
                let rest = lex_from(lexicon@, line@, end as int);
                assert(here.spans == seq![span@] + rest.spans);
                assert(sofar + (seq![span@] + rest.spans) =~= sofar.push(span@) + rest.spans);
            }
        }
        open = left_open;
        p = end;
    }
    proof {
        if open@ == nothing_open() {
            assert(span_views(spans@) + Seq::<SpanView>::empty() =~= span_views(spans@));
        }
    }
    open
}

/// Appends the spans of `line` from `pos` on, where no comment is open at
/// `pos` but `string` may be.
fn lex_string(
    lexicon: &Lexicon,
    line: &Vec<char>,
    pos: usize,
    string: Option<Vec<char>>,
    spans: &mut Vec<Span>,
) -> (open: Open)
    requires
        pos <= line@.len(),
    ensures
        span_views(final(spans)@) == span_views(old(spans)@) + lex_in_string(
            lexicon@,
            line@,
            pos as int,
            match string {
                Some(end) => Some(end@),
                None => None,
            },
        ).spans,
        open@ == lex_in_string(
            lexicon@,
            line@,
            pos as int,
            match string {
                Some(end) => Some(end@),
                None => None,
            },
        ).carry,
{
    let ghost before = span_views(spans@);
    match string {
        Some(end) => {
            if pos < line.len() {
                proof {
                    lemma_find_from(line@, end@, pos as int);
                }
                match find(line, &end, pos) {
                    Some(at) => {
                        let close = at + end.len();
                        let span = span_of(line, pos, close, TokenKind::StringLiteral);
                        spans.push(span);
                        proof {
                            assert(span_views(spans@) =~= before.push(span@));
                            let rest = lex_from(lexicon@, line@, close as int);
                            assert(before + (seq![span@] + rest.spans) =~= before.push(span@)
                                + rest.spans);
                        }
                        lex_rest(lexicon, line, close, spans)
                    },
                    None => {
                        let span = span_of(line, pos, line.len(), TokenKind::StringLiteral);
                        spans.push(span);
                        proof {
                            assert(span_views(spans@) =~= before + seq![span@]);
                        }
                        Open { comment: None, string: Some(end) }
                    },
                }
            } else {
                proof {
                    assert(span_views(spans@) =~= before + Seq::<SpanView>::empty());
                }
                Open { comment: None, string: Some(end) }
            }
        },
        None => lex_rest(lexicon, line, pos, spans),
    }
}

/// The spans of a whole line that is entered with `carry` open, and what
/// is open at its end.
fn lex_whole(lexicon: &Lexicon, line: &Vec<char>, carry: Open) -> (found: (Vec<Span>, Open))
    ensures
        span_views(found.0@) == lex_line(lexicon@, line@, carry@).spans,
        found.1@ == lex_line(lexicon@, line@, carry@).carry,
{
    let mut spans: Vec<Span> = Vec::new();
    proof {
        assert(span_views(spans@) =~= Seq::<SpanView>::empty());
    }
    let Open { comment, string } = carry;
    match comment {
        Some(end) => {
            proof {
                lemma_find_from(line@, end@, 0);
            }
            match find(line, &end, 0) {
                Some(at) => {
                    let close = at + end.len();
                    let span = span_of(line, 0, close, TokenKind::Comment);
                    spans.push(span);
                    proof {
                        assert(span_views(spans@) =~= seq![span@]);
                    }
                    let open = lex_string(lexicon, line, close, string, &mut spans);
                    (spans, open)
                },
                None => {
                    let span = span_of(line, 0, line.len(), TokenKind::Comment);
                    spans.push(span);
                    proof {
                        assert(line@.subrange(0, line@.len() as int) =~= line@);
                        assert(span_views(spans@) =~= seq![span@]);
                    }
                    (spans, Open { comment: Some(end), string })
                },
            }
        },
        None => {
            let open = lex_string(lexicon, line, 0, string, &mut spans);
            proof {
                let rest = lex_in_string(lexicon@, line@, 0, carry@.string);
                assert(Seq::<SpanView>::empty() + rest.spans =~= rest.spans);
            }
            (spans, open)
        },
    }
}

/// The number of lines in `from..to`.
pub open spec fn span_of_lines(from: int, to: int) -> nat {
    if from <= to {
        (to - from) as nat
    } else {
        0
    }
}

/// The lines `from..to` of `text`, each with its line feed.
pub open spec fn lines_of(text: Seq<char>, from: int, to: int) -> Seq<Seq<char>> {
    Seq::new(span_of_lines(from, to), |i: int| line_text(text, (from + i) as nat))
}

/// The lines `from..to` of `text`, each as one plain span.
pub open spec fn plain_lines(text: Seq<char>, from: int, to: int) -> Seq<Seq<SpanView>> {
    Seq::new(
        span_of_lines(from, to),
        |i: int| seq![SpanView { text: line_text(text, (from + i) as nat), kind: TokenKind::Plain }],
    )
}

/// `max_line`, or the number of lines of the rope where that is less.
fn last_shown(rope: &Rope, max_line: usize) -> (end: usize)
    ensures
        end == if max_line <= line_count(rope_text(*rope)) {
            max_line as int
        } else {
            line_count(rope_text(*rope)) as int
        },
{
    let lines = rope.len_lines();
    if max_line <= lines {
        max_line
    } else {
        lines
    }
}

impl SyntaxConfig {
    /// Rules for the files with extension `extension` that class nothing
    /// yet: no keywords and no delimiters.
    pub fn new(extension: &str) -> (config: SyntaxConfig)
        ensures
            config.extension@ == extension@,
            config.keywords@.len() == 0,
            config.comment_delimiters@.len() == 0,
            config.string_delimiters@.len() == 0,
    {
        SyntaxConfig {
            extension: extension.to_owned(),
            keywords: Vec::new(),
            comment_delimiters: Vec::new(),
            string_delimiters: Vec::new(),
        }
    }

    /// The spans of one line that is entered with `carry` open, and what
    /// is open at its end. The spans, joined, are the line.
    pub fn tokenize_line(&self, line: &str, carry: &CarryState) -> (found: (Vec<Span>, CarryState))
        ensures
            span_views(found.0@) == lex_line(self@, line@, carry@).spans,
            found.1@ == lex_line(self@, line@, carry@).carry,
            joined(span_views(found.0@)) == line@,
    {
        let lexicon = compile(self);
        let chars = chars_of(line);
        let (spans, open) = lex_whole(&lexicon, &chars, open_of(carry));
        proof {
            lemma_lex_line_joined(self@, line@, carry@);
        }
        (spans, carry_of(open))
    }

    /// The spans of the lines `top_line..max_line` of the rope, as far as
    /// the rope has them, and what is open at the end of the last. The
    /// first line is entered with `entry` open; the caller sees to it that
    /// this is what the line before `top_line` left open.
    pub fn highlight(&self, top_line: usize, max_line: usize, rope: &Rope, entry: &CarryState) -> (found:
        (Vec<Vec<Span>>, CarryState))
        ensures
            ({
                let end = if max_line <= line_count(rope_text(*rope)) {
                    max_line as int
                } else {
                    line_count(rope_text(*rope)) as int
                };
                let page = lex_lines(
                    self@,
                    lines_of(rope_text(*rope), top_line as int, end),
                    0,
                    entry@,
                );
                &&& line_views(found.0@) == page.lines
                &&& found.1@ == page.carry
                &&& found.0@.len() == span_of_lines(top_line as int, end)
                &&& forall|k: int|
                    0 <= k < found.0@.len() ==> joined(span_views(#[trigger] found.0@[k]@))
                        == line_text(rope_text(*rope), (top_line + k) as nat)
            }),
    {
        let lexicon = compile(self);
        let end = last_shown(rope, max_line);
        let ghost text = rope_text(*rope);
        let ghost lines = lines_of(text, top_line as int, end as int);
        let ghost page = lex_lines(self@, lines, 0, entry@);
        let mut out: Vec<Vec<Span>> = Vec::new();
        let mut open = open_of(entry);
        let mut i: usize = if top_line <= end {
            top_line
        } else {
            end
        };
        proof {
            assert(line_views(out@) =~= Seq::<Seq<SpanView>>::empty());
            assert(Seq::<Seq<SpanView>>::empty() + page.lines =~= page.lines);
        }
        while i < end
            invariant
                i <= end,
                i < end ==> top_line <= i,
                i == end && top_line <= end ==> i - top_line == lines.len(),
                top_line > end ==> lines.len() == 0,
                end <= line_count(text),
                text == rope_text(*rope),
                lexicon@ == self@,
                lines == lines_of(text, top_line as int, end as int),
                page.lines == line_views(out@) + lex_lines(self@, lines, i - top_line, open@).lines,
                page.carry == lex_lines(self@, lines, i - top_line, open@).carry,
            decreases end - i,
        {
            let line = rope_line_chars(rope, i);
            let ghost sofar = line_views(out@);
            let ghost here = lex_lines(self@, lines, i - top_line, open@);
            let ghost entered = open@;
            let (spans, left_open) = lex_whole(&lexicon, &line, open);
            proof {
                assert(lines[i - top_line] == line@);
                let first = lex_line(self@, line@, entered);
                let rest = lex_lines(self@, lines, i - top_line + 1, first.carry);
                assert(here.lines == seq![first.spans] + rest.lines);
                assert(sofar + (seq![first.spans] + rest.lines) =~= sofar.push(first.spans)
                    + rest.lines);
                assert(line_views(out@.push(spans)) =~= sofar.push(span_views(spans@)));
            }
            out.push(spans);
            open = left_open;
            i += 1;
        }
        proof {
            let rest = lex_lines(self@, lines, i - top_line, open@);
            assert(rest.lines =~= Seq::<Seq<SpanView>>::empty());
            assert(line_views(out@) + rest.lines =~= line_views(out@));
            lemma_lex_lines_joined(self@, lines, 0, entry@);
            assert forall|k: int| 0 <= k < out@.len() implies joined(
                span_views(#[trigger] out@[k]@),
            ) == line_text(text, (top_line + k) as nat) by {
                assert(line_views(out@)[k] == span_views(out@[k]@));
                assert(joined(page.lines[k]) == lines[k]);
            }
        }
        (out, carry_of(open))
    }
}

/// The lines `top_line..max_line` of the rope, as far as the rope has
/// them, each as one plain span: how a document without rules is shown.
pub fn no_highlight_line(top_line: usize, max_line: usize, rope: &Rope) -> (out: Vec<Vec<Span>>)
    ensures
        line_views(out@) == plain_lines(
            rope_text(*rope),
            top_line as int,
            if max_line <= line_count(rope_text(*rope)) {
                max_line as int
            } else {
                line_count(rope_text(*rope)) as int
            },
        ),
{
    let end = last_shown(rope, max_line);
    let mut out: Vec<Vec<Span>> = Vec::new();
    let mut i: usize = if top_line <= end {
        top_line
    } else {
        end
    };
    while i < end
        invariant
            i <= end,
            i < end ==> top_line <= i,
            end <= line_count(rope_text(*rope)),
            out@.len() == if top_line <= i { i - top_line } else { 0 },
            forall|k: int|
                0 <= k < out@.len() ==> span_views(#[trigger] out@[k]@) == seq![
                    SpanView {
                        text: line_text(rope_text(*rope), (top_line + k) as nat),
                        kind: TokenKind::Plain,
                    },
                ],
        decreases end - i,
    {
        let line = rope_line_chars(rope, i);
        let span = Span { text: string_from_chars(line), kind: TokenKind::Plain };
        let mut spans: Vec<Span> = Vec::new();
        spans.push(span);
        proof {
            assert(span_views(spans@) =~= seq![span@]);
        }
        out.push(spans);
        i += 1;
    }
    proof {
        let want = plain_lines(rope_text(*rope), top_line as int, end as int);
        assert(line_views(out@) =~= want);
    }
    out
}

/// Which file holds the rules for the files of one extension.
#[derive(Clone, Debug, PartialEq, Eq)]
pub struct SyntaxEntryConfig {
    pub extension: String,
    pub filename: String,
}

impl SyntaxEntryConfig {
    /// An entry that sends the files with extension `extension` to the
    /// rules in the file `filename`.
    pub fn new(extension: &str, filename: &str) -> (entry: Self)
        ensures
            entry.extension@ == extension@,
            entry.filename@ == filename@,
    {
        SyntaxEntryConfig { extension: extension.to_owned(), filename: filename.to_owned() }
    }
}

/// The rules that have been loaded, and the entries that say where rules
/// are to be found.
#[derive(Clone, Debug)]
pub struct SyntaxHandler {
    pub configs: Vec<SyntaxConfig>,
    pub syntax_entry_config: Vec<SyntaxEntryConfig>,
}

/// The index of the first of `configs`, from index `k` on, that is for the
/// extension `extension`.
pub open spec fn first_for(configs: Seq<SyntaxConfig>, extension: Seq<char>, k: int) -> Option<int>
    decreases configs.len() - k,
{
    if k < 0 || k >= configs.len() {
        None
    } else if configs[k].extension@ == extension {
        Some(k)
    } else {
        first_for(configs, extension, k + 1)
    }
}

impl SyntaxHandler {
    /// A handler that has loaded nothing.
    pub fn new() -> (handler: Self)
        ensures
            handler.configs@.len() == 0,
            handler.syntax_entry_config@.len() == 0,
    {
        SyntaxHandler { configs: Vec::new(), syntax_entry_config: Vec::new() }
    }

    /// The first of the loaded rules that is for the extension
    /// `extension`. A document whose extension has no rules is shown
    /// plain.
    pub fn get_syntax_by_extension(&self, extension: &str) -> (found: Option<&SyntaxConfig>)
        ensures
            match first_for(self.configs@, extension@, 0) {
                Some(k) => found == Some(&self.configs@[k]),
                None => found is None,
            },
    {
        let mut k: usize = 0;
        while k < self.configs.len()
            invariant
                k <= self.configs@.len(),
                first_for(self.configs@, extension@, 0) == first_for(
                    self.configs@,
                    extension@,
                    k as int,
                ),
            decreases self.configs@.len() - k,
        {
            if str_eq(self.configs[k].extension.as_str(), extension) {
                return Some(&self.configs[k]);
            }
            k += 1;
        }
        None
    }
}

/// Which extensions belong to which language: each language by its name,
/// with its extensions. No language stands in it twice.
#[derive(Clone, Debug, PartialEq, Eq)]
pub struct SyntaxIndexConfig {
    pub languages: Vec<(String, Vec<String>)>,
}

/// Whether `extensions` holds `extension`.
pub open spec fn lists(extensions: Seq<String>, extension: Seq<char>) -> bool {
    exists|j: int| 0 <= j < extensions.len() && #[trigger] extensions[j]@ == extension
}

/// The index of the first language of `languages`, from index `k` on, that
/// lists the extension `extension`.
pub open spec fn first_listing(
    languages: Seq<(String, Vec<String>)>,
    extension: Seq<char>,
    k: int,
) -> Option<int>
    decreases languages.len() - k,
{
    if k < 0 || k >= languages.len() {
        None
    } else if lists(languages[k].1@, extension) {
        Some(k)
    } else {
        first_listing(languages, extension, k + 1)
    }
}

impl SyntaxIndexConfig {
    /// No language stands in the index twice.
    pub open spec fn wf(self) -> bool {
        forall|i: int, j: int|
            0 <= i < j < self.languages@.len() ==> self.languages@[i].0@ != self.languages@[j].0@
    }

    /// An index without languages.
    pub fn new() -> (index: Self)
        ensures
            index.languages@.len() == 0,
            index.wf(),
    {
        SyntaxIndexConfig { languages: Vec::new() }
    }
}

fn holds(extensions: &Vec<String>, extension: &str) -> (b: bool)
    ensures
        b == lists(extensions@, extension@),
{
    let mut j: usize = 0;
    while j < extensions.len()
        invariant
            j <= extensions@.len(),
            forall|m: int| 0 <= m < j ==> extensions@[m]@ != extension@,
        decreases extensions@.len() - j,
    {
        if str_eq(extensions[j].as_str(), extension) {
            return true;
        }
        j += 1;
    }
    false
}

/// The name of the language that the files with extension `extension`
/// are written in: the first language of the index that lists the
/// extension. The host loads the rules of that language.
pub fn syntax_for_extension(extension: &str, index: &SyntaxIndexConfig) -> (language: Option<String>)
    ensures
        match first_listing(index.languages@, extension@, 0) {
            Some(k) => language matches Some(name) && name@ == index.languages@[k].0@,
            None => language is None,
        },
{
    let mut k: usize = 0;
    while k < index.languages.len()
        invariant
            k <= index.languages@.len(),
            first_listing(index.languages@, extension@, 0) == first_listing(
                index.languages@,
                extension@,
                k as int,
            ),
        decreases index.languages@.len() - k,
    {
        if holds(&index.languages[k].1, extension) {
            return Some(index.languages[k].0.clone());
        }
        k += 1;
    }
    None
}

} // verus!
