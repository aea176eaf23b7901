use mosaic::lexer::TokenKind;
use mosaic::syntax::{no_highlight_line, CarryState, Span, SyntaxConfig};
use ropey::Rope;

fn pair(start: &str, end: &str) -> (String, String) {
    (start.to_string(), end.to_string())
}

fn span(text: &str, kind: TokenKind) -> Span {
    Span { text: text.to_string(), kind }
}

fn rust_like() -> SyntaxConfig {
    SyntaxConfig {
        extension: "rs".to_string(),
        keywords: vec!["fn".to_string(), "let".to_string()],
        comment_delimiters: vec![pair("//", "\n"), pair("/*", "*/")],
        string_delimiters: vec![pair("\"", "\"")],
    }
}

fn joined(spans: &Vec<Span>) -> String {
    let mut text = String::new();
    for s in spans {
        text.push_str(&s.text);
    }
    text
}

#[test]
fn tokenizer_classes_a_line_with_a_line_comment() {
    let rules = SyntaxConfig {
        extension: "rs".to_string(),
        keywords: vec!["fn".to_string()],
        comment_delimiters: vec![pair("//", "\n")],
        string_delimiters: vec![pair("\"", "\"")],
    };
    let (spans, carry) = rules.tokenize_line("fn x() // comment", &CarryState::new());
    assert_eq!(
        spans,
        vec![
            span("fn", TokenKind::Keyword),
            span(" ", TokenKind::Whitespace),
            span("x", TokenKind::Plain),
            span("(", TokenKind::Punctuation),
            span(")", TokenKind::Punctuation),
            span(" ", TokenKind::Whitespace),
            span("// comment", TokenKind::Comment),
        ]
    );
    assert_eq!(carry, CarryState::new());
}

#[test]
fn tokenizer_carries_an_open_comment_to_the_next_line() {
    let rules = SyntaxConfig {
        extension: "c".to_string(),
        keywords: vec![],
        comment_delimiters: vec![pair("/*", "*/")],
        string_delimiters: vec![],
    };
    let (first, carry) = rules.tokenize_line("a /* open", &CarryState::new());
    assert_eq!(
        first,
        vec![
            span("a", TokenKind::Plain),
            span(" ", TokenKind::Whitespace),
            span("/* open", TokenKind::Comment),
        ]
    );
    assert_eq!(carry.open_comment_terminator, Some("*/".to_string()));
    assert_eq!(carry.open_string_terminator, None);

    let (second, carry) = rules.tokenize_line("still comment */ b", &carry);
    assert_eq!(
        second,
        vec![
            span("still comment */", TokenKind::Comment),
            span(" ", TokenKind::Whitespace),
            span("b", TokenKind::Plain),
        ]
    );
    assert_eq!(carry, CarryState::new());
}

#[test]
fn a_line_inside_an_open_comment_is_one_comment() {
    let rules = rust_like();
    let open = CarryState {
        open_comment_terminator: Some("*/".to_string()),
        open_string_terminator: None,
    };
    let (spans, carry) = rules.tokenize_line("fn \"x\" 12\n", &open);
    assert_eq!(spans, vec![span("fn \"x\" 12\n", TokenKind::Comment)]);
    assert_eq!(carry, open);
}

#[test]
fn a_comment_that_closes_on_its_line_leaves_nothing_open() {
    let rules = rust_like();
    let (spans, carry) = rules.tokenize_line("a/* b */c", &CarryState::new());
    assert_eq!(
        spans,
        vec![
            span("a", TokenKind::Plain),
            span("/* b */", TokenKind::Comment),
            span("c", TokenKind::Plain),
        ]
    );
    assert_eq!(carry, CarryState::new());
}

#[test]
fn strings_close_or_stay_open() {
    let rules = rust_like();
    let (spans, carry) = rules.tokenize_line("let s = \"hi\";", &CarryState::new());
    assert_eq!(
        spans,
        vec![
            span("let", TokenKind::Keyword),
            span(" ", TokenKind::Whitespace),
            span("s", TokenKind::Plain),
            span(" ", TokenKind::Whitespace),
            span("=", TokenKind::Punctuation),
            span(" ", TokenKind::Whitespace),
            span("\"hi\"", TokenKind::StringLiteral),
            span(";", TokenKind::Punctuation),
        ]
    );
    assert_eq!(carry, CarryState::new());

    let (spans, carry) = rules.tokenize_line("x \"open", &CarryState::new());
    assert_eq!(
        spans,
        vec![
            span("x", TokenKind::Plain),
            span(" ", TokenKind::Whitespace),
            span("\"open", TokenKind::StringLiteral),
        ]
    );
    assert_eq!(carry.open_comment_terminator, None);
    assert_eq!(carry.open_string_terminator, Some("\"".to_string()));

    let (spans, carry) = rules.tokenize_line("rest\" fn", &carry);
    assert_eq!(
        spans,
        vec![
            span("rest\"", TokenKind::StringLiteral),
            span(" ", TokenKind::Whitespace),
            span("fn", TokenKind::Keyword),
        ]
    );
    assert_eq!(carry, CarryState::new());
}

#[test]
fn an_open_string_takes_a_line_without_its_closing_delimiter() {
    let rules = rust_like();
    let open = CarryState {
        open_comment_terminator: None,
        open_string_terminator: Some("\"".to_string()),
    };
    let (spans, carry) = rules.tokenize_line("fn // 1", &open);
    assert_eq!(spans, vec![span("fn // 1", TokenKind::StringLiteral)]);
    assert_eq!(carry, open);

    let (spans, carry) = rules.tokenize_line("", &open);
    assert_eq!(spans, Vec::<Span>::new());
    assert_eq!(carry, open);
}

#[test]
fn an_open_comment_is_closed_before_an_open_string() {
    let rules = rust_like();
    let both = CarryState {
        open_comment_terminator: Some("*/".to_string()),
        open_string_terminator: Some("'".to_string()),
    };
    let (spans, carry) = rules.tokenize_line("c */s' 1", &both);
    assert_eq!(
        spans,
        vec![
            span("c */", TokenKind::Comment),
            span("s'", TokenKind::StringLiteral),
            span(" ", TokenKind::Whitespace),
            span("1", TokenKind::Number),
        ]
    );
    assert_eq!(carry, CarryState::new());
}

#[test]
fn numbers_words_and_punctuation() {
    let rules = rust_like();
    let (spans, _) = rules.tokenize_line("12.5_0+x1 _y é9 fnx", &CarryState::new());
    assert_eq!(
        spans,
        vec![
            span("12.5_0", TokenKind::Number),
            span("+", TokenKind::Punctuation),
            span("x1", TokenKind::Plain),
            span(" ", TokenKind::Whitespace),
            span("_y", TokenKind::Plain),
            span(" ", TokenKind::Whitespace),
            span("é9", TokenKind::Plain),
            span(" ", TokenKind::Whitespace),
            span("fnx", TokenKind::Plain),
        ]
    );
}

#[test]
fn the_first_delimiter_pair_that_matches_wins() {
    let mut rules = rust_like();
    rules.comment_delimiters = vec![pair("/*", "*/"), pair("/**", "!")];
    let (spans, carry) = rules.tokenize_line("/** a */ b !", &CarryState::new());
    assert_eq!(spans[0], span("/** a */", TokenKind::Comment));
    assert_eq!(carry, CarryState::new());

    rules.comment_delimiters = vec![pair("/**", "!"), pair("/*", "*/")];
    let (spans, _) = rules.tokenize_line("/** a */ b !", &CarryState::new());
    assert_eq!(spans, vec![span("/** a */ b !", TokenKind::Comment)]);

    rules.comment_delimiters = vec![pair("\"", "\n")];
    let (spans, _) = rules.tokenize_line("\"x\" y", &CarryState::new());
    assert_eq!(spans, vec![span("\"x\" y", TokenKind::Comment)]);
}

#[test]
fn a_pair_with_an_empty_opening_delimiter_opens_nothing() {
    let mut rules = rust_like();
    rules.comment_delimiters = vec![pair("", "*/"), pair("#", "\n")];
    let (spans, carry) = rules.tokenize_line("a # b", &CarryState::new());
    assert_eq!(
        spans,
        vec![
            span("a", TokenKind::Plain),
            span(" ", TokenKind::Whitespace),
            span("# b", TokenKind::Comment),
        ]
    );
    assert_eq!(carry, CarryState::new());
}

#[test]
fn the_closing_delimiter_is_looked_for_behind_the_opening_one() {
    let rules = rust_like();
    let (spans, carry) = rules.tokenize_line("\"", &CarryState::new());
    assert_eq!(spans, vec![span("\"", TokenKind::StringLiteral)]);
    assert_eq!(carry.open_string_terminator, Some("\"".to_string()));
    let (spans, _) = rules.tokenize_line("/*/ x */", &CarryState::new());
    assert_eq!(spans, vec![span("/*/ x */", TokenKind::Comment)]);
}

#[test]
fn the_spans_of_a_line_joined_are_the_line() {
    let rules = rust_like();
    let lines = [
        "fn main() { let x = 1.5; } // done\n",
        "\t\"str /* not a comment */\" /* open",
        "",
        "   \n",
        "ünï çödé — 42 \"quoted\"",
    ];
    let mut carry = CarryState::new();
    for line in lines {
        let (spans, next) = rules.tokenize_line(line, &carry);
        assert_eq!(joined(&spans), line);
        carry = next;
    }
}

#[test]
fn highlight_walks_the_lines_of_a_rope() {
    let rules = rust_like();
    let rope = Rope::from_str("let a /* one\ntwo */ fn\n3");
    let (lines, carry) = rules.highlight(0, 3, &rope, &CarryState::new());
    assert_eq!(
        lines,
        vec![
            vec![
                span("let", TokenKind::Keyword),
                span(" ", TokenKind::Whitespace),
                span("a", TokenKind::Plain),
                span(" ", TokenKind::Whitespace),
                span("/* one\n", TokenKind::Comment),
            ],
            vec![
                span("two */", TokenKind::Comment),
                span(" ", TokenKind::Whitespace),
                span("fn", TokenKind::Keyword),
                span("\n", TokenKind::Whitespace),
            ],
            vec![span("3", TokenKind::Number)],
        ]
    );
    assert_eq!(carry, CarryState::new());
}

#[test]
fn highlight_of_a_window_takes_and_gives_what_is_open() {
    let rules = rust_like();
    let rope = Rope::from_str("/* a\nb\nc */\nd /* e");
    let (first, carry) = rules.highlight(0, 1, &rope, &CarryState::new());
    assert_eq!(first, vec![vec![span("/* a\n", TokenKind::Comment)]]);
    assert_eq!(carry.open_comment_terminator, Some("*/".to_string()));

    let (rest, carry) = rules.highlight(1, 100, &rope, &carry);
    assert_eq!(
        rest,
        vec![
            vec![span("b\n", TokenKind::Comment)],
            vec![span("c */", TokenKind::Comment), span("\n", TokenKind::Whitespace)],
            vec![
                span("d", TokenKind::Plain),
                span(" ", TokenKind::Whitespace),
                span("/* e", TokenKind::Comment),
            ],
        ]
    );
    assert_eq!(carry.open_comment_terminator, Some("*/".to_string()));

    let (none, carry) = rules.highlight(3, 2, &rope, &CarryState::new());
    assert_eq!(none, Vec::<Vec<Span>>::new());
    assert_eq!(carry, CarryState::new());
    let (past, _) = rules.highlight(9, 12, &rope, &CarryState::new());
    assert_eq!(past, Vec::<Vec<Span>>::new());
}

#[test]
fn a_document_without_rules_is_shown_plain() {
    let rope = Rope::from_str("fn a\n// b\nc");
    assert_eq!(
        no_highlight_line(1, 5, &rope),
        vec![vec![span("// b\n", TokenKind::Plain)], vec![span("c", TokenKind::Plain)]]
    );
    assert_eq!(no_highlight_line(2, 1, &rope), Vec::<Vec<Span>>::new());
}

#[test]
fn rules_that_class_nothing() {
    let rules = SyntaxConfig::new("txt");
    assert_eq!(rules.extension, "txt");
    assert!(rules.keywords.is_empty());
    assert!(rules.comment_delimiters.is_empty());
    assert!(rules.string_delimiters.is_empty());
    let (spans, carry) = rules.tokenize_line("fn // x", &CarryState::new());
    assert_eq!(
        spans,
        vec![
            span("fn", TokenKind::Plain),
            span(" ", TokenKind::Whitespace),
            span("/", TokenKind::Punctuation),
            span("/", TokenKind::Punctuation),
            span(" ", TokenKind::Whitespace),
            span("x", TokenKind::Plain),
        ]
    );
    assert_eq!(carry, CarryState::new());
}
