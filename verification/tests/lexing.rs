use live_compiler::live_id::LiveId;
use live_compiler::live_ptr::LiveFileId;
use live_compiler::live_registry::LiveRegistry;
use live_compiler::live_token::{Delim, Fragment, LiveToken};
use live_compiler::live_error::LiveError;
use live_compiler::live_token::TokenWithSpan;
use makepad_live_tokenizer::{Cursor, FullToken, State};
use live_compiler::span::{Span, TextPos};

fn origin() -> TextPos {
    TextPos { line: 0, column: 0 }
}

fn delim(delim: makepad_live_tokenizer::Delim) -> Delim {
    match delim {
        makepad_live_tokenizer::Delim::Paren => Delim::Paren,
        makepad_live_tokenizer::Delim::Bracket => Delim::Bracket,
        makepad_live_tokenizer::Delim::Brace => Delim::Brace,
    }
}

/// The lexer of `makepad_live_tokenizer` as the line loop takes it.
fn lex(state: State, line: &Vec<char>, from: usize) -> (State, Option<(Fragment, usize)>) {
    let mut scratch = String::new();
    let mut cursor = Cursor::new(&line[from..], &mut scratch);
    let (next, token) = state.next(&mut cursor);
    let found = token.map(|token| {
        let fragment = match token.token {
            FullToken::Punct(id) => Fragment::Punct(LiveId(id.0)),
            FullToken::Ident(id) => Fragment::Ident(LiveId(id.0)),
            FullToken::Open(d) => Fragment::Open(delim(d)),
            FullToken::Close(d) => Fragment::Close(delim(d)),
            FullToken::String(_) => Fragment::String,
            FullToken::Bool(value) => Fragment::Bool(value),
            FullToken::Color(value) => Fragment::Color(value),
            FullToken::Float(value) => Fragment::Float(value.to_bits()),
            FullToken::Int(value) => Fragment::Int(value),
            FullToken::OtherNumber => Fragment::OtherNumber,
            FullToken::Lifetime => Fragment::Lifetime,
            FullToken::Comment => Fragment::Comment,
            FullToken::Whitespace => Fragment::Whitespace,
            FullToken::Unknown => Fragment::Unknown,
        };
        (fragment, token.len)
    });
    (next, found)
}

fn parse_from_str(source: &str, start_pos: TextPos, file_id: LiveFileId) -> Result<(Vec<TokenWithSpan>, Vec<char>), LiveError> {
    LiveRegistry::parse_from_str(source, start_pos, file_id, State::default(), lex)
}

#[test]
fn string_literal_goes_to_the_buffer() {
    let (tokens, strings) = parse_from_str("\"hello\"", origin(), LiveFileId(3)).unwrap();
    assert_eq!(tokens.len(), 2);
    assert_eq!(tokens[0].token, LiveToken::String { index: 0, len: 5 });
    assert_eq!(
        tokens[0].span,
        Span { file_id: LiveFileId(3), start: TextPos { line: 0, column: 0 }, end: TextPos { line: 0, column: 7 } }
    );
    let text: String = strings.iter().collect();
    assert_eq!(text, "hello");
    assert_eq!(tokens[1].token, LiveToken::Eof);
    assert_eq!(tokens[1].span, Span::default());
}

#[test]
fn tokens_carry_lines_and_columns() {
    let source = "Foo: {\n  x: 12\n}";
    let (tokens, strings) = parse_from_str(source, TextPos { line: 10, column: 4 }, LiveFileId(1)).unwrap();
    assert!(strings.is_empty());
    let kinds: Vec<LiveToken> = tokens.iter().map(|t| t.token).collect();
    assert_eq!(
        kinds,
        vec![
            LiveToken::Ident(LiveId::from_str("Foo")),
            LiveToken::Punct(LiveId::from_str(":")),
            LiveToken::Open(Delim::Brace),
            LiveToken::Ident(LiveId::from_str("x")),
            LiveToken::Punct(LiveId::from_str(":")),
            LiveToken::Int(12),
            LiveToken::Close(Delim::Brace),
            LiveToken::Eof,
        ]
    );
    assert_eq!(tokens[0].span.start, TextPos { line: 10, column: 4 });
    assert_eq!(tokens[0].span.end, TextPos { line: 10, column: 7 });
    assert_eq!(tokens[2].span.start, TextPos { line: 10, column: 9 });
    assert_eq!(tokens[3].span.start, TextPos { line: 11, column: 2 });
    assert_eq!(tokens[5].span, Span { file_id: LiveFileId(1), start: TextPos { line: 11, column: 5 }, end: TextPos { line: 11, column: 7 } });
    assert_eq!(tokens[6].span.start, TextPos { line: 12, column: 0 });
}

#[test]
fn unknown_character_is_a_lexical_error() {
    let error = parse_from_str("a: 1\n b ~ c", origin(), LiveFileId(2)).unwrap_err();
    assert_eq!(error.message, "Error tokenizing");
    assert_eq!(
        error.span,
        Span { file_id: LiveFileId(2), start: TextPos { line: 1, column: 3 }, end: TextPos { line: 1, column: 4 } }
    );
}

#[test]
fn values_become_tokens() {
    let (tokens, _) = parse_from_str("true false 1.5 #f00 7", origin(), LiveFileId(1)).unwrap();
    let kinds: Vec<LiveToken> = tokens.iter().map(|t| t.token).collect();
    assert_eq!(
        kinds,
        vec![
            LiveToken::Bool(true),
            LiveToken::Bool(false),
            LiveToken::Float(1.5f64.to_bits()),
            LiveToken::Color(0xff0000ff),
            LiveToken::Int(7),
            LiveToken::Eof,
        ]
    );
    assert_eq!(tokens[2].span.start, TextPos { line: 0, column: 11 });
    assert_eq!(tokens[2].span.end, TextPos { line: 0, column: 14 });
}

#[test]
fn brackets_and_punctuation_become_tokens() {
    let (tokens, _) = parse_from_str("( [ ] ) :: ,", origin(), LiveFileId(1)).unwrap();
    let kinds: Vec<LiveToken> = tokens.iter().map(|t| t.token).collect();
    assert_eq!(
        kinds,
        vec![
            LiveToken::Open(Delim::Paren),
            LiveToken::Open(Delim::Bracket),
            LiveToken::Close(Delim::Bracket),
            LiveToken::Close(Delim::Paren),
            LiveToken::Punct(LiveId::from_str("::")),
            LiveToken::Punct(LiveId::from_str(",")),
            LiveToken::Eof,
        ]
    );
}

#[test]
fn comments_and_whitespace_leave_no_token() {
    let source = "a // to the end\n/* over\n two lines */ b";
    let (tokens, strings) = parse_from_str(source, origin(), LiveFileId(1)).unwrap();
    assert!(strings.is_empty());
    assert_eq!(tokens.len(), 3);
    assert_eq!(tokens[0].token, LiveToken::Ident(LiveId::from_str("a")));
    assert_eq!(tokens[1].token, LiveToken::Ident(LiveId::from_str("b")));
    assert_eq!(tokens[1].span.start, TextPos { line: 2, column: 14 });
    assert_eq!(tokens[2].token, LiveToken::Eof);
}

#[test]
fn carriage_return_before_newline_is_dropped() {
    let (tokens, _) = parse_from_str("a\r\nb\r\n", origin(), LiveFileId(1)).unwrap();
    assert_eq!(tokens.len(), 3);
    assert_eq!(tokens[0].span.end, TextPos { line: 0, column: 1 });
    assert_eq!(tokens[1].span.start, TextPos { line: 1, column: 0 });
}

#[test]
fn empty_text_gives_the_end_token_only() {
    let (tokens, strings) = parse_from_str("", TextPos { line: 4, column: 2 }, LiveFileId(1)).unwrap();
    assert!(strings.is_empty());
    assert_eq!(tokens.len(), 1);
    assert_eq!(tokens[0].token, LiveToken::Eof);
    assert_eq!(tokens[0].span, Span::default());
}

#[test]
fn two_strings_share_the_buffer() {
    let (tokens, strings) = parse_from_str("\"ab\" \"\" \"cde\"", origin(), LiveFileId(1)).unwrap();
    assert_eq!(tokens[0].token, LiveToken::String { index: 0, len: 2 });
    assert_eq!(tokens[1].token, LiveToken::String { index: 2, len: 0 });
    assert_eq!(tokens[2].token, LiveToken::String { index: 2, len: 3 });
    assert_eq!(strings, vec!['a', 'b', 'c', 'd', 'e']);
    assert_eq!(tokens[2].span.start, TextPos { line: 0, column: 8 });
    assert_eq!(tokens[2].span.end, TextPos { line: 0, column: 13 });
}

#[test]
fn other_number_forms_are_rejected() {
    let error = parse_from_str("x: 0x1f", origin(), LiveFileId(1)).unwrap_err();
    assert_eq!(error.message, "Error tokenizing");
    assert_eq!(error.span.start, TextPos { line: 0, column: 3 });
    assert_eq!(error.span.end, TextPos { line: 0, column: 7 });
}

#[test]
fn lone_quote_is_rejected() {
    let error = parse_from_str("x: \"", origin(), LiveFileId(1)).unwrap_err();
    assert_eq!(error.message, "Error tokenizing");
    assert_eq!(error.span.start, TextPos { line: 0, column: 3 });
    assert_eq!(error.span.end, TextPos { line: 0, column: 4 });
}

/// A lexer of its own for the line loop: a letter is an identifier of one
/// character, a blank is whitespace, `"` opens a string literal that runs to
/// the next `"`, `0` claims no character, `9` claims ten, and `!` switches
/// the state, in which letters are comments.
fn toy(state: bool, line: &Vec<char>, from: usize) -> (bool, Option<(Fragment, usize)>) {
    if from >= line.len() {
        return (state, None);
    }
    match line[from] {
        ' ' => (state, Some((Fragment::Whitespace, 1))),
        '!' => (!state, Some((Fragment::Whitespace, 1))),
        '0' => (state, Some((Fragment::Int(0), 0))),
        '9' => (state, Some((Fragment::Int(9), 10))),
        '"' => {
            let rest = line[from + 1..].iter().position(|c| *c == '"');
            match rest {
                Some(len) => (state, Some((Fragment::String, len + 2))),
                None => (state, Some((Fragment::String, line.len() - from))),
            }
        },
        _ if state => (state, Some((Fragment::Comment, 1))),
        c => (state, Some((Fragment::Ident(LiveId(c as u64)), 1))),
    }
}

#[test]
fn line_loop_carries_the_state_over_lines() {
    let (tokens, strings) =
        LiveRegistry::parse_from_str("ab !c\nd \"xy\" !e", TextPos { line: 2, column: 5 }, LiveFileId(4), false, toy)
            .unwrap();
    let kinds: Vec<LiveToken> = tokens.iter().map(|t| t.token).collect();
    assert_eq!(
        kinds,
        vec![
            LiveToken::Ident(LiveId('a' as u64)),
            LiveToken::Ident(LiveId('b' as u64)),
            LiveToken::String { index: 0, len: 2 },
            LiveToken::Ident(LiveId('e' as u64)),
            LiveToken::Eof,
        ]
    );
    assert_eq!(strings, vec!['x', 'y']);
    assert_eq!(tokens[1].span, Span { file_id: LiveFileId(4), start: TextPos { line: 2, column: 6 }, end: TextPos { line: 2, column: 7 } });
    assert_eq!(tokens[2].span, Span { file_id: LiveFileId(4), start: TextPos { line: 3, column: 2 }, end: TextPos { line: 3, column: 6 } });
    assert_eq!(tokens[3].span.start, TextPos { line: 3, column: 8 });
}

#[test]
fn fragment_without_characters_is_rejected() {
    let error = LiveRegistry::parse_from_str("a0b", origin(), LiveFileId(1), false, toy).unwrap_err();
    assert_eq!(error.message, "Error tokenizing");
    assert_eq!(error.span, Span { file_id: LiveFileId(1), start: TextPos { line: 0, column: 1 }, end: TextPos { line: 0, column: 1 } });
}

#[test]
fn fragment_longer_than_the_line_is_rejected() {
    let error = LiveRegistry::parse_from_str("a\nb 9", origin(), LiveFileId(1), false, toy).unwrap_err();
    assert_eq!(error.span, Span { file_id: LiveFileId(1), start: TextPos { line: 1, column: 2 }, end: TextPos { line: 1, column: 2 } });
}

#[test]
fn string_piece_of_one_character_is_rejected() {
    let error = LiveRegistry::parse_from_str("a \"", origin(), LiveFileId(1), false, toy).unwrap_err();
    assert_eq!(error.span, Span { file_id: LiveFileId(1), start: TextPos { line: 0, column: 2 }, end: TextPos { line: 0, column: 3 } });
}
