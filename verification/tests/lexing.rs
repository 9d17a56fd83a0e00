//! Source text to tokens.

use wren::compiler::words::tokenize;
use wren::lexer::Numeral;
use wren::{Lexer, TokenKind};

fn kinds(source: &str) -> Vec<TokenKind> {
    tokenize(source).iter().map(|token| token.kind).collect()
}

#[test]
fn words_and_operators() {
    assert_eq!(
        kinds("var x = 1 + foo"),
        vec![
            TokenKind::Var,
            TokenKind::Name,
            TokenKind::Eq,
            TokenKind::Number,
            TokenKind::Plus,
            TokenKind::Name,
            TokenKind::Eof,
        ]
    );
    assert_eq!(
        kinds("a..b...c"),
        vec![
            TokenKind::Name,
            TokenKind::DotDot,
            TokenKind::Name,
            TokenKind::DotDotDot,
            TokenKind::Name,
            TokenKind::Eof,
        ]
    );
}

#[test]
fn newlines_are_tokens_and_comments_are_not() {
    assert_eq!(
        kinds("a // b\nc /* d /* e */ f */ g"),
        vec![TokenKind::Name, TokenKind::Line, TokenKind::Name, TokenKind::Name, TokenKind::Eof]
    );
}

#[test]
fn interpolation_is_cut_up() {
    assert_eq!(
        kinds("\"a%(b)c\""),
        vec![TokenKind::Interpolation, TokenKind::Name, TokenKind::String, TokenKind::Eof]
    );
}

#[test]
fn the_end_stays_the_end() {
    let mut lexer = Lexer::new("x");
    assert_eq!(lexer.next_token().kind, TokenKind::Name);
    for _ in 0..3 {
        assert_eq!(lexer.next_token().kind, TokenKind::Eof);
    }
}

#[test]
fn text_and_lines() {
    let source = "one\ntwo";
    let tokens = tokenize(source);
    assert_eq!(tokens[0].text(source), "one");
    assert_eq!(tokens[0].line, 1);
    assert_eq!(tokens[2].text(source), "two");
    assert_eq!(tokens[2].line, 2);
}

#[test]
fn numerals() {
    let source = "0x1F 12.5 name 0x";
    let tokens = tokenize(source);
    assert_eq!(tokens[0].number(source), Some(Numeral::Whole(31)));
    assert_eq!(tokens[1].number(source), Some(Numeral::Decimal));
    assert_eq!(tokens[2].number(source), None);
    assert_eq!(tokens[3].number(source), None);
}

#[test]
fn unfinished_strings_are_errors() {
    assert_eq!(kinds("\"abc"), vec![TokenKind::Error]);
}

#[test]
fn an_unclosed_comment_is_an_error_from_where_it_began() {
    let tokens = tokenize("x /* y");
    assert_eq!(tokens.len(), 2);
    assert_eq!(tokens[1].kind, TokenKind::Error);
    assert_eq!((tokens[1].start, tokens[1].end), (2, 6));
}

#[test]
fn a_newline_after_a_backslash_is_a_line() {
    let tokens = tokenize("\"\\\n\"x");
    assert_eq!(tokens[0].kind, TokenKind::String);
    assert_eq!(tokens[1].kind, TokenKind::Name);
    assert_eq!(tokens[1].line, 2);
}

#[test]
fn an_unknown_character_is_one_error() {
    let source = "a \u{e9}";
    let tokens = tokenize(source);
    assert_eq!(tokens[1].kind, TokenKind::Error);
    assert_eq!((tokens[1].start, tokens[1].end), (2, 4));
    assert_eq!(tokens[1].text(source), "\u{e9}");
}

#[test]
fn tokens_come_in_order() {
    let source = "class A {\n  /* b\n c */ d(e) { \"f%(g)h\" }\n}\n";
    let tokens = tokenize(source);
    for pair in tokens.windows(2) {
        assert!(pair[0].start <= pair[0].end);
        assert!(pair[0].end <= pair[1].start);
        assert!(pair[0].line <= pair[1].line);
    }
}
