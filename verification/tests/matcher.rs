//! The matcher primitives over a concrete token sequence.

use lang::err::Error;
use lang::lex;
use lang::lex::Input;
use lang::lex::Lexer;
use lang::parser::Group;
use lang::parser::Spacing;
use lang::parser::burn;
use lang::parser::grab;
use lang::parser::peek_kind;
use lang::parser::peek_kind_sequence;
use lang::parser::peek_sequence;
use lang::tok::Tok;
use lang::tok::TokenKind;

fn tokenize(src: &str) -> Result<Vec<Tok>, Error> {
    let cfg = lex::Config { allow: [1u8; 128] };
    let lx = Lexer::new(&cfg);
    lx.tokenize(&Input { name: "test", code: src })
}

fn binding_pattern() -> Vec<Group> {
    vec![
        Group { kinds: vec![TokenKind::Var, TokenKind::Fix], spacing: Spacing::Inline },
        Group { kinds: vec![TokenKind::Ident], spacing: Spacing::Inline },
        Group { kinds: vec![TokenKind::Equal], spacing: Spacing::Inline },
    ]
}

#[test]
fn grab_consumes_binding_head() {
    let toks = tokenize("var a = 1").unwrap();
    let (ts, j) = grab(&toks, 0, &binding_pattern()).unwrap();
    assert_eq!(j, 3);
    let got: Vec<TokenKind> = ts.iter().map(|t| t.id).collect();
    assert_eq!(got, vec![TokenKind::Var, TokenKind::Ident, TokenKind::Equal]);
    assert_eq!(ts[1].val, "a");
}

#[test]
fn grab_reports_offending_token() {
    let toks = tokenize("var 1 = 2").unwrap();
    let e = grab(&toks, 0, &binding_pattern()).unwrap_err();
    assert_eq!(e.text, "unexpected token: 1");
    assert_eq!((e.line, e.colm), (1, 5));
}

#[test]
fn grab_reports_end_of_file() {
    let toks = tokenize("var a").unwrap();
    let e = grab(&toks, 0, &binding_pattern()).unwrap_err();
    assert_eq!(e.text, "unexpected end of file");
}

#[test]
fn peek_sequence_does_not_consume() {
    let toks = tokenize("fix a = 1").unwrap();
    assert!(peek_sequence(&toks, 0, &binding_pattern()));
    assert!(!peek_sequence(&toks, 1, &binding_pattern()));
}

#[test]
fn peek_kind_with_offset() {
    let toks = tokenize("f(1)").unwrap();
    assert!(peek_kind(&toks, 0, 0, &vec![TokenKind::Ident]));
    assert!(peek_kind(&toks, 0, 1, &vec![TokenKind::Lparen]));
    assert!(peek_kind(&toks, 0, 4, &vec![TokenKind::Eof]));
    // past the end everything reads as the sentinel
    assert!(peek_kind(&toks, 0, 99, &vec![TokenKind::Eof]));
    assert!(!peek_kind(&toks, 0, 1, &vec![TokenKind::Rparen]));
}

#[test]
fn peek_kind_sequence_is_exact() {
    let toks = tokenize("f(1)").unwrap();
    assert!(peek_kind_sequence(&toks, 0, &vec![TokenKind::Ident, TokenKind::Lparen]));
    assert!(!peek_kind_sequence(&toks, 0, &vec![TokenKind::Ident, TokenKind::Rparen]));
    assert!(peek_kind_sequence(&toks, 3, &vec![TokenKind::Rparen, TokenKind::Eof]));
}

#[test]
fn burn_skips_nothing_without_matches() {
    // whitespace never reaches the token sequence, so there is nothing to
    // skip between these tokens
    let toks = tokenize("a = 1").unwrap();
    assert_eq!(burn(&toks, 0, &vec![TokenKind::Space, TokenKind::Tab]), 0);
    assert_eq!(burn(&toks, 1, &vec![TokenKind::Space, TokenKind::Tab]), 1);
}

#[test]
fn burn_skips_matching_kinds() {
    let toks = tokenize("1 2 x").unwrap();
    assert_eq!(burn(&toks, 0, &vec![TokenKind::Int]), 2);
    assert_eq!(burn(&toks, 0, &vec![TokenKind::Int, TokenKind::Ident]), 3);
}
