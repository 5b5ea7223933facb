//! The token classifier on its own: the fixed table, identifier and integer
//! shapes, and the hard-separator flag.

use lang::tok::TokenKind;
use lang::tok::id;
use lang::tok::is_ident;
use lang::tok::is_int;

#[test]
fn id_keywords() {
    assert_eq!(id("var"), (TokenKind::Var, false));
    assert_eq!(id("fix"), (TokenKind::Fix, false));
}

#[test]
fn id_dictionary_words() {
    assert_eq!(id("EOF"), (TokenKind::Eof, true));
    assert_eq!(id("ident"), (TokenKind::Ident, false));
    assert_eq!(id("int"), (TokenKind::Int, false));
    assert_eq!(id("bool"), (TokenKind::Bool, false));
    assert_eq!(id("str"), (TokenKind::Str, false));
}

#[test]
fn id_punctuation_is_hard_separator() {
    assert_eq!(id("="), (TokenKind::Equal, true));
    assert_eq!(id("+"), (TokenKind::Plus, true));
    assert_eq!(id("-"), (TokenKind::Minus, true));
    assert_eq!(id("*"), (TokenKind::Mul, true));
    assert_eq!(id("/"), (TokenKind::Div, true));
    assert_eq!(id("("), (TokenKind::Lparen, true));
    assert_eq!(id(")"), (TokenKind::Rparen, true));
    assert_eq!(id(","), (TokenKind::Comma, true));
    assert_eq!(id("."), (TokenKind::Dot, true));
    assert_eq!(id("\""), (TokenKind::Dquote, true));
    assert_eq!(id("`"), (TokenKind::Tick, true));
    assert_eq!(id("'"), (TokenKind::Squote, true));
    assert_eq!(id("~"), (TokenKind::Tilde, true));
}

#[test]
fn id_whitespace_is_hard_separator() {
    assert_eq!(id(" "), (TokenKind::Space, true));
    assert_eq!(id("\t"), (TokenKind::Tab, true));
    assert_eq!(id("\n"), (TokenKind::Eol, true));
}

#[test]
fn id_identifier_shape() {
    assert_eq!(id("abc"), (TokenKind::Ident, false));
    assert_eq!(id("a"), (TokenKind::Ident, false));
    assert_eq!(id("_x9"), (TokenKind::Ident, false));
    assert_eq!(id("A_b_1"), (TokenKind::Ident, false));
}

#[test]
fn id_integer_shape() {
    assert_eq!(id("0"), (TokenKind::Int, false));
    assert_eq!(id("123"), (TokenKind::Int, false));
}

#[test]
fn id_unclassifiable() {
    assert_eq!(id(""), (TokenKind::Invalid, false));
    assert_eq!(id("@"), (TokenKind::Invalid, false));
    assert_eq!(id("1a"), (TokenKind::Invalid, false));
    assert_eq!(id("a-b"), (TokenKind::Invalid, false));
}

#[test]
fn is_ident_shape() {
    assert!(is_ident("abc"));
    assert!(is_ident("_"));
    assert!(is_ident("a1_b2"));
    assert!(!is_ident(""));
    assert!(!is_ident("1abc"));
    assert!(!is_ident("a b"));
    assert!(is_ident("var"));
}

#[test]
fn is_int_shape() {
    assert!(is_int("0"));
    assert!(is_int("0042"));
    assert!(!is_int(""));
    assert!(!is_int("4.2"));
    assert!(!is_int("x2"));
}
