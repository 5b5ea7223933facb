//! End-to-end behaviour of the front end: tokenizing and parsing concrete
//! source texts.

use lang::ast;
use lang::ast::Ast;
use lang::ast::Expr;
use lang::ast::Program;
use lang::ast::Stmt;
use lang::err::Error;
use lang::lex;
use lang::lex::Input;
use lang::lex::Lexer;
use lang::lex::Output;
use lang::tok::Tok;
use lang::tok::TokenKind;

fn tokenize(src: &str) -> Result<Vec<Tok>, Error> {
    let cfg = lex::Config { allow: [1u8; 128] };
    let lx = Lexer::new(&cfg);
    lx.tokenize(&Input { name: "test", code: src })
}

fn parse_src(src: &str) -> Result<Program, Error> {
    let toks = tokenize(src).expect("tokenization should succeed");
    let cfg = ast::Config { allow: [1u8; 128] };
    let a = Ast::new(&cfg);
    a.parse(&Output { name: String::from("test"), toks })
}

fn kinds(toks: &[Tok]) -> Vec<TokenKind> {
    toks.iter().map(|t| t.id).collect()
}

fn vals(toks: &[Tok]) -> Vec<String> {
    toks.iter().map(|t| t.val.clone()).collect()
}

fn int_lit(v: &str) -> Expr {
    Expr::Lit { id: TokenKind::Int, val: String::from(v) }
}

#[test]
fn tokenize_var_binding() {
    let toks = tokenize("var a = 1").unwrap();
    assert_eq!(
        kinds(&toks),
        vec![TokenKind::Var, TokenKind::Ident, TokenKind::Equal, TokenKind::Int, TokenKind::Eof]
    );
    assert_eq!(vals(&toks), vec!["var", "a", "=", "1", ""]);
}

#[test]
fn tokenize_positions() {
    let toks = tokenize("var a = 1").unwrap();
    let pos: Vec<(u32, u32)> = toks.iter().map(|t| (t.ln, t.col)).collect();
    assert_eq!(pos, vec![(1, 1), (1, 5), (1, 7), (1, 9), (1, 10)]);
}

#[test]
fn tokenize_empty_source() {
    let toks = tokenize("").unwrap();
    assert_eq!(kinds(&toks), vec![TokenKind::Eof]);
    assert_eq!(toks[0].val, "");
    assert_eq!((toks[0].ln, toks[0].col), (1, 1));
}

#[test]
fn tokenize_lines() {
    let toks = tokenize("var a = 1\nvar b = 2").unwrap();
    assert_eq!(toks.len(), 9);
    assert_eq!(toks[4].id, TokenKind::Var);
    assert_eq!((toks[4].ln, toks[4].col), (2, 1));
    assert_eq!(toks[5].val, "b");
    assert_eq!((toks[5].ln, toks[5].col), (2, 5));
}

#[test]
fn tokenize_string_literal() {
    let toks = tokenize("x=\"hello\"").unwrap();
    assert_eq!(kinds(&toks), vec![
        TokenKind::Ident,
        TokenKind::Equal,
        TokenKind::Str,
        TokenKind::Eof
    ]);
    assert_eq!(toks[2].val, "hello");
}

#[test]
fn tokenize_string_with_spaces() {
    let toks = tokenize("x=\"hel lo, wor!ld\"").unwrap();
    assert_eq!(kinds(&toks), vec![
        TokenKind::Ident,
        TokenKind::Equal,
        TokenKind::Str,
        TokenKind::Eof
    ]);
    assert_eq!(toks[2].val, "hel lo, wor!ld");
}

#[test]
fn tokenize_backtick_string() {
    let toks = tokenize("x=`hi \"there\"`").unwrap();
    assert_eq!(kinds(&toks), vec![
        TokenKind::Ident,
        TokenKind::Equal,
        TokenKind::Str,
        TokenKind::Eof
    ]);
    assert_eq!(toks[2].val, "hi \"there\"");
}

#[test]
fn tokenize_string_with_line_break() {
    let toks = tokenize("x=\"a\nb\" y").unwrap();
    assert_eq!(toks[2].val, "a\nb");
    // the line counter keeps running inside the string
    assert_eq!(toks[3].ln, 2);
}

#[test]
fn tokenize_unterminated_string() {
    let e = tokenize("x=\"hello").unwrap_err();
    assert_eq!(e.text, "unexpected end of file");
    assert_eq!(e.name, "test");
}

#[test]
fn tokenize_invalid_token() {
    let e = tokenize("var a = @").unwrap_err();
    assert_eq!(e.text, "invalid token: @");
    assert_eq!(e.name, "test");
    assert_eq!((e.line, e.colm), (1, 9));
}

#[test]
fn tokenize_reproduces_text_without_whitespace() {
    let src = "var a=1+ 2\t* x";
    let toks = tokenize(src).unwrap();
    let cat: String = vals(&toks).concat();
    let stripped: String = src.chars().filter(|c| !matches!(c, ' ' | '\t' | '\n')).collect();
    assert_eq!(cat, stripped);
}

#[test]
fn round_trip_keeps_kinds() {
    let src = "var a = \"he llo\" + 12 , x";
    let first = tokenize(src).unwrap();
    // rebuild the text: token texts joined with single spaces, string
    // literals re-quoted; the end-of-input token carries no text
    let mut parts: Vec<String> = Vec::new();
    for t in first.iter().take(first.len() - 1) {
        if t.id == TokenKind::Str {
            parts.push(format!("\"{}\"", t.val));
        } else {
            parts.push(t.val.clone());
        }
    }
    let rebuilt = parts.join(" ");
    let second = tokenize(&rebuilt).unwrap();
    assert_eq!(kinds(&first), kinds(&second));
    assert_eq!(vals(&first), vals(&second));
}

#[test]
fn parse_var_binding() {
    let p = parse_src("var a = 1").unwrap();
    assert_eq!(p.name, "test");
    assert_eq!(p.body, vec![Stmt::Var { name: String::from("a"), expr: int_lit("1") }]);
}

#[test]
fn parse_left_flat_fold() {
    // one flat precedence level: 1 + 2 * 3 folds strictly left-to-right
    let p = parse_src("fix b = 1 + 2 * 3").unwrap();
    let expected = Expr::Bin {
        lf: Box::new(Expr::Bin {
            lf: Box::new(int_lit("1")),
            op: TokenKind::Plus,
            rt: Box::new(int_lit("2")),
        }),
        op: TokenKind::Mul,
        rt: Box::new(int_lit("3")),
    };
    assert_eq!(p.body, vec![Stmt::Fix { name: String::from("b"), expr: expected }]);
}

#[test]
fn parse_trailing_comma_fails_at_close_paren() {
    let e = parse_src("var c = f(1, 2,)").unwrap_err();
    assert_eq!(e.text, "unexpected token: )");
    assert_eq!((e.line, e.colm), (1, 16));
    assert_eq!(e.name, "test");
}

#[test]
fn parse_call_with_args() {
    let p = parse_src("var c = f(1, 2)").unwrap();
    let expected = Expr::Call {
        name: String::from("f"),
        args: vec![int_lit("1"), int_lit("2")],
    };
    assert_eq!(p.body, vec![Stmt::Var { name: String::from("c"), expr: expected }]);
}

#[test]
fn parse_call_without_args() {
    let p = parse_src("var c = g()").unwrap();
    let expected = Expr::Call { name: String::from("g"), args: vec![] };
    assert_eq!(p.body, vec![Stmt::Var { name: String::from("c"), expr: expected }]);
}

#[test]
fn parse_parenthesized_expression() {
    let p = parse_src("var p = (1 + 2) * 3").unwrap();
    let expected = Expr::Bin {
        lf: Box::new(Expr::Bin {
            lf: Box::new(int_lit("1")),
            op: TokenKind::Plus,
            rt: Box::new(int_lit("2")),
        }),
        op: TokenKind::Mul,
        rt: Box::new(int_lit("3")),
    };
    assert_eq!(p.body, vec![Stmt::Var { name: String::from("p"), expr: expected }]);
}

#[test]
fn parse_dotted_float_literal() {
    let p = parse_src("var f = 1.5").unwrap();
    let expected = Expr::Lit { id: TokenKind::Float, val: String::from("1.5") };
    assert_eq!(p.body, vec![Stmt::Var { name: String::from("f"), expr: expected }]);
}

#[test]
fn parse_string_and_ident_atoms() {
    let p = parse_src("var s = \"hi\"\nvar t = s").unwrap();
    assert_eq!(p.body, vec![
        Stmt::Var {
            name: String::from("s"),
            expr: Expr::Lit { id: TokenKind::Str, val: String::from("hi") },
        },
        Stmt::Var { name: String::from("t"), expr: Expr::Ident(String::from("s")) },
    ]);
}

#[test]
fn parse_bool_literal() {
    // the classifier's dictionary maps the text "bool" to the boolean kind
    let p = parse_src("var t = bool").unwrap();
    assert_eq!(p.body, vec![Stmt::Var {
        name: String::from("t"),
        expr: Expr::Lit { id: TokenKind::Bool, val: String::from("bool") },
    }]);
}

#[test]
fn parse_empty_source_is_empty_program() {
    let p = parse_src("").unwrap();
    assert_eq!(p.body, vec![]);
}

#[test]
fn parse_unexpected_statement_start() {
    let e = parse_src("1 + 2").unwrap_err();
    assert_eq!(e.text, "unexpected token: 1");
    assert_eq!((e.line, e.colm), (1, 1));
}

#[test]
fn parse_missing_expression_fails_at_end() {
    let e = parse_src("var a =").unwrap_err();
    assert_eq!(e.text, "unexpected end of file");
    assert_eq!((e.line, e.colm), (1, 8));
}

#[test]
fn parse_missing_close_paren() {
    let e = parse_src("var a = (1 + 2").unwrap_err();
    assert_eq!(e.text, "unexpected end of file");
}

#[test]
fn parse_arguments_without_separator() {
    // the separator between arguments is optional
    let p = parse_src("var h = g(1 2)").unwrap();
    let expected = Expr::Call {
        name: String::from("g"),
        args: vec![int_lit("1"), int_lit("2")],
    };
    assert_eq!(p.body, vec![Stmt::Var { name: String::from("h"), expr: expected }]);
}

#[test]
fn program_push_appends() {
    let mut p = Program { name: String::from("unit"), body: vec![] };
    p.push(Stmt::Expr(int_lit("7")));
    assert_eq!(p.body, vec![Stmt::Expr(int_lit("7"))]);
    assert_eq!(p.name, "unit");
}
