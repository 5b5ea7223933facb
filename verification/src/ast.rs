//! The abstract syntax tree: plain data produced by the parser, with
//! mathematical views used by the parser's contracts, and the `Ast` front
//! door that runs the parser over a tokenized source unit.

use vstd::prelude::*;

use crate::err::Error;
use crate::err::err_matches;
use crate::lex::Output;
use crate::parser::Parser;
use crate::parser::sp_parse;
use crate::tok::TokenKind;
use crate::tok::tok_views;

verus! {

/// An expression: a binary operation over one flat precedence level, a
/// literal carrying its originating token kind and raw text (no numeric
/// conversion is performed), a call with an ordered argument list, or a
/// variable reference.
#[derive(Debug, PartialEq)]
pub enum Expr {
    Bin { lf: Box<Expr>, op: TokenKind, rt: Box<Expr> },
    Lit { id: TokenKind, val: String },
    Call { name: String, args: Vec<Expr> },
    Ident(String),
}

/// The mathematical image of an expression: the same shape over `Seq<char>`.
pub enum SpecExpr {
    Bin { lf: Box<SpecExpr>, op: TokenKind, rt: Box<SpecExpr> },
    Lit { id: TokenKind, val: Seq<char> },
    Call { name: Seq<char>, args: Seq<SpecExpr> },
    Ident(Seq<char>),
}

pub open spec fn expr_view(e: Expr) -> SpecExpr
    decreases e,
{
    match e {
        Expr::Bin { lf, op, rt } => SpecExpr::Bin {
            lf: Box::new(expr_view(*lf)),
            op,
            rt: Box::new(expr_view(*rt)),
        },
        Expr::Lit { id, val } => SpecExpr::Lit { id, val: val@ },
        Expr::Call { name, args } => SpecExpr::Call { name: name@, args: exprs_view(args@) },
        Expr::Ident(name) => SpecExpr::Ident(name@),
    }
}

pub open spec fn exprs_view(es: Seq<Expr>) -> Seq<SpecExpr>
    decreases es,
{
    if es.len() == 0 {
        Seq::empty()
    } else {
        seq![expr_view(es[0])] + exprs_view(es.drop_first())
    }
}

/// A statement: a mutable binding, an immutable binding, a reassignment, a
/// conditional with an optional else-branch, or an expression evaluated for
/// effect.  `Assign` and `If` are part of the data model but have no parsing
/// rule yet; the parser produces only `Var` and `Fix`.
#[derive(Debug, PartialEq)]
pub enum Stmt {
    Var { name: String, expr: Expr },
    Fix { name: String, expr: Expr },
    Assign { name: String, expr: Expr },
    If { cond: Expr, pass: Vec<Stmt>, fail: Option<Vec<Stmt>> },
    Expr(Expr),
}

/// The mathematical image of a statement.
pub enum SpecStmt {
    Var { name: Seq<char>, expr: SpecExpr },
    Fix { name: Seq<char>, expr: SpecExpr },
    Assign { name: Seq<char>, expr: SpecExpr },
    If { cond: SpecExpr, pass: Seq<SpecStmt>, fail: Option<Seq<SpecStmt>> },
    Expr(SpecExpr),
}

pub open spec fn stmt_view(s: Stmt) -> SpecStmt
    decreases s,
{
    match s {
        Stmt::Var { name, expr } => SpecStmt::Var { name: name@, expr: expr_view(expr) },
        Stmt::Fix { name, expr } => SpecStmt::Fix { name: name@, expr: expr_view(expr) },
        Stmt::Assign { name, expr } => SpecStmt::Assign { name: name@, expr: expr_view(expr) },
        Stmt::If { cond, pass, fail } => SpecStmt::If {
            cond: expr_view(cond),
            pass: stmts_view(pass@),
            fail: match fail {
                Some(v) => Some(stmts_view(v@)),
                None => None,
            },
        },
        Stmt::Expr(e) => SpecStmt::Expr(expr_view(e)),
    }
}

pub open spec fn stmts_view(ss: Seq<Stmt>) -> Seq<SpecStmt>
    decreases ss,
{
    if ss.len() == 0 {
        Seq::empty()
    } else {
        seq![stmt_view(ss[0])] + stmts_view(ss.drop_first())
    }
}

pub proof fn lemma_stmts_view_push(ss: Seq<Stmt>, s: Stmt)
    ensures
        stmts_view(ss.push(s)) == stmts_view(ss) + seq![stmt_view(s)],
    decreases ss.len(),
{
    if ss.len() == 0 {
        assert(ss.push(s)[0] == s);
        assert(ss.push(s).drop_first() =~= Seq::<Stmt>::empty());
        assert(stmts_view(Seq::<Stmt>::empty()) =~= Seq::<SpecStmt>::empty());
        assert(stmts_view(ss.push(s)) =~= stmts_view(ss) + seq![stmt_view(s)]);
    } else {
        assert(ss.push(s)[0] == ss[0]);
        assert(ss.push(s).drop_first() =~= ss.drop_first().push(s));
        lemma_stmts_view_push(ss.drop_first(), s);
        assert(stmts_view(ss.push(s)) =~= stmts_view(ss) + seq![stmt_view(s)]);
    }
}

pub proof fn lemma_exprs_view_push(es: Seq<Expr>, e: Expr)
    ensures
        exprs_view(es.push(e)) == exprs_view(es) + seq![expr_view(e)],
    decreases es.len(),
{
    if es.len() == 0 {
        assert(es.push(e)[0] == e);
        assert(es.push(e).drop_first() =~= Seq::<Expr>::empty());
        assert(exprs_view(Seq::<Expr>::empty()) =~= Seq::<SpecExpr>::empty());
        assert(exprs_view(es.push(e)) =~= exprs_view(es) + seq![expr_view(e)]);
    } else {
        assert(es.push(e)[0] == es[0]);
        assert(es.push(e).drop_first() =~= es.drop_first().push(e));
        lemma_exprs_view_push(es.drop_first(), e);
        assert(exprs_view(es.push(e)) =~= exprs_view(es) + seq![expr_view(e)]);
    }
}

/// The root output of a successful parse: the source's logical name and the
/// ordered statement sequence.
#[derive(Debug, PartialEq)]
pub struct Program {
    pub name: String,
    pub body: Vec<Stmt>,
}

impl Program {
    /// Appends one statement at the end of the body.
    pub fn push(&mut self, stmt: Stmt)
        ensures
            final(self).name == old(self).name,
            final(self).body@ == old(self).body@.push(stmt),
    {
        self.body.push(stmt);
    }
}

/// A 128-entry per-byte permission table, as in the lexer's configuration: a
/// passive value container, not logic.
pub struct Config {
    pub allow: [u8; 128],
}

/// The front door of the parsing stage: holds the caller's configuration and
/// runs a `Parser` over a tokenized source unit.
pub struct Ast<'a> {
    pub cfg: &'a Config,
}

impl<'a> Ast<'a> {
    pub fn new(cfg: &'a Config) -> (r: Self)
        ensures
            r.cfg == cfg,
    {
        Self { cfg: cfg }
    }

    /// Parses a tokenized source unit into a `Program`, or returns the
    /// parser's first diagnostic under the source's name.  The result is
    /// exactly what the recursive-descent rules (`sp_parse`) yield on the
    /// token sequence.
    pub fn parse(&self, input: &Output) -> (r: Result<Program, Error>)
        ensures
            match sp_parse(tok_views(input.toks@)) {
                Ok((ss, fin)) => r matches Ok(p) && p.name@ == input.name@ && stmts_view(p.body@)
                    == ss,
                Err(le) => r matches Err(e) && err_matches(&e, le) && e.name@ == input.name@,
            },
    {
        let mut p = Parser::new(self);
        match p.parse(input) {
            None => Ok(Program { name: input.name.clone(), body: p.stmts }),
            Some(e) => Err(
                Error { name: input.name.clone(), text: e.text, line: e.line, colm: e.colm },
            ),
        }
    }
}

} // verus!
