//! The parser: matcher primitives over the lexer's token sequence, and
//! recursive descent built on them.
//!
//! The matcher primitives separate "does this grammar alternative apply"
//! (`peek_sequence`, `peek_kind`, `peek_kind_sequence`, non-mutating) from
//! "consume it" (`grab`, mutating), so each rule pre-checks before committing
//! and no backtracking is needed.  Every rule's behaviour is given by the
//! spec-level grammar functions (`sp_atom`, `sp_expr`, `sp_args`,
//! `sp_stmts`), and the executable functions return exactly what those
//! compute.  Positions at or past the end of the token sequence read as the
//! end-of-input sentinel, so no rule ever indexes past it.

use vstd::prelude::*;

use crate::ast::Ast;
use crate::ast::Expr;
use crate::ast::SpecExpr;
use crate::ast::SpecStmt;
use crate::ast::Stmt;
use crate::ast::expr_view;
use crate::ast::exprs_view;
use crate::ast::lemma_exprs_view_push;
use crate::ast::lemma_stmts_view_push;
use crate::ast::stmt_view;
use crate::ast::stmts_view;
use crate::err::Error;
use crate::err::ErrView;
use crate::err::err_matches;
use crate::lex::Output;
use crate::tok::Tok;
use crate::tok::TokView;
use crate::tok::TokenKind;
use crate::tok::tok_views;

verus! {

/// Which trivia a matcher silently skips after consuming a token: nothing,
/// spaces and tabs, or spaces, tabs and line ends.
#[derive(Clone, Copy, Debug, PartialEq, Eq, Structural)]
pub enum Spacing {
    Tight,
    Inline,
    Multiline,
}

pub open spec fn spacing_kinds(sp: Spacing) -> Seq<TokenKind> {
    match sp {
        Spacing::Tight => Seq::empty(),
        Spacing::Inline => seq![TokenKind::Space, TokenKind::Tab],
        Spacing::Multiline => seq![TokenKind::Space, TokenKind::Tab, TokenKind::Eol],
    }
}

/// One match group: the set of kinds acceptable for one token, and the
/// spacing policy applied after a match.
pub struct Group {
    pub kinds: Vec<TokenKind>,
    pub spacing: Spacing,
}

pub struct GroupView {
    pub kinds: Seq<TokenKind>,
    pub spacing: Spacing,
}

impl View for Group {
    type V = GroupView;

    open spec fn view(&self) -> GroupView {
        GroupView { kinds: self.kinds@, spacing: self.spacing }
    }
}

pub open spec fn group_views(gs: Seq<Group>) -> Seq<GroupView> {
    gs.map_values(|g: Group| g@)
}

/// The kind at a position; every position at or past the end reads as the
/// end-of-input sentinel.
pub open spec fn kind_at(toks: Seq<TokView>, i: int) -> TokenKind {
    if 0 <= i < toks.len() {
        toks[i].kind
    } else {
        TokenKind::Eof
    }
}

/// The diagnostic for an unexpected token at a position: the token's text
/// and position, or a distinguished end-of-file message when the offending
/// token is the sentinel (or the position is past the end).
pub open spec fn err_at(toks: Seq<TokView>, i: int) -> ErrView {
    if 0 <= i < toks.len() && toks[i].kind != TokenKind::Eof {
        ErrView { text: "unexpected token: "@ + toks[i].val, line: toks[i].ln, col: toks[i].col }
    } else if 0 <= i < toks.len() {
        ErrView { text: "unexpected end of file"@, line: toks[i].ln, col: toks[i].col }
    } else {
        ErrView { text: "unexpected end of file"@, line: 0, col: 0 }
    }
}

/// The first position at or after `i` whose token kind is not in `ks`.
pub open spec fn sp_skip(toks: Seq<TokView>, i: int, ks: Seq<TokenKind>) -> int
    decreases toks.len() - i,
{
    if 0 <= i < toks.len() && ks.contains(toks[i].kind) {
        sp_skip(toks, i + 1, ks)
    } else {
        i
    }
}

/// What `grab` yields: consuming one token per group in order, each group
/// accepting any of its kinds and then skipping its spacing, or the first
/// group's mismatch diagnostic.
pub open spec fn sp_grab(toks: Seq<TokView>, i: int, pats: Seq<GroupView>) -> Result<
    (Seq<TokView>, int),
    ErrView,
>
    decreases pats.len(),
{
    if pats.len() == 0 {
        Ok((Seq::empty(), i))
    } else {
        let g = pats[0];
        if 0 <= i < toks.len() && g.kinds.contains(toks[i].kind) {
            let j = sp_skip(toks, i + 1, spacing_kinds(g.spacing));
            match sp_grab(toks, j, pats.drop_first()) {
                Ok((ts, k)) => Ok((seq![toks[i]] + ts, k)),
                Err(e) => Err(e),
            }
        } else {
            Err(err_at(toks, i))
        }
    }
}

/// The four binary operators, all on one flat precedence level.
pub open spec fn is_bin_op(k: TokenKind) -> bool {
    k == TokenKind::Plus || k == TokenKind::Minus || k == TokenKind::Mul || k == TokenKind::Div
}

/// The binding rule's pattern: `var` or `fix`, an identifier, `=`, with
/// inline spacing after each.
pub open spec fn binding_pattern() -> Seq<GroupView> {
    seq![
        GroupView { kinds: seq![TokenKind::Var, TokenKind::Fix], spacing: Spacing::Inline },
        GroupView { kinds: seq![TokenKind::Ident], spacing: Spacing::Inline },
        GroupView { kinds: seq![TokenKind::Equal], spacing: Spacing::Inline },
    ]
}

/// The atom rule, alternatives tried in this fixed order: a call
/// (identifier directly followed by an open paren), a parenthesized
/// expression, a dotted numeric literal (int, dot, int fused into one float
/// literal), a simple literal, a variable reference; otherwise the position's
/// diagnostic.
pub open spec fn sp_atom(toks: Seq<TokView>, i: int) -> Result<(SpecExpr, int), ErrView>
    decreases toks.len() - i, 0int,
{
    if kind_at(toks, i) == TokenKind::Ident && kind_at(toks, i + 1) == TokenKind::Lparen {
        match sp_args(toks, i + 2) {
            Ok((args, j)) => Ok((SpecExpr::Call { name: toks[i].val, args }, j)),
            Err(e) => Err(e),
        }
    } else if kind_at(toks, i) == TokenKind::Lparen {
        match sp_expr(toks, i + 1) {
            Ok((e, j)) => if kind_at(toks, j) == TokenKind::Rparen {
                Ok((e, j + 1))
            } else {
                Err(err_at(toks, j))
            },
            Err(e) => Err(e),
        }
    } else if kind_at(toks, i) == TokenKind::Int && kind_at(toks, i + 1) == TokenKind::Dot
        && kind_at(toks, i + 2) == TokenKind::Int {
        Ok(
            (
                SpecExpr::Lit {
                    id: TokenKind::Float,
                    val: toks[i].val + "."@ + toks[i + 2].val,
                },
                i + 3,
            ),
        )
    } else if kind_at(toks, i) == TokenKind::Bool || kind_at(toks, i) == TokenKind::Str || kind_at(
        toks,
        i,
    ) == TokenKind::Int {
        Ok((SpecExpr::Lit { id: kind_at(toks, i), val: toks[i].val }, i + 1))
    } else if kind_at(toks, i) == TokenKind::Ident {
        Ok((SpecExpr::Ident(toks[i].val), i + 1))
    } else {
        Err(err_at(toks, i))
    }
}

/// The left fold of the expression rule: while the lookahead is one of the
/// four operators, consume it (skipping multiline spacing), parse another
/// atom, and fold left-associatively into a `Bin` node.
///
/// Here and below, the guards on a returned cursor (such as `j1 < k <=
/// toks.len()`) bound the recursion for the termination measure; the
/// executable rules' contracts show the guarded branches are the ones taken.
pub open spec fn sp_chain(toks: Seq<TokView>, j: int, acc: SpecExpr) -> Result<
    (SpecExpr, int),
    ErrView,
>
    decreases toks.len() - j, 1int,
{
    if is_bin_op(kind_at(toks, j)) {
        let j1 = sp_skip(toks, j + 1, spacing_kinds(Spacing::Multiline));
        if j + 1 <= j1 <= toks.len() {
            match sp_atom(toks, j1) {
                Ok((b, k)) => if j1 < k <= toks.len() {
                    sp_chain(
                        toks,
                        k,
                        SpecExpr::Bin {
                            lf: Box::new(acc),
                            op: kind_at(toks, j),
                            rt: Box::new(b),
                        },
                    )
                } else {
                    Err(err_at(toks, k))
                },
                Err(e) => Err(e),
            }
        } else {
            Err(err_at(toks, j))
        }
    } else {
        Ok((acc, j))
    }
}

/// The expression rule: one atom, then the left fold over operators.
pub open spec fn sp_expr(toks: Seq<TokView>, i: int) -> Result<(SpecExpr, int), ErrView>
    decreases toks.len() - i, 2int,
{
    match sp_atom(toks, i) {
        Ok((a, j)) => if i < j <= toks.len() {
            sp_chain(toks, j, a)
        } else {
            Err(err_at(toks, j))
        },
        Err(e) => Err(e),
    }
}

/// The argument-list rule: while the lookahead is not the closing paren,
/// parse one expression, then optionally consume a comma followed by
/// multiline spacing; a comma directly followed by the closing paren is a
/// trailing-separator failure positioned at the closing paren.  The closing
/// paren is consumed.
pub open spec fn sp_args(toks: Seq<TokView>, i: int) -> Result<(Seq<SpecExpr>, int), ErrView>
    decreases toks.len() - i, 3int,
{
    if kind_at(toks, i) == TokenKind::Rparen {
        Ok((Seq::empty(), i + 1))
    } else {
        match sp_expr(toks, i) {
            Ok((e, j)) => if i < j <= toks.len() {
                if kind_at(toks, j) == TokenKind::Comma {
                    let j2 = sp_skip(toks, j + 1, spacing_kinds(Spacing::Multiline));
                    if j + 1 <= j2 <= toks.len() {
                        if kind_at(toks, j2) == TokenKind::Rparen {
                            Err(err_at(toks, j2))
                        } else {
                            match sp_args(toks, j2) {
                                Ok((rest, k)) => Ok((seq![e] + rest, k)),
                                Err(er) => Err(er),
                            }
                        }
                    } else {
                        Err(err_at(toks, j))
                    }
                } else {
                    match sp_args(toks, j) {
                        Ok((rest, k)) => Ok((seq![e] + rest, k)),
                        Err(er) => Err(er),
                    }
                }
            } else {
                Err(err_at(toks, j))
            },
            Err(er) => Err(er),
        }
    }
}

/// The top-level loop: skip multiline spacing; stop successfully at the
/// end-of-input sentinel (returning the statements and the stop position);
/// on `var` or `fix`, grab the binding pattern, parse the bound expression,
/// and go on; otherwise the position's diagnostic.
pub open spec fn sp_stmts(toks: Seq<TokView>, i: int) -> Result<(Seq<SpecStmt>, int), ErrView>
    decreases toks.len() - i, 4int,
{
    let i1 = sp_skip(toks, i, spacing_kinds(Spacing::Multiline));
    if !(i <= i1 <= toks.len()) {
        Err(err_at(toks, i))
    } else if kind_at(toks, i1) == TokenKind::Eof {
        Ok((Seq::empty(), i1))
    } else if kind_at(toks, i1) == TokenKind::Var || kind_at(toks, i1) == TokenKind::Fix {
        match sp_grab(toks, i1, binding_pattern()) {
            Ok((ts, j)) => if i1 < j <= toks.len() && ts.len() == 3 {
                match sp_expr(toks, j) {
                    Ok((e, k)) => if j < k <= toks.len() {
                        let s = if ts[0].kind == TokenKind::Var {
                            SpecStmt::Var { name: ts[1].val, expr: e }
                        } else {
                            SpecStmt::Fix { name: ts[1].val, expr: e }
                        };
                        match sp_stmts(toks, k) {
                            Ok((rest, fin)) => Ok((seq![s] + rest, fin)),
                            Err(er) => Err(er),
                        }
                    } else {
                        Err(err_at(toks, k))
                    },
                    Err(er) => Err(er),
                }
            } else {
                Err(err_at(toks, i1))
            },
            Err(er) => Err(er),
        }
    } else {
        Err(err_at(toks, i1))
    }
}

/// What parsing a whole token sequence yields.
pub open spec fn sp_parse(toks: Seq<TokView>) -> Result<(Seq<SpecStmt>, int), ErrView> {
    sp_stmts(toks, 0)
}

/// Continuation form of `sp_args`, used by the argument loop's invariant.
pub open spec fn sp_args_cont(toks: Seq<TokView>, i: int, pre: Seq<SpecExpr>) -> Result<
    (Seq<SpecExpr>, int),
    ErrView,
> {
    match sp_args(toks, i) {
        Ok((rest, k)) => Ok((pre + rest, k)),
        Err(e) => Err(e),
    }
}

/// Continuation form of `sp_stmts`, used by the statement loop's invariant.
pub open spec fn sp_stmts_cont(toks: Seq<TokView>, i: int, pre: Seq<SpecStmt>) -> Result<
    (Seq<SpecStmt>, int),
    ErrView,
> {
    match sp_stmts(toks, i) {
        Ok((rest, fin)) => Ok((pre + rest, fin)),
        Err(e) => Err(e),
    }
}

/// Continuation form of `sp_grab`, used by `grab`'s loop invariant.
pub open spec fn sp_grab_cont(
    toks: Seq<TokView>,
    i: int,
    pats: Seq<GroupView>,
    pre: Seq<TokView>,
) -> Result<(Seq<TokView>, int), ErrView> {
    match sp_grab(toks, i, pats) {
        Ok((ts, k)) => Ok((pre + ts, k)),
        Err(e) => Err(e),
    }
}

/// Membership of a kind in a kind set.
fn kind_in(kinds: &Vec<TokenKind>, k: TokenKind) -> (b: bool)
    ensures
        b == kinds@.contains(k),
{
    for m in 0..kinds.len()
        invariant
            forall|q: int| 0 <= q < m ==> kinds@[q] != k,
    {
        if kinds[m] == k {
            return true;
        }
    }
    false
}

/// The kind under the cursor, the sentinel when the cursor is at the end.
fn cur_kind(toks: &Vec<Tok>, i: usize) -> (k: TokenKind)
    requires
        i <= toks@.len(),
    ensures
        k == kind_at(tok_views(toks@), i as int),
{
    if i < toks.len() {
        toks[i].id
    } else {
        TokenKind::Eof
    }
}

/// The executable spacing sets.
fn spacing_vec(sp: Spacing) -> (r: Vec<TokenKind>)
    ensures
        r@ == spacing_kinds(sp),
{
    match sp {
        Spacing::Tight => {
            let r: Vec<TokenKind> = Vec::new();
            proof {
                assert(r@ =~= spacing_kinds(Spacing::Tight));
            }
            r
        },
        Spacing::Inline => {
            let r = vec![TokenKind::Space, TokenKind::Tab];
            proof {
                assert(r@ =~= spacing_kinds(Spacing::Inline));
            }
            r
        },
        Spacing::Multiline => {
            let r = vec![TokenKind::Space, TokenKind::Tab, TokenKind::Eol];
            proof {
                assert(r@ =~= spacing_kinds(Spacing::Multiline));
            }
            r
        },
    }
}

/// The diagnostic for an unexpected token at a position, with the source
/// name left for the caller to fill in.
fn mk_err(toks: &Vec<Tok>, i: usize) -> (e: Error)
    ensures
        err_matches(&e, err_at(tok_views(toks@), i as int)),
        e.name@ == Seq::<char>::empty(),
{
    if i < toks.len() {
        let t = &toks[i];
        if t.id == TokenKind::Eof {
            Error {
                name: String::new(),
                text: String::from_str("unexpected end of file"),
                line: t.ln,
                colm: t.col,
            }
        } else {
            Error {
                name: String::new(),
                text: String::from_str("unexpected token: ").concat(t.val.as_str()),
                line: t.ln,
                colm: t.col,
            }
        }
    } else {
        Error {
            name: String::new(),
            text: String::from_str("unexpected end of file"),
            line: 0,
            colm: 0,
        }
    }
}

/// Advances the cursor past every token whose kind is in `kinds`.
pub fn burn(toks: &Vec<Tok>, i: usize, kinds: &Vec<TokenKind>) -> (j: usize)
    requires
        i <= toks@.len(),
    ensures
        j as int == sp_skip(tok_views(toks@), i as int, kinds@),
        i <= j <= toks@.len(),
{
    let mut j = i;
    loop
        invariant
            i <= j <= toks@.len(),
            sp_skip(tok_views(toks@), i as int, kinds@) == sp_skip(
                tok_views(toks@),
                j as int,
                kinds@,
            ),
        decreases toks@.len() - j,
    {
        if j < toks.len() && kind_in(kinds, toks[j].id) {
            j = j + 1;
        } else {
            proof {
                assert(sp_skip(tok_views(toks@), j as int, kinds@) == j as int);
            }
            return j;
        }
    }
}

/// Non-mutating single-token lookahead: is the kind `offset` tokens ahead of
/// the cursor one of `kinds`?
pub fn peek_kind(toks: &Vec<Tok>, i: usize, offset: usize, kinds: &Vec<TokenKind>) -> (b: bool)
    requires
        i <= toks@.len(),
    ensures
        b == kinds@.contains(kind_at(tok_views(toks@), i as int + offset as int)),
{
    if offset < toks.len() - i {
        kind_in(kinds, toks[i + offset].id)
    } else {
        kind_in(kinds, TokenKind::Eof)
    }
}

/// Non-mutating token-run lookahead without spacing skip: do the kinds from
/// the cursor on match `kinds` exactly, in order?
pub fn peek_kind_sequence(toks: &Vec<Tok>, i: usize, kinds: &Vec<TokenKind>) -> (b: bool)
    requires
        i <= toks@.len(),
    ensures
        b == (forall|q: int|
            0 <= q < kinds@.len() ==> kind_at(tok_views(toks@), i as int + q) == kinds@[q]),
{
    for m in 0..kinds.len()
        invariant
            i <= toks@.len(),
            forall|q: int| 0 <= q < m ==> kind_at(tok_views(toks@), i as int + q) == kinds@[q],
    {
        let k = if m < toks.len() - i {
            toks[i + m].id
        } else {
            TokenKind::Eof
        };
        if k != kinds[m] {
            return false;
        }
    }
    true
}

/// Mutating counterpart of `peek_sequence`: consumes one token per group in
/// order, skipping each group's spacing, and returns the matched tokens and
/// the new cursor; fails at the first group that does not match, with the
/// offending position's diagnostic.
pub fn grab(toks: &Vec<Tok>, i: usize, pat: &Vec<Group>) -> (r: Result<(Vec<Tok>, usize), Error>)
    requires
        i <= toks@.len(),
    ensures
        match r {
            Ok((ts, j)) => sp_grab(tok_views(toks@), i as int, group_views(pat@)) == Ok::<
                _,
                ErrView,
            >((tok_views(ts@), j as int)) && i <= j <= toks@.len() && j as int >= i as int
                + pat@.len() && ts@.len() == pat@.len(),
            Err(e) => sp_grab(tok_views(toks@), i as int, group_views(pat@)) matches Err(le)
                && err_matches(&e, le) && e.name@ == Seq::<char>::empty(),
        },
{
    let ghost t = tok_views(toks@);
    let ghost pats = group_views(pat@);
    let mut out: Vec<Tok> = Vec::new();
    let mut j = i;
    proof {
        assert(tok_views(out@) =~= Seq::<TokView>::empty());
        assert(pats.skip(0) =~= pats);
    }
    for m in 0..pat.len()
        invariant
            t == tok_views(toks@),
            t.len() == toks@.len(),
            pats == group_views(pat@),
            pats.len() == pat@.len(),
            i <= j <= toks@.len(),
            j >= i + m,
            out@.len() == m,
            sp_grab(t, i as int, pats) == sp_grab_cont(t, j as int, pats.skip(m as int), tok_views(out@)),
    {
        let g = &pat[m];
        proof {
            assert(pats.skip(m as int)[0] == pats[m as int]);
            assert(pats[m as int] == pat@[m as int]@);
            assert(pats.skip(m as int).drop_first() =~= pats.skip(m as int + 1));
        }
        if j < toks.len() && kind_in(&g.kinds, toks[j].id) {
            let tk = toks[j].clone();
            proof {
                crate::tok::lemma_tok_views_push(out@, tk);
                assert(t[j as int] == toks@[j as int]@);
            }
            let ghost old_out = tok_views(out@);
            let ghost old_j = j as int;
            out.push(tk);
            let sv = spacing_vec(g.spacing);
            j = burn(toks, j + 1, &sv);
            proof {
                assert(sp_grab(t, old_j, pats.skip(m as int)) == (match sp_grab(
                    t,
                    j as int,
                    pats.skip(m as int + 1),
                ) {
                    Ok((ts2, k2)) => Ok::<_, ErrView>((seq![t[old_j]] + ts2, k2)),
                    Err(e2) => Err(e2),
                }));
                if sp_grab(t, j as int, pats.skip(m as int + 1)) is Ok {
                    let (ts2, k2) = sp_grab(t, j as int, pats.skip(m as int + 1))->Ok_0;
                    assert(old_out + (seq![t[old_j]] + ts2) =~= (old_out.push(t[old_j])) + ts2);
                }
            }
        } else {
            proof {
                assert(sp_grab(t, j as int, pats.skip(m as int)) == Err::<(Seq<TokView>, int), ErrView>(
                    err_at(t, j as int),
                ));
            }
            return Err(mk_err(toks, j));
        }
    }
    proof {
        assert(pats.skip(pats.len() as int) =~= Seq::<GroupView>::empty());
        assert(sp_grab(t, j as int, pats.skip(pats.len() as int)) == Ok::<_, ErrView>((
            Seq::<TokView>::empty(),
            j as int,
        )));
        assert(tok_views(out@) + Seq::<TokView>::empty() =~= tok_views(out@));
    }
    Ok((out, j))
}

/// Non-mutating form of `grab`: does the whole pattern match here?
pub fn peek_sequence(toks: &Vec<Tok>, i: usize, pat: &Vec<Group>) -> (b: bool)
    requires
        i <= toks@.len(),
    ensures
        b == (sp_grab(tok_views(toks@), i as int, group_views(pat@)) is Ok),
{
    match grab(toks, i, pat) {
        Ok(_) => true,
        Err(_) => false,
    }
}

/// The atom rule; returns the node and the cursor just past it.
pub fn parse_atom(toks: &Vec<Tok>, i: usize) -> (r: Result<(Expr, usize), Error>)
    requires
        i <= toks@.len(),
    ensures
        match r {
            Ok((e, j)) => sp_atom(tok_views(toks@), i as int) == Ok::<_, ErrView>((
                expr_view(e),
                j as int,
            )) && i < j <= toks@.len(),
            Err(er) => sp_atom(tok_views(toks@), i as int) matches Err(le) && err_matches(&er, le)
                && er.name@ == Seq::<char>::empty(),
        },
    decreases toks@.len() - i, 0int,
{
    let ghost t = tok_views(toks@);
    proof {
        assert(t.len() == toks@.len());
    }
    let k0 = cur_kind(toks, i);
    let call_pat = vec![TokenKind::Ident, TokenKind::Lparen];
    let float_pat = vec![TokenKind::Int, TokenKind::Dot, TokenKind::Int];
    let is_call = peek_kind_sequence(toks, i, &call_pat);
    let is_float = peek_kind_sequence(toks, i, &float_pat);
    proof {
        assert(is_call <==> kind_at(t, i as int) == TokenKind::Ident && kind_at(t, i as int + 1)
            == TokenKind::Lparen) by {
            if kind_at(t, i as int) == TokenKind::Ident && kind_at(t, i as int + 1)
                == TokenKind::Lparen {
                assert forall|q: int| 0 <= q < call_pat@.len() implies kind_at(t, i as int + q)
                    == call_pat@[q] by {
                    if q == 0 {
                    } else {
                        assert(q == 1);
                    }
                }
            }
        }
        assert(is_float <==> kind_at(t, i as int) == TokenKind::Int && kind_at(t, i as int + 1)
            == TokenKind::Dot && kind_at(t, i as int + 2) == TokenKind::Int) by {
            if kind_at(t, i as int) == TokenKind::Int && kind_at(t, i as int + 1) == TokenKind::Dot
                && kind_at(t, i as int + 2) == TokenKind::Int {
                assert forall|q: int| 0 <= q < float_pat@.len() implies kind_at(t, i as int + q)
                    == float_pat@[q] by {
                    if q == 0 {
                    } else if q == 1 {
                    } else {
                        assert(q == 2);
                    }
                }
            }
        }
    }
    if is_call {
        proof {
            assert(i + 1 < toks.len());
        }
        let name = toks[i].val.clone();
        match parse_args(toks, i + 2) {
            Ok((args, j)) => Ok((Expr::Call { name, args }, j)),
            Err(er) => Err(er),
        }
    } else if k0 == TokenKind::Lparen {
        proof {
            assert(i < toks.len());
        }
        match parse_expr(toks, i + 1) {
            Ok((e, j)) => {
                let kr = cur_kind(toks, j);
                if kr == TokenKind::Rparen {
                    proof {
                        assert(j < toks.len());
                    }
                    Ok((e, j + 1))
                } else {
                    Err(mk_err(toks, j))
                }
            },
            Err(er) => Err(er),
        }
    } else {
        if is_float {
            proof {
                assert(i + 2 < toks.len());
            }
            let val = toks[i].val.clone().concat(".").concat(toks[i + 2].val.as_str());
            Ok((Expr::Lit { id: TokenKind::Float, val }, i + 3))
        } else if k0 == TokenKind::Bool || k0 == TokenKind::Str || k0 == TokenKind::Int {
            proof {
                assert(i < toks.len());
            }
            Ok((Expr::Lit { id: k0, val: toks[i].val.clone() }, i + 1))
        } else if k0 == TokenKind::Ident {
            proof {
                assert(i < toks.len());
            }
            Ok((Expr::Ident(toks[i].val.clone()), i + 1))
        } else {
            Err(mk_err(toks, i))
        }
    }
}

/// The expression rule: one atom, then a left fold over the four operators.
pub fn parse_expr(toks: &Vec<Tok>, i: usize) -> (r: Result<(Expr, usize), Error>)
    requires
        i <= toks@.len(),
    ensures
        match r {
            Ok((e, j)) => sp_expr(tok_views(toks@), i as int) == Ok::<_, ErrView>((
                expr_view(e),
                j as int,
            )) && i < j <= toks@.len(),
            Err(er) => sp_expr(tok_views(toks@), i as int) matches Err(le) && err_matches(&er, le)
                && er.name@ == Seq::<char>::empty(),
        },
    decreases toks@.len() - i, 2int,
{
    let ghost t = tok_views(toks@);
    match parse_atom(toks, i) {
        Err(er) => Err(er),
        Ok((a, j0)) => {
            let mut acc = a;
            let mut j = j0;
            let mut k = cur_kind(toks, j);
            let sv = spacing_vec(Spacing::Multiline);
            while k == TokenKind::Plus || k == TokenKind::Minus || k == TokenKind::Mul || k
                == TokenKind::Div
                invariant
                    t == tok_views(toks@),
                    t.len() == toks@.len(),
                    sv@ == spacing_kinds(Spacing::Multiline),
                    i < j <= toks@.len(),
                    k == kind_at(t, j as int),
                    sp_expr(t, i as int) == sp_chain(t, j as int, expr_view(acc)),
                decreases toks@.len() - j,
            {
                let op = k;
                proof {
                    assert(j < toks.len());
                }
                let j1 = burn(toks, j + 1, &sv);
                match parse_atom(toks, j1) {
                    Err(er) => {
                        return Err(er);
                    },
                    Ok((b, j2)) => {
                        let ghost accv = expr_view(acc);
                        acc = Expr::Bin { lf: Box::new(acc), op, rt: Box::new(b) };
                        proof {
                            assert(expr_view(acc) == SpecExpr::Bin {
                                lf: Box::new(accv),
                                op,
                                rt: Box::new(expr_view(b)),
                            });
                        }
                        j = j2;
                        k = cur_kind(toks, j2);
                    },
                }
            }
            Ok((acc, j))
        },
    }
}

/// The argument-list rule; returns the arguments and the cursor just past
/// the consumed closing paren.
pub fn parse_args(toks: &Vec<Tok>, i: usize) -> (r: Result<(Vec<Expr>, usize), Error>)
    requires
        i <= toks@.len(),
    ensures
        match r {
            Ok((args, j)) => sp_args(tok_views(toks@), i as int) == Ok::<_, ErrView>((
                exprs_view(args@),
                j as int,
            )) && i < j <= toks@.len(),
            Err(er) => sp_args(tok_views(toks@), i as int) matches Err(le) && err_matches(&er, le)
                && er.name@ == Seq::<char>::empty(),
        },
    decreases toks@.len() - i, 3int,
{
    let ghost t = tok_views(toks@);
    let mut out: Vec<Expr> = Vec::new();
    let mut j = i;
    let mut k = cur_kind(toks, j);
    let sv = spacing_vec(Spacing::Multiline);
    proof {
        assert(exprs_view(out@) =~= Seq::<SpecExpr>::empty());
        assert(Seq::<SpecExpr>::empty() + exprs_view(out@) =~= exprs_view(out@));
    }
    while k != TokenKind::Rparen
        invariant
            t == tok_views(toks@),
            t.len() == toks@.len(),
            sv@ == spacing_kinds(Spacing::Multiline),
            i <= j <= toks@.len(),
            k == kind_at(t, j as int),
            sp_args(t, i as int) == sp_args_cont(t, j as int, exprs_view(out@)),
        decreases toks@.len() - j,
    {
        match parse_expr(toks, j) {
            Err(er) => {
                return Err(er);
            },
            Ok((e, j2)) => {
                let ghost pre = exprs_view(out@);
                let ghost ev = expr_view(e);
                let kc = cur_kind(toks, j2);
                if kc == TokenKind::Comma {
                    proof {
                        assert(j2 < toks.len());
                    }
                    let j3 = burn(toks, j2 + 1, &sv);
                    let k3 = cur_kind(toks, j3);
                    if k3 == TokenKind::Rparen {
                        return Err(mk_err(toks, j3));
                    }
                    proof {
                        lemma_exprs_view_push(out@, e);
                        if sp_args(t, j3 as int) is Ok {
                            let (rest, fin) = sp_args(t, j3 as int)->Ok_0;
                            assert(pre + (seq![ev] + rest) =~= (pre + seq![ev]) + rest);
                        }
                    }
                    out.push(e);
                    j = j3;
                    k = k3;
                } else {
                    proof {
                        lemma_exprs_view_push(out@, e);
                        if sp_args(t, j2 as int) is Ok {
                            let (rest, fin) = sp_args(t, j2 as int)->Ok_0;
                            assert(pre + (seq![ev] + rest) =~= (pre + seq![ev]) + rest);
                        }
                    }
                    out.push(e);
                    j = j2;
                    k = kc;
                }
            },
        }
    }
    proof {
        assert(j < toks.len());
        assert(sp_args(t, j as int) == Ok::<_, ErrView>((Seq::<SpecExpr>::empty(), j as int + 1)));
        assert(exprs_view(out@) + Seq::<SpecExpr>::empty() =~= exprs_view(out@));
    }
    Ok((out, j + 1))
}

/// The parser: one cursor over the token sequence and the statements built
/// so far; no backtracking once a rule commits via `grab`.
pub struct Parser<'a> {
    pub ast: &'a Ast<'a>,
    pub idx: usize,
    pub stmts: Vec<Stmt>,
}

impl<'a> Parser<'a> {
    pub fn new(ast: &'a Ast<'a>) -> (r: Self)
        ensures
            r.ast == ast,
            r.idx == 0,
            r.stmts@ == Seq::<Stmt>::empty(),
    {
        Self { ast: ast, idx: 0, stmts: Vec::new() }
    }

    /// Runs the top-level loop over `input.toks`.  On success the parser
    /// holds exactly the parsed statements and the stop position, and `None`
    /// comes back; on failure the parser is unchanged and the diagnostic
    /// comes back with the source name left empty for the caller.
    pub fn parse(&mut self, input: &Output) -> (r: Option<Error>)
        ensures
            match sp_parse(tok_views(input.toks@)) {
                Ok((ss, fin)) => r is None && final(self).ast == old(self).ast && stmts_view(
                    final(self).stmts@,
                ) == ss && final(self).idx as int == fin,
                Err(le) => (r matches Some(e) && err_matches(&e, le) && e.name@
                    == Seq::<char>::empty()) && *final(self) == *old(self),
            },
    {
        let ghost t = tok_views(input.toks@);
        let mut i: usize = 0;
        let mut out: Vec<Stmt> = Vec::new();
        let sv = spacing_vec(Spacing::Multiline);
        let pat = vec![
            Group { kinds: vec![TokenKind::Var, TokenKind::Fix], spacing: Spacing::Inline },
            Group { kinds: vec![TokenKind::Ident], spacing: Spacing::Inline },
            Group { kinds: vec![TokenKind::Equal], spacing: Spacing::Inline },
        ];
        proof {
            assert(group_views(pat@)[0].kinds =~= binding_pattern()[0].kinds);
            assert(group_views(pat@)[1].kinds =~= binding_pattern()[1].kinds);
            assert(group_views(pat@)[2].kinds =~= binding_pattern()[2].kinds);
            assert(group_views(pat@) =~= binding_pattern());
            assert(stmts_view(out@) =~= Seq::<SpecStmt>::empty());
        }
        loop
            invariant
                t == tok_views(input.toks@),
                t.len() == input.toks@.len(),
                sv@ == spacing_kinds(Spacing::Multiline),
                group_views(pat@) == binding_pattern(),
                pat@.len() == 3,
                i <= input.toks@.len(),
                sp_stmts(t, 0) == sp_stmts_cont(t, i as int, stmts_view(out@)),
                self == old(self),
            decreases input.toks@.len() - i,
        {
            let i1 = burn(&input.toks, i, &sv);
            let k = cur_kind(&input.toks, i1);
            let ghost pre = stmts_view(out@);
            if k == TokenKind::Eof {
                proof {
                    assert(sp_stmts(t, i as int) == Ok::<_, ErrView>((
                        Seq::<SpecStmt>::empty(),
                        i1 as int,
                    )));
                    assert(pre + Seq::<SpecStmt>::empty() =~= pre);
                }
                self.stmts = out;
                self.idx = i1;
                return None;
            }
            if k == TokenKind::Var || k == TokenKind::Fix {
                match grab(&input.toks, i1, &pat) {
                    Err(e) => {
                        return Some(e);
                    },
                    Ok((ts, j)) => {
                        proof {
                            assert(tok_views(ts@).len() == 3);
                            assert(tok_views(ts@)[0] == ts@[0]@);
                            assert(tok_views(ts@)[1] == ts@[1]@);
                        }
                        let is_var = ts[0].id == TokenKind::Var;
                        let name = ts[1].val.clone();
                        match parse_expr(&input.toks, j) {
                            Err(e) => {
                                return Some(e);
                            },
                            Ok((e, k2)) => {
                                let stmt = if is_var {
                                    Stmt::Var { name, expr: e }
                                } else {
                                    Stmt::Fix { name, expr: e }
                                };
                                proof {
                                    lemma_stmts_view_push(out@, stmt);
                                    if sp_stmts(t, k2 as int) is Ok {
                                        let (rest, fin) = sp_stmts(t, k2 as int)->Ok_0;
                                        assert(pre + (seq![stmt_view(stmt)] + rest) =~= (pre
                                            + seq![stmt_view(stmt)]) + rest);
                                    }
                                }
                                out.push(stmt);
                                i = k2;
                            },
                        }
                    },
                }
            } else {
                let e = mk_err(&input.toks, i1);
                proof {
                    assert(sp_stmts(t, i as int) == Err::<(Seq<SpecStmt>, int), ErrView>(err_at(
                        t,
                        i1 as int,
                    )));
                }
                return Some(e);
            }
        }
    }
}

} // verus!
