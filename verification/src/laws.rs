//! Laws of the front end, stated and proved over the lexer's state machine.

use vstd::prelude::*;

use crate::lex::LexSt;
use crate::lex::init_state;
use crate::lex::lex_end;
use crate::lex::lex_flush;
use crate::lex::lex_run;
use crate::lex::lex_step;
use crate::lex::spec_tokenize;
use crate::tok::TokView;
use crate::tok::TokenKind;
use crate::tok::char_kind;
use crate::tok::is_digit;
use crate::tok::is_ident_char;
use crate::tok::is_ident_start;
use crate::tok::is_letter;
use crate::tok::spec_classify;
use crate::tok::spec_is_ident;
use crate::tok::spec_is_int;

verus! {

/// The token texts, concatenated in order.
pub open spec fn cat_vals(ts: Seq<TokView>) -> Seq<char>
    decreases ts.len(),
{
    if ts.len() == 0 {
        Seq::empty()
    } else {
        cat_vals(ts.drop_last()) + ts.last().val
    }
}

/// The whitespace characters: the ones consumed for position tracking only.
pub open spec fn is_ws_char(c: char) -> bool {
    c == ' ' || c == '\t' || c == '\n'
}

/// The text with every whitespace character removed.
pub open spec fn strip_ws(s: Seq<char>) -> Seq<char>
    decreases s.len(),
{
    if s.len() == 0 {
        Seq::empty()
    } else if is_ws_char(s[0]) {
        strip_ws(s.drop_first())
    } else {
        seq![s[0]] + strip_ws(s.drop_first())
    }
}

/// No string literal can open in the text: it has no double quote and no
/// backtick.
pub open spec fn has_no_quote(s: Seq<char>) -> bool {
    forall|i: int| 0 <= i < s.len() ==> s[i] != '"' && s[i] != '`'
}

proof fn lemma_cat_vals_push(ts: Seq<TokView>, t: TokView)
    ensures
        cat_vals(ts.push(t)) == cat_vals(ts) + t.val,
{
    assert(ts.push(t).drop_last() =~= ts);
    assert(ts.push(t).last() == t);
}

proof fn lemma_lex_text_aux(code: Seq<char>, st: LexSt)
    requires
        st.delim is None,
        has_no_quote(code),
    ensures
        lex_run(code, st) matches Ok(st2) ==> st2.delim is None && cat_vals(st2.toks) + st2.buf
            == cat_vals(st.toks) + st.buf + strip_ws(code),
    decreases code.len(),
{
    if code.len() == 0 {
        if lex_run(code, st) is Ok {
            let st2 = lex_run(code, st)->Ok_0;
            assert(st2 == st);
            assert(cat_vals(st.toks) + st.buf + strip_ws(code) =~= cat_vals(st.toks) + st.buf);
        }
    } else {
        let c = code[0];
        let rest = code.drop_first();
        assert(has_no_quote(rest)) by {
            assert(forall|i: int| 0 <= i < rest.len() ==> rest[i] == code[i + 1]);
        }
        assert(c != '"' && c != '`');
        match lex_step(st, c) {
            Err(_) => {
                // the run fails; nothing is owed
            },
            Ok(st1) => {
                let k = char_kind(c);
                assert(st1.delim is None);
                lemma_lex_text_aux(rest, st1);
                if lex_run(code, st) is Ok {
                    if k == TokenKind::Invalid {
                        // buffered: c is not whitespace, since whitespace is in the table
                        assert(st1.toks == st.toks && st1.buf == st.buf.push(c));
                        assert(strip_ws(code) == seq![c] + strip_ws(rest));
                        assert(cat_vals(st.toks) + st.buf.push(c) + strip_ws(rest) =~= cat_vals(
                            st.toks,
                        ) + st.buf + strip_ws(code));
                    } else {
                        // separator: the buffer flushes, then the separator itself
                        let col2 = st.col + 1;
                        let toks2 = if st.buf.len() == 0 {
                            st.toks
                        } else {
                            st.toks.push(
                                TokView {
                                    kind: spec_classify(st.buf),
                                    val: st.buf,
                                    ln: st.ln,
                                    col: col2 - st.buf.len(),
                                },
                            )
                        };
                        assert(lex_flush(st.toks, st.buf, st.ln, col2) == Ok::<_, crate::err::ErrView>(
                            toks2,
                        ));
                        if st.buf.len() > 0 {
                            lemma_cat_vals_push(
                                st.toks,
                                TokView {
                                    kind: spec_classify(st.buf),
                                    val: st.buf,
                                    ln: st.ln,
                                    col: col2 - st.buf.len(),
                                },
                            );
                        }
                        assert(cat_vals(toks2) == cat_vals(st.toks) + st.buf) by {
                            if st.buf.len() == 0 {
                                assert(cat_vals(st.toks) + st.buf =~= cat_vals(st.toks));
                            }
                        }
                        if k == TokenKind::Space || k == TokenKind::Tab || k == TokenKind::Eol {
                            assert(is_ws_char(c));
                            assert(strip_ws(code) == strip_ws(rest));
                            assert(st1.toks == toks2 && st1.buf == Seq::<char>::empty());
                            assert(cat_vals(toks2) + Seq::<char>::empty() =~= cat_vals(toks2));
                            assert(cat_vals(st1.toks) + st1.buf + strip_ws(rest) =~= cat_vals(
                                st.toks,
                            ) + st.buf + strip_ws(code));
                        } else {
                            assert(!is_ws_char(c));
                            assert(strip_ws(code) == seq![c] + strip_ws(rest));
                            let sep = TokView { kind: k, val: seq![c], ln: st.ln, col: col2 };
                            assert(st1.toks == toks2.push(sep) && st1.buf == Seq::<char>::empty());
                            lemma_cat_vals_push(toks2, sep);
                            assert(cat_vals(st1.toks) + st1.buf =~= cat_vals(st.toks) + st.buf
                                + seq![c]);
                            assert(cat_vals(st1.toks) + st1.buf + strip_ws(rest) =~= cat_vals(
                                st.toks,
                            ) + st.buf + strip_ws(code));
                        }
                    }
                }
            },
        }
    }
}

/// For every source text in which no string literal opens (no double quote,
/// no backtick), a successful tokenization reproduces the text: the token
/// texts, concatenated in order, are the text with its whitespace removed.
/// Whitespace never appears in the output and the end-of-input token's text
/// is empty, so the concatenation covers exactly the non-whitespace text.
pub proof fn lemma_tokenize_reproduces_text(code: Seq<char>)
    requires
        has_no_quote(code),
    ensures
        spec_tokenize(code) matches Ok(ts) ==> cat_vals(ts) == strip_ws(code),
{
    lemma_lex_text_aux(code, init_state());
    if spec_tokenize(code) is Ok {
        let ts = spec_tokenize(code)->Ok_0;
        let st2 = lex_run(code, init_state())->Ok_0;
        assert(cat_vals(st2.toks) + st2.buf == cat_vals(init_state().toks) + init_state().buf
            + strip_ws(code));
        assert(cat_vals(init_state().toks) =~= Seq::<char>::empty());
        assert(cat_vals(init_state().toks) + init_state().buf + strip_ws(code) =~= strip_ws(code));
        // lex_end: flush any trailing buffer, then the end-of-input token
        let col2 = st2.col + 1;
        if st2.buf.len() == 0 {
            let eof = TokView { kind: TokenKind::Eof, val: Seq::empty(), ln: st2.ln, col: col2 };
            assert(ts == st2.toks.push(eof));
            lemma_cat_vals_push(st2.toks, eof);
            assert(cat_vals(ts) =~= cat_vals(st2.toks) + st2.buf);
        } else {
            let ftok = TokView {
                kind: spec_classify(st2.buf),
                val: st2.buf,
                ln: st2.ln,
                col: col2 - st2.buf.len(),
            };
            let eof = TokView { kind: TokenKind::Eof, val: Seq::empty(), ln: st2.ln, col: col2 };
            assert(ts == st2.toks.push(ftok).push(eof));
            lemma_cat_vals_push(st2.toks, ftok);
            lemma_cat_vals_push(st2.toks.push(ftok), eof);
            assert(cat_vals(ts) =~= cat_vals(st2.toks) + st2.buf);
        }
    }
}

/// The whitespace token kinds: consumed for position tracking, never output.
pub open spec fn is_ws_kind(k: TokenKind) -> bool {
    k == TokenKind::Space || k == TokenKind::Tab || k == TokenKind::Eol
}

/// The invariant behind `lemma_no_whitespace_in_output`: outside string mode
/// the buffer holds only characters outside the classifier table, and no
/// whitespace-kind token has been emitted.
spec fn no_ws_inv(st: LexSt) -> bool {
    &&& (st.delim is None ==> forall|i: int|
        0 <= i < st.buf.len() ==> char_kind(#[trigger] st.buf[i]) == TokenKind::Invalid)
    &&& (forall|i: int| 0 <= i < st.toks.len() ==> !is_ws_kind((#[trigger] st.toks[i]).kind))
}

/// A buffer of characters outside the classifier table never classifies to a
/// whitespace kind: the single-character table branch cannot apply to it.
proof fn lemma_buf_not_ws(buf: Seq<char>)
    requires
        forall|i: int| 0 <= i < buf.len() ==> char_kind(#[trigger] buf[i]) == TokenKind::Invalid,
    ensures
        !is_ws_kind(spec_classify(buf)),
{
    if buf.len() == 1 {
        assert(char_kind(buf[0]) == TokenKind::Invalid);
    }
}

proof fn lemma_no_ws_aux(code: Seq<char>, st: LexSt)
    requires
        no_ws_inv(st),
    ensures
        lex_run(code, st) matches Ok(st2) ==> no_ws_inv(st2),
    decreases code.len(),
{
    if code.len() > 0 {
        let c = code[0];
        match lex_step(st, c) {
            Err(_) => {},
            Ok(st1) => {
                assert(no_ws_inv(st1)) by {
                    match st.delim {
                        Some(d) => {
                            if c == d && st.buf.len() > 0 {
                                let tok = st1.toks.last();
                                assert(tok.kind == TokenKind::Str);
                                assert(forall|i: int|
                                    0 <= i < st.toks.len() ==> st1.toks[i] == st.toks[i]);
                            }
                        },
                        None => {
                            if c == '"' || c == '`' {
                            } else if char_kind(c) == TokenKind::Invalid {
                                assert(forall|i: int|
                                    0 <= i < st1.buf.len() - 1 ==> st1.buf[i] == st.buf[i]);
                            } else {
                                lemma_buf_not_ws(st.buf);
                                // the flushed token (if any) and the separator
                                // token (if kept) are both non-whitespace
                            }
                        },
                    }
                }
                lemma_no_ws_aux(code.drop_first(), st1);
            },
        }
    }
}

/// Whitespace-kind tokens never appear in the lexer's output: they are
/// consumed for position tracking only.
pub proof fn lemma_no_whitespace_in_output(code: Seq<char>)
    ensures
        spec_tokenize(code) matches Ok(ts) ==> forall|i: int|
            0 <= i < ts.len() ==> !is_ws_kind((#[trigger] ts[i]).kind),
{
    lemma_no_ws_aux(code, init_state());
    if spec_tokenize(code) is Ok {
        let st2 = lex_run(code, init_state())->Ok_0;
        let ts = spec_tokenize(code)->Ok_0;
        lemma_buf_not_ws(st2.buf);
        assert forall|i: int| 0 <= i < ts.len() implies !is_ws_kind((#[trigger] ts[i]).kind) by {
            if i < st2.toks.len() {
                assert(ts[i] == st2.toks[i]);
            }
        }
    }
}

/// A lexer state between tokens: outside string mode, with an empty buffer.
pub open spec fn clean(st: LexSt) -> bool {
    st.delim is None && st.buf == Seq::<char>::empty()
}

/// A token whose text can stand on its own in a reconstructed source text: a
/// string literal with non-empty content free of double quotes (it is
/// re-quoted with them), or any other token whose text classifies back to its
/// own kind and whose kind can come out of a reconstruction at all (an empty
/// string literal flushes to nothing, whitespace is dropped, and a lone
/// double quote or backtick would open a string).
pub open spec fn wf_tok(t: TokView) -> bool {
    if t.kind == TokenKind::Str {
        t.val.len() > 0 && (forall|i: int| 0 <= i < t.val.len() ==> #[trigger] t.val[i] != '"')
    } else {
        &&& spec_classify(t.val) == t.kind
        &&& t.kind != TokenKind::Invalid
        &&& t.kind != TokenKind::Space
        &&& t.kind != TokenKind::Tab
        &&& t.kind != TokenKind::Eol
        &&& t.kind != TokenKind::Dquote
        &&& t.kind != TokenKind::Tick
    }
}

/// The spelling of a token in a reconstructed text: string literals are
/// re-quoted; every other token contributes its raw text.
pub open spec fn spelling(t: TokView) -> Seq<char> {
    if t.kind == TokenKind::Str {
        seq!['"'] + t.val + seq!['"']
    } else {
        t.val
    }
}

/// Token spellings joined with single spaces.
pub open spec fn recon(ts: Seq<TokView>) -> Seq<char>
    decreases ts.len(),
{
    if ts.len() == 0 {
        Seq::empty()
    } else if ts.len() == 1 {
        spelling(ts[0])
    } else {
        spelling(ts[0]) + seq![' '] + recon(ts.drop_first())
    }
}

/// Token spellings, each followed by one space.
pub open spec fn recon_sp(ts: Seq<TokView>) -> Seq<char>
    decreases ts.len(),
{
    if ts.len() == 0 {
        Seq::empty()
    } else {
        spelling(ts[0]) + seq![' '] + recon_sp(ts.drop_first())
    }
}

/// The number of line ends in a text.
pub open spec fn nl_count(s: Seq<char>) -> int
    decreases s.len(),
{
    if s.len() == 0 {
        0
    } else {
        (if s[0] == '\n' {
            1int
        } else {
            0int
        }) + nl_count(s.drop_first())
    }
}

/// The machine consumes a concatenation segment by segment.
proof fn lemma_run_concat(a: Seq<char>, b: Seq<char>, st: LexSt)
    ensures
        lex_run(a + b, st) == (match lex_run(a, st) {
            Ok(s1) => lex_run(b, s1),
            Err(e) => Err(e),
        }),
    decreases a.len(),
{
    if a.len() == 0 {
        assert(a + b =~= b);
    } else {
        assert((a + b)[0] == a[0]);
        assert((a + b).len() > 0);
        assert((a + b).drop_first() =~= a.drop_first() + b);
        match lex_step(st, a[0]) {
            Ok(s1) => {
                lemma_run_concat(a.drop_first(), b, s1);
            },
            Err(_) => {},
        }
    }
}

/// One character of run.
proof fn lemma_run_one(c: char, st: LexSt)
    ensures
        lex_run(seq![c], st) == (match lex_step(st, c) {
            Ok(s1) => Ok::<LexSt, crate::err::ErrView>(s1),
            Err(e) => Err(e),
        }),
{
    reveal_with_fuel(lex_run, 2);
    assert(seq![c].len() == 1);
    assert(seq![c][0] == c);
    assert(seq![c].drop_first() =~= Seq::<char>::empty());
}

/// Outside string mode, a run of characters that are neither in the
/// classifier table nor quotes only grows the buffer and the column.
proof fn lemma_run_buffer(s: Seq<char>, st: LexSt)
    requires
        st.delim is None,
        forall|i: int| 0 <= i < s.len() ==> char_kind(#[trigger] s[i]) == TokenKind::Invalid,
    ensures
        lex_run(s, st) == Ok::<LexSt, crate::err::ErrView>(
            LexSt {
                toks: st.toks,
                ln: st.ln,
                col: st.col + s.len(),
                delim: st.delim,
                buf: st.buf + s,
            },
        ),
    decreases s.len(),
{
    if s.len() == 0 {
        assert(st.buf + s =~= st.buf);
        assert(LexSt {
            toks: st.toks,
            ln: st.ln,
            col: st.col + s.len(),
            delim: st.delim,
            buf: st.buf + s,
        } == st);
    } else {
        let c = s[0];
        assert(char_kind(c) == TokenKind::Invalid);
        assert(c != '"' && c != '`');
        let st1 = LexSt {
            toks: st.toks,
            ln: st.ln,
            col: st.col + 1,
            delim: st.delim,
            buf: st.buf.push(c),
        };
        assert(lex_step(st, c) == Ok::<LexSt, crate::err::ErrView>(st1));
        assert(forall|i: int|
            0 <= i < s.drop_first().len() ==> s.drop_first()[i] == s[i + 1]);
        lemma_run_buffer(s.drop_first(), st1);
        assert(st.buf.push(c) + s.drop_first() =~= st.buf + s);
    }
}

/// Inside a double-quoted string, a run of characters free of double quotes
/// is buffered verbatim, counting lines.
proof fn lemma_run_string_content(s: Seq<char>, st: LexSt)
    requires
        st.delim == Some('"'),
        forall|i: int| 0 <= i < s.len() ==> #[trigger] s[i] != '"',
    ensures
        lex_run(s, st) == Ok::<LexSt, crate::err::ErrView>(
            LexSt {
                toks: st.toks,
                ln: st.ln + nl_count(s),
                col: st.col + s.len(),
                delim: st.delim,
                buf: st.buf + s,
            },
        ),
    decreases s.len(),
{
    if s.len() == 0 {
        assert(st.buf + s =~= st.buf);
        assert(LexSt {
            toks: st.toks,
            ln: st.ln + nl_count(s),
            col: st.col + s.len(),
            delim: st.delim,
            buf: st.buf + s,
        } == st);
    } else {
        let c = s[0];
        let st1 = LexSt {
            toks: st.toks,
            ln: st.ln + (if c == '\n' {
                1int
            } else {
                0int
            }),
            col: st.col + 1,
            delim: st.delim,
            buf: st.buf.push(c),
        };
        assert(lex_step(st, c) == Ok::<LexSt, crate::err::ErrView>(st1));
        assert(forall|i: int|
            0 <= i < s.drop_first().len() ==> s.drop_first()[i] == s[i + 1]);
        lemma_run_string_content(s.drop_first(), st1);
        assert(st.buf.push(c) + s.drop_first() =~= st.buf + s);
    }
}

/// A well-formed non-string token that is not a single classifier-table
/// character spells as a run of buffered characters.
proof fn lemma_wf_buffer_chars(t: TokView)
    requires
        wf_tok(t),
        t.kind != TokenKind::Str,
        !(t.val.len() == 1 && char_kind(t.val[0]) != TokenKind::Invalid),
    ensures
        t.val.len() > 0,
        forall|i: int| 0 <= i < t.val.len() ==> char_kind(#[trigger] t.val[i]) == TokenKind::Invalid,
{
    reveal_strlit("EOF");
    reveal_strlit("ident");
    reveal_strlit("int");
    reveal_strlit("bool");
    reveal_strlit("str");
    reveal_strlit("fix");
    reveal_strlit("var");
    assert(spec_classify(t.val) == t.kind);
    assert(t.val.len() > 0) by {
        if t.val.len() == 0 {
            assert(!spec_is_ident(t.val) && !spec_is_int(t.val));
            assert(t.val != "EOF"@ && t.val != "ident"@ && t.val != "int"@ && t.val != "bool"@
                && t.val != "str"@ && t.val != "fix"@ && t.val != "var"@);
            assert(spec_classify(t.val) == TokenKind::Invalid);
        }
    }
    assert forall|i: int| 0 <= i < t.val.len() implies char_kind(#[trigger] t.val[i])
        == TokenKind::Invalid by {
        let v = t.val;
        if v == "EOF"@ || v == "ident"@ || v == "int"@ || v == "bool"@ || v == "str"@ || v
            == "fix"@ || v == "var"@ {
            assert(is_letter(v[i]));
            assert(char_kind(v[i]) == TokenKind::Invalid);
        } else if spec_is_ident(v) {
            assert(is_ident_start(v[0]));
            if i > 0 {
                assert(is_ident_char(v[i]));
            }
            assert(char_kind(v[i]) == TokenKind::Invalid);
        } else if spec_is_int(v) {
            assert(is_digit(v[i]));
            assert(char_kind(v[i]) == TokenKind::Invalid);
        } else {
            assert(spec_classify(v) == TokenKind::Invalid || (v.len() == 1 && char_kind(v[0])
                != TokenKind::Invalid));
            assert(false);
        }
    }
}

/// Consuming the spelling of one well-formed token followed by one space,
/// from a state between tokens, emits exactly one token with that kind and
/// text and lands between tokens again.
proof fn lemma_spell_sp(t: TokView, st: LexSt)
    requires
        wf_tok(t),
        clean(st),
    ensures
        ({
            let r = lex_run(spelling(t) + seq![' '], st);
            &&& r is Ok
            &&& clean(r->Ok_0)
            &&& r->Ok_0.toks == st.toks.push(r->Ok_0.toks.last())
            &&& r->Ok_0.toks.last().kind == t.kind
            &&& r->Ok_0.toks.last().val == t.val
        }),
{
    if t.kind == TokenKind::Str {
        let a = seq!['"'];
        let b = t.val;
        let cd = seq!['"', ' '];
        assert(spelling(t) + seq![' '] =~= a + (b + cd));
        let st_a = LexSt {
            toks: st.toks,
            ln: st.ln,
            col: st.col + 1,
            delim: Some('"'),
            buf: st.buf,
        };
        assert(lex_step(st, '"') == Ok::<LexSt, crate::err::ErrView>(st_a));
        lemma_run_string_content(b, st_a);
        let st_b = LexSt {
            toks: st.toks,
            ln: st.ln + nl_count(b),
            col: st.col + 1 + b.len(),
            delim: Some('"'),
            buf: st.buf + b,
        };
        assert(st.buf + b =~= b);
        let tok = TokView {
            kind: TokenKind::Str,
            val: b,
            ln: st.ln + nl_count(b),
            col: st.col + 2,
        };
        let st_c = LexSt {
            toks: st.toks.push(tok),
            ln: st.ln + nl_count(b),
            col: st.col + 2 + b.len(),
            delim: None,
            buf: Seq::empty(),
        };
        assert(lex_step(st_b, '"') == Ok::<LexSt, crate::err::ErrView>(st_c));
        let st_d = LexSt {
            toks: st.toks.push(tok),
            ln: st.ln + nl_count(b),
            col: st.col + 3 + b.len(),
            delim: None,
            buf: Seq::empty(),
        };
        assert(char_kind(' ') == TokenKind::Space);
        assert(lex_step(st_c, ' ') == Ok::<LexSt, crate::err::ErrView>(st_d));
        assert(cd =~= seq!['"'] + seq![' ']);
        lemma_run_one('"', st_b);
        lemma_run_one(' ', st_c);
        lemma_run_concat(seq!['"'], seq![' '], st_b);
        lemma_run_concat(b, cd, st_a);
        lemma_run_one('"', st);
        lemma_run_concat(a, b + cd, st);
        assert(lex_run(a + (b + cd), st) == Ok::<LexSt, crate::err::ErrView>(st_d));
        assert(st.toks.push(tok).last() == tok);
    } else if t.val.len() == 1 && char_kind(t.val[0]) != TokenKind::Invalid {
        let c = t.val[0];
        assert(spec_classify(t.val) == char_kind(c));
        assert(t.kind == char_kind(c));
        assert(c != '"' && c != '`');
        let tok = TokView { kind: t.kind, val: seq![c], ln: st.ln, col: st.col + 1 };
        assert(tok.val =~= t.val);
        let st_a = LexSt {
            toks: st.toks.push(tok),
            ln: st.ln,
            col: st.col + 1,
            delim: None,
            buf: Seq::empty(),
        };
        assert(lex_flush(st.toks, st.buf, st.ln, st.col + 1) == Ok::<_, crate::err::ErrView>(
            st.toks,
        ));
        assert(lex_step(st, c) == Ok::<LexSt, crate::err::ErrView>(st_a));
        let st_b = LexSt {
            toks: st.toks.push(tok),
            ln: st.ln,
            col: st.col + 2,
            delim: None,
            buf: Seq::empty(),
        };
        assert(char_kind(' ') == TokenKind::Space);
        assert(lex_step(st_a, ' ') == Ok::<LexSt, crate::err::ErrView>(st_b));
        assert(spelling(t) + seq![' '] =~= seq![c] + seq![' ']);
        lemma_run_one(c, st);
        lemma_run_one(' ', st_a);
        lemma_run_concat(seq![c], seq![' '], st);
        assert(lex_run(seq![c] + seq![' '], st) == Ok::<LexSt, crate::err::ErrView>(st_b));
        assert(st.toks.push(tok).last() == tok);
    } else {
        lemma_wf_buffer_chars(t);
        lemma_run_buffer(t.val, st);
        let st_a = LexSt {
            toks: st.toks,
            ln: st.ln,
            col: st.col + t.val.len(),
            delim: None,
            buf: st.buf + t.val,
        };
        assert(st.buf + t.val =~= t.val);
        let tok = TokView { kind: t.kind, val: t.val, ln: st.ln, col: st.col + 1 };
        let st_b = LexSt {
            toks: st.toks.push(tok),
            ln: st.ln,
            col: st.col + t.val.len() + 1,
            delim: None,
            buf: Seq::empty(),
        };
        assert(char_kind(' ') == TokenKind::Space);
        assert(lex_flush(st_a.toks, st_a.buf, st_a.ln, st_a.col + 1) == Ok::<
            _,
            crate::err::ErrView,
        >(st.toks.push(tok)));
        assert(lex_step(st_a, ' ') == Ok::<LexSt, crate::err::ErrView>(st_b));
        lemma_run_one(' ', st_a);
        lemma_run_concat(t.val, seq![' '], st);
        assert(spelling(t) + seq![' '] =~= t.val + seq![' ']);
        assert(lex_run(t.val + seq![' '], st) == Ok::<LexSt, crate::err::ErrView>(st_b));
        assert(st.toks.push(tok).last() == tok);
    }
}

/// Consuming the spellings of well-formed tokens, each followed by a space,
/// from a state between tokens, emits exactly those kinds and texts in order.
proof fn lemma_recon_sp(ts: Seq<TokView>, st: LexSt)
    requires
        clean(st),
        forall|i: int| 0 <= i < ts.len() ==> wf_tok(#[trigger] ts[i]),
    ensures
        ({
            let r = lex_run(recon_sp(ts), st);
            &&& r is Ok
            &&& clean(r->Ok_0)
            &&& r->Ok_0.toks.len() == st.toks.len() + ts.len()
            &&& forall|i: int| 0 <= i < st.toks.len() ==> r->Ok_0.toks[i] == st.toks[i]
            &&& forall|i: int|
                0 <= i < ts.len() ==> (#[trigger] ts[i]).kind == r->Ok_0.toks[st.toks.len() + i].kind
                    && ts[i].val == r->Ok_0.toks[st.toks.len() + i].val
        }),
    decreases ts.len(),
{
    if ts.len() == 0 {
        assert(lex_run(recon_sp(ts), st) == Ok::<LexSt, crate::err::ErrView>(st));
    } else {
        assert(recon_sp(ts) =~= (spelling(ts[0]) + seq![' ']) + recon_sp(ts.drop_first()));
        lemma_spell_sp(ts[0], st);
        let st1 = lex_run(spelling(ts[0]) + seq![' '], st)->Ok_0;
        assert(forall|i: int|
            0 <= i < ts.drop_first().len() ==> ts.drop_first()[i] == ts[i + 1]);
        lemma_recon_sp(ts.drop_first(), st1);
        lemma_run_concat(spelling(ts[0]) + seq![' '], recon_sp(ts.drop_first()), st);
        let r = lex_run(recon_sp(ts), st);
        let res = r->Ok_0;
        assert(st1.toks == st.toks.push(st1.toks.last()));
        assert(st1.toks.len() == st.toks.len() + 1);
        assert forall|i: int| 0 <= i < st.toks.len() implies res.toks[i] == st.toks[i] by {
            assert(res.toks[i] == st1.toks[i]);
            assert(st1.toks[i] == st.toks.push(st1.toks.last())[i]);
        }
        assert forall|i: int| 0 <= i < ts.len() implies (#[trigger] ts[i]).kind
            == res.toks[st.toks.len() + i].kind && ts[i].val == res.toks[st.toks.len() + i].val by {
            if i == 0 {
                assert(res.toks[st.toks.len() as int] == st1.toks[st.toks.len() as int]);
            } else {
                assert(ts.drop_first()[i - 1] == ts[i]);
            }
        }
    }
}

/// A split of the interior join: everything but the last token, each
/// followed by a space, then the last token's spelling.
proof fn lemma_recon_split(ts: Seq<TokView>)
    requires
        ts.len() > 0,
    ensures
        recon(ts) == recon_sp(ts.drop_last()) + spelling(ts.last()),
    decreases ts.len(),
{
    if ts.len() == 1 {
        assert(ts.drop_last() =~= Seq::<TokView>::empty());
        assert(recon_sp(ts.drop_last()) + spelling(ts.last()) =~= spelling(ts[0]));
    } else {
        lemma_recon_split(ts.drop_first());
        assert(ts.drop_first().drop_last() =~= ts.drop_last().drop_first());
        assert(ts.drop_first().last() == ts.last());
        assert(ts.drop_last()[0] == ts[0]);
        assert(ts.drop_last().len() > 0);
        assert(recon_sp(ts.drop_last()) == spelling(ts[0]) + seq![' '] + recon_sp(
            ts.drop_last().drop_first(),
        ));
        assert(spelling(ts[0]) + seq![' '] + (recon_sp(ts.drop_last().drop_first()) + spelling(
            ts.last(),
        )) =~= (spelling(ts[0]) + seq![' '] + recon_sp(ts.drop_last().drop_first())) + spelling(
            ts.last(),
        ));
    }
}

/// Consuming the spelling of one well-formed token and then reaching the end
/// of input, from a state between tokens, yields that token and then the
/// end-of-input token.
proof fn lemma_spell_end(t: TokView, st: LexSt)
    requires
        wf_tok(t),
        clean(st),
    ensures
        ({
            let r = lex_run(spelling(t), st);
            &&& r is Ok
            &&& lex_end(r->Ok_0) is Ok
            &&& ({
                let ts2 = lex_end(r->Ok_0)->Ok_0;
                &&& ts2.len() == st.toks.len() + 2
                &&& (forall|i: int| 0 <= i < st.toks.len() ==> ts2[i] == st.toks[i])
                &&& ts2[st.toks.len() as int].kind == t.kind
                &&& ts2[st.toks.len() as int].val == t.val
                &&& ts2.last().kind == TokenKind::Eof
            })
        }),
{
    if t.kind == TokenKind::Str {
        let a = seq!['"'];
        let b = t.val;
        assert(spelling(t) =~= a + (b + seq!['"']));
        let st_a = LexSt {
            toks: st.toks,
            ln: st.ln,
            col: st.col + 1,
            delim: Some('"'),
            buf: st.buf,
        };
        assert(lex_step(st, '"') == Ok::<LexSt, crate::err::ErrView>(st_a));
        lemma_run_string_content(b, st_a);
        let st_b = LexSt {
            toks: st.toks,
            ln: st.ln + nl_count(b),
            col: st.col + 1 + b.len(),
            delim: Some('"'),
            buf: st.buf + b,
        };
        assert(st.buf + b =~= b);
        let tok = TokView {
            kind: TokenKind::Str,
            val: b,
            ln: st.ln + nl_count(b),
            col: st.col + 2,
        };
        let st_c = LexSt {
            toks: st.toks.push(tok),
            ln: st.ln + nl_count(b),
            col: st.col + 2 + b.len(),
            delim: None,
            buf: Seq::empty(),
        };
        assert(lex_step(st_b, '"') == Ok::<LexSt, crate::err::ErrView>(st_c));
        lemma_run_one('"', st_b);
        lemma_run_concat(b, seq!['"'], st_a);
        lemma_run_one('"', st);
        lemma_run_concat(a, b + seq!['"'], st);
        assert(lex_run(spelling(t), st) == Ok::<LexSt, crate::err::ErrView>(st_c));
        let eof = TokView {
            kind: TokenKind::Eof,
            val: Seq::empty(),
            ln: st_c.ln,
            col: st_c.col + 1,
        };
        assert(lex_end(st_c) == Ok::<_, crate::err::ErrView>(st.toks.push(tok).push(eof)));
        assert(st.toks.push(tok).push(eof)[st.toks.len() as int] == tok);
        assert(st.toks.push(tok).push(eof).last() == eof);
    } else if t.val.len() == 1 && char_kind(t.val[0]) != TokenKind::Invalid {
        let c = t.val[0];
        assert(spec_classify(t.val) == char_kind(c));
        assert(c != '"' && c != '`');
        let tok = TokView { kind: t.kind, val: seq![c], ln: st.ln, col: st.col + 1 };
        assert(tok.val =~= t.val);
        let st_a = LexSt {
            toks: st.toks.push(tok),
            ln: st.ln,
            col: st.col + 1,
            delim: None,
            buf: Seq::empty(),
        };
        assert(lex_flush(st.toks, st.buf, st.ln, st.col + 1) == Ok::<_, crate::err::ErrView>(
            st.toks,
        ));
        assert(lex_step(st, c) == Ok::<LexSt, crate::err::ErrView>(st_a));
        lemma_run_one(c, st);
        assert(spelling(t) =~= seq![c]);
        assert(lex_run(spelling(t), st) == Ok::<LexSt, crate::err::ErrView>(st_a));
        let eof = TokView {
            kind: TokenKind::Eof,
            val: Seq::empty(),
            ln: st_a.ln,
            col: st_a.col + 1,
        };
        assert(lex_end(st_a) == Ok::<_, crate::err::ErrView>(st.toks.push(tok).push(eof)));
        assert(st.toks.push(tok).push(eof)[st.toks.len() as int] == tok);
        assert(st.toks.push(tok).push(eof).last() == eof);
    } else {
        lemma_wf_buffer_chars(t);
        lemma_run_buffer(t.val, st);
        let st_a = LexSt {
            toks: st.toks,
            ln: st.ln,
            col: st.col + t.val.len(),
            delim: None,
            buf: st.buf + t.val,
        };
        assert(st.buf + t.val =~= t.val);
        assert(lex_run(spelling(t), st) == Ok::<LexSt, crate::err::ErrView>(st_a));
        let tok = TokView { kind: t.kind, val: t.val, ln: st.ln, col: st.col + 1 };
        assert(lex_flush(st_a.toks, st_a.buf, st_a.ln, st_a.col + 1) == Ok::<
            _,
            crate::err::ErrView,
        >(st.toks.push(tok)));
        let eof = TokView {
            kind: TokenKind::Eof,
            val: Seq::empty(),
            ln: st_a.ln,
            col: st_a.col + 1,
        };
        assert(lex_end(st_a) == Ok::<_, crate::err::ErrView>(st.toks.push(tok).push(eof)));
        assert(st.toks.push(tok).push(eof)[st.toks.len() as int] == tok);
        assert(st.toks.push(tok).push(eof).last() == eof);
    }
}

/// Round-trip idempotence: re-tokenizing the textual reconstruction of any
/// sequence of well-formed tokens (joining them with single spaces,
/// re-quoting string literals) succeeds and yields tokens of the same kinds
/// with the same texts, in order, followed by the end-of-input token.
pub proof fn lemma_round_trip(ts: Seq<TokView>)
    requires
        forall|i: int| 0 <= i < ts.len() ==> wf_tok(#[trigger] ts[i]),
    ensures
        ({
            let r = spec_tokenize(recon(ts));
            &&& r is Ok
            &&& r->Ok_0.len() == ts.len() + 1
            &&& (forall|i: int|
                0 <= i < ts.len() ==> (#[trigger] ts[i]).kind == r->Ok_0[i].kind && ts[i].val
                    == r->Ok_0[i].val)
            &&& r->Ok_0.last().kind == TokenKind::Eof
        }),
{
    if ts.len() == 0 {
        assert(lex_run(recon(ts), init_state()) == Ok::<LexSt, crate::err::ErrView>(init_state()));
        let eof = TokView { kind: TokenKind::Eof, val: Seq::empty(), ln: 1, col: 1 };
        assert(lex_end(init_state()) == Ok::<_, crate::err::ErrView>(
            init_state().toks.push(eof),
        ));
        assert(init_state().toks.push(eof).last() == eof);
    } else {
        lemma_recon_split(ts);
        assert(forall|i: int|
            0 <= i < ts.drop_last().len() ==> ts.drop_last()[i] == ts[i]);
        lemma_recon_sp(ts.drop_last(), init_state());
        let st1 = lex_run(recon_sp(ts.drop_last()), init_state())->Ok_0;
        lemma_spell_end(ts.last(), st1);
        lemma_run_concat(recon_sp(ts.drop_last()), spelling(ts.last()), init_state());
        let st2 = lex_run(recon(ts), init_state())->Ok_0;
        let ts2 = lex_end(st2)->Ok_0;
        assert(st1.toks.len() == ts.len() - 1);
        assert forall|i: int| 0 <= i < ts.len() implies (#[trigger] ts[i]).kind == ts2[i].kind
            && ts[i].val == ts2[i].val by {
            if i < ts.len() - 1 {
                assert(ts.drop_last()[i] == ts[i]);
                assert(ts2[i] == st1.toks[i]);
            } else {
                assert(ts2[st1.toks.len() as int].kind == ts.last().kind);
            }
        }
    }
}

} // verus!

