//! The lexer: one forward pass over the source text, producing an ordered
//! token sequence terminated by exactly one end-of-input token, or a
//! positioned diagnostic.
//!
//! The pass keeps an accumulation buffer, a running line and column counter,
//! and a string mode.  Outside string mode, a hard-separator character first
//! flushes the buffer as a token (classifying the whole buffer) and is then
//! emitted as its own token; whitespace separators are consumed for position
//! tracking only and never appear in the output.  A double quote or backtick
//! opens string mode; everything up to the matching delimiter is taken
//! verbatim as one string-literal token.  The whole behaviour is given by the
//! state machine `lex_step` / `lex_end`, and `tokenize` returns exactly what
//! that machine computes.

use vstd::prelude::*;

use crate::err::Error;
use crate::err::ErrView;
use crate::err::err_matches;
use crate::tok;
use crate::tok::Tok;
use crate::tok::TokView;
use crate::tok::TokenKind;
use crate::tok::char_kind;
use crate::tok::spec_classify;
use crate::tok::tok_views;
use crate::tok::lemma_tok_views_push;

verus! {

/// A 128-entry per-byte permission table: a passive value container letting
/// a caller restrict which raw byte values it accepts in source text before
/// handing the text over.  It does not affect token shapes.
#[derive(Debug)]
pub struct Config {
    pub allow: [u8; 128],
}

/// The lexer itself holds only the caller's configuration.
#[derive(Debug)]
pub struct Lexer<'a> {
    pub cfg: &'a Config,
}

/// A source unit: an opaque logical name and the full source text.
#[derive(Debug)]
pub struct Input<'a> {
    pub name: &'a str,
    pub code: &'a str,
}

/// A tokenized source unit, ready for the parser.
#[derive(Debug)]
pub struct Output {
    pub name: String,
    pub toks: Vec<Tok>,
}

/// The lexer's whole state between two characters: the tokens emitted so
/// far, the 1-based line counter, the characters-consumed-since-line-start
/// column counter, the delimiter that will close the open string literal (if
/// one is open), and the accumulation buffer.
pub struct LexSt {
    pub toks: Seq<TokView>,
    pub ln: int,
    pub col: int,
    pub delim: Option<char>,
    pub buf: Seq<char>,
}

pub open spec fn init_state() -> LexSt {
    LexSt { toks: Seq::empty(), ln: 1, col: 0, delim: None, buf: Seq::empty() }
}

/// Flushing the buffer outside string mode, with `col2` the column just past
/// the buffered text: an empty buffer flushes to nothing; an unclassifiable
/// buffer fails, pointing at the buffered text's first character; otherwise
/// the classified buffer becomes one token.
pub open spec fn lex_flush(toks: Seq<TokView>, buf: Seq<char>, ln: int, col2: int) -> Result<
    Seq<TokView>,
    ErrView,
> {
    if buf.len() == 0 {
        Ok(toks)
    } else {
        let k = spec_classify(buf);
        if k == TokenKind::Invalid {
            Err(ErrView { text: "invalid token: "@ + buf, line: ln, col: col2 - buf.len() })
        } else {
            Ok(toks.push(TokView { kind: k, val: buf, ln, col: col2 - buf.len() }))
        }
    }
}

/// One character of lexing.  In string mode every character other than the
/// remembered closing delimiter is buffered verbatim (line breaks still
/// count lines); the closing delimiter flushes the buffer as one
/// string-literal token, bypassing classification.  Outside string mode a
/// double quote or backtick opens string mode without being buffered; a
/// hard-separator character flushes the buffer and is then emitted itself,
/// except that whitespace is dropped and an end-of-line additionally steps
/// the line counter and resets the column; any other character is buffered.
pub open spec fn lex_step(st: LexSt, c: char) -> Result<LexSt, ErrView> {
    let col2 = st.col + 1;
    match st.delim {
        Some(d) => {
            if c != d {
                let ln2 = if c == '\n' {
                    st.ln + 1
                } else {
                    st.ln
                };
                Ok(LexSt { toks: st.toks, ln: ln2, col: col2, delim: st.delim, buf: st.buf.push(c) })
            } else {
                let toks2 = if st.buf.len() == 0 {
                    st.toks
                } else {
                    st.toks.push(
                        TokView {
                            kind: TokenKind::Str,
                            val: st.buf,
                            ln: st.ln,
                            col: col2 - st.buf.len(),
                        },
                    )
                };
                Ok(LexSt { toks: toks2, ln: st.ln, col: col2, delim: None, buf: Seq::empty() })
            }
        },
        None => {
            if c == '"' || c == '`' {
                Ok(LexSt { toks: st.toks, ln: st.ln, col: col2, delim: Some(c), buf: st.buf })
            } else {
                let k = char_kind(c);
                if k == TokenKind::Invalid {
                    Ok(
                        LexSt {
                            toks: st.toks,
                            ln: st.ln,
                            col: col2,
                            delim: None,
                            buf: st.buf.push(c),
                        },
                    )
                } else {
                    match lex_flush(st.toks, st.buf, st.ln, col2) {
                        Err(e) => Err(e),
                        Ok(toks2) => {
                            let toks3 = if k == TokenKind::Space || k == TokenKind::Tab || k
                                == TokenKind::Eol {
                                toks2
                            } else {
                                toks2.push(
                                    TokView { kind: k, val: seq![c], ln: st.ln, col: col2 },
                                )
                            };
                            if k == TokenKind::Eol {
                                Ok(
                                    LexSt {
                                        toks: toks3,
                                        ln: st.ln + 1,
                                        col: 0,
                                        delim: None,
                                        buf: Seq::empty(),
                                    },
                                )
                            } else {
                                Ok(
                                    LexSt {
                                        toks: toks3,
                                        ln: st.ln,
                                        col: col2,
                                        delim: None,
                                        buf: Seq::empty(),
                                    },
                                )
                            }
                        },
                    }
                }
            }
        },
    }
}

/// End of input: failing if a string literal is still open, otherwise
/// flushing any trailing buffered text and appending exactly one
/// end-of-input token.
pub open spec fn lex_end(st: LexSt) -> Result<Seq<TokView>, ErrView> {
    let col2 = st.col + 1;
    if st.delim is Some {
        Err(ErrView { text: "unexpected end of file"@, line: st.ln, col: col2 })
    } else {
        match lex_flush(st.toks, st.buf, st.ln, col2) {
            Err(e) => Err(e),
            Ok(toks2) => Ok(
                toks2.push(TokView { kind: TokenKind::Eof, val: Seq::empty(), ln: st.ln, col: col2 }),
            ),
        }
    }
}

/// Running the machine over a whole remaining text.
pub open spec fn lex_run(code: Seq<char>, st: LexSt) -> Result<LexSt, ErrView>
    decreases code.len(),
{
    if code.len() == 0 {
        Ok(st)
    } else {
        match lex_step(st, code[0]) {
            Ok(st2) => lex_run(code.drop_first(), st2),
            Err(e) => Err(e),
        }
    }
}

/// What tokenizing a source text yields: the token sequence of a full run
/// from the initial state, finished by `lex_end`, or the first failure.
pub open spec fn spec_tokenize(code: Seq<char>) -> Result<Seq<TokView>, ErrView> {
    match lex_run(code, init_state()) {
        Ok(st) => lex_end(st),
        Err(e) => Err(e),
    }
}

/// Relies on String::push: appends the given character at the end.
#[verifier::external_body]
fn push_char(s: &mut String, c: char)
    ensures
        final(s)@ == old(s)@.push(c),
{
    s.push(c);
}

impl<'a> Lexer<'a> {
    pub fn new(cfg: &'a Config) -> (r: Self)
        ensures
            r.cfg == cfg,
    {
        Self { cfg: cfg }
    }

    /// One forward pass over `input.code`, returning exactly what the
    /// `lex_step` / `lex_end` machine computes: on success the token
    /// sequence, which ends with exactly one end-of-input token; on failure
    /// the machine's diagnostic under the source's name.  The source must be
    /// shorter than the `u32` line and column counters can count.
    pub fn tokenize(&self, input: &Input) -> (r: Result<Vec<Tok>, Error>)
        requires
            input.code@.len() < 0xFFFF_FFFF,
        ensures
            match r {
                Ok(toks) => spec_tokenize(input.code@) matches Ok(ts) && tok_views(toks@) == ts
                    && toks@.len() >= 1 && toks@[toks@.len() - 1].id == TokenKind::Eof,
                Err(e) => spec_tokenize(input.code@) matches Err(le) && err_matches(&e, le)
                    && e.name@ == input.name@,
            },
    {
        let code = input.code;
        let n = code.unicode_len();
        let mut tokens: Vec<Tok> = Vec::new();
        let mut ln: u32 = 1;
        let mut col: u32 = 0;
        let mut delim: Option<char> = None;
        let mut buf = String::new();
        let mut blen: usize = 0;

        proof {
            assert(tok_views(tokens@) =~= Seq::<TokView>::empty());
            assert(code@.skip(0) =~= code@);
        }

        for i in 0..n
            invariant
                code@ == input.code@,
                n == code@.len(),
                n < 0xFFFF_FFFF,
                blen == buf@.len(),
                buf@.len() <= col as int,
                col as int <= i as int,
                ln as int <= i as int + 1,
                lex_run(code@, init_state()) == lex_run(
                    code@.skip(i as int),
                    LexSt {
                        toks: tok_views(tokens@),
                        ln: ln as int,
                        col: col as int,
                        delim: delim,
                        buf: buf@,
                    },
                ),
        {
            let ghost st = LexSt {
                toks: tok_views(tokens@),
                ln: ln as int,
                col: col as int,
                delim: delim,
                buf: buf@,
            };
            let c = code.get_char(i);
            proof {
                assert(code@.skip(i as int)[0] == code@[i as int]);
                assert(code@.skip(i as int).drop_first() =~= code@.skip(i as int + 1));
            }
            match delim {
                Some(d) => {
                    if c != d {
                        push_char(&mut buf, c);
                        blen = blen + 1;
                        if c == '\n' {
                            ln = ln + 1;
                        }
                        col = col + 1;
                    } else {
                        if blen > 0 {
                            let v = buf;
                            buf = String::new();
                            let t = Tok {
                                id: TokenKind::Str,
                                val: v,
                                ln,
                                col: col + 1 - blen as u32,
                            };
                            proof {
                                lemma_tok_views_push(tokens@, t);
                            }
                            tokens.push(t);
                            blen = 0;
                        }
                        delim = None;
                        col = col + 1;
                    }
                },
                None => {
                    if c == '"' || c == '`' {
                        delim = Some(c);
                        col = col + 1;
                    } else {
                        let k = tok::char_id(c);
                        if k == TokenKind::Invalid {
                            push_char(&mut buf, c);
                            blen = blen + 1;
                            col = col + 1;
                        } else {
                            if blen > 0 {
                                let (bk, _sep) = tok::id(buf.as_str());
                                if bk == TokenKind::Invalid {
                                    let text = String::from_str("invalid token: ").concat(
                                        buf.as_str(),
                                    );
                                    proof {
                                        let le = ErrView {
                                            text: "invalid token: "@ + buf@,
                                            line: ln as int,
                                            col: col as int + 1 - blen,
                                        };
                                        assert(lex_step(st, c) == Err::<LexSt, ErrView>(le));
                                        assert(lex_run(code@.skip(i as int), st) == Err::<
                                            LexSt,
                                            ErrView,
                                        >(le));
                                    }
                                    return Err(
                                        Error {
                                            name: input.name.to_owned(),
                                            text,
                                            line: ln,
                                            colm: col + 1 - blen as u32,
                                        },
                                    );
                                }
                                let v = buf;
                                buf = String::new();
                                let t = Tok { id: bk, val: v, ln, col: col + 1 - blen as u32 };
                                proof {
                                    lemma_tok_views_push(tokens@, t);
                                }
                                tokens.push(t);
                                blen = 0;
                            }
                            match k {
                                TokenKind::Space | TokenKind::Tab => {
                                    col = col + 1;
                                },
                                TokenKind::Eol => {
                                    ln = ln + 1;
                                    col = 0;
                                },
                                _ => {
                                    let mut sv = String::new();
                                    push_char(&mut sv, c);
                                    proof {
                                        assert(sv@ =~= seq![c]);
                                    }
                                    let t = Tok { id: k, val: sv, ln, col: col + 1 };
                                    proof {
                                        lemma_tok_views_push(tokens@, t);
                                    }
                                    tokens.push(t);
                                    col = col + 1;
                                },
                            }
                        }
                    }
                },
            }
            proof {
                if buf@.len() == 0 {
                    assert(buf@ =~= Seq::<char>::empty());
                }
                let st2 = LexSt {
                    toks: tok_views(tokens@),
                    ln: ln as int,
                    col: col as int,
                    delim: delim,
                    buf: buf@,
                };
                assert(lex_step(st, c) == Ok::<LexSt, ErrView>(st2));
                assert(lex_run(code@.skip(i as int), st) == lex_run(
                    code@.skip(i as int + 1),
                    st2,
                ));
            }
        }

        proof {
            assert(code@.skip(n as int) =~= Seq::<char>::empty());
        }
        if delim.is_some() {
            return Err(
                Error {
                    name: input.name.to_owned(),
                    text: String::from_str("unexpected end of file"),
                    line: ln,
                    colm: col + 1,
                },
            );
        }
        if blen > 0 {
            let (bk, _sep) = tok::id(buf.as_str());
            if bk == TokenKind::Invalid {
                let text = String::from_str("invalid token: ").concat(buf.as_str());
                return Err(
                    Error {
                        name: input.name.to_owned(),
                        text,
                        line: ln,
                        colm: col + 1 - blen as u32,
                    },
                );
            }
            let v = buf;
            let t = Tok { id: bk, val: v, ln, col: col + 1 - blen as u32 };
            proof {
                lemma_tok_views_push(tokens@, t);
            }
            tokens.push(t);
        }
        let t = Tok { id: TokenKind::Eof, val: String::new(), ln, col: col + 1 };
        proof {
            lemma_tok_views_push(tokens@, t);
        }
        tokens.push(t);
        Ok(tokens)
    }
}

} // verus!
