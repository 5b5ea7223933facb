//! Tokens and the token classifier.
//!
//! A token is the smallest lexical unit: a kind, the raw text it was made
//! from, and the 1-based line and column of its first character.  The
//! classifier maps a text fragment (a single character or an accumulated
//! buffer) to a token kind together with a "hard separator" flag; a hard
//! separator always ends whatever text is being accumulated.

use vstd::prelude::*;

verus! {

/// The closed set of token categories: the end-of-input sentinel, dictionary
/// tokens (identifier, integer, boolean, string literal), keywords,
/// punctuation, and whitespace.  `Invalid` is the classifier's answer for an
/// unclassifiable fragment and never appears in a token sequence produced by
/// the lexer.  `Float` is synthesized by the parser for dotted numeric
/// literals and is never produced by the classifier either.
#[derive(Clone, Copy, Debug, PartialEq, Eq, Structural)]
pub enum TokenKind {
    Invalid,
    Eof,
    Ident,
    Int,
    Bool,
    Str,
    Float,
    Fix,
    Var,
    Equal,
    Plus,
    Minus,
    Mul,
    Div,
    Less,
    Gt,
    Not,
    Col,
    Semcol,
    Dot,
    Comma,
    Lparen,
    Rparen,
    Lbrace,
    Rbrace,
    Lsqb,
    Rsqb,
    Pipe,
    Amp,
    Caret,
    Percent,
    Hash,
    Dquote,
    Squote,
    Tick,
    Bslash,
    Tilde,
    Space,
    Tab,
    Eol,
}

/// One token: its kind, its raw text, and the 1-based line and column of its
/// first character.
#[derive(Debug, PartialEq)]
pub struct Tok {
    pub id: TokenKind,
    pub val: String,
    pub ln: u32,
    pub col: u32,
}

/// The mathematical image of a token: the same fields over `Seq<char>` and `int`.
pub struct TokView {
    pub kind: TokenKind,
    pub val: Seq<char>,
    pub ln: int,
    pub col: int,
}

impl View for Tok {
    type V = TokView;

    open spec fn view(&self) -> TokView {
        TokView { kind: self.id, val: self.val@, ln: self.ln as int, col: self.col as int }
    }
}

/// The views of a sequence of tokens, in order.
pub open spec fn tok_views(s: Seq<Tok>) -> Seq<TokView> {
    s.map_values(|t: Tok| t@)
}

pub proof fn lemma_tok_views_push(s: Seq<Tok>, t: Tok)
    ensures
        tok_views(s.push(t)) == tok_views(s).push(t@),
{
    assert(tok_views(s.push(t)) =~= tok_views(s).push(t@));
}

impl Clone for Tok {
    fn clone(&self) -> (r: Self)
        ensures
            r@ == self@,
    {
        Tok { id: self.id, val: self.val.clone(), ln: self.ln, col: self.col }
    }
}

/// The kind a single character maps to in the classifier's fixed table, or
/// `Invalid` when the character is not in the table.
pub open spec fn char_kind(c: char) -> TokenKind {
    match c {
        '=' => TokenKind::Equal,
        '+' => TokenKind::Plus,
        '-' => TokenKind::Minus,
        '*' => TokenKind::Mul,
        '/' => TokenKind::Div,
        '<' => TokenKind::Less,
        '>' => TokenKind::Gt,
        '!' => TokenKind::Not,
        ':' => TokenKind::Col,
        ';' => TokenKind::Semcol,
        '.' => TokenKind::Dot,
        ',' => TokenKind::Comma,
        '(' => TokenKind::Lparen,
        ')' => TokenKind::Rparen,
        '{' => TokenKind::Lbrace,
        '}' => TokenKind::Rbrace,
        '[' => TokenKind::Lsqb,
        ']' => TokenKind::Rsqb,
        '|' => TokenKind::Pipe,
        '&' => TokenKind::Amp,
        '^' => TokenKind::Caret,
        '%' => TokenKind::Percent,
        '#' => TokenKind::Hash,
        '"' => TokenKind::Dquote,
        '\'' => TokenKind::Squote,
        '`' => TokenKind::Tick,
        '\\' => TokenKind::Bslash,
        '~' => TokenKind::Tilde,
        ' ' => TokenKind::Space,
        '\t' => TokenKind::Tab,
        '\n' => TokenKind::Eol,
        _ => TokenKind::Invalid,
    }
}

/// Whether a kind is a hard separator: punctuation, whitespace and the
/// end-of-input sentinel are; dictionary tokens and keywords are not.
pub open spec fn spec_is_sep(k: TokenKind) -> bool {
    match k {
        TokenKind::Invalid
        | TokenKind::Ident
        | TokenKind::Int
        | TokenKind::Bool
        | TokenKind::Str
        | TokenKind::Float
        | TokenKind::Fix
        | TokenKind::Var => false,
        _ => true,
    }
}

pub open spec fn is_letter(c: char) -> bool {
    (65 <= c as u32 && c as u32 <= 90) || (97 <= c as u32 && c as u32 <= 122)
}

pub open spec fn is_digit(c: char) -> bool {
    48 <= c as u32 && c as u32 <= 57
}

pub open spec fn is_ident_start(c: char) -> bool {
    c == '_' || is_letter(c)
}

pub open spec fn is_ident_char(c: char) -> bool {
    is_ident_start(c) || is_digit(c)
}

/// Identifier shape: an ASCII letter or underscore, then ASCII letters,
/// digits or underscores.
pub open spec fn spec_is_ident(s: Seq<char>) -> bool {
    s.len() > 0 && is_ident_start(s[0]) && (forall|i: int|
        1 <= i < s.len() ==> is_ident_char(#[trigger] s[i]))
}

/// Integer shape: one or more ASCII digits.
pub open spec fn spec_is_int(s: Seq<char>) -> bool {
    s.len() > 0 && (forall|i: int| 0 <= i < s.len() ==> is_digit(#[trigger] s[i]))
}

/// The classifier's resolution order: the fixed table of literal fragments
/// first (single-character entries, then the dictionary and keyword words),
/// then identifier shape, then integer shape, and `Invalid` otherwise.
pub open spec fn spec_classify(s: Seq<char>) -> TokenKind {
    if s.len() == 1 && char_kind(s[0]) != TokenKind::Invalid {
        char_kind(s[0])
    } else if s == "EOF"@ {
        TokenKind::Eof
    } else if s == "ident"@ {
        TokenKind::Ident
    } else if s == "int"@ {
        TokenKind::Int
    } else if s == "bool"@ {
        TokenKind::Bool
    } else if s == "str"@ {
        TokenKind::Str
    } else if s == "fix"@ {
        TokenKind::Fix
    } else if s == "var"@ {
        TokenKind::Var
    } else if spec_is_ident(s) {
        TokenKind::Ident
    } else if spec_is_int(s) {
        TokenKind::Int
    } else {
        TokenKind::Invalid
    }
}

/// The single-character half of the classifier table.
pub(crate) fn char_id(c: char) -> (k: TokenKind)
    ensures
        k == char_kind(c),
{
    match c {
        '=' => TokenKind::Equal,
        '+' => TokenKind::Plus,
        '-' => TokenKind::Minus,
        '*' => TokenKind::Mul,
        '/' => TokenKind::Div,
        '<' => TokenKind::Less,
        '>' => TokenKind::Gt,
        '!' => TokenKind::Not,
        ':' => TokenKind::Col,
        ';' => TokenKind::Semcol,
        '.' => TokenKind::Dot,
        ',' => TokenKind::Comma,
        '(' => TokenKind::Lparen,
        ')' => TokenKind::Rparen,
        '{' => TokenKind::Lbrace,
        '}' => TokenKind::Rbrace,
        '[' => TokenKind::Lsqb,
        ']' => TokenKind::Rsqb,
        '|' => TokenKind::Pipe,
        '&' => TokenKind::Amp,
        '^' => TokenKind::Caret,
        '%' => TokenKind::Percent,
        '#' => TokenKind::Hash,
        '"' => TokenKind::Dquote,
        '\'' => TokenKind::Squote,
        '`' => TokenKind::Tick,
        '\\' => TokenKind::Bslash,
        '~' => TokenKind::Tilde,
        ' ' => TokenKind::Space,
        '\t' => TokenKind::Tab,
        '\n' => TokenKind::Eol,
        _ => TokenKind::Invalid,
    }
}

fn is_sep_kind(k: TokenKind) -> (b: bool)
    ensures
        b == spec_is_sep(k),
{
    match k {
        TokenKind::Invalid
        | TokenKind::Ident
        | TokenKind::Int
        | TokenKind::Bool
        | TokenKind::Str
        | TokenKind::Float
        | TokenKind::Fix
        | TokenKind::Var => false,
        _ => true,
    }
}

/// Character-by-character string equality.
fn eq_word(s: &str, w: &str) -> (b: bool)
    ensures
        b == (s@ == w@),
{
    let ns = s.unicode_len();
    let nw = w.unicode_len();
    if ns != nw {
        proof {
            assert(s@ != w@) by {
                if s@ == w@ {
                    assert(s@.len() == w@.len());
                }
            }
        }
        return false;
    }
    for i in 0..ns
        invariant
            ns == s@.len(),
            ns == w@.len(),
            forall|j: int| 0 <= j < i ==> s@[j] == w@[j],
    {
        if s.get_char(i) != w.get_char(i) {
            return false;
        }
    }
    proof {
        assert(s@ =~= w@);
    }
    true
}

/// Identifier-shape check: first character an ASCII letter or underscore,
/// the rest ASCII letters, digits or underscores.
pub fn is_ident(tok: &str) -> (b: bool)
    ensures
        b == spec_is_ident(tok@),
{
    let n = tok.unicode_len();
    if n == 0 {
        return false;
    }
    let first = tok.get_char(0);
    if !(first == '_' || (65 <= first as u32 && first as u32 <= 90) || (97 <= first as u32
        && first as u32 <= 122)) {
        return false;
    }
    for i in 1..n
        invariant
            n == tok@.len(),
            n >= 1,
            is_ident_start(tok@[0]),
            forall|j: int| 1 <= j < i ==> is_ident_char(#[trigger] tok@[j]),
    {
        let c = tok.get_char(i);
        let u = c as u32;
        if !(c == '_' || (65 <= u && u <= 90) || (97 <= u && u <= 122) || (48 <= u && u <= 57)) {
            return false;
        }
    }
    true
}

/// Integer-shape check: one or more ASCII digits.
pub fn is_int(tok: &str) -> (b: bool)
    ensures
        b == spec_is_int(tok@),
{
    let n = tok.unicode_len();
    if n == 0 {
        return false;
    }
    for i in 0..n
        invariant
            n == tok@.len(),
            forall|j: int| 0 <= j < i ==> is_digit(#[trigger] tok@[j]),
    {
        let c = tok.get_char(i);
        let u = c as u32;
        if !(48 <= u && u <= 57) {
            return false;
        }
    }
    true
}

/// The classifier: the kind of a text fragment and whether that kind is a
/// hard separator.
pub fn id(name: &str) -> (r: (TokenKind, bool))
    ensures
        r.0 == spec_classify(name@),
        r.1 == spec_is_sep(r.0),
{
    let n = name.unicode_len();
    if n == 1 {
        let c = name.get_char(0);
        let k = char_id(c);
        proof {
            reveal_strlit("EOF");
            reveal_strlit("ident");
            reveal_strlit("int");
            reveal_strlit("bool");
            reveal_strlit("str");
            reveal_strlit("fix");
            reveal_strlit("var");
        }
        if !matches!(k, TokenKind::Invalid) {
            return (k, is_sep_kind(k));
        }
        let u = c as u32;
        if c == '_' || (65 <= u && u <= 90) || (97 <= u && u <= 122) {
            proof {
                assert(spec_is_ident(name@));
            }
            return (TokenKind::Ident, false);
        }
        if 48 <= u && u <= 57 {
            proof {
                assert(!spec_is_ident(name@));
                assert(spec_is_int(name@));
            }
            return (TokenKind::Int, false);
        }
        proof {
            assert(!spec_is_ident(name@));
            assert(!spec_is_int(name@));
        }
        return (TokenKind::Invalid, false);
    }
    if eq_word(name, "EOF") {
        return (TokenKind::Eof, true);
    }
    if eq_word(name, "ident") {
        return (TokenKind::Ident, false);
    }
    if eq_word(name, "int") {
        return (TokenKind::Int, false);
    }
    if eq_word(name, "bool") {
        return (TokenKind::Bool, false);
    }
    if eq_word(name, "str") {
        return (TokenKind::Str, false);
    }
    if eq_word(name, "fix") {
        return (TokenKind::Fix, false);
    }
    if eq_word(name, "var") {
        return (TokenKind::Var, false);
    }
    if is_ident(name) {
        return (TokenKind::Ident, false);
    }
    if is_int(name) {
        return (TokenKind::Int, false);
    }
    (TokenKind::Invalid, false)
}

} // verus!
