//! Lexer: turns the source text of a cubical program into a flat token
//! stream, each token carrying the line and column where it starts.

use vstd::prelude::*;
use crate::text::{alphabetic, alphanumeric, char_is_alphabetic, char_is_alphanumeric, char_is_digit,
    char_is_space, chars_of, is_digit, is_space, string_of};

verus! {

#[derive(Debug, Clone, PartialEq, Eq)]
pub enum TokenKind {
    Ident(String),
    Int(i32),
    LParen,
    RParen,
    LBrace,
    RBrace,
    LAngle,
    RAngle,
    Colon,
    Comma,
    Dot,
    Arrow,
    FatArrow,
    Pipe,
    At,
    Backslash,
    Star,
    Slash,
    AndSym,
    OrSym,
    Tilde,
    LBracket,
    RBracket,
    Equals,
    String(String),
    Eof,
}

#[derive(Debug, Clone)]
pub struct Token {
    pub kind: TokenKind,
    pub line: usize,
    pub col: usize,
}

/// A lexing or parsing failure, with the line and column it refers to.
#[derive(Debug, Clone)]
pub struct ParseError {
    pub message: String,
    pub line: usize,
    pub col: usize,
}

/// Model of [`TokenKind`].
pub enum KindV {
    Ident(Seq<char>),
    Int(i32),
    LParen,
    RParen,
    LBrace,
    RBrace,
    LAngle,
    RAngle,
    Colon,
    Comma,
    Dot,
    Arrow,
    FatArrow,
    Pipe,
    At,
    Backslash,
    Star,
    Slash,
    AndSym,
    OrSym,
    Tilde,
    LBracket,
    RBracket,
    Equals,
    Str(Seq<char>),
    Eof,
}

pub open spec fn kind_view(k: TokenKind) -> KindV {
    match k {
        TokenKind::Ident(s) => KindV::Ident(s@),
        TokenKind::Int(n) => KindV::Int(n),
        TokenKind::LParen => KindV::LParen,
        TokenKind::RParen => KindV::RParen,
        TokenKind::LBrace => KindV::LBrace,
        TokenKind::RBrace => KindV::RBrace,
        TokenKind::LAngle => KindV::LAngle,
        TokenKind::RAngle => KindV::RAngle,
        TokenKind::Colon => KindV::Colon,
        TokenKind::Comma => KindV::Comma,
        TokenKind::Dot => KindV::Dot,
        TokenKind::Arrow => KindV::Arrow,
        TokenKind::FatArrow => KindV::FatArrow,
        TokenKind::Pipe => KindV::Pipe,
        TokenKind::At => KindV::At,
        TokenKind::Backslash => KindV::Backslash,
        TokenKind::Star => KindV::Star,
        TokenKind::Slash => KindV::Slash,
        TokenKind::AndSym => KindV::AndSym,
        TokenKind::OrSym => KindV::OrSym,
        TokenKind::Tilde => KindV::Tilde,
        TokenKind::LBracket => KindV::LBracket,
        TokenKind::RBracket => KindV::RBracket,
        TokenKind::Equals => KindV::Equals,
        TokenKind::String(s) => KindV::Str(s@),
        TokenKind::Eof => KindV::Eof,
    }
}

/// A token as kind, line and column.
pub open spec fn token_view(t: Token) -> (KindV, nat, nat) {
    (kind_view(t.kind), t.line as nat, t.col as nat)
}

pub open spec fn tokens_view(ts: Seq<Token>) -> Seq<(KindV, nat, nat)> {
    ts.map_values(|t: Token| token_view(t))
}

/// An error as message, line and column.
pub open spec fn error_view(e: ParseError) -> (Seq<char>, nat, nat) {
    (e.message@, e.line as nat, e.col as nat)
}

/// The line of position `p` of `cs`: one more than the newlines before it.
pub open spec fn line_at(cs: Seq<char>, p: nat) -> nat
    decreases p,
{
    if p == 0 || p > cs.len() {
        1
    } else if cs[p - 1] == '\n' {
        line_at(cs, (p - 1) as nat) + 1
    } else {
        line_at(cs, (p - 1) as nat)
    }
}

/// The column of position `p` of `cs`: one more than the characters since
/// the last newline before it.
pub open spec fn col_at(cs: Seq<char>, p: nat) -> nat
    decreases p,
{
    if p == 0 || p > cs.len() {
        1
    } else if cs[p - 1] == '\n' {
        1
    } else {
        col_at(cs, (p - 1) as nat) + 1
    }
}

pub open spec fn ident_start(c: char) -> bool {
    c == '_' || alphabetic(c)
}

pub open spec fn ident_continue(c: char) -> bool {
    c == '_' || c == '\'' || c == '?' || c == '!' || c == '-' || alphanumeric(c)
}

/// The kind of a token that is the single character `c`, if it is one.
pub open spec fn single_kind(c: char) -> Option<KindV> {
    if c == '(' {
        Some(KindV::LParen)
    } else if c == ')' {
        Some(KindV::RParen)
    } else if c == '{' {
        Some(KindV::LBrace)
    } else if c == '}' {
        Some(KindV::RBrace)
    } else if c == '<' || c == '\u{27E8}' {
        Some(KindV::LAngle)
    } else if c == '>' || c == '\u{27E9}' {
        Some(KindV::RAngle)
    } else if c == ':' {
        Some(KindV::Colon)
    } else if c == ',' {
        Some(KindV::Comma)
    } else if c == '.' {
        Some(KindV::Dot)
    } else if c == '|' {
        Some(KindV::Pipe)
    } else if c == '@' {
        Some(KindV::At)
    } else if c == '*' || c == '\u{D7}' {
        Some(KindV::Star)
    } else if c == '[' {
        Some(KindV::LBracket)
    } else if c == ']' {
        Some(KindV::RBracket)
    } else if c == '~' || c == '\u{AC}' {
        Some(KindV::Tilde)
    } else if c == '\u{2227}' {
        Some(KindV::AndSym)
    } else if c == '\u{2228}' {
        Some(KindV::OrSym)
    } else if c == '\u{3BB}' {
        Some(KindV::Backslash)
    } else {
        None
    }
}

/// The position just after the first newline at or after `q`, or the end.
pub open spec fn comment_end(cs: Seq<char>, q: nat) -> nat
    decreases cs.len() - q,
{
    if q >= cs.len() {
        cs.len()
    } else if cs[q as int] == '\n' {
        q + 1
    } else {
        comment_end(cs, q + 1)
    }
}

/// The first position at or after `q` that is not an ASCII digit.
pub open spec fn digits_end(cs: Seq<char>, q: nat) -> nat
    decreases cs.len() - q,
{
    if q >= cs.len() || !is_digit(cs[q as int]) {
        q
    } else {
        digits_end(cs, q + 1)
    }
}

/// The first position at or after `q` that cannot continue an identifier.
pub open spec fn ident_end(cs: Seq<char>, q: nat) -> nat
    decreases cs.len() - q,
{
    if q >= cs.len() || !ident_continue(cs[q as int]) {
        q
    } else {
        ident_end(cs, q + 1)
    }
}

/// The decimal value of a string of ASCII digits.
pub open spec fn digits_value(ds: Seq<char>) -> nat
    decreases ds.len(),
{
    if ds.len() == 0 {
        0
    } else {
        digits_value(ds.drop_last()) * 10 + ((ds.last() as nat) - ('0' as nat)) as nat
    }
}

/// What the lexer does at one position.
pub enum Step {
    /// Nothing is produced; lexing goes on at the position.
    Skip(nat),
    /// A token of this kind is produced; lexing goes on at the position.
    Tok(KindV, nat),
    /// Lexing fails with this message, reported at the position.
    Fail(Seq<char>, nat),
}

pub open spec fn unterminated() -> Seq<char> {
    "unterminated string literal"@
}

/// The rest of a string literal whose contents so far are `acc`, from
/// position `q`; the literal started at `start`.
pub open spec fn string_scan(cs: Seq<char>, q: nat, acc: Seq<char>, start: nat) -> Step
    decreases cs.len() - q,
{
    if q >= cs.len() {
        Step::Fail(unterminated(), start)
    } else if cs[q as int] == '"' {
        Step::Tok(KindV::Str(acc), q + 1)
    } else if cs[q as int] == '\\' {
        if q + 1 >= cs.len() {
            Step::Fail(unterminated(), start)
        } else if cs[q + 1int] == '"' || cs[q + 1int] == '\\' {
            string_scan(cs, q + 2, acc.push(cs[q + 1int]), start)
        } else {
            Step::Fail("invalid escape sequence '\\"@ + seq![cs[q + 1int]] + "'"@, q + 1)
        }
    } else if cs[q as int] == '\n' {
        Step::Fail(unterminated(), start)
    } else {
        string_scan(cs, q + 1, acc.push(cs[q as int]), start)
    }
}

/// Position `p + 1` holds `d`.
pub open spec fn followed_by(cs: Seq<char>, p: nat, d: char) -> bool {
    p + 1 < cs.len() && cs[p + 1int] == d
}

/// What the lexer does at position `p < cs.len()`.
pub open spec fn step(cs: Seq<char>, p: nat) -> Step {
    let c = cs[p as int];
    if is_space(c) {
        Step::Skip(p + 1)
    } else if c == '-' {
        if followed_by(cs, p, '-') {
            Step::Skip(comment_end(cs, p + 1))
        } else if followed_by(cs, p, '>') {
            Step::Tok(KindV::Arrow, p + 2)
        } else {
            Step::Fail("unexpected '-'"@, p)
        }
    } else if c == '=' {
        if followed_by(cs, p, '>') { Step::Tok(KindV::FatArrow, p + 2) } else { Step::Tok(KindV::Equals, p + 1) }
    } else if c == '/' {
        if followed_by(cs, p, '\\') { Step::Tok(KindV::AndSym, p + 2) } else { Step::Tok(KindV::Slash, p + 1) }
    } else if c == '\\' {
        if followed_by(cs, p, '/') { Step::Tok(KindV::OrSym, p + 2) } else { Step::Tok(KindV::Backslash, p + 1) }
    } else if single_kind(c) is Some {
        Step::Tok(single_kind(c)->0, p + 1)
    } else if c == '"' {
        string_scan(cs, p + 1, Seq::empty(), p)
    } else if is_digit(c) {
        let q = digits_end(cs, p);
        let v = digits_value(cs.subrange(p as int, q as int));
        if v <= i32::MAX {
            Step::Tok(KindV::Int(v as i32), q)
        } else {
            Step::Fail("integer literal is too large"@, p)
        }
    } else if ident_start(c) {
        let q = ident_end(cs, p + 1);
        Step::Tok(KindV::Ident(cs.subrange(p as int, q as int)), q)
    } else {
        Step::Fail("unexpected character '"@ + seq![c] + "'"@, p)
    }
}

/// Lexes `cs` from position `p`, after the tokens `acc`: the tokens up to
/// and including the final `Eof`, or the first error.
pub open spec fn lex_from(cs: Seq<char>, p: nat, acc: Seq<(KindV, nat, nat)>) -> Result<Seq<(KindV, nat, nat)>, (Seq<char>, nat, nat)>
    decreases cs.len() - p,
{
    if p >= cs.len() {
        Ok(acc.push((KindV::Eof, line_at(cs, cs.len()), col_at(cs, cs.len()))))
    } else {
        match step(cs, p) {
            Step::Skip(q) => if p < q <= cs.len() { lex_from(cs, q, acc) } else { Ok(acc) },
            Step::Tok(k, q) => if p < q <= cs.len() {
                lex_from(cs, q, acc.push((k, line_at(cs, p), col_at(cs, p))))
            } else {
                Ok(acc)
            },
            Step::Fail(m, e) => Err((m, line_at(cs, e), col_at(cs, e))),
        }
    }
}

proof fn lemma_line_col_bound(cs: Seq<char>, p: nat)
    ensures line_at(cs, p) <= p + 1, col_at(cs, p) <= p + 1,
    decreases p,
{
    if p > 0 {
        lemma_line_col_bound(cs, (p - 1) as nat);
    }
}

proof fn lemma_comment_end(cs: Seq<char>, q: nat)
    requires q <= cs.len(),
    ensures q <= comment_end(cs, q) <= cs.len(),
    decreases cs.len() - q,
{
    if q < cs.len() && cs[q as int] != '\n' {
        lemma_comment_end(cs, q + 1);
    }
}

proof fn lemma_digits_end(cs: Seq<char>, q: nat)
    requires q <= cs.len(),
    ensures q <= digits_end(cs, q) <= cs.len(),
    decreases cs.len() - q,
{
    if q < cs.len() && is_digit(cs[q as int]) {
        lemma_digits_end(cs, q + 1);
    }
}

proof fn lemma_ident_end(cs: Seq<char>, q: nat)
    requires q <= cs.len(),
    ensures q <= ident_end(cs, q) <= cs.len(),
    decreases cs.len() - q,
{
    if q < cs.len() && ident_continue(cs[q as int]) {
        lemma_ident_end(cs, q + 1);
    }
}

proof fn lemma_string_scan(cs: Seq<char>, q: nat, acc: Seq<char>, start: nat)
    requires q <= cs.len(),
    ensures string_scan(cs, q, acc, start) matches Step::Tok(_, r) ==> q < r <= cs.len(),
    decreases cs.len() - q,
{
    if q < cs.len() {
        if cs[q as int] == '\\' {
            if q + 1 < cs.len() && (cs[q + 1int] == '"' || cs[q + 1int] == '\\') {
                lemma_string_scan(cs, q + 2, acc.push(cs[q + 1int]), start);
            }
        } else if cs[q as int] != '"' && cs[q as int] != '\n' {
            lemma_string_scan(cs, q + 1, acc.push(cs[q as int]), start);
        }
    }
}

/// A cursor over the characters of a source text.
pub struct Lexer {
    chars: Vec<char>,
    pos: usize,
    line: usize,
    col: usize,
}

impl Lexer {
    /// The characters being lexed.
    pub closed spec fn text(&self) -> Seq<char> {
        self.chars@
    }

    /// The position of the next character.
    pub closed spec fn at(&self) -> nat {
        self.pos as nat
    }

    /// The position is within the text and the line and column are those
    /// of the position.
    pub closed spec fn wf(&self) -> bool {
        &&& self.pos <= self.chars@.len() < usize::MAX
        &&& self.line == line_at(self.chars@, self.pos as nat)
        &&& self.col == col_at(self.chars@, self.pos as nat)
    }

    /// A lexer at the start of `src`.
    pub fn new(src: &str) -> (r: Self)
        requires src@.len() < usize::MAX,
        ensures r.wf(), r.text() == src@, r.at() == 0,
    {
        Lexer { chars: chars_of(src), pos: 0, line: 1, col: 1 }
    }

    /// Lexes the rest of the text.
    pub fn lex(self) -> (r: Result<Vec<Token>, ParseError>)
        requires self.wf(),
        ensures
            match lex_from(self.text(), self.at(), Seq::empty()) {
                Ok(ts) => r is Ok && tokens_view(r->Ok_0@) == ts,
                Err(e) => r is Err && error_view(r->Err_0) == e,
            },
    {
        let ghost cs = self.chars@;
        let ghost p0 = self.pos as nat;
        let mut lx = self;
        let mut tokens: Vec<Token> = Vec::new();
        assert(tokens_view(tokens@) =~= Seq::<(KindV, nat, nat)>::empty());
        while lx.pos < lx.chars.len()
            invariant
                cs == self.chars@,
                p0 == self.pos,
                lx.wf(),
                lx.chars@ == cs,
                lex_from(cs, p0, Seq::empty()) == lex_from(cs, lx.pos as nat, tokens_view(tokens@)),
            decreases cs.len() - lx.pos,
        {
            let line = lx.line;
            let col = lx.col;
            let p = lx.pos;
            let ghost acc = tokens_view(tokens@);
            let c = lx.chars[p];
            if char_is_space(c) {
                lx.bump();
                continue;
            }
            let kind: TokenKind;
            if c == '-' {
                lx.bump();
                if lx.peek() == Some('-') {
                    lx.skip_comment();
                    proof { lemma_comment_end(cs, (p + 1) as nat); }
                    continue;
                } else if lx.peek() == Some('>') {
                    lx.bump();
                    kind = TokenKind::Arrow;
                } else {
                    return Err(err(crate::text::owned("unexpected '-'"), line, col));
                }
            } else if c == '=' {
                lx.bump();
                if lx.peek() == Some('>') {
                    lx.bump();
                    kind = TokenKind::FatArrow;
                } else {
                    kind = TokenKind::Equals;
                }
            } else if c == '/' {
                lx.bump();
                if lx.peek() == Some('\\') {
                    lx.bump();
                    kind = TokenKind::AndSym;
                } else {
                    kind = TokenKind::Slash;
                }
            } else if c == '\\' {
                lx.bump();
                if lx.peek() == Some('/') {
                    lx.bump();
                    kind = TokenKind::OrSym;
                } else {
                    kind = TokenKind::Backslash;
                }
            } else if let Some(k) = single_token(c) {
                lx.bump();
                kind = k;
            } else if c == '"' {
                proof { lemma_string_scan(cs, (p + 1) as nat, Seq::empty(), p as nat); }
                let t = lx.lex_string(line, col)?;
                kind = t.kind;
            } else if char_is_digit(c) {
                proof { lemma_digits_end(cs, (p + 1) as nat); }
                let t = lx.lex_int(line, col)?;
                kind = t.kind;
            } else if is_ident_start(c) {
                proof { lemma_ident_end(cs, (p + 1) as nat); }
                let t = lx.lex_ident(line, col);
                kind = t.kind;
            } else {
                return Err(err(quoted_message("unexpected character '", c), line, col));
            }
            let t = tok(kind, line, col);
            let ghost tv = token_view(t);
            tokens.push(t);
            proof {
                assert(tokens_view(tokens@) =~= acc.push(tv));
            }
        }
        proof { lemma_line_col_bound(cs, cs.len()); }
        let t = tok(TokenKind::Eof, lx.line, lx.col);
        let ghost acc = tokens_view(tokens@);
        tokens.push(t);
        assert(tokens_view(tokens@) =~= acc.push(token_view(t)));
        Ok(tokens)
    }

    /// Skips a line comment whose second `-` is the next character: up to
    /// and including the next newline.
    fn skip_comment(&mut self)
        requires old(self).wf(),
        ensures
            final(self).wf(),
            final(self).text() == old(self).text(),
            final(self).at() == comment_end(old(self).text(), old(self).at()),
    {
        let ghost cs = self.chars@;
        let ghost start = self.pos as nat;
        let mut done = false;
        while !done && self.pos < self.chars.len()
            invariant
                self.wf(),
                self.chars@ == cs,
                start <= self.pos,
                !done ==> comment_end(cs, start) == comment_end(cs, self.pos as nat),
                done ==> self.pos == comment_end(cs, start),
            decreases cs.len() - self.pos, if done { 0nat } else { 1nat },
        {
            let c = self.chars[self.pos];
            self.bump();
            if c == '\n' {
                done = true;
            }
        }
    }

    /// Lexes a run of decimal digits as an `i32`.
    fn lex_int(&mut self, line: usize, col: usize) -> (r: Result<Token, ParseError>)
        requires
            old(self).wf(),
            old(self).at() < old(self).text().len(),
            is_digit(old(self).text()[old(self).at() as int]),
        ensures
            final(self).wf(),
            final(self).text() == old(self).text(),
            ({
                let cs = old(self).text();
                let p = old(self).at();
                let q = digits_end(cs, p);
                let v = digits_value(cs.subrange(p as int, q as int));
                &&& final(self).at() == q
                &&& v <= i32::MAX ==> r is Ok && token_view(r->Ok_0) == (KindV::Int(v as i32), line as nat, col as nat)
                &&& v > i32::MAX ==> r is Err && error_view(r->Err_0) == ("integer literal is too large"@, line as nat, col as nat)
            }),
    {
        let ghost cs = self.chars@;
        let ghost start = self.pos as nat;
        let mut value: u64 = 0;
        let mut big = false;
        assert(cs.subrange(start as int, start as int) =~= Seq::<char>::empty());
        while self.pos < self.chars.len() && char_is_digit(self.chars[self.pos])
            invariant
                self.wf(),
                self.chars@ == cs,
                start <= self.pos,
                digits_end(cs, start) == digits_end(cs, self.pos as nat),
                big ==> digits_value(cs.subrange(start as int, self.pos as int)) > i32::MAX,
                !big ==> value == digits_value(cs.subrange(start as int, self.pos as int)),
                !big ==> value <= i32::MAX,
            decreases cs.len() - self.pos,
        {
            let c = self.chars[self.pos];
            let d = (c as u32 - '0' as u32) as u64;
            let ghost before = cs.subrange(start as int, self.pos as int);
            self.bump();
            proof {
                let after = cs.subrange(start as int, self.pos as int);
                assert(after.drop_last() =~= before);
                assert(after.last() == c);
            }
            if !big {
                value = value * 10 + d;
                if value > 0x7FFF_FFFFu64 {
                    big = true;
                }
            }
        }
        if big {
            Err(err(crate::text::owned("integer literal is too large"), line, col))
        } else {
            Ok(tok(TokenKind::Int(value as i32), line, col))
        }
    }

    /// Lexes an identifier whose first character is the next one.
    fn lex_ident(&mut self, line: usize, col: usize) -> (r: Token)
        requires
            old(self).wf(),
            old(self).at() < old(self).text().len(),
        ensures
            final(self).wf(),
            final(self).text() == old(self).text(),
            ({
                let cs = old(self).text();
                let p = old(self).at();
                let q = ident_end(cs, p + 1);
                &&& final(self).at() == q
                &&& token_view(r) == (KindV::Ident(cs.subrange(p as int, q as int)), line as nat, col as nat)
            }),
    {
        let ghost cs = self.chars@;
        let ghost start = self.pos as nat;
        let mut text: Vec<char> = Vec::new();
        let first = self.chars[self.pos];
        text.push(first);
        self.bump();
        assert(text@ =~= cs.subrange(start as int, self.pos as int));
        while self.pos < self.chars.len() && is_ident_continue(self.chars[self.pos])
            invariant
                self.wf(),
                self.chars@ == cs,
                start < self.pos,
                ident_end(cs, start + 1) == ident_end(cs, self.pos as nat),
                text@ == cs.subrange(start as int, self.pos as int),
            decreases cs.len() - self.pos,
        {
            let c = self.chars[self.pos];
            text.push(c);
            self.bump();
            assert(text@ =~= cs.subrange(start as int, self.pos as int));
        }
        let s = string_of(text.as_slice());
        tok(TokenKind::Ident(s), line, col)
    }

    /// Lexes a string literal whose opening quote is the next character.
    fn lex_string(&mut self, line: usize, col: usize) -> (r: Result<Token, ParseError>)
        requires
            old(self).wf(),
            old(self).at() < old(self).text().len(),
            line == line_at(old(self).text(), old(self).at()),
            col == col_at(old(self).text(), old(self).at()),
        ensures
            final(self).wf(),
            final(self).text() == old(self).text(),
            match string_scan(old(self).text(), old(self).at() + 1, Seq::empty(), old(self).at()) {
                Step::Tok(k, q) => r is Ok && final(self).at() == q && token_view(r->Ok_0) == (k, line as nat, col as nat),
                Step::Fail(m, e) => r is Err && error_view(r->Err_0) == (m, line_at(old(self).text(), e), col_at(old(self).text(), e)),
                Step::Skip(_) => false,
            },
    {
        let ghost cs = self.chars@;
        let ghost start = self.pos as nat;
        self.bump();
        let mut text: Vec<char> = Vec::new();
        while self.pos < self.chars.len()
            invariant
                cs == old(self).chars@,
                start == old(self).pos,
                self.wf(),
                self.chars@ == cs,
                start < self.pos,
                line == line_at(cs, start),
                col == col_at(cs, start),
                string_scan(cs, start + 1, Seq::empty(), start) == string_scan(cs, self.pos as nat, text@, start),
            decreases cs.len() - self.pos,
        {
            let c = self.chars[self.pos];
            if c == '"' {
                self.bump();
                let s = string_of(text.as_slice());
                return Ok(tok(TokenKind::String(s), line, col));
            } else if c == '\\' {
                self.bump();
                match self.peek() {
                    Some(e) => {
                        if e == '"' || e == '\\' {
                            self.bump();
                            text.push(e);
                        } else {
                            return Err(err(quoted_message("invalid escape sequence '\\", e), self.line, self.col));
                        }
                    },
                    None => {
                        return Err(err(crate::text::owned("unterminated string literal"), line, col));
                    },
                }
            } else if c == '\n' {
                return Err(err(crate::text::owned("unterminated string literal"), line, col));
            } else {
                text.push(c);
                self.bump();
            }
        }
        Err(err(crate::text::owned("unterminated string literal"), line, col))
    }

    /// The next character, if any.
    fn peek(&self) -> (r: Option<char>)
        requires self.wf(),
        ensures
            self.at() < self.text().len() ==> r == Some(self.text()[self.at() as int]),
            self.at() >= self.text().len() ==> r is None,
    {
        if self.pos < self.chars.len() {
            Some(self.chars[self.pos])
        } else {
            None
        }
    }

    /// Consumes the next character, if any, keeping line and column.
    fn bump(&mut self) -> (r: Option<char>)
        requires old(self).wf(),
        ensures
            final(self).wf(),
            final(self).text() == old(self).text(),
            old(self).at() < old(self).text().len() ==> r == Some(old(self).text()[old(self).at() as int])
                && final(self).at() == old(self).at() + 1,
            old(self).at() >= old(self).text().len() ==> r is None && final(self).at() == old(self).at(),
    {
        if self.pos >= self.chars.len() {
            return None;
        }
        let ch = self.chars[self.pos];
        proof { lemma_line_col_bound(self.chars@, self.pos as nat); }
        if ch == '\n' {
            self.line = self.line + 1;
            self.col = 1;
        } else {
            self.col = self.col + 1;
        }
        self.pos = self.pos + 1;
        Some(ch)
    }
}

/// The single-character token `c` stands for, if any.
fn single_token(c: char) -> (r: Option<TokenKind>)
    ensures
        match single_kind(c) {
            Some(k) => r is Some && kind_view(r->0) == k,
            None => r is None,
        },
{
    if c == '(' {
        Some(TokenKind::LParen)
    } else if c == ')' {
        Some(TokenKind::RParen)
    } else if c == '{' {
        Some(TokenKind::LBrace)
    } else if c == '}' {
        Some(TokenKind::RBrace)
    } else if c == '<' || c == '\u{27E8}' {
        Some(TokenKind::LAngle)
    } else if c == '>' || c == '\u{27E9}' {
        Some(TokenKind::RAngle)
    } else if c == ':' {
        Some(TokenKind::Colon)
    } else if c == ',' {
        Some(TokenKind::Comma)
    } else if c == '.' {
        Some(TokenKind::Dot)
    } else if c == '|' {
        Some(TokenKind::Pipe)
    } else if c == '@' {
        Some(TokenKind::At)
    } else if c == '*' || c == '\u{D7}' {
        Some(TokenKind::Star)
    } else if c == '[' {
        Some(TokenKind::LBracket)
    } else if c == ']' {
        Some(TokenKind::RBracket)
    } else if c == '~' || c == '\u{AC}' {
        Some(TokenKind::Tilde)
    } else if c == '\u{2227}' {
        Some(TokenKind::AndSym)
    } else if c == '\u{2228}' {
        Some(TokenKind::OrSym)
    } else if c == '\u{3BB}' {
        Some(TokenKind::Backslash)
    } else {
        None
    }
}

/// `prefix`, the character `c`, and a closing quote.
fn quoted_message(prefix: &str, c: char) -> (r: String)
    ensures r@ == prefix@ + seq![c] + "'"@,
{
    let mut cs = chars_of(prefix);
    cs.push(c);
    cs.push('\'');
    proof { reveal_strlit("'"); }
    assert(cs@ =~= prefix@ + seq![c] + "'"@);
    string_of(cs.as_slice())
}

pub fn is_ident_start(c: char) -> (r: bool)
    ensures r == ident_start(c),
{
    c == '_' || char_is_alphabetic(c)
}

pub fn is_ident_continue(c: char) -> (r: bool)
    ensures r == ident_continue(c),
{
    c == '_' || c == '\'' || c == '?' || c == '!' || c == '-' || char_is_alphanumeric(c)
}

pub fn tok(kind: TokenKind, line: usize, col: usize) -> (r: Token)
    ensures r.kind == kind, r.line == line, r.col == col,
{
    Token { kind, line, col }
}

pub fn err(message: String, line: usize, col: usize) -> (r: ParseError)
    ensures r.message == message, r.line == line, r.col == col,
{
    ParseError { message, line, col }
}

} // verus!
