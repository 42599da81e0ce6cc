//! The tokens of the S-expression grammar, read from the bytes of the source.
use vstd::prelude::*;
use vstd::string::*;
use vstd::utf8::*;
use crate::error::{span, Span};
use crate::text::{lemma_boundary_after_ascii, lemma_boundary_by_byte};

verus! {

/// What a token is.
#[derive(Clone, Copy, Debug, PartialEq, Eq, Structural)]
pub enum TokenKind {
    LParen,
    RParen,
    String,
    Error,
}

/// A token and the bytes it covers; for a quoted string, the bytes between
/// the quotes.
#[derive(Clone, Copy, Debug, PartialEq, Eq, Structural)]
pub struct Token {
    pub kind: TokenKind,
    pub span: Span,
}

/// A token together with the offset at which scanning goes on after it.
pub struct Lexeme {
    pub token: Token,
    pub next: int,
}

/// `(`
pub const OPEN: u8 = 0x28;

/// `)`
pub const CLOSE: u8 = 0x29;

/// `"`
pub const QUOTE: u8 = 0x22;

/// `\\`
pub const BACKSLASH: u8 = 0x5c;

/// Space, tab, line feed, form feed, carriage return.
pub open spec fn is_space(b: u8) -> bool {
    b == 0x20 || b == 0x09 || b == 0x0a || b == 0x0c || b == 0x0d
}

/// The bytes that cannot be part of a bare string.
pub open spec fn ends_atom(b: u8) -> bool {
    is_space(b) || b == OPEN || b == CLOSE || b == QUOTE
}

/// The bytes that may follow a backslash on their own: `"`, `\`, `b`, `f`,
/// `n`, `r`, `t`.
pub open spec fn is_escape_letter(b: u8) -> bool {
    b == QUOTE || b == BACKSLASH || b == 0x62 || b == 0x66 || b == 0x6e || b == 0x72 || b == 0x74
}

/// An ASCII hexadecimal digit.
pub open spec fn is_hex_digit(b: u8) -> bool {
    (0x30 <= b <= 0x39) || (0x41 <= b <= 0x46) || (0x61 <= b <= 0x66)
}

/// The length of the escape sequence whose backslash stands at `pos`: 2 for a
/// backslash and an escape letter, 6 for `\u` and four hexadecimal digits,
/// 0 where neither follows.
pub open spec fn escape_len(s: Seq<u8>, pos: int) -> int {
    if pos + 1 < s.len() && is_escape_letter(s[pos + 1]) {
        2
    } else if pos + 5 < s.len() && s[pos + 1] == 0x75 && is_hex_digit(s[pos + 2]) && is_hex_digit(
        s[pos + 3],
    ) && is_hex_digit(s[pos + 4]) && is_hex_digit(s[pos + 5]) {
        6
    } else {
        0
    }
}

/// The first offset at or after `pos` that holds no white space.
pub open spec fn skip_space(s: Seq<u8>, pos: int) -> int
    decreases s.len() - pos,
{
    if 0 <= pos < s.len() && is_space(s[pos]) {
        skip_space(s, pos + 1)
    } else {
        pos
    }
}

/// The end of the longest run of bare-string bytes that starts at `pos`.
pub open spec fn atom_end(s: Seq<u8>, pos: int) -> int
    decreases s.len() - pos,
{
    if 0 <= pos < s.len() && !ends_atom(s[pos]) {
        atom_end(s, pos + 1)
    } else {
        pos
    }
}

/// The end of the longest run of quoted content that starts at `pos`: plain
/// bytes and whole escape sequences. It stops at a quote, at a backslash that
/// starts no escape sequence, or at the end of the text.
pub open spec fn quoted_end(s: Seq<u8>, pos: int) -> int
    decreases s.len() - pos,
{
    if 0 <= pos < s.len() {
        if s[pos] == QUOTE {
            pos
        } else if s[pos] == BACKSLASH {
            if escape_len(s, pos) > 0 {
                quoted_end(s, pos + escape_len(s, pos))
            } else {
                pos
            }
        } else {
            quoted_end(s, pos + 1)
        }
    } else {
        pos
    }
}

/// The token that starts at or after `pos`, white space skipped, or `None`
/// where only white space is left.
///
/// A quote opens a string that runs to the next unescaped quote; its span
/// leaves the quotes out. Where the content breaks off first, the token is an
/// error that covers the quote and the content read so far.
pub open spec fn token_at(s: Seq<u8>, pos: int) -> Option<Lexeme> {
    let p = skip_space(s, pos);
    if !(0 <= p < s.len()) {
        None
    } else if s[p] == OPEN {
        Some(Lexeme { token: Token { kind: TokenKind::LParen, span: span(p, p + 1) }, next: p + 1 })
    } else if s[p] == CLOSE {
        Some(Lexeme { token: Token { kind: TokenKind::RParen, span: span(p, p + 1) }, next: p + 1 })
    } else if s[p] == QUOTE {
        let e = quoted_end(s, p + 1);
        if e < s.len() && s[e] == QUOTE {
            Some(Lexeme { token: Token { kind: TokenKind::String, span: span(p + 1, e) }, next: e + 1 })
        } else {
            Some(Lexeme { token: Token { kind: TokenKind::Error, span: span(p, e) }, next: e })
        }
    } else {
        let e = atom_end(s, p);
        Some(Lexeme { token: Token { kind: TokenKind::String, span: span(p, e) }, next: e })
    }
}

/// A span lies within the text and cuts no character in two.
pub open spec fn span_fits(s: Seq<u8>, sp: Span) -> bool {
    &&& sp.start <= sp.end <= s.len()
    &&& is_char_boundary(s, sp.start as int)
    &&& is_char_boundary(s, sp.end as int)
}

/// Skipping white space ends within the text, before a byte that is none,
/// and on a character boundary where it started on one.
pub proof fn lemma_skip_space(s: Seq<u8>, pos: int)
    requires
        0 <= pos <= s.len(),
    ensures
        pos <= skip_space(s, pos) <= s.len(),
        skip_space(s, pos) < s.len() ==> !is_space(s[skip_space(s, pos)]),
        valid_utf8(s) && is_char_boundary(s, pos) ==> is_char_boundary(s, skip_space(s, pos)),
    decreases s.len() - pos,
{
    if pos < s.len() && is_space(s[pos]) {
        if valid_utf8(s) {
            lemma_boundary_after_ascii(s, pos);
        }
        lemma_skip_space(s, pos + 1);
    }
}

/// A bare string ends within the text, before a byte that cannot be part of
/// it, on a character boundary; it is not empty where it starts with a byte
/// that can be part of it.
pub proof fn lemma_atom_end(s: Seq<u8>, pos: int)
    requires
        0 <= pos <= s.len(),
    ensures
        pos <= atom_end(s, pos) <= s.len(),
        atom_end(s, pos) < s.len() ==> ends_atom(s[atom_end(s, pos)]),
        pos < s.len() && !ends_atom(s[pos]) ==> pos < atom_end(s, pos),
        valid_utf8(s) ==> is_char_boundary(s, atom_end(s, pos)),
    decreases s.len() - pos,
{
    if pos < s.len() && !ends_atom(s[pos]) {
        lemma_atom_end(s, pos + 1);
    } else if valid_utf8(s) {
        lemma_boundary_by_byte(s, pos);
    }
}

/// Quoted content ends within the text, before a quote or a backslash, on a
/// character boundary.
pub proof fn lemma_quoted_end(s: Seq<u8>, pos: int)
    requires
        0 <= pos <= s.len(),
    ensures
        pos <= quoted_end(s, pos) <= s.len(),
        quoted_end(s, pos) < s.len() ==> s[quoted_end(s, pos)] == QUOTE || s[quoted_end(s, pos)]
            == BACKSLASH,
        valid_utf8(s) ==> is_char_boundary(s, quoted_end(s, pos)),
    decreases s.len() - pos,
{
    if pos < s.len() {
        if s[pos] == QUOTE {
            if valid_utf8(s) {
                lemma_boundary_by_byte(s, pos);
            }
        } else if s[pos] == BACKSLASH {
            if escape_len(s, pos) > 0 {
                lemma_quoted_end(s, pos + escape_len(s, pos));
            } else if valid_utf8(s) {
                lemma_boundary_by_byte(s, pos);
            }
        } else {
            lemma_quoted_end(s, pos + 1);
        }
    } else if valid_utf8(s) {
        lemma_boundary_by_byte(s, pos);
    }
}

/// Every token lies at or after the offset it was asked for, is followed by
/// an offset beyond its start, and has a span that fits the text.
pub proof fn lemma_token_at(s: Seq<u8>, pos: int)
    requires
        0 <= pos <= s.len(),
    ensures
        token_at(s, pos) matches Some(lx) ==> {
            &&& pos < lx.next <= s.len()
            &&& s.len() <= usize::MAX ==> pos <= lx.token.span.start <= lx.token.span.end
                <= lx.next
            &&& s.len() <= usize::MAX && valid_utf8(s) && is_char_boundary(s, pos) ==> span_fits(
                s,
                lx.token.span,
            ) && is_char_boundary(s, lx.next)
        },
        token_at(s, pos) is None ==> skip_space(s, pos) == s.len(),
{
    lemma_skip_space(s, pos);
    let p = skip_space(s, pos);
    if p < s.len() {
        if s[p] == OPEN || s[p] == CLOSE {
            if valid_utf8(s) {
                lemma_boundary_after_ascii(s, p);
            }
        } else if s[p] == QUOTE {
            lemma_quoted_end(s, p + 1);
            let e = quoted_end(s, p + 1);
            if valid_utf8(s) {
                lemma_boundary_after_ascii(s, p);
                if e < s.len() {
                    lemma_boundary_after_ascii(s, e);
                }
            }
        } else {
            lemma_atom_end(s, p);
        }
    }
}

fn is_space_byte(b: u8) -> (r: bool)
    ensures
        r == is_space(b),
{
    b == 0x20 || b == 0x09 || b == 0x0a || b == 0x0c || b == 0x0d
}

fn ends_atom_byte(b: u8) -> (r: bool)
    ensures
        r == ends_atom(b),
{
    is_space_byte(b) || b == OPEN || b == CLOSE || b == QUOTE
}

fn is_hex_digit_byte(b: u8) -> (r: bool)
    ensures
        r == is_hex_digit(b),
{
    (0x30 <= b && b <= 0x39) || (0x41 <= b && b <= 0x46) || (0x61 <= b && b <= 0x66)
}

fn escape_len_at(b: &[u8], pos: usize) -> (r: usize)
    requires
        pos < b@.len(),
    ensures
        r == escape_len(b@, pos as int),
{
    let n = b.len();
    if n - pos > 1 {
        let c = b[pos + 1];
        if c == QUOTE || c == BACKSLASH || c == 0x62 || c == 0x66 || c == 0x6e || c == 0x72 || c
            == 0x74 {
            return 2;
        }
        if n - pos > 5 && c == 0x75 && is_hex_digit_byte(b[pos + 2]) && is_hex_digit_byte(
            b[pos + 3],
        ) && is_hex_digit_byte(b[pos + 4]) && is_hex_digit_byte(b[pos + 5]) {
            return 6;
        }
    }
    0
}

fn scan_space(b: &[u8], pos: usize) -> (r: usize)
    requires
        pos <= b@.len(),
    ensures
        r == skip_space(b@, pos as int),
{
    let mut i: usize = pos;
    while i < b.len() && is_space_byte(b[i])
        invariant
            pos <= i <= b@.len(),
            skip_space(b@, i as int) == skip_space(b@, pos as int),
        decreases b@.len() - i,
    {
        i += 1;
    }
    i
}

fn scan_atom(b: &[u8], pos: usize) -> (r: usize)
    requires
        pos <= b@.len(),
    ensures
        r == atom_end(b@, pos as int),
{
    let mut i: usize = pos;
    while i < b.len() && !ends_atom_byte(b[i])
        invariant
            pos <= i <= b@.len(),
            atom_end(b@, i as int) == atom_end(b@, pos as int),
        decreases b@.len() - i,
    {
        i += 1;
    }
    i
}

fn scan_quoted(b: &[u8], pos: usize) -> (r: usize)
    requires
        pos <= b@.len(),
    ensures
        r == quoted_end(b@, pos as int),
{
    let mut i: usize = pos;
    loop
        invariant
            pos <= i <= b@.len(),
            quoted_end(b@, i as int) == quoted_end(b@, pos as int),
        ensures
            i == quoted_end(b@, pos as int),
        decreases b@.len() - i,
    {
        if i >= b.len() {
            break;
        }
        let c = b[i];
        if c == QUOTE {
            break;
        }
        if c == BACKSLASH {
            let k = escape_len_at(b, i);
            if k == 0 {
                break;
            }
            i += k;
        } else {
            i += 1;
        }
    }
    i
}

/// Reads the tokens of a text one after another.
pub struct TokenIter<'a> {
    input: &'a str,
    pos: usize,
}

impl<'a> TokenIter<'a> {
    #[verifier::type_invariant]
    spec fn inv(self) -> bool {
        &&& self.pos <= self.input.spec_bytes().len()
        &&& is_char_boundary(self.input.spec_bytes(), self.pos as int)
    }

    /// The bytes of the text that is read.
    pub closed spec fn source(&self) -> Seq<u8> {
        self.input.spec_bytes()
    }

    /// The offset from which the next token is read.
    pub closed spec fn offset(&self) -> int {
        self.pos as int
    }

    /// Starts at the beginning of `input`.
    pub fn new(input: &'a str) -> (r: Self)
        ensures
            r.source() == input.spec_bytes(),
            r.offset() == 0,
    {
        proof {
            encode_utf8_valid_utf8(input@);
            is_char_boundary_start_end_of_seq(input.spec_bytes());
        }
        TokenIter { input, pos: 0 }
    }

    /// The text that is read.
    pub fn input(&self) -> (r: &'a str)
        ensures
            r.spec_bytes() == self.source(),
    {
        self.input
    }

    /// The offset from which the next token is read: it lies within the text,
    /// on a character boundary.
    pub fn position(&self) -> (r: usize)
        ensures
            r == self.offset(),
            r <= self.source().len(),
            is_char_boundary(self.source(), r as int),
    {
        proof {
            use_type_invariant(self);
        }
        self.pos
    }

    /// The next token, or `None` at the end of the text.
    pub fn next(&mut self) -> (r: Option<Token>)
        ensures
            final(self).source() == old(self).source(),
            match token_at(old(self).source(), old(self).offset()) {
                Some(lx) => r == Some(lx.token) && final(self).offset() == lx.next,
                None => r is None && final(self).offset() == old(self).offset(),
            },
            r matches Some(t) ==> span_fits(old(self).source(), t.span),
    {
        proof {
            use_type_invariant(&*self);
            encode_utf8_valid_utf8(self.input@);
            lemma_token_at(self.input.spec_bytes(), self.pos as int);
        }
        let b = self.input.as_bytes();
        let p = scan_space(b, self.pos);
        if p >= b.len() {
            return None;
        }
        let c = b[p];
        if c == OPEN {
            self.pos = p + 1;
            Some(Token { kind: TokenKind::LParen, span: Span { start: p, end: p + 1 } })
        } else if c == CLOSE {
            self.pos = p + 1;
            Some(Token { kind: TokenKind::RParen, span: Span { start: p, end: p + 1 } })
        } else if c == QUOTE {
            let e = scan_quoted(b, p + 1);
            if e < b.len() && b[e] == QUOTE {
                self.pos = e + 1;
                Some(Token { kind: TokenKind::String, span: Span { start: p + 1, end: e } })
            } else {
                self.pos = e;
                Some(Token { kind: TokenKind::Error, span: Span { start: p, end: e } })
            }
        } else {
            let e = scan_atom(b, p);
            self.pos = e;
            Some(Token { kind: TokenKind::String, span: Span { start: p, end: e } })
        }
    }
}

} // verus!
