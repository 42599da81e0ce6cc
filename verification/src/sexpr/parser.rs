//! Recursive descent over the tokens: an S-expression is an opening
//! parenthesis, a label, any number of strings and nested S-expressions, and
//! a closing parenthesis.
use vstd::prelude::*;
use vstd::string::*;
use vstd::utf8::*;
use crate::error::{agrees, span, ParseError, ParseErrorView, Span};
use crate::sexpr::lexer::{lemma_token_at, span_fits, token_at, Lexeme, Token, TokenIter, TokenKind};
use crate::sexpr::{SExpr, SExprView};
use crate::text::{substring, text_of};

verus! {

/// An S-expression as the parser finds it: the spans of its label and atoms.
#[derive(Debug, PartialEq, Eq)]
pub enum ParsedSExpr {
    SExpr(Span, Vec<ParsedSExpr>),
    String(Span),
}

/// A [`ParsedSExpr`] as a mathematical tree.
pub enum SpanTree {
    Labeled(Span, Seq<SpanTree>),
    Atom(Span),
}

/// The tree of a parsed expression.
pub open spec fn tree_of(e: ParsedSExpr) -> SpanTree
    decreases e,
{
    match e {
        ParsedSExpr::SExpr(label, children) => SpanTree::Labeled(
            label,
            Seq::new(
                children@.len(),
                |i: int|
                    if 0 <= i < children@.len() {
                        tree_of(children@[i])
                    } else {
                        SpanTree::Atom(label)
                    },
            ),
        ),
        ParsedSExpr::String(s) => SpanTree::Atom(s),
    }
}

impl View for ParsedSExpr {
    type V = SpanTree;

    open spec fn view(&self) -> SpanTree {
        tree_of(*self)
    }
}

/// The trees of a sequence of parsed expressions.
pub open spec fn trees(v: Seq<ParsedSExpr>) -> Seq<SpanTree> {
    Seq::new(v.len(), |i: int| v[i]@)
}

/// The tree of a labelled expression holds the trees of its children.
pub proof fn lemma_view_labeled(label: Span, children: Vec<ParsedSExpr>)
    ensures
        ParsedSExpr::SExpr(label, children)@ == SpanTree::Labeled(label, trees(children@)),
{
    let n = ParsedSExpr::SExpr(label, children);
    assert(n@->Labeled_1 =~= trees(children@));
}

/// Every span of the tree fits the text.
pub open spec fn tree_fits(s: Seq<u8>, t: SpanTree) -> bool
    decreases t,
{
    match t {
        SpanTree::Labeled(label, children) => span_fits(s, label) && forall|i: int|
            0 <= i < children.len() ==> tree_fits(s, #[trigger] children[i]),
        SpanTree::Atom(sp) => span_fits(s, sp),
    }
}

/// Where a labelled tree fits, each of its children fits.
pub proof fn lemma_children_fit(s: Seq<u8>, label: Span, children: Seq<SpanTree>, j: int)
    requires
        tree_fits(s, SpanTree::Labeled(label, children)),
        0 <= j < children.len(),
    ensures
        tree_fits(s, children[j]),
{
    assert(SpanTree::Labeled(label, children)->Labeled_1 == children);
}

/// The tree with each span replaced by the characters it covers.
pub open spec fn tree_text(s: Seq<u8>, t: SpanTree) -> SExprView
    decreases t,
{
    match t {
        SpanTree::Labeled(label, children) => SExprView::Labeled(
            text_of(s, label.start as int, label.end as int),
            Seq::new(
                children.len(),
                |i: int|
                    if 0 <= i < children.len() {
                        tree_text(s, children[i])
                    } else {
                        SExprView::Atom(Seq::empty())
                    },
            ),
        ),
        SpanTree::Atom(sp) => SExprView::Atom(text_of(s, sp.start as int, sp.end as int)),
    }
}

/// The name under which an error reports a kind of token.
pub open spec fn kind_name(kind: TokenKind) -> Seq<char> {
    match kind {
        TokenKind::LParen => "LParen"@,
        TokenKind::RParen => "RParen"@,
        TokenKind::String => "String"@,
        TokenKind::Error => "Error"@,
    }
}

/// The error for a text that ends too early: it points at the end.
pub open spec fn end_of_input(s: Seq<u8>) -> ParseErrorView {
    ParseErrorView::UnexpectedEof { at: span(s.len() as int, s.len() as int) }
}

/// The next token, which has to be of the given kind.
pub open spec fn expect_spec(s: Seq<u8>, pos: int, kind: TokenKind) -> Result<
    Lexeme,
    ParseErrorView,
> {
    match token_at(s, pos) {
        None => Err(end_of_input(s)),
        Some(lx) => if lx.token.kind == kind {
            Ok(lx)
        } else {
            Err(
                ParseErrorView::UnexpectedToken {
                    expected: kind_name(kind),
                    found: kind_name(lx.token.kind),
                    at: lx.token.span,
                },
            )
        },
    }
}

/// The S-expression that starts at or after `pos`, with the offset behind its
/// closing parenthesis, or the first error met on the way.
pub open spec fn parse_sexpr_spec(s: Seq<u8>, pos: int) -> Result<(SpanTree, int), ParseErrorView>
    decreases s.len() - pos, 0int,
{
    match expect_spec(s, pos, TokenKind::LParen) {
        Err(e) => Err(e),
        Ok(open) => match expect_spec(s, open.next, TokenKind::String) {
            Err(e) => Err(e),
            Ok(label) => {
                proof {
                    lemma_token_at(s, pos);
                    lemma_token_at(s, open.next);
                }
                parse_rest_spec(s, label.next, label.token.span, Seq::empty())
            },
        },
    }
}

/// The rest of an S-expression whose label and first children (`done`) have
/// been read: the children from `pos` on, up to the closing parenthesis.
///
/// A nested S-expression always ends behind the offset it started from
/// ([`lemma_parse_advances`]), so the test on `next` never fails.
pub open spec fn parse_rest_spec(s: Seq<u8>, pos: int, label: Span, done: Seq<SpanTree>) -> Result<
    (SpanTree, int),
    ParseErrorView,
>
    decreases s.len() - pos, 1int,
{
    match token_at(s, pos) {
        None => Err(end_of_input(s)),
        Some(lx) => {
            proof {
                lemma_token_at(s, pos);
            }
            match lx.token.kind {
                TokenKind::RParen => Ok((SpanTree::Labeled(label, done), lx.next)),
                TokenKind::String => parse_rest_spec(
                    s,
                    lx.next,
                    label,
                    done.push(SpanTree::Atom(lx.token.span)),
                ),
                TokenKind::Error => Err(
                    ParseErrorView::UnknownToken {
                        found: kind_name(TokenKind::Error),
                        at: lx.token.span,
                    },
                ),
                TokenKind::LParen => match parse_sexpr_spec(s, pos) {
                    Err(e) => Err(e),
                    Ok((child, next)) => if pos < next <= s.len() {
                        parse_rest_spec(s, next, label, done.push(child))
                    } else {
                        Err(end_of_input(s))
                    },
                },
            }
        },
    }
}

/// An S-expression that is read ends behind the offset it was read from, and
/// within the text.
pub proof fn lemma_parse_advances(s: Seq<u8>, pos: int)
    requires
        0 <= pos <= s.len(),
    ensures
        parse_sexpr_spec(s, pos) matches Ok((_, next)) ==> pos < next <= s.len(),
    decreases s.len() - pos, 0int,
{
    lemma_token_at(s, pos);
    match expect_spec(s, pos, TokenKind::LParen) {
        Err(_) => {},
        Ok(open) => {
            lemma_token_at(s, open.next);
            match expect_spec(s, open.next, TokenKind::String) {
                Err(_) => {},
                Ok(label) => {
                    lemma_rest_advances(s, label.next, label.token.span, Seq::empty());
                },
            }
        },
    }
}

/// The rest of an S-expression ends behind the offset it was read from, and
/// within the text.
pub proof fn lemma_rest_advances(s: Seq<u8>, pos: int, label: Span, done: Seq<SpanTree>)
    requires
        0 <= pos <= s.len(),
    ensures
        parse_rest_spec(s, pos, label, done) matches Ok((_, next)) ==> pos < next <= s.len(),
    decreases s.len() - pos, 1int,
{
    lemma_token_at(s, pos);
    match token_at(s, pos) {
        None => {},
        Some(lx) => {
            match lx.token.kind {
                TokenKind::RParen => {},
                TokenKind::String => {
                    lemma_rest_advances(s, lx.next, label, done.push(SpanTree::Atom(lx.token.span)));
                },
                TokenKind::Error => {},
                TokenKind::LParen => {
                    lemma_parse_advances(s, pos);
                    match parse_sexpr_spec(s, pos) {
                        Err(_) => {},
                        Ok((child, next)) => {
                            lemma_rest_advances(s, next, label, done.push(child));
                        },
                    }
                },
            }
        },
    }
}

/// What a token contributes to a tree: its kind and, for a string, its span.
pub open spec fn sign(t: Token) -> (TokenKind, Option<Span>) {
    (
        t.kind,
        if t.kind == TokenKind::String {
            Some(t.span)
        } else {
            None
        },
    )
}

/// The tokens that a tree is written with: an atom is one string; a labelled
/// node is an opening parenthesis, its label, its children in their order,
/// and a closing parenthesis.
pub open spec fn written(t: SpanTree) -> Seq<(TokenKind, Option<Span>)>
    decreases t, 0nat,
{
    match t {
        SpanTree::Atom(sp) => seq![(TokenKind::String, Some(sp))],
        SpanTree::Labeled(label, children) => seq![
            (TokenKind::LParen, None),
            (TokenKind::String, Some(label)),
        ] + written_first(children, children.len()) + seq![(TokenKind::RParen, None)],
    }
}

/// The tokens that the first `n` of the trees are written with.
pub open spec fn written_first(v: Seq<SpanTree>, n: nat) -> Seq<(TokenKind, Option<Span>)>
    decreases v, n,
{
    if n == 0 || n > v.len() {
        Seq::empty()
    } else {
        written_first(v, (n - 1) as nat) + written(v[n - 1])
    }
}

/// Reading the text from offset `from` gives exactly the tokens `w` and ends
/// at offset `to`.
pub open spec fn reads(s: Seq<u8>, from: int, to: int, w: Seq<(TokenKind, Option<Span>)>) -> bool
    decreases w.len(),
{
    if w.len() == 0 {
        from == to
    } else {
        token_at(s, from) matches Some(lx) && sign(lx.token) == w[0] && reads(
            s,
            lx.next,
            to,
            w.drop_first(),
        )
    }
}

/// Reading one run of tokens and then another is reading both.
pub proof fn lemma_reads_add(
    s: Seq<u8>,
    a: int,
    b: int,
    c: int,
    w1: Seq<(TokenKind, Option<Span>)>,
    w2: Seq<(TokenKind, Option<Span>)>,
)
    requires
        reads(s, a, b, w1),
        reads(s, b, c, w2),
    ensures
        reads(s, a, c, w1 + w2),
    decreases w1.len(),
{
    if w1.len() == 0 {
        assert(w1 + w2 =~= w2);
    } else {
        let lx = token_at(s, a)->0;
        lemma_reads_add(s, lx.next, b, c, w1.drop_first(), w2);
        assert((w1 + w2).drop_first() =~= w1.drop_first() + w2);
        assert((w1 + w2)[0] == w1[0]);
    }
}

/// Reading one token.
pub proof fn lemma_reads_one(s: Seq<u8>, a: int)
    requires
        token_at(s, a) is Some,
    ensures
        reads(s, a, token_at(s, a)->0.next, seq![sign(token_at(s, a)->0.token)]),
{
    let w = seq![sign(token_at(s, a)->0.token)];
    assert(w.drop_first() =~= Seq::empty());
    assert(reads(s, token_at(s, a)->0.next, token_at(s, a)->0.next, w.drop_first()));
}

/// The tokens of the first trees do not depend on a tree that follows them.
pub proof fn lemma_written_first_push(v: Seq<SpanTree>, x: SpanTree, n: nat)
    requires
        n <= v.len(),
    ensures
        written_first(v.push(x), n) == written_first(v, n),
    decreases n,
{
    if n > 0 {
        lemma_written_first_push(v, x, (n - 1) as nat);
        assert(v.push(x)[n - 1] == v[n - 1]);
    }
}

/// An S-expression that is read is written with exactly the tokens that the
/// text holds from the offset it was read from to the offset behind it.
pub proof fn lemma_parse_reads(s: Seq<u8>, pos: int)
    requires
        0 <= pos <= s.len(),
    ensures
        parse_sexpr_spec(s, pos) matches Ok((tree, next)) ==> reads(s, pos, next, written(tree)),
    decreases s.len() - pos, 0int,
{
    lemma_token_at(s, pos);
    match expect_spec(s, pos, TokenKind::LParen) {
        Err(_) => {},
        Ok(open) => {
            lemma_token_at(s, open.next);
            match expect_spec(s, open.next, TokenKind::String) {
                Err(_) => {},
                Ok(label) => {
                    let none = Seq::<SpanTree>::empty();
                    assert(reads(s, label.next, label.next, written_first(none, 0)));
                    lemma_rest_reads(s, label.next, label.next, label.token.span, none);
                    match parse_rest_spec(s, label.next, label.token.span, none) {
                        Err(_) => {},
                        Ok((tree, next)) => {
                            let children = tree->Labeled_1;
                            let body = written_first(children, children.len()) + seq![
                                (TokenKind::RParen, None::<Span>),
                            ];
                            lemma_reads_one(s, pos);
                            lemma_reads_one(s, open.next);
                            lemma_reads_add(
                                s,
                                open.next,
                                label.next,
                                next,
                                seq![sign(label.token)],
                                body,
                            );
                            lemma_reads_add(
                                s,
                                pos,
                                open.next,
                                next,
                                seq![sign(open.token)],
                                seq![sign(label.token)] + body,
                            );
                            assert(written(tree) =~= seq![sign(open.token)] + (seq![
                                sign(label.token),
                            ] + body));
                        },
                    }
                },
            }
        },
    }
}

/// The rest of an S-expression that is read is written with exactly the
/// tokens that the text holds, given that this holds of the children read
/// before.
pub proof fn lemma_rest_reads(s: Seq<u8>, start: int, pos: int, label: Span, done: Seq<SpanTree>)
    requires
        0 <= pos <= s.len(),
        reads(s, start, pos, written_first(done, done.len())),
    ensures
        parse_rest_spec(s, pos, label, done) matches Ok((tree, next)) ==> tree matches SpanTree::Labeled(
            l,
            children,
        ) && l == label && reads(
            s,
            start,
            next,
            written_first(children, children.len()) + seq![(TokenKind::RParen, None::<Span>)],
        ),
    decreases s.len() - pos, 1int,
{
    lemma_token_at(s, pos);
    let so_far = written_first(done, done.len());
    match token_at(s, pos) {
        None => {},
        Some(lx) => {
            match lx.token.kind {
                TokenKind::RParen => {
                    lemma_reads_one(s, pos);
                    lemma_reads_add(s, start, pos, lx.next, so_far, seq![sign(lx.token)]);
                },
                TokenKind::String => {
                    let atom = SpanTree::Atom(lx.token.span);
                    let more = done.push(atom);
                    lemma_reads_one(s, pos);
                    lemma_reads_add(s, start, pos, lx.next, so_far, seq![sign(lx.token)]);
                    lemma_written_first_push(done, atom, done.len());
                    assert(more[more.len() - 1] == atom);
                    assert(written_first(more, more.len()) == so_far + written(atom));
                    lemma_rest_reads(s, start, lx.next, label, more);
                },
                TokenKind::Error => {},
                TokenKind::LParen => {
                    lemma_parse_advances(s, pos);
                    lemma_parse_reads(s, pos);
                    match parse_sexpr_spec(s, pos) {
                        Err(_) => {},
                        Ok((child, next)) => {
                            let more = done.push(child);
                            lemma_reads_add(s, start, pos, next, so_far, written(child));
                            lemma_written_first_push(done, child, done.len());
                            assert(more[more.len() - 1] == child);
                            assert(written_first(more, more.len()) == so_far + written(child));
                            lemma_rest_reads(s, start, next, label, more);
                        },
                    }
                },
            }
        },
    }
}

/// The S-expression that a text starts with.
pub open spec fn sexpr_of(s: Seq<u8>) -> Result<SExprView, ParseErrorView> {
    match parse_sexpr_spec(s, 0) {
        Ok((tree, _)) => Ok(tree_text(s, tree)),
        Err(e) => Err(e),
    }
}

/// The name of a kind of token, as errors report it.
pub fn kind_to_string(kind: TokenKind) -> (r: String)
    ensures
        r@ == kind_name(kind),
{
    match kind {
        TokenKind::LParen => "LParen".to_owned(),
        TokenKind::RParen => "RParen".to_owned(),
        TokenKind::String => "String".to_owned(),
        TokenKind::Error => "Error".to_owned(),
    }
}

/// A parser over the tokens of one text, with one token of lookahead.
pub struct Parser<'a> {
    iter: TokenIter<'a>,
    peeked: Option<Option<Token>>,
    at: usize,
}

impl<'a> Parser<'a> {
    /// The bytes of the text that is parsed.
    pub closed spec fn source(&self) -> Seq<u8> {
        self.iter.source()
    }

    /// The offset from which the next token is taken.
    pub closed spec fn offset(&self) -> int {
        self.at as int
    }

    /// The lookahead, if there is one, is the token at the offset.
    pub closed spec fn wf(&self) -> bool {
        &&& self.at <= self.source().len() <= usize::MAX
        &&& valid_utf8(self.source())
        &&& is_char_boundary(self.source(), self.at as int)
        &&& match self.peeked {
            None => self.iter.offset() == self.at,
            Some(t) => match token_at(self.source(), self.at as int) {
                Some(lx) => t == Some(lx.token) && self.iter.offset() == lx.next,
                None => t is None && self.iter.offset() == self.at,
            },
        }
    }

    /// A parser at the start of `input`.
    pub fn new(input: &'a str) -> (r: Self)
        ensures
            r.wf(),
            r.source() == input.spec_bytes(),
            r.offset() == 0,
    {
        let iter = TokenIter::new(input);
        // the bytes of a text are a slice, whose length fits a `usize`
        let _ = input.as_bytes().len();
        proof {
            encode_utf8_valid_utf8(input@);
            is_char_boundary_start_end_of_seq(input.spec_bytes());
        }
        Parser { iter, peeked: None, at: 0 }
    }

    /// Takes the next token; at the end of the text, fails.
    pub fn get(&mut self) -> (r: Result<Token, ParseError>)
        requires
            old(self).wf(),
        ensures
            final(self).wf(),
            final(self).source() == old(self).source(),
            match token_at(old(self).source(), old(self).offset()) {
                Some(lx) => r == Ok::<Token, ParseError>(lx.token) && final(self).offset()
                    == lx.next && span_fits(old(self).source(), lx.token.span),
                None => {
                    &&& r matches Err(e)
                    &&& e@ == end_of_input(old(self).source())
                    &&& final(self).offset() == old(self).offset()
                },
            },
    {
        proof {
            lemma_token_at(self.source(), self.offset());
        }
        let tok = match self.peeked.take() {
            Some(t) => t,
            None => self.iter.next(),
        };
        match tok {
            Some(t) => {
                self.at = self.iter.position();
                Ok(t)
            },
            None => {
                self.peeked = Some(None);
                let end = self.iter.input().len();
                Err(ParseError::UnexpectedEof { at: Span { start: end, end } })
            },
        }
    }

    /// The kind of the next token, which stays where it is.
    pub fn peek(&mut self) -> (r: Option<TokenKind>)
        requires
            old(self).wf(),
        ensures
            final(self).wf(),
            final(self).source() == old(self).source(),
            final(self).offset() == old(self).offset(),
            match token_at(old(self).source(), old(self).offset()) {
                Some(lx) => r == Some(lx.token.kind),
                None => r is None,
            },
    {
        let tok = match self.peeked.take() {
            Some(t) => t,
            None => self.iter.next(),
        };
        self.peeked = Some(tok);
        match tok {
            Some(t) => Some(t.kind),
            None => None,
        }
    }

    /// Takes the next token, which has to be of the given kind.
    pub fn expect(&mut self, kind: TokenKind) -> (r: Result<Token, ParseError>)
        requires
            old(self).wf(),
        ensures
            final(self).wf(),
            final(self).source() == old(self).source(),
            match expect_spec(old(self).source(), old(self).offset(), kind) {
                Ok(lx) => r == Ok::<Token, ParseError>(lx.token) && final(self).offset()
                    == lx.next && span_fits(old(self).source(), lx.token.span),
                Err(e) => r matches Err(x) && x@ == e,
            },
    {
        match self.get() {
            Err(e) => Err(e),
            Ok(tok) => {
                if tok.kind == kind {
                    Ok(tok)
                } else {
                    Err(
                        ParseError::UnexpectedToken {
                            expected: kind_to_string(kind),
                            found: kind_to_string(tok.kind),
                            at: tok.span,
                        },
                    )
                }
            },
        }
    }

    /// Drops the next token, which has to be there.
    pub fn skip(&mut self)
        requires
            old(self).wf(),
            token_at(old(self).source(), old(self).offset()) is Some,
        ensures
            final(self).wf(),
            final(self).source() == old(self).source(),
            final(self).offset() == token_at(old(self).source(), old(self).offset())->0.next,
    {
        let _ = self.get();
    }

    /// Parses one S-expression.
    #[verifier::loop_isolation(false)]
    pub fn parse_sexpr(&mut self) -> (r: Result<ParsedSExpr, ParseError>)
        requires
            old(self).wf(),
        ensures
            final(self).wf(),
            final(self).source() == old(self).source(),
            match parse_sexpr_spec(old(self).source(), old(self).offset()) {
                Ok((tree, next)) => {
                    &&& r matches Ok(t)
                    &&& t@ == tree
                    &&& tree_fits(old(self).source(), tree)
                    &&& final(self).offset() == next
                    &&& old(self).offset() < next <= old(self).source().len()
                },
                Err(e) => r matches Err(x) && x@ == e,
            },
        decreases old(self).source().len() - old(self).offset(),
    {
        let ghost s = self.source();
        let ghost start = self.offset();
        proof {
            lemma_token_at(s, start);
        }
        match self.expect(TokenKind::LParen) {
            Err(e) => {
                return Err(e);
            },
            Ok(_) => {},
        }
        proof {
            lemma_token_at(s, self.offset());
        }
        let label = match self.expect(TokenKind::String) {
            Err(e) => {
                return Err(e);
            },
            Ok(t) => t,
        };
        let mut children: Vec<ParsedSExpr> = Vec::new();
        assert(trees(children@) =~= Seq::empty());
        loop
            invariant
                self.wf(),
                self.source() == s,
                start < self.offset() <= s.len(),
                span_fits(s, label.span),
                forall|i: int| 0 <= i < children.len() ==> tree_fits(s, #[trigger] children[i]@),
                parse_rest_spec(s, self.offset(), label.span, trees(children@)) == parse_sexpr_spec(
                    s,
                    start,
                ),
            decreases s.len() - self.offset(),
        {
            let ghost here = self.offset();
            let ghost done = trees(children@);
            proof {
                lemma_token_at(s, here);
            }
            match self.peek() {
                None => {
                    match self.get() {
                        Err(e) => {
                            return Err(e);
                        },
                        Ok(_) => {
                            assert(false);
                        },
                    }
                },
                Some(TokenKind::RParen) => {
                    self.skip();
                    let node = ParsedSExpr::SExpr(label.span, children);
                    proof {
                        lemma_view_labeled(label.span, children);
                    }
                    assert(tree_fits(s, node@));
                    return Ok(node);
                },
                Some(TokenKind::LParen) => {
                    match self.parse_sexpr() {
                        Err(e) => {
                            return Err(e);
                        },
                        Ok(child) => {
                            children.push(child);
                            assert(trees(children@) =~= done.push(child@));
                        },
                    }
                },
                Some(TokenKind::String) => {
                    match self.get() {
                        Err(e) => {
                            return Err(e);
                        },
                        Ok(tok) => {
                            let atom = ParsedSExpr::String(tok.span);
                            children.push(atom);
                            assert(trees(children@) =~= done.push(SpanTree::Atom(tok.span)));
                        },
                    }
                },
                Some(TokenKind::Error) => {
                    match self.get() {
                        Err(e) => {
                            return Err(e);
                        },
                        Ok(tok) => {
                            return Err(
                                ParseError::UnknownToken {
                                    found: kind_to_string(tok.kind),
                                    at: tok.span,
                                },
                            );
                        },
                    }
                },
            }
        }
    }
}

impl Clone for ParsedSExpr {
    fn clone(&self) -> (r: Self)
        ensures
            r@ == self@,
    {
        self.duplicate()
    }
}

impl ParsedSExpr {
    /// A copy of the expression.
    fn duplicate(&self) -> (r: ParsedSExpr)
        ensures
            r@ == self@,
        decreases self,
    {
        match self {
            ParsedSExpr::SExpr(label, children) => {
                proof {
                    lemma_view_labeled(*label, *children);
                }
                let mut out: Vec<ParsedSExpr> = Vec::new();
                let mut i: usize = 0;
                while i < children.len()
                    invariant
                        i <= children.len(),
                        out.len() == i,
                        forall|j: int| 0 <= j < i ==> (#[trigger] out[j])@ == children[j]@,
                        forall|j: int|
                            0 <= j < children.len() ==> decreases_to!(self => #[trigger] children@[j]),
                    decreases children.len() - i,
                {
                    out.push(children[i].duplicate());
                    i += 1;
                }
                proof {
                    lemma_view_labeled(*label, out);
                    assert(trees(out@) =~= trees(children@));
                }
                ParsedSExpr::SExpr(*label, out)
            },
            ParsedSExpr::String(s) => ParsedSExpr::String(*s),
        }
    }

    /// The expression with each span replaced by the slice of `input` that
    /// it covers.
    #[verifier::loop_isolation(false)]
    pub fn into_sexpr<'a>(self, input: &'a str) -> (r: SExpr<'a>)
        requires
            tree_fits(input.spec_bytes(), self@),
        ensures
            r@ == tree_text(input.spec_bytes(), self@),
        decreases self,
    {
        let ghost s = input.spec_bytes();
        match self {
            ParsedSExpr::SExpr(label_span, children) => {
                let label = substring(input, label_span.start, label_span.end);
                let ghost kids = children@;
                let ghost whole = SpanTree::Labeled(label_span, trees(kids));
                proof {
                    lemma_view_labeled(label_span, children);
                }
                assert(tree_fits(s, whole));
                assert forall|j: int| 0 <= j < kids.len() implies tree_fits(s, #[trigger] kids[j]@) by {
                    lemma_children_fit(s, label_span, trees(kids), j);
                }
                let mut out: Vec<SExpr<'a>> = Vec::new();
                for child in it: children.into_iter()
                    invariant
                        it.seq() == kids,
                        forall|j: int| 0 <= j < kids.len() ==> tree_fits(s, #[trigger] kids[j]@),
                        out.len() == it.index(),
                        forall|j: int|
                            0 <= j < out.len() ==> (#[trigger] out[j])@ == tree_text(s, kids[j]@),
                {
                    let ghost i = it.index() as int;
                    assert(0 <= i < kids.len());
                    assert(child == kids[i]);
                    let e = child.into_sexpr(input);
                    out.push(e);
                }
                proof {
                    crate::sexpr::lemma_view_labeled(label, out);
                    assert(crate::sexpr::views(out@) =~= tree_text(s, whole)->Labeled_1);
                }
                SExpr::SExpr(label, out)
            },
            ParsedSExpr::String(sp) => SExpr::String(substring(input, sp.start, sp.end)),
        }
    }
}

impl<'a> SExpr<'a> {
    /// Reads the first S-expression of `input`. What follows its closing
    /// parenthesis is not looked at.
    pub fn try_from(input: &'a str) -> (r: Result<SExpr<'a>, ParseError>)
        ensures
            agrees(r, sexpr_of(input.spec_bytes())),
    {
        let mut parser = Parser::new(input);
        match parser.parse_sexpr() {
            Err(e) => Err(e),
            Ok(tree) => Ok(tree.into_sexpr(input)),
        }
    }
}

} // verus!
