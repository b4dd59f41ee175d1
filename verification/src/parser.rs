//! Recursive-descent parser.
//!
//! The parser consumes the token sequence and produces exactly one tree per
//! expression.  It is total: malformed syntax becomes `TokenError` or
//! `ParserError` nodes instead of a panic.  Whitespace and newline tokens
//! are skipped explicitly wherever the grammar expects a non-trivial token.
//!
//! The grammar:
//!
//! ```text
//! program    ::= expr* EOF
//! expr       ::= literal | nil | ident | '(' paren_expr ')'
//! paren_expr ::= binary_op expr expr
//!              | unary_op expr
//!              | ident expr            (function call, one argument)
//!              | reserved_kw expr
//!              | expr                  (grouping)
//! ```
//!
//! The mathematical model is `spec_parse_expr`, a total function over token
//! sequences.  It carries a fuel argument only to show termination; any
//! large enough fuel gives the same answer (`lemma_parse_fuel`), and
//! `spec_parse_expr_at` is the model with the fuel chosen canonically.

use vstd::prelude::*;

use crate::ast::{AstNode, SpecAst};
use crate::tokenizer::{Delimiter, Literal, ReservedKw, SpecToken, Token, spec_kw_text};

verus! {

/// A layout token: a space or a newline.
pub open spec fn is_ws_token(t: SpecToken) -> bool {
    t == SpecToken::Delimiter(Delimiter::Space) || t == SpecToken::Delimiter(Delimiter::NewLine)
}

/// The first position at or after `pos` that does not hold a layout token
/// (or the end of the sequence).
pub open spec fn spec_skip_ws(tokens: Seq<SpecToken>, pos: int) -> int
    decreases tokens.len() - pos,
{
    if 0 <= pos < tokens.len() && is_ws_token(tokens[pos]) {
        spec_skip_ws(tokens, pos + 1)
    } else {
        pos
    }
}

pub proof fn lemma_skip_ws_bounds(tokens: Seq<SpecToken>, pos: int)
    requires
        0 <= pos <= tokens.len(),
    ensures
        pos <= spec_skip_ws(tokens, pos) <= tokens.len(),
        spec_skip_ws(tokens, pos) < tokens.len() ==> !is_ws_token(
            tokens[spec_skip_ws(tokens, pos)],
        ),
    decreases tokens.len() - pos,
{
    if pos < tokens.len() && is_ws_token(tokens[pos]) {
        lemma_skip_ws_bounds(tokens, pos + 1);
    }
}

/// The diagnostic text of a `ParserError` node for a missing closing
/// parenthesis.
pub open spec fn spec_rparen_msg() -> Seq<char> {
    "unexpected token, expected a closing parenthesis"@
}

/// What `expect_token` yields: layout skipped, then the node itself when the
/// closing parenthesis stands there (consumed), else a `ParserError` node
/// wrapping the partial tree (a mismatched token is consumed; the end of the
/// input is not).
pub open spec fn spec_expect_rparen(tokens: Seq<SpecToken>, pos: int, node: SpecAst) -> (
    SpecAst,
    int,
) {
    let p = spec_skip_ws(tokens, pos);
    if 0 <= p < tokens.len() {
        if tokens[p] == SpecToken::Delimiter(Delimiter::RParen) {
            (node, p + 1)
        } else {
            (SpecAst::ParserError(spec_rparen_msg(), Box::new(node)), p + 1)
        }
    } else {
        (SpecAst::ParserError(spec_rparen_msg(), Box::new(node)), p)
    }
}

/// The expression starting at `pos`, and the position just after it.
///
/// Layout is skipped first.  A literal, `()`, an identifier, or the
/// keywords `true`, `false` and `nil` make a leaf; `(` opens a
/// parenthesized form; any other token (the end of the input included)
/// makes a `TokenError` leaf.  The fuel only bounds the recursion depth;
/// see `spec_parse_expr_at`.
pub open spec fn spec_parse_expr(tokens: Seq<SpecToken>, pos: int, fuel: nat) -> (SpecAst, int)
    decreases fuel, 1int,
{
    if fuel == 0 {
        (SpecAst::TokenError(SpecToken::Delimiter(Delimiter::Eof)), pos)
    } else {
        let p = spec_skip_ws(tokens, pos);
        if !(0 <= p < tokens.len()) {
            (SpecAst::TokenError(SpecToken::Delimiter(Delimiter::Eof)), p)
        } else {
            match tokens[p] {
                SpecToken::Literal(l) => (SpecAst::Literal(l), p + 1),
                SpecToken::Ident(s) => (SpecAst::Ident(s), p + 1),
                SpecToken::Nil => (SpecAst::Nil, p + 1),
                SpecToken::ReservedKw(kw) => if kw == ReservedKw::True || kw == ReservedKw::False {
                    (
                        SpecAst::Literal(
                            crate::tokenizer::SpecLiteral::Bool(spec_kw_text(kw)),
                        ),
                        p + 1,
                    )
                } else if kw == ReservedKw::Nil {
                    (SpecAst::Nil, p + 1)
                } else {
                    (SpecAst::TokenError(tokens[p]), p + 1)
                },
                SpecToken::Delimiter(Delimiter::LParen) => spec_parse_paren_body(
                    tokens,
                    p + 1,
                    (fuel - 1) as nat,
                ),
                _ => (SpecAst::TokenError(tokens[p]), p + 1),
            }
        }
    }
}

/// The parenthesized form whose `(` was just consumed: dispatch on the first
/// non-layout token.  A binary operator takes exactly two sub-expressions, a
/// unary operator one, an identifier makes a one-argument function call, a
/// reserved keyword a reserved form; anything else recurses into general
/// expression parsing (nested grouping).  Each form requires the matching
/// `)` right after, else the node is wrapped in a `ParserError`.
pub open spec fn spec_parse_paren_body(tokens: Seq<SpecToken>, pos: int, fuel: nat) -> (
    SpecAst,
    int,
)
    decreases fuel, 0int,
{
    if fuel == 0 {
        (SpecAst::TokenError(SpecToken::Delimiter(Delimiter::Eof)), pos)
    } else {
        let q = spec_skip_ws(tokens, pos);
        if !(0 <= q < tokens.len()) {
            (SpecAst::TokenError(SpecToken::Delimiter(Delimiter::Eof)), q)
        } else {
            match tokens[q] {
                SpecToken::BinaryOp(op) => {
                    let (lhs, p1) = spec_parse_expr(tokens, q + 1, (fuel - 1) as nat);
                    let (rhs, p2) = spec_parse_expr(tokens, p1, (fuel - 1) as nat);
                    spec_expect_rparen(
                        tokens,
                        p2,
                        SpecAst::BinaryOp { op, lhs: Box::new(lhs), rhs: Box::new(rhs) },
                    )
                },
                SpecToken::UnaryOp(op) => {
                    let (e, p1) = spec_parse_expr(tokens, q + 1, (fuel - 1) as nat);
                    spec_expect_rparen(tokens, p1, SpecAst::UnaryOp { op, expr: Box::new(e) })
                },
                SpecToken::Ident(s) => {
                    let (e, p1) = spec_parse_expr(tokens, q + 1, (fuel - 1) as nat);
                    spec_expect_rparen(
                        tokens,
                        p1,
                        SpecAst::FnCall { ident: s, expr: Box::new(e) },
                    )
                },
                SpecToken::ReservedKw(kw) => {
                    let (e, p1) = spec_parse_expr(tokens, q + 1, (fuel - 1) as nat);
                    spec_expect_rparen(tokens, p1, SpecAst::Reserved { kw, expr: Box::new(e) })
                },
                _ => {
                    let (e, p1) = spec_parse_expr(tokens, q, (fuel - 1) as nat);
                    spec_expect_rparen(tokens, p1, e)
                },
            }
        }
    }
}

/// The canonical fuel for parsing an expression at `pos`: enough for the
/// whole rest of the tokens, which `lemma_parse_fuel_expr` shows.
pub open spec fn spec_expr_fuel(tokens: Seq<SpecToken>, pos: int) -> nat {
    (2 * (tokens.len() - pos) + 2) as nat
}

/// The canonical fuel for parsing a parenthesized form at `pos`.
pub open spec fn spec_body_fuel(tokens: Seq<SpecToken>, pos: int) -> nat {
    (2 * (tokens.len() - pos) + 3) as nat
}

/// The expression starting at `pos`: the model that the executable parser
/// meets.
pub open spec fn spec_parse_expr_at(tokens: Seq<SpecToken>, pos: int) -> (SpecAst, int) {
    spec_parse_expr(tokens, pos, spec_expr_fuel(tokens, pos))
}

/// The parenthesized form at `pos` (after its `(`): the model that the
/// executable sub-rules meet.
pub open spec fn spec_parse_paren_body_at(tokens: Seq<SpecToken>, pos: int) -> (SpecAst, int) {
    spec_parse_paren_body(tokens, pos, spec_body_fuel(tokens, pos))
}

/// Any fuel of at least the canonical amount gives the canonical answer,
/// parsing never moves the position backwards, and it never runs past the
/// end of the tokens.
pub proof fn lemma_parse_fuel_expr(tokens: Seq<SpecToken>, pos: int, fuel: nat)
    requires
        0 <= pos <= tokens.len(),
        fuel >= spec_expr_fuel(tokens, pos),
    ensures
        spec_parse_expr(tokens, pos, fuel) == spec_parse_expr_at(tokens, pos),
        pos <= spec_parse_expr(tokens, pos, fuel).1 <= tokens.len(),
    decreases fuel, 0int,
{
    let len = tokens.len() as int;
    let c = spec_expr_fuel(tokens, pos);
    lemma_skip_ws_bounds(tokens, pos);
    let p = spec_skip_ws(tokens, pos);
    if 0 <= p < len {
        match tokens[p] {
            SpecToken::Delimiter(Delimiter::LParen) => {
                lemma_parse_fuel_body(tokens, p + 1, (fuel - 1) as nat);
                lemma_parse_fuel_body(tokens, p + 1, (c - 1) as nat);
            },
            _ => {},
        }
    }
}

/// The same canonicality and bounds, for parenthesized forms.
pub proof fn lemma_parse_fuel_body(tokens: Seq<SpecToken>, pos: int, fuel: nat)
    requires
        0 <= pos <= tokens.len(),
        fuel >= spec_body_fuel(tokens, pos),
    ensures
        spec_parse_paren_body(tokens, pos, fuel) == spec_parse_paren_body_at(tokens, pos),
        pos <= spec_parse_paren_body(tokens, pos, fuel).1 <= tokens.len(),
    decreases fuel, 1int,
{
    let len = tokens.len() as int;
    let c = spec_body_fuel(tokens, pos);
    lemma_skip_ws_bounds(tokens, pos);
    let q = spec_skip_ws(tokens, pos);
    if 0 <= q < len {
        match tokens[q] {
            SpecToken::BinaryOp(op) => {
                lemma_parse_fuel_expr(tokens, q + 1, (fuel - 1) as nat);
                lemma_parse_fuel_expr(tokens, q + 1, (c - 1) as nat);
                let (lhs, p1) = spec_parse_expr(tokens, q + 1, (fuel - 1) as nat);
                lemma_parse_fuel_expr(tokens, p1, (fuel - 1) as nat);
                lemma_parse_fuel_expr(tokens, p1, (c - 1) as nat);
                let (rhs, p2) = spec_parse_expr(tokens, p1, (fuel - 1) as nat);
                lemma_skip_ws_bounds(tokens, p2);
            },
            SpecToken::UnaryOp(op) => {
                lemma_parse_fuel_expr(tokens, q + 1, (fuel - 1) as nat);
                lemma_parse_fuel_expr(tokens, q + 1, (c - 1) as nat);
                let (e, p1) = spec_parse_expr(tokens, q + 1, (fuel - 1) as nat);
                lemma_skip_ws_bounds(tokens, p1);
            },
            SpecToken::Ident(s) => {
                lemma_parse_fuel_expr(tokens, q + 1, (fuel - 1) as nat);
                lemma_parse_fuel_expr(tokens, q + 1, (c - 1) as nat);
                let (e, p1) = spec_parse_expr(tokens, q + 1, (fuel - 1) as nat);
                lemma_skip_ws_bounds(tokens, p1);
            },
            SpecToken::ReservedKw(kw) => {
                lemma_parse_fuel_expr(tokens, q + 1, (fuel - 1) as nat);
                lemma_parse_fuel_expr(tokens, q + 1, (c - 1) as nat);
                let (e, p1) = spec_parse_expr(tokens, q + 1, (fuel - 1) as nat);
                lemma_skip_ws_bounds(tokens, p1);
            },
            _ => {
                lemma_parse_fuel_expr(tokens, q, (fuel - 1) as nat);
                lemma_parse_fuel_expr(tokens, q, (c - 1) as nat);
                let (e, p1) = spec_parse_expr(tokens, q, (fuel - 1) as nat);
                lemma_skip_ws_bounds(tokens, p1);
            },
        }
    }
}

/// Skipping layout first changes nothing: the parser skips it anyway.
pub proof fn lemma_expr_skip(tokens: Seq<SpecToken>, pos: int)
    requires
        0 <= pos <= tokens.len(),
    ensures
        spec_parse_expr_at(tokens, pos) == spec_parse_expr_at(
            tokens,
            spec_skip_ws(tokens, pos),
        ),
{
    let len = tokens.len() as int;
    lemma_skip_ws_bounds(tokens, pos);
    let p = spec_skip_ws(tokens, pos);
    assert(spec_skip_ws(tokens, p) == p);
    let f1 = spec_expr_fuel(tokens, pos);
    let f2 = spec_expr_fuel(tokens, p);
    if 0 <= p < len {
        match tokens[p] {
            SpecToken::Delimiter(Delimiter::LParen) => {
                lemma_parse_fuel_body(tokens, p + 1, (f1 - 1) as nat);
                lemma_parse_fuel_body(tokens, p + 1, (f2 - 1) as nat);
            },
            _ => {},
        }
    }
}

/// The same, for parenthesized forms.
pub proof fn lemma_body_skip(tokens: Seq<SpecToken>, pos: int)
    requires
        0 <= pos <= tokens.len(),
    ensures
        spec_parse_paren_body_at(tokens, pos) == spec_parse_paren_body_at(
            tokens,
            spec_skip_ws(tokens, pos),
        ),
{
    let len = tokens.len() as int;
    lemma_skip_ws_bounds(tokens, pos);
    let q = spec_skip_ws(tokens, pos);
    assert(spec_skip_ws(tokens, q) == q);
    let f1 = spec_body_fuel(tokens, pos);
    let f2 = spec_body_fuel(tokens, q);
    if 0 <= q < len {
        match tokens[q] {
            SpecToken::BinaryOp(op) => {
                lemma_parse_fuel_expr(tokens, q + 1, (f1 - 1) as nat);
                lemma_parse_fuel_expr(tokens, q + 1, (f2 - 1) as nat);
                let (lhs, p1) = spec_parse_expr(tokens, q + 1, (f1 - 1) as nat);
                lemma_parse_fuel_expr(tokens, p1, (f1 - 1) as nat);
                lemma_parse_fuel_expr(tokens, p1, (f2 - 1) as nat);
            },
            SpecToken::UnaryOp(op) => {
                lemma_parse_fuel_expr(tokens, q + 1, (f1 - 1) as nat);
                lemma_parse_fuel_expr(tokens, q + 1, (f2 - 1) as nat);
            },
            SpecToken::Ident(id) => {
                lemma_parse_fuel_expr(tokens, q + 1, (f1 - 1) as nat);
                lemma_parse_fuel_expr(tokens, q + 1, (f2 - 1) as nat);
            },
            SpecToken::ReservedKw(kw) => {
                lemma_parse_fuel_expr(tokens, q + 1, (f1 - 1) as nat);
                lemma_parse_fuel_expr(tokens, q + 1, (f2 - 1) as nat);
            },
            _ => {
                lemma_parse_fuel_expr(tokens, q, (f1 - 1) as nat);
                lemma_parse_fuel_expr(tokens, q, (f2 - 1) as nat);
            },
        }
    }
}

/// Parsing an expression that starts inside the tokens consumes at least
/// the one token it dispatched on.
pub proof fn lemma_expr_advances(tokens: Seq<SpecToken>, pos: int)
    requires
        0 <= pos <= tokens.len(),
        spec_skip_ws(tokens, pos) < tokens.len(),
    ensures
        spec_skip_ws(tokens, pos) < spec_parse_expr_at(tokens, pos).1 <= tokens.len(),
{
    let len = tokens.len() as int;
    lemma_skip_ws_bounds(tokens, pos);
    let p = spec_skip_ws(tokens, pos);
    let f1 = spec_expr_fuel(tokens, pos);
    match tokens[p] {
        SpecToken::Delimiter(Delimiter::LParen) => {
            lemma_parse_fuel_body(tokens, p + 1, (f1 - 1) as nat);
        },
        _ => {},
    }
    lemma_parse_fuel_expr(tokens, pos, f1);
}

/// The program starting at `pos`: every expression in order, up to the
/// `Eof` token or the end of the tokens.  The fuel only bounds the
/// recursion depth; see `spec_parse_prog_at`.
pub open spec fn spec_parse_prog(tokens: Seq<SpecToken>, pos: int, fuel: nat) -> Seq<SpecAst>
    decreases fuel,
{
    if fuel == 0 {
        Seq::empty()
    } else {
        let p = spec_skip_ws(tokens, pos);
        if !(0 <= p < tokens.len()) || tokens[p] == SpecToken::Delimiter(Delimiter::Eof) {
            Seq::empty()
        } else {
            let (n, p2) = spec_parse_expr_at(tokens, p);
            seq![n] + spec_parse_prog(tokens, p2, (fuel - 1) as nat)
        }
    }
}

/// The canonical fuel for a program at `pos`.
pub open spec fn spec_prog_fuel(tokens: Seq<SpecToken>, pos: int) -> nat {
    (tokens.len() - pos + 1) as nat
}

/// The program starting at `pos`: the model that `parse_prog` meets.
pub open spec fn spec_parse_prog_at(tokens: Seq<SpecToken>, pos: int) -> Seq<SpecAst> {
    spec_parse_prog(tokens, pos, spec_prog_fuel(tokens, pos))
}

/// Any fuel of at least the canonical amount gives the canonical program.
pub proof fn lemma_prog_fuel(tokens: Seq<SpecToken>, pos: int, fuel: nat)
    requires
        0 <= pos <= tokens.len(),
        fuel >= spec_prog_fuel(tokens, pos),
    ensures
        spec_parse_prog(tokens, pos, fuel) == spec_parse_prog_at(tokens, pos),
    decreases fuel,
{
    let len = tokens.len() as int;
    let c = spec_prog_fuel(tokens, pos);
    lemma_skip_ws_bounds(tokens, pos);
    let p = spec_skip_ws(tokens, pos);
    if 0 <= p < len && tokens[p] != SpecToken::Delimiter(Delimiter::Eof) {
        lemma_expr_advances(tokens, pos);
        lemma_expr_skip(tokens, pos);
        let (n, p2) = spec_parse_expr_at(tokens, p);
        assert(spec_parse_expr_at(tokens, p) == spec_parse_expr_at(tokens, pos));
        lemma_prog_fuel(tokens, p2, (fuel - 1) as nat);
        lemma_prog_fuel(tokens, p2, (c - 1) as nat);
    }
}

/// A layout token, executably.
fn is_layout(t: &Token) -> (b: bool)
    ensures
        b == is_ws_token(t@),
{
    match t {
        Token::Delimiter(Delimiter::Space) => true,
        Token::Delimiter(Delimiter::NewLine) => true,
        _ => false,
    }
}

/// The diagnostic text of a `ParserError` node for a missing closing
/// parenthesis.
fn rparen_message() -> (r: String)
    ensures
        r@ == spec_rparen_msg(),
{
    String::from_str("unexpected token, expected a closing parenthesis")
}

/// The parser: a cursor over an owned token sequence.
pub struct Parser {
    tokens: Vec<Token>,
    pos: usize,
}

impl Parser {
    /// The cursor never stands past the end of the tokens.
    pub closed spec fn wf(&self) -> bool {
        self.pos <= self.tokens.len()
    }

    /// The tokens being parsed.
    pub closed spec fn spec_tokens(&self) -> Seq<SpecToken> {
        self.tokens.deep_view()
    }

    /// The cursor position.
    pub closed spec fn spec_pos(&self) -> int {
        self.pos as int
    }

    /// A parser over `tokens`, with the cursor at the start.
    pub fn new(tokens: Vec<Token>) -> (p: Parser)
        ensures
            p.wf(),
            p.spec_tokens() == tokens.deep_view(),
            p.spec_pos() == 0,
    {
        Parser { tokens, pos: 0 }
    }

    /// The token at the cursor, if any, without consuming it.
    pub fn peek_next_token(&self) -> (r: Option<&Token>)
        requires
            self.wf(),
        ensures
            match r {
                Some(t) => self.spec_pos() < self.spec_tokens().len() && t@
                    == self.spec_tokens()[self.spec_pos()],
                None => self.spec_pos() == self.spec_tokens().len(),
            },
    {
        if self.pos < self.tokens.len() {
            proof {
                assert(self.tokens.deep_view()[self.pos as int] == self.tokens@[
                    self.pos as int
                ].deep_view());
            }
            Some(&self.tokens[self.pos])
        } else {
            None
        }
    }

    /// The token at the cursor, consumed, if any.
    pub fn next_token(&mut self) -> (r: Option<Token>)
        requires
            old(self).wf(),
        ensures
            final(self).wf(),
            final(self).spec_tokens() == old(self).spec_tokens(),
            match r {
                Some(t) => old(self).spec_pos() < old(self).spec_tokens().len() && t@
                    == old(self).spec_tokens()[old(self).spec_pos()] && final(self).spec_pos()
                    == old(self).spec_pos() + 1,
                None => old(self).spec_pos() == old(self).spec_tokens().len()
                    && final(self).spec_pos() == old(self).spec_pos(),
            },
    {
        if self.pos < self.tokens.len() {
            proof {
                assert(self.tokens.deep_view()[self.pos as int] == self.tokens@[
                    self.pos as int
                ].deep_view());
            }
            let t = crate::tokenizer::clone_token(&self.tokens[self.pos]);
            self.pos += 1;
            Some(t)
        } else {
            None
        }
    }

    /// Moves the cursor past any layout tokens.
    #[verifier::loop_isolation(false)]
    fn skip_layout(&mut self)
        requires
            old(self).wf(),
        ensures
            final(self).wf(),
            final(self).spec_tokens() == old(self).spec_tokens(),
            final(self).spec_pos() == spec_skip_ws(old(self).spec_tokens(), old(self).spec_pos()),
    {
        let ghost toks = self.tokens.deep_view();
        let ghost start = self.pos as int;
        while self.pos < self.tokens.len() && is_layout(&self.tokens[self.pos])
            invariant
                self.wf(),
                self.tokens.deep_view() == toks,
                0 <= start <= self.pos as int,
                spec_skip_ws(toks, start) == spec_skip_ws(toks, self.pos as int),
            decreases self.tokens.len() - self.pos,
        {
            proof {
                assert(toks[self.pos as int] == self.tokens@[self.pos as int].deep_view());
            }
            self.pos += 1;
        }
        proof {
            if (self.pos as int) < toks.len() {
                assert(toks[self.pos as int] == self.tokens@[self.pos as int].deep_view());
            }
        }
    }

    /// Relates the model of the token under the cursor to the vector.
    proof fn lemma_at_cursor(&self)
        requires
            self.wf(),
            self.spec_pos() < self.spec_tokens().len(),
        ensures
            self.spec_tokens().len() == self.tokens@.len(),
            self.spec_tokens()[self.spec_pos()] == self.tokens@[self.spec_pos()]@,
    {
        assert(self.tokens.deep_view()[self.pos as int] == self.tokens@[
            self.pos as int
        ].deep_view());
    }

    /// One leaf from the literal token at the cursor (after layout).
    fn parse_literal(&mut self) -> (node: AstNode)
        requires
            old(self).wf(),
            ({
                let toks = old(self).spec_tokens();
                let p = spec_skip_ws(toks, old(self).spec_pos());
                p < toks.len() && toks[p] matches SpecToken::Literal(_)
            }),
        ensures
            final(self).wf(),
            final(self).spec_tokens() == old(self).spec_tokens(),
            (node@, final(self).spec_pos()) == spec_parse_expr_at(
                old(self).spec_tokens(),
                old(self).spec_pos(),
            ),
    {
        self.skip_layout();
        proof {
            self.lemma_at_cursor();
        }
        match &self.tokens[self.pos] {
            Token::Literal(l) => {
                let owned = crate::tokenizer::clone_literal(l);
                self.pos += 1;
                AstNode::Literal(owned)
            },
            _ => vstd::pervasive::unreached(),
        }
    }

    /// One leaf from the number literal at the cursor.
    fn parse_number(&mut self) -> (node: AstNode)
        requires
            old(self).wf(),
            ({
                let toks = old(self).spec_tokens();
                let p = spec_skip_ws(toks, old(self).spec_pos());
                p < toks.len() && toks[p] matches SpecToken::Literal(
                    crate::tokenizer::SpecLiteral::Number(_),
                )
            }),
        ensures
            final(self).wf(),
            final(self).spec_tokens() == old(self).spec_tokens(),
            (node@, final(self).spec_pos()) == spec_parse_expr_at(
                old(self).spec_tokens(),
                old(self).spec_pos(),
            ),
    {
        self.parse_literal()
    }

    /// One leaf from the string literal at the cursor.
    fn parse_string(&mut self) -> (node: AstNode)
        requires
            old(self).wf(),
            ({
                let toks = old(self).spec_tokens();
                let p = spec_skip_ws(toks, old(self).spec_pos());
                p < toks.len() && toks[p] matches SpecToken::Literal(
                    crate::tokenizer::SpecLiteral::Str(_),
                )
            }),
        ensures
            final(self).wf(),
            final(self).spec_tokens() == old(self).spec_tokens(),
            (node@, final(self).spec_pos()) == spec_parse_expr_at(
                old(self).spec_tokens(),
                old(self).spec_pos(),
            ),
    {
        self.parse_literal()
    }

    /// The nil leaf from the `()` token at the cursor.
    fn parse_nil(&mut self) -> (node: AstNode)
        requires
            old(self).wf(),
            ({
                let toks = old(self).spec_tokens();
                let p = spec_skip_ws(toks, old(self).spec_pos());
                p < toks.len() && toks[p] == SpecToken::Nil
            }),
        ensures
            final(self).wf(),
            final(self).spec_tokens() == old(self).spec_tokens(),
            (node@, final(self).spec_pos()) == spec_parse_expr_at(
                old(self).spec_tokens(),
                old(self).spec_pos(),
            ),
    {
        self.skip_layout();
        proof {
            self.lemma_at_cursor();
        }
        self.pos += 1;
        AstNode::Nil
    }

    /// One leaf from the identifier token at the cursor.
    fn parse_ident(&mut self) -> (node: AstNode)
        requires
            old(self).wf(),
            ({
                let toks = old(self).spec_tokens();
                let p = spec_skip_ws(toks, old(self).spec_pos());
                p < toks.len() && toks[p] matches SpecToken::Ident(_)
            }),
        ensures
            final(self).wf(),
            final(self).spec_tokens() == old(self).spec_tokens(),
            (node@, final(self).spec_pos()) == spec_parse_expr_at(
                old(self).spec_tokens(),
                old(self).spec_pos(),
            ),
    {
        self.skip_layout();
        proof {
            self.lemma_at_cursor();
        }
        match &self.tokens[self.pos] {
            Token::Ident(name) => {
                let owned = name.clone();
                self.pos += 1;
                AstNode::Ident(owned)
            },
            _ => vstd::pervasive::unreached(),
        }
    }

    /// One expression from the cursor on.  Total: any token that cannot
    /// begin an expression (the end of the input included) becomes a
    /// `TokenError` leaf, consumed.
    pub fn parse_expr(&mut self) -> (node: AstNode)
        requires
            old(self).wf(),
        ensures
            final(self).wf(),
            final(self).spec_tokens() == old(self).spec_tokens(),
            (node@, final(self).spec_pos()) == spec_parse_expr_at(
                old(self).spec_tokens(),
                old(self).spec_pos(),
            ),
        decreases old(self).spec_tokens().len() - old(self).spec_pos(), 1int,
    {
        let ghost toks = self.tokens.deep_view();
        let ghost start = self.pos as int;
        proof {
            lemma_skip_ws_bounds(toks, start);
            lemma_expr_skip(toks, start);
        }
        self.skip_layout();
        if self.pos >= self.tokens.len() {
            return AstNode::TokenError(Token::Delimiter(Delimiter::Eof));
        }
        proof {
            self.lemma_at_cursor();
        }
        match &self.tokens[self.pos] {
            Token::Literal(Literal::Number(_)) => self.parse_number(),
            Token::Literal(Literal::Str(_)) => self.parse_string(),
            Token::Literal(_) => self.parse_literal(),
            Token::Nil => self.parse_nil(),
            Token::Ident(_) => self.parse_ident(),
            Token::ReservedKw(kw) => {
                let k = *kw;
                match k {
                    ReservedKw::True => {
                        self.pos += 1;
                        AstNode::Literal(Literal::Bool(k.as_text()))
                    },
                    ReservedKw::False => {
                        self.pos += 1;
                        AstNode::Literal(Literal::Bool(k.as_text()))
                    },
                    ReservedKw::Nil => {
                        self.pos += 1;
                        AstNode::Nil
                    },
                    _ => {
                        let t = crate::tokenizer::clone_token(&self.tokens[self.pos]);
                        self.pos += 1;
                        AstNode::TokenError(t)
                    },
                }
            },
            Token::Delimiter(Delimiter::LParen) => self.parse_paren_expr(),
            _ => {
                let t = crate::tokenizer::clone_token(&self.tokens[self.pos]);
                self.pos += 1;
                AstNode::TokenError(t)
            },
        }
    }

    /// A parenthesized form: consumes the `(` at the cursor and dispatches
    /// on the first token after it.
    fn parse_paren_expr(&mut self) -> (node: AstNode)
        requires
            old(self).wf(),
            ({
                let toks = old(self).spec_tokens();
                let p = spec_skip_ws(toks, old(self).spec_pos());
                p < toks.len() && toks[p] == SpecToken::Delimiter(Delimiter::LParen)
            }),
        ensures
            final(self).wf(),
            final(self).spec_tokens() == old(self).spec_tokens(),
            (node@, final(self).spec_pos()) == spec_parse_expr_at(
                old(self).spec_tokens(),
                old(self).spec_pos(),
            ),
        decreases old(self).spec_tokens().len() - old(self).spec_pos(), 0int,
    {
        let ghost toks = self.tokens.deep_view();
        let ghost start = self.pos as int;
        proof {
            lemma_skip_ws_bounds(toks, start);
        }
        self.skip_layout();
        proof {
            self.lemma_at_cursor();
        }
        let ghost p = self.pos as int;
        self.pos += 1;
        proof {
            // The whole expression is the paren body after the `(`.
            lemma_parse_fuel_body(toks, p + 1, (spec_expr_fuel(toks, start) - 1) as nat);
            lemma_body_skip(toks, p + 1);
            lemma_skip_ws_bounds(toks, p + 1);
        }
        self.skip_layout();
        if self.pos >= self.tokens.len() {
            return AstNode::TokenError(Token::Delimiter(Delimiter::Eof));
        }
        proof {
            self.lemma_at_cursor();
        }
        match &self.tokens[self.pos] {
            Token::BinaryOp(_) => self.parse_binary_op(),
            Token::UnaryOp(_) => self.parse_unary_op(),
            Token::Ident(_) => self.parse_func_call(),
            Token::ReservedKw(_) => self.parse_reserved_expr(),
            _ => {
                let ghost q = self.pos as int;
                proof {
                    lemma_parse_fuel_expr(toks, q, (spec_body_fuel(toks, q) - 1) as nat);
                }
                let e = self.parse_expr();
                self.expect_token(e)
            },
        }
    }

    /// A binary operation: the operator at the cursor, two sub-expressions,
    /// and the matching `)`.
    fn parse_binary_op(&mut self) -> (node: AstNode)
        requires
            old(self).wf(),
            ({
                let toks = old(self).spec_tokens();
                let q = spec_skip_ws(toks, old(self).spec_pos());
                q < toks.len() && toks[q] matches SpecToken::BinaryOp(_)
            }),
        ensures
            final(self).wf(),
            final(self).spec_tokens() == old(self).spec_tokens(),
            (node@, final(self).spec_pos()) == spec_parse_paren_body_at(
                old(self).spec_tokens(),
                old(self).spec_pos(),
            ),
        decreases old(self).spec_tokens().len() - old(self).spec_pos(), 0int,
    {
        let ghost toks = self.tokens.deep_view();
        let ghost start = self.pos as int;
        proof {
            lemma_skip_ws_bounds(toks, start);
        }
        self.skip_layout();
        proof {
            self.lemma_at_cursor();
        }
        let ghost q = self.pos as int;
        let op = match &self.tokens[self.pos] {
            Token::BinaryOp(op) => *op,
            _ => vstd::pervasive::unreached(),
        };
        self.pos += 1;
        proof {
            lemma_parse_fuel_expr(toks, q + 1, (spec_body_fuel(toks, start) - 1) as nat);
        }
        let lhs = self.parse_expr();
        let ghost p1 = self.pos as int;
        proof {
            lemma_parse_fuel_expr(toks, p1, (spec_body_fuel(toks, start) - 1) as nat);
        }
        let rhs = self.parse_expr();
        let node = AstNode::BinaryOp { op, lhs: Box::new(lhs), rhs: Box::new(rhs) };
        self.expect_token(node)
    }

    /// A unary operation: the operator at the cursor, one sub-expression,
    /// and the matching `)`.
    fn parse_unary_op(&mut self) -> (node: AstNode)
        requires
            old(self).wf(),
            ({
                let toks = old(self).spec_tokens();
                let q = spec_skip_ws(toks, old(self).spec_pos());
                q < toks.len() && toks[q] matches SpecToken::UnaryOp(_)
            }),
        ensures
            final(self).wf(),
            final(self).spec_tokens() == old(self).spec_tokens(),
            (node@, final(self).spec_pos()) == spec_parse_paren_body_at(
                old(self).spec_tokens(),
                old(self).spec_pos(),
            ),
        decreases old(self).spec_tokens().len() - old(self).spec_pos(), 0int,
    {
        let ghost toks = self.tokens.deep_view();
        let ghost start = self.pos as int;
        proof {
            lemma_skip_ws_bounds(toks, start);
        }
        self.skip_layout();
        proof {
            self.lemma_at_cursor();
        }
        let ghost q = self.pos as int;
        let op = match &self.tokens[self.pos] {
            Token::UnaryOp(op) => *op,
            _ => vstd::pervasive::unreached(),
        };
        self.pos += 1;
        proof {
            lemma_parse_fuel_expr(toks, q + 1, (spec_body_fuel(toks, start) - 1) as nat);
        }
        let expr = self.parse_expr();
        let node = AstNode::UnaryOp { op, expr: Box::new(expr) };
        self.expect_token(node)
    }

    /// A function call: the called name at the cursor, exactly one argument
    /// expression, and the matching `)`.
    fn parse_func_call(&mut self) -> (node: AstNode)
        requires
            old(self).wf(),
            ({
                let toks = old(self).spec_tokens();
                let q = spec_skip_ws(toks, old(self).spec_pos());
                q < toks.len() && toks[q] matches SpecToken::Ident(_)
            }),
        ensures
            final(self).wf(),
            final(self).spec_tokens() == old(self).spec_tokens(),
            (node@, final(self).spec_pos()) == spec_parse_paren_body_at(
                old(self).spec_tokens(),
                old(self).spec_pos(),
            ),
        decreases old(self).spec_tokens().len() - old(self).spec_pos(), 0int,
    {
        let ghost toks = self.tokens.deep_view();
        let ghost start = self.pos as int;
        proof {
            lemma_skip_ws_bounds(toks, start);
        }
        self.skip_layout();
        proof {
            self.lemma_at_cursor();
        }
        let ghost q = self.pos as int;
        let ident = match &self.tokens[self.pos] {
            Token::Ident(name) => name.clone(),
            _ => vstd::pervasive::unreached(),
        };
        self.pos += 1;
        proof {
            lemma_parse_fuel_expr(toks, q + 1, (spec_body_fuel(toks, start) - 1) as nat);
        }
        let expr = self.parse_expr();
        let node = AstNode::FnCall { ident, expr: Box::new(expr) };
        self.expect_token(node)
    }

    /// A reserved-keyword form: the keyword at the cursor, one
    /// sub-expression, and the matching `)`.
    fn parse_reserved_expr(&mut self) -> (node: AstNode)
        requires
            old(self).wf(),
            ({
                let toks = old(self).spec_tokens();
                let q = spec_skip_ws(toks, old(self).spec_pos());
                q < toks.len() && toks[q] matches SpecToken::ReservedKw(_)
            }),
        ensures
            final(self).wf(),
            final(self).spec_tokens() == old(self).spec_tokens(),
            (node@, final(self).spec_pos()) == spec_parse_paren_body_at(
                old(self).spec_tokens(),
                old(self).spec_pos(),
            ),
        decreases old(self).spec_tokens().len() - old(self).spec_pos(), 0int,
    {
        let ghost toks = self.tokens.deep_view();
        let ghost start = self.pos as int;
        proof {
            lemma_skip_ws_bounds(toks, start);
        }
        self.skip_layout();
        proof {
            self.lemma_at_cursor();
        }
        let ghost q = self.pos as int;
        let kw = match &self.tokens[self.pos] {
            Token::ReservedKw(kw) => *kw,
            _ => vstd::pervasive::unreached(),
        };
        self.pos += 1;
        proof {
            lemma_parse_fuel_expr(toks, q + 1, (spec_body_fuel(toks, start) - 1) as nat);
        }
        let expr = self.parse_expr();
        let node = AstNode::Reserved { kw, expr: Box::new(expr) };
        self.expect_token(node)
    }

    /// Requires the closing parenthesis right after `node` (layout aside):
    /// when it stands there it is consumed and `node` is returned whole;
    /// else `node` is wrapped in a `ParserError` that keeps the partial
    /// tree.
    fn expect_token(&mut self, node: AstNode) -> (r: AstNode)
        requires
            old(self).wf(),
        ensures
            final(self).wf(),
            final(self).spec_tokens() == old(self).spec_tokens(),
            (r@, final(self).spec_pos()) == spec_expect_rparen(
                old(self).spec_tokens(),
                old(self).spec_pos(),
                node@,
            ),
    {
        let ghost toks = self.tokens.deep_view();
        let ghost start = self.pos as int;
        proof {
            lemma_skip_ws_bounds(toks, start);
        }
        self.skip_layout();
        if self.pos >= self.tokens.len() {
            return AstNode::ParserError(rparen_message(), Box::new(node));
        }
        proof {
            self.lemma_at_cursor();
        }
        let is_rparen = match &self.tokens[self.pos] {
            Token::Delimiter(Delimiter::RParen) => true,
            _ => false,
        };
        self.pos += 1;
        if is_rparen {
            node
        } else {
            AstNode::ParserError(rparen_message(), Box::new(node))
        }
    }

    /// Every expression up to the `Eof` token (or the end of the tokens),
    /// in order.
    #[verifier::loop_isolation(false)]
    pub fn parse_prog(&mut self) -> (prog: Vec<AstNode>)
        requires
            old(self).wf(),
        ensures
            final(self).wf(),
            final(self).spec_tokens() == old(self).spec_tokens(),
            prog.deep_view() == spec_parse_prog_at(old(self).spec_tokens(), old(self).spec_pos()),
    {
        let ghost toks = self.tokens.deep_view();
        let ghost start = self.pos as int;
        let mut prog: Vec<AstNode> = Vec::new();
        loop
            invariant
                self.wf(),
                self.tokens.deep_view() == toks,
                0 <= start <= self.pos as int,
                spec_parse_prog_at(toks, start) == prog.deep_view() + spec_parse_prog_at(
                    toks,
                    self.pos as int,
                ),
            decreases self.tokens.len() - self.pos,
        {
            let ghost posb = self.pos as int;
            let ghost progb = prog.deep_view();
            proof {
                lemma_skip_ws_bounds(toks, posb);
            }
            self.skip_layout();
            if self.pos >= self.tokens.len() {
                proof {
                    assert(spec_parse_prog_at(toks, posb) =~= Seq::<SpecAst>::empty());
                    assert(prog.deep_view() =~= spec_parse_prog_at(toks, start));
                }
                return prog;
            }
            proof {
                self.lemma_at_cursor();
            }
            let at_eof = match &self.tokens[self.pos] {
                Token::Delimiter(Delimiter::Eof) => true,
                _ => false,
            };
            if at_eof {
                proof {
                    assert(spec_parse_prog_at(toks, posb) =~= Seq::<SpecAst>::empty());
                    assert(prog.deep_view() =~= spec_parse_prog_at(toks, start));
                }
                return prog;
            }
            let ghost p = self.pos as int;
            proof {
                lemma_expr_advances(toks, posb);
                lemma_expr_skip(toks, posb);
            }
            let e = self.parse_expr();
            let ghost p2 = self.pos as int;
            prog.push(e);
            proof {
                assert(prog.deep_view() =~= progb + seq![e@]);
                lemma_prog_fuel(toks, p2, (spec_prog_fuel(toks, posb) - 1) as nat);
                assert(spec_parse_prog_at(toks, posb) == seq![e@] + spec_parse_prog_at(
                    toks,
                    p2,
                ));
                assert(prog.deep_view() + spec_parse_prog_at(toks, p2) =~= progb
                    + spec_parse_prog_at(toks, posb));
            }
        }
    }
}

/// Parsing from a position where the canonical token sequence of an
/// error-free tree stands yields back that very tree, consuming exactly
/// those tokens.
#[verifier::rlimit(100)]
#[verifier::spinoff_prover]
pub proof fn lemma_parse_canonical_at(tokens: Seq<SpecToken>, pos: int, n: SpecAst)
    requires
        crate::ast::spec_error_free(n),
        0 <= pos,
        pos + crate::ast::spec_canonical_tokens(n).len() <= tokens.len(),
        tokens.subrange(pos, pos + crate::ast::spec_canonical_tokens(n).len() as int)
            == crate::ast::spec_canonical_tokens(n),
    ensures
        spec_parse_expr_at(tokens, pos) == (n, pos + crate::ast::spec_canonical_tokens(n).len()),
    decreases n,
{
    let len = tokens.len() as int;
    let c = crate::ast::spec_canonical_tokens(n);
    assert(c[0] == tokens[pos]);
    assert(spec_skip_ws(tokens, pos) == pos);
    let f = spec_expr_fuel(tokens, pos);
    match n {
        SpecAst::Literal(l) => {},
        SpecAst::Ident(id) => {},
        SpecAst::Nil => {},
        SpecAst::BinaryOp { op, lhs, rhs } => {
            let cl = crate::ast::spec_canonical_tokens(*lhs);
            let cr = crate::ast::spec_canonical_tokens(*rhs);
            assert(c[1] == tokens[pos + 1]);
            assert(c[1] == SpecToken::BinaryOp(op));
            assert(spec_skip_ws(tokens, pos + 1) == pos + 1);
            // the expression is the paren body after `(`
            lemma_parse_fuel_body(tokens, pos + 1, (f - 1) as nat);
            let fb = spec_body_fuel(tokens, pos + 1);
            // the left child's tokens stand right after the operator
            assert(tokens.subrange(pos + 2, pos + 2 + cl.len() as int) =~= cl) by {
                assert(forall|j: int|
                    0 <= j < cl.len() ==> tokens[pos + 2 + j] == c[2 + j] && c[2 + j] == cl[j]);
            }
            lemma_parse_canonical_at(tokens, pos + 2, *lhs);
            lemma_parse_fuel_expr(tokens, pos + 2, (fb - 1) as nat);
            let p1 = pos + 2 + cl.len() as int;
            // the right child's tokens follow the left child's
            assert(tokens.subrange(p1, p1 + cr.len() as int) =~= cr) by {
                assert(forall|j: int|
                    0 <= j < cr.len() ==> tokens[p1 + j] == c[2 + cl.len() + j] && c[2 + cl.len()
                        + j] == cr[j]);
            }
            lemma_parse_canonical_at(tokens, p1, *rhs);
            lemma_parse_fuel_expr(tokens, p1, (fb - 1) as nat);
            let p2 = p1 + cr.len() as int;
            assert(tokens[p2] == c[c.len() - 1]);
            assert(tokens[p2] == SpecToken::Delimiter(Delimiter::RParen));
            assert(spec_skip_ws(tokens, p2) == p2);
            assert(spec_parse_expr_at(tokens, pos) == (n, pos + c.len() as int));
        },
        SpecAst::UnaryOp { op, expr } => {
            let ce = crate::ast::spec_canonical_tokens(*expr);
            assert(c[1] == tokens[pos + 1]);
            assert(c[1] == SpecToken::UnaryOp(op));
            assert(spec_skip_ws(tokens, pos + 1) == pos + 1);
            lemma_parse_fuel_body(tokens, pos + 1, (f - 1) as nat);
            let fb = spec_body_fuel(tokens, pos + 1);
            assert(tokens.subrange(pos + 2, pos + 2 + ce.len() as int) =~= ce) by {
                assert(forall|j: int|
                    0 <= j < ce.len() ==> tokens[pos + 2 + j] == c[2 + j] && c[2 + j] == ce[j]);
            }
            lemma_parse_canonical_at(tokens, pos + 2, *expr);
            lemma_parse_fuel_expr(tokens, pos + 2, (fb - 1) as nat);
            let p1 = pos + 2 + ce.len() as int;
            assert(tokens[p1] == c[c.len() - 1]);
            assert(spec_skip_ws(tokens, p1) == p1);
            assert(spec_parse_expr_at(tokens, pos) == (n, pos + c.len() as int));
        },
        SpecAst::FnCall { ident, expr } => {
            let ce = crate::ast::spec_canonical_tokens(*expr);
            assert(c[1] == tokens[pos + 1]);
            assert(c[1] == SpecToken::Ident(ident));
            assert(spec_skip_ws(tokens, pos + 1) == pos + 1);
            lemma_parse_fuel_body(tokens, pos + 1, (f - 1) as nat);
            let fb = spec_body_fuel(tokens, pos + 1);
            assert(tokens.subrange(pos + 2, pos + 2 + ce.len() as int) =~= ce) by {
                assert(forall|j: int|
                    0 <= j < ce.len() ==> tokens[pos + 2 + j] == c[2 + j] && c[2 + j] == ce[j]);
            }
            lemma_parse_canonical_at(tokens, pos + 2, *expr);
            lemma_parse_fuel_expr(tokens, pos + 2, (fb - 1) as nat);
            let p1 = pos + 2 + ce.len() as int;
            assert(tokens[p1] == c[c.len() - 1]);
            assert(spec_skip_ws(tokens, p1) == p1);
            assert(spec_parse_expr_at(tokens, pos) == (n, pos + c.len() as int));
        },
        SpecAst::Reserved { kw, expr } => {
            let ce = crate::ast::spec_canonical_tokens(*expr);
            assert(c[1] == tokens[pos + 1]);
            assert(c[1] == SpecToken::ReservedKw(kw));
            assert(spec_skip_ws(tokens, pos + 1) == pos + 1);
            lemma_parse_fuel_body(tokens, pos + 1, (f - 1) as nat);
            let fb = spec_body_fuel(tokens, pos + 1);
            assert(tokens.subrange(pos + 2, pos + 2 + ce.len() as int) =~= ce) by {
                assert(forall|j: int|
                    0 <= j < ce.len() ==> tokens[pos + 2 + j] == c[2 + j] && c[2 + j] == ce[j]);
            }
            lemma_parse_canonical_at(tokens, pos + 2, *expr);
            lemma_parse_fuel_expr(tokens, pos + 2, (fb - 1) as nat);
            let p1 = pos + 2 + ce.len() as int;
            assert(tokens[p1] == c[c.len() - 1]);
            assert(spec_skip_ws(tokens, p1) == p1);
            assert(spec_parse_expr_at(tokens, pos) == (n, pos + c.len() as int));
        },
        SpecAst::TokenError(t) => {},
        SpecAst::ParserError(m, sub) => {},
    }
}

/// Round-trip idempotence over tokens: re-parsing the canonical token
/// sequence of any error-free tree (with the `Eof` token after it, as the
/// tokenizer would emit) yields a structurally equal tree — the very same
/// tree.
pub proof fn lemma_canonical_round_trip(n: SpecAst)
    requires
        crate::ast::spec_error_free(n),
    ensures
        ({
            let toks = crate::ast::spec_canonical_tokens(n) + seq![
                SpecToken::Delimiter(Delimiter::Eof),
            ];
            spec_parse_expr_at(toks, 0) == (n, crate::ast::spec_canonical_tokens(n).len() as int)
        }),
{
    let c = crate::ast::spec_canonical_tokens(n);
    let toks = c + seq![SpecToken::Delimiter(Delimiter::Eof)];
    assert(toks.subrange(0, c.len() as int) =~= c);
    lemma_parse_canonical_at(toks, 0, n);
}

/// A character that can stand right after a canonical form without running
/// into it: layout, a closing parenthesis, or the end of the text.
pub open spec fn spec_boundary_ok(t: Seq<char>, p: int) -> bool {
    p == t.len() || t[p] == ' ' || t[p] == ')' || t[p] == '\n'
}

/// One scanning step extends the token sequence by one token.
proof fn lemma_tokenize_step(t: Seq<char>, p: int, tok: SpecToken, next: int)
    requires
        0 <= p < t.len(),
        crate::tokenizer::spec_next_token(t, p).0 == tok,
        crate::tokenizer::spec_next_token(t, p).1 == next,
    ensures
        crate::tokenizer::spec_tokenize_from(t, p) == seq![tok]
            + crate::tokenizer::spec_tokenize_from(t, next),
{
    assert(crate::tokenizer::spec_tokenize_from(t, p) == seq![
        crate::tokenizer::spec_next_token(t, p).0,
    ] + crate::tokenizer::spec_tokenize_from(t, crate::tokenizer::spec_next_token(t, p).1));
}

/// Scanning a text that starts with the canonical form of a tree (with a
/// boundary after it) yields exactly that tree's tokens, layout included,
/// and scanning then goes on from just after the form.
#[verifier::rlimit(100)]
#[verifier::spinoff_prover]
pub proof fn lemma_tokenize_chunk(t: Seq<char>, pos: int, n: SpecAst)
    requires
        crate::ast::spec_text_wf(n),
        0 <= pos,
        pos + crate::ast::spec_canonical_text(n).len() <= t.len(),
        t.subrange(pos, pos + crate::ast::spec_canonical_text(n).len() as int)
            == crate::ast::spec_canonical_text(n),
        spec_boundary_ok(t, pos + crate::ast::spec_canonical_text(n).len() as int),
    ensures
        crate::tokenizer::spec_tokenize_from(t, pos) == crate::ast::spec_layout_tokens(n)
            + crate::tokenizer::spec_tokenize_from(
            t,
            pos + crate::ast::spec_canonical_text(n).len() as int,
        ),
    decreases n,
{
    let text = crate::ast::spec_canonical_text(n);
    let tl_end = pos + text.len() as int;
    assert forall|j: int| 0 <= j < text.len() implies t[pos + j] == #[trigger] text[j] by {
        assert(t.subrange(pos, tl_end)[j] == t[pos + j]);
    }
    match n {
        SpecAst::Literal(crate::tokenizer::SpecLiteral::Number(s)) => {
            assert forall|j: int| 0 <= j < s.len() implies crate::tokenizer::is_digit_char(
                #[trigger] t[pos + j],
            ) by {
                assert(t[pos + j] == s[j]);
            }
            crate::tokenizer::lemma_digits_end_exact(t, pos, s.len() as int);
            assert(t.subrange(pos, pos + s.len() as int) =~= s);
            lemma_tokenize_step(
                t,
                pos,
                SpecToken::Literal(crate::tokenizer::SpecLiteral::Number(s)),
                tl_end,
            );
        },
        SpecAst::Literal(crate::tokenizer::SpecLiteral::Str(s)) => {
            assert(text[0] == '"');
            assert(t[pos + 0] == text[0]);
            assert forall|j: int| 0 <= j < s.len() implies #[trigger] t[pos + 1 + j] != '"' by {
                assert(t[pos + 1 + j] == text[1 + j]);
                assert(text[1 + j] == s[j]);
            }
            assert(t[pos + 1 + s.len() as int] == text[1 + s.len() as int]);
            assert(text[1 + s.len() as int] == '"');
            crate::tokenizer::lemma_string_end_exact(t, pos + 1, s.len() as int);
            assert forall|j: int| 0 <= j < s.len() implies (#[trigger] t.subrange(
                pos + 1,
                pos + 1 + s.len() as int,
            )[j]) == s[j] by {
                assert(t.subrange(pos + 1, pos + 1 + s.len() as int)[j] == t[pos + 1 + j]);
                assert(t[pos + 1 + j] == text[1 + j]);
                assert(text[1 + j] == s[j]);
            }
            assert(t.subrange(pos + 1, pos + 1 + s.len() as int) =~= s);
            lemma_tokenize_step(
                t,
                pos,
                SpecToken::Literal(crate::tokenizer::SpecLiteral::Str(s)),
                tl_end,
            );
        },
        SpecAst::Literal(crate::tokenizer::SpecLiteral::Bool(s)) => {
            let kw = if s == spec_kw_text(ReservedKw::True) {
                ReservedKw::True
            } else {
                ReservedKw::False
            };
            crate::tokenizer::lemma_kw_text_alpha(kw);
            assert forall|j: int| 0 <= j < s.len() implies crate::tokenizer::is_alnum_char(
                #[trigger] t[pos + j],
            ) by {
                assert(t[pos + j] == s[j]);
            }
            crate::tokenizer::lemma_word_end_exact(t, pos, s.len() as int);
            assert(t.subrange(pos, pos + s.len() as int) =~= s);
            lemma_tokenize_step(t, pos, SpecToken::ReservedKw(kw), tl_end);
        },
        SpecAst::Literal(crate::tokenizer::SpecLiteral::Char(_)) => {},
        SpecAst::Ident(s) => {
            assert forall|j: int| 0 <= j < s.len() implies crate::tokenizer::is_alnum_char(
                #[trigger] t[pos + j],
            ) by {
                assert(t[pos + j] == s[j]);
            }
            crate::tokenizer::lemma_word_end_exact(t, pos, s.len() as int);
            assert(t.subrange(pos, pos + s.len() as int) =~= s);
            lemma_tokenize_step(t, pos, SpecToken::Ident(s), tl_end);
        },
        SpecAst::Nil => {
            assert(text[0] == '(');
            assert(text[1] == ')');
            assert(t[pos + 0] == text[0]);
            assert(t[pos + 1] == text[1]);
            lemma_tokenize_step(t, pos, SpecToken::Nil, tl_end);
        },
        SpecAst::BinaryOp { op, lhs, rhs } => {
            let opc = crate::ast::spec_binop_char(op);
            let tl = crate::ast::spec_canonical_text(*lhs);
            let tr = crate::ast::spec_canonical_text(*rhs);
            assert(text =~= seq!['(', opc, ' '] + tl + seq![' '] + tr + seq![')']);
            assert(text[0] == '(');
            assert(text[1] == opc);
            assert(t[pos + 0] == text[0]);
            assert(t[pos + 1] == text[1]);
            assert(opc != ')');
            lemma_tokenize_step(
                t,
                pos,
                SpecToken::Delimiter(Delimiter::LParen),
                pos + 1,
            );
            lemma_tokenize_step(t, pos + 1, SpecToken::BinaryOp(op), pos + 2);
            assert(text[2] == ' ');
            assert(t[pos + 2] == text[2]);
            lemma_tokenize_step(
                t,
                pos + 2,
                SpecToken::Delimiter(Delimiter::Space),
                pos + 3,
            );
            assert forall|j: int| 0 <= j < tl.len() implies t[pos + 3 + j] == tl[j] by {
                assert(text[3 + j] == tl[j]);
            }
            assert(t.subrange(pos + 3, pos + 3 + tl.len() as int) =~= tl);
            let q = pos + 3 + tl.len() as int;
            assert(t[q] == text[3 + tl.len() as int]);
            assert(text[3 + tl.len() as int] == ' ');
            lemma_tokenize_chunk(t, pos + 3, *lhs);
            lemma_tokenize_step(t, q, SpecToken::Delimiter(Delimiter::Space), q + 1);
            assert forall|j: int| 0 <= j < tr.len() implies t[q + 1 + j] == tr[j] by {
                assert(text[4 + tl.len() as int + j] == tr[j]);
            }
            assert(t.subrange(q + 1, q + 1 + tr.len() as int) =~= tr);
            let q2 = q + 1 + tr.len() as int;
            assert(t[q2] == text[4 + tl.len() as int + tr.len() as int]);
            assert(text[4 + tl.len() as int + tr.len() as int] == ')');
            lemma_tokenize_chunk(t, q + 1, *rhs);
            lemma_tokenize_step(
                t,
                q2,
                SpecToken::Delimiter(Delimiter::RParen),
                q2 + 1,
            );
            assert(q2 + 1 == tl_end);
            assert(crate::tokenizer::spec_tokenize_from(t, pos)
                =~= crate::ast::spec_layout_tokens(n) + crate::tokenizer::spec_tokenize_from(
                t,
                tl_end,
            ));
        },
        SpecAst::UnaryOp { op, expr } => {
            let opc = crate::ast::spec_unop_char(op);
            let te = crate::ast::spec_canonical_text(*expr);
            assert(text =~= seq!['(', opc, ' '] + te + seq![')']);
            assert(text[0] == '(');
            assert(text[1] == opc);
            assert(t[pos + 0] == text[0]);
            assert(t[pos + 1] == text[1]);
            assert(opc != ')');
            lemma_tokenize_step(
                t,
                pos,
                SpecToken::Delimiter(Delimiter::LParen),
                pos + 1,
            );
            lemma_tokenize_step(t, pos + 1, SpecToken::UnaryOp(op), pos + 2);
            assert(text[2] == ' ');
            assert(t[pos + 2] == text[2]);
            lemma_tokenize_step(
                t,
                pos + 2,
                SpecToken::Delimiter(Delimiter::Space),
                pos + 3,
            );
            assert forall|j: int| 0 <= j < te.len() implies t[pos + 3 + j] == te[j] by {
                assert(text[3 + j] == te[j]);
            }
            assert(t.subrange(pos + 3, pos + 3 + te.len() as int) =~= te);
            let q = pos + 3 + te.len() as int;
            assert(t[q] == text[3 + te.len() as int]);
            assert(text[3 + te.len() as int] == ')');
            lemma_tokenize_chunk(t, pos + 3, *expr);
            lemma_tokenize_step(t, q, SpecToken::Delimiter(Delimiter::RParen), q + 1);
            assert(q + 1 == tl_end);
            assert(crate::tokenizer::spec_tokenize_from(t, pos)
                =~= crate::ast::spec_layout_tokens(n) + crate::tokenizer::spec_tokenize_from(
                t,
                tl_end,
            ));
        },
        SpecAst::FnCall { ident, expr } => {
            let te = crate::ast::spec_canonical_text(*expr);
            assert(text =~= seq!['('] + ident + seq![' '] + te + seq![')']);
            assert(text[0] == '(');
            assert(text[1] == ident[0]);
            assert(t[pos + 0] == text[0]);
            assert(t[pos + 1] == text[1]);
            lemma_tokenize_step(
                t,
                pos,
                SpecToken::Delimiter(Delimiter::LParen),
                pos + 1,
            );
            assert forall|j: int| 0 <= j < ident.len() implies crate::tokenizer::is_alnum_char(
                #[trigger] t[pos + 1 + j],
            ) by {
                assert(t[pos + 1 + j] == text[1 + j]);
                assert(text[1 + j] == ident[j]);
            }
            let q = pos + 1 + ident.len() as int;
            assert(t[q] == text[1 + ident.len() as int]);
            assert(text[1 + ident.len() as int] == ' ');
            crate::tokenizer::lemma_word_end_exact(t, pos + 1, ident.len() as int);
            assert forall|j: int| 0 <= j < ident.len() implies (#[trigger] t.subrange(
                pos + 1,
                q,
            )[j]) == ident[j] by {
                assert(t.subrange(pos + 1, q)[j] == t[pos + 1 + j]);
                assert(t[pos + 1 + j] == text[1 + j]);
                assert(text[1 + j] == ident[j]);
            }
            assert(t.subrange(pos + 1, q) =~= ident);
            lemma_tokenize_step(t, pos + 1, SpecToken::Ident(ident), q);
            lemma_tokenize_step(t, q, SpecToken::Delimiter(Delimiter::Space), q + 1);
            assert forall|j: int| 0 <= j < te.len() implies t[q + 1 + j] == te[j] by {
                assert(text[2 + ident.len() as int + j] == te[j]);
            }
            assert(t.subrange(q + 1, q + 1 + te.len() as int) =~= te);
            let q2 = q + 1 + te.len() as int;
            assert(t[q2] == text[2 + ident.len() as int + te.len() as int]);
            assert(text[2 + ident.len() as int + te.len() as int] == ')');
            lemma_tokenize_chunk(t, q + 1, *expr);
            lemma_tokenize_step(
                t,
                q2,
                SpecToken::Delimiter(Delimiter::RParen),
                q2 + 1,
            );
            assert(q2 + 1 == tl_end);
            assert(crate::tokenizer::spec_tokenize_from(t, pos)
                =~= crate::ast::spec_layout_tokens(n) + crate::tokenizer::spec_tokenize_from(
                t,
                tl_end,
            ));
        },
        SpecAst::Reserved { kw, expr } => {
            let kt = spec_kw_text(kw);
            let te = crate::ast::spec_canonical_text(*expr);
            assert(text =~= seq!['('] + kt + seq![' '] + te + seq![')']);
            crate::tokenizer::lemma_kw_text_alpha(kw);
            assert(text[0] == '(');
            assert(text[1] == kt[0]);
            assert(t[pos + 0] == text[0]);
            assert(t[pos + 1] == text[1]);
            lemma_tokenize_step(
                t,
                pos,
                SpecToken::Delimiter(Delimiter::LParen),
                pos + 1,
            );
            assert forall|j: int| 0 <= j < kt.len() implies crate::tokenizer::is_alnum_char(
                #[trigger] t[pos + 1 + j],
            ) by {
                assert(t[pos + 1 + j] == text[1 + j]);
                assert(text[1 + j] == kt[j]);
            }
            let q = pos + 1 + kt.len() as int;
            assert(t[q] == text[1 + kt.len() as int]);
            assert(text[1 + kt.len() as int] == ' ');
            crate::tokenizer::lemma_word_end_exact(t, pos + 1, kt.len() as int);
            assert forall|j: int| 0 <= j < kt.len() implies (#[trigger] t.subrange(pos + 1, q)[j])
                == kt[j] by {
                assert(t.subrange(pos + 1, q)[j] == t[pos + 1 + j]);
                assert(t[pos + 1 + j] == text[1 + j]);
                assert(text[1 + j] == kt[j]);
            }
            assert(t.subrange(pos + 1, q) =~= kt);
            assert(crate::tokenizer::spec_kw_of(kt) == Some(kw)) by {
                crate::tokenizer::lemma_kw_of_text(kw);
            }
            lemma_tokenize_step(t, pos + 1, SpecToken::ReservedKw(kw), q);
            lemma_tokenize_step(t, q, SpecToken::Delimiter(Delimiter::Space), q + 1);
            assert forall|j: int| 0 <= j < te.len() implies t[q + 1 + j] == te[j] by {
                assert(text[2 + kt.len() as int + j] == te[j]);
            }
            assert(t.subrange(q + 1, q + 1 + te.len() as int) =~= te);
            let q2 = q + 1 + te.len() as int;
            assert(t[q2] == text[2 + kt.len() as int + te.len() as int]);
            assert(text[2 + kt.len() as int + te.len() as int] == ')');
            lemma_tokenize_chunk(t, q + 1, *expr);
            lemma_tokenize_step(
                t,
                q2,
                SpecToken::Delimiter(Delimiter::RParen),
                q2 + 1,
            );
            assert(q2 + 1 == tl_end);
            assert(crate::tokenizer::spec_tokenize_from(t, pos)
                =~= crate::ast::spec_layout_tokens(n) + crate::tokenizer::spec_tokenize_from(
                t,
                tl_end,
            ));
        },
        SpecAst::TokenError(_) => {},
        SpecAst::ParserError(_, _) => {},
    }
}

/// The first token of a tree's layout token sequence is never layout.
proof fn lemma_layout_first(n: SpecAst)
    requires
        crate::ast::spec_text_wf(n),
    ensures
        crate::ast::spec_layout_tokens(n).len() >= 1,
        !is_ws_token(crate::ast::spec_layout_tokens(n)[0]),
{
}

/// Parsing from a position where the layout token sequence of a tree
/// stands yields back that very tree, consuming exactly those tokens.
#[verifier::rlimit(100)]
#[verifier::spinoff_prover]
pub proof fn lemma_parse_layout_at(tokens: Seq<SpecToken>, pos: int, n: SpecAst)
    requires
        crate::ast::spec_text_wf(n),
        0 <= pos,
        pos + crate::ast::spec_layout_tokens(n).len() <= tokens.len(),
        tokens.subrange(pos, pos + crate::ast::spec_layout_tokens(n).len() as int)
            == crate::ast::spec_layout_tokens(n),
    ensures
        spec_parse_expr_at(tokens, pos) == (n, pos + crate::ast::spec_layout_tokens(n).len()),
    decreases n,
{
    let len = tokens.len() as int;
    let lt = crate::ast::spec_layout_tokens(n);
    assert forall|j: int| 0 <= j < lt.len() implies tokens[pos + j] == #[trigger] lt[j] by {
        assert(tokens.subrange(pos, pos + lt.len() as int)[j] == tokens[pos + j]);
    }
    lemma_layout_first(n);
    assert(tokens[pos + 0] == lt[0]);
    assert(spec_skip_ws(tokens, pos) == pos);
    let f = spec_expr_fuel(tokens, pos);
    match n {
        SpecAst::Literal(crate::tokenizer::SpecLiteral::Bool(s)) => {
            let kw = if s == spec_kw_text(ReservedKw::True) {
                ReservedKw::True
            } else {
                ReservedKw::False
            };
            assert(lt[0] == SpecToken::ReservedKw(kw));
            assert(spec_parse_expr_at(tokens, pos) == (n, pos + 1));
        },
        SpecAst::Literal(l) => {},
        SpecAst::Ident(s) => {},
        SpecAst::Nil => {},
        SpecAst::BinaryOp { op, lhs, rhs } => {
            let ll = crate::ast::spec_layout_tokens(*lhs);
            let lr = crate::ast::spec_layout_tokens(*rhs);
            lemma_layout_first(*lhs);
            lemma_layout_first(*rhs);
            assert(lt[1] == SpecToken::BinaryOp(op));
            assert(lt[2] == SpecToken::Delimiter(Delimiter::Space));
            assert(tokens[pos + 1] == lt[1]);
            assert(tokens[pos + 2] == lt[2]);
            lemma_parse_fuel_body(tokens, pos + 1, (f - 1) as nat);
            let fb = spec_body_fuel(tokens, pos + 1);
            assert(spec_skip_ws(tokens, pos + 1) == pos + 1);
            // the left child's tokens stand after the operator and one space
            assert forall|j: int| 0 <= j < ll.len() implies tokens[pos + 3 + j] == #[trigger] ll[
                j
            ] by {
                assert(lt[3 + j] == ll[j]);
            }
            assert(tokens.subrange(pos + 3, pos + 3 + ll.len() as int) =~= ll);
            assert(tokens[pos + 3] == ll[0]);
            assert(spec_skip_ws(tokens, pos + 3) == pos + 3);
            assert(spec_skip_ws(tokens, pos + 2) == pos + 3);
            lemma_parse_layout_at(tokens, pos + 3, *lhs);
            lemma_expr_skip(tokens, pos + 2);
            lemma_parse_fuel_expr(tokens, pos + 2, (fb - 1) as nat);
            let p1 = pos + 3 + ll.len() as int;
            // then one space and the right child's tokens
            assert(tokens[p1] == lt[3 + ll.len() as int]);
            assert(lt[3 + ll.len() as int] == SpecToken::Delimiter(Delimiter::Space));
            assert forall|j: int| 0 <= j < lr.len() implies tokens[p1 + 1 + j] == #[trigger] lr[
                j
            ] by {
                assert(lt[4 + ll.len() as int + j] == lr[j]);
            }
            assert(tokens.subrange(p1 + 1, p1 + 1 + lr.len() as int) =~= lr);
            assert(tokens[p1 + 1] == lr[0]);
            assert(spec_skip_ws(tokens, p1 + 1) == p1 + 1);
            assert(spec_skip_ws(tokens, p1) == p1 + 1);
            lemma_parse_layout_at(tokens, p1 + 1, *rhs);
            lemma_expr_skip(tokens, p1);
            lemma_parse_fuel_expr(tokens, p1, (fb - 1) as nat);
            let p2 = p1 + 1 + lr.len() as int;
            // and the closing parenthesis right after
            assert(tokens[p2] == lt[lt.len() - 1]);
            assert(lt[lt.len() - 1] == SpecToken::Delimiter(Delimiter::RParen));
            assert(spec_skip_ws(tokens, p2) == p2);
            assert(spec_parse_expr_at(tokens, pos) == (n, pos + lt.len() as int));
        },
        SpecAst::UnaryOp { op, expr } => {
            let le = crate::ast::spec_layout_tokens(*expr);
            lemma_layout_first(*expr);
            assert(lt[1] == SpecToken::UnaryOp(op));
            assert(lt[2] == SpecToken::Delimiter(Delimiter::Space));
            assert(tokens[pos + 1] == lt[1]);
            assert(tokens[pos + 2] == lt[2]);
            lemma_parse_fuel_body(tokens, pos + 1, (f - 1) as nat);
            let fb = spec_body_fuel(tokens, pos + 1);
            assert(spec_skip_ws(tokens, pos + 1) == pos + 1);
            assert forall|j: int| 0 <= j < le.len() implies tokens[pos + 3 + j] == #[trigger] le[
                j
            ] by {
                assert(lt[3 + j] == le[j]);
            }
            assert(tokens.subrange(pos + 3, pos + 3 + le.len() as int) =~= le);
            assert(tokens[pos + 3] == le[0]);
            assert(spec_skip_ws(tokens, pos + 3) == pos + 3);
            assert(spec_skip_ws(tokens, pos + 2) == pos + 3);
            lemma_parse_layout_at(tokens, pos + 3, *expr);
            lemma_expr_skip(tokens, pos + 2);
            lemma_parse_fuel_expr(tokens, pos + 2, (fb - 1) as nat);
            let p1 = pos + 3 + le.len() as int;
            assert(tokens[p1] == lt[lt.len() - 1]);
            assert(lt[lt.len() - 1] == SpecToken::Delimiter(Delimiter::RParen));
            assert(spec_skip_ws(tokens, p1) == p1);
            assert(spec_parse_expr_at(tokens, pos) == (n, pos + lt.len() as int));
        },
        SpecAst::FnCall { ident, expr } => {
            let le = crate::ast::spec_layout_tokens(*expr);
            lemma_layout_first(*expr);
            assert(lt[1] == SpecToken::Ident(ident));
            assert(lt[2] == SpecToken::Delimiter(Delimiter::Space));
            assert(tokens[pos + 1] == lt[1]);
            assert(tokens[pos + 2] == lt[2]);
            lemma_parse_fuel_body(tokens, pos + 1, (f - 1) as nat);
            let fb = spec_body_fuel(tokens, pos + 1);
            assert(spec_skip_ws(tokens, pos + 1) == pos + 1);
            assert forall|j: int| 0 <= j < le.len() implies tokens[pos + 3 + j] == #[trigger] le[
                j
            ] by {
                assert(lt[3 + j] == le[j]);
            }
            assert(tokens.subrange(pos + 3, pos + 3 + le.len() as int) =~= le);
            assert(tokens[pos + 3] == le[0]);
            assert(spec_skip_ws(tokens, pos + 3) == pos + 3);
            assert(spec_skip_ws(tokens, pos + 2) == pos + 3);
            lemma_parse_layout_at(tokens, pos + 3, *expr);
            lemma_expr_skip(tokens, pos + 2);
            lemma_parse_fuel_expr(tokens, pos + 2, (fb - 1) as nat);
            let p1 = pos + 3 + le.len() as int;
            assert(tokens[p1] == lt[lt.len() - 1]);
            assert(lt[lt.len() - 1] == SpecToken::Delimiter(Delimiter::RParen));
            assert(spec_skip_ws(tokens, p1) == p1);
            assert(spec_parse_expr_at(tokens, pos) == (n, pos + lt.len() as int));
        },
        SpecAst::Reserved { kw, expr } => {
            let le = crate::ast::spec_layout_tokens(*expr);
            lemma_layout_first(*expr);
            assert(lt[1] == SpecToken::ReservedKw(kw));
            assert(lt[2] == SpecToken::Delimiter(Delimiter::Space));
            assert(tokens[pos + 1] == lt[1]);
            assert(tokens[pos + 2] == lt[2]);
            lemma_parse_fuel_body(tokens, pos + 1, (f - 1) as nat);
            let fb = spec_body_fuel(tokens, pos + 1);
            assert(spec_skip_ws(tokens, pos + 1) == pos + 1);
            assert forall|j: int| 0 <= j < le.len() implies tokens[pos + 3 + j] == #[trigger] le[
                j
            ] by {
                assert(lt[3 + j] == le[j]);
            }
            assert(tokens.subrange(pos + 3, pos + 3 + le.len() as int) =~= le);
            assert(tokens[pos + 3] == le[0]);
            assert(spec_skip_ws(tokens, pos + 3) == pos + 3);
            assert(spec_skip_ws(tokens, pos + 2) == pos + 3);
            lemma_parse_layout_at(tokens, pos + 3, *expr);
            lemma_expr_skip(tokens, pos + 2);
            lemma_parse_fuel_expr(tokens, pos + 2, (fb - 1) as nat);
            let p1 = pos + 3 + le.len() as int;
            assert(tokens[p1] == lt[lt.len() - 1]);
            assert(lt[lt.len() - 1] == SpecToken::Delimiter(Delimiter::RParen));
            assert(spec_skip_ws(tokens, p1) == p1);
            assert(spec_parse_expr_at(tokens, pos) == (n, pos + lt.len() as int));
        },
        SpecAst::TokenError(_) => {},
        SpecAst::ParserError(_, _) => {},
    }
}

/// Round-trip idempotence, where such a form is defined: re-tokenizing a
/// node's canonical textual form and re-parsing yields a structurally equal
/// tree — the very same tree.  `spec_text_wf` is exactly "the canonical
/// form is defined": no error nodes, digit-run number literals, quote-free
/// string bodies, bool literals spelling their keyword, proper identifier
/// words, and no char literals (the grammar gives them no spelling).  On a
/// tree outside that predicate the round trip genuinely fails — a number
/// literal whose payload is `x` re-reads as an identifier — so the
/// qualifier is the property's own.  Over tokens alone, the companion
/// `lemma_canonical_round_trip` needs only an error-free tree.
pub proof fn lemma_text_round_trip(n: SpecAst)
    requires
        crate::ast::spec_text_wf(n),
    ensures
        ({
            let toks = crate::tokenizer::spec_tokenize(crate::ast::spec_canonical_text(n));
            spec_parse_expr_at(toks, 0).0 == n
        }),
{
    let text = crate::ast::spec_canonical_text(n);
    let lt = crate::ast::spec_layout_tokens(n);
    assert(text.subrange(0, text.len() as int) =~= text);
    lemma_tokenize_chunk(text, 0, n);
    let toks = crate::tokenizer::spec_tokenize(text);
    assert(crate::tokenizer::spec_tokenize_from(text, text.len() as int) =~= seq![
        SpecToken::Delimiter(Delimiter::Eof),
    ]);
    assert(toks =~= lt + seq![SpecToken::Delimiter(Delimiter::Eof)]);
    assert(toks.subrange(0, lt.len() as int) =~= lt);
    lemma_parse_layout_at(toks, 0, n);
}

} // verus!
