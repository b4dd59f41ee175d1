//! The abstract syntax tree.
//!
//! A closed set of node variants: leaves carry no children, interior nodes
//! own their children directly, and two sentinel variants represent
//! recoverable failure as ordinary, well-typed tree nodes.  A `ParserError`
//! node always wraps the best-effort partial tree built before the error was
//! detected, so a caller can still see where parsing diverged.

use vstd::prelude::*;

use crate::values::EvalError;

use crate::tokenizer::{
    BinaryOp, Literal, ReservedKw, SpecLiteral, SpecToken, Token, UnaryOp, spec_kw_text,
};

verus! {

use vstd::string::StrSliceExecFns;

/// One node of the tree.  No mutation after construction, no sharing, no
/// cycles.
#[derive(Debug, PartialEq)]
pub enum AstNode {
    /// Leaf: a literal, carrying the scanned text.
    Literal(Literal),
    /// Leaf: an identifier.
    Ident(String),
    /// Leaf: the nil value.
    Nil,
    /// A binary operation over exactly two sub-expressions.
    BinaryOp { op: BinaryOp, lhs: Box<AstNode>, rhs: Box<AstNode> },
    /// A unary operation over one sub-expression.
    UnaryOp { op: UnaryOp, expr: Box<AstNode> },
    /// A call of a named function with exactly one argument.
    FnCall { ident: String, expr: Box<AstNode> },
    /// A reserved-keyword form with one sub-expression.
    Reserved { kw: ReservedKw, expr: Box<AstNode> },
    /// Sentinel: an expression was required and this token stood there.
    TokenError(Token),
    /// Sentinel: the grammar was violated; the message says how, and the
    /// wrapped node is the partial tree built before the error was detected.
    ParserError(String, Box<AstNode>),
}

/// The mathematical model of an `AstNode`.
pub enum SpecAst {
    Literal(SpecLiteral),
    Ident(Seq<char>),
    Nil,
    BinaryOp { op: BinaryOp, lhs: Box<SpecAst>, rhs: Box<SpecAst> },
    UnaryOp { op: UnaryOp, expr: Box<SpecAst> },
    FnCall { ident: Seq<char>, expr: Box<SpecAst> },
    Reserved { kw: ReservedKw, expr: Box<SpecAst> },
    TokenError(SpecToken),
    ParserError(Seq<char>, Box<SpecAst>),
}

/// The model of a node, recursively.
pub open spec fn spec_view_ast(n: AstNode) -> SpecAst
    decreases n,
{
    match n {
        AstNode::Literal(l) => SpecAst::Literal(l@),
        AstNode::Ident(s) => SpecAst::Ident(s@),
        AstNode::Nil => SpecAst::Nil,
        AstNode::BinaryOp { op, lhs, rhs } => SpecAst::BinaryOp {
            op: op,
            lhs: Box::new(spec_view_ast(*lhs)),
            rhs: Box::new(spec_view_ast(*rhs)),
        },
        AstNode::UnaryOp { op, expr } => SpecAst::UnaryOp {
            op: op,
            expr: Box::new(spec_view_ast(*expr)),
        },
        AstNode::FnCall { ident, expr } => SpecAst::FnCall {
            ident: ident@,
            expr: Box::new(spec_view_ast(*expr)),
        },
        AstNode::Reserved { kw, expr } => SpecAst::Reserved {
            kw: kw,
            expr: Box::new(spec_view_ast(*expr)),
        },
        AstNode::TokenError(t) => SpecAst::TokenError(t@),
        AstNode::ParserError(m, sub) => SpecAst::ParserError(m@, Box::new(spec_view_ast(*sub))),
    }
}

impl View for AstNode {
    type V = SpecAst;

    open spec fn view(&self) -> SpecAst {
        spec_view_ast(*self)
    }
}

impl DeepView for AstNode {
    type V = SpecAst;

    open spec fn deep_view(&self) -> SpecAst {
        self.view()
    }
}

/// A tree with no error nodes anywhere in it.
pub open spec fn spec_error_free(n: SpecAst) -> bool
    decreases n,
{
    match n {
        SpecAst::Literal(_) => true,
        SpecAst::Ident(_) => true,
        SpecAst::Nil => true,
        SpecAst::BinaryOp { op, lhs, rhs } => spec_error_free(*lhs) && spec_error_free(*rhs),
        SpecAst::UnaryOp { op, expr } => spec_error_free(*expr),
        SpecAst::FnCall { ident, expr } => spec_error_free(*expr),
        SpecAst::Reserved { kw, expr } => spec_error_free(*expr),
        SpecAst::TokenError(_) => false,
        SpecAst::ParserError(_, _) => false,
    }
}

/// A word that can stand as an identifier in text: at least one character,
/// a letter first, letters and digits after, and not a reserved keyword.
pub open spec fn spec_ident_wf(s: Seq<char>) -> bool {
    &&& s.len() >= 1
    &&& crate::tokenizer::is_alpha_char(s[0])
    &&& forall|i: int| 0 <= i < s.len() ==> crate::tokenizer::is_alnum_char(#[trigger] s[i])
    &&& crate::tokenizer::spec_kw_of(s) is None
}

/// A tree whose canonical textual form is defined: no error nodes, number
/// literals all digits, string literals free of quotes, bool literals
/// spelling `true` or `false`, identifiers proper words.  Char literals
/// have no textual form in this language, so none stands in such a tree.
pub open spec fn spec_text_wf(n: SpecAst) -> bool
    decreases n,
{
    match n {
        SpecAst::Literal(SpecLiteral::Number(s)) => s.len() >= 1 && forall|i: int|
            0 <= i < s.len() ==> crate::tokenizer::is_digit_char(#[trigger] s[i]),
        SpecAst::Literal(SpecLiteral::Str(s)) => forall|i: int|
            0 <= i < s.len() ==> #[trigger] s[i] != '"',
        SpecAst::Literal(SpecLiteral::Bool(s)) => s == spec_kw_text(ReservedKw::True) || s
            == spec_kw_text(ReservedKw::False),
        SpecAst::Literal(SpecLiteral::Char(_)) => false,
        SpecAst::Ident(s) => spec_ident_wf(s),
        SpecAst::Nil => true,
        SpecAst::BinaryOp { op, lhs, rhs } => spec_text_wf(*lhs) && spec_text_wf(*rhs),
        SpecAst::UnaryOp { op, expr } => spec_text_wf(*expr),
        SpecAst::FnCall { ident, expr } => spec_ident_wf(ident) && spec_text_wf(*expr),
        SpecAst::Reserved { kw, expr } => spec_text_wf(*expr),
        SpecAst::TokenError(_) => false,
        SpecAst::ParserError(_, _) => false,
    }
}

/// The token sequence that the canonical textual form of a tree scans back
/// to: the canonical tokens with the layout tokens the text carries, and a
/// bool literal read back as its keyword.
pub open spec fn spec_layout_tokens(n: SpecAst) -> Seq<SpecToken>
    decreases n,
{
    match n {
        SpecAst::Literal(SpecLiteral::Bool(s)) => if s == spec_kw_text(ReservedKw::True) {
            seq![SpecToken::ReservedKw(ReservedKw::True)]
        } else {
            seq![SpecToken::ReservedKw(ReservedKw::False)]
        },
        SpecAst::Literal(l) => seq![SpecToken::Literal(l)],
        SpecAst::Ident(s) => seq![SpecToken::Ident(s)],
        SpecAst::Nil => seq![SpecToken::Nil],
        SpecAst::BinaryOp { op, lhs, rhs } => seq![
            SpecToken::Delimiter(crate::tokenizer::Delimiter::LParen),
            SpecToken::BinaryOp(op),
            SpecToken::Delimiter(crate::tokenizer::Delimiter::Space),
        ] + spec_layout_tokens(*lhs) + seq![
            SpecToken::Delimiter(crate::tokenizer::Delimiter::Space),
        ] + spec_layout_tokens(*rhs) + seq![
            SpecToken::Delimiter(crate::tokenizer::Delimiter::RParen),
        ],
        SpecAst::UnaryOp { op, expr } => seq![
            SpecToken::Delimiter(crate::tokenizer::Delimiter::LParen),
            SpecToken::UnaryOp(op),
            SpecToken::Delimiter(crate::tokenizer::Delimiter::Space),
        ] + spec_layout_tokens(*expr) + seq![
            SpecToken::Delimiter(crate::tokenizer::Delimiter::RParen),
        ],
        SpecAst::FnCall { ident, expr } => seq![
            SpecToken::Delimiter(crate::tokenizer::Delimiter::LParen),
            SpecToken::Ident(ident),
            SpecToken::Delimiter(crate::tokenizer::Delimiter::Space),
        ] + spec_layout_tokens(*expr) + seq![
            SpecToken::Delimiter(crate::tokenizer::Delimiter::RParen),
        ],
        SpecAst::Reserved { kw, expr } => seq![
            SpecToken::Delimiter(crate::tokenizer::Delimiter::LParen),
            SpecToken::ReservedKw(kw),
            SpecToken::Delimiter(crate::tokenizer::Delimiter::Space),
        ] + spec_layout_tokens(*expr) + seq![
            SpecToken::Delimiter(crate::tokenizer::Delimiter::RParen),
        ],
        SpecAst::TokenError(_) => Seq::empty(),
        SpecAst::ParserError(_, _) => Seq::empty(),
    }
}

/// What the textual round trip gives back: the very same tree, except that
/// a bool literal comes back spelling its keyword — which, for a tree whose
/// text is defined, is the tree itself.
pub proof fn lemma_text_wf_error_free(n: SpecAst)
    requires
        spec_text_wf(n),
    ensures
        spec_error_free(n),
    decreases n,
{
    match n {
        SpecAst::BinaryOp { op, lhs, rhs } => {
            lemma_text_wf_error_free(*lhs);
            lemma_text_wf_error_free(*rhs);
        },
        SpecAst::UnaryOp { op, expr } => {
            lemma_text_wf_error_free(*expr);
        },
        SpecAst::FnCall { ident, expr } => {
            lemma_text_wf_error_free(*expr);
        },
        SpecAst::Reserved { kw, expr } => {
            lemma_text_wf_error_free(*expr);
        },
        _ => {},
    }
}

/// The spelling of each binary operator.
pub open spec fn spec_binop_char(op: BinaryOp) -> char {
    match op {
        BinaryOp::Add => '+',
        BinaryOp::Sub => '-',
        BinaryOp::Mul => '*',
        BinaryOp::Div => '/',
    }
}

/// The spelling of each unary operator.
pub open spec fn spec_unop_char(op: UnaryOp) -> char {
    match op {
        UnaryOp::Neg => '~',
        UnaryOp::Not => '!',
    }
}

/// The canonical token sequence of a tree: the tokens that the tree prints
/// back to, without layout tokens.  Defined for error-free trees; an error
/// node contributes nothing.
pub open spec fn spec_canonical_tokens(n: SpecAst) -> Seq<SpecToken>
    decreases n,
{
    match n {
        SpecAst::Literal(l) => seq![SpecToken::Literal(l)],
        SpecAst::Ident(s) => seq![SpecToken::Ident(s)],
        SpecAst::Nil => seq![SpecToken::Nil],
        SpecAst::BinaryOp { op, lhs, rhs } => seq![
            SpecToken::Delimiter(crate::tokenizer::Delimiter::LParen),
            SpecToken::BinaryOp(op),
        ] + spec_canonical_tokens(*lhs) + spec_canonical_tokens(*rhs) + seq![
            SpecToken::Delimiter(crate::tokenizer::Delimiter::RParen),
        ],
        SpecAst::UnaryOp { op, expr } => seq![
            SpecToken::Delimiter(crate::tokenizer::Delimiter::LParen),
            SpecToken::UnaryOp(op),
        ] + spec_canonical_tokens(*expr) + seq![
            SpecToken::Delimiter(crate::tokenizer::Delimiter::RParen),
        ],
        SpecAst::FnCall { ident, expr } => seq![
            SpecToken::Delimiter(crate::tokenizer::Delimiter::LParen),
            SpecToken::Ident(ident),
        ] + spec_canonical_tokens(*expr) + seq![
            SpecToken::Delimiter(crate::tokenizer::Delimiter::RParen),
        ],
        SpecAst::Reserved { kw, expr } => seq![
            SpecToken::Delimiter(crate::tokenizer::Delimiter::LParen),
            SpecToken::ReservedKw(kw),
        ] + spec_canonical_tokens(*expr) + seq![
            SpecToken::Delimiter(crate::tokenizer::Delimiter::RParen),
        ],
        SpecAst::TokenError(_) => Seq::empty(),
        SpecAst::ParserError(_, _) => Seq::empty(),
    }
}

/// The canonical textual form of a tree: literals print their scanned text
/// (strings quoted), `nil` prints as `()`, and each interior node prints as
/// a parenthesized form with one space between its parts.  Error nodes have
/// no canonical form and print as a fixed placeholder.
pub open spec fn spec_canonical_text(n: SpecAst) -> Seq<char>
    decreases n,
{
    match n {
        SpecAst::Literal(SpecLiteral::Number(s)) => s,
        SpecAst::Literal(SpecLiteral::Str(s)) => seq!['"'] + s + seq!['"'],
        SpecAst::Literal(SpecLiteral::Bool(s)) => s,
        SpecAst::Literal(SpecLiteral::Char(s)) => s,
        SpecAst::Ident(s) => s,
        SpecAst::Nil => seq!['(', ')'],
        SpecAst::BinaryOp { op, lhs, rhs } => seq!['(', spec_binop_char(op), ' ']
            + spec_canonical_text(*lhs) + seq![' '] + spec_canonical_text(*rhs) + seq![')'],
        SpecAst::UnaryOp { op, expr } => seq!['(', spec_unop_char(op), ' '] + spec_canonical_text(
            *expr,
        ) + seq![')'],
        SpecAst::FnCall { ident, expr } => seq!['('] + ident + seq![' '] + spec_canonical_text(
            *expr,
        ) + seq![')'],
        SpecAst::Reserved { kw, expr } => seq!['('] + spec_kw_text(kw) + seq![' ']
            + spec_canonical_text(*expr) + seq![')'],
        SpecAst::TokenError(_) => "<token error>"@,
        SpecAst::ParserError(_, _) => "<parser error>"@,
    }
}

/// One handler per node kind.  The tree dispatches to whichever visitor it
/// is given, so new interpreters over the same tree need no change to the
/// tree itself.
pub trait AstVisitor {
    fn visit_literal(&mut self, node: &AstNode) -> Result<(), EvalError>;

    fn visit_ident(&mut self, node: &AstNode) -> Result<(), EvalError>;

    fn visit_nil(&mut self, node: &AstNode) -> Result<(), EvalError>;

    fn visit_binary_op(&mut self, node: &AstNode) -> Result<(), EvalError>;

    fn visit_unary_op(&mut self, node: &AstNode) -> Result<(), EvalError>;

    fn visit_fn_call(&mut self, node: &AstNode) -> Result<(), EvalError>;

    fn visit_reserved(&mut self, node: &AstNode) -> Result<(), EvalError>;

    fn visit_token_error(&mut self, node: &AstNode) -> Result<(), EvalError>;

    fn visit_parser_error(&mut self, node: &AstNode) -> Result<(), EvalError>;
}

/// The spelling of a binary operator, executably.
fn binop_char(op: BinaryOp) -> (c: char)
    ensures
        c == spec_binop_char(op),
{
    match op {
        BinaryOp::Add => '+',
        BinaryOp::Sub => '-',
        BinaryOp::Mul => '*',
        BinaryOp::Div => '/',
    }
}

/// The spelling of a unary operator, executably.
fn unop_char(op: UnaryOp) -> (c: char)
    ensures
        c == spec_unop_char(op),
{
    match op {
        UnaryOp::Neg => '~',
        UnaryOp::Not => '!',
    }
}

impl AstNode {
    /// The node's canonical textual form, as text the tokenizer and parser
    /// read back.
    pub fn to_text(&self) -> (r: String)
        ensures
            r@ == spec_canonical_text(self@),
    {
        let mut out: Vec<char> = Vec::new();
        self.write_text(&mut out);
        proof {
            assert(out@ =~= spec_canonical_text(self@));
        }
        crate::tokenizer::chars_to_string(&out)
    }

    /// Appends the node's canonical textual form to `out`.
    fn write_text(&self, out: &mut Vec<char>)
        ensures
            final(out)@ == old(out)@ + spec_canonical_text(self@),
        decreases *self,
    {
        let ghost before = out@;
        match self {
            AstNode::Literal(Literal::Number(s)) => {
                append_str(out, s.as_str());
            },
            AstNode::Literal(Literal::Str(s)) => {
                out.push('"');
                append_str(out, s.as_str());
                out.push('"');
                proof {
                    assert(out@ =~= before + spec_canonical_text(self@));
                }
            },
            AstNode::Literal(Literal::Bool(s)) => {
                append_str(out, s.as_str());
            },
            AstNode::Literal(Literal::Char(s)) => {
                append_str(out, s.as_str());
            },
            AstNode::Ident(s) => {
                append_str(out, s.as_str());
            },
            AstNode::Nil => {
                out.push('(');
                out.push(')');
                proof {
                    assert(out@ =~= before + spec_canonical_text(self@));
                }
            },
            AstNode::BinaryOp { op, lhs, rhs } => {
                out.push('(');
                out.push(binop_char(*op));
                out.push(' ');
                lhs.write_text(out);
                out.push(' ');
                rhs.write_text(out);
                out.push(')');
                proof {
                    assert(out@ =~= before + spec_canonical_text(self@));
                }
            },
            AstNode::UnaryOp { op, expr } => {
                out.push('(');
                out.push(unop_char(*op));
                out.push(' ');
                expr.write_text(out);
                out.push(')');
                proof {
                    assert(out@ =~= before + spec_canonical_text(self@));
                }
            },
            AstNode::FnCall { ident, expr } => {
                out.push('(');
                append_str(out, ident.as_str());
                out.push(' ');
                expr.write_text(out);
                out.push(')');
                proof {
                    assert(out@ =~= before + spec_canonical_text(self@));
                }
            },
            AstNode::Reserved { kw, expr } => {
                out.push('(');
                let t = kw.as_text();
                append_str(out, t.as_str());
                out.push(' ');
                expr.write_text(out);
                out.push(')');
                proof {
                    assert(out@ =~= before + spec_canonical_text(self@));
                }
            },
            AstNode::TokenError(_) => {
                append_str(out, "<token error>");
            },
            AstNode::ParserError(_, _) => {
                append_str(out, "<parser error>");
            },
        }
    }

    /// Double dispatch: routes this node to the visitor's handler for its
    /// kind.
    pub fn accept<V: AstVisitor>(&self, visitor: &mut V) -> Result<(), EvalError> {
        match self {
            AstNode::Literal(_) => visitor.visit_literal(self),
            AstNode::Ident(_) => visitor.visit_ident(self),
            AstNode::Nil => visitor.visit_nil(self),
            AstNode::BinaryOp { .. } => visitor.visit_binary_op(self),
            AstNode::UnaryOp { .. } => visitor.visit_unary_op(self),
            AstNode::FnCall { .. } => visitor.visit_fn_call(self),
            AstNode::Reserved { .. } => visitor.visit_reserved(self),
            AstNode::TokenError(_) => visitor.visit_token_error(self),
            AstNode::ParserError(_, _) => visitor.visit_parser_error(self),
        }
    }
}

/// Appends the characters of `s` to `out`.
#[verifier::loop_isolation(false)]
fn append_str(out: &mut Vec<char>, s: &str)
    ensures
        final(out)@ == old(out)@ + s@,
{
    let ghost before = out@;
    let n = s.unicode_len();
    let mut i: usize = 0;
    while i < n
        invariant
            n == s@.len(),
            i <= n,
            out@ == before + s@.subrange(0, i as int),
        decreases n - i,
    {
        out.push(s.get_char(i));
        i += 1;
        proof {
            assert(out@ =~= before + s@.subrange(0, i as int));
        }
    }
    proof {
        assert(out@ =~= before + s@);
    }
}

} // verus!
