//! Tokenizer for the Lisp interpreter.
//!
//! The tokenizer turns raw input text into a flat, ordered sequence of
//! tokens in a single left-to-right pass.  It is total: an unrecognized
//! character becomes a `Token::TokenError` token rather than a panic, and
//! whitespace and newlines are emitted as real tokens so that the parser,
//! not the scanner, decides how to treat layout.
//!
//! The lexical grammar is ASCII, as the token comments state: identifiers
//! are `[a-zA-Z][a-zA-Z0-9]*` and numbers `[0-9]+`.  Any character outside
//! the grammar — a non-ASCII letter included — scans to a `TokenError`
//! token; only a string literal's body carries arbitrary characters.

use vstd::prelude::*;

verus! {

use vstd::string::StrSliceExecFns;

/// The smallest lexical unit produced by scanning raw text.
#[derive(Debug, PartialEq, Clone)]
pub enum Token {
    Delimiter(Delimiter),
    BinaryOp(BinaryOp),
    UnaryOp(UnaryOp),
    Literal(Literal),
    /// `()`
    Nil,
    /// `[a-zA-Z][a-zA-Z0-9]*`, not a reserved keyword
    Ident(String),
    ReservedKw(ReservedKw),
    /// An unrecognized character, carried as data instead of a panic.
    TokenError(String),
}

#[derive(Debug, PartialEq, Clone, Copy)]
pub enum Delimiter {
    /// `' '`
    Space,
    /// `'\n'`
    NewLine,
    /// `'('`
    LParen,
    /// `')'`
    RParen,
    /// end of input
    Eof,
}

#[derive(Debug, PartialEq, Clone, Copy)]
pub enum BinaryOp {
    /// `'+'`
    Add,
    /// `'-'`
    Sub,
    /// `'*'`
    Mul,
    /// `'/'`
    Div,
}

#[derive(Debug, PartialEq, Clone, Copy)]
pub enum UnaryOp {
    /// `'~'`
    Neg,
    /// `'!'`
    Not,
}

/// A literal token carries the scanned text; the evaluator, not the scanner,
/// turns it into a typed value.
#[derive(Debug, PartialEq, Clone)]
pub enum Literal {
    /// `[0-9]+`
    Number(String),
    /// `'"' ... '"'`
    Str(String),
    /// `"true"` or `"false"`
    Bool(String),
    /// a single character
    Char(String),
}

#[derive(Debug, PartialEq, Clone, Copy)]
pub enum ReservedKw {
    If,
    Else,
    ElseIf,
    Def,
    Let,
    True,
    False,
    And,
    Or,
    Nil,
}

/// The spelling of each reserved keyword, as a sequence of characters.
pub open spec fn spec_kw_text(kw: ReservedKw) -> Seq<char> {
    match kw {
        ReservedKw::If => seq!['i', 'f'],
        ReservedKw::Else => seq!['e', 'l', 's', 'e'],
        ReservedKw::ElseIf => seq!['e', 'l', 's', 'e', 'i', 'f'],
        ReservedKw::Def => seq!['d', 'e', 'f'],
        ReservedKw::Let => seq!['l', 'e', 't'],
        ReservedKw::True => seq!['t', 'r', 'u', 'e'],
        ReservedKw::False => seq!['f', 'a', 'l', 's', 'e'],
        ReservedKw::And => seq!['a', 'n', 'd'],
        ReservedKw::Or => seq!['o', 'r'],
        ReservedKw::Nil => seq!['n', 'i', 'l'],
    }
}

/// The keyword whose spelling is `s`, if any.  The keyword set is closed:
/// `if`, `else`, `elseif`, `def`, `let`, `true`, `false`, `and`, `or`, `nil`.
pub open spec fn spec_kw_of(s: Seq<char>) -> Option<ReservedKw> {
    if s == spec_kw_text(ReservedKw::If) {
        Some(ReservedKw::If)
    } else if s == spec_kw_text(ReservedKw::Else) {
        Some(ReservedKw::Else)
    } else if s == spec_kw_text(ReservedKw::ElseIf) {
        Some(ReservedKw::ElseIf)
    } else if s == spec_kw_text(ReservedKw::Def) {
        Some(ReservedKw::Def)
    } else if s == spec_kw_text(ReservedKw::Let) {
        Some(ReservedKw::Let)
    } else if s == spec_kw_text(ReservedKw::True) {
        Some(ReservedKw::True)
    } else if s == spec_kw_text(ReservedKw::False) {
        Some(ReservedKw::False)
    } else if s == spec_kw_text(ReservedKw::And) {
        Some(ReservedKw::And)
    } else if s == spec_kw_text(ReservedKw::Or) {
        Some(ReservedKw::Or)
    } else if s == spec_kw_text(ReservedKw::Nil) {
        Some(ReservedKw::Nil)
    } else {
        None
    }
}

impl ReservedKw {
    /// The keyword spelled `s`, or `None` when `s` is an ordinary word.
    pub fn from_str(s: &str) -> (r: Option<ReservedKw>)
        ensures
            r == spec_kw_of(s@),
    {
        let chars = str_to_chars(s);
        kw_of_chars(&chars)
    }
}

/// Copies the characters of a string slice into a vector, one by one.
pub fn str_to_chars(s: &str) -> (r: Vec<char>)
    ensures
        r@ == s@,
{
    let n = s.unicode_len();
    let mut r: Vec<char> = Vec::new();
    let mut i: usize = 0;
    while i < n
        invariant
            n == s@.len(),
            i <= n,
            r@ == s@.subrange(0, i as int),
        decreases n - i,
    {
        r.push(s.get_char(i));
        i += 1;
        proof {
            assert(r@ =~= s@.subrange(0, i as int));
        }
    }
    proof {
        assert(r@ =~= s@);
    }
    r
}

/// The keyword spelled by `w`, or `None`, by comparison against each spelling.
pub fn kw_of_chars(w: &Vec<char>) -> (r: Option<ReservedKw>)
    ensures
        r == spec_kw_of(w@),
{
    let n = w.len();
    if n == 2 && w[0] == 'i' && w[1] == 'f' {
        proof {
            assert(w@ =~= spec_kw_text(ReservedKw::If));
        }
        Some(ReservedKw::If)
    } else if n == 4 && w[0] == 'e' && w[1] == 'l' && w[2] == 's' && w[3] == 'e' {
        proof {
            assert(w@ =~= spec_kw_text(ReservedKw::Else));
        }
        Some(ReservedKw::Else)
    } else if n == 6 && w[0] == 'e' && w[1] == 'l' && w[2] == 's' && w[3] == 'e' && w[4] == 'i'
        && w[5] == 'f' {
        proof {
            assert(w@ =~= spec_kw_text(ReservedKw::ElseIf));
        }
        Some(ReservedKw::ElseIf)
    } else if n == 3 && w[0] == 'd' && w[1] == 'e' && w[2] == 'f' {
        proof {
            assert(w@ =~= spec_kw_text(ReservedKw::Def));
        }
        Some(ReservedKw::Def)
    } else if n == 3 && w[0] == 'l' && w[1] == 'e' && w[2] == 't' {
        proof {
            assert(w@ =~= spec_kw_text(ReservedKw::Let));
        }
        Some(ReservedKw::Let)
    } else if n == 4 && w[0] == 't' && w[1] == 'r' && w[2] == 'u' && w[3] == 'e' {
        proof {
            assert(w@ =~= spec_kw_text(ReservedKw::True));
        }
        Some(ReservedKw::True)
    } else if n == 5 && w[0] == 'f' && w[1] == 'a' && w[2] == 'l' && w[3] == 's' && w[4] == 'e' {
        proof {
            assert(w@ =~= spec_kw_text(ReservedKw::False));
        }
        Some(ReservedKw::False)
    } else if n == 3 && w[0] == 'a' && w[1] == 'n' && w[2] == 'd' {
        proof {
            assert(w@ =~= spec_kw_text(ReservedKw::And));
        }
        Some(ReservedKw::And)
    } else if n == 2 && w[0] == 'o' && w[1] == 'r' {
        proof {
            assert(w@ =~= spec_kw_text(ReservedKw::Or));
        }
        Some(ReservedKw::Or)
    } else if n == 3 && w[0] == 'n' && w[1] == 'i' && w[2] == 'l' {
        proof {
            assert(w@ =~= spec_kw_text(ReservedKw::Nil));
        }
        Some(ReservedKw::Nil)
    } else {
        proof {
            lemma_kw_of_none(w@);
        }
        None
    }
}

/// A word that does not spell any keyword maps to `None`.
proof fn lemma_kw_of_none(s: Seq<char>)
    requires
        s != spec_kw_text(ReservedKw::If),
        s != spec_kw_text(ReservedKw::Else),
        s != spec_kw_text(ReservedKw::ElseIf),
        s != spec_kw_text(ReservedKw::Def),
        s != spec_kw_text(ReservedKw::Let),
        s != spec_kw_text(ReservedKw::True),
        s != spec_kw_text(ReservedKw::False),
        s != spec_kw_text(ReservedKw::And),
        s != spec_kw_text(ReservedKw::Or),
        s != spec_kw_text(ReservedKw::Nil),
    ensures
        spec_kw_of(s) is None,
{
}

/// The mathematical model of a literal token: payloads are character
/// sequences.
pub enum SpecLiteral {
    Number(Seq<char>),
    Str(Seq<char>),
    Bool(Seq<char>),
    Char(Seq<char>),
}

/// The mathematical model of a token.
pub enum SpecToken {
    Delimiter(Delimiter),
    BinaryOp(BinaryOp),
    UnaryOp(UnaryOp),
    Literal(SpecLiteral),
    Nil,
    Ident(Seq<char>),
    ReservedKw(ReservedKw),
    TokenError(Seq<char>),
}

impl View for Literal {
    type V = SpecLiteral;

    open spec fn view(&self) -> SpecLiteral {
        match self {
            Literal::Number(s) => SpecLiteral::Number(s@),
            Literal::Str(s) => SpecLiteral::Str(s@),
            Literal::Bool(s) => SpecLiteral::Bool(s@),
            Literal::Char(s) => SpecLiteral::Char(s@),
        }
    }
}

impl DeepView for Literal {
    type V = SpecLiteral;

    open spec fn deep_view(&self) -> SpecLiteral {
        self.view()
    }
}

impl View for Token {
    type V = SpecToken;

    open spec fn view(&self) -> SpecToken {
        match self {
            Token::Delimiter(d) => SpecToken::Delimiter(*d),
            Token::BinaryOp(op) => SpecToken::BinaryOp(*op),
            Token::UnaryOp(op) => SpecToken::UnaryOp(*op),
            Token::Literal(l) => SpecToken::Literal(l@),
            Token::Nil => SpecToken::Nil,
            Token::Ident(s) => SpecToken::Ident(s@),
            Token::ReservedKw(kw) => SpecToken::ReservedKw(*kw),
            Token::TokenError(m) => SpecToken::TokenError(m@),
        }
    }
}

impl DeepView for Token {
    type V = SpecToken;

    open spec fn deep_view(&self) -> SpecToken {
        self.view()
    }
}

/// An ASCII decimal digit.
pub open spec fn is_digit_char(c: char) -> bool {
    48 <= c as u32 <= 57
}

/// An ASCII letter.
pub open spec fn is_alpha_char(c: char) -> bool {
    (65 <= c as u32 <= 90) || (97 <= c as u32 <= 122)
}

/// An ASCII letter or decimal digit.
pub open spec fn is_alnum_char(c: char) -> bool {
    is_alpha_char(c) || is_digit_char(c)
}

fn digit_char(c: char) -> (b: bool)
    ensures
        b == is_digit_char(c),
{
    let u = c as u32;
    48 <= u && u <= 57
}

fn alpha_char(c: char) -> (b: bool)
    ensures
        b == is_alpha_char(c),
{
    let u = c as u32;
    (65 <= u && u <= 90) || (97 <= u && u <= 122)
}

fn alnum_char(c: char) -> (b: bool)
    ensures
        b == is_alnum_char(c),
{
    alpha_char(c) || digit_char(c)
}

/// The first position at or after `pos` whose character is not a digit
/// (or the end of the input).
pub open spec fn digits_end(input: Seq<char>, pos: int) -> int
    decreases input.len() - pos,
{
    if 0 <= pos < input.len() && is_digit_char(input[pos]) {
        digits_end(input, pos + 1)
    } else {
        pos
    }
}

/// The first position at or after `pos` whose character is not a letter or
/// digit (or the end of the input).
pub open spec fn word_end(input: Seq<char>, pos: int) -> int
    decreases input.len() - pos,
{
    if 0 <= pos < input.len() && is_alnum_char(input[pos]) {
        word_end(input, pos + 1)
    } else {
        pos
    }
}

/// The position of the first `'"'` at or after `pos` (or the end of the
/// input, for an unterminated string literal).
pub open spec fn string_end(input: Seq<char>, pos: int) -> int
    decreases input.len() - pos,
{
    if 0 <= pos < input.len() {
        if input[pos] == '"' {
            pos
        } else {
            string_end(input, pos + 1)
        }
    } else {
        pos
    }
}

/// The diagnostic text carried by a `TokenError` token for the character `c`.
pub open spec fn spec_unexpected_char_msg(c: char) -> Seq<char> {
    "unexpected char '"@ + seq![c] + "'"@
}

/// The token that starts at position `pos` of `input`, with the position
/// just after it.  Scanning is total: at or past the end of the input the
/// token is `Eof`, and an unrecognized character yields a `TokenError`
/// token.
pub open spec fn spec_next_token(input: Seq<char>, pos: int) -> (SpecToken, int) {
    if !(0 <= pos < input.len()) {
        (SpecToken::Delimiter(Delimiter::Eof), pos)
    } else {
        let c = input[pos];
        if c == '(' {
            if pos + 1 < input.len() && input[pos + 1] == ')' {
                (SpecToken::Nil, pos + 2)
            } else {
                (SpecToken::Delimiter(Delimiter::LParen), pos + 1)
            }
        } else if c == ')' {
            (SpecToken::Delimiter(Delimiter::RParen), pos + 1)
        } else if c == '+' {
            (SpecToken::BinaryOp(BinaryOp::Add), pos + 1)
        } else if c == '-' {
            (SpecToken::BinaryOp(BinaryOp::Sub), pos + 1)
        } else if c == '*' {
            (SpecToken::BinaryOp(BinaryOp::Mul), pos + 1)
        } else if c == '/' {
            (SpecToken::BinaryOp(BinaryOp::Div), pos + 1)
        } else if c == '~' {
            (SpecToken::UnaryOp(UnaryOp::Neg), pos + 1)
        } else if c == '!' {
            (SpecToken::UnaryOp(UnaryOp::Not), pos + 1)
        } else if c == ' ' {
            (SpecToken::Delimiter(Delimiter::Space), pos + 1)
        } else if c == '\n' {
            (SpecToken::Delimiter(Delimiter::NewLine), pos + 1)
        } else if is_digit_char(c) {
            let end = digits_end(input, pos);
            (SpecToken::Literal(SpecLiteral::Number(input.subrange(pos, end))), end)
        } else if c == '"' {
            let end = string_end(input, pos + 1);
            let after = if end < input.len() {
                end + 1
            } else {
                end
            };
            (SpecToken::Literal(SpecLiteral::Str(input.subrange(pos + 1, end))), after)
        } else if is_alpha_char(c) {
            let end = word_end(input, pos);
            let w = input.subrange(pos, end);
            match spec_kw_of(w) {
                Some(kw) => (SpecToken::ReservedKw(kw), end),
                None => (SpecToken::Ident(w), end),
            }
        } else {
            (SpecToken::TokenError(spec_unexpected_char_msg(c)), pos + 1)
        }
    }
}

proof fn lemma_digits_end_bounds(input: Seq<char>, pos: int)
    requires
        0 <= pos <= input.len(),
    ensures
        pos <= digits_end(input, pos) <= input.len(),
    decreases input.len() - pos,
{
    if pos < input.len() && is_digit_char(input[pos]) {
        lemma_digits_end_bounds(input, pos + 1);
    }
}

proof fn lemma_word_end_bounds(input: Seq<char>, pos: int)
    requires
        0 <= pos <= input.len(),
    ensures
        pos <= word_end(input, pos) <= input.len(),
    decreases input.len() - pos,
{
    if pos < input.len() && is_alnum_char(input[pos]) {
        lemma_word_end_bounds(input, pos + 1);
    }
}

proof fn lemma_string_end_bounds(input: Seq<char>, pos: int)
    requires
        0 <= pos <= input.len(),
    ensures
        pos <= string_end(input, pos) <= input.len(),
    decreases input.len() - pos,
{
    if pos < input.len() && input[pos] != '"' {
        lemma_string_end_bounds(input, pos + 1);
    }
}

/// Scanning a token from inside the input always makes progress and never
/// runs past the end.
pub proof fn lemma_next_token_advances(input: Seq<char>, pos: int)
    requires
        0 <= pos < input.len(),
    ensures
        pos < spec_next_token(input, pos).1 <= input.len(),
{
    lemma_string_end_bounds(input, pos + 1);
    if is_digit_char(input[pos]) {
        lemma_digits_end_bounds(input, pos + 1);
        assert(digits_end(input, pos) == digits_end(input, pos + 1));
    }
    if is_alpha_char(input[pos]) {
        lemma_word_end_bounds(input, pos + 1);
        assert(word_end(input, pos) == word_end(input, pos + 1));
    }
}

/// Looking a keyword's own spelling up yields that keyword.
pub proof fn lemma_kw_of_text(kw: ReservedKw)
    ensures
        spec_kw_of(spec_kw_text(kw)) == Some(kw),
{
    match kw {
        ReservedKw::If => {
            assert(spec_kw_text(ReservedKw::If).len() == 2);
        },
        ReservedKw::Else => {
            assert(spec_kw_text(ReservedKw::Else).len() == 4);
            assert(spec_kw_text(ReservedKw::If).len() == 2);
            assert(spec_kw_text(ReservedKw::Else) != spec_kw_text(ReservedKw::If));
        },
        ReservedKw::ElseIf => {
            assert(spec_kw_text(ReservedKw::ElseIf).len() == 6);
            assert(spec_kw_text(ReservedKw::If).len() == 2);
            assert(spec_kw_text(ReservedKw::ElseIf) != spec_kw_text(ReservedKw::If));
            assert(spec_kw_text(ReservedKw::Else).len() == 4);
            assert(spec_kw_text(ReservedKw::ElseIf) != spec_kw_text(ReservedKw::Else));
        },
        ReservedKw::Def => {
            assert(spec_kw_text(ReservedKw::Def).len() == 3);
            assert(spec_kw_text(ReservedKw::If).len() == 2);
            assert(spec_kw_text(ReservedKw::Def) != spec_kw_text(ReservedKw::If));
            assert(spec_kw_text(ReservedKw::Else).len() == 4);
            assert(spec_kw_text(ReservedKw::Def) != spec_kw_text(ReservedKw::Else));
            assert(spec_kw_text(ReservedKw::ElseIf).len() == 6);
            assert(spec_kw_text(ReservedKw::Def) != spec_kw_text(ReservedKw::ElseIf));
        },
        ReservedKw::Let => {
            assert(spec_kw_text(ReservedKw::Let).len() == 3);
            assert(spec_kw_text(ReservedKw::If).len() == 2);
            assert(spec_kw_text(ReservedKw::Let) != spec_kw_text(ReservedKw::If));
            assert(spec_kw_text(ReservedKw::Else).len() == 4);
            assert(spec_kw_text(ReservedKw::Let) != spec_kw_text(ReservedKw::Else));
            assert(spec_kw_text(ReservedKw::ElseIf).len() == 6);
            assert(spec_kw_text(ReservedKw::Let) != spec_kw_text(ReservedKw::ElseIf));
            assert(spec_kw_text(ReservedKw::Let)[0] == 'l');
            assert(spec_kw_text(ReservedKw::Def)[0] == 'd');
            assert(spec_kw_text(ReservedKw::Let) != spec_kw_text(ReservedKw::Def));
        },
        ReservedKw::True => {
            assert(spec_kw_text(ReservedKw::True).len() == 4);
            assert(spec_kw_text(ReservedKw::If).len() == 2);
            assert(spec_kw_text(ReservedKw::True) != spec_kw_text(ReservedKw::If));
            assert(spec_kw_text(ReservedKw::True)[0] == 't');
            assert(spec_kw_text(ReservedKw::Else)[0] == 'e');
            assert(spec_kw_text(ReservedKw::True) != spec_kw_text(ReservedKw::Else));
            assert(spec_kw_text(ReservedKw::ElseIf).len() == 6);
            assert(spec_kw_text(ReservedKw::True) != spec_kw_text(ReservedKw::ElseIf));
            assert(spec_kw_text(ReservedKw::Def).len() == 3);
            assert(spec_kw_text(ReservedKw::True) != spec_kw_text(ReservedKw::Def));
            assert(spec_kw_text(ReservedKw::Let).len() == 3);
            assert(spec_kw_text(ReservedKw::True) != spec_kw_text(ReservedKw::Let));
        },
        ReservedKw::False => {
            assert(spec_kw_text(ReservedKw::False).len() == 5);
            assert(spec_kw_text(ReservedKw::If).len() == 2);
            assert(spec_kw_text(ReservedKw::False) != spec_kw_text(ReservedKw::If));
            assert(spec_kw_text(ReservedKw::Else).len() == 4);
            assert(spec_kw_text(ReservedKw::False) != spec_kw_text(ReservedKw::Else));
            assert(spec_kw_text(ReservedKw::ElseIf).len() == 6);
            assert(spec_kw_text(ReservedKw::False) != spec_kw_text(ReservedKw::ElseIf));
            assert(spec_kw_text(ReservedKw::Def).len() == 3);
            assert(spec_kw_text(ReservedKw::False) != spec_kw_text(ReservedKw::Def));
            assert(spec_kw_text(ReservedKw::Let).len() == 3);
            assert(spec_kw_text(ReservedKw::False) != spec_kw_text(ReservedKw::Let));
            assert(spec_kw_text(ReservedKw::True).len() == 4);
            assert(spec_kw_text(ReservedKw::False) != spec_kw_text(ReservedKw::True));
        },
        ReservedKw::And => {
            assert(spec_kw_text(ReservedKw::And).len() == 3);
            assert(spec_kw_text(ReservedKw::If).len() == 2);
            assert(spec_kw_text(ReservedKw::And) != spec_kw_text(ReservedKw::If));
            assert(spec_kw_text(ReservedKw::Else).len() == 4);
            assert(spec_kw_text(ReservedKw::And) != spec_kw_text(ReservedKw::Else));
            assert(spec_kw_text(ReservedKw::ElseIf).len() == 6);
            assert(spec_kw_text(ReservedKw::And) != spec_kw_text(ReservedKw::ElseIf));
            assert(spec_kw_text(ReservedKw::And)[0] == 'a');
            assert(spec_kw_text(ReservedKw::Def)[0] == 'd');
            assert(spec_kw_text(ReservedKw::And) != spec_kw_text(ReservedKw::Def));
            assert(spec_kw_text(ReservedKw::And)[0] == 'a');
            assert(spec_kw_text(ReservedKw::Let)[0] == 'l');
            assert(spec_kw_text(ReservedKw::And) != spec_kw_text(ReservedKw::Let));
            assert(spec_kw_text(ReservedKw::True).len() == 4);
            assert(spec_kw_text(ReservedKw::And) != spec_kw_text(ReservedKw::True));
            assert(spec_kw_text(ReservedKw::False).len() == 5);
            assert(spec_kw_text(ReservedKw::And) != spec_kw_text(ReservedKw::False));
        },
        ReservedKw::Or => {
            assert(spec_kw_text(ReservedKw::Or).len() == 2);
            assert(spec_kw_text(ReservedKw::Or)[0] == 'o');
            assert(spec_kw_text(ReservedKw::If)[0] == 'i');
            assert(spec_kw_text(ReservedKw::Or) != spec_kw_text(ReservedKw::If));
            assert(spec_kw_text(ReservedKw::Else).len() == 4);
            assert(spec_kw_text(ReservedKw::Or) != spec_kw_text(ReservedKw::Else));
            assert(spec_kw_text(ReservedKw::ElseIf).len() == 6);
            assert(spec_kw_text(ReservedKw::Or) != spec_kw_text(ReservedKw::ElseIf));
            assert(spec_kw_text(ReservedKw::Def).len() == 3);
            assert(spec_kw_text(ReservedKw::Or) != spec_kw_text(ReservedKw::Def));
            assert(spec_kw_text(ReservedKw::Let).len() == 3);
            assert(spec_kw_text(ReservedKw::Or) != spec_kw_text(ReservedKw::Let));
            assert(spec_kw_text(ReservedKw::True).len() == 4);
            assert(spec_kw_text(ReservedKw::Or) != spec_kw_text(ReservedKw::True));
            assert(spec_kw_text(ReservedKw::False).len() == 5);
            assert(spec_kw_text(ReservedKw::Or) != spec_kw_text(ReservedKw::False));
            assert(spec_kw_text(ReservedKw::And).len() == 3);
            assert(spec_kw_text(ReservedKw::Or) != spec_kw_text(ReservedKw::And));
        },
        ReservedKw::Nil => {
            assert(spec_kw_text(ReservedKw::Nil).len() == 3);
            assert(spec_kw_text(ReservedKw::If).len() == 2);
            assert(spec_kw_text(ReservedKw::Nil) != spec_kw_text(ReservedKw::If));
            assert(spec_kw_text(ReservedKw::Else).len() == 4);
            assert(spec_kw_text(ReservedKw::Nil) != spec_kw_text(ReservedKw::Else));
            assert(spec_kw_text(ReservedKw::ElseIf).len() == 6);
            assert(spec_kw_text(ReservedKw::Nil) != spec_kw_text(ReservedKw::ElseIf));
            assert(spec_kw_text(ReservedKw::Nil)[0] == 'n');
            assert(spec_kw_text(ReservedKw::Def)[0] == 'd');
            assert(spec_kw_text(ReservedKw::Nil) != spec_kw_text(ReservedKw::Def));
            assert(spec_kw_text(ReservedKw::Nil)[0] == 'n');
            assert(spec_kw_text(ReservedKw::Let)[0] == 'l');
            assert(spec_kw_text(ReservedKw::Nil) != spec_kw_text(ReservedKw::Let));
            assert(spec_kw_text(ReservedKw::True).len() == 4);
            assert(spec_kw_text(ReservedKw::Nil) != spec_kw_text(ReservedKw::True));
            assert(spec_kw_text(ReservedKw::False).len() == 5);
            assert(spec_kw_text(ReservedKw::Nil) != spec_kw_text(ReservedKw::False));
            assert(spec_kw_text(ReservedKw::Nil)[0] == 'n');
            assert(spec_kw_text(ReservedKw::And)[0] == 'a');
            assert(spec_kw_text(ReservedKw::Nil) != spec_kw_text(ReservedKw::And));
            assert(spec_kw_text(ReservedKw::Or).len() == 2);
            assert(spec_kw_text(ReservedKw::Nil) != spec_kw_text(ReservedKw::Or));
        },
    }
}

/// Every keyword is spelled with letters only.
pub proof fn lemma_kw_text_alpha(kw: ReservedKw)
    ensures
        spec_kw_text(kw).len() >= 1,
        forall|j: int|
            0 <= j < spec_kw_text(kw).len() ==> is_alpha_char(#[trigger] spec_kw_text(kw)[j]),
{
    match kw {
        ReservedKw::If => {
            assert forall|j: int| 0 <= j < spec_kw_text(kw).len() implies is_alpha_char(
                #[trigger] spec_kw_text(kw)[j],
            ) by {
                let kt = spec_kw_text(kw);
                if j == 0 {
                        assert(kt[0] == 'i');
                    } else if j == 1 {
                        assert(kt[1] == 'f');
                    }
            }
        },
        ReservedKw::Else => {
            assert forall|j: int| 0 <= j < spec_kw_text(kw).len() implies is_alpha_char(
                #[trigger] spec_kw_text(kw)[j],
            ) by {
                let kt = spec_kw_text(kw);
                if j == 0 {
                        assert(kt[0] == 'e');
                    } else if j == 1 {
                        assert(kt[1] == 'l');
                    } else if j == 2 {
                        assert(kt[2] == 's');
                    } else if j == 3 {
                        assert(kt[3] == 'e');
                    }
            }
        },
        ReservedKw::ElseIf => {
            assert forall|j: int| 0 <= j < spec_kw_text(kw).len() implies is_alpha_char(
                #[trigger] spec_kw_text(kw)[j],
            ) by {
                let kt = spec_kw_text(kw);
                if j == 0 {
                        assert(kt[0] == 'e');
                    } else if j == 1 {
                        assert(kt[1] == 'l');
                    } else if j == 2 {
                        assert(kt[2] == 's');
                    } else if j == 3 {
                        assert(kt[3] == 'e');
                    } else if j == 4 {
                        assert(kt[4] == 'i');
                    } else if j == 5 {
                        assert(kt[5] == 'f');
                    }
            }
        },
        ReservedKw::Def => {
            assert forall|j: int| 0 <= j < spec_kw_text(kw).len() implies is_alpha_char(
                #[trigger] spec_kw_text(kw)[j],
            ) by {
                let kt = spec_kw_text(kw);
                if j == 0 {
                        assert(kt[0] == 'd');
                    } else if j == 1 {
                        assert(kt[1] == 'e');
                    } else if j == 2 {
                        assert(kt[2] == 'f');
                    }
            }
        },
        ReservedKw::Let => {
            assert forall|j: int| 0 <= j < spec_kw_text(kw).len() implies is_alpha_char(
                #[trigger] spec_kw_text(kw)[j],
            ) by {
                let kt = spec_kw_text(kw);
                if j == 0 {
                        assert(kt[0] == 'l');
                    } else if j == 1 {
                        assert(kt[1] == 'e');
                    } else if j == 2 {
                        assert(kt[2] == 't');
                    }
            }
        },
        ReservedKw::True => {
            assert forall|j: int| 0 <= j < spec_kw_text(kw).len() implies is_alpha_char(
                #[trigger] spec_kw_text(kw)[j],
            ) by {
                let kt = spec_kw_text(kw);
                if j == 0 {
                        assert(kt[0] == 't');
                    } else if j == 1 {
                        assert(kt[1] == 'r');
                    } else if j == 2 {
                        assert(kt[2] == 'u');
                    } else if j == 3 {
                        assert(kt[3] == 'e');
                    }
            }
        },
        ReservedKw::False => {
            assert forall|j: int| 0 <= j < spec_kw_text(kw).len() implies is_alpha_char(
                #[trigger] spec_kw_text(kw)[j],
            ) by {
                let kt = spec_kw_text(kw);
                if j == 0 {
                        assert(kt[0] == 'f');
                    } else if j == 1 {
                        assert(kt[1] == 'a');
                    } else if j == 2 {
                        assert(kt[2] == 'l');
                    } else if j == 3 {
                        assert(kt[3] == 's');
                    } else if j == 4 {
                        assert(kt[4] == 'e');
                    }
            }
        },
        ReservedKw::And => {
            assert forall|j: int| 0 <= j < spec_kw_text(kw).len() implies is_alpha_char(
                #[trigger] spec_kw_text(kw)[j],
            ) by {
                let kt = spec_kw_text(kw);
                if j == 0 {
                        assert(kt[0] == 'a');
                    } else if j == 1 {
                        assert(kt[1] == 'n');
                    } else if j == 2 {
                        assert(kt[2] == 'd');
                    }
            }
        },
        ReservedKw::Or => {
            assert forall|j: int| 0 <= j < spec_kw_text(kw).len() implies is_alpha_char(
                #[trigger] spec_kw_text(kw)[j],
            ) by {
                let kt = spec_kw_text(kw);
                if j == 0 {
                        assert(kt[0] == 'o');
                    } else if j == 1 {
                        assert(kt[1] == 'r');
                    }
            }
        },
        ReservedKw::Nil => {
            assert forall|j: int| 0 <= j < spec_kw_text(kw).len() implies is_alpha_char(
                #[trigger] spec_kw_text(kw)[j],
            ) by {
                let kt = spec_kw_text(kw);
                if j == 0 {
                        assert(kt[0] == 'n');
                    } else if j == 1 {
                        assert(kt[1] == 'i');
                    } else if j == 2 {
                        assert(kt[2] == 'l');
                    }
            }
        },
    }
}

/// Scanning a digit run stops exactly at the first non-digit.
pub proof fn lemma_digits_end_exact(input: Seq<char>, pos: int, k: int)
    requires
        0 <= pos,
        0 <= k,
        pos + k <= input.len(),
        forall|j: int| 0 <= j < k ==> is_digit_char(#[trigger] input[pos + j]),
        pos + k == input.len() || !is_digit_char(input[pos + k]),
    ensures
        digits_end(input, pos) == pos + k,
    decreases k,
{
    if k > 0 {
        assert(is_digit_char(input[pos + 0]));
        assert forall|j: int| 0 <= j < k - 1 implies is_digit_char(
            #[trigger] input[pos + 1 + j],
        ) by {
            assert(is_digit_char(input[pos + (j + 1)]));
        }
        lemma_digits_end_exact(input, pos + 1, k - 1);
    }
}

/// Scanning a word stops exactly at the first character that is neither a
/// letter nor a digit.
pub proof fn lemma_word_end_exact(input: Seq<char>, pos: int, k: int)
    requires
        0 <= pos,
        0 <= k,
        pos + k <= input.len(),
        forall|j: int| 0 <= j < k ==> is_alnum_char(#[trigger] input[pos + j]),
        pos + k == input.len() || !is_alnum_char(input[pos + k]),
    ensures
        word_end(input, pos) == pos + k,
    decreases k,
{
    if k > 0 {
        assert(is_alnum_char(input[pos + 0]));
        assert forall|j: int| 0 <= j < k - 1 implies is_alnum_char(
            #[trigger] input[pos + 1 + j],
        ) by {
            assert(is_alnum_char(input[pos + (j + 1)]));
        }
        lemma_word_end_exact(input, pos + 1, k - 1);
    }
}

/// Scanning a string body stops exactly at the first quote.
pub proof fn lemma_string_end_exact(input: Seq<char>, pos: int, k: int)
    requires
        0 <= pos,
        0 <= k,
        pos + k <= input.len(),
        forall|j: int| 0 <= j < k ==> #[trigger] input[pos + j] != '"',
        pos + k == input.len() || input[pos + k] == '"',
    ensures
        string_end(input, pos) == pos + k,
    decreases k,
{
    if k > 0 {
        assert(input[pos + 0] != '"');
        assert forall|j: int| 0 <= j < k - 1 implies #[trigger] input[pos + 1 + j] != '"' by {
            assert(input[pos + (j + 1)] != '"');
        }
        lemma_string_end_exact(input, pos + 1, k - 1);
    }
}

/// The whole token sequence from position `pos` on: every token in order,
/// ending with the `Eof` token.
pub open spec fn spec_tokenize_from(input: Seq<char>, pos: int) -> Seq<SpecToken>
    decreases input.len() - pos,
    via spec_tokenize_from_decreases
{
    if !(0 <= pos < input.len()) {
        seq![SpecToken::Delimiter(Delimiter::Eof)]
    } else {
        let (t, next) = spec_next_token(input, pos);
        seq![t] + spec_tokenize_from(input, next)
    }
}

#[via_fn]
proof fn spec_tokenize_from_decreases(input: Seq<char>, pos: int) {
    if 0 <= pos < input.len() {
        lemma_next_token_advances(input, pos);
    }
}

/// The token sequence of a whole input text.
pub open spec fn spec_tokenize(input: Seq<char>) -> Seq<SpecToken> {
    spec_tokenize_from(input, 0)
}

/// Builds a `String` from a vector of characters.
///
/// Relies on `String: FromIterator<char>`: collecting characters yields the
/// string holding exactly those characters in order.
#[verifier::external_body]
pub(crate) fn chars_to_string(v: &Vec<char>) -> (r: String)
    ensures
        r@ == v@,
{
    v.iter().collect()
}

/// The diagnostic text for an unrecognized character.
fn unexpected_char_message(c: char) -> (r: String)
    ensures
        r@ == spec_unexpected_char_msg(c),
{
    let mut v = str_to_chars("unexpected char '");
    v.push(c);
    v.push('\'');
    proof {
        reveal_strlit("unexpected char '");
        reveal_strlit("'");
        assert(v@ =~= spec_unexpected_char_msg(c));
    }
    chars_to_string(&v)
}

/// An exact copy of a literal token.
pub fn clone_literal(l: &Literal) -> (r: Literal)
    ensures
        r == *l,
{
    match l {
        Literal::Number(s) => Literal::Number(s.clone()),
        Literal::Str(s) => Literal::Str(s.clone()),
        Literal::Bool(s) => Literal::Bool(s.clone()),
        Literal::Char(s) => Literal::Char(s.clone()),
    }
}

/// An exact copy of a token.
pub fn clone_token(t: &Token) -> (r: Token)
    ensures
        r == *t,
{
    match t {
        Token::Delimiter(d) => Token::Delimiter(*d),
        Token::BinaryOp(op) => Token::BinaryOp(*op),
        Token::UnaryOp(op) => Token::UnaryOp(*op),
        Token::Literal(l) => Token::Literal(clone_literal(l)),
        Token::Nil => Token::Nil,
        Token::Ident(s) => Token::Ident(s.clone()),
        Token::ReservedKw(kw) => Token::ReservedKw(*kw),
        Token::TokenError(m) => Token::TokenError(m.clone()),
    }
}

/// A single cursor over the characters of the input text, advanced one code
/// point per step.
pub struct Tokenizer {
    input: Vec<char>,
    pos: usize,
}

impl Tokenizer {
    /// The cursor never stands past the end of the input.
    pub closed spec fn wf(&self) -> bool {
        self.pos <= self.input.len()
    }

    /// The characters still to be scanned.
    pub closed spec fn spec_input(&self) -> Seq<char> {
        self.input@
    }

    /// The cursor position, in characters.
    pub closed spec fn spec_pos(&self) -> int {
        self.pos as int
    }

    /// A tokenizer over `input`, with the cursor at the start.
    pub fn new(input: &str) -> (t: Tokenizer)
        ensures
            t.wf(),
            t.spec_input() == input@,
            t.spec_pos() == 0,
    {
        Tokenizer { input: str_to_chars(input), pos: 0 }
    }

    /// Scans the one token at the cursor and moves the cursor past it.
    /// Total: at the end of the input it returns `Eof`, and an unrecognized
    /// character becomes a `TokenError` token.
    pub fn next_token(&mut self) -> (t: Token)
        requires
            old(self).wf(),
        ensures
            final(self).wf(),
            final(self).spec_input() == old(self).spec_input(),
            (t@, final(self).spec_pos()) == spec_next_token(
                old(self).spec_input(),
                old(self).spec_pos(),
            ),
    {
        if self.pos >= self.input.len() {
            return Token::Delimiter(Delimiter::Eof);
        }
        let c = self.input[self.pos];
        if c == '(' {
            if self.pos + 1 < self.input.len() && self.input[self.pos + 1] == ')' {
                self.pos += 2;
                Token::Nil
            } else {
                self.pos += 1;
                Token::Delimiter(Delimiter::LParen)
            }
        } else if c == ')' {
            self.pos += 1;
            Token::Delimiter(Delimiter::RParen)
        } else if c == '+' {
            self.pos += 1;
            Token::BinaryOp(BinaryOp::Add)
        } else if c == '-' {
            self.pos += 1;
            Token::BinaryOp(BinaryOp::Sub)
        } else if c == '*' {
            self.pos += 1;
            Token::BinaryOp(BinaryOp::Mul)
        } else if c == '/' {
            self.pos += 1;
            Token::BinaryOp(BinaryOp::Div)
        } else if c == '~' {
            self.pos += 1;
            Token::UnaryOp(UnaryOp::Neg)
        } else if c == '!' {
            self.pos += 1;
            Token::UnaryOp(UnaryOp::Not)
        } else if c == ' ' {
            self.pos += 1;
            Token::Delimiter(Delimiter::Space)
        } else if c == '\n' {
            self.pos += 1;
            Token::Delimiter(Delimiter::NewLine)
        } else if digit_char(c) {
            self.tokenize_number()
        } else if c == '"' {
            self.tokenize_string()
        } else if alpha_char(c) {
            self.tokenize_ident_or_reserved()
        } else {
            self.pos += 1;
            Token::TokenError(unexpected_char_message(c))
        }
    }

    /// Scans a run of decimal digits into a number literal token.
    #[verifier::loop_isolation(false)]
    fn tokenize_number(&mut self) -> (t: Token)
        requires
            old(self).wf(),
            old(self).spec_pos() < old(self).spec_input().len(),
            is_digit_char(old(self).spec_input()[old(self).spec_pos()]),
        ensures
            final(self).wf(),
            final(self).spec_input() == old(self).spec_input(),
            final(self).spec_pos() == digits_end(old(self).spec_input(), old(self).spec_pos()),
            t@ == SpecToken::Literal(
                SpecLiteral::Number(
                    old(self).spec_input().subrange(old(self).spec_pos(), final(self).spec_pos()),
                ),
            ),
    {
        let ghost input = self.input@;
        let ghost start = self.pos as int;
        let mut payload: Vec<char> = Vec::new();
        while self.pos < self.input.len() && digit_char(self.input[self.pos])
            invariant
                self.wf(),
                self.input@ == input,
                start <= self.pos as int,
                payload@ == input.subrange(start, self.pos as int),
                digits_end(input, start) == digits_end(input, self.pos as int),
            decreases self.input.len() - self.pos,
        {
            payload.push(self.input[self.pos]);
            self.pos += 1;
            proof {
                assert(payload@ =~= input.subrange(start, self.pos as int));
            }
        }
        Token::Literal(Literal::Number(chars_to_string(&payload)))
    }

    /// Scans a string literal: everything after the opening quote up to the
    /// next `'"'`, or to the end of the input when the literal is
    /// unterminated (the lenient reading: no error token).
    #[verifier::loop_isolation(false)]
    fn tokenize_string(&mut self) -> (t: Token)
        requires
            old(self).wf(),
            old(self).spec_pos() < old(self).spec_input().len(),
            old(self).spec_input()[old(self).spec_pos()] == '"',
        ensures
            final(self).wf(),
            final(self).spec_input() == old(self).spec_input(),
            ({
                let input = old(self).spec_input();
                let start = old(self).spec_pos();
                let end = string_end(input, start + 1);
                &&& t@ == SpecToken::Literal(SpecLiteral::Str(input.subrange(start + 1, end)))
                &&& final(self).spec_pos() == if end < input.len() {
                    end + 1
                } else {
                    end
                }
            }),
    {
        let ghost input = self.input@;
        let ghost start = self.pos as int;
        self.pos += 1;
        let mut payload: Vec<char> = Vec::new();
        loop
            invariant
                self.wf(),
                self.input@ == input,
                start + 1 <= self.pos as int,
                payload@ == input.subrange(start + 1, self.pos as int),
                string_end(input, start + 1) == string_end(input, self.pos as int),
            decreases self.input.len() - self.pos,
        {
            if self.pos >= self.input.len() {
                break;
            }
            let c = self.input[self.pos];
            if c == '"' {
                self.pos += 1;
                break;
            }
            payload.push(c);
            self.pos += 1;
            proof {
                assert(payload@ =~= input.subrange(start + 1, self.pos as int));
            }
        }
        Token::Literal(Literal::Str(chars_to_string(&payload)))
    }

    /// Scans a word and classifies it as a reserved keyword or an ordinary
    /// identifier.
    fn tokenize_ident_or_reserved(&mut self) -> (t: Token)
        requires
            old(self).wf(),
            old(self).spec_pos() < old(self).spec_input().len(),
            is_alpha_char(old(self).spec_input()[old(self).spec_pos()]),
        ensures
            final(self).wf(),
            final(self).spec_input() == old(self).spec_input(),
            final(self).spec_pos() == word_end(old(self).spec_input(), old(self).spec_pos()),
            ({
                let w = old(self).spec_input().subrange(
                    old(self).spec_pos(),
                    final(self).spec_pos(),
                );
                t@ == match spec_kw_of(w) {
                    Some(kw) => SpecToken::ReservedKw(kw),
                    None => SpecToken::Ident(w),
                }
            }),
    {
        let word = self.build_word();
        match kw_of_chars(&word) {
            Some(kw) => Token::ReservedKw(kw),
            None => Token::Ident(chars_to_string(&word)),
        }
    }

    /// Collects the greedy run of letters and digits at the cursor.
    #[verifier::loop_isolation(false)]
    fn build_word(&mut self) -> (w: Vec<char>)
        requires
            old(self).wf(),
        ensures
            final(self).wf(),
            final(self).spec_input() == old(self).spec_input(),
            final(self).spec_pos() == word_end(old(self).spec_input(), old(self).spec_pos()),
            w@ == old(self).spec_input().subrange(old(self).spec_pos(), final(self).spec_pos()),
    {
        let ghost input = self.input@;
        let ghost start = self.pos as int;
        let mut word: Vec<char> = Vec::new();
        while self.pos < self.input.len() && alnum_char(self.input[self.pos])
            invariant
                self.wf(),
                self.input@ == input,
                start <= self.pos as int,
                word@ == input.subrange(start, self.pos as int),
                word_end(input, start) == word_end(input, self.pos as int),
            decreases self.input.len() - self.pos,
        {
            word.push(self.input[self.pos]);
            self.pos += 1;
            proof {
                assert(word@ =~= input.subrange(start, self.pos as int));
            }
        }
        word
    }

    /// Scans the whole input into its token sequence, `Eof` token included.
    #[verifier::loop_isolation(false)]
    pub fn tokenize(&mut self) -> (tokens: Vec<Token>)
        requires
            old(self).wf(),
        ensures
            final(self).wf(),
            final(self).spec_input() == old(self).spec_input(),
            tokens.deep_view() == spec_tokenize_from(old(self).spec_input(), old(self).spec_pos()),
    {
        let ghost input = self.input@;
        let ghost start = self.pos as int;
        let mut tokens: Vec<Token> = Vec::new();
        loop
            invariant
                self.wf(),
                self.input@ == input,
                0 <= start <= self.pos as int,
                spec_tokenize_from(input, start) == tokens.deep_view() + spec_tokenize_from(
                    input,
                    self.pos as int,
                ),
            decreases self.input.len() - self.pos,
        {
            proof {
                if self.pos < self.input.len() {
                    lemma_next_token_advances(input, self.pos as int);
                }
            }
            let ghost pos_before = self.pos as int;
            let ghost toks_before = tokens.deep_view();
            let token = self.next_token();
            let is_eof = match &token {
                Token::Delimiter(Delimiter::Eof) => true,
                _ => false,
            };
            tokens.push(token);
            proof {
                assert(tokens.deep_view() =~= toks_before + seq![token@]);
            }
            if is_eof {
                proof {
                    assert(pos_before >= input.len());
                    assert(spec_tokenize_from(input, pos_before) =~= seq![
                        SpecToken::Delimiter(Delimiter::Eof),
                    ]);
                    assert(tokens.deep_view() =~= spec_tokenize_from(input, start));
                }
                return tokens;
            }
            proof {
                assert(pos_before < input.len());
                assert(spec_tokenize_from(input, pos_before) == seq![token@]
                    + spec_tokenize_from(input, self.pos as int));
                assert(tokens.deep_view() + spec_tokenize_from(input, self.pos as int)
                    =~= toks_before + spec_tokenize_from(input, pos_before));
            }
        }
    }
}

} // verus!
