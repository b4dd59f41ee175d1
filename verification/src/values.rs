//! Runtime values and evaluation errors.
//!
//! A `Value` is what evaluating an expression yields.  Numbers are IEEE-754
//! binary64 values held as their bit patterns (see the `num` module).  The
//! operator rules live here: addition is overloaded over numbers and strings,
//! the other arithmetic operators take numbers only, `not` takes a boolean,
//! and every other pairing is a type mismatch.

use vstd::prelude::*;

use crate::num::{dbl_add, dbl_div, dbl_is_zero, dbl_mul, dbl_neg, dbl_sub};
use crate::num::{add_bits, div_bits, mul_bits, neg_bits, sub_bits};
use crate::tokenizer::{ReservedKw, SpecToken, Token, spec_kw_text};

verus! {

use vstd::string::StringExecFns;

/// The result of one evaluation.  `Number` holds the IEEE-754 binary64 bit
/// pattern of the number.
#[derive(Debug, PartialEq, Clone)]
pub enum Value {
    Nil,
    Bool(bool),
    Number(u64),
    String(String),
    Char(char),
    Symbol(String),
}

/// The mathematical model of a `Value`.
pub enum SpecValue {
    Nil,
    Bool(bool),
    Number(u64),
    Str(Seq<char>),
    Char(char),
    Symbol(Seq<char>),
}

impl View for Value {
    type V = SpecValue;

    open spec fn view(&self) -> SpecValue {
        match self {
            Value::Nil => SpecValue::Nil,
            Value::Bool(b) => SpecValue::Bool(*b),
            Value::Number(n) => SpecValue::Number(*n),
            Value::String(s) => SpecValue::Str(s@),
            Value::Char(c) => SpecValue::Char(*c),
            Value::Symbol(s) => SpecValue::Symbol(s@),
        }
    }
}

impl DeepView for Value {
    type V = SpecValue;

    open spec fn deep_view(&self) -> SpecValue {
        self.view()
    }
}

/// Why an evaluation failed.  Fatal to the current evaluation only; the
/// caller decides whether the session goes on.
#[derive(Debug, PartialEq, Clone)]
pub enum EvalError {
    /// An operator was applied to operands of the wrong types.
    TypeMismatch,
    /// A literal's textual payload does not parse as a value of its kind.
    InvalidLiteral,
    /// An identifier that the environment does not hold.
    UndefinedIdentifier(String),
    /// A call of a name outside the built-in table.
    UnsupportedFunction(String),
    /// A reserved-keyword form that the evaluator does not support.
    InvalidReserved(ReservedKw),
    /// Evaluation reached a `TokenError` node: the scanner's diagnostic,
    /// carried forward unchanged.
    TokenErr(Token),
    /// Evaluation reached a `ParserError` node: the parser's diagnostic,
    /// carried forward unchanged.
    ParserErr(String),
}

/// The mathematical model of an `EvalError`.
pub enum SpecEvalError {
    TypeMismatch,
    InvalidLiteral,
    UndefinedIdentifier(Seq<char>),
    UnsupportedFunction(Seq<char>),
    InvalidReserved(ReservedKw),
    TokenErr(SpecToken),
    ParserErr(Seq<char>),
}

impl View for EvalError {
    type V = SpecEvalError;

    open spec fn view(&self) -> SpecEvalError {
        match self {
            EvalError::TypeMismatch => SpecEvalError::TypeMismatch,
            EvalError::InvalidLiteral => SpecEvalError::InvalidLiteral,
            EvalError::UndefinedIdentifier(s) => SpecEvalError::UndefinedIdentifier(s@),
            EvalError::UnsupportedFunction(s) => SpecEvalError::UnsupportedFunction(s@),
            EvalError::InvalidReserved(kw) => SpecEvalError::InvalidReserved(*kw),
            EvalError::TokenErr(t) => SpecEvalError::TokenErr(t@),
            EvalError::ParserErr(s) => SpecEvalError::ParserErr(s@),
        }
    }
}

impl DeepView for EvalError {
    type V = SpecEvalError;

    open spec fn deep_view(&self) -> SpecEvalError {
        self.view()
    }
}

/// The human-readable text of each evaluation error.
pub open spec fn spec_error_message(e: SpecEvalError) -> Seq<char> {
    match e {
        SpecEvalError::TypeMismatch => "type mismatch"@,
        SpecEvalError::InvalidLiteral => "invalid literal"@,
        SpecEvalError::UndefinedIdentifier(n) => "Undefined identifier: "@ + n,
        SpecEvalError::UnsupportedFunction(n) => "Unsupported function call: "@ + n,
        SpecEvalError::InvalidReserved(kw) => "Invalid reserved keyword: "@ + spec_kw_text(kw),
        SpecEvalError::TokenErr(_) => "token error"@,
        SpecEvalError::ParserErr(m) => "parser error: "@ + m,
    }
}

impl ReservedKw {
    /// The keyword's spelling.
    pub fn as_text(&self) -> (r: String)
        ensures
            r@ == spec_kw_text(*self),
    {
        proof {
            reveal_strlit("if");
            reveal_strlit("else");
            reveal_strlit("elseif");
            reveal_strlit("def");
            reveal_strlit("let");
            reveal_strlit("true");
            reveal_strlit("false");
            reveal_strlit("and");
            reveal_strlit("or");
            reveal_strlit("nil");
        }
        match self {
            ReservedKw::If => {
                let r = String::from_str("if");
                proof {
                    assert(r@ =~= spec_kw_text(*self));
                }
                r
            },
            ReservedKw::Else => {
                let r = String::from_str("else");
                proof {
                    assert(r@ =~= spec_kw_text(*self));
                }
                r
            },
            ReservedKw::ElseIf => {
                let r = String::from_str("elseif");
                proof {
                    assert(r@ =~= spec_kw_text(*self));
                }
                r
            },
            ReservedKw::Def => {
                let r = String::from_str("def");
                proof {
                    assert(r@ =~= spec_kw_text(*self));
                }
                r
            },
            ReservedKw::Let => {
                let r = String::from_str("let");
                proof {
                    assert(r@ =~= spec_kw_text(*self));
                }
                r
            },
            ReservedKw::True => {
                let r = String::from_str("true");
                proof {
                    assert(r@ =~= spec_kw_text(*self));
                }
                r
            },
            ReservedKw::False => {
                let r = String::from_str("false");
                proof {
                    assert(r@ =~= spec_kw_text(*self));
                }
                r
            },
            ReservedKw::And => {
                let r = String::from_str("and");
                proof {
                    assert(r@ =~= spec_kw_text(*self));
                }
                r
            },
            ReservedKw::Or => {
                let r = String::from_str("or");
                proof {
                    assert(r@ =~= spec_kw_text(*self));
                }
                r
            },
            ReservedKw::Nil => {
                let r = String::from_str("nil");
                proof {
                    assert(r@ =~= spec_kw_text(*self));
                }
                r
            },
        }
    }
}

impl EvalError {
    /// The error's human-readable message.
    pub fn message(&self) -> (r: String)
        ensures
            r@ == spec_error_message(self@),
    {
        match self {
            EvalError::TypeMismatch => String::from_str("type mismatch"),
            EvalError::InvalidLiteral => String::from_str("invalid literal"),
            EvalError::UndefinedIdentifier(n) => {
                let mut m = String::from_str("Undefined identifier: ");
                m.append(n.as_str());
                m
            },
            EvalError::UnsupportedFunction(n) => {
                let mut m = String::from_str("Unsupported function call: ");
                m.append(n.as_str());
                m
            },
            EvalError::InvalidReserved(kw) => {
                let mut m = String::from_str("Invalid reserved keyword: ");
                let t = kw.as_text();
                m.append(t.as_str());
                m
            },
            EvalError::TokenErr(_) => String::from_str("token error"),
            EvalError::ParserErr(m) => {
                let mut r = String::from_str("parser error: ");
                r.append(m.as_str());
                r
            },
        }
    }
}

/// What `+` yields: the binary64 sum of two numbers, the concatenation of
/// two strings, and a type mismatch for every other pairing.
pub open spec fn spec_value_add(a: SpecValue, b: SpecValue) -> Result<SpecValue, SpecEvalError> {
    match (a, b) {
        (SpecValue::Number(x), SpecValue::Number(y)) => Ok(SpecValue::Number(dbl_add(x, y))),
        (SpecValue::Str(x), SpecValue::Str(y)) => Ok(SpecValue::Str(x + y)),
        _ => Err(SpecEvalError::TypeMismatch),
    }
}

/// What `-` yields: the binary64 difference of two numbers; anything else is
/// a type mismatch.
pub open spec fn spec_value_sub(a: SpecValue, b: SpecValue) -> Result<SpecValue, SpecEvalError> {
    match (a, b) {
        (SpecValue::Number(x), SpecValue::Number(y)) => Ok(SpecValue::Number(dbl_sub(x, y))),
        _ => Err(SpecEvalError::TypeMismatch),
    }
}

/// What `*` yields: the binary64 product of two numbers; anything else is a
/// type mismatch.
pub open spec fn spec_value_mul(a: SpecValue, b: SpecValue) -> Result<SpecValue, SpecEvalError> {
    match (a, b) {
        (SpecValue::Number(x), SpecValue::Number(y)) => Ok(SpecValue::Number(dbl_mul(x, y))),
        _ => Err(SpecEvalError::TypeMismatch),
    }
}

/// What `/` yields: the binary64 quotient of two numbers (division by zero
/// follows IEEE-754 and is not an error); anything else is a type mismatch.
pub open spec fn spec_value_div(a: SpecValue, b: SpecValue) -> Result<SpecValue, SpecEvalError> {
    match (a, b) {
        (SpecValue::Number(x), SpecValue::Number(y)) => Ok(SpecValue::Number(dbl_div(x, y))),
        _ => Err(SpecEvalError::TypeMismatch),
    }
}

/// What `~` yields: the binary64 negation of a number; anything else is a
/// type mismatch.
pub open spec fn spec_value_neg(a: SpecValue) -> Result<SpecValue, SpecEvalError> {
    match a {
        SpecValue::Number(x) => Ok(SpecValue::Number(dbl_neg(x))),
        _ => Err(SpecEvalError::TypeMismatch),
    }
}

/// What `!` yields: the inverted boolean; anything else is a type mismatch.
pub open spec fn spec_value_not(a: SpecValue) -> Result<SpecValue, SpecEvalError> {
    match a {
        SpecValue::Bool(b) => Ok(SpecValue::Bool(!b)),
        _ => Err(SpecEvalError::TypeMismatch),
    }
}

/// Which values count as true: `nil` and `false` do not; a number does
/// unless it equals zero; a string does unless it is empty; characters and
/// symbols do not.
pub open spec fn spec_is_truthy(a: SpecValue) -> bool {
    match a {
        SpecValue::Nil => false,
        SpecValue::Bool(b) => b,
        SpecValue::Number(n) => !dbl_is_zero(n),
        SpecValue::Str(s) => s.len() > 0,
        SpecValue::Char(_) => false,
        SpecValue::Symbol(_) => false,
    }
}

/// An exact copy of a value.
pub fn clone_value(v: &Value) -> (r: Value)
    ensures
        r == *v,
{
    match v {
        Value::Nil => Value::Nil,
        Value::Bool(b) => Value::Bool(*b),
        Value::Number(n) => Value::Number(*n),
        Value::String(s) => Value::String(s.clone()),
        Value::Char(c) => Value::Char(*c),
        Value::Symbol(s) => Value::Symbol(s.clone()),
    }
}

impl Value {
    /// Addition, overloaded: number + number sums, string + string
    /// concatenates, any other pairing is a type mismatch.
    pub fn add(&self, other: &Value) -> (r: Result<Value, EvalError>)
        ensures
            match spec_value_add(self@, other@) {
                Ok(sv) => r matches Ok(v) && v@ == sv,
                Err(se) => r matches Err(e) && e@ == se,
            },
    {
        match (self, other) {
            (Value::Number(lhs), Value::Number(rhs)) => Ok(Value::Number(add_bits(*lhs, *rhs))),
            (Value::String(lhs), Value::String(rhs)) => {
                let mut s = lhs.clone();
                s.append(rhs.as_str());
                Ok(Value::String(s))
            },
            _ => Err(EvalError::TypeMismatch),
        }
    }

    /// Subtraction of two numbers; anything else is a type mismatch.
    pub fn sub(&self, other: &Value) -> (r: Result<Value, EvalError>)
        ensures
            match spec_value_sub(self@, other@) {
                Ok(sv) => r matches Ok(v) && v@ == sv,
                Err(se) => r matches Err(e) && e@ == se,
            },
    {
        match (self, other) {
            (Value::Number(lhs), Value::Number(rhs)) => Ok(Value::Number(sub_bits(*lhs, *rhs))),
            _ => Err(EvalError::TypeMismatch),
        }
    }

    /// Multiplication of two numbers; anything else is a type mismatch.
    pub fn mul(&self, other: &Value) -> (r: Result<Value, EvalError>)
        ensures
            match spec_value_mul(self@, other@) {
                Ok(sv) => r matches Ok(v) && v@ == sv,
                Err(se) => r matches Err(e) && e@ == se,
            },
    {
        match (self, other) {
            (Value::Number(lhs), Value::Number(rhs)) => Ok(Value::Number(mul_bits(*lhs, *rhs))),
            _ => Err(EvalError::TypeMismatch),
        }
    }

    /// Division of two numbers, with IEEE-754 semantics for division by
    /// zero; anything else is a type mismatch.
    pub fn div(&self, other: &Value) -> (r: Result<Value, EvalError>)
        ensures
            match spec_value_div(self@, other@) {
                Ok(sv) => r matches Ok(v) && v@ == sv,
                Err(se) => r matches Err(e) && e@ == se,
            },
    {
        match (self, other) {
            (Value::Number(lhs), Value::Number(rhs)) => Ok(Value::Number(div_bits(*lhs, *rhs))),
            _ => Err(EvalError::TypeMismatch),
        }
    }

    /// Negation of a number; anything else is a type mismatch.
    pub fn neg(&self) -> (r: Result<Value, EvalError>)
        ensures
            match spec_value_neg(self@) {
                Ok(sv) => r matches Ok(v) && v@ == sv,
                Err(se) => r matches Err(e) && e@ == se,
            },
    {
        match self {
            Value::Number(n) => Ok(Value::Number(neg_bits(*n))),
            _ => Err(EvalError::TypeMismatch),
        }
    }

    /// Boolean inversion; anything else is a type mismatch.
    pub fn not(&self) -> (r: Result<Value, EvalError>)
        ensures
            match spec_value_not(self@) {
                Ok(sv) => r matches Ok(v) && v@ == sv,
                Err(se) => r matches Err(e) && e@ == se,
            },
    {
        match self {
            Value::Bool(b) => Ok(Value::Bool(!*b)),
            _ => Err(EvalError::TypeMismatch),
        }
    }

    /// Whether the value counts as true.
    pub fn is_truthy(&self) -> (r: bool)
        ensures
            r == spec_is_truthy(self@),
    {
        match self {
            Value::Nil => false,
            Value::Bool(b) => *b,
            Value::Number(n) => !(*n == 0u64 || *n == 0x8000_0000_0000_0000u64),
            Value::String(s) => s.as_str().unicode_len() > 0,
            _ => false,
        }
    }
}

} // verus!
