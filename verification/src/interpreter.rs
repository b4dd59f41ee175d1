//! Tree-walking evaluator.
//!
//! The evaluator walks the tree depth first, one handler per node kind,
//! keeping an explicit value stack and a symbol environment (the "heap").
//! Each successful evaluation pushes exactly one value; a failed one leaves
//! the stack exactly as it found it.  The built-ins `print` and `println`
//! do not write anywhere themselves: the evaluator records each printed
//! value in order, and whoever runs the session displays them.
//!
//! The mathematical model is `spec_eval`: the value or error of a tree, and
//! the sequence of values it prints, under a given environment.

use vstd::prelude::*;

use crate::ast::{AstNode, SpecAst};
use crate::num::parse_dbl_bits;
use crate::parser::{Parser, spec_parse_expr_at};
use crate::tokenizer::{
    BinaryOp, Literal, ReservedKw, SpecLiteral, Tokenizer, UnaryOp, clone_token, kw_of_chars,
    spec_tokenize, str_to_chars,
};
use crate::values::{
    clone_value, EvalError, SpecEvalError, SpecValue, Value, spec_value_add, spec_value_div,
    spec_value_mul, spec_value_neg, spec_value_not, spec_value_sub,
};

verus! {

use vstd::string::StrSliceExecFns;

/// The symbol environment: a mapping from identifier name to value, keys
/// unique, last write wins.  Owned by one evaluator; lives as long as the
/// session.
///
/// Bindings are appended; a superseded binding stays in the list but is
/// dead: the mapping the environment denotes (its view) keeps one value per
/// name, the one written last, and lookup reads exactly that mapping.
pub struct Env {
    entries: Vec<(String, Value)>,
}

/// The mapping that a list of bindings denotes: later bindings win.
pub open spec fn spec_env_map(s: Seq<(String, Value)>) -> Map<Seq<char>, SpecValue>
    decreases s.len(),
{
    if s.len() == 0 {
        Map::empty()
    } else {
        spec_env_map(s.drop_last()).insert(s.last().0@, s.last().1@)
    }
}

impl View for Env {
    type V = Map<Seq<char>, SpecValue>;

    closed spec fn view(&self) -> Map<Seq<char>, SpecValue> {
        spec_env_map(self.entries@)
    }
}

impl Env {
    /// An empty environment.
    pub fn new() -> (e: Env)
        ensures
            e@ == Map::<Seq<char>, SpecValue>::empty(),
    {
        Env { entries: Vec::new() }
    }

    /// Binds `name` to `value`; an earlier binding of the same name is
    /// superseded (last write wins).
    pub fn define(&mut self, name: String, value: Value)
        ensures
            final(self)@ == old(self)@.insert(name@, value@),
    {
        let ghost before = self.entries@;
        let ghost n = name@;
        let ghost v = value@;
        self.entries.push((name, value));
        proof {
            assert(self.entries@.drop_last() =~= before);
            assert(self.entries@.last().0@ == n);
            assert(self.entries@.last().1@ == v);
        }
    }

    /// The value bound to `name`, or `None` when the environment does not
    /// hold it.
    #[verifier::loop_isolation(false)]
    pub fn lookup(&self, name: &str) -> (r: Option<Value>)
        ensures
            match r {
                Some(v) => self@.contains_key(name@) && v@ == self@[name@],
                None => !self@.contains_key(name@),
            },
    {
        let ghost s = self.entries@;
        let mut i: usize = self.entries.len();
        proof {
            assert(s.take(s.len() as int) =~= s);
        }
        loop
            invariant
                i <= self.entries.len(),
                spec_env_map(s).contains_key(name@) == spec_env_map(s.take(i as int)).contains_key(
                    name@,
                ),
                spec_env_map(s).contains_key(name@) ==> spec_env_map(s)[name@] == spec_env_map(
                    s.take(i as int),
                )[name@],
            decreases i,
        {
            if i == 0 {
                proof {
                    assert(s.take(0) =~= Seq::<(String, Value)>::empty());
                }
                return None;
            }
            i = i - 1;
            let key = &self.entries[i].0;
            if str_eq(key.as_str(), name) {
                proof {
                    assert(s.take(i + 1).drop_last() =~= s.take(i as int));
                    assert(s.take(i + 1).last() == s[i as int]);
                }
                return Some(clone_value(&self.entries[i].1));
            }
            proof {
                assert(s.take(i + 1).drop_last() =~= s.take(i as int));
                assert(s.take(i + 1).last() == s[i as int]);
            }
        }
    }
}

/// Whether two string slices hold the same characters.
pub fn str_eq(a: &str, b: &str) -> (r: bool)
    ensures
        r == (a@ == b@),
{
    let na = a.unicode_len();
    let nb = b.unicode_len();
    if na != nb {
        return false;
    }
    let mut i: usize = 0;
    while i < na
        invariant
            na == a@.len(),
            na == b@.len(),
            i <= na,
            forall|j: int| 0 <= j < i ==> a@[j] == b@[j],
        decreases na - i,
    {
        if a.get_char(i) != b.get_char(i) {
            return false;
        }
        i += 1;
    }
    proof {
        assert(a@ =~= b@);
    }
    true
}

/// What a literal evaluates to: a number literal parses as a binary64
/// number, a string literal is its text, a bool literal must spell `true`
/// or `false`, a char literal must hold exactly one character; a malformed
/// payload is an invalid-literal error.
pub open spec fn spec_eval_literal(l: SpecLiteral) -> Result<SpecValue, SpecEvalError> {
    match l {
        SpecLiteral::Number(s) => if s.len() >= 0x8000_0000 {
            // Past the number parser's reach (a machine limit); never the
            // tokenizer's own output.
            Err(SpecEvalError::InvalidLiteral)
        } else {
            match crate::num::dbl_from_dec(s) {
                Some(bits) => Ok(SpecValue::Number(bits)),
                None => Err(SpecEvalError::InvalidLiteral),
            }
        },
        SpecLiteral::Str(s) => Ok(SpecValue::Str(s)),
        SpecLiteral::Bool(s) => if s == crate::tokenizer::spec_kw_text(ReservedKw::True) {
            Ok(SpecValue::Bool(true))
        } else if s == crate::tokenizer::spec_kw_text(ReservedKw::False) {
            Ok(SpecValue::Bool(false))
        } else {
            Err(SpecEvalError::InvalidLiteral)
        },
        SpecLiteral::Char(s) => if s.len() == 1 {
            Ok(SpecValue::Char(s[0]))
        } else {
            Err(SpecEvalError::InvalidLiteral)
        },
    }
}

/// What a binary operator yields on two evaluated operands.
pub open spec fn spec_apply_binop(op: BinaryOp, a: SpecValue, b: SpecValue) -> Result<
    SpecValue,
    SpecEvalError,
> {
    match op {
        BinaryOp::Add => spec_value_add(a, b),
        BinaryOp::Sub => spec_value_sub(a, b),
        BinaryOp::Mul => spec_value_mul(a, b),
        BinaryOp::Div => spec_value_div(a, b),
    }
}

/// What a unary operator yields on its evaluated operand.
pub open spec fn spec_apply_unop(op: UnaryOp, a: SpecValue) -> Result<SpecValue, SpecEvalError> {
    match op {
        UnaryOp::Neg => spec_value_neg(a),
        UnaryOp::Not => spec_value_not(a),
    }
}

/// The name of the `print` built-in.
pub open spec fn spec_print_name() -> Seq<char> {
    seq!['p', 'r', 'i', 'n', 't']
}

/// The name of the `println` built-in.
pub open spec fn spec_println_name() -> Seq<char> {
    seq!['p', 'r', 'i', 'n', 't', 'l', 'n']
}

/// What evaluating a tree under an environment yields: the value or the
/// error, and the values printed along the way, in order.
///
/// Children of a binary operation are evaluated left to right; what the
/// left child printed stays printed even when the right child or the
/// operator fails.  A function call evaluates its one argument, then
/// dispatches on the called name: `print` and `println` record the argument
/// and pass it through; any other name is an unsupported-function error.
/// Reserved forms and the two error node kinds always fail, the error nodes
/// carrying their diagnostic forward unchanged.
pub open spec fn spec_eval(node: SpecAst, env: Map<Seq<char>, SpecValue>) -> (
    Result<SpecValue, SpecEvalError>,
    Seq<SpecValue>,
)
    decreases node,
{
    match node {
        SpecAst::Literal(l) => (spec_eval_literal(l), Seq::empty()),
        SpecAst::Ident(name) => if env.contains_key(name) {
            (Ok(env[name]), Seq::empty())
        } else {
            (Err(SpecEvalError::UndefinedIdentifier(name)), Seq::empty())
        },
        SpecAst::Nil => (Ok(SpecValue::Nil), Seq::empty()),
        SpecAst::BinaryOp { op, lhs, rhs } => {
            let (lr, lo) = spec_eval(*lhs, env);
            match lr {
                Err(e) => (Err(e), lo),
                Ok(lv) => {
                    let (rr, ro) = spec_eval(*rhs, env);
                    match rr {
                        Err(e) => (Err(e), lo + ro),
                        Ok(rv) => (spec_apply_binop(op, lv, rv), lo + ro),
                    }
                },
            }
        },
        SpecAst::UnaryOp { op, expr } => {
            let (r, o) = spec_eval(*expr, env);
            match r {
                Err(e) => (Err(e), o),
                Ok(v) => (spec_apply_unop(op, v), o),
            }
        },
        SpecAst::FnCall { ident, expr } => {
            let (r, o) = spec_eval(*expr, env);
            match r {
                Err(e) => (Err(e), o),
                Ok(v) => if ident == spec_print_name() || ident == spec_println_name() {
                    (Ok(v), o.push(v))
                } else {
                    (Err(SpecEvalError::UnsupportedFunction(ident)), o)
                },
            }
        },
        SpecAst::Reserved { kw, expr } => (
            Err(SpecEvalError::InvalidReserved(kw)),
            Seq::empty(),
        ),
        SpecAst::TokenError(t) => (Err(SpecEvalError::TokenErr(t)), Seq::empty()),
        SpecAst::ParserError(m, sub) => (Err(SpecEvalError::ParserErr(m)), Seq::empty()),
    }
}

/// The models of the values in a sequence, in order.
pub open spec fn spec_values(s: Seq<Value>) -> Seq<SpecValue> {
    Seq::new(s.len(), |i: int| s[i]@)
}

/// Appending one value appends its model.
pub proof fn lemma_values_push(s: Seq<Value>, x: Value)
    ensures
        spec_values(s.push(x)) == spec_values(s).push(x@),
{
    assert(spec_values(s.push(x)) =~= spec_values(s).push(x@));
}

/// Dropping the last value drops its model, which is the model of the
/// last value.
pub proof fn lemma_values_pop(s: Seq<Value>)
    requires
        s.len() > 0,
    ensures
        spec_values(s.subrange(0, s.len() - 1)) == spec_values(s).subrange(0, s.len() - 1),
        s.last()@ == spec_values(s).last(),
{
    assert(spec_values(s.subrange(0, s.len() - 1)) =~= spec_values(s).subrange(
        0,
        s.len() - 1,
    ));
}

proof fn lemma_concat_empty(s: Seq<SpecValue>)
    ensures
        s + Seq::<SpecValue>::empty() == s,
{
    assert(s + Seq::<SpecValue>::empty() =~= s);
}

/// The evaluator: one value stack, one symbol environment, one record of
/// printed values.
pub struct AstInterpreter {
    /// Scratch space for one walk: each success nets exactly one push.
    pub stack: Vec<Value>,
    /// The symbol environment of the session.
    pub heap: Env,
    /// Every value printed by the built-ins, in order; whoever runs the
    /// session displays and drains it.
    pub out: Vec<Value>,
}

impl AstInterpreter {
    /// A fresh evaluator: empty stack, empty environment, nothing printed.
    pub fn new() -> (r: AstInterpreter)
        ensures
            r.stack@.len() == 0,
            r.heap@ == Map::<Seq<char>, SpecValue>::empty(),
            r.out@.len() == 0,
    {
        AstInterpreter { stack: Vec::new(), heap: Env::new(), out: Vec::new() }
    }

    /// What every handler promises: the environment untouched; the printed
    /// record extended by exactly what the tree prints; on success, the
    /// tree's value pushed and nothing else changed; on failure, the stack
    /// exactly as it was and the tree's error returned.
    pub open spec fn eval_post(
        self,
        prior: AstInterpreter,
        node: SpecAst,
        r: Result<(), EvalError>,
    ) -> bool {
        let (sr, so) = spec_eval(node, prior.heap@);
        &&& self.heap@ == prior.heap@
        &&& spec_values(self.out@) == spec_values(prior.out@) + so
        &&& match sr {
            Ok(v) => r is Ok && spec_values(self.stack@) == spec_values(prior.stack@).push(v),
            Err(e) => (match r {
                Ok(_) => false,
                Err(err) => err@ == e,
            }) && spec_values(self.stack@) == spec_values(prior.stack@),
        }
    }

    /// Evaluates one line of input: tokenize, parse one expression,
    /// evaluate it.
    pub fn eval(&mut self, input: &str) -> (r: Result<(), EvalError>)
        ensures
            final(self).eval_post(
                *old(self),
                spec_parse_expr_at(spec_tokenize(input@), 0).0,
                r,
            ),
    {
        let mut tokenizer = Tokenizer::new(input);
        let tokens = tokenizer.tokenize();
        let mut parser = Parser::new(tokens);
        let ast = parser.parse_expr();
        self.eval_ast(&ast)
    }

    /// Evaluates a tree: dispatches on the node kind, one handler per
    /// kind.
    pub fn eval_ast(&mut self, ast: &AstNode) -> (r: Result<(), EvalError>)
        ensures
            final(self).eval_post(*old(self), ast@, r),
        decreases *ast, 1int,
    {
        match ast {
            AstNode::Literal(_) => self.visit_literal(ast),
            AstNode::Ident(_) => self.visit_ident(ast),
            AstNode::Nil => self.visit_nil(ast),
            AstNode::BinaryOp { .. } => self.visit_binary_op(ast),
            AstNode::UnaryOp { .. } => self.visit_unary_op(ast),
            AstNode::FnCall { .. } => self.visit_fn_call(ast),
            AstNode::Reserved { .. } => self.visit_reserved(ast),
            AstNode::TokenError(_) => self.visit_token_error(ast),
            AstNode::ParserError(_, _) => self.visit_parser_error(ast),
        }
    }

    /// Turns the literal's scanned text into a typed value and pushes it;
    /// a malformed payload is a fatal error for this evaluation.
    fn visit_literal(&mut self, node: &AstNode) -> (r: Result<(), EvalError>)
        requires
            *node matches AstNode::Literal(_),
        ensures
            final(self).eval_post(*old(self), node@, r),
    {
        let ghost s0 = self.stack@;
        let ghost o0 = self.out@;
        proof {
            lemma_concat_empty(spec_values(o0));
        }
        match node {
            AstNode::Literal(l) => match l {
                Literal::Number(payload) => {
                    if payload.as_str().unicode_len() >= 0x8000_0000 {
                        return Err(EvalError::InvalidLiteral);
                    }
                    match parse_dbl_bits(payload.as_str()) {
                        Some(bits) => {
                            self.stack.push(Value::Number(bits));
                            proof {
                                lemma_values_push(s0, Value::Number(bits));
                            }
                            Ok(())
                        },
                        None => Err(EvalError::InvalidLiteral),
                    }
                },
                Literal::Str(payload) => {
                    let v = Value::String(payload.clone());
                    proof {
                        lemma_values_push(s0, v);
                    }
                    self.stack.push(v);
                    Ok(())
                },
                Literal::Bool(payload) => {
                    let cs = str_to_chars(payload.as_str());
                    match kw_of_chars(&cs) {
                        Some(ReservedKw::True) => {
                            proof {
                                lemma_values_push(s0, Value::Bool(true));
                            }
                            self.stack.push(Value::Bool(true));
                            Ok(())
                        },
                        Some(ReservedKw::False) => {
                            proof {
                                lemma_values_push(s0, Value::Bool(false));
                            }
                            self.stack.push(Value::Bool(false));
                            Ok(())
                        },
                        _ => Err(EvalError::InvalidLiteral),
                    }
                },
                Literal::Char(payload) => {
                    if payload.as_str().unicode_len() == 1 {
                        let c = payload.as_str().get_char(0);
                        proof {
                            lemma_values_push(s0, Value::Char(c));
                        }
                        self.stack.push(Value::Char(c));
                        Ok(())
                    } else {
                        Err(EvalError::InvalidLiteral)
                    }
                },
            },
            _ => vstd::pervasive::unreached(),
        }
    }

    /// Looks the identifier up in the environment and pushes its value; an
    /// absent name is a fatal undefined-identifier error.
    fn visit_ident(&mut self, node: &AstNode) -> (r: Result<(), EvalError>)
        requires
            *node matches AstNode::Ident(_),
        ensures
            final(self).eval_post(*old(self), node@, r),
    {
        let ghost s0 = self.stack@;
        let ghost o0 = self.out@;
        proof {
            lemma_concat_empty(spec_values(o0));
        }
        match node {
            AstNode::Ident(name) => match self.heap.lookup(name.as_str()) {
                Some(v) => {
                    proof {
                        lemma_values_push(s0, v);
                    }
                    self.stack.push(v);
                    Ok(())
                },
                None => Err(EvalError::UndefinedIdentifier(name.clone())),
            },
            _ => vstd::pervasive::unreached(),
        }
    }

    /// Pushes the nil value.
    fn visit_nil(&mut self, node: &AstNode) -> (r: Result<(), EvalError>)
        requires
            *node matches AstNode::Nil,
        ensures
            final(self).eval_post(*old(self), node@, r),
    {
        let ghost s0 = self.stack@;
        proof {
            lemma_concat_empty(spec_values(self.out@));
            lemma_values_push(s0, Value::Nil);
        }
        self.stack.push(Value::Nil);
        Ok(())
    }

    /// Evaluates the left child, then the right child, pops right then
    /// left, applies the operator's rule, and pushes the one result.  When
    /// anything fails, whatever this handler pushed is popped again, so the
    /// stack is exactly as it found it.
    fn visit_binary_op(&mut self, node: &AstNode) -> (r: Result<(), EvalError>)
        requires
            *node matches AstNode::BinaryOp { .. },
        ensures
            final(self).eval_post(*old(self), node@, r),
        decreases *node, 0int,
    {
        match node {
            AstNode::BinaryOp { op, lhs, rhs } => {
                let ghost env0 = self.heap@;
                let ghost s0 = self.stack@;
                let ghost o0 = self.out@;
                let ghost lv = spec_eval(lhs@, env0).0->Ok_0;
                let ghost lo = spec_eval(lhs@, env0).1;
                let ghost rv = spec_eval(rhs@, env0).0->Ok_0;
                let ghost ro = spec_eval(rhs@, env0).1;
                if let Err(e) = self.eval_ast(lhs) {
                    return Err(e);
                }
                if let Err(e) = self.eval_ast(rhs) {
                    let ghost s2 = self.stack@;
                    proof {
                        assert(spec_values(s2) == spec_values(s0).push(lv));
                        assert(spec_values(s2).len() == s2.len());
                        assert(spec_values(s0).len() == s0.len());
                        lemma_values_pop(s2);
                    }
                    let popped = self.stack.pop();
                    proof {
                        assert(spec_values(self.stack@) =~= spec_values(s0));
                        assert(spec_values(self.out@) =~= spec_values(o0) + (lo + ro));
                    }
                    return Err(e);
                }
                let ghost s2 = self.stack@;
                proof {
                    assert(spec_values(s2) == spec_values(s0).push(lv).push(rv));
                    assert(spec_values(s2).len() == s2.len());
                    assert(spec_values(s0).len() == s0.len());
                    lemma_values_pop(s2);
                }
                let rhs_val = match self.stack.pop() {
                    Some(v) => v,
                    None => vstd::pervasive::unreached(),
                };
                let ghost s3 = self.stack@;
                proof {
                    assert(rhs_val@ == rv);
                    assert(spec_values(s3) =~= spec_values(s0).push(lv));
                    assert(spec_values(s3).len() == s3.len());
                    lemma_values_pop(s3);
                }
                let lhs_val = match self.stack.pop() {
                    Some(v) => v,
                    None => vstd::pervasive::unreached(),
                };
                proof {
                    assert(lhs_val@ == lv);
                    assert(spec_values(self.stack@) =~= spec_values(s0));
                    assert(spec_values(self.out@) =~= spec_values(o0) + (lo + ro));
                }
                let res = match op {
                    BinaryOp::Add => lhs_val.add(&rhs_val),
                    BinaryOp::Sub => lhs_val.sub(&rhs_val),
                    BinaryOp::Mul => lhs_val.mul(&rhs_val),
                    BinaryOp::Div => lhs_val.div(&rhs_val),
                };
                match res {
                    Ok(v) => {
                        proof {
                            lemma_values_push(self.stack@, v);
                        }
                        self.stack.push(v);
                        Ok(())
                    },
                    Err(e) => Err(e),
                }
            },
            _ => vstd::pervasive::unreached(),
        }
    }

    /// Evaluates the one child, pops it, applies the operator's rule, and
    /// pushes the one result; on failure the stack is exactly as it found
    /// it.
    fn visit_unary_op(&mut self, node: &AstNode) -> (r: Result<(), EvalError>)
        requires
            *node matches AstNode::UnaryOp { .. },
        ensures
            final(self).eval_post(*old(self), node@, r),
        decreases *node, 0int,
    {
        match node {
            AstNode::UnaryOp { op, expr } => {
                let ghost env0 = self.heap@;
                let ghost s0 = self.stack@;
                if let Err(e) = self.eval_ast(expr) {
                    return Err(e);
                }
                let ghost ev = spec_eval(expr@, env0).0->Ok_0;
                let ghost s1 = self.stack@;
                proof {
                    assert(spec_values(s1) == spec_values(s0).push(ev));
                    assert(spec_values(s1).len() == s1.len());
                    assert(spec_values(s0).len() == s0.len());
                    lemma_values_pop(s1);
                }
                let val = match self.stack.pop() {
                    Some(v) => v,
                    None => vstd::pervasive::unreached(),
                };
                proof {
                    assert(val@ == ev);
                    assert(spec_values(self.stack@) =~= spec_values(s0));
                }
                let res = match op {
                    UnaryOp::Neg => val.neg(),
                    UnaryOp::Not => val.not(),
                };
                match res {
                    Ok(v) => {
                        proof {
                            lemma_values_push(self.stack@, v);
                        }
                        self.stack.push(v);
                        Ok(())
                    },
                    Err(e) => Err(e),
                }
            },
            _ => vstd::pervasive::unreached(),
        }
    }

    /// Evaluates the one argument, then dispatches on the called name
    /// against the built-in table: `print` and `println` record the
    /// argument in the printed output and pass it through as the call's
    /// value; an unknown name is a fatal unsupported-function error.
    fn visit_fn_call(&mut self, node: &AstNode) -> (r: Result<(), EvalError>)
        requires
            *node matches AstNode::FnCall { .. },
        ensures
            final(self).eval_post(*old(self), node@, r),
        decreases *node, 0int,
    {
        match node {
            AstNode::FnCall { ident, expr } => {
                let ghost env0 = self.heap@;
                let ghost s0 = self.stack@;
                let ghost o0 = self.out@;
                if let Err(e) = self.eval_ast(expr) {
                    return Err(e);
                }
                let ghost ev = spec_eval(expr@, env0).0->Ok_0;
                let ghost eo = spec_eval(expr@, env0).1;
                let ghost s1 = self.stack@;
                proof {
                    assert(spec_values(s1) == spec_values(s0).push(ev));
                    assert(spec_values(s1).len() == s1.len());
                    assert(spec_values(s0).len() == s0.len());
                    lemma_values_pop(s1);
                }
                let cs = str_to_chars(ident.as_str());
                if is_print_word(&cs) || is_println_word(&cs) {
                    let v = match self.stack.pop() {
                        Some(v) => v,
                        None => vstd::pervasive::unreached(),
                    };
                    let ghost o1 = self.out@;
                    proof {
                        assert(v@ == ev);
                        lemma_values_push(o1, v);
                    }
                    self.out.push(clone_value(&v));
                    let ghost s2 = self.stack@;
                    proof {
                        lemma_values_push(s2, v);
                    }
                    self.stack.push(v);
                    proof {
                        assert(spec_values(self.stack@) =~= spec_values(s0).push(ev));
                        assert(spec_values(self.out@) =~= spec_values(o0) + eo.push(ev));
                    }
                    Ok(())
                } else {
                    let popped = self.stack.pop();
                    proof {
                        assert(spec_values(self.stack@) =~= spec_values(s0));
                    }
                    Err(EvalError::UnsupportedFunction(ident.clone()))
                }
            },
            _ => vstd::pervasive::unreached(),
        }
    }

    /// A reserved-keyword form: the evaluator supports none, so this is
    /// always a fatal error naming the keyword.
    fn visit_reserved(&mut self, node: &AstNode) -> (r: Result<(), EvalError>)
        requires
            *node matches AstNode::Reserved { .. },
        ensures
            final(self).eval_post(*old(self), node@, r),
    {
        proof {
            lemma_concat_empty(spec_values(self.out@));
        }
        match node {
            AstNode::Reserved { kw, expr } => Err(EvalError::InvalidReserved(*kw)),
            _ => vstd::pervasive::unreached(),
        }
    }

    /// A `TokenError` node always fails, carrying the scanner's diagnostic
    /// forward unchanged: evaluation never evaluates through a syntax
    /// error.
    fn visit_token_error(&mut self, node: &AstNode) -> (r: Result<(), EvalError>)
        requires
            *node matches AstNode::TokenError(_),
        ensures
            final(self).eval_post(*old(self), node@, r),
    {
        proof {
            lemma_concat_empty(spec_values(self.out@));
        }
        match node {
            AstNode::TokenError(t) => Err(EvalError::TokenErr(clone_token(t))),
            _ => vstd::pervasive::unreached(),
        }
    }

    /// A `ParserError` node always fails, carrying the parser's diagnostic
    /// forward unchanged.
    fn visit_parser_error(&mut self, node: &AstNode) -> (r: Result<(), EvalError>)
        requires
            *node matches AstNode::ParserError(_, _),
        ensures
            final(self).eval_post(*old(self), node@, r),
    {
        proof {
            lemma_concat_empty(spec_values(self.out@));
        }
        match node {
            AstNode::ParserError(m, sub) => Err(EvalError::ParserErr(m.clone())),
            _ => vstd::pervasive::unreached(),
        }
    }
}

/// Whether a word spells `print`.
fn is_print_word(w: &Vec<char>) -> (b: bool)
    ensures
        b == (w@ == spec_print_name()),
{
    let r = w.len() == 5 && w[0] == 'p' && w[1] == 'r' && w[2] == 'i' && w[3] == 'n' && w[4]
        == 't';
    proof {
        if r {
            assert(w@ =~= spec_print_name());
        }
    }
    r
}

/// Whether a word spells `println`.
fn is_println_word(w: &Vec<char>) -> (b: bool)
    ensures
        b == (w@ == spec_println_name()),
{
    let r = w.len() == 7 && w[0] == 'p' && w[1] == 'r' && w[2] == 'i' && w[3] == 'n' && w[4] == 't'
        && w[5] == 'l' && w[6] == 'n';
    proof {
        if r {
            assert(w@ =~= spec_println_name());
        }
    }
    r
}

/// The printed output of a binary operation is the left child's output
/// followed by the right child's: evaluation order is left before right,
/// and what the left child printed stays first (and stays printed even when
/// the rest fails).
pub proof fn lemma_binary_op_output_order(
    op: BinaryOp,
    lhs: SpecAst,
    rhs: SpecAst,
    env: Map<Seq<char>, SpecValue>,
)
    ensures
        ({
            let node = SpecAst::BinaryOp { op, lhs: Box::new(lhs), rhs: Box::new(rhs) };
            &&& (spec_eval(lhs, env).0 is Ok ==> spec_eval(node, env).1 == spec_eval(lhs, env).1
                + spec_eval(rhs, env).1)
            &&& (spec_eval(lhs, env).0 is Err ==> spec_eval(node, env).1 == spec_eval(
                lhs,
                env,
            ).1)
        }),
{
}

/// Environment lookup: an undefined identifier always evaluates to an
/// undefined-identifier error, never a default value; and after defining a
/// name, evaluating that identifier in the same session yields exactly the
/// value defined.
pub proof fn lemma_env_lookup(name: Seq<char>, v: SpecValue, env: Map<Seq<char>, SpecValue>)
    ensures
        !env.contains_key(name) ==> spec_eval(SpecAst::Ident(name), env).0 == Result::<
            SpecValue,
            SpecEvalError,
        >::Err(SpecEvalError::UndefinedIdentifier(name)),
        env.contains_key(name) ==> spec_eval(SpecAst::Ident(name), env).0 == Result::<
            SpecValue,
            SpecEvalError,
        >::Ok(env[name]),
        spec_eval(SpecAst::Ident(name), env.insert(name, v)).0 == Result::<
            SpecValue,
            SpecEvalError,
        >::Ok(v),
{
}

} // verus!
