use s_expressions_interpreter::ast::AstNode;
use s_expressions_interpreter::interpreter::AstInterpreter;
use s_expressions_interpreter::tokenizer::{Literal, ReservedKw, Token};
use s_expressions_interpreter::values::{EvalError, Value};

fn bits(x: f64) -> u64 {
    x.to_bits()
}

#[test]
fn adding_numbers_yields_their_sum() {
    let mut interp = AstInterpreter::new();
    assert_eq!(interp.eval("(+ 1 2)"), Ok(()));
    assert_eq!(interp.stack.pop(), Some(Value::Number(bits(3.0))));
    assert_eq!(interp.stack.len(), 0);
}

#[test]
fn adding_strings_concatenates_them() {
    let mut interp = AstInterpreter::new();
    assert_eq!(interp.eval("(+ \"a\" \"b\")"), Ok(()));
    assert_eq!(interp.stack.pop(), Some(Value::String("ab".to_string())));
}

#[test]
fn adding_a_number_and_a_string_is_a_type_mismatch() {
    let mut interp = AstInterpreter::new();
    assert_eq!(interp.eval("(+ 1 \"a\")"), Err(EvalError::TypeMismatch));
    assert_eq!(interp.stack.len(), 0);
}

#[test]
fn subtraction_multiplication_and_division_follow_binary64() {
    let mut interp = AstInterpreter::new();
    assert_eq!(interp.eval("(- 5 2)"), Ok(()));
    assert_eq!(interp.stack.pop(), Some(Value::Number(bits(3.0))));
    assert_eq!(interp.eval("(* 3 2)"), Ok(()));
    assert_eq!(interp.stack.pop(), Some(Value::Number(bits(6.0))));
    assert_eq!(interp.eval("(/ 1 2)"), Ok(()));
    assert_eq!(interp.stack.pop(), Some(Value::Number(bits(0.5))));
}

#[test]
fn division_by_zero_follows_the_floating_point_rule() {
    let mut interp = AstInterpreter::new();
    assert_eq!(interp.eval("(/ 1 0)"), Ok(()));
    assert_eq!(interp.stack.pop(), Some(Value::Number(bits(f64::INFINITY))));
}

#[test]
fn negation_and_not_apply_to_their_own_types() {
    let mut interp = AstInterpreter::new();
    assert_eq!(interp.eval("(~ 2)"), Ok(()));
    assert_eq!(interp.stack.pop(), Some(Value::Number(bits(-2.0))));
    assert_eq!(interp.eval("(! true)"), Ok(()));
    assert_eq!(interp.stack.pop(), Some(Value::Bool(false)));
    assert_eq!(interp.eval("(~ \"a\")"), Err(EvalError::TypeMismatch));
    assert_eq!(interp.eval("(! 1)"), Err(EvalError::TypeMismatch));
}

#[test]
fn evaluation_order_is_left_before_right() {
    // Two printing calls inside one sum: the recorded output lists the left
    // argument first, then the right one, matching source order.
    let mut interp = AstInterpreter::new();
    assert_eq!(interp.eval("(+ (println 1) (println 2))"), Ok(()));
    assert_eq!(interp.out, vec![Value::Number(bits(1.0)), Value::Number(bits(2.0))]);
    assert_eq!(interp.stack.pop(), Some(Value::Number(bits(3.0))));
}

#[test]
fn what_the_left_child_printed_stays_printed_on_failure() {
    let mut interp = AstInterpreter::new();
    assert_eq!(interp.eval("(+ (println 1) \"a\")"), Err(EvalError::TypeMismatch));
    assert_eq!(interp.out, vec![Value::Number(bits(1.0))]);
    assert_eq!(interp.stack.len(), 0);
}

#[test]
fn print_passes_its_argument_through() {
    let mut interp = AstInterpreter::new();
    assert_eq!(interp.eval("(print \"hi\")"), Ok(()));
    assert_eq!(interp.out, vec![Value::String("hi".to_string())]);
    assert_eq!(interp.stack.pop(), Some(Value::String("hi".to_string())));
}

#[test]
fn an_unknown_function_is_an_unsupported_call() {
    let mut interp = AstInterpreter::new();
    assert_eq!(
        interp.eval("(frobnicate 1)"),
        Err(EvalError::UnsupportedFunction("frobnicate".to_string()))
    );
    assert_eq!(interp.stack.len(), 0);
}

#[test]
fn an_undefined_identifier_is_an_error_never_a_default() {
    let mut interp = AstInterpreter::new();
    assert_eq!(interp.eval("x"), Err(EvalError::UndefinedIdentifier("x".to_string())));
    assert_eq!(interp.stack.len(), 0);
}

#[test]
fn defining_then_evaluating_yields_the_assigned_value() {
    let mut interp = AstInterpreter::new();
    interp.heap.define("x".to_string(), Value::Number(bits(1.5)));
    assert_eq!(interp.eval("x"), Ok(()));
    assert_eq!(interp.stack.pop(), Some(Value::Number(bits(1.5))));
    // last write wins
    interp.heap.define("x".to_string(), Value::Bool(true));
    assert_eq!(interp.eval("x"), Ok(()));
    assert_eq!(interp.stack.pop(), Some(Value::Bool(true)));
}

#[test]
fn literals_evaluate_to_their_typed_values() {
    let mut interp = AstInterpreter::new();
    assert_eq!(interp.eval("42"), Ok(()));
    assert_eq!(interp.stack.pop(), Some(Value::Number(bits(42.0))));
    assert_eq!(interp.eval("\"abc\""), Ok(()));
    assert_eq!(interp.stack.pop(), Some(Value::String("abc".to_string())));
    assert_eq!(interp.eval("true"), Ok(()));
    assert_eq!(interp.stack.pop(), Some(Value::Bool(true)));
    assert_eq!(interp.eval("nil"), Ok(()));
    assert_eq!(interp.stack.pop(), Some(Value::Nil));
    assert_eq!(interp.eval("()"), Ok(()));
    assert_eq!(interp.stack.pop(), Some(Value::Nil));
}

#[test]
fn a_malformed_literal_payload_is_a_fatal_error() {
    let mut interp = AstInterpreter::new();
    let node = AstNode::Literal(Literal::Number("not a number".to_string()));
    assert_eq!(interp.eval_ast(&node), Err(EvalError::InvalidLiteral));
    let node = AstNode::Literal(Literal::Bool("maybe".to_string()));
    assert_eq!(interp.eval_ast(&node), Err(EvalError::InvalidLiteral));
    let node = AstNode::Literal(Literal::Char("ab".to_string()));
    assert_eq!(interp.eval_ast(&node), Err(EvalError::InvalidLiteral));
    let node = AstNode::Literal(Literal::Char("c".to_string()));
    assert_eq!(interp.eval_ast(&node), Ok(()));
    assert_eq!(interp.stack.pop(), Some(Value::Char('c')));
}

#[test]
fn a_reserved_form_is_not_evaluable() {
    let mut interp = AstInterpreter::new();
    assert_eq!(interp.eval("(if 1)"), Err(EvalError::InvalidReserved(ReservedKw::If)));
}

#[test]
fn syntax_errors_carry_their_diagnostics_forward() {
    let mut interp = AstInterpreter::new();
    assert_eq!(
        interp.eval("%"),
        Err(EvalError::TokenErr(Token::TokenError("unexpected char '%'".to_string())))
    );
    assert_eq!(
        interp.eval("(+ 1"),
        Err(EvalError::ParserErr(
            "unexpected token, expected a closing parenthesis".to_string()
        ))
    );
    assert_eq!(interp.stack.len(), 0);
}

#[test]
fn error_messages_name_the_failure() {
    assert_eq!(
        EvalError::UndefinedIdentifier("x".to_string()).message(),
        "Undefined identifier: x".to_string()
    );
    assert_eq!(
        EvalError::UnsupportedFunction("f".to_string()).message(),
        "Unsupported function call: f".to_string()
    );
    assert_eq!(
        EvalError::InvalidReserved(ReservedKw::Let).message(),
        "Invalid reserved keyword: let".to_string()
    );
    assert_eq!(EvalError::TypeMismatch.message(), "type mismatch".to_string());
}

#[test]
fn truthiness_follows_the_value_kind() {
    assert!(!Value::Nil.is_truthy());
    assert!(Value::Bool(true).is_truthy());
    assert!(!Value::Bool(false).is_truthy());
    assert!(Value::Number(bits(2.0)).is_truthy());
    assert!(!Value::Number(bits(0.0)).is_truthy());
    assert!(!Value::Number(bits(-0.0)).is_truthy());
    assert!(Value::String("a".to_string()).is_truthy());
    assert!(!Value::String(String::new()).is_truthy());
    assert!(!Value::Symbol("s".to_string()).is_truthy());
}

#[test]
fn nested_expressions_evaluate_depth_first() {
    let mut interp = AstInterpreter::new();
    assert_eq!(interp.eval("(+ 1 (* 2 (- 7 4)))"), Ok(()));
    assert_eq!(interp.stack.pop(), Some(Value::Number(bits(7.0))));
    assert_eq!(interp.stack.len(), 0);
}

#[test]
fn value_operator_rules_stand_alone() {
    let two = Value::Number(bits(2.0));
    let three = Value::Number(bits(3.0));
    assert_eq!(two.add(&three), Ok(Value::Number(bits(5.0))));
    assert_eq!(two.sub(&three), Ok(Value::Number(bits(-1.0))));
    assert_eq!(two.mul(&three), Ok(Value::Number(bits(6.0))));
    assert_eq!(three.div(&two), Ok(Value::Number(bits(1.5))));
    assert_eq!(two.neg(), Ok(Value::Number(bits(-2.0))));
    assert_eq!(Value::Bool(false).not(), Ok(Value::Bool(true)));
    assert_eq!(Value::Nil.add(&two), Err(EvalError::TypeMismatch));
}

#[test]
fn negating_twice_gives_the_number_back() {
    let mut interp = AstInterpreter::new();
    assert_eq!(interp.eval("(~ (~ 2))"), Ok(()));
    assert_eq!(interp.stack.pop(), Some(Value::Number(bits(2.0))));
    assert_eq!(interp.eval("(~ 0)"), Ok(()));
    assert_eq!(interp.stack.pop(), Some(Value::Number(bits(-0.0))));
}

#[test]
fn a_hand_built_decimal_payload_parses_as_its_number() {
    let mut interp = AstInterpreter::new();
    let node = AstNode::Literal(Literal::Number("1.5".to_string()));
    assert_eq!(interp.eval_ast(&node), Ok(()));
    assert_eq!(interp.stack.pop(), Some(Value::Number(bits(1.5))));
}
