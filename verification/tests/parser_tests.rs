use s_expressions_interpreter::ast::AstNode;
use s_expressions_interpreter::parser::Parser;
use s_expressions_interpreter::tokenizer::{
    BinaryOp, Delimiter, Literal, ReservedKw, Token, UnaryOp,
};

fn num_tok(text: &str) -> Token {
    Token::Literal(Literal::Number(text.to_string()))
}

fn num_leaf(text: &str) -> AstNode {
    AstNode::Literal(Literal::Number(text.to_string()))
}

fn eof() -> Token {
    Token::Delimiter(Delimiter::Eof)
}

#[test]
fn mod_test_parse_number() {
    let tokens = vec![num_tok("1"), eof()];
    let mut parser = Parser::new(tokens);
    let ast = parser.parse_expr();
    assert_eq!(ast, num_leaf("1"));
}

#[test]
fn mod_test_parse_string() {
    let tokens = vec![Token::Literal(Literal::Str("hello".to_string())), eof()];
    let mut parser = Parser::new(tokens);
    let ast = parser.parse_expr();
    assert_eq!(ast, AstNode::Literal(Literal::Str("hello".to_string())));
}

#[test]
fn mod_test_parse_nil() {
    let tokens = vec![Token::Nil, eof()];
    let mut parser = Parser::new(tokens);
    let ast = parser.parse_expr();
    assert_eq!(ast, AstNode::Nil);
}

#[test]
fn mod_test_parse_ident() {
    let tokens = vec![Token::Ident("hello".to_string()), eof()];
    let mut parser = Parser::new(tokens);
    let ast = parser.parse_expr();
    assert_eq!(ast, AstNode::Ident("hello".to_string()));
}

#[test]
fn mod_test_parse_binary_op() {
    let tokens = vec![
        Token::Delimiter(Delimiter::LParen),
        Token::BinaryOp(BinaryOp::Add),
        num_tok("1"),
        num_tok("2"),
        Token::Delimiter(Delimiter::RParen),
        eof(),
    ];
    let mut parser = Parser::new(tokens);
    let ast = parser.parse_expr();
    assert_eq!(
        ast,
        AstNode::BinaryOp {
            op: BinaryOp::Add,
            lhs: Box::new(num_leaf("1")),
            rhs: Box::new(num_leaf("2")),
        }
    );
}

#[test]
fn mod_test_parse_unary_op() {
    let tokens = vec![
        Token::Delimiter(Delimiter::LParen),
        Token::UnaryOp(UnaryOp::Neg),
        num_tok("1"),
        Token::Delimiter(Delimiter::RParen),
        eof(),
    ];
    let mut parser = Parser::new(tokens);
    let ast = parser.parse_expr();
    assert_eq!(ast, AstNode::UnaryOp { op: UnaryOp::Neg, expr: Box::new(num_leaf("1")) });
}

#[test]
fn mod_test_parse_func_call() {
    let tokens = vec![
        Token::Delimiter(Delimiter::LParen),
        Token::Ident("hello".to_string()),
        num_tok("1"),
        Token::Delimiter(Delimiter::RParen),
        eof(),
    ];
    let mut parser = Parser::new(tokens);
    let ast = parser.parse_expr();
    assert_eq!(
        ast,
        AstNode::FnCall { ident: "hello".to_string(), expr: Box::new(num_leaf("1")) }
    );
}

#[test]
fn mod_test_parse_reserved_expr() {
    let tokens = vec![
        Token::Delimiter(Delimiter::LParen),
        Token::ReservedKw(ReservedKw::If),
        num_tok("1"),
        Token::Delimiter(Delimiter::RParen),
        eof(),
    ];
    let mut parser = Parser::new(tokens);
    let ast = parser.parse_expr();
    assert_eq!(ast, AstNode::Reserved { kw: ReservedKw::If, expr: Box::new(num_leaf("1")) });
}

#[test]
fn mod_test_parse_prog() {
    let tokens = vec![
        Token::Delimiter(Delimiter::LParen),
        Token::ReservedKw(ReservedKw::If),
        num_tok("1"),
        Token::Delimiter(Delimiter::RParen),
        Token::Delimiter(Delimiter::LParen),
        Token::ReservedKw(ReservedKw::Def),
        num_tok("2"),
        Token::Delimiter(Delimiter::RParen),
        eof(),
    ];
    let mut parser = Parser::new(tokens);
    let prog = parser.parse_prog();
    assert_eq!(
        prog,
        vec![
            AstNode::Reserved { kw: ReservedKw::If, expr: Box::new(num_leaf("1")) },
            AstNode::Reserved { kw: ReservedKw::Def, expr: Box::new(num_leaf("2")) },
        ]
    );
}

#[test]
fn tests_test_parse_number() {
    let tokens = vec![num_tok("1"), eof()];
    let mut parser = Parser::new(tokens);
    let ast = parser.parse_expr();
    assert_eq!(ast, num_leaf("1"));
}

#[test]
fn tests_test_parse_string() {
    let tokens = vec![Token::Literal(Literal::Str("hello".to_string())), eof()];
    let mut parser = Parser::new(tokens);
    let ast = parser.parse_expr();
    assert_eq!(ast, AstNode::Literal(Literal::Str("hello".to_string())));
}

#[test]
fn tests_test_parse_nil() {
    let tokens = vec![Token::Nil, eof()];
    let mut parser = Parser::new(tokens);
    let ast = parser.parse_expr();
    assert_eq!(ast, AstNode::Nil);
}

#[test]
fn tests_test_parse_ident() {
    let tokens = vec![Token::Ident("hello".to_string()), eof()];
    let mut parser = Parser::new(tokens);
    let ast = parser.parse_expr();
    assert_eq!(ast, AstNode::Ident("hello".to_string()));
}

#[test]
fn tests_test_parse_binary_op() {
    let tokens = vec![
        Token::Delimiter(Delimiter::LParen),
        Token::BinaryOp(BinaryOp::Add),
        num_tok("1"),
        num_tok("2"),
        Token::Delimiter(Delimiter::RParen),
        eof(),
    ];
    let mut parser = Parser::new(tokens);
    let ast = parser.parse_expr();
    assert_eq!(
        ast,
        AstNode::BinaryOp {
            op: BinaryOp::Add,
            lhs: Box::new(num_leaf("1")),
            rhs: Box::new(num_leaf("2")),
        }
    );
}

#[test]
fn tests_test_parse_unary_op() {
    let tokens = vec![
        Token::Delimiter(Delimiter::LParen),
        Token::UnaryOp(UnaryOp::Neg),
        num_tok("1"),
        Token::Delimiter(Delimiter::RParen),
        eof(),
    ];
    let mut parser = Parser::new(tokens);
    let ast = parser.parse_expr();
    assert_eq!(ast, AstNode::UnaryOp { op: UnaryOp::Neg, expr: Box::new(num_leaf("1")) });
}

#[test]
fn tests_test_parse_func_call() {
    let tokens = vec![
        Token::Delimiter(Delimiter::LParen),
        Token::Ident("hello".to_string()),
        num_tok("1"),
        Token::Delimiter(Delimiter::RParen),
        eof(),
    ];
    let mut parser = Parser::new(tokens);
    let ast = parser.parse_expr();
    assert_eq!(
        ast,
        AstNode::FnCall { ident: "hello".to_string(), expr: Box::new(num_leaf("1")) }
    );
}

#[test]
fn tests_test_parse_reserved_expr() {
    let tokens = vec![
        Token::Delimiter(Delimiter::LParen),
        Token::ReservedKw(ReservedKw::If),
        num_tok("1"),
        Token::Delimiter(Delimiter::RParen),
        eof(),
    ];
    let mut parser = Parser::new(tokens);
    let ast = parser.parse_expr();
    assert_eq!(ast, AstNode::Reserved { kw: ReservedKw::If, expr: Box::new(num_leaf("1")) });
}

#[test]
fn parsing_the_tokens_of_a_sum_builds_an_error_free_tree() {
    // Parsing the token sequence of `(+ 1 2)` yields a binary-op node with
    // the two number literals as children, and no error node anywhere.
    let mut tokenizer = s_expressions_interpreter::tokenizer::Tokenizer::new("(+ 1 2)");
    let tokens = tokenizer.tokenize();
    let mut parser = Parser::new(tokens);
    let ast = parser.parse_expr();
    assert_eq!(
        ast,
        AstNode::BinaryOp {
            op: BinaryOp::Add,
            lhs: Box::new(num_leaf("1")),
            rhs: Box::new(num_leaf("2")),
        }
    );
}

#[test]
fn missing_close_paren_wraps_the_partial_tree() {
    // Parsing `(+ 1` never panics: the root is a `ParserError` that wraps
    // the partially built binary-op node with the literal in its left slot.
    let mut tokenizer = s_expressions_interpreter::tokenizer::Tokenizer::new("(+ 1");
    let tokens = tokenizer.tokenize();
    let mut parser = Parser::new(tokens);
    let ast = parser.parse_expr();
    match ast {
        AstNode::ParserError(message, partial) => {
            assert_eq!(message, "unexpected token, expected a closing parenthesis".to_string());
            match *partial {
                AstNode::BinaryOp { op, lhs, rhs } => {
                    assert_eq!(op, BinaryOp::Add);
                    assert_eq!(*lhs, num_leaf("1"));
                    assert_eq!(*rhs, AstNode::TokenError(eof()));
                },
                other => panic!("expected the partial binary-op node, found {:?}", other),
            }
        },
        other => panic!("expected a parser-error root, found {:?}", other),
    }
}

#[test]
fn canonical_text_round_trips_through_tokenizer_and_parser() {
    // Re-tokenizing and re-parsing a node's canonical textual form yields a
    // structurally equal tree.
    let node = AstNode::BinaryOp {
        op: BinaryOp::Add,
        lhs: Box::new(num_leaf("1")),
        rhs: Box::new(AstNode::BinaryOp {
            op: BinaryOp::Mul,
            lhs: Box::new(num_leaf("2")),
            rhs: Box::new(AstNode::Ident("x".to_string())),
        }),
    };
    let text = node.to_text();
    assert_eq!(text, "(+ 1 (* 2 x))".to_string());
    let mut tokenizer = s_expressions_interpreter::tokenizer::Tokenizer::new(text.as_str());
    let tokens = tokenizer.tokenize();
    let mut parser = Parser::new(tokens);
    let reparsed = parser.parse_expr();
    assert_eq!(reparsed, node);
}

#[test]
fn nil_and_unary_forms_round_trip_too() {
    let node = AstNode::UnaryOp {
        op: UnaryOp::Not,
        expr: Box::new(AstNode::FnCall {
            ident: "probe".to_string(),
            expr: Box::new(AstNode::Nil),
        }),
    };
    let text = node.to_text();
    assert_eq!(text, "(! (probe ()))".to_string());
    let mut tokenizer = s_expressions_interpreter::tokenizer::Tokenizer::new(text.as_str());
    let tokens = tokenizer.tokenize();
    let mut parser = Parser::new(tokens);
    let reparsed = parser.parse_expr();
    assert_eq!(reparsed, node);
}

struct NodeCounter {
    nodes: usize,
}

impl s_expressions_interpreter::ast::AstVisitor for NodeCounter {
    fn visit_literal(&mut self, _node: &AstNode) -> Result<(), s_expressions_interpreter::values::EvalError> {
        self.nodes += 1;
        Ok(())
    }

    fn visit_ident(&mut self, _node: &AstNode) -> Result<(), s_expressions_interpreter::values::EvalError> {
        self.nodes += 1;
        Ok(())
    }

    fn visit_nil(&mut self, _node: &AstNode) -> Result<(), s_expressions_interpreter::values::EvalError> {
        self.nodes += 1;
        Ok(())
    }

    fn visit_binary_op(&mut self, node: &AstNode) -> Result<(), s_expressions_interpreter::values::EvalError> {
        self.nodes += 1;
        if let AstNode::BinaryOp { lhs, rhs, .. } = node {
            lhs.accept(self)?;
            rhs.accept(self)?;
        }
        Ok(())
    }

    fn visit_unary_op(&mut self, node: &AstNode) -> Result<(), s_expressions_interpreter::values::EvalError> {
        self.nodes += 1;
        if let AstNode::UnaryOp { expr, .. } = node {
            expr.accept(self)?;
        }
        Ok(())
    }

    fn visit_fn_call(&mut self, node: &AstNode) -> Result<(), s_expressions_interpreter::values::EvalError> {
        self.nodes += 1;
        if let AstNode::FnCall { expr, .. } = node {
            expr.accept(self)?;
        }
        Ok(())
    }

    fn visit_reserved(&mut self, node: &AstNode) -> Result<(), s_expressions_interpreter::values::EvalError> {
        self.nodes += 1;
        if let AstNode::Reserved { expr, .. } = node {
            expr.accept(self)?;
        }
        Ok(())
    }

    fn visit_token_error(&mut self, _node: &AstNode) -> Result<(), s_expressions_interpreter::values::EvalError> {
        self.nodes += 1;
        Ok(())
    }

    fn visit_parser_error(&mut self, _node: &AstNode) -> Result<(), s_expressions_interpreter::values::EvalError> {
        self.nodes += 1;
        Ok(())
    }
}

#[test]
fn the_visitor_interface_reaches_every_node() {
    // An alternate interpreter over the same tree, through double dispatch.
    let mut tokenizer = s_expressions_interpreter::tokenizer::Tokenizer::new("(+ 1 (~ x))");
    let tokens = tokenizer.tokenize();
    let mut parser = Parser::new(tokens);
    let ast = parser.parse_expr();
    let mut counter = NodeCounter { nodes: 0 };
    assert_eq!(ast.accept(&mut counter), Ok(()));
    assert_eq!(counter.nodes, 4);
}
