use s_expressions_interpreter::tokenizer::{
    BinaryOp, Delimiter, Literal, ReservedKw, Token, Tokenizer,
};

fn num(text: &str) -> Token {
    Token::Literal(Literal::Number(text.to_string()))
}

fn strlit(text: &str) -> Token {
    Token::Literal(Literal::Str(text.to_string()))
}

fn ident(text: &str) -> Token {
    Token::Ident(text.to_string())
}

#[test]
fn mod_test_next_token() {
    let mut tokenizer = Tokenizer::new("(+ 1 2)");
    assert_eq!(tokenizer.next_token(), Token::Delimiter(Delimiter::LParen));
    assert_eq!(tokenizer.next_token(), Token::BinaryOp(BinaryOp::Add));
    assert_eq!(tokenizer.next_token(), Token::Delimiter(Delimiter::Space));
    assert_eq!(tokenizer.next_token(), num("1"));
    assert_eq!(tokenizer.next_token(), Token::Delimiter(Delimiter::Space));
    assert_eq!(tokenizer.next_token(), num("2"));
    assert_eq!(tokenizer.next_token(), Token::Delimiter(Delimiter::RParen));
    assert_eq!(tokenizer.next_token(), Token::Delimiter(Delimiter::Eof));
}

#[test]
fn mod_test_tokenize() {
    let mut tokenizer = Tokenizer::new("(+ 1 2)");
    let tokens = tokenizer.tokenize();
    assert_eq!(
        tokens,
        vec![
            Token::Delimiter(Delimiter::LParen),
            Token::BinaryOp(BinaryOp::Add),
            Token::Delimiter(Delimiter::Space),
            num("1"),
            Token::Delimiter(Delimiter::Space),
            num("2"),
            Token::Delimiter(Delimiter::RParen),
            Token::Delimiter(Delimiter::Eof),
        ]
    );
}

#[test]
fn mod_test_tokenize_with_newline() {
    let mut tokenizer = Tokenizer::new("(+ 1 2)\n(+ 3 4)");
    let tokens = tokenizer.tokenize();
    assert_eq!(
        tokens,
        vec![
            Token::Delimiter(Delimiter::LParen),
            Token::BinaryOp(BinaryOp::Add),
            Token::Delimiter(Delimiter::Space),
            num("1"),
            Token::Delimiter(Delimiter::Space),
            num("2"),
            Token::Delimiter(Delimiter::RParen),
            Token::Delimiter(Delimiter::NewLine),
            Token::Delimiter(Delimiter::LParen),
            Token::BinaryOp(BinaryOp::Add),
            Token::Delimiter(Delimiter::Space),
            num("3"),
            Token::Delimiter(Delimiter::Space),
            num("4"),
            Token::Delimiter(Delimiter::RParen),
            Token::Delimiter(Delimiter::Eof),
        ]
    );
}

#[test]
fn mod_test_tokenize_with_space() {
    let mut tokenizer = Tokenizer::new("(+ 1 2) (+ 3 4)");
    let tokens = tokenizer.tokenize();
    assert_eq!(
        tokens,
        vec![
            Token::Delimiter(Delimiter::LParen),
            Token::BinaryOp(BinaryOp::Add),
            Token::Delimiter(Delimiter::Space),
            num("1"),
            Token::Delimiter(Delimiter::Space),
            num("2"),
            Token::Delimiter(Delimiter::RParen),
            Token::Delimiter(Delimiter::Space),
            Token::Delimiter(Delimiter::LParen),
            Token::BinaryOp(BinaryOp::Add),
            Token::Delimiter(Delimiter::Space),
            num("3"),
            Token::Delimiter(Delimiter::Space),
            num("4"),
            Token::Delimiter(Delimiter::RParen),
            Token::Delimiter(Delimiter::Eof),
        ]
    );
}

#[test]
fn mod_test_tokenize_with_string() {
    let mut tokenizer = Tokenizer::new("(+ \"abc\" \"def\")");
    let tokens = tokenizer.tokenize();
    assert_eq!(
        tokens,
        vec![
            Token::Delimiter(Delimiter::LParen),
            Token::BinaryOp(BinaryOp::Add),
            Token::Delimiter(Delimiter::Space),
            strlit("abc"),
            Token::Delimiter(Delimiter::Space),
            strlit("def"),
            Token::Delimiter(Delimiter::RParen),
            Token::Delimiter(Delimiter::Eof),
        ]
    );
}

#[test]
fn mod_test_tokenize_with_nil() {
    let mut tokenizer = Tokenizer::new("()");
    let tokens = tokenizer.tokenize();
    assert_eq!(tokens, vec![Token::Nil, Token::Delimiter(Delimiter::Eof)]);
}

#[test]
fn mod_test_tokenize_with_ident() {
    let mut tokenizer = Tokenizer::new("(+ x y)");
    let tokens = tokenizer.tokenize();
    assert_eq!(
        tokens,
        vec![
            Token::Delimiter(Delimiter::LParen),
            Token::BinaryOp(BinaryOp::Add),
            Token::Delimiter(Delimiter::Space),
            ident("x"),
            Token::Delimiter(Delimiter::Space),
            ident("y"),
            Token::Delimiter(Delimiter::RParen),
            Token::Delimiter(Delimiter::Eof),
        ]
    );
}

#[test]
fn mod_test_tokenize_with_reserved() {
    let mut tokenizer = Tokenizer::new("(if true false)");
    let tokens = tokenizer.tokenize();
    assert_eq!(
        tokens,
        vec![
            Token::Delimiter(Delimiter::LParen),
            Token::ReservedKw(ReservedKw::If),
            Token::Delimiter(Delimiter::Space),
            Token::ReservedKw(ReservedKw::True),
            Token::Delimiter(Delimiter::Space),
            Token::ReservedKw(ReservedKw::False),
            Token::Delimiter(Delimiter::RParen),
            Token::Delimiter(Delimiter::Eof),
        ]
    );
}

#[test]
fn tests_test_next_token() {
    let mut tokenizer = Tokenizer::new("(+ 1 2)");
    assert_eq!(tokenizer.next_token(), Token::Delimiter(Delimiter::LParen));
    assert_eq!(tokenizer.next_token(), Token::BinaryOp(BinaryOp::Add));
    assert_eq!(tokenizer.next_token(), Token::Delimiter(Delimiter::Space));
    assert_eq!(tokenizer.next_token(), num("1"));
    assert_eq!(tokenizer.next_token(), Token::Delimiter(Delimiter::Space));
    assert_eq!(tokenizer.next_token(), num("2"));
    assert_eq!(tokenizer.next_token(), Token::Delimiter(Delimiter::RParen));
    assert_eq!(tokenizer.next_token(), Token::Delimiter(Delimiter::Eof));
}

#[test]
fn tests_test_tokenize() {
    let mut tokenizer = Tokenizer::new("(+ 1 2)");
    let tokens = tokenizer.tokenize();
    assert_eq!(
        tokens,
        vec![
            Token::Delimiter(Delimiter::LParen),
            Token::BinaryOp(BinaryOp::Add),
            Token::Delimiter(Delimiter::Space),
            num("1"),
            Token::Delimiter(Delimiter::Space),
            num("2"),
            Token::Delimiter(Delimiter::RParen),
            Token::Delimiter(Delimiter::Eof),
        ]
    );
}

#[test]
fn tests_test_tokenize_with_newline() {
    let mut tokenizer = Tokenizer::new("(+ 1 2)\n(+ 3 4)");
    let tokens = tokenizer.tokenize();
    assert_eq!(
        tokens,
        vec![
            Token::Delimiter(Delimiter::LParen),
            Token::BinaryOp(BinaryOp::Add),
            Token::Delimiter(Delimiter::Space),
            num("1"),
            Token::Delimiter(Delimiter::Space),
            num("2"),
            Token::Delimiter(Delimiter::RParen),
            Token::Delimiter(Delimiter::NewLine),
            Token::Delimiter(Delimiter::LParen),
            Token::BinaryOp(BinaryOp::Add),
            Token::Delimiter(Delimiter::Space),
            num("3"),
            Token::Delimiter(Delimiter::Space),
            num("4"),
            Token::Delimiter(Delimiter::RParen),
            Token::Delimiter(Delimiter::Eof),
        ]
    );
}

#[test]
fn tests_test_tokenize_with_space() {
    let mut tokenizer = Tokenizer::new("(+ 1 2) (+ 3 4)");
    let tokens = tokenizer.tokenize();
    assert_eq!(
        tokens,
        vec![
            Token::Delimiter(Delimiter::LParen),
            Token::BinaryOp(BinaryOp::Add),
            Token::Delimiter(Delimiter::Space),
            num("1"),
            Token::Delimiter(Delimiter::Space),
            num("2"),
            Token::Delimiter(Delimiter::RParen),
            Token::Delimiter(Delimiter::Space),
            Token::Delimiter(Delimiter::LParen),
            Token::BinaryOp(BinaryOp::Add),
            Token::Delimiter(Delimiter::Space),
            num("3"),
            Token::Delimiter(Delimiter::Space),
            num("4"),
            Token::Delimiter(Delimiter::RParen),
            Token::Delimiter(Delimiter::Eof),
        ]
    );
}

#[test]
fn tests_test_tokenize_with_string() {
    let mut tokenizer = Tokenizer::new("(+ \"abc\" \"def\")");
    let tokens = tokenizer.tokenize();
    assert_eq!(
        tokens,
        vec![
            Token::Delimiter(Delimiter::LParen),
            Token::BinaryOp(BinaryOp::Add),
            Token::Delimiter(Delimiter::Space),
            strlit("abc"),
            Token::Delimiter(Delimiter::Space),
            strlit("def"),
            Token::Delimiter(Delimiter::RParen),
            Token::Delimiter(Delimiter::Eof),
        ]
    );
}

#[test]
fn tests_test_tokenize_with_nil() {
    let mut tokenizer = Tokenizer::new("()");
    let tokens = tokenizer.tokenize();
    assert_eq!(tokens, vec![Token::Nil, Token::Delimiter(Delimiter::Eof)]);
}

#[test]
fn tests_test_tokenize_with_ident() {
    let mut tokenizer = Tokenizer::new("(+ x y)");
    let tokens = tokenizer.tokenize();
    assert_eq!(
        tokens,
        vec![
            Token::Delimiter(Delimiter::LParen),
            Token::BinaryOp(BinaryOp::Add),
            Token::Delimiter(Delimiter::Space),
            ident("x"),
            Token::Delimiter(Delimiter::Space),
            ident("y"),
            Token::Delimiter(Delimiter::RParen),
            Token::Delimiter(Delimiter::Eof),
        ]
    );
}

#[test]
fn tests_test_tokenize_with_reserved() {
    let mut tokenizer = Tokenizer::new("(if true false)");
    let tokens = tokenizer.tokenize();
    assert_eq!(
        tokens,
        vec![
            Token::Delimiter(Delimiter::LParen),
            Token::ReservedKw(ReservedKw::If),
            Token::Delimiter(Delimiter::Space),
            Token::ReservedKw(ReservedKw::True),
            Token::Delimiter(Delimiter::Space),
            Token::ReservedKw(ReservedKw::False),
            Token::Delimiter(Delimiter::RParen),
            Token::Delimiter(Delimiter::Eof),
        ]
    );
}

#[test]
fn keyword_lookup_matches_the_closed_set() {
    assert_eq!(ReservedKw::from_str("if"), Some(ReservedKw::If));
    assert_eq!(ReservedKw::from_str("elseif"), Some(ReservedKw::ElseIf));
    assert_eq!(ReservedKw::from_str("nil"), Some(ReservedKw::Nil));
    assert_eq!(ReservedKw::from_str("zebra"), None);
    assert_eq!(ReservedKw::from_str(""), None);
}

#[test]
fn unexpected_character_becomes_a_token_error() {
    let mut tokenizer = Tokenizer::new("%");
    let tokens = tokenizer.tokenize();
    assert_eq!(
        tokens,
        vec![
            Token::TokenError("unexpected char '%'".to_string()),
            Token::Delimiter(Delimiter::Eof),
        ]
    );
}

#[test]
fn unterminated_string_is_scanned_leniently() {
    let mut tokenizer = Tokenizer::new("\"abc");
    let tokens = tokenizer.tokenize();
    assert_eq!(tokens, vec![strlit("abc"), Token::Delimiter(Delimiter::Eof)]);
}
