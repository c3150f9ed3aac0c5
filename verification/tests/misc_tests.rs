use myjlox::expr::Expr;
use myjlox::parser::Parser;
use myjlox::rational::Rational;
use myjlox::scanner::Scanner;
use myjlox::stmt::LoxFunction;
use myjlox::tokens::{Token, TokenType, Type};

fn tok(token_type: TokenType, lexeme: &str, line: usize) -> Token {
    Token { token_type, lexeme: lexeme.to_string(), literal: Type::Nil, line }
}

#[test]
fn test_expr_to_string_binary() {
    let e = Expr::Binary {
        left: Box::new(Expr::Literal(Type::Number(Rational::from_int(1)))),
        op: tok(TokenType::PLUS, "+", 1),
        right: Box::new(Expr::Literal(Type::Number(Rational::from_int(2)))),
    };
    assert_eq!(e.to_string(), "1+2");
}

#[test]
fn test_expr_to_string_assign_and_logical() {
    let a = Expr::Assign {
        name: tok(TokenType::IDENTIFIER, "a", 1),
        value: Box::new(Expr::Literal(Type::Number(Rational::from_int(1)))),
    };
    assert_eq!(a.to_string(), "a = 1");
    let l = Expr::Logical {
        left: Box::new(Expr::Var(tok(TokenType::IDENTIFIER, "a", 1))),
        op: tok(TokenType::OR, "or", 1),
        right: Box::new(Expr::Var(tok(TokenType::IDENTIFIER, "b", 1))),
    };
    assert_eq!(l.to_string(), "a or b");
}

#[test]
fn test_expr_to_string_call_and_unary() {
    let c = Expr::Call {
        callee: Box::new(Expr::Var(tok(TokenType::IDENTIFIER, "f", 1))),
        paren: tok(TokenType::RightParen, ")", 1),
        arguments: vec![
            Expr::Literal(Type::Number(Rational::from_int(1))),
            Expr::Literal(Type::Number(Rational::from_int(2))),
        ],
    };
    assert_eq!(c.to_string(), "f(1,2)");
    let u = Expr::Unary {
        op: tok(TokenType::BANG, "!", 1),
        right: Box::new(Expr::Literal(Type::Bool(true))),
    };
    assert_eq!(u.to_string(), "!true");
}

#[test]
fn test_function_arity() {
    let f = LoxFunction {
        name: tok(TokenType::IDENTIFIER, "f", 1),
        params: vec![
            tok(TokenType::IDENTIFIER, "a", 1),
            tok(TokenType::IDENTIFIER, "b", 1),
        ],
        body: Vec::new(),
    };
    assert_eq!(f.arity(), 2);
}

#[test]
fn test_synchronize_skips_past_semicolon() {
    let scanner = Scanner::new("+ ; var x = 1;");
    let tokens = scanner.scan_tokens().unwrap();
    let mut parser = Parser::new(&tokens);
    parser.synchronize();
    assert_eq!(tokens[parser.current].token_type, TokenType::VAR);
}

#[test]
fn test_synchronize_stops_before_statement_keyword() {
    let scanner = Scanner::new("+ + print 1;");
    let tokens = scanner.scan_tokens().unwrap();
    let mut parser = Parser::new(&tokens);
    parser.synchronize();
    assert_eq!(tokens[parser.current].token_type, TokenType::PRINT);
}

#[test]
fn test_token_display_for_literals() {
    let t = Token {
        token_type: TokenType::NUMBER,
        lexeme: "2.5".to_string(),
        literal: Type::Number(Rational::new(5, 2)),
        line: 1,
    };
    assert_eq!(t.to_string(), "NUMBER 2.5 Number(2.5)");
    let s = Token {
        token_type: TokenType::STRING,
        lexeme: "\"hi\"".to_string(),
        literal: Type::String("hi".to_string()),
        line: 1,
    };
    assert_eq!(s.to_string(), "STRING \"hi\" String(\"hi\")");
}
