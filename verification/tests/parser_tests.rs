use myjlox::errors::MyError;
use myjlox::expr::Expr;
use myjlox::parser::Parser;
use myjlox::rational::Rational;
use myjlox::scanner::Scanner;
use myjlox::stmt::Stmt;
use myjlox::tokens::{Token, TokenType, Type};
use myjlox::tokens::TokenType::{EOF, NUMBER, PLUS, SEMICOLON};

fn tok(token_type: TokenType, lexeme: &str, literal: Type, line: usize) -> Token {
    Token { token_type, lexeme: lexeme.to_string(), literal, line }
}

#[test]
fn test_parser_primary() {
    let tokens = vec![
        tok(NUMBER, "3", Type::Number(Rational::from_int(3)), 1),
        tok(PLUS, "+", Type::Nil, 1),
        tok(NUMBER, "4", Type::Number(Rational::from_int(4)), 1),
        tok(SEMICOLON, ";", Type::Nil, 1),
        tok(EOF, "", Type::Nil, 2),
    ];
    let expected = vec![Stmt::ExprStmt(Expr::Binary {
        left: Box::new(Expr::Literal(Type::Number(Rational::from_int(3)))),
        op: tok(PLUS, "+", Type::Nil, 1),
        right: Box::new(Expr::Literal(Type::Number(Rational::from_int(4)))),
    })];
    let mut parser = Parser::new(&tokens);
    let result = parser.parse().unwrap();
    assert_eq!(result, expected);
}

fn parse_source(src: &str) -> Result<Vec<Stmt>, MyError> {
    let scanner = Scanner::new(src);
    let tokens = scanner.scan_tokens()?;
    let mut parser = Parser::new(&tokens);
    parser.parse()
}

#[test]
fn test_max_arguments_accepted_at_255() {
    let mut src = String::from("f(0");
    for _ in 0..254 {
        src.push_str(",0");
    }
    src.push_str(");");
    assert!(parse_source(&src).is_ok());
}

#[test]
fn test_max_arguments_rejected_at_256() {
    let mut src = String::from("f(0");
    for _ in 0..255 {
        src.push_str(",0");
    }
    src.push_str(");");
    assert!(matches!(parse_source(&src), Err(MyError::MaxArgumentNumError)));
}

#[test]
fn test_max_parameters_accepted_at_255() {
    let mut src = String::from("fun f(p0");
    for i in 1..255 {
        src.push_str(&format!(",p{}", i));
    }
    src.push_str(") { print 1; }");
    assert!(parse_source(&src).is_ok());
}

#[test]
fn test_max_parameters_rejected_at_256() {
    let mut src = String::from("fun f(p0");
    for i in 1..256 {
        src.push_str(&format!(",p{}", i));
    }
    src.push_str(") { print 1; }");
    assert!(matches!(parse_source(&src), Err(MyError::MaxArgumentNumError)));
}

#[test]
fn test_invalid_assignment_target() {
    let r = parse_source("1 = 2;");
    assert!(matches!(r, Err(MyError::InvalidAssignmentTargetError(_))));
}

#[test]
fn test_missing_semicolon_is_parse_error() {
    let r = parse_source("print 1");
    assert!(matches!(r, Err(MyError::ParseError(_))));
}

#[test]
fn test_for_desugars_to_while() {
    let stmts = parse_source("for (var i = 0; i < 3; i = i + 1) print i;").unwrap();
    assert_eq!(stmts.len(), 1);
    match &stmts[0] {
        Stmt::Block(parts) => {
            assert_eq!(parts.len(), 2);
            assert!(matches!(parts[0], Stmt::VarStmt { .. }));
            assert!(matches!(parts[1], Stmt::WhileStmt { .. }));
        }
        other => panic!("expected a block, got {:?}", other),
    }
}

#[test]
fn test_for_without_clauses_gets_true_condition() {
    let stmts = parse_source("for (;;) print 1;").unwrap();
    assert_eq!(stmts.len(), 1);
    match &stmts[0] {
        Stmt::WhileStmt { condition, .. } => {
            assert_eq!(*condition, Expr::Literal(Type::Bool(true)));
        }
        other => panic!("expected a while, got {:?}", other),
    }
}
