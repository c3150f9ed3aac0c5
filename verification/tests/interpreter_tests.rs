use myjlox::environment::Environment;
use myjlox::errors::MyError;
use myjlox::expr::Expr;
use myjlox::interpreter::Interpreter;
use myjlox::rational::Rational;
use myjlox::tokens::{Token, TokenType, Type};

fn tok(token_type: TokenType, lexeme: &str, line: usize) -> Token {
    Token { token_type, lexeme: lexeme.to_string(), literal: Type::Nil, line }
}

fn num(n: i64) -> Expr {
    Expr::Literal(Type::Number(Rational::from_int(n)))
}

#[test]
fn test_evalute_literal() {
    let expr = num(3);
    let expected = Type::Number(Rational::from_int(3));

    let mut interpreter = Interpreter::new(false);
    let result = interpreter.evaluate_expr(&expr).unwrap();
    assert_eq!(result, expected);
}

#[test]
fn test_evalute_unary() {
    let expr = Expr::Unary { op: tok(TokenType::MINUS, "-", 1), right: Box::new(num(3)) };
    let expected = Type::Number(Rational::from_int(-3));

    let mut interpreter = Interpreter::new(false);
    let result = interpreter.evaluate_expr(&expr).unwrap();
    assert_eq!(result, expected);
}

#[test]
fn test_evalute_grouping() {
    let expr = Expr::Grouping(Box::new(Expr::Binary {
        left: Box::new(num(1)),
        op: tok(TokenType::PLUS, "+", 1),
        right: Box::new(num(3)),
    }));
    let expected = Type::Number(Rational::from_int(4));

    let mut interpreter = Interpreter::new(false);
    let result = interpreter.evaluate_expr(&expr).unwrap();
    assert_eq!(result, expected);
}

#[test]
fn test_evalute_binary_1() {
    let expr = Expr::Binary {
        left: Box::new(Expr::Grouping(Box::new(Expr::Binary {
            left: Box::new(num(3)),
            op: tok(TokenType::PLUS, "+", 1),
            right: Box::new(num(5)),
        }))),
        op: tok(TokenType::MINUS, "-", 1),
        right: Box::new(num(5)),
    };
    let expected = Type::Number(Rational::from_int(3));

    let mut interpreter = Interpreter::new(false);
    let result = interpreter.evaluate_expr(&expr).unwrap();
    assert_eq!(result, expected);
}

#[test]
fn test_evalute_binary_2() {
    let expr = Expr::Binary {
        left: Box::new(num(5)),
        op: tok(TokenType::GREATER, ">", 1),
        right: Box::new(num(3)),
    };
    let expected = Type::Bool(true);

    let mut interpreter = Interpreter::new(false);
    let result = interpreter.evaluate_expr(&expr).unwrap();
    assert_eq!(result, expected);
}

#[test]
fn test_evalute_binary_3() {
    let expr = Expr::Binary {
        left: Box::new(num(6)),
        op: tok(TokenType::SLASH, "/", 1),
        right: Box::new(num(3)),
    };
    let expected = Type::Number(Rational::from_int(2));

    let mut interpreter = Interpreter::new(false);
    let result = interpreter.evaluate_expr(&expr).unwrap();
    assert_eq!(result, expected);
}

#[test]
fn test_evalute_binary_4() {
    let expr = Expr::Binary {
        left: Box::new(Expr::Literal(Type::String("asdf".to_string()))),
        op: tok(TokenType::PLUS, "+", 1),
        right: Box::new(Expr::Literal(Type::String("123".to_string()))),
    };
    let expected = Type::String("asdf123".to_string());

    let mut interpreter = Interpreter::new(false);
    let result = interpreter.evaluate_expr(&expr).unwrap();
    assert_eq!(result, expected);
}

#[test]
fn test_environment_define_get_assign() {
    let mut env = Environment::new();
    let name = tok(TokenType::IDENTIFIER, "x", 1);
    env.define(&"x".to_string(), &Type::Number(Rational::from_int(1)));
    assert_eq!(env.get(&name).unwrap(), Type::Number(Rational::from_int(1)));
    env.assign(&name, &Type::Number(Rational::from_int(2))).unwrap();
    assert_eq!(env.get(&name).unwrap(), Type::Number(Rational::from_int(2)));
}

#[test]
fn test_environment_define_shadows_and_never_fails() {
    let mut env = Environment::new();
    let name = tok(TokenType::IDENTIFIER, "x", 1);
    env.define(&"x".to_string(), &Type::Bool(false));
    env.define(&"x".to_string(), &Type::Bool(true));
    assert_eq!(env.get(&name).unwrap(), Type::Bool(true));
}

#[test]
fn test_environment_unbound_get_and_assign() {
    let mut env = Environment::new();
    let name = tok(TokenType::IDENTIFIER, "nope", 1);
    assert!(matches!(env.get(&name), Err(MyError::EnValueNotFoundError(_))));
    let r = env.assign(&name, &Type::Nil);
    assert!(matches!(r, Err(MyError::EnValueNotFoundError(_))));
}

#[test]
fn test_division_by_zero_error() {
    let expr = Expr::Binary {
        left: Box::new(num(1)),
        op: tok(TokenType::SLASH, "/", 1),
        right: Box::new(num(0)),
    };
    let mut interpreter = Interpreter::new(false);
    let result = interpreter.evaluate_expr(&expr);
    assert!(matches!(result, Err(MyError::DividedbyzeroError)));
}

#[test]
fn test_plus_on_mixed_operands_is_cast_error() {
    let expr = Expr::Binary {
        left: Box::new(num(1)),
        op: tok(TokenType::PLUS, "+", 1),
        right: Box::new(Expr::Literal(Type::String("a".to_string()))),
    };
    let mut interpreter = Interpreter::new(false);
    let result = interpreter.evaluate_expr(&expr);
    assert!(matches!(result, Err(MyError::CastError(_))));
}

#[test]
fn test_call_on_non_function_is_not_callable() {
    let expr = Expr::Call {
        callee: Box::new(num(1)),
        paren: tok(TokenType::RightParen, ")", 1),
        arguments: Vec::new(),
    };
    let mut interpreter = Interpreter::new(false);
    let result = interpreter.evaluate_expr(&expr);
    assert!(matches!(result, Err(MyError::NotCallableError)));
}

#[test]
fn test_rational_normalization_and_order() {
    assert_eq!(Rational::new(2, 4), Rational::new(1, 2));
    assert!(Rational::new(1, 3).lt_val(Rational::new(1, 2)));
    assert!(Rational::new(1, 2).eq_val(Rational::new(3, 6)));
    assert!(Rational::new(-1, 2).lt_val(Rational::from_int(0)));
}

#[test]
fn test_rational_overflow_reported() {
    let big = Rational::from_int(i64::MAX);
    let r = big.checked_mul(Rational::from_int(2));
    assert!(matches!(r, Err(MyError::NumberOverflowError)));
    let ok = big.checked_mul(Rational::from_int(1)).unwrap();
    assert_eq!(ok, big);
}

#[test]
fn test_rational_display_forms() {
    assert_eq!(Rational::from_int(7).to_text(), "7");
    assert_eq!(Rational::from_int(-3).to_text(), "-3");
    assert_eq!(Rational::new(1, 2).to_text(), "0.5");
    assert_eq!(Rational::new(12353, 100).to_text(), "123.53");
    assert_eq!(Rational::new(1, 20).to_text(), "0.05");
    assert_eq!(Rational::new(1, 3).to_text(), "1/3");
}

#[test]
fn test_error_messages() {
    assert_eq!(
        MyError::EnValueNotFoundError("x".to_string()).message(),
        "Undefined variable x."
    );
    assert_eq!(MyError::BreakNotInLoop.message(), "Break must in loop.");
    assert_eq!(MyError::DividedbyzeroError.message(), "Divided by zero Error occurred");
}

#[test]
fn test_report_line_format() {
    assert_eq!(myjlox::error(3, "boom"), "[line 3] Error : boom");
    assert_eq!(myjlox::report(12, "at end", "oops"), "[line 12] Error at end: oops");
}
