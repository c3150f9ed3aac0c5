use myjlox::errors::MyError;
use myjlox::rational::Rational;
use myjlox::scanner::Scanner;
use myjlox::tokens::{Token, TokenType, Type};
use myjlox::tokens::TokenType::{BangEqual, CLASS, EOF, IDENTIFIER, LeftParen, NUMBER, SLASH, STAR, STRING};

#[test]
fn test_token_to_str() {
    let result = Token {
        token_type: TokenType::PLUS,
        lexeme: "+".to_string(),
        literal: Type::Nil,
        line: 2,
    };
    assert_eq!(result.to_string(), "PLUS + Nil");
}

#[test]
fn test_add_single_token() {
    let scanner = Scanner::new("(*");
    let result = scanner.scan_tokens().unwrap();
    let expected = &[
        Token {
            token_type: LeftParen,
            lexeme: "(".to_string(),
            literal: Type::Nil,
            line: 1,
        },
        Token {
            token_type: STAR,
            lexeme: "*".to_string(),
            literal: Type::Nil,
            line: 1,
        },
        Token {
            token_type: EOF,
            lexeme: "".to_string(),
            literal: Type::Nil,
            line: 1,
        },
    ];
    assert_eq!(result, expected);
}

#[test]
fn test_add_two_tokens() {
    let scanner = Scanner::new("!=");
    let result = scanner.scan_tokens().unwrap();
    let expected = &[
        Token {
            token_type: BangEqual,
            lexeme: "!=".to_string(),
            literal: Type::Nil,
            line: 1,
        },
        Token {
            token_type: EOF,
            lexeme: "".to_string(),
            literal: Type::Nil,
            line: 1,
        },
    ];
    assert_eq!(result, expected);
}

#[test]
fn test_comments_tokens() {
    let scanner = Scanner::new("!=/(//klasjdlfkjasldkfaslkjdf()");
    let result = scanner.scan_tokens().unwrap();
    let expected = &[
        Token {
            token_type: BangEqual,
            lexeme: "!=".to_string(),
            literal: Type::Nil,
            line: 1,
        },
        Token {
            token_type: SLASH,
            lexeme: "/".to_string(),
            literal: Type::Nil,
            line: 1,
        },
        Token {
            token_type: LeftParen,
            lexeme: "(".to_string(),
            literal: Type::Nil,
            line: 1,
        },
        Token {
            token_type: EOF,
            lexeme: "".to_string(),
            literal: Type::Nil,
            line: 1,
        },
    ];
    assert_eq!(result, expected);
}

#[test]
fn test_string_literal_tokens() {
    let scanner = Scanner::new("\"asdf\"");
    let result = scanner.scan_tokens().unwrap();
    let expected = &[
        Token {
            token_type: STRING,
            lexeme: "\"asdf\"".to_string(),
            literal: Type::String("asdf".to_string()),
            line: 1,
        },
        Token {
            token_type: EOF,
            lexeme: "".to_string(),
            literal: Type::Nil,
            line: 1,
        },
    ];
    assert_eq!(result, expected);
}

#[test]
fn test_number_tokens() {
    let scanner = Scanner::new("123.53//asdf");
    let result = scanner.scan_tokens().unwrap();
    let expected = &[
        Token {
            token_type: NUMBER,
            lexeme: "123.53".to_string(),
            literal: Type::Number(Rational::new(12353, 100)),
            line: 1,
        },
        Token {
            token_type: EOF,
            lexeme: "".to_string(),
            literal: Type::Nil,
            line: 1,
        },
    ];
    assert_eq!(result, expected);
}

#[test]
fn test_identifier_tokens() {
    let scanner = Scanner::new("asdf98");
    let result = scanner.scan_tokens().unwrap();
    let expected = &[
        Token {
            token_type: IDENTIFIER,
            lexeme: "asdf98".to_string(),
            literal: Type::Nil,
            line: 1,
        },
        Token {
            token_type: EOF,
            lexeme: "".to_string(),
            literal: Type::Nil,
            line: 1,
        },
    ];
    assert_eq!(result, expected);
}

#[test]
fn test_reserved_tokens() {
    let scanner = Scanner::new("class//asdfjlasdjf");
    let result = scanner.scan_tokens().unwrap();
    let expected = &[
        Token {
            token_type: CLASS,
            lexeme: "class".to_string(),
            literal: Type::Nil,
            line: 1,
        },
        Token {
            token_type: EOF,
            lexeme: "".to_string(),
            literal: Type::Nil,
            line: 1,
        },
    ];
    assert_eq!(result, expected);
}

#[test]
fn test_break_keyword_token() {
    let scanner = Scanner::new("break");
    let result = scanner.scan_tokens().unwrap();
    assert_eq!(result[0].token_type, TokenType::BREAK);
    assert_eq!(result[1].token_type, TokenType::EOF);
}

#[test]
fn test_unterminated_string_is_scan_error() {
    let scanner = Scanner::new("\"abc");
    let result = scanner.scan_tokens();
    assert!(matches!(result, Err(MyError::ScanError(_))));
}

#[test]
fn test_unexpected_character_is_scan_error() {
    let scanner = Scanner::new("@");
    let result = scanner.scan_tokens();
    assert!(matches!(result, Err(MyError::ScanError(_))));
}

#[test]
fn test_lines_count_across_newlines() {
    let scanner = Scanner::new("1\n2\n3");
    let result = scanner.scan_tokens().unwrap();
    assert_eq!(result[0].line, 1);
    assert_eq!(result[1].line, 2);
    assert_eq!(result[2].line, 3);
}

#[test]
fn test_every_scan_ends_in_one_eof() {
    let sources = ["", "var a = 1;", "  \t\r\n", "// only a comment", "1 + 2"];
    for src in sources.iter() {
        let scanner = Scanner::new(src);
        let toks = scanner.scan_tokens().unwrap();
        assert!(toks.len() >= 1);
        assert_eq!(toks[toks.len() - 1].token_type, TokenType::EOF);
        for t in toks[..toks.len() - 1].iter() {
            assert_ne!(t.token_type, TokenType::EOF);
        }
    }
}

#[test]
fn test_number_literal_out_of_range() {
    let scanner = Scanner::new("99999999999999999999999999");
    let result = scanner.scan_tokens();
    assert!(matches!(result, Err(MyError::ScanError(_))));
}
