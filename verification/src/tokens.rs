//! Tokens and runtime values.  Each executable type has a mathematical
//! mirror (`VToken`, `VType`, `VFun`) that the contracts of the scanner,
//! parser and interpreter speak about.

use vstd::prelude::*;

verus! {

use vstd::string::StringExecFns;
use crate::rational::{Rational, gcd, iabs};
use crate::stmt::{LoxFunction, VStmt};

/// The closed set of token kinds.
#[allow(non_camel_case_types)]
#[derive(Debug, Clone, Copy, PartialEq, Eq, Structural)]
pub enum TokenType {
    LeftParen,
    RightParen,
    LeftBrace,
    RightBrace,
    COMMA,
    DOT,
    MINUS,
    PLUS,
    SEMICOLON,
    SLASH,
    STAR,
    BANG,
    BangEqual,
    EQUAL,
    EqualEqual,
    GREATER,
    GreaterEqual,
    LESS,
    LessEqual,
    IDENTIFIER,
    STRING,
    NUMBER,
    AND,
    CLASS,
    ELSE,
    FALSE,
    FUN,
    FOR,
    IF,
    NIL,
    OR,
    PRINT,
    RETURN,
    SUPER,
    THIS,
    TRUE,
    VAR,
    WHILE,
    BREAK,
    EOF,
}

/// A runtime value: the dynamic types of the language.
#[derive(Debug, PartialEq)]
pub enum Type {
    Nil,
    Bool(bool),
    Number(Rational),
    String(String),
    Fun(Box<LoxFunction>),
}

/// A token: kind, exact source text, parsed literal payload, 1-based line.
#[derive(Debug, PartialEq)]
pub struct Token {
    pub token_type: TokenType,
    pub lexeme: String,
    pub literal: Type,
    pub line: usize,
}

/// The mathematical mirror of a runtime value.
#[verifier::ext_equal]
pub enum VType {
    Nil,
    Bool(bool),
    Num(int, int),
    Str(Seq<char>),
    Fun(Box<VFun>),
}

/// The mathematical mirror of a function value: its declaration.
#[verifier::ext_equal]
pub struct VFun {
    pub name: VToken,
    pub params: Seq<VToken>,
    pub body: Seq<VStmt>,
}

/// The mathematical mirror of a token.
#[verifier::ext_equal]
pub struct VToken {
    pub token_type: TokenType,
    pub lexeme: Seq<char>,
    pub literal: VType,
    pub line: nat,
}

/// The mirror of a token.
pub open spec fn token_view(t: Token) -> VToken
    decreases t,
{
    VToken {
        token_type: t.token_type,
        lexeme: t.lexeme@,
        literal: type_view(t.literal),
        line: t.line as nat,
    }
}

/// The mirror of a sequence of tokens.
pub open spec fn tokens_view(v: Seq<Token>) -> Seq<VToken>
    decreases v,
{
    Seq::new(
        v.len(),
        |i: int|
            if 0 <= i < v.len() {
                token_view(v[i])
            } else {
                arbitrary()
            },
    )
}

/// The mirror of a sequence of values.
pub open spec fn types_view(v: Seq<Type>) -> Seq<VType> {
    Seq::new(
        v.len(),
        |i: int|
            if 0 <= i < v.len() {
                type_view(v[i])
            } else {
                arbitrary()
            },
    )
}

/// The mirror of a runtime value.
pub open spec fn type_view(t: Type) -> VType
    decreases t,
{
    match t {
        Type::Nil => VType::Nil,
        Type::Bool(b) => VType::Bool(b),
        Type::Number(r) => VType::Num(r.num as int, r.den as int),
        Type::String(s) => VType::Str(s@),
        Type::Fun(f) => VType::Fun(Box::new(fun_view(*f))),
    }
}

/// The mirror of a function declaration.
pub open spec fn fun_view(f: LoxFunction) -> VFun
    decreases f,
{
    VFun {
        name: token_view(f.name),
        params: tokens_view(f.params@),
        body: crate::stmt::stmts_view(f.body@),
    }
}

/// A fresh token, equal to the given one in the mirror.
pub fn token_dup(t: &Token) -> (r: Token)
    ensures
        token_view(r) == token_view(*t),
    decreases *t,
{
    Token {
        token_type: t.token_type,
        lexeme: t.lexeme.clone(),
        literal: type_dup(&t.literal),
        line: t.line,
    }
}

/// A fresh value, equal to the given one in the mirror.
pub fn type_dup(t: &Type) -> (r: Type)
    ensures
        type_view(r) == type_view(*t),
    decreases *t,
{
    match t {
        Type::Nil => Type::Nil,
        Type::Bool(b) => Type::Bool(*b),
        Type::Number(q) => Type::Number(*q),
        Type::String(s) => Type::String(s.clone()),
        Type::Fun(f) => Type::Fun(Box::new(fun_dup(&**f))),
    }
}

/// A fresh function value, equal to the given one in the mirror.
pub fn fun_dup(f: &LoxFunction) -> (r: LoxFunction)
    ensures
        fun_view(r) == fun_view(*f),
    decreases *f,
{
    LoxFunction {
        name: token_dup(&f.name),
        params: tokens_dup(&f.params),
        body: crate::stmt::stmts_dup(&f.body),
    }
}

/// A fresh vector of tokens, elementwise equal in the mirror.
pub fn tokens_dup(v: &Vec<Token>) -> (r: Vec<Token>)
    ensures
        r@.len() == v@.len(),
        tokens_view(r@) == tokens_view(v@),
    decreases *v,
{
    let mut out: Vec<Token> = Vec::new();
    tokens_dup_into(v, 0, &mut out);
    proof {
        assert(tokens_view(out@) =~= tokens_view(v@));
    }
    out
}

fn tokens_dup_into(v: &Vec<Token>, i: usize, out: &mut Vec<Token>)
    requires
        i <= v@.len(),
    ensures
        final(out)@.len() == old(out)@.len() + (v@.len() - i),
        forall|j: int| 0 <= j < old(out)@.len() ==> final(out)@[j] == old(out)@[j],
        forall|j: int|
            old(out)@.len() <= j < final(out)@.len() ==> token_view(final(out)@[j]) == token_view(
                v@[i + j - old(out)@.len()],
            ),
    decreases *v, v@.len() - i,
{
    if i < v.len() {
        out.push(token_dup(&v[i]));
        tokens_dup_into(v, i + 1, out);
    }
}

/// Decides equality of two tokens in the mirror.
pub fn token_eq(a: &Token, b: &Token) -> (r: bool)
    ensures
        r == (token_view(*a) == token_view(*b)),
    decreases *a,
{
    let r = a.token_type == b.token_type && a.lexeme.eq(&b.lexeme) && type_eq(&a.literal, &b.literal)
        && a.line == b.line;
    proof {
        if r {
            assert(token_view(*a) == token_view(*b));
        }
    }
    r
}

/// Decides equality of two values in the mirror.
pub fn type_eq(a: &Type, b: &Type) -> (r: bool)
    ensures
        r == (type_view(*a) == type_view(*b)),
    decreases *a,
{
    match a {
        Type::Nil => matches!(b, Type::Nil),
        Type::Bool(x) => match b {
            Type::Bool(y) => *x == *y,
            _ => false,
        },
        Type::Number(x) => match b {
            Type::Number(y) => x.num == y.num && x.den == y.den,
            _ => false,
        },
        Type::String(x) => match b {
            Type::String(y) => x.eq(y),
            _ => false,
        },
        Type::Fun(f) => match b {
            Type::Fun(g) => fun_eq(&**f, &**g),
            _ => false,
        },
    }
}

/// Decides equality of two function values in the mirror.
pub fn fun_eq(f: &LoxFunction, g: &LoxFunction) -> (r: bool)
    ensures
        r == (fun_view(*f) == fun_view(*g)),
    decreases *f,
{
    let r = token_eq(&f.name, &g.name) && tokens_eq(&f.params, &g.params)
        && crate::stmt::stmts_eq(&f.body, &g.body);
    proof {
        if r {
            assert(fun_view(*f) == fun_view(*g));
        }
    }
    r
}

/// Decides elementwise mirror equality of two token vectors.
pub fn tokens_eq(a: &Vec<Token>, b: &Vec<Token>) -> (r: bool)
    ensures
        r == (tokens_view(a@) == tokens_view(b@)),
    decreases *a,
{
    if a.len() != b.len() {
        proof {
            assert(tokens_view(a@).len() != tokens_view(b@).len());
        }
        false
    } else {
        let r = tokens_eq_from(a, b, 0);
        proof {
            if r {
                assert(tokens_view(a@) =~= tokens_view(b@));
            } else {
                let j = choose|j: int|
                    0 <= j < a@.len() && token_view(a@[j]) != token_view(b@[j]);
                assert(tokens_view(a@)[j] == token_view(a@[j]));
                assert(tokens_view(b@)[j] == token_view(b@[j]));
            }
        }
        r
    }
}

fn tokens_eq_from(a: &Vec<Token>, b: &Vec<Token>, i: usize) -> (r: bool)
    requires
        a@.len() == b@.len(),
        i <= a@.len(),
    ensures
        r == (forall|j: int| i <= j < a@.len() ==> token_view(a@[j]) == token_view(b@[j])),
    decreases *a, a@.len() - i,
{
    if i < a.len() {
        if token_eq(&a[i], &b[i]) {
            tokens_eq_from(a, b, i + 1)
        } else {
            false
        }
    } else {
        true
    }
}

/// The stringification of a value: nil prints as nothing, booleans by
/// name, numbers in decimal, strings verbatim, functions as `<fn NAME>`.
pub open spec fn vtype_text(v: VType) -> Seq<char> {
    match v {
        VType::Nil => Seq::<char>::empty(),
        VType::Bool(b) => if b {
            "true"@
        } else {
            "false"@
        },
        VType::Num(n, d) => crate::rational::rat_text(n, d),
        VType::Str(s) => s,
        VType::Fun(f) => "<fn "@ + f.name.lexeme + ">"@,
    }
}

impl Type {
    /// The printed form of this value, as `print` and the prompt show it.
    pub fn to_string(&self) -> (r: String)
        requires
            vtype_wf(type_view(*self)),
        ensures
            r@ == vtype_text(type_view(*self)),
    {
        match self {
            Type::Nil => String::new(),
            Type::Bool(b) => if *b {
                String::from_str("true")
            } else {
                String::from_str("false")
            },
            Type::Number(q) => q.to_text(),
            Type::String(s) => s.clone(),
            Type::Fun(f) => {
                let mut r = String::from_str("<fn ");
                r.append(f.name.lexeme.as_str());
                r.append(">");
                r
            },
        }
    }
}

/// Well-formedness of a mirrored value: numbers are normalized fractions
/// in the representable range.
pub open spec fn vtype_wf(v: VType) -> bool {
    match v {
        VType::Num(n, d) => {
            &&& 1 <= d <= i64::MAX as int
            &&& -(i64::MAX as int) <= n <= i64::MAX as int
            &&& gcd(iabs(n), d) == 1
        },
        _ => true,
    }
}


/// The name of a token kind, as the token's printed form shows it.
pub open spec fn token_type_text(t: TokenType) -> Seq<char> {
    match t {
        TokenType::LeftParen => "LeftParen"@,
        TokenType::RightParen => "RightParen"@,
        TokenType::LeftBrace => "LeftBrace"@,
        TokenType::RightBrace => "RightBrace"@,
        TokenType::COMMA => "COMMA"@,
        TokenType::DOT => "DOT"@,
        TokenType::MINUS => "MINUS"@,
        TokenType::PLUS => "PLUS"@,
        TokenType::SEMICOLON => "SEMICOLON"@,
        TokenType::SLASH => "SLASH"@,
        TokenType::STAR => "STAR"@,
        TokenType::BANG => "BANG"@,
        TokenType::BangEqual => "BangEqual"@,
        TokenType::EQUAL => "EQUAL"@,
        TokenType::EqualEqual => "EqualEqual"@,
        TokenType::GREATER => "GREATER"@,
        TokenType::GreaterEqual => "GreaterEqual"@,
        TokenType::LESS => "LESS"@,
        TokenType::LessEqual => "LessEqual"@,
        TokenType::IDENTIFIER => "IDENTIFIER"@,
        TokenType::STRING => "STRING"@,
        TokenType::NUMBER => "NUMBER"@,
        TokenType::AND => "AND"@,
        TokenType::CLASS => "CLASS"@,
        TokenType::ELSE => "ELSE"@,
        TokenType::FALSE => "FALSE"@,
        TokenType::FUN => "FUN"@,
        TokenType::FOR => "FOR"@,
        TokenType::IF => "IF"@,
        TokenType::NIL => "NIL"@,
        TokenType::OR => "OR"@,
        TokenType::PRINT => "PRINT"@,
        TokenType::RETURN => "RETURN"@,
        TokenType::SUPER => "SUPER"@,
        TokenType::THIS => "THIS"@,
        TokenType::TRUE => "TRUE"@,
        TokenType::VAR => "VAR"@,
        TokenType::WHILE => "WHILE"@,
        TokenType::BREAK => "BREAK"@,
        TokenType::EOF => "EOF"@,
    }
}

/// The name of a token kind as a string.
pub fn token_type_string(t: TokenType) -> (r: String)
    ensures
        r@ == token_type_text(t),
{
    match t {
        TokenType::LeftParen => String::from_str("LeftParen"),
        TokenType::RightParen => String::from_str("RightParen"),
        TokenType::LeftBrace => String::from_str("LeftBrace"),
        TokenType::RightBrace => String::from_str("RightBrace"),
        TokenType::COMMA => String::from_str("COMMA"),
        TokenType::DOT => String::from_str("DOT"),
        TokenType::MINUS => String::from_str("MINUS"),
        TokenType::PLUS => String::from_str("PLUS"),
        TokenType::SEMICOLON => String::from_str("SEMICOLON"),
        TokenType::SLASH => String::from_str("SLASH"),
        TokenType::STAR => String::from_str("STAR"),
        TokenType::BANG => String::from_str("BANG"),
        TokenType::BangEqual => String::from_str("BangEqual"),
        TokenType::EQUAL => String::from_str("EQUAL"),
        TokenType::EqualEqual => String::from_str("EqualEqual"),
        TokenType::GREATER => String::from_str("GREATER"),
        TokenType::GreaterEqual => String::from_str("GreaterEqual"),
        TokenType::LESS => String::from_str("LESS"),
        TokenType::LessEqual => String::from_str("LessEqual"),
        TokenType::IDENTIFIER => String::from_str("IDENTIFIER"),
        TokenType::STRING => String::from_str("STRING"),
        TokenType::NUMBER => String::from_str("NUMBER"),
        TokenType::AND => String::from_str("AND"),
        TokenType::CLASS => String::from_str("CLASS"),
        TokenType::ELSE => String::from_str("ELSE"),
        TokenType::FALSE => String::from_str("FALSE"),
        TokenType::FUN => String::from_str("FUN"),
        TokenType::FOR => String::from_str("FOR"),
        TokenType::IF => String::from_str("IF"),
        TokenType::NIL => String::from_str("NIL"),
        TokenType::OR => String::from_str("OR"),
        TokenType::PRINT => String::from_str("PRINT"),
        TokenType::RETURN => String::from_str("RETURN"),
        TokenType::SUPER => String::from_str("SUPER"),
        TokenType::THIS => String::from_str("THIS"),
        TokenType::TRUE => String::from_str("TRUE"),
        TokenType::VAR => String::from_str("VAR"),
        TokenType::WHILE => String::from_str("WHILE"),
        TokenType::BREAK => String::from_str("BREAK"),
        TokenType::EOF => String::from_str("EOF"),
    }
}

/// The printed form of a literal payload: the variant name with its
/// value.
pub open spec fn type_debug_text(v: VType) -> Seq<char> {
    match v {
        VType::Nil => "Nil"@,
        VType::Bool(b) => if b {
            "Bool(true)"@
        } else {
            "Bool(false)"@
        },
        VType::Num(n, d) => "Number("@ + crate::rational::rat_text(n, d) + ")"@,
        VType::Str(s) => "String(\""@ + s + "\")"@,
        VType::Fun(f) => "Fun(<fn "@ + f.name.lexeme + ">)"@,
    }
}

/// The printed form of a token: kind, lexeme and literal payload,
/// separated by single spaces.
pub open spec fn token_text(t: VToken) -> Seq<char> {
    token_type_text(t.token_type) + seq![' '] + t.lexeme + seq![' '] + type_debug_text(t.literal)
}

impl Token {
    /// The printed form of this token.
    pub fn to_string(&self) -> (r: String)
        requires
            vtype_wf(token_view(*self).literal),
        ensures
            r@ == token_text(token_view(*self)),
    {
        let mut s = token_type_string(self.token_type);
        crate::text::push_char(&mut s, ' ');
        s.append(self.lexeme.as_str());
        crate::text::push_char(&mut s, ' ');
        proof {
            assert(s@ =~= token_type_text(self.token_type) + seq![' '] + self.lexeme@
                + seq![' ']);
        }
        let ghost pre = s@;
        match &self.literal {
            Type::Nil => {
                s.append("Nil");
            },
            Type::Bool(b) => {
                if *b {
                    s.append("Bool(true)");
                } else {
                    s.append("Bool(false)");
                }
            },
            Type::Number(q) => {
                s.append("Number(");
                let qs = q.to_text();
                s.append(qs.as_str());
                s.append(")");
            },
            Type::String(st) => {
                s.append("String(\"");
                s.append(st.as_str());
                s.append("\")");
            },
            Type::Fun(f) => {
                s.append("Fun(<fn ");
                s.append(f.name.lexeme.as_str());
                s.append(">)");
            },
        }
        proof {
            assert(s@ =~= pre + type_debug_text(type_view(self.literal)));
            assert(s@ =~= token_text(token_view(*self)));
        }
        s
    }
}

} // verus!
