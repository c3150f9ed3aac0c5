//! The scanner: one left-to-right pass from source characters to tokens.
//! The whole pass is specified by `scan_from`, a total function from the
//! character sequence to the token sequence or the first scan error; the
//! executable scanner returns exactly what it says.

use vstd::prelude::*;

verus! {

use vstd::string::{StringExecFns, StrSliceExecFns};
use crate::errors::{MyError, VErr};
use crate::rational::{norm_pair, pow10};
use crate::text::{dec_digits, dec_digits_vec, append_chars, chars_to_string};
use crate::tokens::{Token, TokenType, Type, VToken, VType, token_view, tokens_view};

/// Decimal digit.
pub open spec fn is_digit(c: char) -> bool {
    48 <= c as u32 <= 57
}

/// Letter or underscore: the start of an identifier.
pub open spec fn is_alpha(c: char) -> bool {
    (97 <= c as u32 <= 122) || (65 <= c as u32 <= 90) || c as u32 == 95
}

/// Letter, underscore or digit: the continuation of an identifier.
pub open spec fn is_alnum(c: char) -> bool {
    is_alpha(c) || is_digit(c)
}

/// The end of the run of digits starting at `pos`.
pub open spec fn digit_run_end(src: Seq<char>, pos: nat) -> nat
    decreases src.len() - pos,
{
    if pos < src.len() && is_digit(src[pos as int]) {
        digit_run_end(src, pos + 1)
    } else {
        pos
    }
}

/// The end of the run of identifier characters starting at `pos`.
pub open spec fn ident_run_end(src: Seq<char>, pos: nat) -> nat
    decreases src.len() - pos,
{
    if pos < src.len() && is_alnum(src[pos as int]) {
        ident_run_end(src, pos + 1)
    } else {
        pos
    }
}

/// The position of the newline ending a comment, or the end of input.
pub open spec fn comment_end(src: Seq<char>, pos: nat) -> nat
    decreases src.len() - pos,
{
    if pos < src.len() {
        if src[pos as int] == '\n' {
            pos
        } else {
            comment_end(src, pos + 1)
        }
    } else {
        pos
    }
}

/// The position of the closing quote of a string literal, if any.
pub open spec fn string_end(src: Seq<char>, pos: nat) -> Option<nat>
    decreases src.len() - pos,
{
    if pos < src.len() {
        if src[pos as int] == '"' {
            Some(pos)
        } else {
            string_end(src, pos + 1)
        }
    } else {
        None
    }
}

/// How many newline characters lie in `src[a..b]`.
pub open spec fn count_nl(src: Seq<char>, a: nat, b: nat) -> nat
    decreases b - a,
{
    if a < b && a < src.len() {
        (if src[a as int] == '\n' {
            1nat
        } else {
            0nat
        }) + count_nl(src, a + 1, b)
    } else {
        0
    }
}

/// The integer value of a digit string, most significant digit first.
pub open spec fn digits_val(s: Seq<char>) -> int
    decreases s.len(),
{
    if s.len() == 0 {
        0
    } else {
        digits_val(s.drop_last()) * 10 + (s.last() as u32 - 48)
    }
}

/// The token kind of a reserved word, or `IDENTIFIER`.
pub open spec fn keyword_type(s: Seq<char>) -> TokenType {
    if s == "and"@ {
        TokenType::AND
    } else if s == "class"@ {
        TokenType::CLASS
    } else if s == "else"@ {
        TokenType::ELSE
    } else if s == "false"@ {
        TokenType::FALSE
    } else if s == "for"@ {
        TokenType::FOR
    } else if s == "fun"@ {
        TokenType::FUN
    } else if s == "if"@ {
        TokenType::IF
    } else if s == "nil"@ {
        TokenType::NIL
    } else if s == "or"@ {
        TokenType::OR
    } else if s == "print"@ {
        TokenType::PRINT
    } else if s == "return"@ {
        TokenType::RETURN
    } else if s == "super"@ {
        TokenType::SUPER
    } else if s == "this"@ {
        TokenType::THIS
    } else if s == "true"@ {
        TokenType::TRUE
    } else if s == "var"@ {
        TokenType::VAR
    } else if s == "while"@ {
        TokenType::WHILE
    } else if s == "break"@ {
        TokenType::BREAK
    } else {
        TokenType::IDENTIFIER
    }
}

/// A token with no literal payload.
pub open spec fn plain_tok(tt: TokenType, lexeme: Seq<char>, line: nat) -> VToken {
    VToken { token_type: tt, lexeme, literal: VType::Nil, line }
}

/// The message of the error for a character no lexeme starts with.
pub open spec fn unexpected_msg(line: nat) -> Seq<char> {
    "[Line "@ + dec_digits(line) + "]: Unexpected character"@
}

/// The message of the error for a string literal that never closes.
pub open spec fn unterminated_msg(line: nat) -> Seq<char> {
    "[Line "@ + dec_digits(line) + "]: Unterminated string"@
}

/// The message of the error for a number literal too large to represent.
pub open spec fn number_range_msg(line: nat) -> Seq<char> {
    "[Line "@ + dec_digits(line) + "]: Number literal out of range"@
}


/// Bounds and content of a digit run.
pub proof fn lemma_digit_run(src: Seq<char>, pos: nat)
    requires
        pos <= src.len(),
    ensures
        pos <= digit_run_end(src, pos) <= src.len(),
        forall|i: int| pos <= i < digit_run_end(src, pos) ==> is_digit(src[i]),
        digit_run_end(src, pos) < src.len() ==> !is_digit(src[digit_run_end(src, pos) as int]),
    decreases src.len() - pos,
{
    if pos < src.len() && is_digit(src[pos as int]) {
        lemma_digit_run(src, pos + 1);
    }
}

/// Bounds of an identifier run.
pub proof fn lemma_ident_run(src: Seq<char>, pos: nat)
    requires
        pos <= src.len(),
    ensures
        pos <= ident_run_end(src, pos) <= src.len(),
    decreases src.len() - pos,
{
    if pos < src.len() && is_alnum(src[pos as int]) {
        lemma_ident_run(src, pos + 1);
    }
}

/// Bounds of a comment.
pub proof fn lemma_comment_end(src: Seq<char>, pos: nat)
    requires
        pos <= src.len(),
    ensures
        pos <= comment_end(src, pos) <= src.len(),
        comment_end(src, pos) < src.len() ==> src[comment_end(src, pos) as int] == '\n',
    decreases src.len() - pos,
{
    if pos < src.len() && src[pos as int] != '\n' {
        lemma_comment_end(src, pos + 1);
    }
}

/// Bounds of the closing quote.
pub proof fn lemma_string_end(src: Seq<char>, pos: nat)
    ensures
        string_end(src, pos) matches Some(e) ==> pos <= e < src.len() && src[e as int] == '"',
    decreases src.len() - pos,
{
    if pos < src.len() && src[pos as int] != '"' {
        lemma_string_end(src, pos + 1);
    }
}

/// The tokens of `src` from position `pos` on, with `line` the current
/// 1-based line: the whole scanner in one function.  A success ends in
/// exactly one `EOF` token.
pub open spec fn scan_from(src: Seq<char>, pos: nat, line: nat) -> Result<Seq<VToken>, VErr>
    decreases src.len() - pos, 0int
        via scan_from_decreases
{
    if pos >= src.len() {
        Ok(seq![plain_tok(TokenType::EOF, Seq::<char>::empty(), line)])
    } else {
        let c = src[pos as int];
        if c == '(' || c == ')' || c == '{' || c == '}' || c == ',' || c == '.' || c == '-' || c
            == '+' || c == ';' || c == '*' {
            let tt = if c == '(' {
                TokenType::LeftParen
            } else if c == ')' {
                TokenType::RightParen
            } else if c == '{' {
                TokenType::LeftBrace
            } else if c == '}' {
                TokenType::RightBrace
            } else if c == ',' {
                TokenType::COMMA
            } else if c == '.' {
                TokenType::DOT
            } else if c == '-' {
                TokenType::MINUS
            } else if c == '+' {
                TokenType::PLUS
            } else if c == ';' {
                TokenType::SEMICOLON
            } else {
                TokenType::STAR
            };
            cons_tok(plain_tok(tt, src.subrange(pos as int, pos + 1int), line), src, pos + 1, line)
        } else if c == '!' || c == '=' || c == '<' || c == '>' {
            if pos + 1 < src.len() && src[pos as int + 1] == '=' {
                let tt = if c == '!' {
                    TokenType::BangEqual
                } else if c == '=' {
                    TokenType::EqualEqual
                } else if c == '<' {
                    TokenType::LessEqual
                } else {
                    TokenType::GreaterEqual
                };
                cons_tok(plain_tok(tt, src.subrange(pos as int, pos + 2int), line), src, pos + 2, line)
            } else {
                let tt = if c == '!' {
                    TokenType::BANG
                } else if c == '=' {
                    TokenType::EQUAL
                } else if c == '<' {
                    TokenType::LESS
                } else {
                    TokenType::GREATER
                };
                cons_tok(plain_tok(tt, src.subrange(pos as int, pos + 1int), line), src, pos + 1, line)
            }
        } else if c == '/' {
            if pos + 1 < src.len() && src[pos as int + 1] == '/' {
                scan_from(src, comment_end(src, pos + 2), line)
            } else {
                cons_tok(
                    plain_tok(TokenType::SLASH, src.subrange(pos as int, pos + 1int), line),
                    src,
                    pos + 1,
                    line,
                )
            }
        } else if c == ' ' || c == '\r' || c == '\t' {
            scan_from(src, pos + 1, line)
        } else if c == '\n' {
            scan_from(src, pos + 1, line + 1)
        } else if c == '"' {
            match string_end(src, pos + 1) {
                None => Err(VErr::ScanError(unterminated_msg(line))),
                Some(endq) => {
                    let line2 = line + count_nl(src, pos + 1, endq);
                    cons_tok(
                        VToken {
                            token_type: TokenType::STRING,
                            lexeme: src.subrange(pos as int, endq + 1int),
                            literal: VType::Str(src.subrange(pos as int + 1, endq as int)),
                            line: line2,
                        },
                        src,
                        endq + 1,
                        line2,
                    )
                },
            }
        } else if is_digit(c) {
            let int_end = digit_run_end(src, pos);
            let endn = if int_end < src.len() && src[int_end as int] == '.' && int_end + 1
                < src.len() && is_digit(src[int_end as int + 1]) {
                digit_run_end(src, int_end + 1)
            } else {
                int_end
            };
            let digits = src.subrange(pos as int, int_end as int) + (if endn > int_end {
                src.subrange(int_end as int + 1, endn as int)
            } else {
                Seq::<char>::empty()
            });
            let k = if endn > int_end {
                (endn - int_end - 1) as nat
            } else {
                0nat
            };
            if digits_val(digits) > i64::MAX as int || k > 18 {
                Err(VErr::ScanError(number_range_msg(line)))
            } else {
                let p = norm_pair(digits_val(digits), pow10(k));
                cons_tok(
                    VToken {
                        token_type: TokenType::NUMBER,
                        lexeme: src.subrange(pos as int, endn as int),
                        literal: VType::Num(p.0, p.1),
                        line,
                    },
                    src,
                    endn,
                    line,
                )
            }
        } else if is_alpha(c) {
            let endi = ident_run_end(src, pos + 1);
            let lex = src.subrange(pos as int, endi as int);
            cons_tok(plain_tok(keyword_type(lex), lex, line), src, endi, line)
        } else {
            Err(VErr::ScanError(unexpected_msg(line)))
        }
    }
}

/// One token followed by the rest of the scan.
pub open spec fn cons_tok(t: VToken, src: Seq<char>, pos: nat, line: nat) -> Result<
    Seq<VToken>,
    VErr,
>
    decreases src.len() - pos, 1int,
{
    match scan_from(src, pos, line) {
        Ok(ts) => Ok(seq![t] + ts),
        Err(e) => Err(e),
    }
}

/// A digit string names a nonnegative number.
pub proof fn lemma_digits_val_nonneg(s: Seq<char>)
    requires
        forall|i: int| 0 <= i < s.len() ==> is_digit(s[i]),
    ensures
        digits_val(s) >= 0,
    decreases s.len(),
{
    if s.len() > 0 {
        lemma_digits_val_nonneg(s.drop_last());
        assert(digits_val(s.drop_last()) * 10 >= 0) by (nonlinear_arith)
            requires
                digits_val(s.drop_last()) >= 0,
        ;
    }
}

/// Splitting a digit string splits its value by a power of ten.
pub proof fn lemma_digits_concat(s: Seq<char>, t: Seq<char>)
    ensures
        digits_val(s + t) == digits_val(s) * pow10(t.len()) + digits_val(t),
    decreases t.len(),
{
    if t.len() == 0 {
        assert(s + t =~= s);
    } else {
        lemma_digits_concat(s, t.drop_last());
        assert((s + t).drop_last() =~= s + t.drop_last());
        let a = digits_val(s);
        let b = digits_val(t.drop_last());
        let d = t.last() as u32 - 48;
        assert(digits_val(t) == b * 10 + d);
        assert((a * pow10((t.len() - 1) as nat) + b) * 10 + d == a * (10 * pow10(
            (t.len() - 1) as nat,
        )) + (b * 10 + d)) by (nonlinear_arith);
    }
}

/// All lines of a token stream are at least one.
pub open spec fn toks_lines_pos(ts: Seq<VToken>) -> bool {
    forall|i: int| 0 <= i < ts.len() ==> (#[trigger] ts[i]).line >= 1
}

/// All lines of a token stream are at most `hi`.
pub open spec fn toks_lines_le(ts: Seq<VToken>, hi: nat) -> bool {
    forall|i: int| 0 <= i < ts.len() ==> (#[trigger] ts[i]).line <= hi
}

/// Newline counts over adjacent ranges add up.
pub proof fn lemma_count_nl_split(src: Seq<char>, a: nat, b: nat, c: nat)
    requires
        a <= b <= c,
    ensures
        count_nl(src, a, c) == count_nl(src, a, b) + count_nl(src, b, c),
    decreases b - a,
{
    if a < b {
        if a < src.len() {
            lemma_count_nl_split(src, a + 1, b, c);
        } else {
            lemma_count_nl_zero(src, a, b);
            lemma_count_nl_zero(src, a, c);
            lemma_count_nl_zero(src, b, c);
        }
    }
}

/// A range beyond the end of the input holds no newlines.
pub proof fn lemma_count_nl_zero(src: Seq<char>, a: nat, b: nat)
    requires
        a >= src.len(),
    ensures
        count_nl(src, a, b) == 0,
    decreases b - a,
{
    if a < b && a < src.len() {
        lemma_count_nl_zero(src, a + 1, b);
    }
}

/// A token sequence that ends in exactly one `EOF` token: the last
/// token is `EOF` and no earlier one is.
pub open spec fn eof_shape(ts: Seq<VToken>) -> bool {
    &&& ts.len() >= 1
    &&& ts.last().token_type == TokenType::EOF
    &&& forall|i: int| 0 <= i < ts.len() - 1 ==> ts[i].token_type != TokenType::EOF
}

#[via_fn]
proof fn scan_from_decreases(src: Seq<char>, pos: nat, line: nat) {
    if pos < src.len() {
        lemma_digit_run(src, pos);
        if is_digit(src[pos as int]) {
            let int_end = digit_run_end(src, pos);
            if int_end + 1 <= src.len() {
                lemma_digit_run(src, int_end + 1);
            }
        }
        lemma_ident_run(src, pos + 1);
        if pos + 2 <= src.len() {
            lemma_comment_end(src, pos + 2);
        }
        lemma_string_end(src, pos + 1);
    }
}


/// `eof_shape` and literal well-formedness are preserved by putting one
/// ordinary token with a well-formed literal in front.
proof fn lemma_shape_cons(t: VToken, ts: Seq<VToken>, hi: nat)
    requires
        t.token_type != TokenType::EOF,
        t.line >= 1,
        t.line <= hi,
        crate::interpreter::vtype_deep_wf(t.literal),
        eof_shape(ts),
        crate::interpreter::toks_wf(ts),
        toks_lines_pos(ts),
        toks_lines_le(ts, hi),
    ensures
        eof_shape(seq![t] + ts),
        crate::interpreter::toks_wf(seq![t] + ts),
        toks_lines_pos(seq![t] + ts),
        toks_lines_le(seq![t] + ts, hi),
{
    let u = seq![t] + ts;
    assert(u.last() == ts.last());
    assert forall|i: int| 0 <= i < u.len() - 1 implies u[i].token_type != TokenType::EOF by {
        if i == 0 {
            assert(u[0] == t);
        } else {
            assert(u[i] == ts[i - 1]);
        }
    }
    assert forall|i: int|
        0 <= i < u.len() implies crate::interpreter::vtype_deep_wf(
        (#[trigger] u[i]).literal,
    ) by {
        if i == 0 {
            assert(u[0] == t);
        } else {
            assert(u[i] == ts[i - 1]);
        }
    }
    assert forall|i: int| 0 <= i < u.len() implies (#[trigger] u[i]).line >= 1 by {
        if i == 0 {
            assert(u[0] == t);
        } else {
            assert(u[i] == ts[i - 1]);
        }
    }
    assert forall|i: int| 0 <= i < u.len() implies (#[trigger] u[i]).line <= hi by {
        if i == 0 {
            assert(u[0] == t);
        } else {
            assert(u[i] == ts[i - 1]);
        }
    }
}

fn c_is_digit(c: char) -> (r: bool)
    ensures
        r == is_digit(c),
{
    let u = c as u32;
    48 <= u && u <= 57
}

fn c_is_alpha(c: char) -> (r: bool)
    ensures
        r == is_alpha(c),
{
    let u = c as u32;
    (97 <= u && u <= 122) || (65 <= u && u <= 90) || u == 95
}

fn c_is_alnum(c: char) -> (r: bool)
    ensures
        r == is_alnum(c),
{
    c_is_alpha(c) || c_is_digit(c)
}

fn digit_run_exec(src: &Vec<char>, pos: usize) -> (r: usize)
    requires
        pos <= src@.len(),
    ensures
        r as nat == digit_run_end(src@, pos as nat),
        pos <= r <= src@.len(),
    decreases src@.len() - pos,
{
    if pos < src.len() && c_is_digit(src[pos]) {
        digit_run_exec(src, pos + 1)
    } else {
        pos
    }
}

fn ident_run_exec(src: &Vec<char>, pos: usize) -> (r: usize)
    requires
        pos <= src@.len(),
    ensures
        r as nat == ident_run_end(src@, pos as nat),
        pos <= r <= src@.len(),
    decreases src@.len() - pos,
{
    if pos < src.len() && c_is_alnum(src[pos]) {
        ident_run_exec(src, pos + 1)
    } else {
        pos
    }
}

fn comment_end_exec(src: &Vec<char>, pos: usize) -> (r: usize)
    requires
        pos <= src@.len(),
    ensures
        r as nat == comment_end(src@, pos as nat),
        pos <= r <= src@.len(),
    decreases src@.len() - pos,
{
    if pos < src.len() {
        if src[pos] == '\n' {
            pos
        } else {
            comment_end_exec(src, pos + 1)
        }
    } else {
        pos
    }
}

fn string_end_exec(src: &Vec<char>, pos: usize) -> (r: Option<usize>)
    requires
        pos <= src@.len(),
    ensures
        match r {
            Some(e) => string_end(src@, pos as nat) == Some(e as nat) && pos <= e
                < src@.len(),
            None => string_end(src@, pos as nat) is None,
        },
    decreases src@.len() - pos,
{
    if pos < src.len() {
        if src[pos] == '"' {
            Some(pos)
        } else {
            string_end_exec(src, pos + 1)
        }
    } else {
        None
    }
}

fn count_nl_exec(src: &Vec<char>, a: usize, b: usize) -> (r: usize)
    requires
        a <= b <= src@.len(),
    ensures
        r as nat == count_nl(src@, a as nat, b as nat),
        r <= b - a,
    decreases b - a,
{
    if a < b {
        let k = count_nl_exec(src, a + 1, b);
        if src[a] == '\n' {
            k + 1
        } else {
            k
        }
    } else {
        0
    }
}

fn sub_string(src: &Vec<char>, a: usize, b: usize) -> (s: String)
    requires
        a <= b <= src@.len(),
    ensures
        s@ == src@.subrange(a as int, b as int),
{
    let mut v: Vec<char> = Vec::new();
    let mut i = a;
    while i < b
        invariant
            a <= i <= b <= src@.len(),
            v@ == src@.subrange(a as int, i as int),
        decreases b - i,
    {
        v.push(src[i]);
        proof {
            assert(src@.subrange(a as int, i as int).push(src@[i as int]) =~= src@.subrange(
                a as int,
                i + 1,
            ));
        }
        i = i + 1;
    }
    chars_to_string(&v)
}

fn val_digits(src: &Vec<char>, a: usize, b: usize, acc: i64) -> (r: Option<i64>)
    requires
        a <= b <= src@.len(),
        acc >= 0,
        forall|i: int| a <= i < b ==> is_digit(src@[i]),
    ensures
        match r {
            Some(v) => 0 <= v && v as int == (acc as int) * pow10((b - a) as nat) + digits_val(
                src@.subrange(a as int, b as int),
            ),
            None => (acc as int) * pow10((b - a) as nat) + digits_val(
                src@.subrange(a as int, b as int),
            ) > i64::MAX as int,
        },
    decreases b - a,
{
    if a == b {
        proof {
            assert(src@.subrange(a as int, b as int) =~= Seq::<char>::empty());
        }
        Some(acc)
    } else {
        let c = src[a];
        let d: u32 = c as u32 - 48;
        let next128: i128 = (acc as i128) * 10 + (d as i128);
        proof {
            let n = (b - a) as nat;
            let sub = src@.subrange(a as int, b as int);
            let rest = src@.subrange(a as int + 1, b as int);
            assert(sub =~= seq![src@[a as int]] + rest);
            lemma_digits_concat(seq![src@[a as int]], rest);
            assert(seq![src@[a as int]].drop_last() =~= Seq::<char>::empty());
            assert(digits_val(Seq::<char>::empty()) == 0);
            assert(seq![src@[a as int]].last() == src@[a as int]);
            assert(digits_val(seq![src@[a as int]]) == d as int);
            assert(forall|i: int| 0 <= i < rest.len() ==> is_digit(rest[i]));
            lemma_digits_val_nonneg(rest);
            crate::rational::lemma_pow10_pos((n - 1) as nat);
            assert(pow10(n) == 10 * pow10((n - 1) as nat));
            assert((acc as int) * pow10(n) + digits_val(sub) == (acc as int * 10 + d as int)
                * pow10((n - 1) as nat) + digits_val(rest)) by (nonlinear_arith)
                requires
                    pow10(n) == 10 * pow10((n - 1) as nat),
                    digits_val(sub) == (d as int) * pow10((n - 1) as nat) + digits_val(rest),
            ;
        }
        if next128 > i64::MAX as i128 {
            proof {
                let n = (b - a) as nat;
                let rest = src@.subrange(a as int + 1, b as int);
                assert((acc as int * 10 + d as int) * pow10((n - 1) as nat) + digits_val(rest)
                    > i64::MAX as int) by (nonlinear_arith)
                    requires
                        acc as int * 10 + d as int > i64::MAX as int,
                        pow10((n - 1) as nat) >= 1,
                        digits_val(rest) >= 0,
                ;
            }
            None
        } else {
            val_digits(src, a + 1, b, next128 as i64)
        }
    }
}

fn pow10_exec(k: usize) -> (p: u64)
    requires
        k <= 18,
    ensures
        p as int == pow10(k as nat),
        1 <= p <= 1000000000000000000,
    decreases k,
{
    proof {
        reveal_with_fuel(pow10, 19);
    }
    if k == 0 {
        1
    } else {
        let q = pow10_exec(k - 1);
        proof {
            crate::rational::lemma_pow10_mono((k - 1) as nat, 17);
            assert(pow10(17) == 100000000000000000int);
        }
        q * 10
    }
}

fn keyword_of(lex: &String) -> (tt: TokenType)
    ensures
        tt == keyword_type(lex@),
{
    if lex.eq(&String::from_str("and")) {
        TokenType::AND
    } else if lex.eq(&String::from_str("class")) {
        TokenType::CLASS
    } else if lex.eq(&String::from_str("else")) {
        TokenType::ELSE
    } else if lex.eq(&String::from_str("false")) {
        TokenType::FALSE
    } else if lex.eq(&String::from_str("for")) {
        TokenType::FOR
    } else if lex.eq(&String::from_str("fun")) {
        TokenType::FUN
    } else if lex.eq(&String::from_str("if")) {
        TokenType::IF
    } else if lex.eq(&String::from_str("nil")) {
        TokenType::NIL
    } else if lex.eq(&String::from_str("or")) {
        TokenType::OR
    } else if lex.eq(&String::from_str("print")) {
        TokenType::PRINT
    } else if lex.eq(&String::from_str("return")) {
        TokenType::RETURN
    } else if lex.eq(&String::from_str("super")) {
        TokenType::SUPER
    } else if lex.eq(&String::from_str("this")) {
        TokenType::THIS
    } else if lex.eq(&String::from_str("true")) {
        TokenType::TRUE
    } else if lex.eq(&String::from_str("var")) {
        TokenType::VAR
    } else if lex.eq(&String::from_str("while")) {
        TokenType::WHILE
    } else if lex.eq(&String::from_str("break")) {
        TokenType::BREAK
    } else {
        TokenType::IDENTIFIER
    }
}

fn line_msg(line: usize, tail: &str) -> (r: String)
    ensures
        r@ == "[Line "@ + dec_digits(line as nat) + tail@,
{
    let mut s = String::from_str("[Line ");
    let dv = dec_digits_vec(line as u128);
    append_chars(&mut s, &dv);
    s.append(tail);
    s
}


fn push_and_scan(src: &Vec<char>, pos2: usize, line2: usize, tok: Token, out: &mut Vec<Token>) -> (r:
    Result<(), MyError>)
    requires
        pos2 <= src@.len(),
        1 <= line2,
        line2 + (src@.len() - pos2) <= usize::MAX,
        token_view(tok).token_type != TokenType::EOF,
        token_view(tok).line >= 1,
        token_view(tok).line <= line2,
        crate::interpreter::vtype_deep_wf(token_view(tok).literal),
    ensures
        ({
            let rr = cons_tok(token_view(tok), src@, pos2 as nat, line2 as nat);
            match (r, rr) {
                (Ok(u), Ok(ts)) => tokens_view(final(out)@) == tokens_view(old(out)@) + ts
                    && eof_shape(ts) && crate::interpreter::toks_wf(ts) && toks_lines_pos(ts)
                    && toks_lines_le(ts, line2 as nat + count_nl(src@, pos2 as nat, src@.len())),
                (Err(e), Err(ee)) => e@ == ee,
                _ => false,
            }
        }),
    decreases src@.len() - pos2, 1int,
{
    let ghost tv = token_view(tok);
    out.push(tok);
    let ghost mid = out@;
    let r = scan_rest(src, pos2, line2, out);
    proof {
        match scan_from(src@, pos2 as nat, line2 as nat) {
            Ok(ts2) => {
                lemma_shape_cons(tv, ts2, line2 as nat + count_nl(src@, pos2 as nat, src@.len()));
                assert(tokens_view(mid) =~= tokens_view(old(out)@).push(tv));
                assert(tokens_view(old(out)@).push(tv) + ts2 =~= tokens_view(old(out)@) + (seq![tv]
                    + ts2));
            },
            Err(_) => {},
        }
    }
    r
}

#[verifier::rlimit(100)]
#[verifier::spinoff_prover]
fn scan_rest(src: &Vec<char>, pos: usize, line: usize, out: &mut Vec<Token>) -> (r: Result<
    (),
    MyError,
>)
    requires
        pos <= src@.len(),
        1 <= line,
        line + (src@.len() - pos) <= usize::MAX,
    ensures
        ({
            let rr = scan_from(src@, pos as nat, line as nat);
            match (r, rr) {
                (Ok(u), Ok(ts)) => tokens_view(final(out)@) == tokens_view(old(out)@) + ts
                    && eof_shape(ts) && crate::interpreter::toks_wf(ts) && toks_lines_pos(ts)
                    && toks_lines_le(ts, line as nat + count_nl(src@, pos as nat, src@.len())),
                (Err(e), Err(ee)) => e@ == ee,
                _ => false,
            }
        }),
    decreases src@.len() - pos, 0int,
{
    if pos >= src.len() {
        let tok = Token {
            token_type: TokenType::EOF,
            lexeme: String::new(),
            literal: Type::Nil,
            line,
        };
        proof {
            assert(token_view(tok) == plain_tok(
                TokenType::EOF,
                Seq::<char>::empty(),
                line as nat,
            ));
        }
        out.push(tok);
        proof {
            let ts = seq![plain_tok(TokenType::EOF, Seq::<char>::empty(), line as nat)];
            assert(tokens_view(out@) =~= tokens_view(old(out)@) + ts);
            assert(ts.last() == ts[0]);
            assert(forall|i: int|
                0 <= i < ts.len() ==> crate::interpreter::vtype_deep_wf(
                    (#[trigger] ts[i]).literal,
                ));
            assert(forall|i: int| 0 <= i < ts.len() ==> (#[trigger] ts[i]).line >= 1);
            assert(forall|i: int|
                0 <= i < ts.len() ==> (#[trigger] ts[i]).line <= line as nat + count_nl(
                    src@,
                    pos as nat,
                    src@.len(),
                ));
        }
        Ok(())
    } else {
        let c = src[pos];
        if c == '(' || c == ')' || c == '{' || c == '}' || c == ',' || c == '.' || c == '-' || c
            == '+' || c == ';' || c == '*' {
            let tt = if c == '(' {
                TokenType::LeftParen
            } else if c == ')' {
                TokenType::RightParen
            } else if c == '{' {
                TokenType::LeftBrace
            } else if c == '}' {
                TokenType::RightBrace
            } else if c == ',' {
                TokenType::COMMA
            } else if c == '.' {
                TokenType::DOT
            } else if c == '-' {
                TokenType::MINUS
            } else if c == '+' {
                TokenType::PLUS
            } else if c == ';' {
                TokenType::SEMICOLON
            } else {
                TokenType::STAR
            };
            let lex = sub_string(src, pos, pos + 1);
            let tok = Token { token_type: tt, lexeme: lex, literal: Type::Nil, line };
            proof {
                lemma_count_nl_split(src@, pos as nat, (pos + 1) as nat, src@.len() as nat);
            }
            push_and_scan(src, pos + 1, line, tok, out)
        } else if c == '!' || c == '=' || c == '<' || c == '>' {
            if pos + 1 < src.len() && src[pos + 1] == '=' {
                let tt = if c == '!' {
                    TokenType::BangEqual
                } else if c == '=' {
                    TokenType::EqualEqual
                } else if c == '<' {
                    TokenType::LessEqual
                } else {
                    TokenType::GreaterEqual
                };
                let lex = sub_string(src, pos, pos + 2);
                let tok = Token { token_type: tt, lexeme: lex, literal: Type::Nil, line };
                proof {
                    lemma_count_nl_split(src@, pos as nat, (pos + 2) as nat, src@.len() as nat);
                }
                push_and_scan(src, pos + 2, line, tok, out)
            } else {
                let tt = if c == '!' {
                    TokenType::BANG
                } else if c == '=' {
                    TokenType::EQUAL
                } else if c == '<' {
                    TokenType::LESS
                } else {
                    TokenType::GREATER
                };
                let lex = sub_string(src, pos, pos + 1);
                let tok = Token { token_type: tt, lexeme: lex, literal: Type::Nil, line };
                proof {
                    lemma_count_nl_split(src@, pos as nat, (pos + 1) as nat, src@.len() as nat);
                }
                push_and_scan(src, pos + 1, line, tok, out)
            }
        } else if c == '/' {
            if pos + 1 < src.len() && src[pos + 1] == '/' {
                let e = comment_end_exec(src, pos + 2);
                proof {
                    lemma_count_nl_split(src@, pos as nat, e as nat, src@.len() as nat);
                }
                scan_rest(src, e, line, out)
            } else {
                let lex = sub_string(src, pos, pos + 1);
                let tok = Token {
                    token_type: TokenType::SLASH,
                    lexeme: lex,
                    literal: Type::Nil,
                    line,
                };
                proof {
                    lemma_count_nl_split(src@, pos as nat, (pos + 1) as nat, src@.len() as nat);
                }
                push_and_scan(src, pos + 1, line, tok, out)
            }
        } else if c == ' ' || c == '\r' || c == '\t' {
            proof {
                lemma_count_nl_split(src@, pos as nat, (pos + 1) as nat, src@.len() as nat);
            }
            scan_rest(src, pos + 1, line, out)
        } else if c == '\n' {
            proof {
                lemma_count_nl_split(src@, pos as nat, (pos + 1) as nat, src@.len() as nat);
            }
            scan_rest(src, pos + 1, line + 1, out)
        } else if c == '"' {
            match string_end_exec(src, pos + 1) {
                None => Err(MyError::ScanError(line_msg(line, "]: Unterminated string"))),
                Some(endq) => {
                    let nl = count_nl_exec(src, pos + 1, endq);
                    let line2 = line + nl;
                    let lex = sub_string(src, pos, endq + 1);
                    let lit = sub_string(src, pos + 1, endq);
                    let tok = Token {
                        token_type: TokenType::STRING,
                        lexeme: lex,
                        literal: Type::String(lit),
                        line: line2,
                    };
                    proof {
                        lemma_count_nl_split(src@, pos as nat, (pos + 1) as nat, src@.len() as nat);
                        lemma_count_nl_split(src@, (pos + 1) as nat, endq as nat, src@.len() as nat);
                        lemma_count_nl_split(src@, endq as nat, (endq + 1) as nat, src@.len() as nat);
                    }
                    push_and_scan(src, endq + 1, line2, tok, out)
                },
            }
        } else if c_is_digit(c) {
            proof {
                lemma_digit_run(src@, pos as nat);
            }
            let int_end = digit_run_exec(src, pos);
            let has_frac = int_end < src.len() && src[int_end] == '.' && int_end + 1 < src.len()
                && c_is_digit(src[int_end + 1]);
            let endn = if has_frac {
                proof {
                    lemma_digit_run(src@, (int_end + 1) as nat);
                }
                digit_run_exec(src, int_end + 1)
            } else {
                int_end
            };
            let ghost fracpart = if has_frac {
                src@.subrange(int_end as int + 1, endn as int)
            } else {
                Seq::<char>::empty()
            };
            let ghost digits = src@.subrange(pos as int, int_end as int) + fracpart;
            proof {
                if has_frac {
                    lemma_digit_run(src@, (int_end + 1) as nat);
                    lemma_digits_val_nonneg(fracpart);
                }
                lemma_digits_val_nonneg(src@.subrange(pos as int, int_end as int));
                lemma_digits_concat(src@.subrange(pos as int, int_end as int), fracpart);
                if !has_frac {
                    assert(digits =~= src@.subrange(pos as int, int_end as int));
                }
            }
            let v1 = val_digits(src, pos, int_end, 0);
            match v1 {
                None => {
                    proof {
                        let k = fracpart.len();
                        crate::rational::lemma_pow10_pos(k);
                        assert(digits_val(digits) > i64::MAX as int) by (nonlinear_arith)
                            requires
                                digits_val(digits) == digits_val(
                                    src@.subrange(pos as int, int_end as int),
                                ) * pow10(fracpart.len()) + digits_val(fracpart),
                                digits_val(src@.subrange(pos as int, int_end as int))
                                    > i64::MAX as int,
                                pow10(fracpart.len()) >= 1,
                                digits_val(fracpart) >= 0,
                        ;
                    }
                    Err(MyError::ScanError(line_msg(line, "]: Number literal out of range")))
                },
                Some(d1) => {
                    proof {
                        assert(d1 as int == digits_val(
                            src@.subrange(pos as int, int_end as int),
                        ));
                    }
                    if has_frac {
                        let k = endn - (int_end + 1);
                        if k > 18 {
                            Err(
                                MyError::ScanError(
                                    line_msg(line, "]: Number literal out of range"),
                                ),
                            )
                        } else {
                            match val_digits(src, int_end + 1, endn, d1) {
                                None => Err(
                                    MyError::ScanError(
                                        line_msg(line, "]: Number literal out of range"),
                                    ),
                                ),
                                Some(dd) => {
                                    let p = pow10_exec(k);
                                    let q = crate::rational::Rational::new(dd, p as i64);
                                    let lex = sub_string(src, pos, endn);
                                    let tok = Token {
                                        token_type: TokenType::NUMBER,
                                        lexeme: lex,
                                        literal: Type::Number(q),
                                        line,
                                    };
                                    proof {
                                        lemma_count_nl_split(src@, pos as nat, endn as nat, src@.len() as nat);
                                    }
                                    push_and_scan(src, endn, line, tok, out)
                                },
                            }
                        }
                    } else {
                        let p = pow10_exec(0);
                        let q = crate::rational::Rational::new(d1, p as i64);
                        let lex = sub_string(src, pos, endn);
                        let tok = Token {
                            token_type: TokenType::NUMBER,
                            lexeme: lex,
                            literal: Type::Number(q),
                            line,
                        };
                        proof {
                            lemma_count_nl_split(src@, pos as nat, endn as nat, src@.len() as nat);
                        }
                        push_and_scan(src, endn, line, tok, out)
                    }
                },
            }
        } else if c_is_alpha(c) {
            proof {
                lemma_ident_run(src@, (pos + 1) as nat);
            }
            let endi = ident_run_exec(src, pos + 1);
            let lex = sub_string(src, pos, endi);
            let tt = keyword_of(&lex);
            let tok = Token { token_type: tt, lexeme: lex, literal: Type::Nil, line };
            proof {
                lemma_count_nl_split(src@, pos as nat, endi as nat, src@.len() as nat);
            }
            push_and_scan(src, endi, line, tok, out)
        } else {
            Err(MyError::ScanError(line_msg(line, "]: Unexpected character")))
        }
    }
}

/// The scanner: it owns the source as a character vector.
#[derive(Debug)]
pub struct Scanner {
    pub source: Vec<char>,
}

impl Scanner {
    /// A scanner over the given source text.
    pub fn new(source: &str) -> (s: Scanner)
        ensures
            s.source@ == source@,
    {
        let n = source.unicode_len();
        let mut v: Vec<char> = Vec::new();
        let mut i: usize = 0;
        while i < n
            invariant
                i <= n,
                n == source@.len(),
                v@ == source@.subrange(0, i as int),
            decreases n - i,
        {
            let ch = source.get_char(i);
            v.push(ch);
            proof {
                assert(source@.subrange(0, i as int).push(source@[i as int]) =~= source@.subrange(
                    0,
                    i + 1,
                ));
            }
            i = i + 1;
        }
        proof {
            assert(source@.subrange(0, n as int) =~= source@);
        }
        Scanner { source: v }
    }

    /// Scans the whole source: on success exactly the token sequence of
    /// the scan semantics, ending in exactly one `EOF` token; on failure
    /// exactly its first scan error.
    pub fn scan_tokens(&self) -> (r: Result<Vec<Token>, MyError>)
        requires
            self.source@.len() + 1 <= usize::MAX,
        ensures
            ({
                let rr = scan_from(self.source@, 0, 1);
                match (r, rr) {
                    (Ok(v), Ok(ts)) => tokens_view(v@) == ts && eof_shape(ts)
                        && crate::interpreter::toks_wf(ts) && toks_lines_pos(ts)
                        && toks_lines_le(ts, 1 + count_nl(self.source@, 0, self.source@.len())),
                    (Err(e), Err(ee)) => e@ == ee,
                    _ => false,
                }
            }),
    {
        let mut out: Vec<Token> = Vec::new();
        let r = scan_rest(&self.source, 0, 1, &mut out);
        match r {
            Ok(u) => {
                proof {
                    match scan_from(self.source@, 0, 1) {
                        Ok(ts) => {
                            assert(tokens_view(Seq::<Token>::empty()) =~= Seq::<
                                VToken,
                            >::empty());
                            assert(tokens_view(out@) =~= ts);
                        },
                        Err(_) => {},
                    }
                }
                Ok(out)
            },
            Err(e) => Err(e),
        }
    }
}

} // verus!
