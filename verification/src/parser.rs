//! The parser: recursive descent from the token stream to the syntax
//! tree.  Every parse routine guarantees progress through the stream,
//! leaves the stream itself untouched, and returns only deeply
//! well-formed nodes, so a parsed program is ready for the evaluator;
//! call arguments and function parameters are capped at 255.

use vstd::prelude::*;

verus! {

use vstd::string::StringExecFns;
use crate::errors::{MyError, VErr};
use crate::expr::{Expr, VExpr, expr_view};
use crate::interpreter::{expr_deep_wf, stmt_deep_wf, stmts_deep_wf, toks_wf, vtype_deep_wf};
use crate::scanner::{eof_shape, toks_lines_pos};
use crate::stmt::{Stmt, VStmt, stmt_view, stmts_view};
use crate::tokens::{Token, TokenType, Type, VToken, VType, token_view, tokens_view, token_dup, type_dup};

/// The most arguments a call, and parameters a declaration, may have.
pub const MAX_ARG_NUM: usize = 255;


/// The largest line number any token of the stream carries.
pub open spec fn max_line(ts: Seq<VToken>) -> nat
    decreases ts.len(),
{
    if ts.len() == 0 {
        0
    } else {
        let m = max_line(ts.drop_last());
        if ts.last().line > m {
            ts.last().line
        } else {
            m
        }
    }
}

/// No token lies past the largest line.
pub proof fn lemma_max_line(ts: Seq<VToken>)
    ensures
        forall|i: int| 0 <= i < ts.len() ==> (#[trigger] ts[i]).line <= max_line(ts),
    decreases ts.len(),
{
    if ts.len() > 0 {
        lemma_max_line(ts.drop_last());
        assert forall|i: int| 0 <= i < ts.len() implies (#[trigger] ts[i]).line <= max_line(
            ts,
        ) by {
            if i < ts.len() - 1 {
                assert(ts.drop_last()[i] == ts[i]);
            } else {
                assert(ts[i] == ts.last());
            }
        }
    }
}

/// A stream whose lines are all at most `hi` has its largest line at
/// most `hi`; with the scanner's own bound this places every operator
/// token of a parsed tree within the source's line range.
pub proof fn lemma_max_line_bounded(ts: Seq<VToken>, hi: nat)
    requires
        crate::scanner::toks_lines_le(ts, hi),
    ensures
        max_line(ts) <= hi,
    decreases ts.len(),
{
    if ts.len() > 0 {
        assert(forall|i: int| 0 <= i < ts.len() - 1 ==> (#[trigger] ts.drop_last()[i]) == ts[i]);
        lemma_max_line_bounded(ts.drop_last(), hi);
        assert(ts.last() == ts[ts.len() - 1]);
    }
}

/// Every operator token of the expression lies on a line within
/// `[1, hi]`: the operators of unary, binary and logical nodes, and the
/// closing parenthesis of a call.
pub open spec fn expr_lines_le(e: VExpr, hi: nat) -> bool
    decreases e, 0int,
{
    match e {
        VExpr::Literal(v) => true,
        VExpr::Null => true,
        VExpr::Grouping(inner) => expr_lines_le(*inner, hi),
        VExpr::Var(t) => true,
        VExpr::Assign { name, value } => expr_lines_le(*value, hi),
        VExpr::Unary { op, right } => 1 <= op.line <= hi && expr_lines_le(*right, hi),
        VExpr::Binary { left, op, right } => expr_lines_le(*left, hi) && 1 <= op.line <= hi
            && expr_lines_le(*right, hi),
        VExpr::Logical { left, op, right } => expr_lines_le(*left, hi) && 1 <= op.line <= hi
            && expr_lines_le(*right, hi),
        VExpr::Call { callee, paren, args } => expr_lines_le(*callee, hi) && 1 <= paren.line
            <= hi && exprs_lines_le(args, hi),
    }
}

/// Operator-line bounds for a list of expressions.
pub open spec fn exprs_lines_le(es: Seq<VExpr>, hi: nat) -> bool
    decreases es, 0int,
{
    forall|i: int| 0 <= i < es.len() ==> expr_lines_le(#[trigger] es[i], hi)
}

/// Operator-line bounds for every expression inside a statement.
pub open spec fn stmt_lines_le(s: VStmt, hi: nat) -> bool
    decreases s, 0int,
{
    match s {
        VStmt::Expr(e) => expr_lines_le(e, hi),
        VStmt::Print(e) => expr_lines_le(e, hi),
        VStmt::Var { name, init } => expr_lines_le(init, hi),
        VStmt::If { cond, then_b, else_b } => expr_lines_le(cond, hi) && stmt_lines_le(
            *then_b,
            hi,
        ) && stmt_lines_le(*else_b, hi),
        VStmt::While { cond, body } => expr_lines_le(cond, hi) && stmt_lines_le(*body, hi),
        VStmt::Block(ss) => stmts_lines_le(ss, hi),
        VStmt::Break => true,
        VStmt::Function { name, params, body } => stmts_lines_le(body, hi),
        VStmt::Null => true,
    }
}

/// Operator-line bounds for a list of statements.
pub open spec fn stmts_lines_le(ss: Seq<VStmt>, hi: nat) -> bool
    decreases ss, 0int,
{
    forall|i: int| 0 <= i < ss.len() ==> stmt_lines_le(#[trigger] ss[i], hi)
}

/// Shorthand for the largest line of a parser's stream.
pub open spec fn stream_max(p: Parser) -> nat {
    max_line(tokens_view(p.tokens@))
}

/// The parser: an owned token stream and a cursor into it.
#[derive(Debug)]
pub struct Parser {
    pub tokens: Vec<Token>,
    pub current: usize,
}

impl Parser {
    /// A usable parser: the cursor is inside the stream, the stream ends
    /// in exactly one `EOF` token, and every literal payload is well
    /// formed.
    pub open spec fn wf(self) -> bool {
        &&& self.current < self.tokens@.len()
        &&& eof_shape(tokens_view(self.tokens@))
        &&& toks_wf(tokens_view(self.tokens@))
        &&& toks_lines_pos(tokens_view(self.tokens@))
    }

    /// A parser at the start of the given token stream.
    pub fn new(tokens: &Vec<Token>) -> (p: Parser)
        requires
            eof_shape(tokens_view(tokens@)),
            toks_wf(tokens_view(tokens@)),
            toks_lines_pos(tokens_view(tokens@)),
        ensures
            p.wf(),
            tokens_view(p.tokens@) == tokens_view(tokens@),
            p.current == 0,
    {
        proof {
            assert(tokens_view(tokens@).len() >= 1);
        }
        Parser { tokens: crate::tokens::tokens_dup(tokens), current: 0 }
    }

    fn peek(&self) -> (t: &Token)
        requires
            self.wf(),
        ensures
            token_view(*t) == tokens_view(self.tokens@)[self.current as int],
    {
        proof {
            assert(tokens_view(self.tokens@)[self.current as int] == token_view(
                self.tokens@[self.current as int],
            ));
        }
        &self.tokens[self.current]
    }

    fn previous(&self) -> (t: &Token)
        requires
            self.wf(),
            self.current >= 1,
        ensures
            token_view(*t) == tokens_view(self.tokens@)[self.current - 1],
    {
        proof {
            assert(tokens_view(self.tokens@)[self.current - 1] == token_view(
                self.tokens@[self.current - 1],
            ));
        }
        &self.tokens[self.current - 1]
    }

    fn is_end(&self) -> (r: bool)
        requires
            self.wf(),
        ensures
            r == (self.current == self.tokens@.len() - 1),
    {
        proof {
            let ts = tokens_view(self.tokens@);
            assert(ts.last() == ts[ts.len() - 1]);
            assert(ts[self.current as int] == token_view(self.tokens@[self.current as int]));
        }
        self.tokens[self.current].token_type == TokenType::EOF
    }

    fn check(&self, t: TokenType) -> (r: bool)
        requires
            self.wf(),
        ensures
            r == (tokens_view(self.tokens@)[self.current as int].token_type == t && t
                != TokenType::EOF),
    {
        proof {
            let ts = tokens_view(self.tokens@);
            assert(ts.last() == ts[ts.len() - 1]);
            assert(ts[self.current as int] == token_view(self.tokens@[self.current as int]));
        }
        if self.is_end() {
            false
        } else {
            self.tokens[self.current].token_type == t
        }
    }

    fn advance(&mut self)
        requires
            old(self).wf(),
        ensures
            final(self).wf(),
            final(self).tokens@ == old(self).tokens@,
            old(self).current < old(self).tokens@.len() - 1 ==> final(self).current == old(self).current + 1,
            old(self).current == old(self).tokens@.len() - 1 ==> final(self).current == old(self).current,
    {
        if !self.is_end() {
            let n = self.tokens.len();
            self.current = self.current + 1;
        }
    }

    fn is_match1(&mut self, t: TokenType) -> (r: bool)
        requires
            old(self).wf(),
        ensures
            final(self).wf(),
            final(self).tokens@ == old(self).tokens@,
            r == (tokens_view(old(self).tokens@)[old(self).current as int].token_type == t && t
                != TokenType::EOF),
            r ==> final(self).current == old(self).current + 1,
            !r ==> final(self).current == old(self).current,
    {
        if self.check(t) {
            proof {
                let ts = tokens_view(self.tokens@);
                assert(ts.last() == ts[ts.len() - 1]);
            }
            self.advance();
            true
        } else {
            false
        }
    }

    fn is_match2(&mut self, t1: TokenType, t2: TokenType) -> (r: bool)
        requires
            old(self).wf(),
            t1 != TokenType::EOF,
            t2 != TokenType::EOF,
        ensures
            final(self).wf(),
            final(self).tokens@ == old(self).tokens@,
            ({
                let tt = tokens_view(old(self).tokens@)[old(self).current as int].token_type;
                r == (tt == t1 || tt == t2)
            }),
            r ==> final(self).current == old(self).current + 1,
            !r ==> final(self).current == old(self).current,
    {
        if self.is_match1(t1) {
            true
        } else {
            self.is_match1(t2)
        }
    }

    fn is_match4(&mut self, t1: TokenType, t2: TokenType, t3: TokenType, t4: TokenType) -> (r:
        bool)
        requires
            old(self).wf(),
            t1 != TokenType::EOF,
            t2 != TokenType::EOF,
            t3 != TokenType::EOF,
            t4 != TokenType::EOF,
        ensures
            final(self).wf(),
            final(self).tokens@ == old(self).tokens@,
            ({
                let tt = tokens_view(old(self).tokens@)[old(self).current as int].token_type;
                r == (tt == t1 || tt == t2 || tt == t3 || tt == t4)
            }),
            r ==> final(self).current == old(self).current + 1,
            !r ==> final(self).current == old(self).current,
    {
        if self.is_match2(t1, t2) {
            true
        } else {
            self.is_match2(t3, t4)
        }
    }

    /// Consumes a token of the expected kind, or reports a parse error
    /// with the given message and consumes nothing.
    fn consume(&mut self, t: TokenType, msg: &str) -> (r: Result<Token, MyError>)
        requires
            old(self).wf(),
        ensures
            final(self).wf(),
            final(self).tokens@ == old(self).tokens@,
            match r {
                Ok(tk) => {
                    &&& token_view(tk) == tokens_view(old(self).tokens@)[old(self).current as int]
                    &&& token_view(tk).token_type == t
                    &&& final(self).current == old(self).current + 1
                    &&& vtype_deep_wf(token_view(tk).literal)
                },
                Err(e) => {
                    &&& e@ == crate::errors::VErr::ParseError(msg@)
                    &&& final(self).current == old(self).current
                    &&& (tokens_view(old(self).tokens@)[old(self).current as int].token_type != t
                        || t == TokenType::EOF)
                },
            },
    {
        if self.check(t) {
            proof {
                let ts = tokens_view(self.tokens@);
                assert(ts.last() == ts[ts.len() - 1]);
            }
            let n = self.tokens.len();
            let tk = crate::tokens::token_dup(&self.tokens[self.current]);
            self.current = self.current + 1;
            Ok(tk)
        } else {
            Err(MyError::ParseError(String::from_str(msg)))
        }
    }
}

/// The kind of the token at position `i`, and `EOF` past either end of
/// the stream, so that the parse semantics below is total over positions.
pub open spec fn tok_at(ts: Seq<VToken>, i: int) -> TokenType {
    if 0 <= i < ts.len() {
        ts[i].token_type
    } else {
        TokenType::EOF
    }
}

// The parse semantics: one spec function per parse routine of the
// recursive descent, each taking the token stream and a cursor and
// returning the node derived there and the cursor just past it, or the
// error reported there.  Every routine consumes at least one token on
// success, so the position tests of the form `j <= i || j > ts.len()`,
// which discharge termination of this mutual recursion, never take
// their error branch on a position that a sub-derivation actually
// returns; each executable routine proves its result equal to its
// semantics here.

/// Derives a primary expression at `i`: a literal, a parenthesized
/// expression, or a variable name.
#[verifier::opaque]
pub open spec fn sp_primary(ts: Seq<VToken>, i: int) -> Result<(VExpr, int), VErr>
    decreases ts.len() - i, 0int,
{
    let tt = tok_at(ts, i);
    if tt == TokenType::FALSE {
        Ok((VExpr::Literal(VType::Bool(false)), i + 1))
    } else if tt == TokenType::TRUE {
        Ok((VExpr::Literal(VType::Bool(true)), i + 1))
    } else if tt == TokenType::NIL {
        Ok((VExpr::Literal(VType::Nil), i + 1))
    } else if tt == TokenType::NUMBER || tt == TokenType::STRING {
        Ok((VExpr::Literal(ts[i].literal), i + 1))
    } else if tt == TokenType::LeftParen {
        match sp_expression(ts, i + 1) {
            Err(e) => Err(e),
            Ok((e, j)) => if tok_at(ts, j) == TokenType::RightParen {
                Ok((VExpr::Grouping(Box::new(e)), j + 1))
            } else {
                Err(VErr::ParseError("Expect ')' after expression."@))
            },
        }
    } else if tt == TokenType::IDENTIFIER {
        Ok((VExpr::Var(ts[i]), i + 1))
    } else {
        Err(VErr::NotImplemented)
    }
}

/// Derives a call chain at `i`: a primary followed by argument lists.
#[verifier::opaque]
pub open spec fn sp_call(ts: Seq<VToken>, i: int) -> Result<(VExpr, int), VErr>
    decreases ts.len() - i, 1int,
{
    match sp_primary(ts, i) {
        Err(e) => Err(e),
        Ok((e, j)) => if j <= i || j > ts.len() {
            Err(VErr::NotImplemented)
        } else {
            sp_call_more(ts, j, e)
        },
    }
}

/// Extends `callee` with every argument list that follows at `i`.
#[verifier::opaque]
pub open spec fn sp_call_more(ts: Seq<VToken>, i: int, callee: VExpr) -> Result<(VExpr, int), VErr>
    decreases ts.len() - i, 13int,
{
    if tok_at(ts, i) == TokenType::LeftParen {
        match sp_finish_call(ts, i + 1, callee) {
            Err(e) => Err(e),
            Ok((e2, j)) => if j <= i || j > ts.len() {
                Err(VErr::NotImplemented)
            } else {
                sp_call_more(ts, j, e2)
            },
        }
    } else {
        Ok((callee, i))
    }
}

/// Derives the argument list at `i` (just past the opening `(`) and
/// builds the call node, whose `paren` is the closing parenthesis.
#[verifier::opaque]
pub open spec fn sp_finish_call(ts: Seq<VToken>, i: int, callee: VExpr) -> Result<
    (VExpr, int),
    VErr,
>
    decreases ts.len() - i, 12int,
{
    let ar = if tok_at(ts, i) == TokenType::RightParen {
        Ok((Seq::<VExpr>::empty(), i))
    } else {
        sp_args(ts, i, Seq::<VExpr>::empty())
    };
    match ar {
        Err(e) => Err(e),
        Ok((args, j)) => if tok_at(ts, j) == TokenType::RightParen {
            Ok((VExpr::Call { callee: Box::new(callee), paren: ts[j], args }, j + 1))
        } else {
            Err(VErr::ParseError("Expect ')' after arguments."@))
        },
    }
}

/// Derives the comma-separated arguments from `i` on, in source order,
/// after those already in `acc`; a 256th argument is `MaxArgumentNum`.
#[verifier::opaque]
pub open spec fn sp_args(ts: Seq<VToken>, i: int, acc: Seq<VExpr>) -> Result<
    (Seq<VExpr>, int),
    VErr,
>
    decreases ts.len() - i, 11int,
{
    if acc.len() >= MAX_ARG_NUM as nat {
        Err(VErr::MaxArgumentNum)
    } else {
        match sp_expression(ts, i) {
            Err(e) => Err(e),
            Ok((a, j)) => if tok_at(ts, j) == TokenType::COMMA {
                if j <= i || j > ts.len() {
                    Err(VErr::NotImplemented)
                } else {
                    sp_args(ts, j + 1, acc.push(a))
                }
            } else {
                Ok((acc.push(a), j))
            },
        }
    }
}

/// Derives a unary expression at `i`: `!` and `-` chains over a call.
#[verifier::opaque]
pub open spec fn sp_unary(ts: Seq<VToken>, i: int) -> Result<(VExpr, int), VErr>
    decreases ts.len() - i, 2int,
{
    let tt = tok_at(ts, i);
    if tt == TokenType::BANG || tt == TokenType::MINUS {
        match sp_unary(ts, i + 1) {
            Err(e) => Err(e),
            Ok((r, j)) => Ok((VExpr::Unary { op: ts[i], right: Box::new(r) }, j)),
        }
    } else {
        sp_call(ts, i)
    }
}

/// Derives a multiplication-level expression at `i`.
#[verifier::opaque]
pub open spec fn sp_factor(ts: Seq<VToken>, i: int) -> Result<(VExpr, int), VErr>
    decreases ts.len() - i, 3int,
{
    match sp_unary(ts, i) {
        Err(e) => Err(e),
        Ok((e, j)) => if j <= i || j > ts.len() {
            Err(VErr::NotImplemented)
        } else {
            sp_factor_more(ts, j, e)
        },
    }
}

/// Folds each further `/` or `*` operand onto `left`: the left fold
/// that makes these operators left-associative.
#[verifier::opaque]
pub open spec fn sp_factor_more(ts: Seq<VToken>, i: int, left: VExpr) -> Result<(VExpr, int), VErr>
    decreases ts.len() - i, 13int,
{
    let tt = tok_at(ts, i);
    if tt == TokenType::SLASH || tt == TokenType::STAR {
        match sp_unary(ts, i + 1) {
            Err(e) => Err(e),
            Ok((r, j)) => {
                let node = VExpr::Binary { left: Box::new(left), op: ts[i], right: Box::new(r) };
                if j <= i || j > ts.len() {
                    Err(VErr::NotImplemented)
                } else {
                    sp_factor_more(ts, j, node)
                }
            },
        }
    } else {
        Ok((left, i))
    }
}

/// Derives an addition-level expression at `i`.
#[verifier::opaque]
pub open spec fn sp_term(ts: Seq<VToken>, i: int) -> Result<(VExpr, int), VErr>
    decreases ts.len() - i, 4int,
{
    match sp_factor(ts, i) {
        Err(e) => Err(e),
        Ok((e, j)) => if j <= i || j > ts.len() {
            Err(VErr::NotImplemented)
        } else {
            sp_term_more(ts, j, e)
        },
    }
}

/// Folds each further `-` or `+` operand onto `left`, left-associatively.
#[verifier::opaque]
pub open spec fn sp_term_more(ts: Seq<VToken>, i: int, left: VExpr) -> Result<(VExpr, int), VErr>
    decreases ts.len() - i, 13int,
{
    let tt = tok_at(ts, i);
    if tt == TokenType::MINUS || tt == TokenType::PLUS {
        match sp_factor(ts, i + 1) {
            Err(e) => Err(e),
            Ok((r, j)) => {
                let node = VExpr::Binary { left: Box::new(left), op: ts[i], right: Box::new(r) };
                if j <= i || j > ts.len() {
                    Err(VErr::NotImplemented)
                } else {
                    sp_term_more(ts, j, node)
                }
            },
        }
    } else {
        Ok((left, i))
    }
}

/// Derives a comparison-level expression at `i`.
#[verifier::opaque]
pub open spec fn sp_comparison(ts: Seq<VToken>, i: int) -> Result<(VExpr, int), VErr>
    decreases ts.len() - i, 5int,
{
    match sp_term(ts, i) {
        Err(e) => Err(e),
        Ok((e, j)) => if j <= i || j > ts.len() {
            Err(VErr::NotImplemented)
        } else {
            sp_comparison_more(ts, j, e)
        },
    }
}

/// Folds each further ordering operand onto `left`, left-associatively.
#[verifier::opaque]
pub open spec fn sp_comparison_more(ts: Seq<VToken>, i: int, left: VExpr) -> Result<
    (VExpr, int),
    VErr,
>
    decreases ts.len() - i, 13int,
{
    let tt = tok_at(ts, i);
    if tt == TokenType::GREATER || tt == TokenType::GreaterEqual || tt == TokenType::LESS || tt
        == TokenType::LessEqual {
        match sp_term(ts, i + 1) {
            Err(e) => Err(e),
            Ok((r, j)) => {
                let node = VExpr::Binary { left: Box::new(left), op: ts[i], right: Box::new(r) };
                if j <= i || j > ts.len() {
                    Err(VErr::NotImplemented)
                } else {
                    sp_comparison_more(ts, j, node)
                }
            },
        }
    } else {
        Ok((left, i))
    }
}

/// Derives an equality-level expression at `i`.
#[verifier::opaque]
pub open spec fn sp_equality(ts: Seq<VToken>, i: int) -> Result<(VExpr, int), VErr>
    decreases ts.len() - i, 6int,
{
    match sp_comparison(ts, i) {
        Err(e) => Err(e),
        Ok((e, j)) => if j <= i || j > ts.len() {
            Err(VErr::NotImplemented)
        } else {
            sp_equality_more(ts, j, e)
        },
    }
}

/// Folds each further `!=` or `==` operand onto `left`, left-associatively.
#[verifier::opaque]
pub open spec fn sp_equality_more(ts: Seq<VToken>, i: int, left: VExpr) -> Result<
    (VExpr, int),
    VErr,
>
    decreases ts.len() - i, 13int,
{
    let tt = tok_at(ts, i);
    if tt == TokenType::BangEqual || tt == TokenType::EqualEqual {
        match sp_comparison(ts, i + 1) {
            Err(e) => Err(e),
            Ok((r, j)) => {
                let node = VExpr::Binary { left: Box::new(left), op: ts[i], right: Box::new(r) };
                if j <= i || j > ts.len() {
                    Err(VErr::NotImplemented)
                } else {
                    sp_equality_more(ts, j, node)
                }
            },
        }
    } else {
        Ok((left, i))
    }
}

/// Derives a conjunction at `i`.
#[verifier::opaque]
pub open spec fn sp_and(ts: Seq<VToken>, i: int) -> Result<(VExpr, int), VErr>
    decreases ts.len() - i, 7int,
{
    match sp_equality(ts, i) {
        Err(e) => Err(e),
        Ok((e, j)) => if j <= i || j > ts.len() {
            Err(VErr::NotImplemented)
        } else {
            sp_and_more(ts, j, e)
        },
    }
}

/// Folds each further `and` operand onto `left`, left-associatively.
#[verifier::opaque]
pub open spec fn sp_and_more(ts: Seq<VToken>, i: int, left: VExpr) -> Result<(VExpr, int), VErr>
    decreases ts.len() - i, 13int,
{
    if tok_at(ts, i) == TokenType::AND {
        match sp_equality(ts, i + 1) {
            Err(e) => Err(e),
            Ok((r, j)) => {
                let node = VExpr::Logical { left: Box::new(left), op: ts[i], right: Box::new(r) };
                if j <= i || j > ts.len() {
                    Err(VErr::NotImplemented)
                } else {
                    sp_and_more(ts, j, node)
                }
            },
        }
    } else {
        Ok((left, i))
    }
}

/// Derives a disjunction at `i`.
#[verifier::opaque]
pub open spec fn sp_or(ts: Seq<VToken>, i: int) -> Result<(VExpr, int), VErr>
    decreases ts.len() - i, 8int,
{
    match sp_and(ts, i) {
        Err(e) => Err(e),
        Ok((e, j)) => if j <= i || j > ts.len() {
            Err(VErr::NotImplemented)
        } else {
            sp_or_more(ts, j, e)
        },
    }
}

/// Folds each further `or` operand onto `left`, left-associatively.
#[verifier::opaque]
pub open spec fn sp_or_more(ts: Seq<VToken>, i: int, left: VExpr) -> Result<(VExpr, int), VErr>
    decreases ts.len() - i, 13int,
{
    if tok_at(ts, i) == TokenType::OR {
        match sp_and(ts, i + 1) {
            Err(e) => Err(e),
            Ok((r, j)) => {
                let node = VExpr::Logical { left: Box::new(left), op: ts[i], right: Box::new(r) };
                if j <= i || j > ts.len() {
                    Err(VErr::NotImplemented)
                } else {
                    sp_or_more(ts, j, node)
                }
            },
        }
    } else {
        Ok((left, i))
    }
}

/// Derives an assignment at `i`: right-associative, and only a bare
/// variable may stand left of `=`; any other target is
/// `InvalidAssignmentTarget` with the `=` token's lexeme.
#[verifier::opaque]
pub open spec fn sp_assignment(ts: Seq<VToken>, i: int) -> Result<(VExpr, int), VErr>
    decreases ts.len() - i, 9int,
{
    match sp_or(ts, i) {
        Err(e) => Err(e),
        Ok((e1, j)) => if tok_at(ts, j) == TokenType::EQUAL {
            let vr = if j <= i || j > ts.len() {
                Err(VErr::NotImplemented)
            } else {
                sp_assignment(ts, j + 1)
            };
            match vr {
                Err(e) => Err(e),
                Ok((v, k)) => match e1 {
                    VExpr::Var(t) => Ok((VExpr::Assign { name: t, value: Box::new(v) }, k)),
                    _ => Err(VErr::InvalidAssignmentTarget(ts[j].lexeme)),
                },
            }
        } else {
            Ok((e1, j))
        },
    }
}

/// Derives an expression at `i`: the grammar's lowest precedence level.
#[verifier::opaque]
pub open spec fn sp_expression(ts: Seq<VToken>, i: int) -> Result<(VExpr, int), VErr>
    decreases ts.len() - i, 10int,
{
    sp_assignment(ts, i)
}

/// Derives an expression statement at `i`.
#[verifier::opaque]
pub open spec fn sp_expr_stmt(ts: Seq<VToken>, i: int) -> Result<(VStmt, int), VErr>
    decreases ts.len() - i, 14int,
{
    match sp_expression(ts, i) {
        Err(e) => Err(e),
        Ok((e, j)) => if tok_at(ts, j) == TokenType::SEMICOLON {
            Ok((VStmt::Expr(e), j + 1))
        } else {
            Err(VErr::ParseError("Expect ';' after value"@))
        },
    }
}

/// Derives a print statement at `i` (just past `print`).
#[verifier::opaque]
pub open spec fn sp_print_stmt(ts: Seq<VToken>, i: int) -> Result<(VStmt, int), VErr>
    decreases ts.len() - i, 18int,
{
    match sp_expression(ts, i) {
        Err(e) => Err(e),
        Ok((e, j)) => if tok_at(ts, j) == TokenType::SEMICOLON {
            Ok((VStmt::Print(e), j + 1))
        } else {
            Err(VErr::ParseError("Expect ';' after value"@))
        },
    }
}

/// Derives a break statement at `i` (just past `break`).
#[verifier::opaque]
pub open spec fn sp_break_stmt(ts: Seq<VToken>, i: int) -> Result<(VStmt, int), VErr> {
    if tok_at(ts, i) == TokenType::SEMICOLON {
        Ok((VStmt::Break, i + 1))
    } else {
        Err(VErr::ParseError("Expect ';' after break."@))
    }
}

/// Derives an if statement at `i` (just past `if`); a missing `else`
/// branch is the empty statement.
#[verifier::opaque]
pub open spec fn sp_if_stmt(ts: Seq<VToken>, i: int) -> Result<(VStmt, int), VErr>
    decreases ts.len() - i, 18int,
{
    if tok_at(ts, i) != TokenType::LeftParen {
        Err(VErr::ParseError("Expect '(' after 'if'."@))
    } else {
        match sp_expression(ts, i + 1) {
            Err(e) => Err(e),
            Ok((cond, j)) => if tok_at(ts, j) != TokenType::RightParen {
                Err(VErr::ParseError("Expect ')' after if condition."@))
            } else {
                let tr = if j + 1 <= i || j + 1 > ts.len() {
                    Err(VErr::NotImplemented)
                } else {
                    sp_statement(ts, j + 1)
                };
                match tr {
                    Err(e) => Err(e),
                    Ok((then_b, k)) => if tok_at(ts, k) == TokenType::ELSE {
                        let er = if k + 1 <= i || k + 1 > ts.len() {
                            Err(VErr::NotImplemented)
                        } else {
                            sp_statement(ts, k + 1)
                        };
                        match er {
                            Err(e) => Err(e),
                            Ok((else_b, m)) => Ok(
                                (
                                    VStmt::If {
                                        cond,
                                        then_b: Box::new(then_b),
                                        else_b: Box::new(else_b),
                                    },
                                    m,
                                ),
                            ),
                        }
                    } else {
                        Ok(
                            (
                                VStmt::If {
                                    cond,
                                    then_b: Box::new(then_b),
                                    else_b: Box::new(VStmt::Null),
                                },
                                k,
                            ),
                        )
                    },
                }
            },
        }
    }
}

/// Derives a while statement at `i` (just past `while`).
#[verifier::opaque]
pub open spec fn sp_while_stmt(ts: Seq<VToken>, i: int) -> Result<(VStmt, int), VErr>
    decreases ts.len() - i, 18int,
{
    if tok_at(ts, i) != TokenType::LeftParen {
        Err(VErr::ParseError("Expect '(' after while."@))
    } else {
        match sp_expression(ts, i + 1) {
            Err(e) => Err(e),
            Ok((cond, j)) => if tok_at(ts, j) != TokenType::RightParen {
                Err(VErr::ParseError("Expect ')' after if condition."@))
            } else {
                let br = if j + 1 <= i || j + 1 > ts.len() {
                    Err(VErr::NotImplemented)
                } else {
                    sp_statement(ts, j + 1)
                };
                match br {
                    Err(e) => Err(e),
                    Ok((body, k)) => Ok((VStmt::While { cond, body: Box::new(body) }, k)),
                }
            },
        }
    }
}

/// Derives a for statement at `i` (just past `for`) in its desugared
/// form: an optional initializer before a while loop whose body ends
/// with the optional increment; an absent condition becomes `true`, and
/// absent clauses are elided rather than wrapped in empty nodes.
#[verifier::opaque]
pub open spec fn sp_for_stmt(ts: Seq<VToken>, i: int) -> Result<(VStmt, int), VErr>
    decreases ts.len() - i, 18int,
{
    if tok_at(ts, i) != TokenType::LeftParen {
        Err(VErr::ParseError("Expect '(' after 'for'."@))
    } else {
        let ir = if tok_at(ts, i + 1) == TokenType::SEMICOLON {
            Ok((VStmt::Null, i + 2))
        } else if tok_at(ts, i + 1) == TokenType::VAR {
            sp_var_decl(ts, i + 2)
        } else {
            sp_statement(ts, i + 1)
        };
        match ir {
            Err(e) => Err(e),
            Ok((init, j1)) => {
                let cr = if tok_at(ts, j1) == TokenType::SEMICOLON {
                    Ok((VExpr::Null, j1))
                } else if j1 <= i || j1 > ts.len() {
                    Err(VErr::NotImplemented)
                } else {
                    sp_expression(ts, j1)
                };
                match cr {
                    Err(e) => Err(e),
                    Ok((cond, j2)) => if tok_at(ts, j2) != TokenType::SEMICOLON {
                        Err(VErr::ParseError("Expect ';' after loop condition."@))
                    } else {
                        let nr = if tok_at(ts, j2 + 1) == TokenType::RightParen {
                            Ok((VExpr::Null, j2 + 1))
                        } else if j2 + 1 <= i || j2 + 1 > ts.len() {
                            Err(VErr::NotImplemented)
                        } else {
                            sp_expression(ts, j2 + 1)
                        };
                        match nr {
                            Err(e) => Err(e),
                            Ok((inc, j3)) => if tok_at(ts, j3) != TokenType::RightParen {
                                Err(VErr::ParseError("Expect ')' after for clauses."@))
                            } else {
                                let br = if j3 + 1 <= i || j3 + 1 > ts.len() {
                                    Err(VErr::NotImplemented)
                                } else {
                                    sp_statement(ts, j3 + 1)
                                };
                                match br {
                                    Err(e) => Err(e),
                                    Ok((body, j4)) => {
                                        let body1 = if inc is Null {
                                            body
                                        } else {
                                            VStmt::Block(seq![body, VStmt::Expr(inc)])
                                        };
                                        let cond1 = if cond is Null {
                                            VExpr::Literal(VType::Bool(true))
                                        } else {
                                            cond
                                        };
                                        let w = VStmt::While { cond: cond1, body: Box::new(body1) };
                                        if init is Null {
                                            Ok((w, j4))
                                        } else {
                                            Ok((VStmt::Block(seq![init, w]), j4))
                                        }
                                    },
                                }
                            },
                        }
                    },
                }
            },
        }
    }
}

/// Derives the declarations of a block from `i` up to its closing
/// brace, after those already in `acc`.
#[verifier::opaque]
pub open spec fn sp_block_items(ts: Seq<VToken>, i: int, acc: Seq<VStmt>) -> Result<
    (Seq<VStmt>, int),
    VErr,
>
    decreases ts.len() - i, 17int,
{
    if tok_at(ts, i) == TokenType::RightBrace {
        Ok((acc, i + 1))
    } else if tok_at(ts, i) == TokenType::EOF {
        Err(VErr::ParseError("Expected '}' after block."@))
    } else {
        match sp_declaration(ts, i) {
            Err(e) => Err(e),
            Ok((s, j)) => if j <= i || j > ts.len() {
                Err(VErr::NotImplemented)
            } else {
                sp_block_items(ts, j, acc.push(s))
            },
        }
    }
}

/// Derives a block statement at `i` (just past `{`).
#[verifier::opaque]
pub open spec fn sp_block_stmt(ts: Seq<VToken>, i: int) -> Result<(VStmt, int), VErr>
    decreases ts.len() - i, 18int,
{
    match sp_block_items(ts, i, Seq::<VStmt>::empty()) {
        Err(e) => Err(e),
        Ok((ss, j)) => Ok((VStmt::Block(ss), j)),
    }
}

/// Derives a variable declaration at `i` (just past `var`); a missing
/// initializer is the empty expression.
#[verifier::opaque]
pub open spec fn sp_var_decl(ts: Seq<VToken>, i: int) -> Result<(VStmt, int), VErr>
    decreases ts.len() - i, 18int,
{
    if tok_at(ts, i) != TokenType::IDENTIFIER {
        Err(VErr::ParseError("Expected variable name."@))
    } else {
        let name = ts[i];
        let ir = if tok_at(ts, i + 1) == TokenType::EQUAL {
            sp_expression(ts, i + 2)
        } else {
            Ok((VExpr::Null, i + 1))
        };
        match ir {
            Err(e) => Err(e),
            Ok((init, j)) => if tok_at(ts, j) == TokenType::SEMICOLON {
                Ok((VStmt::Var { name, init }, j + 1))
            } else {
                Err(VErr::ParseError("Expected ';' after variable declaration."@))
            },
        }
    }
}

/// Derives the comma-separated parameter names from `i` on, after those
/// already in `acc`; a 256th parameter is `MaxArgumentNum`.
#[verifier::opaque]
pub open spec fn sp_params(ts: Seq<VToken>, i: int, acc: Seq<VToken>) -> Result<
    (Seq<VToken>, int),
    VErr,
>
    decreases ts.len() - i, 13int,
{
    if acc.len() >= MAX_ARG_NUM as nat {
        Err(VErr::MaxArgumentNum)
    } else if tok_at(ts, i) != TokenType::IDENTIFIER {
        Err(VErr::ParseError("Expect parameter name."@))
    } else {
        let acc2 = acc.push(ts[i]);
        if tok_at(ts, i + 1) == TokenType::COMMA {
            sp_params(ts, i + 2, acc2)
        } else {
            Ok((acc2, i + 1))
        }
    }
}

/// Derives a function declaration at `i` (just past `fun`): its name,
/// its parameter names in order, and its body block's statements.
#[verifier::opaque]
pub open spec fn sp_function_decl(ts: Seq<VToken>, i: int) -> Result<(VStmt, int), VErr>
    decreases ts.len() - i, 18int,
{
    if tok_at(ts, i) != TokenType::IDENTIFIER {
        Err(VErr::ParseError("Expecet function name."@))
    } else if tok_at(ts, i + 1) != TokenType::LeftParen {
        Err(VErr::ParseError("Expect '(' after function name."@))
    } else {
        let name = ts[i];
        let pr = if tok_at(ts, i + 2) == TokenType::RightParen {
            Ok((Seq::<VToken>::empty(), i + 2))
        } else {
            sp_params(ts, i + 2, Seq::<VToken>::empty())
        };
        match pr {
            Err(e) => Err(e),
            Ok((params, j)) => if tok_at(ts, j) != TokenType::RightParen {
                Err(VErr::ParseError("Expect ')' after parameters."@))
            } else if tok_at(ts, j + 1) != TokenType::LeftBrace {
                Err(VErr::ParseError("Expect '{' before function body."@))
            } else {
                let br = if j + 2 <= i || j + 2 > ts.len() {
                    Err(VErr::NotImplemented)
                } else {
                    sp_block_items(ts, j + 2, Seq::<VStmt>::empty())
                };
                match br {
                    Err(e) => Err(e),
                    Ok((body, k)) => Ok((VStmt::Function { name, params, body }, k)),
                }
            },
        }
    }
}

/// Derives one statement at `i`.
#[verifier::opaque]
pub open spec fn sp_statement(ts: Seq<VToken>, i: int) -> Result<(VStmt, int), VErr>
    decreases ts.len() - i, 15int,
{
    let tt = tok_at(ts, i);
    if tt == TokenType::IF {
        sp_if_stmt(ts, i + 1)
    } else if tt == TokenType::PRINT {
        sp_print_stmt(ts, i + 1)
    } else if tt == TokenType::WHILE {
        sp_while_stmt(ts, i + 1)
    } else if tt == TokenType::FOR {
        sp_for_stmt(ts, i + 1)
    } else if tt == TokenType::LeftBrace {
        sp_block_stmt(ts, i + 1)
    } else if tt == TokenType::BREAK {
        sp_break_stmt(ts, i + 1)
    } else {
        sp_expr_stmt(ts, i)
    }
}

/// Derives one declaration at `i`: a function, a variable, or a statement.
#[verifier::opaque]
pub open spec fn sp_declaration(ts: Seq<VToken>, i: int) -> Result<(VStmt, int), VErr>
    decreases ts.len() - i, 16int,
{
    if tok_at(ts, i) == TokenType::FUN {
        sp_function_decl(ts, i + 1)
    } else if tok_at(ts, i) == TokenType::VAR {
        sp_var_decl(ts, i + 1)
    } else {
        sp_statement(ts, i)
    }
}

/// Derives the top-level declarations from `i` to the end of the
/// stream, after those already in `acc`, one per declaration in source
/// order.
#[verifier::opaque]
pub open spec fn sp_prog_items(ts: Seq<VToken>, i: int, acc: Seq<VStmt>) -> Result<
    Seq<VStmt>,
    VErr,
>
    decreases ts.len() - i, 19int,
{
    if tok_at(ts, i) == TokenType::EOF {
        Ok(acc)
    } else {
        match sp_declaration(ts, i) {
            Err(e) => Err(e),
            Ok((s, j)) => if j <= i || j > ts.len() {
                Err(VErr::NotImplemented)
            } else {
                sp_prog_items(ts, j, acc.push(s))
            },
        }
    }
}

/// The parse semantics of a whole token stream: the statement list that
/// a parser at its start derives, or the first error it reports.
pub open spec fn parse_program(ts: Seq<VToken>) -> Result<Seq<VStmt>, VErr> {
    sp_prog_items(ts, 0, Seq::<VStmt>::empty())
}


impl Parser {
    /// Parses a whole program: declarations up to the end of the stream.
    /// A successful parse is a deeply well-formed statement list, ready
    /// for the evaluator.
    #[verifier::rlimit(100)]
    #[verifier::spinoff_prover]
    pub fn parse(&mut self) -> (r: Result<Vec<Stmt>, MyError>)
        requires
            old(self).wf(),
        ensures
            final(self).wf(),
            final(self).tokens@ == old(self).tokens@,
            r matches Ok(v) ==> stmts_deep_wf(stmts_view(v@)) && stmts_lines_le(
                stmts_view(v@),
                stream_max(*old(self)),
            ),
            ({
                let rr = sp_prog_items(
                    tokens_view(old(self).tokens@),
                    old(self).current as int,
                    Seq::<VStmt>::empty(),
                );
                match r {
                    Ok(v) => rr matches Ok(ss) && ss == stmts_view(v@),
                    Err(err) => rr matches Err(ee) && ee == err@,
                }
            }),
    {
        proof {
            reveal_with_fuel(sp_prog_items, 1);
        }
        let ghost ts0 = tokens_view(old(self).tokens@);
        let ghost c0 = old(self).current as int;
        let mut statements: Vec<Stmt> = Vec::new();
        proof {
            assert(stmts_view(statements@) =~= Seq::<VStmt>::empty());
        }
        loop
            invariant
                self.wf(),
                self.tokens@ == old(self).tokens@,
                old(self).current <= self.current,
                stmts_deep_wf(stmts_view(statements@)),
                stmts_lines_le(stmts_view(statements@), stream_max(*old(self))),
                ts0 == tokens_view(old(self).tokens@),
                c0 == old(self).current as int,
                sp_prog_items(ts0, c0, Seq::<VStmt>::empty()) == sp_prog_items(
                    ts0,
                    self.current as int,
                    stmts_view(statements@),
                ),
            decreases self.tokens@.len() - self.current, 23int,
        {
            let ghost c_head = self.current as int;
            let ghost sv_head = stmts_view(statements@);
            if self.is_end() {
                proof {
                    reveal_with_fuel(sp_prog_items, 1);
                    assert(ts0.last() == ts0[ts0.len() - 1]);
                    assert(tok_at(ts0, c_head) == TokenType::EOF);
                }
                return Ok(statements);
            }
            proof {
                reveal_with_fuel(sp_prog_items, 1);
                assert(tok_at(ts0, c_head) != TokenType::EOF);
            }
            match self.declaration() {
                Ok(st) => {
                    let ghost pre = statements@;
                    statements.push(st);
                    proof {
                        assert(stmts_view(statements@) =~= sv_head.push(
                            stmt_view(statements@.last()),
                        ));
                        assert(sp_prog_items(ts0, c_head, sv_head) == sp_prog_items(
                            ts0,
                            self.current as int,
                            stmts_view(statements@),
                        ));
                    }
                    proof {
                        assert forall|i: int|
                            0 <= i < stmts_view(statements@).len() implies stmt_deep_wf(
                            #[trigger] stmts_view(statements@)[i],
                        ) by {
                            if i < pre.len() {
                                assert(stmts_view(statements@)[i] == stmts_view(pre)[i]);
                            } else {
                                assert(stmts_view(statements@)[i] == stmt_view(
                                    statements@[i],
                                ));
                            }
                        }
                        assert forall|i: int|
                            0 <= i < stmts_view(statements@).len() implies stmt_lines_le(
                            #[trigger] stmts_view(statements@)[i],
                            stream_max(*old(self)),
                        ) by {
                            if i < pre.len() {
                                assert(stmts_view(statements@)[i] == stmts_view(pre)[i]);
                            } else {
                                assert(stmts_view(statements@)[i] == stmt_view(
                                    statements@[i],
                                ));
                            }
                        }
                    }
                },
                Err(e) => {
                    return Err(e);
                },
            }
        }
    }

    #[verifier::rlimit(100)]
    #[verifier::spinoff_prover]
    fn declaration(&mut self) -> (r: Result<Stmt, MyError>)
        requires
            old(self).wf(),
        ensures
            final(self).wf(),
            final(self).tokens@ == old(self).tokens@,
            old(self).current <= final(self).current,
            r matches Ok(s) ==> stmt_deep_wf(stmt_view(s)) && stmt_lines_le(
                stmt_view(s),
                stream_max(*old(self)),
            ) && old(self).current < final(self).current,
            ({
                let rr = sp_declaration(tokens_view(old(self).tokens@), old(self).current as int);
                match r {
                    Ok(s) => rr matches Ok(p) && p == (stmt_view(s), final(self).current as int),
                    Err(err) => rr matches Err(ee) && ee == err@,
                }
            }),
        decreases self.tokens@.len() - self.current, 20int,
    {
        proof {
            reveal_with_fuel(sp_declaration, 1);
        }
        if self.is_match1(TokenType::FUN) {
            self.function()
        } else if self.is_match1(TokenType::VAR) {
            self.var_declaration()
        } else {
            self.statement()
        }
    }

    #[verifier::rlimit(100)]
    #[verifier::spinoff_prover]
    fn function(&mut self) -> (r: Result<Stmt, MyError>)
        requires
            old(self).wf(),
        ensures
            final(self).wf(),
            final(self).tokens@ == old(self).tokens@,
            old(self).current <= final(self).current,
            r matches Ok(s) ==> stmt_deep_wf(stmt_view(s)) && stmt_lines_le(
                stmt_view(s),
                stream_max(*old(self)),
            ),
            ({
                let rr = sp_function_decl(tokens_view(old(self).tokens@), old(self).current as int);
                match r {
                    Ok(s) => rr matches Ok(p) && p == (stmt_view(s), final(self).current as int),
                    Err(err) => rr matches Err(ee) && ee == err@,
                }
            }),
        decreases self.tokens@.len() - self.current, 19int,
    {
        proof {
            reveal_with_fuel(sp_function_decl, 1);
            reveal_with_fuel(sp_params, 1);
            reveal_with_fuel(sp_block_stmt, 1);
        }
        let name = match self.consume(TokenType::IDENTIFIER, "Expecet function name.") {
            Ok(t) => t,
            Err(e) => {
                return Err(e);
            },
        };
        match self.consume(TokenType::LeftParen, "Expect '(' after function name.") {
            Ok(u) => {},
            Err(e) => {
                return Err(e);
            },
        }
        let ghost ts0 = tokens_view(old(self).tokens@);
        let ghost c0 = old(self).current as int;
        let ghost p0 = self.current as int;
        let mut params: Vec<Token> = Vec::new();
        proof {
            assert(tokens_view(params@) =~= Seq::<VToken>::empty());
        }
        if !self.check(TokenType::RightParen) {
            loop
                invariant_except_break
                    sp_params(ts0, p0, Seq::<VToken>::empty()) == sp_params(
                        ts0,
                        self.current as int,
                        tokens_view(params@),
                    ),
                invariant
                    self.wf(),
                    self.tokens@ == old(self).tokens@,
                    old(self).current <= self.current,
                    ts0 == tokens_view(old(self).tokens@),
                    c0 == old(self).current as int,
                    p0 == c0 + 2,
                    p0 <= self.current as int,
                    tok_at(ts0, c0) == TokenType::IDENTIFIER,
                    tok_at(ts0, c0 + 1) == TokenType::LeftParen,
                    tok_at(ts0, p0) != TokenType::RightParen,
                ensures
                    self.wf(),
                    self.tokens@ == old(self).tokens@,
                    old(self).current <= self.current,
                    sp_params(ts0, p0, Seq::<VToken>::empty()) matches Ok(p) && p == (
                        tokens_view(params@),
                        self.current as int,
                    ),
                decreases self.tokens@.len() - self.current, 21int,
            {
                let ghost c_head = self.current as int;
                let ghost pv_head = tokens_view(params@);
                proof {
                    reveal_with_fuel(sp_function_decl, 1);
                    reveal_with_fuel(sp_params, 1);
                }
                if params.len() >= MAX_ARG_NUM {
                    return Err(MyError::MaxArgumentNumError);
                }
                match self.consume(TokenType::IDENTIFIER, "Expect parameter name.") {
                    Ok(t) => {
                        params.push(t);
                        proof {
                            assert(tokens_view(params@) =~= pv_head.push(
                                token_view(params@.last()),
                            ));
                        }
                    },
                    Err(e) => {
                        return Err(e);
                    },
                }
                let more = self.is_match1(TokenType::COMMA);
                proof {
                    if more {
                        assert(sp_params(ts0, c_head, pv_head) == sp_params(
                            ts0,
                            self.current as int,
                            tokens_view(params@),
                        ));
                    } else {
                        assert(sp_params(ts0, c_head, pv_head) == Ok::<(Seq<VToken>, int), VErr>(
                            (tokens_view(params@), self.current as int),
                        ));
                    }
                }
                if !more {
                    break;
                }
            }
        }
        proof {
            reveal_with_fuel(sp_params, 1);
        }
        match self.consume(TokenType::RightParen, "Expect ')' after parameters.") {
            Ok(u) => {},
            Err(e) => {
                return Err(e);
            },
        }
        match self.consume(TokenType::LeftBrace, "Expect '{' before function body.") {
            Ok(u) => {},
            Err(e) => {
                return Err(e);
            },
        }
        let body = match self.block_stmt() {
            Ok(st) => st,
            Err(e) => {
                return Err(e);
            },
        };
        match body {
            Stmt::Block(v) => {
                proof {
                    reveal_with_fuel(stmt_lines_le, 2);
                    reveal_with_fuel(stmt_deep_wf, 2);
                    assert(stmts_deep_wf(stmts_view(v@)));
                    assert(stmts_lines_le(stmts_view(v@), stream_max(*old(self))));
                }
                let s = Stmt::Function { name, params, body: v };
                proof {
                    reveal_with_fuel(stmt_lines_le, 2);
                    reveal_with_fuel(stmt_deep_wf, 2);
                    assert(stmt_deep_wf(stmt_view(s)));
                    assert(stmt_lines_le(stmt_view(s), stream_max(*old(self))));
                }
                Ok(s)
            },
            _ => Err(MyError::ParseError(String::from_str("Expect function body block."))),
        }
    }

    #[verifier::rlimit(100)]
    #[verifier::spinoff_prover]
    fn var_declaration(&mut self) -> (r: Result<Stmt, MyError>)
        requires
            old(self).wf(),
        ensures
            final(self).wf(),
            final(self).tokens@ == old(self).tokens@,
            old(self).current <= final(self).current,
            r matches Ok(s) ==> stmt_deep_wf(stmt_view(s)) && stmt_lines_le(
                stmt_view(s),
                stream_max(*old(self)),
            ),
            ({
                let rr = sp_var_decl(tokens_view(old(self).tokens@), old(self).current as int);
                match r {
                    Ok(s) => rr matches Ok(p) && p == (stmt_view(s), final(self).current as int),
                    Err(err) => rr matches Err(ee) && ee == err@,
                }
            }),
        decreases self.tokens@.len() - self.current, 18int,
    {
        proof {
            reveal_with_fuel(sp_var_decl, 1);
        }
        let name = match self.consume(TokenType::IDENTIFIER, "Expected variable name.") {
            Ok(t) => t,
            Err(e) => {
                return Err(e);
            },
        };
        let initializer = if self.is_match1(TokenType::EQUAL) {
            match self.expression() {
                Ok(e) => e,
                Err(e) => {
                    return Err(e);
                },
            }
        } else {
            proof {
                reveal_with_fuel(expr_lines_le, 2);
                assert(expr_deep_wf(expr_view(Expr::Null)));
                assert(expr_lines_le(expr_view(Expr::Null), stream_max(*old(self))));
            }
            Expr::Null
        };
        match self.consume(TokenType::SEMICOLON, "Expected ';' after variable declaration.") {
            Ok(u) => {},
            Err(e) => {
                return Err(e);
            },
        }
        let s = Stmt::VarStmt { name, initializer };
        proof {
            reveal_with_fuel(stmt_lines_le, 2);
            assert(stmt_deep_wf(stmt_view(s)));
            assert(stmt_lines_le(stmt_view(s), stream_max(*old(self))));
        }
        Ok(s)
    }

    #[verifier::rlimit(100)]
    #[verifier::spinoff_prover]
    fn statement(&mut self) -> (r: Result<Stmt, MyError>)
        requires
            old(self).wf(),
        ensures
            final(self).wf(),
            final(self).tokens@ == old(self).tokens@,
            old(self).current <= final(self).current,
            r matches Ok(s) ==> stmt_deep_wf(stmt_view(s)) && stmt_lines_le(
                stmt_view(s),
                stream_max(*old(self)),
            ) && old(self).current < final(self).current,
            ({
                let rr = sp_statement(tokens_view(old(self).tokens@), old(self).current as int);
                match r {
                    Ok(s) => rr matches Ok(p) && p == (stmt_view(s), final(self).current as int),
                    Err(err) => rr matches Err(ee) && ee == err@,
                }
            }),
        decreases self.tokens@.len() - self.current, 17int,
    {
        proof {
            reveal_with_fuel(sp_statement, 1);
        }
        if self.is_match1(TokenType::IF) {
            self.if_stmt()
        } else if self.is_match1(TokenType::PRINT) {
            self.print_stmt()
        } else if self.is_match1(TokenType::WHILE) {
            self.while_stmt()
        } else if self.is_match1(TokenType::FOR) {
            self.for_stmt()
        } else if self.is_match1(TokenType::LeftBrace) {
            self.block_stmt()
        } else if self.is_match1(TokenType::BREAK) {
            self.break_stmt()
        } else {
            self.expr_stmt()
        }
    }

    #[verifier::rlimit(100)]
    #[verifier::spinoff_prover]
    fn break_stmt(&mut self) -> (r: Result<Stmt, MyError>)
        requires
            old(self).wf(),
        ensures
            final(self).wf(),
            final(self).tokens@ == old(self).tokens@,
            old(self).current <= final(self).current,
            r matches Ok(s) ==> stmt_deep_wf(stmt_view(s)) && stmt_lines_le(
                stmt_view(s),
                stream_max(*old(self)),
            ),
            ({
                let rr = sp_break_stmt(tokens_view(old(self).tokens@), old(self).current as int);
                match r {
                    Ok(s) => rr matches Ok(p) && p == (stmt_view(s), final(self).current as int),
                    Err(err) => rr matches Err(ee) && ee == err@,
                }
            }),
        decreases self.tokens@.len() - self.current, 16int,
    {
        proof {
            reveal_with_fuel(sp_break_stmt, 1);
        }
        match self.consume(TokenType::SEMICOLON, "Expect ';' after break.") {
            Ok(u) => {
                proof {
                    reveal_with_fuel(stmt_lines_le, 2);
                    assert(stmt_lines_le(stmt_view(Stmt::Break), stream_max(*old(self))));
                }
                Ok(Stmt::Break)
            },
            Err(e) => Err(e),
        }
    }

    #[verifier::rlimit(100)]
    #[verifier::spinoff_prover]
    fn for_stmt(&mut self) -> (r: Result<Stmt, MyError>)
        requires
            old(self).wf(),
        ensures
            final(self).wf(),
            final(self).tokens@ == old(self).tokens@,
            old(self).current <= final(self).current,
            r matches Ok(s) ==> stmt_deep_wf(stmt_view(s)) && stmt_lines_le(
                stmt_view(s),
                stream_max(*old(self)),
            ),
            ({
                let rr = sp_for_stmt(tokens_view(old(self).tokens@), old(self).current as int);
                match r {
                    Ok(s) => rr matches Ok(p) && p == (stmt_view(s), final(self).current as int),
                    Err(err) => rr matches Err(ee) && ee == err@,
                }
            }),
        decreases self.tokens@.len() - self.current, 16int,
    {
        proof {
            reveal_with_fuel(sp_for_stmt, 1);
        }
        match self.consume(TokenType::LeftParen, "Expect '(' after 'for'.") {
            Ok(u) => {},
            Err(e) => {
                return Err(e);
            },
        }
        let initializer = if self.is_match1(TokenType::SEMICOLON) {
            proof {
                reveal_with_fuel(stmt_lines_le, 2);
                assert(stmt_deep_wf(stmt_view(Stmt::NULL)));
                assert(stmt_lines_le(stmt_view(Stmt::NULL), stream_max(*old(self))));
            }
            Stmt::NULL
        } else if self.is_match1(TokenType::VAR) {
            match self.var_declaration() {
                Ok(s) => s,
                Err(e) => {
                    return Err(e);
                },
            }
        } else {
            match self.statement() {
                Ok(s) => s,
                Err(e) => {
                    return Err(e);
                },
            }
        };
        let mut condition = if self.check(TokenType::SEMICOLON) {
            proof {
                reveal_with_fuel(expr_lines_le, 2);
                assert(expr_deep_wf(expr_view(Expr::Null)));
                assert(expr_lines_le(expr_view(Expr::Null), stream_max(*old(self))));
            }
            Expr::Null
        } else {
            match self.expression() {
                Ok(e) => e,
                Err(e) => {
                    return Err(e);
                },
            }
        };
        match self.consume(TokenType::SEMICOLON, "Expect ';' after loop condition.") {
            Ok(u) => {},
            Err(e) => {
                return Err(e);
            },
        }
        let increment = if self.check(TokenType::RightParen) {
            proof {
                reveal_with_fuel(expr_lines_le, 2);
                assert(expr_deep_wf(expr_view(Expr::Null)));
                assert(expr_lines_le(expr_view(Expr::Null), stream_max(*old(self))));
            }
            Expr::Null
        } else {
            match self.expression() {
                Ok(e) => e,
                Err(e) => {
                    return Err(e);
                },
            }
        };
        match self.consume(TokenType::RightParen, "Expect ')' after for clauses.") {
            Ok(u) => {},
            Err(e) => {
                return Err(e);
            },
        }
        let mut body = match self.statement() {
            Ok(s) => s,
            Err(e) => {
                return Err(e);
            },
        };
        let ghost initv = stmt_view(initializer);
        let ghost condv = expr_view(condition);
        let ghost incv = expr_view(increment);
        let ghost bodyv = stmt_view(body);
        body = match increment {
            Expr::Null => body,
            inc => {
                let mut v: Vec<Stmt> = Vec::new();
                v.push(body);
                v.push(Stmt::ExprStmt(inc));
                proof {
                    assert(!(incv is Null));
                    assert(stmts_view(v@) =~= seq![bodyv, VStmt::Expr(incv)]);
                    let sv = stmts_view(v@);
                    assert forall|i: int| 0 <= i < sv.len() implies stmt_deep_wf(
                        #[trigger] sv[i],
                    ) by {
                        assert(sv[i] == stmt_view(v@[i]));
                    }
                    assert forall|i: int| 0 <= i < sv.len() implies stmt_lines_le(
                        #[trigger] sv[i],
                        stream_max(*old(self)),
                    ) by {
                        assert(sv[i] == stmt_view(v@[i]));
                    }
                }
                let b2 = Stmt::Block(v);
                proof {
                    reveal_with_fuel(stmt_deep_wf, 3);
                    reveal_with_fuel(stmt_lines_le, 3);
                    assert(stmts_deep_wf(stmts_view(v@)));
                    assert(stmt_deep_wf(stmt_view(b2)));
                    assert(stmts_lines_le(stmts_view(v@), stream_max(*old(self))));
                    assert(stmt_lines_le(stmt_view(b2), stream_max(*old(self))));
                }
                b2
            },
        };
        proof {
            if incv is Null {
                assert(stmt_view(body) == bodyv);
            } else {
                assert(stmt_view(body) == VStmt::Block(seq![bodyv, VStmt::Expr(incv)]));
            }
        }
        if matches!(condition, Expr::Null) {
            proof {
                reveal_with_fuel(expr_deep_wf, 3);
                let lv = VType::Bool(true);
                assert(vtype_deep_wf(lv));
                assert(crate::tokens::type_view(Type::Bool(true)) == lv);
                assert(expr_deep_wf(expr_view(Expr::Literal(Type::Bool(true)))));
            }
            condition = Expr::Literal(Type::Bool(true));
        }
        proof {
            if condv is Null {
                assert(expr_view(condition) == VExpr::Literal(VType::Bool(true)));
            } else {
                assert(expr_view(condition) == condv);
            }
        }
        body = Stmt::WhileStmt { condition, body: Box::new(body) };
        let ghost whilev = stmt_view(body);
        proof {
            reveal_with_fuel(stmt_lines_le, 2);
            reveal_with_fuel(stmt_deep_wf, 2);
            assert(stmt_deep_wf(stmt_view(body)));
            assert(stmt_lines_le(stmt_view(body), stream_max(*old(self))));
        }
        body = match initializer {
            Stmt::NULL => body,
            init => {
                let mut v: Vec<Stmt> = Vec::new();
                v.push(init);
                v.push(body);
                proof {
                    assert(!(initv is Null));
                    assert(stmts_view(v@) =~= seq![initv, whilev]);
                    let sv = stmts_view(v@);
                    assert forall|i: int| 0 <= i < sv.len() implies stmt_deep_wf(
                        #[trigger] sv[i],
                    ) by {
                        assert(sv[i] == stmt_view(v@[i]));
                    }
                    assert forall|i: int| 0 <= i < sv.len() implies stmt_lines_le(
                        #[trigger] sv[i],
                        stream_max(*old(self)),
                    ) by {
                        assert(sv[i] == stmt_view(v@[i]));
                    }
                }
                let b3 = Stmt::Block(v);
                proof {
                    reveal_with_fuel(stmt_deep_wf, 3);
                    reveal_with_fuel(stmt_lines_le, 3);
                    assert(stmts_deep_wf(stmts_view(v@)));
                    assert(stmt_deep_wf(stmt_view(b3)));
                    assert(stmts_lines_le(stmts_view(v@), stream_max(*old(self))));
                    assert(stmt_lines_le(stmt_view(b3), stream_max(*old(self))));
                }
                b3
            },
        };
        proof {
            reveal_with_fuel(sp_for_stmt, 1);
            if initv is Null {
                assert(stmt_view(body) == whilev);
            } else {
                assert(stmt_view(body) == VStmt::Block(seq![initv, whilev]));
            }
        }
        Ok(body)
    }

    #[verifier::rlimit(100)]
    #[verifier::spinoff_prover]
    fn while_stmt(&mut self) -> (r: Result<Stmt, MyError>)
        requires
            old(self).wf(),
        ensures
            final(self).wf(),
            final(self).tokens@ == old(self).tokens@,
            old(self).current <= final(self).current,
            r matches Ok(s) ==> stmt_deep_wf(stmt_view(s)) && stmt_lines_le(
                stmt_view(s),
                stream_max(*old(self)),
            ),
            ({
                let rr = sp_while_stmt(tokens_view(old(self).tokens@), old(self).current as int);
                match r {
                    Ok(s) => rr matches Ok(p) && p == (stmt_view(s), final(self).current as int),
                    Err(err) => rr matches Err(ee) && ee == err@,
                }
            }),
        decreases self.tokens@.len() - self.current, 16int,
    {
        proof {
            reveal_with_fuel(sp_while_stmt, 1);
        }
        match self.consume(TokenType::LeftParen, "Expect '(' after while.") {
            Ok(u) => {},
            Err(e) => {
                return Err(e);
            },
        }
        let condition = match self.expression() {
            Ok(e) => e,
            Err(e) => {
                return Err(e);
            },
        };
        match self.consume(TokenType::RightParen, "Expect ')' after if condition.") {
            Ok(u) => {},
            Err(e) => {
                return Err(e);
            },
        }
        let body = match self.statement() {
            Ok(s) => s,
            Err(e) => {
                return Err(e);
            },
        };
        let s = Stmt::WhileStmt { condition, body: Box::new(body) };
        proof {
            reveal_with_fuel(stmt_lines_le, 2);
            reveal_with_fuel(stmt_deep_wf, 2);
            assert(stmt_deep_wf(stmt_view(s)));
            assert(stmt_lines_le(stmt_view(s), stream_max(*old(self))));
        }
        Ok(s)
    }

    #[verifier::rlimit(100)]
    #[verifier::spinoff_prover]
    fn if_stmt(&mut self) -> (r: Result<Stmt, MyError>)
        requires
            old(self).wf(),
        ensures
            final(self).wf(),
            final(self).tokens@ == old(self).tokens@,
            old(self).current <= final(self).current,
            r matches Ok(s) ==> stmt_deep_wf(stmt_view(s)) && stmt_lines_le(
                stmt_view(s),
                stream_max(*old(self)),
            ),
            ({
                let rr = sp_if_stmt(tokens_view(old(self).tokens@), old(self).current as int);
                match r {
                    Ok(s) => rr matches Ok(p) && p == (stmt_view(s), final(self).current as int),
                    Err(err) => rr matches Err(ee) && ee == err@,
                }
            }),
        decreases self.tokens@.len() - self.current, 16int,
    {
        proof {
            reveal_with_fuel(sp_if_stmt, 1);
        }
        match self.consume(TokenType::LeftParen, "Expect '(' after 'if'.") {
            Ok(u) => {},
            Err(e) => {
                return Err(e);
            },
        }
        let condition = match self.expression() {
            Ok(e) => e,
            Err(e) => {
                return Err(e);
            },
        };
        match self.consume(TokenType::RightParen, "Expect ')' after if condition.") {
            Ok(u) => {},
            Err(e) => {
                return Err(e);
            },
        }
        let then_branch = match self.statement() {
            Ok(s) => s,
            Err(e) => {
                return Err(e);
            },
        };
        let else_branch = if self.is_match1(TokenType::ELSE) {
            match self.statement() {
                Ok(s) => s,
                Err(e) => {
                    return Err(e);
                },
            }
        } else {
            proof {
                reveal_with_fuel(stmt_lines_le, 2);
                assert(stmt_deep_wf(stmt_view(Stmt::NULL)));
                assert(stmt_lines_le(stmt_view(Stmt::NULL), stream_max(*old(self))));
            }
            Stmt::NULL
        };
        let s = Stmt::IfStmt {
            condition,
            then_branch: Box::new(then_branch),
            else_branch: Box::new(else_branch),
        };
        proof {
            reveal_with_fuel(stmt_lines_le, 2);
            reveal_with_fuel(stmt_deep_wf, 2);
            assert(stmt_deep_wf(stmt_view(s)));
            assert(stmt_lines_le(stmt_view(s), stream_max(*old(self))));
        }
        Ok(s)
    }

    #[verifier::rlimit(100)]
    #[verifier::spinoff_prover]
    fn block_stmt(&mut self) -> (r: Result<Stmt, MyError>)
        requires
            old(self).wf(),
        ensures
            final(self).wf(),
            final(self).tokens@ == old(self).tokens@,
            old(self).current <= final(self).current,
            r matches Ok(s) ==> stmt_deep_wf(stmt_view(s)) && stmt_lines_le(
                stmt_view(s),
                stream_max(*old(self)),
            ) && s is Block,
            ({
                let rr = sp_block_stmt(tokens_view(old(self).tokens@), old(self).current as int);
                match r {
                    Ok(s) => rr matches Ok(p) && p == (stmt_view(s), final(self).current as int),
                    Err(err) => rr matches Err(ee) && ee == err@,
                }
            }),
        decreases self.tokens@.len() - self.current, 22int,
    {
        proof {
            reveal_with_fuel(sp_block_stmt, 1);
            reveal_with_fuel(sp_block_items, 1);
        }
        let ghost ts0 = tokens_view(old(self).tokens@);
        let ghost c0 = old(self).current as int;
        let mut statements: Vec<Stmt> = Vec::new();
        proof {
            assert(stmts_view(statements@) =~= Seq::<VStmt>::empty());
        }
        loop
            invariant
                self.wf(),
                self.tokens@ == old(self).tokens@,
                old(self).current <= self.current,
                stmts_deep_wf(stmts_view(statements@)),
                stmts_lines_le(stmts_view(statements@), stream_max(*old(self))),
                ts0 == tokens_view(old(self).tokens@),
                c0 == old(self).current as int,
                sp_block_items(ts0, c0, Seq::<VStmt>::empty()) == sp_block_items(
                    ts0,
                    self.current as int,
                    stmts_view(statements@),
                ),
            ensures
                self.wf(),
                self.tokens@ == old(self).tokens@,
                old(self).current <= self.current,
                stmts_deep_wf(stmts_view(statements@)),
                stmts_lines_le(stmts_view(statements@), stream_max(*old(self))),
                sp_block_items(ts0, c0, Seq::<VStmt>::empty()) == sp_block_items(
                    ts0,
                    self.current as int,
                    stmts_view(statements@),
                ),
                self.current == self.tokens@.len() - 1 || tokens_view(
                    self.tokens@,
                )[self.current as int].token_type == TokenType::RightBrace,
            decreases self.tokens@.len() - self.current, 23int,
        {
            let ghost c_head = self.current as int;
            let ghost sv_head = stmts_view(statements@);
            if self.is_end() || self.check(TokenType::RightBrace) {
                break;
            }
            proof {
                reveal_with_fuel(sp_block_stmt, 1);
                reveal_with_fuel(sp_block_items, 1);
                assert(ts0.last() == ts0[ts0.len() - 1]);
                assert(tok_at(ts0, c_head) != TokenType::EOF);
                assert(tok_at(ts0, c_head) != TokenType::RightBrace);
            }
            match self.declaration() {
                Ok(st) => {
                    let ghost pre = statements@;
                    statements.push(st);
                    proof {
                        assert(stmts_view(statements@) =~= sv_head.push(
                            stmt_view(statements@.last()),
                        ));
                        assert(sp_block_items(ts0, c_head, sv_head) == sp_block_items(
                            ts0,
                            self.current as int,
                            stmts_view(statements@),
                        ));
                        assert forall|i: int|
                            0 <= i < stmts_view(statements@).len() implies stmt_deep_wf(
                            #[trigger] stmts_view(statements@)[i],
                        ) by {
                            if i < pre.len() {
                                assert(stmts_view(statements@)[i] == stmts_view(pre)[i]);
                            } else {
                                assert(stmts_view(statements@)[i] == stmt_view(
                                    statements@[i],
                                ));
                            }
                        }
                        assert forall|i: int|
                            0 <= i < stmts_view(statements@).len() implies stmt_lines_le(
                            #[trigger] stmts_view(statements@)[i],
                            stream_max(*old(self)),
                        ) by {
                            if i < pre.len() {
                                assert(stmts_view(statements@)[i] == stmts_view(pre)[i]);
                            } else {
                                assert(stmts_view(statements@)[i] == stmt_view(
                                    statements@[i],
                                ));
                            }
                        }
                    }
                },
                Err(e) => {
                    return Err(e);
                },
            }
        }
        proof {
            reveal_with_fuel(sp_block_items, 1);
            assert(ts0.last() == ts0[ts0.len() - 1]);
        }
        match self.consume(TokenType::RightBrace, "Expected '}' after block.") {
            Ok(u) => {
                let s = Stmt::Block(statements);
                proof {
                    reveal_with_fuel(stmt_lines_le, 2);
                    reveal_with_fuel(stmt_deep_wf, 2);
                    assert(stmt_deep_wf(stmt_view(s)));
                    assert(stmt_lines_le(stmt_view(s), stream_max(*old(self))));
                }
                Ok(s)
            },
            Err(e) => Err(e),
        }
    }

    #[verifier::rlimit(100)]
    #[verifier::spinoff_prover]
    fn print_stmt(&mut self) -> (r: Result<Stmt, MyError>)
        requires
            old(self).wf(),
        ensures
            final(self).wf(),
            final(self).tokens@ == old(self).tokens@,
            old(self).current <= final(self).current,
            r matches Ok(s) ==> stmt_deep_wf(stmt_view(s)) && stmt_lines_le(
                stmt_view(s),
                stream_max(*old(self)),
            ),
            ({
                let rr = sp_print_stmt(tokens_view(old(self).tokens@), old(self).current as int);
                match r {
                    Ok(s) => rr matches Ok(p) && p == (stmt_view(s), final(self).current as int),
                    Err(err) => rr matches Err(ee) && ee == err@,
                }
            }),
        decreases self.tokens@.len() - self.current, 16int,
    {
        proof {
            reveal_with_fuel(sp_print_stmt, 1);
        }
        let value = match self.expression() {
            Ok(e) => e,
            Err(e) => {
                return Err(e);
            },
        };
        match self.consume(TokenType::SEMICOLON, "Expect ';' after value") {
            Ok(u) => {
                let s = Stmt::PrintStmt(value);
                proof {
                    reveal_with_fuel(stmt_lines_le, 2);
                    reveal_with_fuel(stmt_deep_wf, 2);
                    assert(stmt_deep_wf(stmt_view(s)));
                    assert(stmt_lines_le(stmt_view(s), stream_max(*old(self))));
                }
                Ok(s)
            },
            Err(e) => Err(e),
        }
    }

    #[verifier::rlimit(100)]
    #[verifier::spinoff_prover]
    fn expr_stmt(&mut self) -> (r: Result<Stmt, MyError>)
        requires
            old(self).wf(),
        ensures
            final(self).wf(),
            final(self).tokens@ == old(self).tokens@,
            old(self).current <= final(self).current,
            r matches Ok(s) ==> stmt_deep_wf(stmt_view(s)) && stmt_lines_le(
                stmt_view(s),
                stream_max(*old(self)),
            ) && old(self).current < final(self).current,
            ({
                let rr = sp_expr_stmt(tokens_view(old(self).tokens@), old(self).current as int);
                match r {
                    Ok(s) => rr matches Ok(p) && p == (stmt_view(s), final(self).current as int),
                    Err(err) => rr matches Err(ee) && ee == err@,
                }
            }),
        decreases self.tokens@.len() - self.current, 16int,
    {
        proof {
            reveal_with_fuel(sp_expr_stmt, 1);
        }
        let expr = match self.expression() {
            Ok(e) => e,
            Err(e) => {
                return Err(e);
            },
        };
        match self.consume(TokenType::SEMICOLON, "Expect ';' after value") {
            Ok(u) => {
                let s = Stmt::ExprStmt(expr);
                proof {
                    reveal_with_fuel(stmt_lines_le, 2);
                    reveal_with_fuel(stmt_deep_wf, 2);
                    assert(stmt_deep_wf(stmt_view(s)));
                    assert(stmt_lines_le(stmt_view(s), stream_max(*old(self))));
                }
                Ok(s)
            },
            Err(e) => Err(e),
        }
    }

    #[verifier::rlimit(100)]
    #[verifier::spinoff_prover]
    fn expression(&mut self) -> (r: Result<Expr, MyError>)
        requires
            old(self).wf(),
        ensures
            final(self).wf(),
            final(self).tokens@ == old(self).tokens@,
            old(self).current <= final(self).current,
            r matches Ok(e) ==> expr_deep_wf(expr_view(e)) && expr_lines_le(
                expr_view(e),
                stream_max(*old(self)),
            ) && old(self).current < final(self).current,
            ({
                let rr = sp_expression(tokens_view(old(self).tokens@), old(self).current as int);
                match r {
                    Ok(e) => rr matches Ok(p) && p == (expr_view(e), final(self).current as int),
                    Err(err) => rr matches Err(ee) && ee == err@,
                }
            }),
        decreases self.tokens@.len() - self.current, 12int,
    {
        proof {
            reveal_with_fuel(sp_expression, 1);
        }
        self.assignment()
    }

    #[verifier::rlimit(100)]
    #[verifier::spinoff_prover]
    fn assignment(&mut self) -> (r: Result<Expr, MyError>)
        requires
            old(self).wf(),
        ensures
            final(self).wf(),
            final(self).tokens@ == old(self).tokens@,
            old(self).current <= final(self).current,
            r matches Ok(e) ==> expr_deep_wf(expr_view(e)) && expr_lines_le(
                expr_view(e),
                stream_max(*old(self)),
            ) && old(self).current < final(self).current,
            ({
                let rr = sp_assignment(tokens_view(old(self).tokens@), old(self).current as int);
                match r {
                    Ok(e) => rr matches Ok(p) && p == (expr_view(e), final(self).current as int),
                    Err(err) => rr matches Err(ee) && ee == err@,
                }
            }),
        decreases self.tokens@.len() - self.current, 11int,
    {
        proof {
            reveal_with_fuel(sp_assignment, 1);
        }
        let expr = match self.or() {
            Ok(e) => e,
            Err(e) => {
                return Err(e);
            },
        };
        if self.is_match1(TokenType::EQUAL) {
            let equals = token_dup(self.previous());
            let value = match self.assignment() {
                Ok(e) => e,
                Err(e) => {
                    return Err(e);
                },
            };
            match expr {
                Expr::Var(t) => {
                    let node = Expr::Assign { name: t, value: Box::new(value) };
                    proof {
                        reveal_with_fuel(expr_lines_le, 2);
                        reveal_with_fuel(expr_deep_wf, 2);
                        reveal_with_fuel(expr_view, 2);
                        assert(expr_deep_wf(expr_view(node)));
                        assert(expr_lines_le(expr_view(node), stream_max(*old(self))));
                    }
                    Ok(node)
                },
                _ => Err(MyError::InvalidAssignmentTargetError(equals.lexeme)),
            }
        } else {
            Ok(expr)
        }
    }

    #[verifier::rlimit(100)]
    #[verifier::spinoff_prover]
    fn or(&mut self) -> (r: Result<Expr, MyError>)
        requires
            old(self).wf(),
        ensures
            final(self).wf(),
            final(self).tokens@ == old(self).tokens@,
            old(self).current <= final(self).current,
            r matches Ok(e) ==> expr_deep_wf(expr_view(e)) && expr_lines_le(
                expr_view(e),
                stream_max(*old(self)),
            ) && old(self).current < final(self).current,
            ({
                let rr = sp_or(tokens_view(old(self).tokens@), old(self).current as int);
                match r {
                    Ok(e) => rr matches Ok(p) && p == (expr_view(e), final(self).current as int),
                    Err(err) => rr matches Err(ee) && ee == err@,
                }
            }),
        decreases self.tokens@.len() - self.current, 10int,
    {
        proof {
            reveal_with_fuel(sp_or, 1);
        }
        let e = match self.and() {
            Ok(e) => e,
            Err(e) => {
                return Err(e);
            },
        };
        self.or_more(e)
    }

    #[verifier::rlimit(100)]
    #[verifier::spinoff_prover]
    fn or_more(&mut self, left: Expr) -> (r: Result<Expr, MyError>)
        requires
            old(self).wf(),
            expr_deep_wf(expr_view(left)),
            expr_lines_le(expr_view(left), stream_max(*old(self))),
        ensures
            final(self).wf(),
            final(self).tokens@ == old(self).tokens@,
            old(self).current <= final(self).current,
            r matches Ok(e) ==> expr_deep_wf(expr_view(e)) && expr_lines_le(
                expr_view(e),
                stream_max(*old(self)),
            ),
            ({
                let rr = sp_or_more(
                    tokens_view(old(self).tokens@),
                    old(self).current as int,
                    expr_view(left),
                );
                match r {
                    Ok(e) => rr matches Ok(p) && p == (expr_view(e), final(self).current as int),
                    Err(err) => rr matches Err(ee) && ee == err@,
                }
            }),
        decreases self.tokens@.len() - self.current, 14int,
    {
        proof {
            reveal_with_fuel(sp_or_more, 1);
        }
        if self.is_match1(TokenType::OR) {
            let op = token_dup(self.previous());
            let right = match self.and() {
                Ok(e) => e,
                Err(e) => {
                    return Err(e);
                },
            };
            let node = Expr::Logical { left: Box::new(left), op, right: Box::new(right) };
            proof {
                reveal_with_fuel(expr_lines_le, 2);
                reveal_with_fuel(expr_deep_wf, 2);
                reveal_with_fuel(expr_view, 2);
                lemma_max_line(tokens_view(self.tokens@));
                assert(expr_deep_wf(expr_view(node)));
                assert(expr_lines_le(expr_view(node), stream_max(*old(self))));
            }
            self.or_more(node)
        } else {
            Ok(left)
        }
    }

    #[verifier::rlimit(100)]
    #[verifier::spinoff_prover]
    fn and(&mut self) -> (r: Result<Expr, MyError>)
        requires
            old(self).wf(),
        ensures
            final(self).wf(),
            final(self).tokens@ == old(self).tokens@,
            old(self).current <= final(self).current,
            r matches Ok(e) ==> expr_deep_wf(expr_view(e)) && expr_lines_le(
                expr_view(e),
                stream_max(*old(self)),
            ) && old(self).current < final(self).current,
            ({
                let rr = sp_and(tokens_view(old(self).tokens@), old(self).current as int);
                match r {
                    Ok(e) => rr matches Ok(p) && p == (expr_view(e), final(self).current as int),
                    Err(err) => rr matches Err(ee) && ee == err@,
                }
            }),
        decreases self.tokens@.len() - self.current, 9int,
    {
        proof {
            reveal_with_fuel(sp_and, 1);
        }
        let e = match self.equality() {
            Ok(e) => e,
            Err(e) => {
                return Err(e);
            },
        };
        self.and_more(e)
    }

    #[verifier::rlimit(100)]
    #[verifier::spinoff_prover]
    fn and_more(&mut self, left: Expr) -> (r: Result<Expr, MyError>)
        requires
            old(self).wf(),
            expr_deep_wf(expr_view(left)),
            expr_lines_le(expr_view(left), stream_max(*old(self))),
        ensures
            final(self).wf(),
            final(self).tokens@ == old(self).tokens@,
            old(self).current <= final(self).current,
            r matches Ok(e) ==> expr_deep_wf(expr_view(e)) && expr_lines_le(
                expr_view(e),
                stream_max(*old(self)),
            ),
            ({
                let rr = sp_and_more(
                    tokens_view(old(self).tokens@),
                    old(self).current as int,
                    expr_view(left),
                );
                match r {
                    Ok(e) => rr matches Ok(p) && p == (expr_view(e), final(self).current as int),
                    Err(err) => rr matches Err(ee) && ee == err@,
                }
            }),
        decreases self.tokens@.len() - self.current, 14int,
    {
        proof {
            reveal_with_fuel(sp_and_more, 1);
        }
        if self.is_match1(TokenType::AND) {
            let op = token_dup(self.previous());
            let right = match self.equality() {
                Ok(e) => e,
                Err(e) => {
                    return Err(e);
                },
            };
            let node = Expr::Logical { left: Box::new(left), op, right: Box::new(right) };
            proof {
                reveal_with_fuel(expr_lines_le, 2);
                reveal_with_fuel(expr_deep_wf, 2);
                reveal_with_fuel(expr_view, 2);
                lemma_max_line(tokens_view(self.tokens@));
                assert(expr_deep_wf(expr_view(node)));
                assert(expr_lines_le(expr_view(node), stream_max(*old(self))));
            }
            self.and_more(node)
        } else {
            Ok(left)
        }
    }

    #[verifier::rlimit(100)]
    #[verifier::spinoff_prover]
    fn equality(&mut self) -> (r: Result<Expr, MyError>)
        requires
            old(self).wf(),
        ensures
            final(self).wf(),
            final(self).tokens@ == old(self).tokens@,
            old(self).current <= final(self).current,
            r matches Ok(e) ==> expr_deep_wf(expr_view(e)) && expr_lines_le(
                expr_view(e),
                stream_max(*old(self)),
            ) && old(self).current < final(self).current,
            ({
                let rr = sp_equality(tokens_view(old(self).tokens@), old(self).current as int);
                match r {
                    Ok(e) => rr matches Ok(p) && p == (expr_view(e), final(self).current as int),
                    Err(err) => rr matches Err(ee) && ee == err@,
                }
            }),
        decreases self.tokens@.len() - self.current, 8int,
    {
        proof {
            reveal_with_fuel(sp_equality, 1);
        }
        let e = match self.comparsion() {
            Ok(e) => e,
            Err(e) => {
                return Err(e);
            },
        };
        self.equality_more(e)
    }

    #[verifier::rlimit(100)]
    #[verifier::spinoff_prover]
    fn equality_more(&mut self, left: Expr) -> (r: Result<Expr, MyError>)
        requires
            old(self).wf(),
            expr_deep_wf(expr_view(left)),
            expr_lines_le(expr_view(left), stream_max(*old(self))),
        ensures
            final(self).wf(),
            final(self).tokens@ == old(self).tokens@,
            old(self).current <= final(self).current,
            r matches Ok(e) ==> expr_deep_wf(expr_view(e)) && expr_lines_le(
                expr_view(e),
                stream_max(*old(self)),
            ),
            ({
                let rr = sp_equality_more(
                    tokens_view(old(self).tokens@),
                    old(self).current as int,
                    expr_view(left),
                );
                match r {
                    Ok(e) => rr matches Ok(p) && p == (expr_view(e), final(self).current as int),
                    Err(err) => rr matches Err(ee) && ee == err@,
                }
            }),
        decreases self.tokens@.len() - self.current, 14int,
    {
        proof {
            reveal_with_fuel(sp_equality_more, 1);
        }
        if self.is_match2(TokenType::BangEqual, TokenType::EqualEqual) {
            let op = token_dup(self.previous());
            let right = match self.comparsion() {
                Ok(e) => e,
                Err(e) => {
                    return Err(e);
                },
            };
            let node = Expr::Binary { left: Box::new(left), op, right: Box::new(right) };
            proof {
                reveal_with_fuel(expr_lines_le, 2);
                reveal_with_fuel(expr_deep_wf, 2);
                reveal_with_fuel(expr_view, 2);
                lemma_max_line(tokens_view(self.tokens@));
                assert(expr_deep_wf(expr_view(node)));
                assert(expr_lines_le(expr_view(node), stream_max(*old(self))));
            }
            self.equality_more(node)
        } else {
            Ok(left)
        }
    }

    #[verifier::rlimit(100)]
    #[verifier::spinoff_prover]
    fn comparsion(&mut self) -> (r: Result<Expr, MyError>)
        requires
            old(self).wf(),
        ensures
            final(self).wf(),
            final(self).tokens@ == old(self).tokens@,
            old(self).current <= final(self).current,
            r matches Ok(e) ==> expr_deep_wf(expr_view(e)) && expr_lines_le(
                expr_view(e),
                stream_max(*old(self)),
            ) && old(self).current < final(self).current,
            ({
                let rr = sp_comparison(tokens_view(old(self).tokens@), old(self).current as int);
                match r {
                    Ok(e) => rr matches Ok(p) && p == (expr_view(e), final(self).current as int),
                    Err(err) => rr matches Err(ee) && ee == err@,
                }
            }),
        decreases self.tokens@.len() - self.current, 7int,
    {
        proof {
            reveal_with_fuel(sp_comparison, 1);
        }
        let e = match self.term() {
            Ok(e) => e,
            Err(e) => {
                return Err(e);
            },
        };
        self.comparsion_more(e)
    }

    #[verifier::rlimit(100)]
    #[verifier::spinoff_prover]
    fn comparsion_more(&mut self, left: Expr) -> (r: Result<Expr, MyError>)
        requires
            old(self).wf(),
            expr_deep_wf(expr_view(left)),
            expr_lines_le(expr_view(left), stream_max(*old(self))),
        ensures
            final(self).wf(),
            final(self).tokens@ == old(self).tokens@,
            old(self).current <= final(self).current,
            r matches Ok(e) ==> expr_deep_wf(expr_view(e)) && expr_lines_le(
                expr_view(e),
                stream_max(*old(self)),
            ),
            ({
                let rr = sp_comparison_more(
                    tokens_view(old(self).tokens@),
                    old(self).current as int,
                    expr_view(left),
                );
                match r {
                    Ok(e) => rr matches Ok(p) && p == (expr_view(e), final(self).current as int),
                    Err(err) => rr matches Err(ee) && ee == err@,
                }
            }),
        decreases self.tokens@.len() - self.current, 14int,
    {
        proof {
            reveal_with_fuel(sp_comparison_more, 1);
        }
        if self.is_match4(
            TokenType::GREATER,
            TokenType::GreaterEqual,
            TokenType::LESS,
            TokenType::LessEqual,
        ) {
            let op = token_dup(self.previous());
            let right = match self.term() {
                Ok(e) => e,
                Err(e) => {
                    return Err(e);
                },
            };
            let node = Expr::Binary { left: Box::new(left), op, right: Box::new(right) };
            proof {
                reveal_with_fuel(expr_lines_le, 2);
                reveal_with_fuel(expr_deep_wf, 2);
                reveal_with_fuel(expr_view, 2);
                lemma_max_line(tokens_view(self.tokens@));
                assert(expr_deep_wf(expr_view(node)));
                assert(expr_lines_le(expr_view(node), stream_max(*old(self))));
            }
            self.comparsion_more(node)
        } else {
            Ok(left)
        }
    }

    #[verifier::rlimit(100)]
    #[verifier::spinoff_prover]
    fn term(&mut self) -> (r: Result<Expr, MyError>)
        requires
            old(self).wf(),
        ensures
            final(self).wf(),
            final(self).tokens@ == old(self).tokens@,
            old(self).current <= final(self).current,
            r matches Ok(e) ==> expr_deep_wf(expr_view(e)) && expr_lines_le(
                expr_view(e),
                stream_max(*old(self)),
            ) && old(self).current < final(self).current,
            ({
                let rr = sp_term(tokens_view(old(self).tokens@), old(self).current as int);
                match r {
                    Ok(e) => rr matches Ok(p) && p == (expr_view(e), final(self).current as int),
                    Err(err) => rr matches Err(ee) && ee == err@,
                }
            }),
        decreases self.tokens@.len() - self.current, 6int,
    {
        proof {
            reveal_with_fuel(sp_term, 1);
        }
        let e = match self.factor() {
            Ok(e) => e,
            Err(e) => {
                return Err(e);
            },
        };
        self.term_more(e)
    }

    #[verifier::rlimit(100)]
    #[verifier::spinoff_prover]
    fn term_more(&mut self, left: Expr) -> (r: Result<Expr, MyError>)
        requires
            old(self).wf(),
            expr_deep_wf(expr_view(left)),
            expr_lines_le(expr_view(left), stream_max(*old(self))),
        ensures
            final(self).wf(),
            final(self).tokens@ == old(self).tokens@,
            old(self).current <= final(self).current,
            r matches Ok(e) ==> expr_deep_wf(expr_view(e)) && expr_lines_le(
                expr_view(e),
                stream_max(*old(self)),
            ),
            ({
                let rr = sp_term_more(
                    tokens_view(old(self).tokens@),
                    old(self).current as int,
                    expr_view(left),
                );
                match r {
                    Ok(e) => rr matches Ok(p) && p == (expr_view(e), final(self).current as int),
                    Err(err) => rr matches Err(ee) && ee == err@,
                }
            }),
        decreases self.tokens@.len() - self.current, 14int,
    {
        proof {
            reveal_with_fuel(sp_term_more, 1);
        }
        if self.is_match2(TokenType::MINUS, TokenType::PLUS) {
            let op = token_dup(self.previous());
            let right = match self.factor() {
                Ok(e) => e,
                Err(e) => {
                    return Err(e);
                },
            };
            let node = Expr::Binary { left: Box::new(left), op, right: Box::new(right) };
            proof {
                reveal_with_fuel(expr_lines_le, 2);
                reveal_with_fuel(expr_deep_wf, 2);
                reveal_with_fuel(expr_view, 2);
                lemma_max_line(tokens_view(self.tokens@));
                assert(expr_deep_wf(expr_view(node)));
                assert(expr_lines_le(expr_view(node), stream_max(*old(self))));
            }
            self.term_more(node)
        } else {
            Ok(left)
        }
    }

    #[verifier::rlimit(100)]
    #[verifier::spinoff_prover]
    fn factor(&mut self) -> (r: Result<Expr, MyError>)
        requires
            old(self).wf(),
        ensures
            final(self).wf(),
            final(self).tokens@ == old(self).tokens@,
            old(self).current <= final(self).current,
            r matches Ok(e) ==> expr_deep_wf(expr_view(e)) && expr_lines_le(
                expr_view(e),
                stream_max(*old(self)),
            ) && old(self).current < final(self).current,
            ({
                let rr = sp_factor(tokens_view(old(self).tokens@), old(self).current as int);
                match r {
                    Ok(e) => rr matches Ok(p) && p == (expr_view(e), final(self).current as int),
                    Err(err) => rr matches Err(ee) && ee == err@,
                }
            }),
        decreases self.tokens@.len() - self.current, 5int,
    {
        proof {
            reveal_with_fuel(sp_factor, 1);
        }
        let e = match self.unary() {
            Ok(e) => e,
            Err(e) => {
                return Err(e);
            },
        };
        self.factor_more(e)
    }

    #[verifier::rlimit(100)]
    #[verifier::spinoff_prover]
    fn factor_more(&mut self, left: Expr) -> (r: Result<Expr, MyError>)
        requires
            old(self).wf(),
            expr_deep_wf(expr_view(left)),
            expr_lines_le(expr_view(left), stream_max(*old(self))),
        ensures
            final(self).wf(),
            final(self).tokens@ == old(self).tokens@,
            old(self).current <= final(self).current,
            r matches Ok(e) ==> expr_deep_wf(expr_view(e)) && expr_lines_le(
                expr_view(e),
                stream_max(*old(self)),
            ),
            ({
                let rr = sp_factor_more(
                    tokens_view(old(self).tokens@),
                    old(self).current as int,
                    expr_view(left),
                );
                match r {
                    Ok(e) => rr matches Ok(p) && p == (expr_view(e), final(self).current as int),
                    Err(err) => rr matches Err(ee) && ee == err@,
                }
            }),
        decreases self.tokens@.len() - self.current, 14int,
    {
        proof {
            reveal_with_fuel(sp_factor_more, 1);
        }
        if self.is_match2(TokenType::SLASH, TokenType::STAR) {
            let op = token_dup(self.previous());
            let right = match self.unary() {
                Ok(e) => e,
                Err(e) => {
                    return Err(e);
                },
            };
            let node = Expr::Binary { left: Box::new(left), op, right: Box::new(right) };
            proof {
                reveal_with_fuel(expr_lines_le, 2);
                reveal_with_fuel(expr_deep_wf, 2);
                reveal_with_fuel(expr_view, 2);
                lemma_max_line(tokens_view(self.tokens@));
                assert(expr_deep_wf(expr_view(node)));
                assert(expr_lines_le(expr_view(node), stream_max(*old(self))));
            }
            self.factor_more(node)
        } else {
            Ok(left)
        }
    }

    #[verifier::rlimit(100)]
    #[verifier::spinoff_prover]
    fn unary(&mut self) -> (r: Result<Expr, MyError>)
        requires
            old(self).wf(),
        ensures
            final(self).wf(),
            final(self).tokens@ == old(self).tokens@,
            old(self).current <= final(self).current,
            r matches Ok(e) ==> expr_deep_wf(expr_view(e)) && expr_lines_le(
                expr_view(e),
                stream_max(*old(self)),
            ) && old(self).current < final(self).current,
            ({
                let rr = sp_unary(tokens_view(old(self).tokens@), old(self).current as int);
                match r {
                    Ok(e) => rr matches Ok(p) && p == (expr_view(e), final(self).current as int),
                    Err(err) => rr matches Err(ee) && ee == err@,
                }
            }),
        decreases self.tokens@.len() - self.current, 4int,
    {
        proof {
            reveal_with_fuel(sp_unary, 1);
        }
        if self.is_match2(TokenType::BANG, TokenType::MINUS) {
            let op = token_dup(self.previous());
            let right = match self.unary() {
                Ok(e) => e,
                Err(e) => {
                    return Err(e);
                },
            };
            let node = Expr::Unary { op, right: Box::new(right) };
            proof {
                reveal_with_fuel(expr_lines_le, 2);
                reveal_with_fuel(expr_deep_wf, 2);
                reveal_with_fuel(expr_view, 2);
                lemma_max_line(tokens_view(self.tokens@));
                assert(expr_deep_wf(expr_view(node)));
                assert(expr_lines_le(expr_view(node), stream_max(*old(self))));
            }
            Ok(node)
        } else {
            self.call()
        }
    }

    #[verifier::rlimit(100)]
    #[verifier::spinoff_prover]
    fn call(&mut self) -> (r: Result<Expr, MyError>)
        requires
            old(self).wf(),
        ensures
            final(self).wf(),
            final(self).tokens@ == old(self).tokens@,
            old(self).current <= final(self).current,
            r matches Ok(e) ==> expr_deep_wf(expr_view(e)) && expr_lines_le(
                expr_view(e),
                stream_max(*old(self)),
            ) && old(self).current < final(self).current,
            ({
                let rr = sp_call(tokens_view(old(self).tokens@), old(self).current as int);
                match r {
                    Ok(e) => rr matches Ok(p) && p == (expr_view(e), final(self).current as int),
                    Err(err) => rr matches Err(ee) && ee == err@,
                }
            }),
        decreases self.tokens@.len() - self.current, 3int,
    {
        proof {
            reveal_with_fuel(sp_call, 1);
        }
        let e = match self.primary() {
            Ok(e) => e,
            Err(e) => {
                return Err(e);
            },
        };
        self.call_more(e)
    }

    #[verifier::rlimit(100)]
    #[verifier::spinoff_prover]
    fn call_more(&mut self, callee: Expr) -> (r: Result<Expr, MyError>)
        requires
            old(self).wf(),
            expr_deep_wf(expr_view(callee)),
            expr_lines_le(expr_view(callee), stream_max(*old(self))),
        ensures
            final(self).wf(),
            final(self).tokens@ == old(self).tokens@,
            old(self).current <= final(self).current,
            r matches Ok(e) ==> expr_deep_wf(expr_view(e)) && expr_lines_le(
                expr_view(e),
                stream_max(*old(self)),
            ),
            ({
                let rr = sp_call_more(
                    tokens_view(old(self).tokens@),
                    old(self).current as int,
                    expr_view(callee),
                );
                match r {
                    Ok(e) => rr matches Ok(p) && p == (expr_view(e), final(self).current as int),
                    Err(err) => rr matches Err(ee) && ee == err@,
                }
            }),
        decreases self.tokens@.len() - self.current, 14int,
    {
        proof {
            reveal_with_fuel(sp_call_more, 1);
        }
        if self.is_match1(TokenType::LeftParen) {
            let e2 = match self.finish_call(callee) {
                Ok(e) => e,
                Err(e) => {
                    return Err(e);
                },
            };
            self.call_more(e2)
        } else {
            Ok(callee)
        }
    }

    #[verifier::rlimit(100)]
    #[verifier::spinoff_prover]
    fn finish_call(&mut self, callee: Expr) -> (r: Result<Expr, MyError>)
        requires
            old(self).wf(),
            expr_deep_wf(expr_view(callee)),
            expr_lines_le(expr_view(callee), stream_max(*old(self))),
        ensures
            final(self).wf(),
            final(self).tokens@ == old(self).tokens@,
            old(self).current <= final(self).current,
            r matches Ok(e) ==> expr_deep_wf(expr_view(e)) && expr_lines_le(
                expr_view(e),
                stream_max(*old(self)),
            ) && old(self).current < final(self).current,
            ({
                let rr = sp_finish_call(
                    tokens_view(old(self).tokens@),
                    old(self).current as int,
                    expr_view(callee),
                );
                match r {
                    Ok(e) => rr matches Ok(p) && p == (expr_view(e), final(self).current as int),
                    Err(err) => rr matches Err(ee) && ee == err@,
                }
            }),
        decreases self.tokens@.len() - self.current, 13int,
    {
        proof {
            reveal_with_fuel(sp_finish_call, 1);
            reveal_with_fuel(sp_args, 1);
        }
        let ghost ts0 = tokens_view(old(self).tokens@);
        let ghost c0 = old(self).current as int;
        let mut arguments: Vec<Expr> = Vec::new();
        proof {
            assert(crate::expr::exprs_view(arguments@) =~= Seq::<VExpr>::empty());
        }
        if !self.check(TokenType::RightParen) {
            loop
                invariant_except_break
                    sp_args(ts0, c0, Seq::<VExpr>::empty()) == sp_args(
                        ts0,
                        self.current as int,
                        crate::expr::exprs_view(arguments@),
                    ),
                invariant
                    self.wf(),
                    self.tokens@ == old(self).tokens@,
                    old(self).current <= self.current,
                    crate::interpreter::exprs_deep_wf(crate::expr::exprs_view(arguments@)),
                    exprs_lines_le(crate::expr::exprs_view(arguments@), stream_max(*old(self))),
                    ts0 == tokens_view(old(self).tokens@),
                    c0 == old(self).current as int,
                    tok_at(ts0, c0) != TokenType::RightParen,
                ensures
                    self.wf(),
                    self.tokens@ == old(self).tokens@,
                    old(self).current <= self.current,
                    crate::interpreter::exprs_deep_wf(crate::expr::exprs_view(arguments@)),
                    exprs_lines_le(crate::expr::exprs_view(arguments@), stream_max(*old(self))),
                    sp_args(ts0, c0, Seq::<VExpr>::empty()) matches Ok(p) && p == (
                        crate::expr::exprs_view(arguments@),
                        self.current as int,
                    ),
                decreases self.tokens@.len() - self.current, 15int,
            {
                let ghost c_head = self.current as int;
                let ghost ev_head = crate::expr::exprs_view(arguments@);
                proof {
                    reveal_with_fuel(sp_finish_call, 1);
                    reveal_with_fuel(sp_args, 1);
                }
                if arguments.len() >= MAX_ARG_NUM {
                    return Err(MyError::MaxArgumentNumError);
                }
                match self.expression() {
                    Ok(a) => {
                        let ghost pre = arguments@;
                        arguments.push(a);
                        proof {
                            let ev = crate::expr::exprs_view(arguments@);
                            assert forall|i: int| 0 <= i < ev.len() implies expr_deep_wf(
                                #[trigger] ev[i],
                            ) by {
                                if i < pre.len() {
                                    assert(ev[i] == crate::expr::exprs_view(pre)[i]);
                                } else {
                                    assert(ev[i] == expr_view(arguments@[i]));
                                }
                            }
                            assert forall|i: int| 0 <= i < ev.len() implies expr_lines_le(
                                #[trigger] ev[i],
                                stream_max(*old(self)),
                            ) by {
                                if i < pre.len() {
                                    assert(ev[i] == crate::expr::exprs_view(pre)[i]);
                                } else {
                                    assert(ev[i] == expr_view(arguments@[i]));
                                }
                            }
                        }
                    },
                    Err(e) => {
                        return Err(e);
                    },
                }
                let more = self.is_match1(TokenType::COMMA);
                proof {
                    let av = expr_view(arguments@.last());
                    assert(crate::expr::exprs_view(arguments@) =~= ev_head.push(av));
                    if more {
                        assert(sp_args(ts0, c_head, ev_head) == sp_args(
                            ts0,
                            self.current as int,
                            crate::expr::exprs_view(arguments@),
                        ));
                    } else {
                        assert(sp_args(ts0, c_head, ev_head) == Ok::<(Seq<VExpr>, int), VErr>(
                            (crate::expr::exprs_view(arguments@), self.current as int),
                        ));
                    }
                }
                if !more {
                    break;
                }
            }
        }
        let paren = match self.consume(TokenType::RightParen, "Expect ')' after arguments.") {
            Ok(t) => t,
            Err(e) => {
                return Err(e);
            },
        };
        let ghost cv = expr_view(callee);
        let ghost av = crate::expr::exprs_view(arguments@);
        let e = Expr::Call { callee: Box::new(callee), paren, arguments };
        proof {
            reveal_with_fuel(expr_view, 3);
            reveal_with_fuel(expr_deep_wf, 3);
            reveal_with_fuel(expr_lines_le, 3);
            lemma_max_line(tokens_view(self.tokens@));
            assert(expr_view(e) matches VExpr::Call { callee: c2, paren: p2, args: a2 } && *c2
                == cv && a2 == av && p2 == ts0[self.current - 1]);
            assert(expr_deep_wf(expr_view(e)));
            assert(expr_lines_le(expr_view(e), stream_max(*old(self))));
        }
        Ok(e)
    }

    #[verifier::rlimit(100)]
    #[verifier::spinoff_prover]
    fn primary(&mut self) -> (r: Result<Expr, MyError>)
        requires
            old(self).wf(),
        ensures
            final(self).wf(),
            final(self).tokens@ == old(self).tokens@,
            old(self).current <= final(self).current,
            r matches Ok(e) ==> expr_deep_wf(expr_view(e)) && expr_lines_le(
                expr_view(e),
                stream_max(*old(self)),
            ) && old(self).current < final(self).current,
            ({
                let rr = sp_primary(tokens_view(old(self).tokens@), old(self).current as int);
                match r {
                    Ok(e) => rr matches Ok(p) && p == (expr_view(e), final(self).current as int),
                    Err(err) => rr matches Err(ee) && ee == err@,
                }
            }),
        decreases self.tokens@.len() - self.current, 1int,
    {
        proof {
            reveal_with_fuel(sp_primary, 1);
        }
        let tt = self.peek(). token_type;
        if tt == TokenType::FALSE {
            self.advance();
            proof {
                reveal_with_fuel(expr_view, 2);
                reveal_with_fuel(expr_deep_wf, 2);
                reveal_with_fuel(expr_lines_le, 2);
                assert(expr_deep_wf(expr_view(Expr::Literal(Type::Bool(false)))));
                assert(expr_lines_le(expr_view(Expr::Literal(Type::Bool(false))), stream_max(*old(self))));
            }
            Ok(Expr::Literal(Type::Bool(false)))
        } else if tt == TokenType::TRUE {
            self.advance();
            proof {
                reveal_with_fuel(expr_view, 2);
                reveal_with_fuel(expr_deep_wf, 2);
                reveal_with_fuel(expr_lines_le, 2);
                assert(expr_deep_wf(expr_view(Expr::Literal(Type::Bool(true)))));
                assert(expr_lines_le(expr_view(Expr::Literal(Type::Bool(true))), stream_max(*old(self))));
            }
            Ok(Expr::Literal(Type::Bool(true)))
        } else if tt == TokenType::NIL {
            self.advance();
            proof {
                reveal_with_fuel(expr_view, 2);
                reveal_with_fuel(expr_deep_wf, 2);
                reveal_with_fuel(expr_lines_le, 2);
                assert(expr_deep_wf(expr_view(Expr::Literal(Type::Nil))));
                assert(expr_lines_le(expr_view(Expr::Literal(Type::Nil)), stream_max(*old(self))));
            }
            Ok(Expr::Literal(Type::Nil))
        } else if tt == TokenType::NUMBER || tt == TokenType::STRING {
            self.advance();
            let lit = type_dup(&self.previous().literal);
            proof {
                reveal_with_fuel(expr_view, 2);
                reveal_with_fuel(expr_deep_wf, 2);
                reveal_with_fuel(expr_lines_le, 2);
                let ts = tokens_view(self.tokens@);
                assert(vtype_deep_wf(ts[self.current - 1].literal));
                assert(expr_deep_wf(expr_view(Expr::Literal(lit))));
                assert(expr_lines_le(expr_view(Expr::Literal(lit)), stream_max(*old(self))));
            }
            Ok(Expr::Literal(lit))
        } else if tt == TokenType::LeftParen {
            self.advance();
            let e = match self.expression() {
                Ok(e) => e,
                Err(e) => {
                    return Err(e);
                },
            };
            proof {
                reveal_with_fuel(expr_view, 2);
                reveal_with_fuel(expr_deep_wf, 2);
                reveal_with_fuel(expr_lines_le, 2);
                assert(expr_deep_wf(expr_view(Expr::Grouping(Box::new(e)))));
                assert(expr_lines_le(expr_view(Expr::Grouping(Box::new(e))), stream_max(*old(self))));
            }
            match self.consume(TokenType::RightParen, "Expect ')' after expression.") {
                Ok(u) => Ok(Expr::Grouping(Box::new(e))),
                Err(e) => Err(e),
            }
        } else if tt == TokenType::IDENTIFIER {
            self.advance();
            let name = token_dup(self.previous());
            proof {
                reveal_with_fuel(expr_view, 2);
                reveal_with_fuel(expr_deep_wf, 2);
                reveal_with_fuel(expr_lines_le, 2);
                assert(expr_deep_wf(expr_view(Expr::Var(name))));
                assert(expr_lines_le(expr_view(Expr::Var(name)), stream_max(*old(self))));
            }
            Ok(Expr::Var(name))
        } else {
            Err(MyError::NotImplementedError)
        }
    }
}


/// A token kind at which panic-mode recovery can resume parsing.
pub open spec fn is_sync_point(t: TokenType) -> bool {
    ||| t == TokenType::CLASS
    ||| t == TokenType::FUN
    ||| t == TokenType::VAR
    ||| t == TokenType::FOR
    ||| t == TokenType::IF
    ||| t == TokenType::WHILE
    ||| t == TokenType::PRINT
    ||| t == TokenType::RETURN
}

impl Parser {
    /// Panic-mode recovery: after a parse error, skips forward to the
    /// next statement boundary, so that parsing can go on and report
    /// further errors.  It stops at the end of the stream, just past a
    /// semicolon, or just before a keyword that starts a statement.
    pub fn synchronize(&mut self)
        requires
            old(self).wf(),
        ensures
            final(self).wf(),
            final(self).tokens@ == old(self).tokens@,
            old(self).current <= final(self).current,
            ({
                let ts = tokens_view(final(self).tokens@);
                let c = final(self).current as int;
                ||| c == ts.len() - 1
                ||| (c >= 1 && ts[c - 1].token_type == TokenType::SEMICOLON)
                ||| is_sync_point(ts[c].token_type)
            }),
    {
        self.advance();
        loop
            invariant
                self.wf(),
                self.tokens@ == old(self).tokens@,
                old(self).current <= self.current,
            ensures
                self.wf(),
                self.tokens@ == old(self).tokens@,
                old(self).current <= self.current,
                ({
                    let ts = tokens_view(self.tokens@);
                    let c = self.current as int;
                    ||| c == ts.len() - 1
                    ||| (c >= 1 && ts[c - 1].token_type == TokenType::SEMICOLON)
                    ||| is_sync_point(ts[c].token_type)
                }),
            decreases self.tokens@.len() - self.current,
        {
            if self.is_end() {
                break;
            }
            if self.current >= 1 {
                if self.previous().token_type == TokenType::SEMICOLON {
                    break;
                }
            }
            let tt = self.peek().token_type;
            if tt == TokenType::CLASS || tt == TokenType::FUN || tt == TokenType::VAR || tt
                == TokenType::FOR || tt == TokenType::IF || tt == TokenType::WHILE || tt
                == TokenType::PRINT || tt == TokenType::RETURN {
                break;
            }
            self.advance();
        }
    }
}

} // verus!
