//! Statements of the abstract syntax tree and their mathematical mirror.

use vstd::prelude::*;

verus! {

use crate::expr::{Expr, VExpr, expr_view};
use crate::tokens::{Token, VToken, token_view, tokens_view, token_dup};

/// A statement node.
#[allow(non_camel_case_types)]
#[derive(Debug, PartialEq)]
pub enum Stmt {
    ExprStmt(Expr),
    PrintStmt(Expr),
    VarStmt { name: Token, initializer: Expr },
    IfStmt { condition: Expr, then_branch: Box<Stmt>, else_branch: Box<Stmt> },
    WhileStmt { condition: Expr, body: Box<Stmt> },
    Block(Vec<Stmt>),
    Break,
    Function { name: Token, params: Vec<Token>, body: Vec<Stmt> },
    NULL,
}

/// A function declaration packaged as a callable value.
#[derive(Debug, PartialEq)]
pub struct LoxFunction {
    pub name: Token,
    pub params: Vec<Token>,
    pub body: Vec<Stmt>,
}

/// The mathematical mirror of a statement.
#[verifier::ext_equal]
pub enum VStmt {
    Expr(VExpr),
    Print(VExpr),
    Var { name: VToken, init: VExpr },
    If { cond: VExpr, then_b: Box<VStmt>, else_b: Box<VStmt> },
    While { cond: VExpr, body: Box<VStmt> },
    Block(Seq<VStmt>),
    Break,
    Function { name: VToken, params: Seq<VToken>, body: Seq<VStmt> },
    Null,
}

/// The mirror of a statement.
pub open spec fn stmt_view(s: Stmt) -> VStmt
    decreases s,
{
    match s {
        Stmt::ExprStmt(e) => VStmt::Expr(expr_view(e)),
        Stmt::PrintStmt(e) => VStmt::Print(expr_view(e)),
        Stmt::VarStmt { name, initializer } => VStmt::Var {
            name: token_view(name),
            init: expr_view(initializer),
        },
        Stmt::IfStmt { condition, then_branch, else_branch } => VStmt::If {
            cond: expr_view(condition),
            then_b: Box::new(stmt_view(*then_branch)),
            else_b: Box::new(stmt_view(*else_branch)),
        },
        Stmt::WhileStmt { condition, body } => VStmt::While {
            cond: expr_view(condition),
            body: Box::new(stmt_view(*body)),
        },
        Stmt::Block(v) => VStmt::Block(stmts_view(v@)),
        Stmt::Break => VStmt::Break,
        Stmt::Function { name, params, body } => VStmt::Function {
            name: token_view(name),
            params: tokens_view(params@),
            body: stmts_view(body@),
        },
        Stmt::NULL => VStmt::Null,
    }
}

/// The mirror of a sequence of statements.
pub open spec fn stmts_view(v: Seq<Stmt>) -> Seq<VStmt>
    decreases v,
{
    Seq::new(
        v.len(),
        |i: int|
            if 0 <= i < v.len() {
                stmt_view(v[i])
            } else {
                arbitrary()
            },
    )
}

impl LoxFunction {
    /// How many parameters the function declares.
    pub fn arity(&self) -> (n: usize)
        ensures
            n as nat == crate::tokens::fun_view(*self).params.len(),
    {
        self.params.len()
    }
}

/// A fresh statement, equal to the given one in the mirror.
pub fn stmt_dup(s: &Stmt) -> (r: Stmt)
    ensures
        stmt_view(r) == stmt_view(*s),
    decreases *s,
{
    match s {
        Stmt::ExprStmt(e) => Stmt::ExprStmt(crate::expr::expr_dup(e)),
        Stmt::PrintStmt(e) => Stmt::PrintStmt(crate::expr::expr_dup(e)),
        Stmt::VarStmt { name, initializer } => Stmt::VarStmt {
            name: token_dup(name),
            initializer: crate::expr::expr_dup(initializer),
        },
        Stmt::IfStmt { condition, then_branch, else_branch } => Stmt::IfStmt {
            condition: crate::expr::expr_dup(condition),
            then_branch: Box::new(stmt_dup(&**then_branch)),
            else_branch: Box::new(stmt_dup(&**else_branch)),
        },
        Stmt::WhileStmt { condition, body } => Stmt::WhileStmt {
            condition: crate::expr::expr_dup(condition),
            body: Box::new(stmt_dup(&**body)),
        },
        Stmt::Block(v) => Stmt::Block(stmts_dup(v)),
        Stmt::Break => Stmt::Break,
        Stmt::Function { name, params, body } => Stmt::Function {
            name: token_dup(name),
            params: crate::tokens::tokens_dup(params),
            body: stmts_dup(body),
        },
        Stmt::NULL => Stmt::NULL,
    }
}

/// A fresh vector of statements, elementwise equal in the mirror.
pub fn stmts_dup(v: &Vec<Stmt>) -> (r: Vec<Stmt>)
    ensures
        r@.len() == v@.len(),
        stmts_view(r@) == stmts_view(v@),
    decreases *v,
{
    let mut out: Vec<Stmt> = Vec::new();
    stmts_dup_into(v, 0, &mut out);
    proof {
        assert(stmts_view(out@) =~= stmts_view(v@));
    }
    out
}

fn stmts_dup_into(v: &Vec<Stmt>, i: usize, out: &mut Vec<Stmt>)
    requires
        i <= v@.len(),
    ensures
        final(out)@.len() == old(out)@.len() + (v@.len() - i),
        forall|j: int| 0 <= j < old(out)@.len() ==> final(out)@[j] == old(out)@[j],
        forall|j: int|
            old(out)@.len() <= j < final(out)@.len() ==> stmt_view(final(out)@[j]) == stmt_view(
                v@[i + j - old(out)@.len()],
            ),
    decreases *v, v@.len() - i,
{
    if i < v.len() {
        out.push(stmt_dup(&v[i]));
        stmts_dup_into(v, i + 1, out);
    }
}

/// Decides equality of two statements in the mirror.
pub fn stmt_eq(a: &Stmt, b: &Stmt) -> (r: bool)
    ensures
        r == (stmt_view(*a) == stmt_view(*b)),
    decreases *a,
{
    match (a, b) {
        (Stmt::ExprStmt(x), Stmt::ExprStmt(y)) => crate::expr::expr_eq(x, y),
        (Stmt::PrintStmt(x), Stmt::PrintStmt(y)) => crate::expr::expr_eq(x, y),
        (
            Stmt::VarStmt { name: n1, initializer: i1 },
            Stmt::VarStmt { name: n2, initializer: i2 },
        ) => crate::tokens::token_eq(n1, n2) && crate::expr::expr_eq(i1, i2),
        (
            Stmt::IfStmt { condition: c1, then_branch: t1, else_branch: e1 },
            Stmt::IfStmt { condition: c2, then_branch: t2, else_branch: e2 },
        ) => crate::expr::expr_eq(c1, c2) && stmt_eq(&**t1, &**t2) && stmt_eq(&**e1, &**e2),
        (
            Stmt::WhileStmt { condition: c1, body: b1 },
            Stmt::WhileStmt { condition: c2, body: b2 },
        ) => crate::expr::expr_eq(c1, c2) && stmt_eq(&**b1, &**b2),
        (Stmt::Block(v1), Stmt::Block(v2)) => stmts_eq(v1, v2),
        (Stmt::Break, Stmt::Break) => true,
        (
            Stmt::Function { name: n1, params: p1, body: b1 },
            Stmt::Function { name: n2, params: p2, body: b2 },
        ) => crate::tokens::token_eq(n1, n2) && crate::tokens::tokens_eq(p1, p2) && stmts_eq(
            b1,
            b2,
        ),
        (Stmt::NULL, Stmt::NULL) => true,
        _ => false,
    }
}

/// Decides elementwise mirror equality of two statement vectors.
pub fn stmts_eq(a: &Vec<Stmt>, b: &Vec<Stmt>) -> (r: bool)
    ensures
        r == (stmts_view(a@) == stmts_view(b@)),
    decreases *a,
{
    if a.len() != b.len() {
        proof {
            assert(stmts_view(a@).len() != stmts_view(b@).len());
        }
        false
    } else {
        let r = stmts_eq_from(a, b, 0);
        proof {
            if r {
                assert(stmts_view(a@) =~= stmts_view(b@));
            } else {
                let j = choose|j: int| 0 <= j < a@.len() && stmt_view(a@[j]) != stmt_view(b@[j]);
                assert(stmts_view(a@)[j] == stmt_view(a@[j]));
                assert(stmts_view(b@)[j] == stmt_view(b@[j]));
            }
        }
        r
    }
}

fn stmts_eq_from(a: &Vec<Stmt>, b: &Vec<Stmt>, i: usize) -> (r: bool)
    requires
        a@.len() == b@.len(),
        i <= a@.len(),
    ensures
        r == (forall|j: int| i <= j < a@.len() ==> stmt_view(a@[j]) == stmt_view(b@[j])),
    decreases *a, a@.len() - i,
{
    if i < a.len() {
        if stmt_eq(&a[i], &b[i]) {
            stmts_eq_from(a, b, i + 1)
        } else {
            false
        }
    } else {
        true
    }
}

} // verus!
