//! Expressions of the abstract syntax tree and their mathematical mirror.

use vstd::prelude::*;

verus! {

use crate::tokens::{Token, Type, VToken, VType, token_view, type_view};

/// An expression node.  Operator nodes carry the operator token, whose
/// line number drives diagnostics.
#[derive(Debug, PartialEq)]
pub enum Expr {
    Assign { name: Token, value: Box<Expr> },
    Binary { left: Box<Expr>, op: Token, right: Box<Expr> },
    Literal(Type),
    Unary { op: Token, right: Box<Expr> },
    Grouping(Box<Expr>),
    Var(Token),
    Logical { left: Box<Expr>, op: Token, right: Box<Expr> },
    Call { callee: Box<Expr>, paren: Token, arguments: Vec<Expr> },
    Null,
}

/// The mathematical mirror of an expression.
#[verifier::ext_equal]
pub enum VExpr {
    Assign { name: VToken, value: Box<VExpr> },
    Binary { left: Box<VExpr>, op: VToken, right: Box<VExpr> },
    Literal(VType),
    Unary { op: VToken, right: Box<VExpr> },
    Grouping(Box<VExpr>),
    Var(VToken),
    Logical { left: Box<VExpr>, op: VToken, right: Box<VExpr> },
    Call { callee: Box<VExpr>, paren: VToken, args: Seq<VExpr> },
    Null,
}

/// The mirror of an expression.
pub open spec fn expr_view(e: Expr) -> VExpr
    decreases e,
{
    match e {
        Expr::Assign { name, value } => VExpr::Assign {
            name: token_view(name),
            value: Box::new(expr_view(*value)),
        },
        Expr::Binary { left, op, right } => VExpr::Binary {
            left: Box::new(expr_view(*left)),
            op: token_view(op),
            right: Box::new(expr_view(*right)),
        },
        Expr::Literal(t) => VExpr::Literal(type_view(t)),
        Expr::Unary { op, right } => VExpr::Unary {
            op: token_view(op),
            right: Box::new(expr_view(*right)),
        },
        Expr::Grouping(inner) => VExpr::Grouping(Box::new(expr_view(*inner))),
        Expr::Var(t) => VExpr::Var(token_view(t)),
        Expr::Logical { left, op, right } => VExpr::Logical {
            left: Box::new(expr_view(*left)),
            op: token_view(op),
            right: Box::new(expr_view(*right)),
        },
        Expr::Call { callee, paren, arguments } => VExpr::Call {
            callee: Box::new(expr_view(*callee)),
            paren: token_view(paren),
            args: exprs_view(arguments@),
        },
        Expr::Null => VExpr::Null,
    }
}

/// The mirror of a sequence of expressions.
pub open spec fn exprs_view(v: Seq<Expr>) -> Seq<VExpr>
    decreases v,
{
    Seq::new(
        v.len(),
        |i: int|
            if 0 <= i < v.len() {
                expr_view(v[i])
            } else {
                arbitrary()
            },
    )
}

/// A fresh expression, equal to the given one in the mirror.
pub fn expr_dup(e: &Expr) -> (r: Expr)
    ensures
        expr_view(r) == expr_view(*e),
    decreases *e,
{
    match e {
        Expr::Assign { name, value } => Expr::Assign {
            name: crate::tokens::token_dup(name),
            value: Box::new(expr_dup(&**value)),
        },
        Expr::Binary { left, op, right } => Expr::Binary {
            left: Box::new(expr_dup(&**left)),
            op: crate::tokens::token_dup(op),
            right: Box::new(expr_dup(&**right)),
        },
        Expr::Literal(t) => Expr::Literal(crate::tokens::type_dup(t)),
        Expr::Unary { op, right } => Expr::Unary {
            op: crate::tokens::token_dup(op),
            right: Box::new(expr_dup(&**right)),
        },
        Expr::Grouping(inner) => Expr::Grouping(Box::new(expr_dup(&**inner))),
        Expr::Var(t) => Expr::Var(crate::tokens::token_dup(t)),
        Expr::Logical { left, op, right } => Expr::Logical {
            left: Box::new(expr_dup(&**left)),
            op: crate::tokens::token_dup(op),
            right: Box::new(expr_dup(&**right)),
        },
        Expr::Call { callee, paren, arguments } => Expr::Call {
            callee: Box::new(expr_dup(&**callee)),
            paren: crate::tokens::token_dup(paren),
            arguments: exprs_dup(arguments),
        },
        Expr::Null => Expr::Null,
    }
}

/// A fresh vector of expressions, elementwise equal in the mirror.
pub fn exprs_dup(v: &Vec<Expr>) -> (r: Vec<Expr>)
    ensures
        r@.len() == v@.len(),
        exprs_view(r@) == exprs_view(v@),
    decreases *v,
{
    let mut out: Vec<Expr> = Vec::new();
    exprs_dup_into(v, 0, &mut out);
    proof {
        assert(exprs_view(out@) =~= exprs_view(v@));
    }
    out
}

fn exprs_dup_into(v: &Vec<Expr>, i: usize, out: &mut Vec<Expr>)
    requires
        i <= v@.len(),
    ensures
        final(out)@.len() == old(out)@.len() + (v@.len() - i),
        forall|j: int| 0 <= j < old(out)@.len() ==> final(out)@[j] == old(out)@[j],
        forall|j: int|
            old(out)@.len() <= j < final(out)@.len() ==> expr_view(final(out)@[j]) == expr_view(
                v@[i + j - old(out)@.len()],
            ),
    decreases *v, v@.len() - i,
{
    if i < v.len() {
        out.push(expr_dup(&v[i]));
        exprs_dup_into(v, i + 1, out);
    }
}

/// Decides equality of two expressions in the mirror.
pub fn expr_eq(a: &Expr, b: &Expr) -> (r: bool)
    ensures
        r == (expr_view(*a) == expr_view(*b)),
    decreases *a,
{
    match (a, b) {
        (Expr::Assign { name: n1, value: v1 }, Expr::Assign { name: n2, value: v2 }) =>
            crate::tokens::token_eq(n1, n2) && expr_eq(&**v1, &**v2),
        (
            Expr::Binary { left: l1, op: o1, right: r1 },
            Expr::Binary { left: l2, op: o2, right: r2 },
        ) => expr_eq(&**l1, &**l2) && crate::tokens::token_eq(o1, o2) && expr_eq(&**r1, &**r2),
        (Expr::Literal(t1), Expr::Literal(t2)) => crate::tokens::type_eq(t1, t2),
        (Expr::Unary { op: o1, right: r1 }, Expr::Unary { op: o2, right: r2 }) =>
            crate::tokens::token_eq(o1, o2) && expr_eq(&**r1, &**r2),
        (Expr::Grouping(g1), Expr::Grouping(g2)) => expr_eq(&**g1, &**g2),
        (Expr::Var(t1), Expr::Var(t2)) => crate::tokens::token_eq(t1, t2),
        (
            Expr::Logical { left: l1, op: o1, right: r1 },
            Expr::Logical { left: l2, op: o2, right: r2 },
        ) => expr_eq(&**l1, &**l2) && crate::tokens::token_eq(o1, o2) && expr_eq(&**r1, &**r2),
        (
            Expr::Call { callee: c1, paren: p1, arguments: a1 },
            Expr::Call { callee: c2, paren: p2, arguments: a2 },
        ) => expr_eq(&**c1, &**c2) && crate::tokens::token_eq(p1, p2) && exprs_eq(a1, a2),
        (Expr::Null, Expr::Null) => true,
        _ => false,
    }
}

/// Decides elementwise mirror equality of two expression vectors.
pub fn exprs_eq(a: &Vec<Expr>, b: &Vec<Expr>) -> (r: bool)
    ensures
        r == (exprs_view(a@) == exprs_view(b@)),
    decreases *a,
{
    if a.len() != b.len() {
        proof {
            assert(exprs_view(a@).len() != exprs_view(b@).len());
        }
        false
    } else {
        let r = exprs_eq_from(a, b, 0);
        proof {
            if r {
                assert(exprs_view(a@) =~= exprs_view(b@));
            } else {
                let j = choose|j: int| 0 <= j < a@.len() && expr_view(a@[j]) != expr_view(b@[j]);
                assert(exprs_view(a@)[j] == expr_view(a@[j]));
                assert(exprs_view(b@)[j] == expr_view(b@[j]));
            }
        }
        r
    }
}

fn exprs_eq_from(a: &Vec<Expr>, b: &Vec<Expr>, i: usize) -> (r: bool)
    requires
        a@.len() == b@.len(),
        i <= a@.len(),
    ensures
        r == (forall|j: int| i <= j < a@.len() ==> expr_view(a@[j]) == expr_view(b@[j])),
    decreases *a, a@.len() - i,
{
    if i < a.len() {
        if expr_eq(&a[i], &b[i]) {
            exprs_eq_from(a, b, i + 1)
        } else {
            false
        }
    } else {
        true
    }
}


/// The flat rendering of an expression: literals by their value,
/// operators by their lexeme, assignments and logical operators spaced,
/// calls with a parenthesized comma-separated argument list.
pub open spec fn expr_text(e: VExpr) -> Seq<char>
    decreases e, 0int,
{
    match e {
        VExpr::Literal(v) => crate::tokens::vtype_text(v),
        VExpr::Unary { op, right } => op.lexeme + expr_text(*right),
        VExpr::Grouping(inner) => expr_text(*inner),
        VExpr::Binary { left, op, right } => expr_text(*left) + op.lexeme + expr_text(*right),
        VExpr::Var(t) => t.lexeme,
        VExpr::Null => Seq::<char>::empty(),
        VExpr::Assign { name, value } => name.lexeme + " = "@ + expr_text(*value),
        VExpr::Logical { left, op, right } => expr_text(*left) + seq![' '] + op.lexeme
            + seq![' '] + expr_text(*right),
        VExpr::Call { callee, paren, args } => expr_text(*callee) + seq!['('] + exprs_text(args)
            + seq![')'],
    }
}

/// The renderings of a list of expressions, separated by commas.
pub open spec fn exprs_text(es: Seq<VExpr>) -> Seq<char>
    decreases es, 0int,
{
    if es.len() == 0 {
        Seq::<char>::empty()
    } else if es.len() == 1 {
        expr_text(es[0])
    } else {
        expr_text(es[0]) + seq![','] + exprs_text(es.subrange(1, es.len() as int))
    }
}

impl Expr {
    /// The flat rendering of this expression.
    pub fn to_string(&self) -> (r: String)
        requires
            crate::interpreter::expr_deep_wf(expr_view(*self)),
        ensures
            r@ == expr_text(expr_view(*self)),
        decreases *self, 1int,
    {
        proof {
            reveal_with_fuel(crate::interpreter::expr_deep_wf, 2);
            reveal_with_fuel(expr_text, 2);
            reveal_with_fuel(expr_view, 2);
        }
        match self {
            Expr::Literal(v) => {
                proof {
                    assert(crate::interpreter::vtype_deep_wf(type_view(*v)));
                    assert(crate::tokens::vtype_wf(type_view(*v)));
                }
                let s = v.to_string();
                proof {
                    assert(expr_text(expr_view(*self)) == crate::tokens::vtype_text(
                        type_view(*v),
                    ));
                }
                s
            },
            Expr::Unary { op, right } => {
                let mut s = op.lexeme.clone();
                let rs = right.to_string();
                s.append(rs.as_str());
                proof {
                    assert(expr_view(*self) matches VExpr::Unary { op: o2, right: r2 } && o2
                        == token_view(*op) && *r2 == expr_view(**right));
                    assert(expr_text(expr_view(*self)) == op.lexeme@ + expr_text(
                        expr_view(**right),
                    ));
                    assert(s@ =~= expr_text(expr_view(*self)));
                }
                s
            },
            Expr::Grouping(inner) => {
                let s = inner.to_string();
                proof {
                    assert(expr_text(expr_view(*self)) == expr_text(expr_view(**inner)));
                }
                s
            },
            Expr::Binary { left, op, right } => {
                let mut s = left.to_string();
                s.append(op.lexeme.as_str());
                let rs = right.to_string();
                s.append(rs.as_str());
                proof {
                    assert(expr_view(*self) matches VExpr::Binary { left: l2, op: o2, right: r2 }
                        && *l2 == expr_view(**left) && o2 == token_view(*op) && *r2 == expr_view(
                        **right,
                    ));
                    assert(expr_text(expr_view(*self)) == expr_text(expr_view(**left))
                        + op.lexeme@ + expr_text(expr_view(**right)));
                    assert(s@ =~= expr_text(expr_view(*self)));
                }
                s
            },
            Expr::Var(t) => {
                let s = t.lexeme.clone();
                proof {
                    assert(expr_text(expr_view(*self)) == t.lexeme@);
                }
                s
            },
            Expr::Null => {
                let s = String::new();
                proof {
                    assert(expr_text(expr_view(*self)) =~= s@);
                }
                s
            },
            Expr::Assign { name, value } => {
                let mut s = name.lexeme.clone();
                s.append(" = ");
                let vs = value.to_string();
                s.append(vs.as_str());
                proof {
                    assert(expr_view(*self) matches VExpr::Assign { name: n2, value: v2 } && n2
                        == token_view(*name) && *v2 == expr_view(**value));
                    assert(expr_text(expr_view(*self)) == name.lexeme@ + " = "@ + expr_text(
                        expr_view(**value),
                    ));
                    assert(s@ =~= expr_text(expr_view(*self)));
                }
                s
            },
            Expr::Logical { left, op, right } => {
                let mut s = left.to_string();
                crate::text::push_char(&mut s, ' ');
                s.append(op.lexeme.as_str());
                crate::text::push_char(&mut s, ' ');
                let rs = right.to_string();
                s.append(rs.as_str());
                proof {
                    assert(expr_view(*self) matches VExpr::Logical { left: l2, op: o2, right: r2 }
                        && *l2 == expr_view(**left) && o2 == token_view(*op) && *r2 == expr_view(
                        **right,
                    ));
                    assert(expr_text(expr_view(*self)) == expr_text(expr_view(**left))
                        + seq![' '] + op.lexeme@ + seq![' '] + expr_text(expr_view(**right)));
                    assert(s@ =~= expr_text(expr_view(*self)));
                }
                s
            },
            Expr::Call { callee, paren, arguments } => {
                let mut s = callee.to_string();
                crate::text::push_char(&mut s, '(');
                let args = exprs_to_string(arguments, 0);
                s.append(args.as_str());
                crate::text::push_char(&mut s, ')');
                proof {
                    assert(exprs_view(arguments@).subrange(0, arguments@.len() as int) =~=
                        exprs_view(arguments@));
                    assert(s@ =~= expr_text(expr_view(*self)));
                }
                s
            },
        }
    }
}

/// Renders the expressions from position `i` on, separated by commas.
fn exprs_to_string(es: &Vec<Expr>, i: usize) -> (r: String)
    requires
        crate::interpreter::exprs_deep_wf(exprs_view(es@)),
        i <= es@.len(),
    ensures
        r@ == exprs_text(exprs_view(es@).subrange(i as int, es@.len() as int)),
    decreases *es, es@.len() - i, 0int,
{
    proof {
        reveal_with_fuel(exprs_text, 2);
    }
    let ghost ev = exprs_view(es@);
    if i >= es.len() {
        proof {
            assert(ev.subrange(i as int, es@.len() as int) =~= Seq::<VExpr>::empty());
        }
        String::new()
    } else {
        proof {
            assert(ev.subrange(i as int, es@.len() as int)[0] == expr_view(es@[i as int]));
            assert(crate::interpreter::expr_deep_wf(ev[i as int]));
        }
        let mut s = es[i].to_string();
        if i + 1 < es.len() {
            crate::text::push_char(&mut s, ',');
            let rest = exprs_to_string(es, i + 1);
            s.append(rest.as_str());
            proof {
                assert(ev.subrange(i as int, es@.len() as int).subrange(
                    1,
                    es@.len() - i,
                ) =~= ev.subrange(i + 1, es@.len() as int));
                assert(s@ =~= exprs_text(ev.subrange(i as int, es@.len() as int)));
            }
        } else {
            proof {
                assert(ev.subrange(i as int, es@.len() as int).len() == 1);
            }
        }
        s
    }
}

} // verus!
