//! The tree-walking evaluator.  Its whole behaviour is given by the
//! mathematical big-step semantics below (`sp_eval`, `sp_exec`,
//! `sp_exec_seq`), a total function over mirrored states with a depth
//! budget; the executable interpreter is proved to return exactly what
//! the semantics says, state, output and error included.

use vstd::prelude::*;

verus! {

use crate::environment::{Environment, env_find, env_has, env_define, env_assign, scopes_v};
use crate::errors::{MyError, VErr};
use crate::expr::{Expr, VExpr, expr_view, exprs_view};
use crate::rational::{rat_add, rat_sub, rat_mul, rat_div, rat_neg, rat_eq, rat_lt, rat_le, fits};
use crate::stmt::{Stmt, VStmt, stmt_view, stmts_view, LoxFunction};
use vstd::string::StringExecFns;
use crate::text::dec_digits;
use crate::tokens::{
    Token,
    TokenType,
    Type,
    VType,
    VFun,
    VToken,
    type_view,
    token_view,
    vtype_text,
    vtype_wf,
    type_dup,
    token_dup,
    tokens_dup,
};

/// How many loop iterations and nested calls one run may spend.
pub const STEP_LIMIT: u64 = 1000000;

/// The interpreter state the semantics runs over: the environment chain
/// and the lines written so far.
pub struct StateM {
    pub env: Seq<Seq<(Seq<char>, VType)>>,
    pub output: Seq<Seq<char>>,
}

/// Truthiness: nil and false are falsy, every other value is truthy.
pub open spec fn truthy(v: VType) -> bool {
    match v {
        VType::Nil => false,
        VType::Bool(b) => b,
        _ => true,
    }
}

/// The language's equality: nil equals only nil, numbers by exact value,
/// everything else structurally.
pub open spec fn vals_equal(a: VType, b: VType) -> bool {
    match (a, b) {
        (VType::Nil, VType::Nil) => true,
        (VType::Nil, _) => false,
        (_, VType::Nil) => false,
        (VType::Bool(x), VType::Bool(y)) => x == y,
        (VType::Num(n1, d1), VType::Num(n2, d2)) => rat_eq((n1, d1), (n2, d2)),
        (VType::Str(x), VType::Str(y)) => x == y,
        (VType::Fun(f), VType::Fun(g)) => f == g,
        _ => false,
    }
}

/// The message of the error for a non-numeric operand.
pub open spec fn operand_msg(line: nat) -> Seq<char> {
    "[Line "@ + dec_digits(line) + "]: Operand must be a number"@
}

/// The message of the error for `+` on an unsupported pair.
pub open spec fn not_supported_msg(line: nat) -> Seq<char> {
    "[Line "@ + dec_digits(line) + "]: Operation not supported."@
}

/// A numeric operand, or the cast error naming the operator's line.
pub open spec fn as_num(v: VType, line: nat) -> Result<(int, int), VErr> {
    match v {
        VType::Num(n, d) => Ok((n, d)),
        _ => Err(VErr::CastError(operand_msg(line))),
    }
}

/// A number value when the exact fraction is representable, and the
/// overflow error when it is not.
pub open spec fn num_or_overflow(p: (int, int)) -> Result<VType, VErr> {
    if fits(p) {
        Ok(VType::Num(p.0, p.1))
    } else {
        Err(VErr::NumberOverflow)
    }
}

/// The value of a binary operator on two evaluated operands.
pub open spec fn eval_binary(op: TokenType, line: nat, l: VType, r: VType) -> Result<VType, VErr> {
    if op == TokenType::PLUS {
        match (l, r) {
            (VType::Num(a, b), VType::Num(c, d)) => num_or_overflow(rat_add((a, b), (c, d))),
            (VType::Str(x), VType::Str(y)) => Ok(VType::Str(x + y)),
            _ => Err(VErr::CastError(not_supported_msg(line))),
        }
    } else if op == TokenType::EqualEqual {
        Ok(VType::Bool(vals_equal(l, r)))
    } else if op == TokenType::BangEqual {
        Ok(VType::Bool(!vals_equal(l, r)))
    } else if op == TokenType::MINUS || op == TokenType::SLASH || op == TokenType::STAR || op
        == TokenType::GREATER || op == TokenType::GreaterEqual || op == TokenType::LESS || op
        == TokenType::LessEqual {
        match as_num(l, line) {
            Err(e) => Err(e),
            Ok(a) => match as_num(r, line) {
                Err(e) => Err(e),
                Ok(b) => {
                    if op == TokenType::MINUS {
                        num_or_overflow(rat_sub(a, b))
                    } else if op == TokenType::SLASH {
                        if b.0 == 0 {
                            Err(VErr::Dividedbyzero)
                        } else {
                            num_or_overflow(rat_div(a, b))
                        }
                    } else if op == TokenType::STAR {
                        num_or_overflow(rat_mul(a, b))
                    } else if op == TokenType::GREATER {
                        Ok(VType::Bool(rat_lt(b, a)))
                    } else if op == TokenType::GreaterEqual {
                        Ok(VType::Bool(rat_le(b, a)))
                    } else if op == TokenType::LESS {
                        Ok(VType::Bool(rat_lt(a, b)))
                    } else {
                        Ok(VType::Bool(rat_le(a, b)))
                    }
                },
            },
        }
    } else {
        Err(VErr::NotImplemented)
    }
}

/// The activation frame of a call: parameters bound to arguments in
/// positional order.
pub open spec fn bind_frame(params: Seq<VToken>, vals: Seq<VType>) -> Seq<(Seq<char>, VType)> {
    Seq::new(
        params.len(),
        |i: int|
            if 0 <= i < params.len() && i < vals.len() {
                (params[i].lexeme, vals[i])
            } else {
                arbitrary()
            },
    )
}

/// The state with a fresh innermost scope opened.
pub open spec fn push_scope_m(st: StateM) -> StateM {
    StateM { env: st.env.push(Seq::<(Seq<char>, VType)>::empty()), output: st.output }
}

/// The state with the innermost scope closed.
pub open spec fn pop_scope_m(st: StateM) -> StateM {
    StateM { env: st.env.drop_last(), output: st.output }
}

/// The value of an expression: final state and value or error.
/// Evaluation is strictly left to right; `fuel` bounds loop iterations
/// and call depth.
pub open spec fn sp_eval(e: VExpr, st: StateM, repl: bool, fuel: nat) -> (StateM, Result<
    VType,
    VErr,
>)
    decreases fuel, e, 0int,
{
    match e {
        VExpr::Literal(v) => (st, Ok(v)),
        VExpr::Null => (st, Ok(VType::Nil)),
        VExpr::Grouping(inner) => sp_eval(*inner, st, repl, fuel),
        VExpr::Var(tok) => match env_find(st.env, tok.lexeme) {
            Some(v) => (st, Ok(v)),
            None => (st, Err(VErr::EnValueNotFound(tok.lexeme))),
        },
        VExpr::Assign { name, value } => {
            let r1 = sp_eval(*value, st, repl, fuel);
            match r1.1 {
                Err(e1) => r1,
                Ok(v) => {
                    if env_has(r1.0.env, name.lexeme) {
                        (
                            StateM { env: env_assign(r1.0.env, name.lexeme, v), output: r1.0.output },
                            Ok(v),
                        )
                    } else {
                        (r1.0, Err(VErr::EnValueNotFound(name.lexeme)))
                    }
                },
            }
        },
        VExpr::Unary { op, right } => {
            let r1 = sp_eval(*right, st, repl, fuel);
            match r1.1 {
                Err(e1) => r1,
                Ok(v) => {
                    if op.token_type == TokenType::BANG {
                        (r1.0, Ok(VType::Bool(!truthy(v))))
                    } else if op.token_type == TokenType::MINUS {
                        match as_num(v, op.line) {
                            Ok(a) => (r1.0, Ok(VType::Num(rat_neg(a).0, rat_neg(a).1))),
                            Err(e) => (r1.0, Err(e)),
                        }
                    } else {
                        (r1.0, Err(VErr::NotImplemented))
                    }
                },
            }
        },
        VExpr::Binary { left, op, right } => {
            let r1 = sp_eval(*left, st, repl, fuel);
            match r1.1 {
                Err(e1) => r1,
                Ok(l) => {
                    let r2 = sp_eval(*right, r1.0, repl, fuel);
                    match r2.1 {
                        Err(e2) => r2,
                        Ok(r) => (r2.0, eval_binary(op.token_type, op.line, l, r)),
                    }
                },
            }
        },
        VExpr::Logical { left, op, right } => {
            let r1 = sp_eval(*left, st, repl, fuel);
            match r1.1 {
                Err(e1) => r1,
                Ok(l) => {
                    if op.token_type == TokenType::OR {
                        if truthy(l) {
                            (r1.0, Ok(l))
                        } else {
                            sp_eval(*right, r1.0, repl, fuel)
                        }
                    } else if op.token_type == TokenType::AND {
                        if !truthy(l) {
                            (r1.0, Ok(l))
                        } else {
                            sp_eval(*right, r1.0, repl, fuel)
                        }
                    } else {
                        (r1.0, Err(VErr::NotImplemented))
                    }
                },
            }
        },
        VExpr::Call { callee, paren, args } => {
            let r1 = sp_eval(*callee, st, repl, fuel);
            match r1.1 {
                Err(e1) => r1,
                Ok(cv) => {
                    let r2 = sp_eval_list(args, r1.0, repl, fuel);
                    match r2.1 {
                        Err(e2) => (r2.0, Err(e2)),
                        Ok(vals) => match cv {
                            VType::Fun(f) => {
                                if f.params.len() != vals.len() {
                                    (
                                        r2.0,
                                        Err(
                                            VErr::ArityMismatch(
                                                f.params.len(),
                                                vals.len(),
                                                paren.line,
                                            ),
                                        ),
                                    )
                                } else if fuel == 0 {
                                    (r2.0, Err(VErr::RecursionLimit))
                                } else {
                                    let frame = bind_frame(f.params, vals);
                                    let call_st = StateM {
                                        env: seq![r2.0.env[0], frame],
                                        output: r2.0.output,
                                    };
                                    let r3 = sp_exec_seq(
                                        f.body,
                                        call_st,
                                        false,
                                        repl,
                                        (fuel - 1) as nat,
                                    );
                                    let env4 = seq![r3.0.env[0]] + r2.0.env.subrange(
                                        1,
                                        r2.0.env.len() as int,
                                    );
                                    let st4 = StateM { env: env4, output: r3.0.output };
                                    match r3.1 {
                                        Err(e3) => (st4, Err(e3)),
                                        Ok(b) => (st4, Ok(VType::Nil)),
                                    }
                                }
                            },
                            _ => (r2.0, Err(VErr::NotCallable)),
                        },
                    }
                },
            }
        },
    }
}

/// The values of a list of expressions, evaluated left to right.
pub open spec fn sp_eval_list(es: Seq<VExpr>, st: StateM, repl: bool, fuel: nat) -> (StateM, Result<
    Seq<VType>,
    VErr,
>)
    decreases fuel, es, 0int,
{
    if es.len() == 0 {
        (st, Ok(Seq::<VType>::empty()))
    } else {
        let r1 = sp_eval(es[0], st, repl, fuel);
        match r1.1 {
            Err(e1) => (r1.0, Err(e1)),
            Ok(v) => {
                let rest = sp_eval_list(es.subrange(1, es.len() as int), r1.0, repl, fuel);
                match rest.1 {
                    Err(e2) => (rest.0, Err(e2)),
                    Ok(vs) => (rest.0, Ok(seq![v] + vs)),
                }
            },
        }
    }
}

/// The effect of one statement: final state, and normal completion
/// (false), a break signal (true), or an error.
pub open spec fn sp_exec(s: VStmt, st: StateM, in_loop: bool, repl: bool, fuel: nat) -> (StateM, Result<
    bool,
    VErr,
>)
    decreases fuel, s, 0int,
{
    match s {
        VStmt::Expr(e) => {
            let r1 = sp_eval(e, st, repl, fuel);
            match r1.1 {
                Err(e1) => (r1.0, Err(e1)),
                Ok(v) => {
                    if repl {
                        (
                            StateM { env: r1.0.env, output: r1.0.output.push(vtype_text(v)) },
                            Ok(false),
                        )
                    } else {
                        (r1.0, Ok(false))
                    }
                },
            }
        },
        VStmt::Print(e) => {
            let r1 = sp_eval(e, st, repl, fuel);
            match r1.1 {
                Err(e1) => (r1.0, Err(e1)),
                Ok(v) => (
                    StateM { env: r1.0.env, output: r1.0.output.push(vtype_text(v)) },
                    Ok(false),
                ),
            }
        },
        VStmt::Var { name, init } => {
            let r1 = sp_eval(init, st, repl, fuel);
            match r1.1 {
                Err(e1) => (r1.0, Err(e1)),
                Ok(v) => (
                    StateM { env: env_define(r1.0.env, name.lexeme, v), output: r1.0.output },
                    Ok(false),
                ),
            }
        },
        VStmt::If { cond, then_b, else_b } => {
            let r1 = sp_eval(cond, st, repl, fuel);
            match r1.1 {
                Err(e1) => (r1.0, Err(e1)),
                Ok(v) => {
                    if truthy(v) {
                        sp_exec(*then_b, r1.0, in_loop, repl, fuel)
                    } else {
                        sp_exec(*else_b, r1.0, in_loop, repl, fuel)
                    }
                },
            }
        },
        VStmt::While { cond, body } => {
            if fuel == 0 {
                (st, Err(VErr::RecursionLimit))
            } else {
                let r1 = sp_eval(cond, st, repl, fuel);
                match r1.1 {
                    Err(e1) => (r1.0, Err(e1)),
                    Ok(v) => {
                        if !truthy(v) {
                            (r1.0, Ok(false))
                        } else {
                            let r2 = sp_exec(*body, r1.0, true, repl, fuel);
                            match r2.1 {
                                Err(e2) => (r2.0, Err(e2)),
                                Ok(broke) => {
                                    if broke {
                                        (r2.0, Ok(false))
                                    } else {
                                        sp_exec(s, r2.0, in_loop, repl, (fuel - 1) as nat)
                                    }
                                },
                            }
                        }
                    },
                }
            }
        },
        VStmt::Block(ss) => {
            let r1 = sp_exec_seq(ss, push_scope_m(st), in_loop, repl, fuel);
            (pop_scope_m(r1.0), r1.1)
        },
        VStmt::Break => {
            if in_loop {
                (st, Ok(true))
            } else {
                (st, Err(VErr::BreakNotInLoop))
            }
        },
        VStmt::Function { name, params, body } => {
            let v = VType::Fun(Box::new(VFun { name, params, body }));
            (StateM { env: env_define(st.env, name.lexeme, v), output: st.output }, Ok(false))
        },
        VStmt::Null => (st, Ok(false)),
    }
}

/// The effect of a statement list, stopping at the first error or break.
pub open spec fn sp_exec_seq(ss: Seq<VStmt>, st: StateM, in_loop: bool, repl: bool, fuel: nat) -> (StateM, Result<
    bool,
    VErr,
>)
    decreases fuel, ss, 0int,
{
    if ss.len() == 0 {
        (st, Ok(false))
    } else {
        let r1 = sp_exec(ss[0], st, in_loop, repl, fuel);
        match r1.1 {
            Err(e1) => (r1.0, Err(e1)),
            Ok(broke) => {
                if broke {
                    (r1.0, Ok(true))
                } else {
                    sp_exec_seq(ss.subrange(1, ss.len() as int), r1.0, in_loop, repl, fuel)
                }
            },
        }
    }
}

/// Deep well-formedness of a value: every number it holds, also inside
/// function bodies, is a normalized representable fraction.
pub open spec fn vtype_deep_wf(v: VType) -> bool
    decreases v, 0int,
{
    match v {
        VType::Num(n, d) => vtype_wf(v),
        VType::Fun(f) => stmts_deep_wf(f.body),
        _ => true,
    }
}

/// Deep well-formedness of a statement list.
pub open spec fn stmts_deep_wf(ss: Seq<VStmt>) -> bool
    decreases ss, 0int,
{
    forall|i: int| 0 <= i < ss.len() ==> stmt_deep_wf(#[trigger] ss[i])
}

/// Deep well-formedness of a statement.
pub open spec fn stmt_deep_wf(s: VStmt) -> bool
    decreases s, 0int,
{
    match s {
        VStmt::Expr(e) => expr_deep_wf(e),
        VStmt::Print(e) => expr_deep_wf(e),
        VStmt::Var { name, init } => expr_deep_wf(init),
        VStmt::If { cond, then_b, else_b } => expr_deep_wf(cond) && stmt_deep_wf(*then_b)
            && stmt_deep_wf(*else_b),
        VStmt::While { cond, body } => expr_deep_wf(cond) && stmt_deep_wf(*body),
        VStmt::Block(ss) => stmts_deep_wf(ss),
        VStmt::Break => true,
        VStmt::Function { name, params, body } => stmts_deep_wf(body),
        VStmt::Null => true,
    }
}

/// Deep well-formedness of an expression.
pub open spec fn expr_deep_wf(e: VExpr) -> bool
    decreases e, 0int,
{
    match e {
        VExpr::Literal(v) => vtype_deep_wf(v),
        VExpr::Null => true,
        VExpr::Grouping(inner) => expr_deep_wf(*inner),
        VExpr::Var(tok) => true,
        VExpr::Assign { name, value } => expr_deep_wf(*value),
        VExpr::Unary { op, right } => expr_deep_wf(*right),
        VExpr::Binary { left, op, right } => expr_deep_wf(*left) && expr_deep_wf(*right),
        VExpr::Logical { left, op, right } => expr_deep_wf(*left) && expr_deep_wf(*right),
        VExpr::Call { callee, paren, args } => expr_deep_wf(*callee) && exprs_deep_wf(args),
    }
}

/// Deep well-formedness of an expression list.
pub open spec fn exprs_deep_wf(es: Seq<VExpr>) -> bool
    decreases es, 0int,
{
    forall|i: int| 0 <= i < es.len() ==> expr_deep_wf(#[trigger] es[i])
}

/// Every literal payload of a token sequence is deeply well formed.
pub open spec fn toks_wf(ts: Seq<VToken>) -> bool {
    forall|i: int| 0 <= i < ts.len() ==> vtype_deep_wf((#[trigger] ts[i]).literal)
}

/// Every value bound in a scope is deeply well formed.
pub open spec fn scope_wf(sc: Seq<(Seq<char>, VType)>) -> bool {
    forall|j: int| 0 <= j < sc.len() ==> vtype_deep_wf((#[trigger] sc[j]).1)
}

/// A usable state: at least the global scope, and every bound value
/// deeply well formed.
pub open spec fn state_wf(st: StateM) -> bool {
    &&& st.env.len() >= 1
    &&& forall|k: int| 0 <= k < st.env.len() ==> scope_wf(#[trigger] st.env[k])
}

/// A value a scope lookup returns is well formed.
pub proof fn lemma_scope_find_wf(sc: Seq<(Seq<char>, VType)>, name: Seq<char>)
    requires
        scope_wf(sc),
    ensures
        crate::environment::scope_find(sc, name) matches Some(v) ==> vtype_deep_wf(v),
    decreases sc.len(),
{
    if sc.len() > 0 && sc.last().0 != name {
        assert(scope_wf(sc.drop_last())) by {
            assert(forall|j: int|
                0 <= j < sc.len() - 1 ==> (#[trigger] sc.drop_last()[j]) == sc[j]);
        }
        lemma_scope_find_wf(sc.drop_last(), name);
    }
}

/// A value an environment lookup returns is well formed.
pub proof fn lemma_env_find_wf(e: Seq<Seq<(Seq<char>, VType)>>, name: Seq<char>)
    requires
        forall|k: int| 0 <= k < e.len() ==> scope_wf(#[trigger] e[k]),
    ensures
        env_find(e, name) matches Some(v) ==> vtype_deep_wf(v),
    decreases e.len(),
{
    if e.len() > 0 {
        lemma_scope_find_wf(e.last(), name);
        assert(forall|k: int| 0 <= k < e.len() - 1 ==> (#[trigger] e.drop_last()[k]) == e[k]);
        lemma_env_find_wf(e.drop_last(), name);
    }
}

/// Defining a well-formed value keeps the state well formed.
pub proof fn lemma_define_wf(st: StateM, name: Seq<char>, v: VType)
    requires
        state_wf(st),
        vtype_deep_wf(v),
    ensures
        state_wf(StateM { env: env_define(st.env, name, v), output: st.output }),
{
    let e2 = env_define(st.env, name, v);
    assert forall|k: int| 0 <= k < e2.len() implies scope_wf(#[trigger] e2[k]) by {
        if k == st.env.len() - 1 {
            let sc2 = st.env.last().push((name, v));
            assert(forall|j: int|
                0 <= j < sc2.len() - 1 ==> (#[trigger] sc2[j]) == st.env.last()[j]);
            assert(sc2[sc2.len() - 1].1 == v);
        }
    }
}

/// Assigning a well-formed value keeps the state well formed.
pub proof fn lemma_assign_wf(st: StateM, name: Seq<char>, v: VType)
    requires
        state_wf(st),
        vtype_deep_wf(v),
        env_has(st.env, name),
    ensures
        state_wf(StateM { env: env_assign(st.env, name, v), output: st.output }),
{
    crate::environment::lemma_env_pos(st.env, name);
    let k0 = crate::environment::env_scope_pos(st.env, name);
    crate::environment::lemma_scope_pos(st.env[k0], name);
    let e2 = env_assign(st.env, name, v);
    assert forall|k: int| 0 <= k < e2.len() implies scope_wf(#[trigger] e2[k]) by {
        if k == k0 {
            let p = crate::environment::scope_pos(st.env[k0], name);
            let sc2 = st.env[k0].update(p, (name, v));
            assert(forall|j: int| 0 <= j < sc2.len() && j != p ==> (#[trigger] sc2[j]) == st.env[k0][j]);
            assert(sc2[p].1 == v);
        }
    }
}

/// Every step of the semantics preserves the number of open scopes: on
/// normal completion, on error, and on a break alike.  This is the
/// environment-restoration invariant of block and call execution.
pub proof fn lemma_eval_env_len(e: VExpr, st: StateM, repl: bool, fuel: nat)
    requires
        st.env.len() >= 1,
    ensures
        sp_eval(e, st, repl, fuel).0.env.len() == st.env.len(),
    decreases fuel, e, 0int,
{
    match e {
        VExpr::Literal(v) => {},
        VExpr::Null => {},
        VExpr::Grouping(inner) => {
            lemma_eval_env_len(*inner, st, repl, fuel);
        },
        VExpr::Var(tok) => {},
        VExpr::Assign { name, value } => {
            lemma_eval_env_len(*value, st, repl, fuel);
            let r1 = sp_eval(*value, st, repl, fuel);
            if r1.1 is Ok && env_has(r1.0.env, name.lexeme) {
                crate::environment::lemma_env_pos(r1.0.env, name.lexeme);
            }
        },
        VExpr::Unary { op, right } => {
            lemma_eval_env_len(*right, st, repl, fuel);
        },
        VExpr::Binary { left, op, right } => {
            lemma_eval_env_len(*left, st, repl, fuel);
            let r1 = sp_eval(*left, st, repl, fuel);
            if r1.1 is Ok {
                lemma_eval_env_len(*right, r1.0, repl, fuel);
            }
        },
        VExpr::Logical { left, op, right } => {
            lemma_eval_env_len(*left, st, repl, fuel);
            let r1 = sp_eval(*left, st, repl, fuel);
            if r1.1 is Ok {
                lemma_eval_env_len(*right, r1.0, repl, fuel);
            }
        },
        VExpr::Call { callee, paren, args } => {
            lemma_eval_env_len(*callee, st, repl, fuel);
            let r1 = sp_eval(*callee, st, repl, fuel);
            if r1.1 is Ok {
                lemma_eval_list_env_len(args, r1.0, repl, fuel);
                let r2 = sp_eval_list(args, r1.0, repl, fuel);
                if r2.1 is Ok {
                    match r1.1 {
                        Ok(cv) => match cv {
                            VType::Fun(f) => {
                                if f.params.len() == r2.1->Ok_0.len() && fuel > 0 {
                                    let frame = bind_frame(f.params, r2.1->Ok_0);
                                    let call_st = StateM {
                                        env: seq![r2.0.env[0], frame],
                                        output: r2.0.output,
                                    };
                                    lemma_exec_seq_env_len(
                                        f.body,
                                        call_st,
                                        false,
                                        repl,
                                        (fuel - 1) as nat,
                                    );
                                }
                            },
                            _ => {},
                        },
                        Err(_) => {},
                    }
                }
            }
        },
    }
}

/// Scope-count preservation for expression lists.
pub proof fn lemma_eval_list_env_len(es: Seq<VExpr>, st: StateM, repl: bool, fuel: nat)
    requires
        st.env.len() >= 1,
    ensures
        sp_eval_list(es, st, repl, fuel).0.env.len() == st.env.len(),
    decreases fuel, es, 0int,
{
    if es.len() > 0 {
        lemma_eval_env_len(es[0], st, repl, fuel);
        let r1 = sp_eval(es[0], st, repl, fuel);
        if r1.1 is Ok {
            lemma_eval_list_env_len(es.subrange(1, es.len() as int), r1.0, repl, fuel);
        }
    }
}

/// Scope-count preservation for statements.
pub proof fn lemma_exec_env_len(s: VStmt, st: StateM, in_loop: bool, repl: bool, fuel: nat)
    requires
        st.env.len() >= 1,
    ensures
        sp_exec(s, st, in_loop, repl, fuel).0.env.len() == st.env.len(),
    decreases fuel, s, 0int,
{
    match s {
        VStmt::Expr(e) => {
            lemma_eval_env_len(e, st, repl, fuel);
        },
        VStmt::Print(e) => {
            lemma_eval_env_len(e, st, repl, fuel);
        },
        VStmt::Var { name, init } => {
            lemma_eval_env_len(init, st, repl, fuel);
        },
        VStmt::If { cond, then_b, else_b } => {
            lemma_eval_env_len(cond, st, repl, fuel);
            let r1 = sp_eval(cond, st, repl, fuel);
            if r1.1 is Ok {
                lemma_exec_env_len(*then_b, r1.0, in_loop, repl, fuel);
                lemma_exec_env_len(*else_b, r1.0, in_loop, repl, fuel);
            }
        },
        VStmt::While { cond, body } => {
            if fuel > 0 {
                lemma_eval_env_len(cond, st, repl, fuel);
                let r1 = sp_eval(cond, st, repl, fuel);
                if r1.1 is Ok {
                    lemma_exec_env_len(*body, r1.0, true, repl, fuel);
                    let r2 = sp_exec(*body, r1.0, true, repl, fuel);
                    if r2.1 is Ok {
                        lemma_exec_env_len(s, r2.0, in_loop, repl, (fuel - 1) as nat);
                    }
                }
            }
        },
        VStmt::Block(ss) => {
            lemma_exec_seq_env_len(ss, push_scope_m(st), in_loop, repl, fuel);
        },
        VStmt::Break => {},
        VStmt::Function { name, params, body } => {},
        VStmt::Null => {},
    }
}

/// Scope-count preservation for statement lists.
pub proof fn lemma_exec_seq_env_len(ss: Seq<VStmt>, st: StateM, in_loop: bool, repl: bool, fuel: nat)
    requires
        st.env.len() >= 1,
    ensures
        sp_exec_seq(ss, st, in_loop, repl, fuel).0.env.len() == st.env.len(),
    decreases fuel, ss, 0int,
{
    if ss.len() > 0 {
        lemma_exec_env_len(ss[0], st, in_loop, repl, fuel);
        let r1 = sp_exec(ss[0], st, in_loop, repl, fuel);
        if r1.1 is Ok && !(r1.1->Ok_0) {
            lemma_exec_seq_env_len(ss.subrange(1, ss.len() as int), r1.0, in_loop, repl, fuel);
        }
    }
}

/// The mirror of the output lines.
pub open spec fn outputs_v(v: Seq<String>) -> Seq<Seq<char>> {
    Seq::new(
        v.len(),
        |i: int|
            if 0 <= i < v.len() {
                v[i]@
            } else {
                arbitrary()
            },
    )
}

/// The interpreter: the active environment chain, the lines written so
/// far, and whether expression statements echo their value.
#[derive(Debug)]
pub struct Interpreter {
    pub environment: Environment,
    pub output: Vec<String>,
    pub is_repl: bool,
}

fn operand_msg_string(line: usize) -> (r: String)
    ensures
        r@ == operand_msg(line as nat),
{
    let mut s = String::from_str("[Line ");
    let d = crate::text::dec_digits_vec(line as u128);
    crate::text::append_chars(&mut s, &d);
    s.append("]: Operand must be a number");
    s
}

fn not_supported_msg_string(line: usize) -> (r: String)
    ensures
        r@ == not_supported_msg(line as nat),
{
    let mut s = String::from_str("[Line ");
    let d = crate::text::dec_digits_vec(line as u128);
    crate::text::append_chars(&mut s, &d);
    s.append("]: Operation not supported.");
    s
}

impl Interpreter {
    /// The state of this interpreter as the semantics sees it.
    pub open spec fn state_m(&self) -> StateM {
        StateM { env: self.environment@, output: outputs_v(self.output@) }
    }

    /// A fresh interpreter over an empty global scope.
    pub fn new(is_repl: bool) -> (r: Interpreter)
        ensures
            r.state_m().env.len() == 1,
            r.state_m().env[0].len() == 0,
            r.state_m().output.len() == 0,
            r.is_repl == is_repl,
            state_wf(r.state_m()),
    {
        let r = Interpreter { environment: Environment::new(), output: Vec::new(), is_repl };
        proof {
            assert(outputs_v(r.output@) =~= Seq::<Seq<char>>::empty());
        }
        r
    }

    /// Decides the truthiness rule.
    pub fn is_truthy(&self, t: &Type) -> (r: bool)
        ensures
            r == truthy(type_view(*t)),
    {
        match t {
            Type::Nil => false,
            Type::Bool(b) => *b,
            _ => true,
        }
    }

    /// Decides the language's equality of two values.
    pub fn is_equal(&self, l: &Type, r: &Type) -> (res: bool)
        requires
            vtype_deep_wf(type_view(*l)),
            vtype_deep_wf(type_view(*r)),
        ensures
            res == vals_equal(type_view(*l), type_view(*r)),
    {
        match l {
            Type::Nil => matches!(r, Type::Nil),
            Type::Bool(x) => match r {
                Type::Bool(y) => *x == *y,
                _ => false,
            },
            Type::Number(x) => match r {
                Type::Number(y) => x.eq_val(*y),
                _ => false,
            },
            Type::String(x) => match r {
                Type::String(y) => x.eq(y),
                _ => false,
            },
            Type::Fun(f) => match r {
                Type::Fun(g) => crate::tokens::fun_eq(&**f, &**g),
                _ => false,
            },
        }
    }

    /// Applies a binary operator to two evaluated operands, exactly as
    /// the semantics says.
    fn apply_binary(&self, op: &Token, l: &Type, r: &Type) -> (res: Result<Type, MyError>)
        requires
            vtype_deep_wf(type_view(*l)),
            vtype_deep_wf(type_view(*r)),
        ensures
            ({
                let rr = eval_binary(op.token_type, op.line as nat, type_view(*l), type_view(*r));
                match (res, rr) {
                    (Ok(t), Ok(v)) => type_view(t) == v && vtype_deep_wf(v),
                    (Err(e), Err(ee)) => e@ == ee,
                    _ => false,
                }
            }),
    {
        let tt = op.token_type;
        if tt == TokenType::PLUS {
            match l {
                Type::Number(a) => match r {
                    Type::Number(b) => match a.checked_add(*b) {
                        Ok(q) => Ok(Type::Number(q)),
                        Err(e) => Err(e),
                    },
                    _ => Err(MyError::CastError(not_supported_msg_string(op.line))),
                },
                Type::String(x) => match r {
                    Type::String(y) => {
                        let mut s = x.clone();
                        s.append(y.as_str());
                        Ok(Type::String(s))
                    },
                    _ => Err(MyError::CastError(not_supported_msg_string(op.line))),
                },
                _ => Err(MyError::CastError(not_supported_msg_string(op.line))),
            }
        } else if tt == TokenType::EqualEqual {
            Ok(Type::Bool(self.is_equal(l, r)))
        } else if tt == TokenType::BangEqual {
            Ok(Type::Bool(!self.is_equal(l, r)))
        } else if tt == TokenType::MINUS || tt == TokenType::SLASH || tt == TokenType::STAR || tt
            == TokenType::GREATER || tt == TokenType::GreaterEqual || tt == TokenType::LESS || tt
            == TokenType::LessEqual {
            let a = match l {
                Type::Number(a) => *a,
                _ => {
                    return Err(MyError::CastError(operand_msg_string(op.line)));
                },
            };
            let b = match r {
                Type::Number(b) => *b,
                _ => {
                    return Err(MyError::CastError(operand_msg_string(op.line)));
                },
            };
            if tt == TokenType::MINUS {
                match a.checked_sub(b) {
                    Ok(q) => Ok(Type::Number(q)),
                    Err(e) => Err(e),
                }
            } else if tt == TokenType::SLASH {
                if b.is_zero() {
                    Err(MyError::DividedbyzeroError)
                } else {
                    match a.checked_div(b) {
                        Ok(q) => Ok(Type::Number(q)),
                        Err(e) => Err(e),
                    }
                }
            } else if tt == TokenType::STAR {
                match a.checked_mul(b) {
                    Ok(q) => Ok(Type::Number(q)),
                    Err(e) => Err(e),
                }
            } else if tt == TokenType::GREATER {
                Ok(Type::Bool(b.lt_val(a)))
            } else if tt == TokenType::GreaterEqual {
                Ok(Type::Bool(b.le_val(a)))
            } else if tt == TokenType::LESS {
                Ok(Type::Bool(a.lt_val(b)))
            } else {
                Ok(Type::Bool(a.le_val(b)))
            }
        } else {
            Err(MyError::NotImplementedError)
        }
    }

    /// Evaluates one expression with the given depth budget, returning
    /// exactly what the semantics returns and leaving exactly the state
    /// it prescribes.
    #[verifier::rlimit(80)]
    fn eval_expr_fuel(&mut self, expr: &Expr, fuel: u64) -> (r: Result<Type, MyError>)
        requires
            state_wf(old(self).state_m()),
            expr_deep_wf(expr_view(*expr)),
        ensures
            ({
                let rr = sp_eval(
                    expr_view(*expr),
                    old(self).state_m(),
                    old(self).is_repl,
                    fuel as nat,
                );
                &&& final(self).state_m() == rr.0
                &&& final(self).is_repl == old(self).is_repl
                &&& state_wf(final(self).state_m())
                &&& match (r, rr.1) {
                    (Ok(t), Ok(v)) => type_view(t) == v && vtype_deep_wf(v),
                    (Err(e), Err(ee)) => e@ == ee,
                    _ => false,
                }
            }),
        decreases fuel, *expr, 1int,
    {
        match expr {
            Expr::Literal(t) => Ok(type_dup(t)),
            Expr::Null => Ok(Type::Nil),
            Expr::Grouping(inner) => self.eval_expr_fuel(&**inner, fuel),
            Expr::Var(tok) => {
                proof {
                    lemma_env_find_wf(self.environment@, tok.lexeme@);
                    assert(expr_view(*expr) == VExpr::Var(token_view(*tok)));
                    assert(token_view(*tok).lexeme == tok.lexeme@);
                }
                self.environment.get(tok)
            },
            Expr::Assign { name, value } => {
                let v = match self.eval_expr_fuel(&**value, fuel) {
                    Ok(v) => v,
                    Err(e) => {
                        return Err(e);
                    },
                };
                proof {
                    if env_has(self.environment@, name.lexeme@) {
                        lemma_assign_wf(self.state_m(), name.lexeme@, type_view(v));
                    }
                }
                let res = self.environment.assign(name, &v);
                proof {
                    let r1 = sp_eval(
                        expr_view(**value),
                        old(self).state_m(),
                        old(self).is_repl,
                        fuel as nat,
                    );
                    assert(r1.1 is Ok);
                    assert(type_view(v) == r1.1->Ok_0);
                    assert(expr_view(*expr) == VExpr::Assign {
                        name: token_view(*name),
                        value: Box::new(expr_view(**value)),
                    });
                    if env_has(r1.0.env, name.lexeme@) {
                        assert(self.environment@ == env_assign(
                            r1.0.env,
                            name.lexeme@,
                            type_view(v),
                        ));
                    }
                }
                match res {
                    Ok(u) => Ok(v),
                    Err(e) => Err(e),
                }
            },
            Expr::Unary { op, right } => {
                let v = match self.eval_expr_fuel(&**right, fuel) {
                    Ok(v) => v,
                    Err(e) => {
                        return Err(e);
                    },
                };
                proof {
                    assert(expr_view(*expr) == VExpr::Unary {
                        op: token_view(*op),
                        right: Box::new(expr_view(**right)),
                    });
                    assert(token_view(*op).token_type == op.token_type);
                    assert(token_view(*op).line == op.line as nat);
                }
                if op.token_type == TokenType::BANG {
                    Ok(Type::Bool(!self.is_truthy(&v)))
                } else if op.token_type == TokenType::MINUS {
                    match v {
                        Type::Number(q) => Ok(Type::Number(q.neg_val())),
                        _ => Err(MyError::CastError(operand_msg_string(op.line))),
                    }
                } else {
                    Err(MyError::NotImplementedError)
                }
            },
            Expr::Binary { left, op, right } => {
                let l = match self.eval_expr_fuel(&**left, fuel) {
                    Ok(v) => v,
                    Err(e) => {
                        return Err(e);
                    },
                };
                let r2 = match self.eval_expr_fuel(&**right, fuel) {
                    Ok(v) => v,
                    Err(e) => {
                        return Err(e);
                    },
                };
                proof {
                    assert(expr_view(*expr) == VExpr::Binary {
                        left: Box::new(expr_view(**left)),
                        op: token_view(*op),
                        right: Box::new(expr_view(**right)),
                    });
                    assert(token_view(*op).token_type == op.token_type);
                    assert(token_view(*op).line == op.line as nat);
                }
                self.apply_binary(op, &l, &r2)
            },
            Expr::Logical { left, op, right } => {
                let l = match self.eval_expr_fuel(&**left, fuel) {
                    Ok(v) => v,
                    Err(e) => {
                        return Err(e);
                    },
                };
                proof {
                    assert(expr_view(*expr) == VExpr::Logical {
                        left: Box::new(expr_view(**left)),
                        op: token_view(*op),
                        right: Box::new(expr_view(**right)),
                    });
                }
                if op.token_type == TokenType::OR {
                    if self.is_truthy(&l) {
                        Ok(l)
                    } else {
                        self.eval_expr_fuel(&**right, fuel)
                    }
                } else if op.token_type == TokenType::AND {
                    if !self.is_truthy(&l) {
                        Ok(l)
                    } else {
                        self.eval_expr_fuel(&**right, fuel)
                    }
                } else {
                    Err(MyError::NotImplementedError)
                }
            },
            Expr::Call { callee, paren, arguments } => self.eval_call(expr, fuel),
        }
    }


    /// Evaluates a call expression: callee, then arguments left to
    /// right, then the invocation of the function value against the
    /// globals plus one fresh activation frame.
    #[verifier::rlimit(80)]
    fn eval_call(&mut self, expr: &Expr, fuel: u64) -> (r: Result<Type, MyError>)
        requires
            state_wf(old(self).state_m()),
            expr_deep_wf(expr_view(*expr)),
            *expr matches Expr::Call { callee, paren, arguments },
        ensures
            ({
                let rr = sp_eval(
                    expr_view(*expr),
                    old(self).state_m(),
                    old(self).is_repl,
                    fuel as nat,
                );
                &&& final(self).state_m() == rr.0
                &&& final(self).is_repl == old(self).is_repl
                &&& state_wf(final(self).state_m())
                &&& match (r, rr.1) {
                    (Ok(t), Ok(v)) => type_view(t) == v && vtype_deep_wf(v),
                    (Err(e), Err(ee)) => e@ == ee,
                    _ => false,
                }
            }),
        decreases fuel, *expr, 0int,
    {
        match expr {
            Expr::Call { callee, paren, arguments } => {
                let cv = match self.eval_expr_fuel(&**callee, fuel) {
                    Ok(v) => v,
                    Err(e) => {
                        return Err(e);
                    },
                };
                let mut argv: Vec<Type> = Vec::new();
                let ghost st1 = self.state_m();
                let ghost repl0 = self.is_repl;
                proof {
                    assert(exprs_view(arguments@).subrange(0, arguments@.len() as int) =~=
                        exprs_view(arguments@));
                }
                match self.eval_args_from(arguments, 0, fuel, &mut argv) {
                    Ok(u) => {},
                    Err(e) => {
                        return Err(e);
                    },
                }
                let ghost st2 = self.state_m();
                let ghost vals = crate::tokens::types_view(argv@);
                proof {
                    let rl = sp_eval_list(exprs_view(arguments@), st1, repl0, fuel as nat);
                    assert(rl.1 is Ok);
                    let vs = rl.1->Ok_0;
                    assert(vals.len() == vs.len());
                    assert(vals =~= vs);
                    assert(forall|j: int|
                        0 <= j < vals.len() ==> vtype_deep_wf(#[trigger] vals[j]));
                }
                match cv {
                    Type::Fun(f) => {
                        if f.params.len() != argv.len() {
                            let err = MyError::ArityMismatchError(
                                f.params.len(),
                                argv.len(),
                                paren.line,
                            );
                            proof {
                                assert(token_view(*paren).line == paren.line as nat);
                                assert(expr_view(*expr) matches VExpr::Call {
                                    callee: c2,
                                    paren: p2,
                                    args: a2,
                                } && p2 == token_view(*paren));
                                assert(err@ == VErr::ArityMismatch(
                                    f.params@.len(),
                                    argv@.len(),
                                    paren.line as nat,
                                ));
                            }
                            return Err(err);
                        }
                        if fuel == 0 {
                            return Err(MyError::RecursionLimitError);
                        }
                        let ghost frame = bind_frame(crate::tokens::tokens_view(f.params@), vals);
                        let saved = self.environment.enter_function();
                        proof {
                            assert(crate::tokens::tokens_view(f.params@).subrange(
                                0,
                                f.params@.len() as int,
                            ) =~= crate::tokens::tokens_view(f.params@));
                            assert(crate::tokens::types_view(argv@).subrange(
                                0,
                                argv@.len() as int,
                            ) =~= crate::tokens::types_view(argv@));
                        }
                        bind_args(&mut self.environment, &f.params, &argv, 0);
                        proof {
                            assert(self.environment@ =~~= seq![st2.env[0], frame]);
                            assert(self.state_m() == StateM {
                                env: seq![st2.env[0], frame],
                                output: st2.output,
                            });
                            assert(state_wf(self.state_m())) by {
                                let stc = self.state_m();
                                assert forall|k: int| 0 <= k < stc.env.len() implies scope_wf(
                                    #[trigger] stc.env[k],
                                ) by {
                                    if k == 1 {
                                        assert(forall|j: int|
                                            0 <= j < frame.len() ==> (#[trigger] frame[j]).1
                                                == vals[j]);
                                    }
                                }
                            }
                        }
                        let rb = self.exec_stmts_from(&f.body, 0, false, fuel - 1);
                        proof {
                            assert(crate::stmt::stmts_view(f.body@).subrange(
                                0,
                                f.body@.len() as int,
                            ) =~= crate::stmt::stmts_view(f.body@));
                            lemma_exec_seq_env_len(
                                crate::stmt::stmts_view(f.body@),
                                StateM { env: seq![st2.env[0], frame], output: st2.output },
                                false,
                                self.is_repl,
                                (fuel - 1) as nat,
                            );
                        }
                        let ghost st3 = self.state_m();
                        self.environment.exit_function(saved);
                        proof {
                            assert(self.environment@ =~~= seq![st3.env[0]] + st2.env.subrange(
                                1,
                                st2.env.len() as int,
                            ));
                            assert(state_wf(self.state_m())) by {
                                let stf = self.state_m();
                                assert forall|k: int| 0 <= k < stf.env.len() implies scope_wf(
                                    #[trigger] stf.env[k],
                                ) by {
                                    if k >= 1 {
                                        assert(stf.env[k] == st2.env[k]);
                                    } else {
                                        assert(stf.env[0] == st3.env[0]);
                                    }
                                }
                            }
                        }
                        match rb {
                            Ok(b) => Ok(Type::Nil),
                            Err(e) => Err(e),
                        }
                    },
                    _ => Err(MyError::NotCallableError),
                }
            },
            _ => {
                proof {
                    assert(false);
                }
                Err(MyError::NotImplementedError)
            },
        }
    }

    /// Evaluates the arguments from position `i` on, left to right,
    /// appending the values to `out`.
    fn eval_args_from(
        &mut self,
        args: &Vec<Expr>,
        i: usize,
        fuel: u64,
        out: &mut Vec<Type>,
    ) -> (r: Result<(), MyError>)
        requires
            state_wf(old(self).state_m()),
            exprs_deep_wf(exprs_view(args@)),
            i <= args@.len(),
        ensures
            ({
                let rr = sp_eval_list(
                    exprs_view(args@).subrange(i as int, args@.len() as int),
                    old(self).state_m(),
                    old(self).is_repl,
                    fuel as nat,
                );
                &&& final(self).state_m() == rr.0
                &&& final(self).is_repl == old(self).is_repl
                &&& state_wf(final(self).state_m())
                &&& match (r, rr.1) {
                    (Ok(u), Ok(vs)) => {
                        &&& final(out)@.len() == old(out)@.len() + vs.len()
                        &&& (forall|j: int|
                            0 <= j < old(out)@.len() ==> final(out)@[j] == old(out)@[j])
                        &&& (forall|j: int|
                            0 <= j < vs.len() ==> type_view(
                                final(out)@[old(out)@.len() + j],
                            ) == vs[j] && vtype_deep_wf(#[trigger] vs[j]))
                    },
                    (Err(e), Err(ee)) => e@ == ee,
                    _ => false,
                }
            }),
        decreases fuel, *args, args@.len() - i,
    {
        if i < args.len() {
            proof {
                assert(exprs_view(args@).subrange(i as int, args@.len() as int)[0] == expr_view(
                    args@[i as int],
                ));
                assert(exprs_view(args@).subrange(i as int, args@.len() as int).subrange(
                    1,
                    args@.len() - i,
                ) =~= exprs_view(args@).subrange(i + 1, args@.len() as int));
            }
            let v = match self.eval_expr_fuel(&args[i], fuel) {
                Ok(v) => v,
                Err(e) => {
                    return Err(e);
                },
            };
            out.push(v);
            self.eval_args_from(args, i + 1, fuel, out)
        } else {
            proof {
                assert(exprs_view(args@).subrange(i as int, args@.len() as int) =~= Seq::<
                    VExpr,
                >::empty());
            }
            Ok(())
        }
    }

    /// Executes one statement with the given depth budget, returning
    /// exactly what the semantics returns: normal completion, a break
    /// signal for the nearest enclosing loop, or an error.
    fn evaluate_stmt_fuel(&mut self, stmt: &Stmt, in_loop: bool, fuel: u64) -> (r: Result<
        bool,
        MyError,
    >)
        requires
            state_wf(old(self).state_m()),
            stmt_deep_wf(stmt_view(*stmt)),
        ensures
            ({
                let rr = sp_exec(
                    stmt_view(*stmt),
                    old(self).state_m(),
                    in_loop,
                    old(self).is_repl,
                    fuel as nat,
                );
                &&& final(self).state_m() == rr.0
                &&& final(self).is_repl == old(self).is_repl
                &&& state_wf(final(self).state_m())
                &&& match (r, rr.1) {
                    (Ok(b), Ok(bb)) => b == bb,
                    (Err(e), Err(ee)) => e@ == ee,
                    _ => false,
                }
            }),
        decreases fuel, *stmt, 1int,
    {
        match stmt {
            Stmt::ExprStmt(e) => {
                let v = match self.eval_expr_fuel(e, fuel) {
                    Ok(v) => v,
                    Err(er) => {
                        return Err(er);
                    },
                };
                if self.is_repl {
                    let ghost before = self.state_m();
                    let line = v.to_string();
                    self.output.push(line);
                    proof {
                        assert(outputs_v(self.output@) =~= before.output.push(
                            vtype_text(type_view(v)),
                        ));
                    }
                }
                Ok(false)
            },
            Stmt::PrintStmt(e) => {
                let v = match self.eval_expr_fuel(e, fuel) {
                    Ok(v) => v,
                    Err(er) => {
                        return Err(er);
                    },
                };
                let ghost before = self.state_m();
                let line = v.to_string();
                self.output.push(line);
                proof {
                    assert(outputs_v(self.output@) =~= before.output.push(
                        vtype_text(type_view(v)),
                    ));
                }
                Ok(false)
            },
            Stmt::VarStmt { name, initializer } => {
                let v = match self.eval_expr_fuel(initializer, fuel) {
                    Ok(v) => v,
                    Err(er) => {
                        return Err(er);
                    },
                };
                proof {
                    lemma_define_wf(self.state_m(), name.lexeme@, type_view(v));
                }
                self.environment.define(&name.lexeme, &v);
                proof {
                    let rr = sp_exec(
                        stmt_view(*stmt),
                        old(self).state_m(),
                        in_loop,
                        old(self).is_repl,
                        fuel as nat,
                    );
                    let r1 = sp_eval(
                        expr_view(*initializer),
                        old(self).state_m(),
                        old(self).is_repl,
                        fuel as nat,
                    );
                    assert(r1.1 is Ok);
                    assert(type_view(v) == r1.1->Ok_0);
                    assert(stmt_view(*stmt) == VStmt::Var {
                        name: token_view(*name),
                        init: expr_view(*initializer),
                    });
                    assert(rr.0.env == env_define(
                        r1.0.env,
                        token_view(*name).lexeme,
                        r1.1->Ok_0,
                    ));
                    assert(self.environment@ == env_define(
                        r1.0.env,
                        name.lexeme@,
                        type_view(v),
                    ));
                    assert(self.state_m().env == rr.0.env);
                }
                Ok(false)
            },
            Stmt::IfStmt { condition, then_branch, else_branch } => {
                let v = match self.eval_expr_fuel(condition, fuel) {
                    Ok(v) => v,
                    Err(er) => {
                        return Err(er);
                    },
                };
                if self.is_truthy(&v) {
                    self.evaluate_stmt_fuel(&**then_branch, in_loop, fuel)
                } else {
                    self.evaluate_stmt_fuel(&**else_branch, in_loop, fuel)
                }
            },
            Stmt::WhileStmt { condition, body } => self.exec_while(stmt, in_loop, fuel),
            Stmt::Block(v) => {
                self.environment.push_scope();
                proof {
                    assert(self.state_m() == push_scope_m(old(self).state_m()));
                    assert(state_wf(self.state_m())) by {
                        let stp = self.state_m();
                        assert forall|k: int| 0 <= k < stp.env.len() implies scope_wf(
                            #[trigger] stp.env[k],
                        ) by {
                            if k < stp.env.len() - 1 {
                                assert(stp.env[k] == old(self).state_m().env[k]);
                            }
                        }
                    }
                    assert(crate::stmt::stmts_view(v@).subrange(0, v@.len() as int) =~=
                        crate::stmt::stmts_view(v@));
                }
                let r = self.exec_stmts_from(v, 0, in_loop, fuel);
                proof {
                    lemma_exec_seq_env_len(
                        crate::stmt::stmts_view(v@),
                        push_scope_m(old(self).state_m()),
                        in_loop,
                        old(self).is_repl,
                        fuel as nat,
                    );
                }
                let ghost st_in = self.state_m();
                self.environment.pop_scope();
                proof {
                    assert(self.state_m() == pop_scope_m(st_in));
                    assert(state_wf(self.state_m())) by {
                        let stf = self.state_m();
                        assert forall|k: int| 0 <= k < stf.env.len() implies scope_wf(
                            #[trigger] stf.env[k],
                        ) by {
                            assert(stf.env[k] == st_in.env[k]);
                        }
                    }
                }
                r
            },
            Stmt::Break => {
                if in_loop {
                    Ok(true)
                } else {
                    Err(MyError::BreakNotInLoop)
                }
            },
            Stmt::Function { name, params, body } => {
                let value = Type::Fun(
                    Box::new(
                        LoxFunction {
                            name: token_dup(name),
                            params: tokens_dup(params),
                            body: crate::stmt::stmts_dup(body),
                        },
                    ),
                );
                proof {
                    lemma_define_wf(self.state_m(), name.lexeme@, type_view(value));
                }
                self.environment.define(&name.lexeme, &value);
                proof {
                    let rr = sp_exec(
                        stmt_view(*stmt),
                        old(self).state_m(),
                        in_loop,
                        old(self).is_repl,
                        fuel as nat,
                    );
                    assert(self.state_m().env == rr.0.env);
                }
                Ok(false)
            },
            Stmt::NULL => Ok(false),
        }
    }


    /// Executes a while statement: repeatedly tests the condition and
    /// runs the body until the condition is falsy, a break arrives from
    /// this loop's body, an error unwinds, or the budget runs out.
    fn exec_while(&mut self, stmt: &Stmt, in_loop: bool, fuel: u64) -> (r: Result<bool, MyError>)
        requires
            state_wf(old(self).state_m()),
            stmt_deep_wf(stmt_view(*stmt)),
            *stmt matches Stmt::WhileStmt { condition, body },
        ensures
            ({
                let rr = sp_exec(
                    stmt_view(*stmt),
                    old(self).state_m(),
                    in_loop,
                    old(self).is_repl,
                    fuel as nat,
                );
                &&& final(self).state_m() == rr.0
                &&& final(self).is_repl == old(self).is_repl
                &&& state_wf(final(self).state_m())
                &&& match (r, rr.1) {
                    (Ok(b), Ok(bb)) => b == bb,
                    (Err(e), Err(ee)) => e@ == ee,
                    _ => false,
                }
            }),
        decreases fuel, *stmt, 0int,
    {
        match stmt {
            Stmt::WhileStmt { condition, body } => {
                let ghost st_entry = old(self).state_m();
                let ghost repl0 = old(self).is_repl;
                let mut fuel_cur = fuel;
                #[verifier::loop_isolation(false)]
                loop
                    invariant
                        state_wf(self.state_m()),
                        self.is_repl == repl0,
                        fuel_cur <= fuel,
                        sp_exec(stmt_view(*stmt), st_entry, in_loop, repl0, fuel as nat) == sp_exec(
                            stmt_view(*stmt),
                            self.state_m(),
                            in_loop,
                            repl0,
                            fuel_cur as nat,
                        ),
                    decreases fuel_cur, *stmt, 1int,
                {
                    proof {
                        assert(decreases_to!(*stmt => (*stmt)->WhileStmt_condition));
                        assert(decreases_to!(*stmt => (*stmt)->WhileStmt_body));
                    }
                    if fuel_cur == 0 {
                        return Err(MyError::RecursionLimitError);
                    }
                    let v = match self.eval_expr_fuel(condition, fuel_cur) {
                        Ok(v) => v,
                        Err(er) => {
                            return Err(er);
                        },
                    };
                    if !self.is_truthy(&v) {
                        return Ok(false);
                    }
                    match self.evaluate_stmt_fuel(&**body, true, fuel_cur) {
                        Err(er) => {
                            return Err(er);
                        },
                        Ok(broke) => {
                            if broke {
                                return Ok(false);
                            }
                        },
                    }
                    fuel_cur = fuel_cur - 1;
                }
            },
            _ => {
                proof {
                    assert(false);
                }
                Err(MyError::NotImplementedError)
            },
        }
    }

    /// Executes the statements from position `i` on, stopping at the
    /// first error or break signal.
    fn exec_stmts_from(&mut self, stmts: &Vec<Stmt>, i: usize, in_loop: bool, fuel: u64) -> (r:
        Result<bool, MyError>)
        requires
            state_wf(old(self).state_m()),
            stmts_deep_wf(stmts_view(stmts@)),
            i <= stmts@.len(),
        ensures
            ({
                let rr = sp_exec_seq(
                    stmts_view(stmts@).subrange(i as int, stmts@.len() as int),
                    old(self).state_m(),
                    in_loop,
                    old(self).is_repl,
                    fuel as nat,
                );
                &&& final(self).state_m() == rr.0
                &&& final(self).is_repl == old(self).is_repl
                &&& state_wf(final(self).state_m())
                &&& match (r, rr.1) {
                    (Ok(b), Ok(bb)) => b == bb,
                    (Err(e), Err(ee)) => e@ == ee,
                    _ => false,
                }
            }),
        decreases fuel, *stmts, stmts@.len() - i,
    {
        if i < stmts.len() {
            proof {
                assert(stmts_view(stmts@).subrange(i as int, stmts@.len() as int)[0] == stmt_view(
                    stmts@[i as int],
                ));
                assert(stmts_view(stmts@).subrange(i as int, stmts@.len() as int).subrange(
                    1,
                    stmts@.len() - i,
                ) =~= stmts_view(stmts@).subrange(i + 1, stmts@.len() as int));
            }
            match self.evaluate_stmt_fuel(&stmts[i], in_loop, fuel) {
                Err(e) => Err(e),
                Ok(broke) => {
                    if broke {
                        Ok(true)
                    } else {
                        self.exec_stmts_from(stmts, i + 1, in_loop, fuel)
                    }
                },
            }
        } else {
            proof {
                assert(stmts_view(stmts@).subrange(i as int, stmts@.len() as int) =~= Seq::<
                    VStmt,
                >::empty());
            }
            Ok(false)
        }
    }
}

impl Interpreter {
    /// Runs a program: executes the statements in order against the
    /// current state, stopping at the first error; the contract is the
    /// big-step semantics of the whole list under the default budget.
    pub fn interpret(&mut self, stmts: &Vec<Stmt>) -> (r: Result<(), MyError>)
        requires
            state_wf(old(self).state_m()),
            stmts_deep_wf(stmts_view(stmts@)),
        ensures
            ({
                let rr = sp_exec_seq(
                    stmts_view(stmts@),
                    old(self).state_m(),
                    false,
                    old(self).is_repl,
                    STEP_LIMIT as nat,
                );
                &&& final(self).state_m() == rr.0
                &&& final(self).is_repl == old(self).is_repl
                &&& state_wf(final(self).state_m())
                &&& match (r, rr.1) {
                    (Ok(u), Ok(b)) => true,
                    (Err(e), Err(ee)) => e@ == ee,
                    _ => false,
                }
            }),
    {
        proof {
            assert(stmts_view(stmts@).subrange(0, stmts@.len() as int) =~= stmts_view(stmts@));
        }
        match self.exec_stmts_from(stmts, 0, false, STEP_LIMIT) {
            Ok(b) => Ok(()),
            Err(e) => Err(e),
        }
    }

    /// Evaluates one expression against the current state with the
    /// default budget.
    pub fn evaluate_expr(&mut self, expr: &Expr) -> (r: Result<Type, MyError>)
        requires
            state_wf(old(self).state_m()),
            expr_deep_wf(expr_view(*expr)),
        ensures
            ({
                let rr = sp_eval(
                    expr_view(*expr),
                    old(self).state_m(),
                    old(self).is_repl,
                    STEP_LIMIT as nat,
                );
                &&& final(self).state_m() == rr.0
                &&& final(self).is_repl == old(self).is_repl
                &&& state_wf(final(self).state_m())
                &&& match (r, rr.1) {
                    (Ok(t), Ok(v)) => type_view(t) == v && vtype_deep_wf(v),
                    (Err(e), Err(ee)) => e@ == ee,
                    _ => false,
                }
            }),
    {
        self.eval_expr_fuel(expr, STEP_LIMIT)
    }

    /// Executes a list of statements in a fresh scope of their own,
    /// restoring the enclosing scope afterwards, as a block does.
    pub fn execute_block(&mut self, statements: &Vec<Stmt>) -> (r: Result<(), MyError>)
        requires
            state_wf(old(self).state_m()),
            stmts_deep_wf(stmts_view(statements@)),
        ensures
            ({
                let rr = sp_exec(
                    VStmt::Block(stmts_view(statements@)),
                    old(self).state_m(),
                    false,
                    old(self).is_repl,
                    STEP_LIMIT as nat,
                );
                &&& final(self).state_m() == rr.0
                &&& final(self).is_repl == old(self).is_repl
                &&& state_wf(final(self).state_m())
                &&& match (r, rr.1) {
                    (Ok(u), Ok(b)) => true,
                    (Err(e), Err(ee)) => e@ == ee,
                    _ => false,
                }
            }),
    {
        let stmt = Stmt::Block(crate::stmt::stmts_dup(statements));
        match self.evaluate_stmt_fuel(&stmt, false, STEP_LIMIT) {
            Ok(b) => Ok(()),
            Err(e) => Err(e),
        }
    }

    /// The environment chain the interpreter currently holds.
    pub fn get_environment(&self) -> (r: &Environment)
        ensures
            *r == self.environment,
    {
        &self.environment
    }
}

/// Short-circuit law for `or`: when the left operand evaluates to a
/// truthy value, the disjunction returns exactly that value and state —
/// the right operand, whatever it is, is never evaluated.
pub proof fn lemma_or_short_circuit(
    left: VExpr,
    right: VExpr,
    op: VToken,
    st: StateM,
    repl: bool,
    fuel: nat,
)
    requires
        op.token_type == TokenType::OR,
        sp_eval(left, st, repl, fuel).1 matches Ok(v) && truthy(v),
    ensures
        sp_eval(
            VExpr::Logical { left: Box::new(left), op, right: Box::new(right) },
            st,
            repl,
            fuel,
        ) == (sp_eval(left, st, repl, fuel).0, sp_eval(left, st, repl, fuel).1),
{
}

/// Short-circuit law for `and`: when the left operand evaluates to a
/// falsy value, the conjunction returns exactly that value and state —
/// the right operand, whatever it is, is never evaluated.
pub proof fn lemma_and_short_circuit(
    left: VExpr,
    right: VExpr,
    op: VToken,
    st: StateM,
    repl: bool,
    fuel: nat,
)
    requires
        op.token_type == TokenType::AND,
        sp_eval(left, st, repl, fuel).1 matches Ok(v) && !truthy(v),
    ensures
        sp_eval(
            VExpr::Logical { left: Box::new(left), op, right: Box::new(right) },
            st,
            repl,
            fuel,
        ) == (sp_eval(left, st, repl, fuel).0, sp_eval(left, st, repl, fuel).1),
{
}

/// Equality law: on any two operands, `==` and `!=` both succeed and
/// return complementary booleans, so `a == b` holds exactly when
/// `!(a != b)` does.
pub proof fn lemma_eq_iff_not_neq(l: VType, r: VType, line: nat)
    ensures
        eval_binary(TokenType::EqualEqual, line, l, r) == Ok::<VType, VErr>(
            VType::Bool(vals_equal(l, r)),
        ),
        eval_binary(TokenType::BangEqual, line, l, r) == Ok::<VType, VErr>(
            VType::Bool(!vals_equal(l, r)),
        ),
{
}

/// Double negation law: `!!v` is the boolean of `v`'s truthiness.  The
/// two bang operators may be any bang tokens; the operand expression is
/// evaluated once.
pub proof fn lemma_double_bang(
    e: VExpr,
    op1: VToken,
    op2: VToken,
    st: StateM,
    repl: bool,
    fuel: nat,
)
    requires
        op1.token_type == TokenType::BANG,
        op2.token_type == TokenType::BANG,
        sp_eval(e, st, repl, fuel).1 is Ok,
    ensures
        sp_eval(
            VExpr::Unary {
                op: op2,
                right: Box::new(VExpr::Unary { op: op1, right: Box::new(e) }),
            },
            st,
            repl,
            fuel,
        ) == (
            sp_eval(e, st, repl, fuel).0,
            Ok::<VType, VErr>(VType::Bool(truthy(sp_eval(e, st, repl, fuel).1->Ok_0))),
        ),
{
    reveal_with_fuel(sp_eval, 3);
}

/// Associativity of string concatenation: adding strings in either
/// grouping yields the same string value.
pub proof fn lemma_concat_assoc(x: Seq<char>, y: Seq<char>, z: Seq<char>, line1: nat, line2: nat)
    ensures
        eval_binary(TokenType::PLUS, line1, VType::Str(x), VType::Str(y)) == Ok::<VType, VErr>(
            VType::Str(x + y),
        ),
        eval_binary(TokenType::PLUS, line2, VType::Str(x + y), VType::Str(z)) == eval_binary(
            TokenType::PLUS,
            line1,
            VType::Str(x),
            VType::Str(y + z),
        ),
{
    assert((x + y) + z =~= x + (y + z));
}

/// Binds the parameters from position `i` on to the corresponding
/// argument values, in order, in the innermost scope.
fn bind_args(env: &mut Environment, params: &Vec<Token>, vals: &Vec<Type>, i: usize)
    requires
        i <= params@.len(),
        params@.len() == vals@.len(),
        old(env)@.len() >= 1,
    ensures
        final(env)@ == old(env)@.update(
            old(env)@.len() - 1,
            old(env)@.last() + bind_frame(
                crate::tokens::tokens_view(params@).subrange(i as int, params@.len() as int),
                crate::tokens::types_view(vals@).subrange(i as int, vals@.len() as int),
            ),
        ),
    decreases params@.len() - i,
{
    let ghost tv = crate::tokens::tokens_view(params@);
    let ghost vv = crate::tokens::types_view(vals@);
    let ghost n = params@.len() as int;
    if i < params.len() {
        env.define(&params[i].lexeme, &vals[i]);
        bind_args(env, params, vals, i + 1);
        proof {
            let bi = (params@[i as int].lexeme@, type_view(vals@[i as int]));
            assert(tv.subrange(i as int, n)[0] == tv[i as int]);
            assert(bind_frame(tv.subrange(i as int, n), vv.subrange(i as int, n)) =~= seq![bi]
                + bind_frame(tv.subrange(i + 1, n), vv.subrange(i + 1, n)));
            assert(old(env)@.last().push(bi) + bind_frame(
                tv.subrange(i + 1, n),
                vv.subrange(i + 1, n),
            ) =~= old(env)@.last() + bind_frame(tv.subrange(i as int, n), vv.subrange(i as int, n)));
            assert(final(env)@ =~~= old(env)@.update(
                old(env)@.len() - 1,
                old(env)@.last() + bind_frame(
                    tv.subrange(i as int, n),
                    vv.subrange(i as int, n),
                ),
            ));
        }
    } else {
        proof {
            assert(bind_frame(tv.subrange(i as int, n), vv.subrange(i as int, n)) =~= Seq::<
                (Seq<char>, VType),
            >::empty());
            assert(old(env)@.last() + bind_frame(
                tv.subrange(i as int, n),
                vv.subrange(i as int, n),
            ) =~= old(env)@.last());
            assert(final(env)@ =~~= old(env)@.update(old(env)@.len() - 1, old(env)@.last()));
        }
    }
}

} // verus!
