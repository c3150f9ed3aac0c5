//! A tree-walking interpreter for a small, dynamically typed, C-style
//! scripting language: a scanner from source text to tokens, a recursive
//! descent parser from tokens to an abstract syntax tree, and an evaluator
//! over an environment chain.  Numbers are exact rationals; every stage is
//! specified against a mathematical model of its input and output.

pub mod environment;
pub mod errors;
pub mod expr;
pub mod interpreter;
pub mod parser;
pub mod rational;
pub mod scanner;
pub mod stmt;
pub mod text;
pub mod tokens;

use vstd::prelude::*;

verus! {

/// The text of a scan diagnostic: `[line N] Error : MSG`.
pub open spec fn error_text(line: nat, msg: Seq<char>) -> Seq<char> {
    crate::text::report_text(line, Seq::<char>::empty(), msg)
}

/// Formats a diagnostic for a line with no offending lexeme, as
/// `[line N] Error : MSG`.  The caller decides where the line goes.
pub fn error(line: usize, msg: &str) -> (r: String)
    ensures
        r@ == error_text(line as nat, msg@),
{
    proof {
        reveal_strlit("");
        assert(""@ =~= Seq::<char>::empty());
    }
    report(line, "", msg)
}

/// Formats a diagnostic as `[line N] Error INFO: MSG`.
pub fn report(line: usize, info: &str, msg: &str) -> (r: String)
    ensures
        r@ == crate::text::report_text(line as nat, info@, msg@),
{
    crate::text::report_string(line, info, msg)
}

/// Runs one source text against an interpreter: scan, parse, execute.
/// A scan failure is reported as exactly the scan semantics' first
/// error; parse and runtime failures come back as their own errors.  The
/// interpreter's state stays well formed whatever happens, so a prompt
/// can keep using it.
pub fn run(interpreter: &mut crate::interpreter::Interpreter, source: &str) -> (r: Result<
    (),
    crate::errors::MyError,
>)
    requires
        crate::interpreter::state_wf(old(interpreter).state_m()),
        source@.len() + 1 <= usize::MAX,
    ensures
        crate::interpreter::state_wf(final(interpreter).state_m()),
        final(interpreter).is_repl == old(interpreter).is_repl,
        crate::scanner::scan_from(source@, 0, 1) matches Err(se) ==> (r matches Err(e) && e@
            == se && final(interpreter).state_m() == old(interpreter).state_m()),
        crate::scanner::scan_from(source@, 0, 1) matches Ok(ts) ==> match crate::parser::parse_program(
            ts,
        ) {
            Err(pe) => r matches Err(e) && e@ == pe && final(interpreter).state_m() == old(
                interpreter,
            ).state_m(),
            Ok(prog) => ({
                let rr = crate::interpreter::sp_exec_seq(
                    prog,
                    old(interpreter).state_m(),
                    false,
                    old(interpreter).is_repl,
                    crate::interpreter::STEP_LIMIT as nat,
                );
                &&& final(interpreter).state_m() == rr.0
                &&& match (r, rr.1) {
                    (Ok(u), Ok(b)) => true,
                    (Err(e), Err(ee)) => e@ == ee,
                    _ => false,
                }
            }),
        },
{
    let scanner = crate::scanner::Scanner::new(source);
    let tokens = match scanner.scan_tokens() {
        Ok(v) => v,
        Err(e) => {
            return Err(e);
        },
    };
    let mut parser = crate::parser::Parser::new(&tokens);
    let ghost ts = crate::tokens::tokens_view(tokens@);
    proof {
        assert(crate::scanner::scan_from(source@, 0, 1) matches Ok(ts2) && ts2 == ts);
        assert(crate::tokens::tokens_view(parser.tokens@) == ts);
        assert(parser.current == 0);
    }
    let stmts = match parser.parse() {
        Ok(v) => v,
        Err(e) => {
            proof {
                assert(crate::parser::parse_program(ts) matches Err(ee) && ee == e@);
            }
            return Err(e);
        },
    };
    proof {
        assert(crate::parser::parse_program(ts) matches Ok(prog) && prog == crate::stmt::stmts_view(
            stmts@,
        ));
    }
    match interpreter.interpret(&stmts) {
        Ok(u) => Ok(()),
        Err(e) => Err(e),
    }
}

} // verus!
