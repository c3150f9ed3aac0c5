use myjlox::errors::MyError;
use myjlox::interpreter::Interpreter;
use myjlox::run;

fn run_program(src: &str) -> Result<Vec<String>, MyError> {
    let mut interpreter = Interpreter::new(false);
    run(&mut interpreter, src)?;
    Ok(interpreter.output)
}

#[test]
fn test_print_precedence() {
    assert_eq!(run_program("print 1 + 2 * 3;").unwrap(), vec!["7"]);
}

#[test]
fn test_print_concatenation() {
    assert_eq!(
        run_program("var a = \"hi\"; var b = \" there\"; print a + b;").unwrap(),
        vec!["hi there"]
    );
}

#[test]
fn test_environment_block_scope() {
    assert_eq!(
        run_program("var a = 1; { var a = 2; print a; } print a;").unwrap(),
        vec!["2", "1"]
    );
}

#[test]
fn test_for_loop() {
    assert_eq!(
        run_program("for (var i = 0; i < 3; i = i + 1) print i;").unwrap(),
        vec!["0", "1", "2"]
    );
}

#[test]
fn test_while_loop() {
    assert_eq!(
        run_program(
            "var i = 0; while (i < 5) { if (i == 2) break; print i; i = i + 1; } print \"done\";"
        )
        .unwrap(),
        vec!["0", "1", "done"]
    );
}

#[test]
fn test_function_call() {
    assert_eq!(
        run_program("fun greet(n) { print \"hello \" + n; } greet(\"world\");").unwrap(),
        vec!["hello world"]
    );
}

#[test]
fn test_divide_by_zero_and_zero_dividend() {
    assert!(matches!(run_program("print 1 / 0;"), Err(MyError::DividedbyzeroError)));
    assert_eq!(run_program("print 0 / 1;").unwrap(), vec!["0"]);
}

#[test]
fn test_break_at_top_level() {
    assert!(matches!(run_program("break;"), Err(MyError::BreakNotInLoop)));
}

#[test]
fn test_break_inside_function_without_loop() {
    let src = "var i = 0; while (i < 1) { fun f() { break; } f(); i = i + 1; }";
    assert!(matches!(run_program(src), Err(MyError::BreakNotInLoop)));
}

#[test]
fn test_assignment_to_unbound_variable() {
    assert!(matches!(run_program("a = 1;"), Err(MyError::EnValueNotFoundError(_))));
}

#[test]
fn test_unterminated_string_through_run() {
    assert!(matches!(run_program("print \"abc"), Err(MyError::ScanError(_))));
}

#[test]
fn test_arity_mismatch() {
    let r = run_program("fun f(a, b) { print a; } f(1);");
    assert!(matches!(r, Err(MyError::ArityMismatchError(2, 1, _))));
}

#[test]
fn test_equality_complements_inequality() {
    assert_eq!(run_program("print 1 == 1;").unwrap(), vec!["true"]);
    assert_eq!(run_program("print !(1 != 1);").unwrap(), vec!["true"]);
    assert_eq!(run_program("print 1 == 2;").unwrap(), vec!["false"]);
    assert_eq!(run_program("print !(1 != 2);").unwrap(), vec!["false"]);
    assert_eq!(run_program("print nil == nil;").unwrap(), vec!["true"]);
    assert_eq!(run_program("print nil == 0;").unwrap(), vec!["false"]);
}

#[test]
fn test_double_bang_is_truthiness() {
    assert_eq!(run_program("print !!nil;").unwrap(), vec!["false"]);
    assert_eq!(run_program("print !!0;").unwrap(), vec!["true"]);
    assert_eq!(run_program("print !!\"\";").unwrap(), vec!["true"]);
    assert_eq!(run_program("print !!false;").unwrap(), vec!["false"]);
}

#[test]
fn test_concatenation_associativity() {
    let left = run_program("print (\"a\" + \"b\") + \"c\";").unwrap();
    let right = run_program("print \"a\" + (\"b\" + \"c\");").unwrap();
    assert_eq!(left, right);
    assert_eq!(left, vec!["abc"]);
}

#[test]
fn test_short_circuit_or_skips_right() {
    let src = "var x = 1; fun touch() { x = 2; } true or touch(); print x;";
    assert_eq!(run_program(src).unwrap(), vec!["1"]);
}

#[test]
fn test_short_circuit_and_skips_right() {
    let src = "var x = 1; fun touch() { x = 2; } false and touch(); print x;";
    assert_eq!(run_program(src).unwrap(), vec!["1"]);
}

#[test]
fn test_logical_returns_uncoerced_operand() {
    assert_eq!(run_program("print nil or 3;").unwrap(), vec!["3"]);
    assert_eq!(run_program("print 2 or 3;").unwrap(), vec!["2"]);
    assert_eq!(run_program("print nil and 3;").unwrap(), vec![""]);
}

#[test]
fn test_exact_decimal_arithmetic() {
    assert_eq!(run_program("print 0.5 + 0.25;").unwrap(), vec!["0.75"]);
    assert_eq!(run_program("print 123.53;").unwrap(), vec!["123.53"]);
}

#[test]
fn test_print_nil_and_booleans() {
    assert_eq!(run_program("print nil;").unwrap(), vec![""]);
    assert_eq!(run_program("print true;").unwrap(), vec!["true"]);
    assert_eq!(run_program("print 1 < 2;").unwrap(), vec!["true"]);
}

#[test]
fn test_function_prints_and_returns_nil() {
    assert_eq!(
        run_program("fun f() { print 1; } print f();").unwrap(),
        vec!["1", ""]
    );
}

#[test]
fn test_function_stringification() {
    assert_eq!(run_program("fun f() { print 1; } print f;").unwrap(), vec!["<fn f>"]);
}

#[test]
fn test_repl_echoes_expression_values() {
    let mut interpreter = Interpreter::new(true);
    run(&mut interpreter, "1 + 2;").unwrap();
    assert_eq!(interpreter.output, vec!["3"]);
}

#[test]
fn test_repl_state_survives_across_runs() {
    let mut interpreter = Interpreter::new(true);
    run(&mut interpreter, "var a = 40;").unwrap();
    run(&mut interpreter, "print a + 2;").unwrap();
    assert_eq!(interpreter.output, vec!["42"]);
}

#[test]
fn test_globals_visible_inside_functions() {
    let src = "var g = 10; fun f() { print g; } f();";
    assert_eq!(run_program(src).unwrap(), vec!["10"]);
}

#[test]
fn test_assignment_inside_function_reaches_globals() {
    let src = "var g = 1; fun f() { g = 5; } f(); print g;";
    assert_eq!(run_program(src).unwrap(), vec!["5"]);
}
