use europa::environment::Environment;
use europa::error::ErrorType;
use europa::run;
use europa::value::Value;

fn chars(s: &str) -> Vec<char> {
    s.chars().collect()
}

fn run_ok(src: &str) -> europa::RunResult {
    run(chars(src), Environment::new()).expect("program should run")
}

fn run_err(src: &str) -> europa::error::Error {
    match run(chars(src), Environment::new()) {
        Ok(_) => panic!("program should fail"),
        Err(e) => e,
    }
}

fn str_of(v: &Value) -> String {
    match v {
        Value::Str(cs) => cs.iter().collect(),
        other => panic!("expected a string, got {:?}", other),
    }
}

fn num_of(v: &Value) -> i64 {
    match v {
        Value::Num(n) => *n,
        other => panic!("expected a number, got {:?}", other),
    }
}

#[test]
fn shadowing_does_not_leak() {
    // var x = 1; { var x = 2; } print(x);  -- the inner declaration hides the
    // outer binding only inside the block.
    let r = run_ok("var x = 1; { var x = 2; } print(x);");
    assert_eq!(r.output.len(), 1);
    assert_eq!(num_of(&r.output[0]), 1);
    let x = r.environ.get(0, &chars("x")).expect("x is defined");
    assert_eq!(num_of(&x), 1);
}

#[test]
fn division_by_zero_is_math_error() {
    let e = run_err("1 / 0");
    assert_eq!(e.error_type, ErrorType::MathError);
}

#[test]
fn undefined_call_is_runtime_error() {
    let e = run_err("foo()");
    assert_eq!(e.error_type, ErrorType::RuntimeError);
}

#[test]
fn conditional_takes_true_branch_only() {
    let r = run_ok("if true { print(\"a\") } else { print(\"b\") }");
    assert_eq!(r.output.len(), 1);
    assert_eq!(str_of(&r.output[0]), "a");
}

#[test]
fn conditional_takes_false_branch_only() {
    let r = run_ok("if false { print(\"a\") } else { print(\"b\") }");
    assert_eq!(r.output.len(), 1);
    assert_eq!(str_of(&r.output[0]), "b");
}

#[test]
fn malformed_declaration_is_syntax_error_at_offending_token() {
    let e = run_err("var = ;");
    assert_eq!(e.error_type, ErrorType::SyntaxError);
    assert_eq!(e.info.line, 1);
    assert_eq!(e.info.col, 5);
}

#[test]
fn lexical_error_position_is_exact() {
    let e = run_err("var x = 1\nvar y = @");
    assert_eq!(e.error_type, ErrorType::SyntaxError);
    assert_eq!(e.info.line, 2);
    assert_eq!(e.info.col, 9);
}

#[test]
fn unterminated_string_points_at_opening_quote() {
    let e = run_err("var s = \"abc");
    assert_eq!(e.error_type, ErrorType::SyntaxError);
    assert_eq!(e.info.line, 1);
    assert_eq!(e.info.col, 9);
}

#[test]
fn arithmetic_precedence_and_value() {
    let r = run_ok("print(2 + 3 * 4)");
    assert_eq!(num_of(&r.output[0]), 14);
}

#[test]
fn division_truncates_toward_zero() {
    let r = run_ok("print(10 / 3) print(-7 / 2) print(7 / -2)");
    assert_eq!(num_of(&r.output[0]), 3);
    assert_eq!(num_of(&r.output[1]), -3);
    assert_eq!(num_of(&r.output[2]), -3);
}

#[test]
fn arithmetic_overflow_is_math_error() {
    let e = run_err("print(999999999999999999 * 99)");
    assert_eq!(e.error_type, ErrorType::MathError);
}

#[test]
fn closure_observes_later_assignment() {
    // The function value is created before x is reassigned, yet sees the
    // new value: it captures the environment, not a copy.
    let r = run_ok("var x = 1; fn f() { print(x); } x = 2; f();");
    assert_eq!(r.output.len(), 1);
    assert_eq!(num_of(&r.output[0]), 2);
}

#[test]
fn closures_share_their_defining_scope() {
    let r = run_ok(
        "fn outer() { var c = 0; fn inc() { c = c + 1; print(c); } inc(); inc(); } outer();",
    );
    assert_eq!(r.output.len(), 2);
    assert_eq!(num_of(&r.output[0]), 1);
    assert_eq!(num_of(&r.output[1]), 2);
}

#[test]
fn while_loop_accumulates() {
    let r = run_ok("var i = 0; var s = 0; while i < 5 { s = s + i; i = i + 1; } print(s);");
    assert_eq!(num_of(&r.output[0]), 10);
}

#[test]
fn string_concatenation() {
    let r = run_ok("print(\"ab\" + \"cd\")");
    assert_eq!(str_of(&r.output[0]), "abcd");
}

#[test]
fn comparison_yields_booleans() {
    let r = run_ok("print(1 < 2) print(2 <= 1) print(3 == 3) print(3 != 3)");
    assert!(matches!(r.output[0], Value::Bool(true)));
    assert!(matches!(r.output[1], Value::Bool(false)));
    assert!(matches!(r.output[2], Value::Bool(true)));
    assert!(matches!(r.output[3], Value::Bool(false)));
}

#[test]
fn logical_operators_short_circuit_to_operand_values() {
    let r = run_ok("print(false || 3) print(nil && 2) print(true && 5)");
    assert_eq!(num_of(&r.output[0]), 3);
    assert!(matches!(r.output[1], Value::Nil));
    assert_eq!(num_of(&r.output[2]), 5);
}

#[test]
fn mixed_operand_kinds_are_type_errors() {
    let e = run_err("1 + \"a\"");
    assert_eq!(e.error_type, ErrorType::TypeError);
    let e2 = run_err("\"a\" < \"b\"");
    assert_eq!(e2.error_type, ErrorType::TypeError);
}

#[test]
fn arity_mismatch_is_runtime_error() {
    let e = run_err("fn f(a) { print(a) } f(1, 2)");
    assert_eq!(e.error_type, ErrorType::RuntimeError);
}

#[test]
fn assignment_to_undefined_name_is_runtime_error() {
    let e = run_err("y = 1");
    assert_eq!(e.error_type, ErrorType::RuntimeError);
}

#[test]
fn calling_a_number_is_type_error() {
    let e = run_err("var x = 1; x();");
    assert_eq!(e.error_type, ErrorType::TypeError);
}

#[test]
fn return_carries_the_call_value() {
    let r = run_ok("fn f(a, b) { return a + b; } print(f(2, 3));");
    assert_eq!(num_of(&r.output[0]), 5);
}

#[test]
fn function_without_return_yields_nil() {
    let r = run_ok("fn f() { 1; } print(f());");
    assert!(matches!(r.output[0], Value::Nil));
}

#[test]
fn return_unwinds_nested_blocks_and_loops() {
    let r = run_ok("fn f() { var i = 0; while true { if i == 3 { return i; } i = i + 1; } } print(f());");
    assert_eq!(num_of(&r.output[0]), 3);
}

#[test]
fn return_at_top_level_is_runtime_error() {
    let e = run_err("return 1;");
    assert_eq!(e.error_type, ErrorType::RuntimeError);
}

#[test]
fn effects_before_a_failure_persist_in_output() {
    let e = run_err("print(1) 1 / 0 print(2)");
    assert_eq!(e.error_type, ErrorType::MathError);
}

#[test]
fn environment_threads_across_runs() {
    // A session hands the environment of one run to the next.
    let r1 = run_ok("var x = 41;");
    let r2 = run(chars("x = x + 1; print(x);"), r1.environ).expect("second run");
    assert_eq!(num_of(&r2.output[0]), 42);
}

#[test]
fn comments_are_skipped() {
    let r = run_ok("// nothing here\nprint(1) // trailing\n");
    assert_eq!(num_of(&r.output[0]), 1);
}

#[test]
fn unary_operators() {
    let r = run_ok("print(-3) print(!true) print(!nil)");
    assert_eq!(num_of(&r.output[0]), -3);
    assert!(matches!(r.output[1], Value::Bool(false)));
    assert!(matches!(r.output[2], Value::Bool(true)));
}

#[test]
fn number_literal_too_long_is_syntax_error() {
    let e = run_err("var x = 9223372036854775807;");
    assert_eq!(e.error_type, ErrorType::SyntaxError);
}
