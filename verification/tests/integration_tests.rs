use interpreter::evaluator::{Host, NumberRequest, TruthRequest};
use interpreter::expressions::BinaryOperator;
use interpreter::run;

/// Numbers as `f64`, the way a program run from the command line has them.
struct FloatHost {
    ticks: f64,
}

impl FloatHost {
    fn new() -> Self {
        FloatHost { ticks: 0.0 }
    }
}

impl Host for FloatHost {
    type Num = f64;

    fn number(&mut self, request: NumberRequest<'_, f64>) -> f64 {
        match request {
            NumberRequest::Read(lexeme) => lexeme.parse().unwrap(),
            NumberRequest::Negate(n) => -n,
            NumberRequest::Add(lhs, rhs) => lhs + rhs,
            NumberRequest::Subtract(lhs, rhs) => lhs - rhs,
            NumberRequest::Multiply(lhs, rhs) => lhs * rhs,
            NumberRequest::Divide(lhs, rhs) => lhs / rhs,
            NumberRequest::Clock => {
                self.ticks += 1.0;
                self.ticks
            }
        }
    }

    fn truth(&self, request: TruthRequest<f64>) -> bool {
        match request {
            TruthRequest::Compare(lhs, op, rhs) => match op {
                BinaryOperator::GREATER => lhs > rhs,
                BinaryOperator::GREATER_EQUAL => lhs >= rhs,
                BinaryOperator::LESS => lhs < rhs,
                _ => lhs <= rhs,
            },
            TruthRequest::Equal(lhs, rhs) => lhs == rhs,
        }
    }

    fn text(&self, n: f64) -> String {
        format!("{n}")
    }
}

fn run_script(script: &str) -> (Result<Option<String>, String>, String) {
    let mut output = String::new();
    let result = run(script, &mut output, &mut FloatHost::new());
    (result, output)
}

#[test]
fn call_lambda() {
    let lox_script = "print fun () { return 1; }();";
    let mut output = String::new();

    let result = run(lox_script, &mut output, &mut FloatHost::new());

    assert_eq!(output, "1\n");
    assert!(result.unwrap().is_none());
}

#[test]
fn lambda() {
    let lox_script = "fun thrice(fn) { \
        for (var i = 1; i <= 3; i = i + 1) { \
            fn(i); \
        } \
    } \
    \
    thrice(fun (a) { \
        print a; \
    });";

    let mut output = String::new();

    let result = run(lox_script, &mut output, &mut FloatHost::new());

    assert_eq!(output, "1\n2\n3\n");
    assert!(result.unwrap().is_none());
}

#[test]
fn nil_result_is_no_value() {
    let (result, output) = run_script("var a = nil; a;");
    assert_eq!(output, "");
    assert!(result.unwrap().is_none());
}

#[test]
fn unary_and_binary() {
    let lox_script = "print -1 + 3";

    let mut output = String::new();

    let result = run(lox_script, &mut output, &mut FloatHost::new());

    assert_eq!(output, "2\n");
    assert!(result.unwrap().is_none());
}

#[test]
fn recursive_fibonacci_prints_each_value() {
    let (result, output) = run_script(
        "fun fib(n) { if (n <= 1) return n; return fib(n - 2) + fib(n - 1); } \
         for (var i = 0; i < 10; i = i + 1) { print fib(i); }",
    );
    assert_eq!(output, "0\n1\n1\n2\n3\n5\n8\n13\n21\n34\n");
    assert!(result.unwrap().is_none());
}

#[test]
fn closures_keep_their_scope() {
    let (result, output) = run_script(
        "fun makeCounter() { var i = 0; fun count() { i = i + 1; print i; } return count; } \
         var counter = makeCounter(); counter(); counter();",
    );
    assert_eq!(output, "1\n2\n");
    assert!(result.unwrap().is_none());
}

#[test]
fn closures() {
    let lox_script = "fun makeCounter() { \
            var i = 0; \
            fun count() { \
                i = i + 1; \
                print i; \
            } \
        \
        return count; \
    } \
    \
    var counter = makeCounter(); \
    counter(); \
    counter(); \
    }";

    let mut output = String::new();

    let result = run(lox_script, &mut output, &mut FloatHost::new());

    assert_eq!(output, "1\n2\n");
    assert!(result.unwrap().is_none());
}

#[test]
fn function_test() {
    let lox_script = "fun sayHi(first, last) { \
        print \"Hi, \" + first + \" \" + last + \"!\"; \
    } \
    \
    sayHi(\"Dear\", \"Reader\");";
    let mut output = String::new();

    let result = run(lox_script, &mut output, &mut FloatHost::new());

    assert_eq!(output, "Hi, Dear Reader!");
    assert!(result.unwrap().is_none());
}

#[test]
fn printed_strings_have_no_newline() {
    let (_, output) = run_script("print \"a\"; print 1; print \"b\";");
    assert_eq!(output, "a1\nb");
}

#[test]
fn for_loop_with_two_variables() {
    let (result, output) = run_script(
        "var a = 0; var temp; for (var b = 1; a < 20; b = temp + b) { print a; temp = a; a = b; }",
    );
    assert_eq!(output, "0\n1\n1\n2\n3\n5\n8\n13\n");
    assert!(result.unwrap().is_none());
}

#[test]
fn last_expression_value_is_the_result() {
    let (result, output) = run_script("var a = 2; a * 3");
    assert_eq!(output, "");
    assert_eq!(result.unwrap(), Some("6".to_string()));
}

#[test]
fn string_result_is_shown_quoted() {
    let (result, _) = run_script("\"a\" + \"b\"");
    assert_eq!(result.unwrap(), Some("\"ab\"".to_string()));
}

#[test]
fn number_joins_string_as_text() {
    let (result, _) = run_script("1 + \"x\"");
    assert_eq!(result.unwrap(), Some("\"1x\"".to_string()));
}

#[test]
fn truthiness_and_logic() {
    let (_, output) = run_script(
        "print !nil; print !0; print nil or \"y\"; print false and 1; print 1 and 2;",
    );
    assert_eq!(output, "true\nfalse\nyfalse\n2\n");
}

#[test]
fn equality_across_types() {
    let (_, output) = run_script(
        "print 1 == 1; print \"a\" == \"a\"; print nil == nil; print 1 == \"1\"; print true != false;",
    );
    assert_eq!(output, "true\ntrue\ntrue\nfalse\ntrue\n");
}

#[test]
fn functions_are_never_equal() {
    let (_, output) = run_script("fun f() {} print f == f; print clock == clock;");
    assert_eq!(output, "false\nfalse\n");
}

#[test]
fn function_values_print_their_name() {
    let (_, output) = run_script("fun answer() { return 42; } print answer; print clock;");
    assert_eq!(output, "<fn answer>\n<fn clock>\n");
}

#[test]
fn clock_asks_the_host() {
    let (_, output) = run_script("print clock(); print clock();");
    assert_eq!(output, "1\n2\n");
}

#[test]
fn for_loop_stops_on_break() {
    let (_, output) = run_script("for (var i = 0; true; i = i + 1) { if (i == 3) break; print i; }");
    assert_eq!(output, "0\n1\n2\n");
}

#[test]
fn break_in_a_while_body_is_refused() {
    let (result, output) = run_script("var i = 0; while (true) { break; }");
    assert!(result.is_err());
    assert_eq!(output, "");
}

#[test]
fn break_outside_every_loop_is_reported_when_run() {
    let (result, _) = run_script("break;");
    assert!(result.unwrap_err().contains("Can't break outside of a loop."));
}

#[test]
fn block_scopes_shadow_and_restore() {
    let (_, output) = run_script("var a = 1; { var a = 2; print a; } print a;");
    assert_eq!(output, "2\n1\n");
}

#[test]
fn assignment_reaches_the_defining_scope() {
    let (_, output) = run_script("var a = 1; { a = 5; } print a;");
    assert_eq!(output, "5\n");
}

#[test]
fn undefined_variable_is_reported() {
    let (result, output) = run_script("print x;");
    assert_eq!(output, "");
    assert_eq!(
        result.unwrap_err(),
        "Error during scanning: Line 1\n Evaluation Error: Variable x is not defined\n   1 | print x;\n     |       ^\n"
    );
}

#[test]
fn uninitialised_variable_is_reported() {
    let (result, _) = run_script("var y; print y;");
    assert_eq!(
        result.unwrap_err(),
        "Error during scanning: Line 1\n Evaluation Error: Variable y is not initalised\n   1 | var y; print y;\n     |     ^\n"
    );
}

#[test]
fn assigning_an_undefined_variable_is_reported() {
    let (result, _) = run_script("z = 1;");
    assert_eq!(
        result.unwrap_err(),
        "Error during scanning: Line 1\n Evaluation Error: Variable z is not defined\n   1 | z = 1;\n     | ^\n"
    );
}

#[test]
fn unsupported_binary_operands_are_reported() {
    let (result, _) = run_script("true - 1;");
    assert_eq!(
        result.unwrap_err(),
        "Error during evaulation: Line 1\nEvaluation Error: Unsupported operand type for -: 'Boolean' and 'Number'\n   1 | true - 1;\n"
    );
}

#[test]
fn unsupported_unary_operand_is_reported() {
    let (result, _) = run_script("-\"a\";");
    assert_eq!(
        result.unwrap_err(),
        "Error during evaulation: Line 1\n Evaluation Error: Bad operand type for unary -: 'String'\n   1 | -\"a\";\n"
    );
}

#[test]
fn calling_a_non_function_is_reported() {
    let (result, _) = run_script("var a = 1; a();");
    assert_eq!(
        result.unwrap_err(),
        "Error during evaluation: Can only call functions and classes\n   1 | var a = 1; a();\n"
    );
}

#[test]
fn wrong_argument_count_is_reported() {
    let (result, _) = run_script("fun f(a, b) {} f(1);");
    assert_eq!(
        result.unwrap_err(),
        "Error during evaluation: Expected 2 arguments, but got 1.\n   1 | fun f(a, b) {} f(1);\n"
    );
}

#[test]
fn errors_keep_going_to_the_next_statement() {
    let (result, output) = run_script("print a;\nprint 1;\nprint b;");
    assert_eq!(output, "1\n");
    assert_eq!(
        result.unwrap_err(),
        "Error during scanning: Line 1\n Evaluation Error: Variable a is not defined\n   1 | print a;\n     |       ^\n\nError during scanning: Line 3\n Evaluation Error: Variable b is not defined\n   3 | print b;\n     |       ^\n"
    );
}

#[test]
fn scanning_errors_stop_before_running() {
    let (result, output) = run_script("print 1; @");
    assert_eq!(output, "");
    assert_eq!(
        result.unwrap_err(),
        "Error during scanning: Unexpected character\n   1 | print 1; @\n     |          ^\n"
    );
}

#[test]
fn parsing_errors_stop_before_running() {
    let (result, output) = run_script("print 1; var = 2;");
    assert_eq!(output, "");
    assert!(result.unwrap_err().contains("Unexpected Token"));
}

#[test]
fn return_outside_a_function_is_reported() {
    let (result, _) = run_script("return 1;");
    assert_eq!(
        result.unwrap_err(),
        "Error during evaluation: Can't return from top-level code.\n   1 | return 1;\n"
    );
}
