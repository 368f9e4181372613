use lox_one::ast::{Program, Stmt};
use lox_one::error::LoxError;
use lox_one::interpreter::{Interpreter, RuntimeError};
use lox_one::token::{Position, TokenType};
use lox_one::value::LoxValue;

fn run(src: &str) -> (Result<Option<LoxValue>, LoxError>, Vec<String>) {
    let mut interpreter = Interpreter::new();
    let r = interpreter.interpret_str(src);
    let out = interpreter.take_output();
    (r, out)
}

fn run_ok(src: &str) -> Vec<String> {
    let (r, out) = run(src);
    match r {
        Ok(_) => out,
        Err(e) => panic!("unexpected error: {:?}", e),
    }
}

fn runtime_error(src: &str) -> RuntimeError {
    match run(src).0 {
        Err(LoxError::Runtime(e)) => e,
        other => panic!("expected a runtime error, got {:?}", other),
    }
}

fn lines(v: &[&str]) -> Vec<String> {
    v.iter().map(|s| s.to_string()).collect()
}

#[test]
fn executes_expr_statements() {
    run_ok("1 + 2;\n\"a\" + \"b\";\n3 * (4 - 1);\n-5;\n!true;\n1 < 2 ? 1 : 2;\n");
}

#[test]
fn executes_print_statements() {
    let out = run_ok("print 1;\nprint \"hello\";\nprint true;\nprint nil;\nprint 2 + 3 * 4;\nprint 7 / 2;\n");
    assert_eq!(out, lines(&["1", "hello", "true", "nil", "14", "3.5"]));
}

#[test]
fn executes_variables() {
    let out = run_ok("var a = 1;\nvar b;\nprint a;\nprint b;\nvar a = \"again\";\nprint a;\n");
    assert_eq!(out, lines(&["1", "nil", "again"]));
}

#[test]
fn executes_assignment_expressions() {
    let out = run_ok("var a = 1;\na = a + 41;\nprint a;\nvar b = 0;\nb = a = 2;\nprint a;\nprint b;\n");
    assert_eq!(out, lines(&["42", "2", "2"]));
}

#[test]
fn executes_block_statements() {
    let out = run_ok("var a = \"outer\";\n{\n  var a = \"inner\";\n  print a;\n  { print a; }\n}\nprint a;\n");
    assert_eq!(out, lines(&["inner", "inner", "outer"]));
}

#[test]
fn executes_if_statements() {
    let out = run_ok("if (true) print 1;\nif (false) print 2;\nif (nil) print 3;\nif (0) print 4;\n");
    assert_eq!(out, lines(&["1", "4"]));
}

#[test]
fn executes_if_else_statements() {
    let out = run_ok("if (1 > 2) print \"yes\"; else print \"no\";\nif (2 >= 2) { print \"ge\"; } else { print \"lt\"; }\n");
    assert_eq!(out, lines(&["no", "ge"]));
}

#[test]
fn executes_logical_or() {
    let out = run_ok("print false or true;\nprint nil or false;\nprint 1 or undefined_name;\n");
    assert_eq!(out, lines(&["true", "false", "true"]));
}

#[test]
fn executes_logical_and() {
    let out = run_ok("print true and 1;\nprint false and undefined_name;\nprint true and nil;\n");
    assert_eq!(out, lines(&["true", "false", "false"]));
}

#[test]
fn executes_while_statements() {
    let out = run_ok("var i = 0;\nwhile (i < 3) { print i; i = i + 1; }\n");
    assert_eq!(out, lines(&["0", "1", "2"]));
}

#[test]
fn tests_executes_while_statements() {
    let out = run_ok("var i = 0;\nwhile (true) { i = i + 1; if (i == 2) continue; if (i > 4) break; print i; }\n");
    assert_eq!(out, lines(&["1", "3", "4"]));
}

#[test]
fn executes_for_statements() {
    let out = run_ok("for (var i = 0; i < 3; i = i + 1) print i;\n");
    assert_eq!(out, lines(&["0", "1", "2"]));
}

#[test]
fn tests_executes_for_statements() {
    let out = run_ok("var n = 0;\nfor (;n < 2;) { n = n + 1; }\nprint n;\nfor (var j = 10; j > 0; j = j - 4) { print j; }\n");
    assert_eq!(out, lines(&["2", "10", "6", "2"]));
}

#[test]
fn executes_call_statements() {
    let out = run_ok("fun greet(name) { print \"hi \" + name; }\ngreet(\"bob\");\nprint clock();\nprint greet;\nprint clock;\n");
    assert_eq!(out, lines(&["hi bob", "13124312", "<fun greet>", "<native fun clock>"]));
}

#[test]
fn for_loop_prints_in_order() {
    let out = run_ok("for (var i=0;i<3;i=i+1) print i;");
    assert_eq!(out, lines(&["0", "1", "2"]));
}

#[test]
fn block_shadowing_is_local() {
    let out = run_ok("var a=1; { var a=2; print a; } print a;");
    assert_eq!(out, lines(&["2", "1"]));
}

#[test]
fn function_call_and_arity() {
    let out = run_ok("fun add(a,b){ return a+b; } print add(2,3);");
    assert_eq!(out, lines(&["5"]));
    match runtime_error("fun add(a,b){ return a+b; } add(1);") {
        RuntimeError::IncorrectArity { name, .. } => assert_eq!(name, "add"),
        e => panic!("unexpected {:?}", e),
    }
}

#[test]
fn division_by_zero_reports_divisor() {
    match runtime_error("1/0;") {
        RuntimeError::DivisionByZero(p) => assert_eq!(p, Position::new(1, 4)),
        e => panic!("unexpected {:?}", e),
    }
}

#[test]
fn top_level_break_is_invalid() {
    assert!(matches!(runtime_error("break;"), RuntimeError::InvalidBreak(_)));
}

#[test]
fn closures_capture_by_reference() {
    let out = run_ok(
        "fun makeCounter(){ var i=0; fun inc(){ i=i+1; return i; } return inc; } var c=makeCounter(); print c(); print c();",
    );
    assert_eq!(out, lines(&["1", "2"]));
}

#[test]
fn closures_outlive_their_block() {
    let out = run_ok("var f; { var x = \"kept\"; fun g() { return x; } f = g; } print f();");
    assert_eq!(out, lines(&["kept"]));
}

#[test]
fn resolved_reference_uses_lexical_binding() {
    let out = run_ok(
        "var a = \"global\"; { fun show() { print a; } show(); var a = \"block\"; show(); print a; }",
    );
    assert_eq!(out, lines(&["global", "global", "block"]));
}

#[test]
fn recursion_works() {
    let out = run_ok("fun fib(n) { if (n < 2) return n; return fib(n - 1) + fib(n - 2); } print fib(15);");
    assert_eq!(out, lines(&["610"]));
}

#[test]
fn fractions_are_exact() {
    let out = run_ok("print 1/3 + 1/6;\nprint 0.1 + 0.2;\nprint -7 / 4;\nprint 1/3;\nprint 2.50;\n");
    assert_eq!(out, lines(&["0.5", "0.3", "-1.75", "0.3333333333333333", "2.5"]));
}

#[test]
fn equality_is_structural() {
    let out = run_ok("print 1 == 1.0;\nprint \"a\" == \"a\";\nprint nil == false;\nprint 1 != 2;\nprint clock == clock;\n");
    assert_eq!(out, lines(&["true", "true", "false", "true", "true"]));
}

#[test]
fn string_concatenation_stringifies_right_operand() {
    let out = run_ok("print \"n=\" + 3;\nprint \"b=\" + true;\nprint \"x\" + nil;\n");
    assert_eq!(out, lines(&["n=3", "b=true", "xnil"]));
}

#[test]
fn undeclared_variable_is_an_error() {
    match runtime_error("print nope;") {
        RuntimeError::VarDoesNotExist { name, .. } => assert_eq!(name, "nope"),
        e => panic!("unexpected {:?}", e),
    }
    assert!(matches!(runtime_error("nope = 1;"), RuntimeError::VarDoesNotExist { .. }));
}

#[test]
fn calling_a_non_function_is_an_error() {
    assert!(matches!(runtime_error("\"s\"();"), RuntimeError::NotCallable { .. }));
}

#[test]
fn continue_and_return_outside_their_place() {
    assert!(matches!(runtime_error("continue;"), RuntimeError::InvalidContinue(_)));
    assert!(matches!(runtime_error("return 1;"), RuntimeError::InvalidReturn(_)));
    assert!(matches!(runtime_error("fun f() { break; } f();"), RuntimeError::InvalidBreak(_)));
}

#[test]
fn variable_in_own_initializer_is_an_error() {
    assert!(matches!(runtime_error("{ var a = a; }"), RuntimeError::VarUsedInOwnInitializer(_, _)));
}

#[test]
fn operand_kind_errors() {
    assert!(matches!(runtime_error("-\"a\";"), RuntimeError::ExpectedNumber(_)));
    assert!(matches!(runtime_error("!1;"), RuntimeError::ExpectedBoolean(_)));
    assert!(matches!(runtime_error("1 + true;"), RuntimeError::InvalidOperands(_)));
    assert!(matches!(runtime_error("1 < \"a\";"), RuntimeError::InvalidOperands(_)));
}

#[test]
fn overflow_is_an_error() {
    assert!(matches!(
        runtime_error("print 9223372036854775807 + 1;"),
        RuntimeError::NumberOutOfRange(_)
    ));
}

#[test]
fn deep_recursion_is_stopped() {
    assert!(matches!(runtime_error("fun f() { return f(); } f();"), RuntimeError::StackOverflow(_)));
}

#[test]
fn loop_budget_is_enforced() {
    let mut interpreter = Interpreter::new();
    interpreter.runtime.steps = 5;
    match interpreter.interpret_str("while (true) {}") {
        Err(LoxError::Runtime(RuntimeError::StepLimitReached(_))) => {}
        other => panic!("unexpected {:?}", other),
    }
}

#[test]
fn unknown_function_index_is_an_error() {
    let program = Program {
        statements: vec![Stmt::FunStmt { function: 3, position: Position::new(1, 1) }],
        functions: Vec::new(),
        references: 0,
    };
    let mut interpreter = Interpreter::new();
    assert!(matches!(interpreter.interpret(program), Err(RuntimeError::UnknownFunction(_))));
}

#[test]
fn globals_persist_between_programs() {
    let mut interpreter = Interpreter::new();
    assert!(interpreter.interpret_str("var a = 1; fun inc() { a = a + 1; }").is_ok());
    assert!(interpreter.interpret_str("inc(); print a;").is_ok());
    assert_eq!(interpreter.take_output(), lines(&["2"]));
}

#[test]
fn error_leaves_global_scope_current() {
    let mut interpreter = Interpreter::new();
    assert!(interpreter.interpret_str("{ var x = 1; print 1/0; }").is_err());
    assert!(interpreter.interpret_str("var y = 3; print y;").is_ok());
    assert_eq!(interpreter.take_output(), lines(&["3"]));
}

#[test]
fn arity_of_callables() {
    let mut interpreter = Interpreter::new();
    assert!(interpreter.interpret_str("fun two(a, b) {} var n = 1;").is_ok());
    let two = interpreter.runtime.env.get(&"two".to_string()).unwrap();
    let clock = interpreter.runtime.env.get(&"clock".to_string()).unwrap();
    let n = interpreter.runtime.env.get(&"n".to_string()).unwrap();
    assert_eq!(interpreter.arity(&two), Some(2));
    assert_eq!(interpreter.arity(&clock), Some(0));
    assert_eq!(interpreter.arity(&n), None);
    assert_eq!(interpreter.runtime.callables[0].name(), "clock");
}

#[test]
fn values_name_their_token_types() {
    assert_eq!(LoxValue::Boolean(false).get_token_type(), TokenType::False);
    assert_eq!(LoxValue::String("s".to_string()).get_token_type(), TokenType::String);
    assert_eq!(LoxValue::Nil.get_token_type(), TokenType::Nil);
    assert!(LoxValue::Nil.is_nil());
    assert!(!LoxValue::Boolean(false).is_truthy());
    assert!(LoxValue::String(String::new()).is_truthy());
}

#[test]
fn function_body_is_a_block_inside_the_parameter_scope() {
    let out = run_ok("fun f(a) { fun g() { return a; } var a = 5; return g(); } print f(1);");
    assert_eq!(out, lines(&["1"]));
    let out = run_ok("fun h(a) { var b = a + 1; var a = b; return a; } print h(1);");
    assert_eq!(out, lines(&["2"]));
}

#[test]
fn resolved_depths_count_parameter_and_body_scopes() {
    let program = lox_one::parser::parse_str("{ fun f(n) { return f(n); } }").unwrap();
    let depths = lox_one::resolver::resolve_program(&program).unwrap();
    assert_eq!(depths[8], Some(2));
    assert_eq!(depths[10], Some(1));
}

#[test]
fn callee_is_checked_before_arguments() {
    let mut interpreter = Interpreter::new();
    let r = interpreter.interpret_str("var x = 0; fun bump() { x = x + 1; return x; } 1(bump());");
    assert!(matches!(r, Err(LoxError::Runtime(RuntimeError::NotCallable { .. }))));
    assert!(interpreter.interpret_str("print x;").is_ok());
    assert_eq!(interpreter.take_output(), lines(&["0"]));
}
