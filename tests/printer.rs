use lox_one::error::LoxError;
use lox_one::interpreter::{Interpreter, RuntimeError};
use lox_one::parser::{parse_str, ParserError};
use lox_one::token::Position;

fn run_program(src: &str) -> Vec<String> {
    let mut interpreter = Interpreter::new();
    let r = interpreter.interpret_str(src);
    assert!(r.is_ok(), "{:?}", r);
    interpreter.take_output()
}

fn round_trip(src: &str) {
    let printed = parse_str(src).unwrap().to_source();
    assert_eq!(run_program(src), run_program(&printed), "printed as {}", printed);
    let reprinted = parse_str(&printed).unwrap().to_source();
    assert_eq!(printed, reprinted);
}

#[test]
fn printed_programs_behave_the_same() {
    round_trip("for (var i=0;i<3;i=i+1) print i;");
    round_trip("var a=1; { var a=2; print a; } print a;");
    round_trip("fun add(a,b){ return a+b; } print add(2,3);");
    round_trip(
        "fun makeCounter(){ var i=0; fun inc(){ i=i+1; return i; } return inc; } var c=makeCounter(); print c(); print c();",
    );
    round_trip("var x = 2; if (x > 1) if (x > 5) print \"big\"; else print \"middle\"; print -x * 3 + 1;");
    round_trip("var s = \"a\"; while (s != \"aaa\") { s = s + \"a\"; if (s == \"aa\") continue; print s; } print true ? 1 : 2;");
    round_trip("print 1 < 2 and !(2 <= 1) or nil; print 7 / 2; var t; t = 4; print t;");
}

#[test]
fn expressions_print_fully_parenthesized() {
    assert_eq!(parse_str("print 1 + 2 * 3;").unwrap().to_source(), " print (1 + (2 * 3));");
    assert_eq!(parse_str("a = b or c;").unwrap().to_source(), " (a = (b or c));");
    assert_eq!(parse_str("f(1, \"x\")(nil);").unwrap().to_source(), " f(1, \"x\")(nil);");
    assert_eq!(
        parse_str("fun g(a, b) { return; }").unwrap().to_source(),
        " fun g(a, b) { return; }"
    );
    assert_eq!(parse_str("var v;").unwrap().to_source(), " var v = nil;");
}

#[test]
fn for_loop_scopes_are_released() {
    let mut interpreter = Interpreter::new();
    assert!(interpreter.interpret_str("for (var i=0;i<3;i=i+1) { var j = i; print j; }").is_ok());
    assert_eq!(interpreter.runtime.env.n_scopes(), 1);
    assert_eq!(interpreter.runtime.env.current(), 0);
    assert_eq!(interpreter.take_output(), vec!["0", "1", "2"]);
}

#[test]
fn messages_carry_positions() {
    assert_eq!(Position::new(3, 14).to_text(), "line 3, column 14");
    assert_eq!(
        RuntimeError::DivisionByZero(Position::new(1, 4)).message(),
        "Division by zero, line 1, column 4."
    );
    let mut interpreter = Interpreter::new();
    match interpreter.interpret_str("print missing;") {
        Err(e @ LoxError::Runtime(_)) => assert_eq!(e.message(), "Variable 'missing' isn't declared, line 1, column 14."),
        other => panic!("unexpected {:?}", other),
    }
    match parse_str("var 1;\nprint (2;") {
        Err(e @ ParserError::Bundle(_)) => assert_eq!(e.message().lines().count(), 2),
        other => panic!("unexpected {:?}", other),
    }
}

#[test]
fn number_literals_print_exactly() {
    assert_eq!(
        parse_str("print 0.12345678901234567;").unwrap().to_source(),
        " print 0.12345678901234567;"
    );
    round_trip("print 0.12345678901234567 * 100000000000000000;");
}
