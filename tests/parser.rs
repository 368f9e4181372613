use lox_one::ast::Stmt;
use lox_one::parser::{parse_str, Parser, ParserError};
use lox_one::scanner::Scanner;
use lox_one::token::TokenType;

fn assert_can_parse(src: &str) -> Vec<Stmt> {
    let tokens = Scanner::tokens_from_str(src);
    match Parser::new(tokens).program() {
        Ok(p) => p.statements,
        Err(e) => panic!("errors parsing {:?}: {:?}", src, e),
    }
}

#[test]
fn parses() {
    match parse_str("true ? 43  34") {
        Err(ParserError::Bundle(errors)) => assert!(!errors.is_empty()),
        other => panic!("unexpected {:?}", other),
    }
}

#[test]
fn parses_expr_stmts() {
    assert_eq!(assert_can_parse("1 + 2;\n(3);\n-4 * 5 / 6;\n\"s\";\nnil;\nfalse ? 32 : 323;\n").len(), 6);
}

#[test]
fn can_parse_print_stmt() {
    assert_eq!(assert_can_parse("print 1;\nprint \"a\" + \"b\";\n").len(), 2);
}

#[test]
fn can_parse_variables() {
    assert_eq!(assert_can_parse("var a = 1;\nvar b;\nvar c = a + b;\n").len(), 3);
}

#[test]
fn can_parse_assignment() {
    let stmts = assert_can_parse("var a;\na = 2;\na = a = 3;\n");
    assert_eq!(stmts.len(), 3);
}

#[test]
fn can_parse_if_stmt() {
    assert_eq!(assert_can_parse("if (true) print 1;\nif (a) { print 2; }\n").len(), 2);
}

#[test]
fn can_logical_if_else_stmt() {
    assert_eq!(assert_can_parse("if (a) print 1; else print 2;\nif (a) { } else if (b) { } else { }\n").len(), 2);
}

#[test]
fn can_parse_logical_and_stmt() {
    assert_eq!(assert_can_parse("print a and b;\nprint true and false and nil;\n").len(), 2);
}

#[test]
fn can_parse_logical_or_stmt() {
    assert_eq!(assert_can_parse("print a or b;\nprint a or b and c;\n").len(), 2);
}

#[test]
fn can_parse_while_stmt() {
    assert_eq!(assert_can_parse("while (i < 10) { i = i + 1; }\nwhile (false) print 1;\n").len(), 2);
}

#[test]
fn can_parse_for_stmt() {
    let stmts = assert_can_parse("for (var i = 0; i < 3; i = i + 1) print i;\nfor (;;) { break; }\n");
    assert_eq!(stmts.len(), 2);
    match &stmts[0] {
        Stmt::Block(outer) => {
            assert_eq!(outer.len(), 2);
            match &outer[1] {
                Stmt::WhileStmt { body, .. } => match body.as_ref() {
                    Stmt::Block(inner) => {
                        assert_eq!(inner.len(), 2);
                        assert!(matches!(inner[1], Stmt::ExprStmt(_)));
                    }
                    other => panic!("unexpected {:?}", other),
                },
                other => panic!("unexpected {:?}", other),
            }
        }
        other => panic!("unexpected {:?}", other),
    }
}

#[test]
fn can_parse_continue() {
    assert_eq!(assert_can_parse("while (true) { continue; }\n").len(), 1);
}

#[test]
fn can_parse_call_stmt() {
    assert_eq!(assert_can_parse("f();\ng(1, 2, 3);\nh(1)(2)();\n").len(), 3);
}

#[test]
fn can_parse_fun_decl_stmt() {
    let tokens = Scanner::tokens_from_str("fun add(a, b) { fun inner() { return a; } return a + b; }\nfun none() {}\n");
    let program = Parser::new(tokens).program().unwrap();
    assert_eq!(program.statements.len(), 2);
    assert_eq!(program.functions.len(), 3);
    assert_eq!(program.functions[1].name, "add");
    assert_eq!(program.functions[1].params, vec!["a".to_string(), "b".to_string()]);
}

#[test]
fn errors_are_bundled_after_recovery() {
    match parse_str("var = 1;\nprint 2;\nprint (3;\nvar ok = 4;\n") {
        Err(ParserError::Bundle(errors)) => assert_eq!(errors.len(), 2),
        other => panic!("unexpected {:?}", other),
    }
}

#[test]
fn missing_closing_brace_is_an_error() {
    assert!(parse_str("{ print 1;").is_err());
}

#[test]
fn too_many_arguments_is_an_error() {
    let args: Vec<String> = (0..251).map(|i| i.to_string()).collect();
    let src = format!("f({});", args.join(", "));
    match parse_str(&src) {
        Err(ParserError::Bundle(errors)) => {
            assert!(matches!(errors[0], ParserError::ArgumentLimitReached(_)))
        }
        other => panic!("unexpected {:?}", other),
    }
}

#[test]
fn scanner_ends_with_eof() {
    let tokens = Scanner::tokens_from_str("var x = 1.5; // comment\n/* block */ print x;");
    assert_eq!(tokens.last().unwrap().token_type, TokenType::Eof);
    let kinds: Vec<TokenType> = tokens.iter().map(|t| t.token_type).collect();
    assert_eq!(
        kinds,
        vec![
            TokenType::Var,
            TokenType::Identifier,
            TokenType::Equal,
            TokenType::Number,
            TokenType::Semicolon,
            TokenType::Print,
            TokenType::Identifier,
            TokenType::Semicolon,
            TokenType::Eof
        ]
    );
    assert_eq!(Scanner::tokens_from_str("").len(), 1);
}

fn first_error(src: &str) -> ParserError {
    match parse_str(src) {
        Err(ParserError::Bundle(mut errors)) => errors.remove(0),
        other => panic!("unexpected {:?}", other),
    }
}

#[test]
fn each_syntax_error_kind() {
    assert!(matches!(first_error("print 1"), ParserError::Eof(_)));
    assert!(matches!(first_error("{ print 1;"), ParserError::ExpectedClosingBrace(_)));
    assert!(matches!(first_error("var 1;"), ParserError::Expected { found: TokenType::Number, .. }));
    assert!(matches!(
        first_error("99999999999999999999;"),
        ParserError::UnexpectedToken(TokenType::Number, _)
    ));
    assert!(matches!(first_error("true ? 1 2;"), ParserError::Expected { .. }));
}

#[test]
fn recovery_reports_each_failed_declaration() {
    match parse_str("var = 1; print 2; var = 3;") {
        Err(ParserError::Bundle(errors)) => assert_eq!(errors.len(), 2),
        other => panic!("unexpected {:?}", other),
    }
}
