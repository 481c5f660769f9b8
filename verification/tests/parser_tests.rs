use venti::ast::BinOp;
use venti::ast::Expr;
use venti::ast::Statement;
use venti::errors::VentiError;
use venti::lexer::lex;
use venti::parser::Parser;

fn parse_source(src: &str) -> Result<Vec<Statement>, VentiError> {
    let mut parser = Parser::new(lex(src)?);
    parser.parse()
}

#[test]
fn precedence_multiplication_binds_tighter() {
    // One declaration whose initializer keeps multiplication under addition.
    let ast = parse_source("venti x = 1 + 2 * 3;").unwrap();
    assert_eq!(
        ast,
        vec![Statement::VariableDeclaration {
            identifier: "x".to_string(),
            value: Expr::BinaryOp(
                Box::new(Expr::Number(1)),
                BinOp::Add,
                Box::new(Expr::BinaryOp(
                    Box::new(Expr::Number(2)),
                    BinOp::Multiply,
                    Box::new(Expr::Number(3)),
                )),
            ),
        }]
    );
}

#[test]
fn print_statement_wraps_a_string_literal() {
    let ast = parse_source("printventi \"hi\";").unwrap();
    assert_eq!(
        ast,
        vec![Statement::Print(Expr::String("hi".to_string()))]
    );
}

#[test]
fn array_literal_as_an_expression() {
    let mut parser = Parser::new(lex("[1, 2, 3]").unwrap());
    let e = parser.expression().unwrap();
    assert_eq!(
        e,
        Expr::Array(vec![Expr::Number(1), Expr::Number(2), Expr::Number(3)])
    );
}

#[test]
fn malformed_array_missing_bracket_fails() {
    let mut parser = Parser::new(lex("[1, 2").unwrap());
    let err = parser.expression().unwrap_err();
    assert!(matches!(err, VentiError::SyntaxError(_)));
}

#[test]
fn array_tolerates_trailing_comma() {
    let mut parser = Parser::new(lex("[1, 2,]").unwrap());
    let e = parser.expression().unwrap();
    assert_eq!(e, Expr::Array(vec![Expr::Number(1), Expr::Number(2)]));
}

#[test]
fn empty_array_parses() {
    let mut parser = Parser::new(lex("[]").unwrap());
    assert_eq!(parser.expression().unwrap(), Expr::Array(vec![]));
}

#[test]
fn subtraction_and_division_are_left_associative() {
    let mut parser = Parser::new(lex("8 - 3 - 2").unwrap());
    let e = parser.expression().unwrap();
    assert_eq!(
        e,
        Expr::BinaryOp(
            Box::new(Expr::BinaryOp(
                Box::new(Expr::Number(8)),
                BinOp::Subtract,
                Box::new(Expr::Number(3)),
            )),
            BinOp::Subtract,
            Box::new(Expr::Number(2)),
        )
    );
    let mut parser = Parser::new(lex("8 / 2 / 2").unwrap());
    let e = parser.expression().unwrap();
    assert_eq!(
        e,
        Expr::BinaryOp(
            Box::new(Expr::BinaryOp(
                Box::new(Expr::Number(8)),
                BinOp::Divide,
                Box::new(Expr::Number(2)),
            )),
            BinOp::Divide,
            Box::new(Expr::Number(2)),
        )
    );
}

#[test]
fn parentheses_are_transparent() {
    let mut parser = Parser::new(lex("(1 + 2) * 3").unwrap());
    let e = parser.expression().unwrap();
    assert_eq!(
        e,
        Expr::BinaryOp(
            Box::new(Expr::BinaryOp(
                Box::new(Expr::Number(1)),
                BinOp::Add,
                Box::new(Expr::Number(2)),
            )),
            BinOp::Multiply,
            Box::new(Expr::Number(3)),
        )
    );
}

#[test]
fn function_call_with_arguments() {
    let ast = parse_source("foo(1, \"two\", bar)").unwrap();
    assert_eq!(
        ast,
        vec![Statement::FunctionCall {
            identifier: "foo".to_string(),
            args: vec![
                Expr::Number(1),
                Expr::String("two".to_string()),
                Expr::Identifier("bar".to_string()),
            ],
        }]
    );
}

#[test]
fn call_with_no_arguments_and_trailing_comma() {
    assert_eq!(
        parse_source("foo()").unwrap(),
        vec![Statement::FunctionCall { identifier: "foo".to_string(), args: vec![] }]
    );
    assert_eq!(
        parse_source("foo(1,)").unwrap(),
        vec![Statement::FunctionCall {
            identifier: "foo".to_string(),
            args: vec![Expr::Number(1)],
        }]
    );
}

#[test]
fn variable_assignment_needs_semicolon() {
    let ast = parse_source("x 5;").unwrap();
    assert_eq!(
        ast,
        vec![Statement::VariableAssignment {
            identifier: "x".to_string(),
            value: Expr::Number(5),
        }]
    );
    let err = parse_source("x 5").unwrap_err();
    assert!(matches!(err, VentiError::SyntaxError(_)));
}

#[test]
fn async_function_declaration_parses() {
    let ast = parse_source("async greet { printventi \"hi\"; }").unwrap();
    assert_eq!(
        ast,
        vec![Statement::AsyncFunction {
            identifier: "greet".to_string(),
            body: vec![Statement::Print(Expr::String("hi".to_string()))],
        }]
    );
}

#[test]
fn await_wraps_the_following_expression() {
    let ast = parse_source("printventi await 5;").unwrap();
    assert_eq!(
        ast,
        vec![Statement::Print(Expr::Await(Box::new(Expr::Number(5))))]
    );
}

#[test]
fn declaration_errors_name_their_expectation() {
    // The three unmet expectations of a declaration are three distinct errors.
    match parse_source("venti = 1;").unwrap_err() {
        VentiError::SyntaxError(msg) => {
            assert_eq!(msg, "Expected identifier in variable declaration.");
        }
        other => panic!("expected a syntax error, got {:?}", other),
    }
    match parse_source("venti x 1;").unwrap_err() {
        VentiError::SyntaxError(msg) => assert_eq!(msg, "Expected '=' in variable declaration."),
        other => panic!("expected a syntax error, got {:?}", other),
    }
    match parse_source("venti x = 1").unwrap_err() {
        VentiError::SyntaxError(msg) => {
            assert_eq!(msg, "Expected ';' at the end of variable declaration.");
        }
        other => panic!("expected a syntax error, got {:?}", other),
    }
}

#[test]
fn missing_delimiters_name_their_expectation() {
    let mut parser = Parser::new(lex("(1 + 2").unwrap());
    match parser.expression().unwrap_err() {
        VentiError::SyntaxError(msg) => assert_eq!(msg, "Expected ')'"),
        other => panic!("expected a syntax error, got {:?}", other),
    }
    match parse_source("printventi 1").unwrap_err() {
        VentiError::SyntaxError(msg) => {
            assert_eq!(msg, "Expected ';' at the end of print statement.");
        }
        other => panic!("expected a syntax error, got {:?}", other),
    }
    match parse_source("x 5").unwrap_err() {
        VentiError::SyntaxError(msg) => {
            assert_eq!(msg, "Expected ';' after variable assignment.");
        }
        other => panic!("expected a syntax error, got {:?}", other),
    }
}

#[test]
fn reserved_keywords_have_no_statement_form() {
    let err = parse_source("if_venti x;").unwrap_err();
    assert!(matches!(err, VentiError::SyntaxError(_)));
}

#[test]
fn number_literal_out_of_range_is_rejected() {
    assert_eq!(
        parse_source("venti x = 9223372036854775807;").unwrap(),
        vec![Statement::VariableDeclaration {
            identifier: "x".to_string(),
            value: Expr::Number(i64::MAX),
        }]
    );
    let err = parse_source("venti x = 9223372036854775808;").unwrap_err();
    assert!(matches!(err, VentiError::SyntaxError(_)));
}

#[test]
fn error_messages_render_with_their_kind() {
    let err = VentiError::SyntaxError("Expected ')'".to_string());
    assert_eq!(err.message(), "Syntax Error: Expected ')'");
    let err = VentiError::CodegenError("Undefined variable 'x'".to_string());
    assert_eq!(err.message(), "Codegen Error: Undefined variable 'x'");
    let err = VentiError::IOError("missing file".to_string());
    assert_eq!(err.message(), "IO Error: missing file");
}

#[test]
fn unexpected_statement_error_names_the_found_token() {
    match parse_source(";").unwrap_err() {
        VentiError::SyntaxError(msg) => {
            assert_eq!(msg, "Unexpected token at start of statement: ;");
        }
        other => panic!("expected a syntax error, got {:?}", other),
    }
    match parse_source("printventi };").unwrap_err() {
        VentiError::SyntaxError(msg) => {
            assert_eq!(msg, "Unexpected token in expression: }");
        }
        other => panic!("expected a syntax error, got {:?}", other),
    }
}
