use venti::ast::BinOp;
use venti::ast::Expr;
use venti::ast::Statement;
use venti::codegen::CodeGen;
use venti::codegen::ConstValue;
use venti::errors::VentiError;
use venti::lexer::lex;
use venti::parser::Parser;

fn compile_source(src: &str) -> Result<(CodeGen, String), VentiError> {
    let mut parser = Parser::new(lex(src)?);
    let ast = parser.parse()?;
    let mut cg = CodeGen::new();
    let out = cg.compile(ast)?;
    Ok((cg, out))
}

fn global_value(cg: &CodeGen, name: &str) -> ConstValue {
    for g in &cg.globals {
        if g.name == name {
            return g.value;
        }
    }
    panic!("no global named {}", name);
}

#[test]
fn empty_program_lowers_to_an_empty_module() {
    let (_, out) = compile_source("").unwrap();
    assert_eq!(out, "module venti\ndeclare printf\ndefine main {\n}\n");
}

#[test]
fn declaration_folds_its_initializer() {
    let (cg, out) = compile_source("venti x = 1 + 2 * 3;").unwrap();
    assert_eq!(global_value(&cg, "x"), ConstValue::Int(7));
    assert_eq!(out, "module venti\ndeclare printf\nglobal x = 7\ndefine main {\n}\n");
}

#[test]
fn redeclaration_is_last_write_wins() {
    let (cg, _) = compile_source("venti x = 1;\nventi x = 2;").unwrap();
    assert_eq!(cg.globals.len(), 1);
    assert_eq!(global_value(&cg, "x"), ConstValue::Int(2));
}

#[test]
fn assignment_reuses_the_existing_binding() {
    // A declaration followed by a plain assignment to the same name: the
    // binding exists, so lowering must succeed and rebind it.
    let stmts = vec![
        Statement::VariableDeclaration { identifier: "x".to_string(), value: Expr::Number(5) },
        Statement::VariableAssignment { identifier: "x".to_string(), value: Expr::Number(9) },
    ];
    let mut cg = CodeGen::new();
    cg.compile(stmts).unwrap();
    assert_eq!(cg.globals.len(), 1);
    assert_eq!(global_value(&cg, "x"), ConstValue::Int(9));
}

#[test]
fn assignment_without_binding_is_a_codegen_error() {
    let stmts = vec![Statement::VariableAssignment {
        identifier: "x".to_string(),
        value: Expr::Number(5),
    }];
    let mut cg = CodeGen::new();
    match cg.compile(stmts).unwrap_err() {
        VentiError::CodegenError(msg) => assert_eq!(msg, "Undefined variable 'x'"),
        other => panic!("expected a codegen error, got {:?}", other),
    }
}

#[test]
fn call_to_unknown_function_fails_and_declared_one_succeeds() {
    let err = compile_source("greet()").unwrap_err();
    match err {
        VentiError::CodegenError(msg) => assert_eq!(msg, "Undefined function 'greet'"),
        other => panic!("expected a codegen error, got {:?}", other),
    }
    let (_, out) = compile_source("async greet { printventi \"hi\"; }\ngreet()").unwrap();
    assert_eq!(
        out,
        "module venti\ndeclare printf\nstr.0 = \"hi\"\n\
         define greet {\n  call printf(str.0)\n  ret\n}\n\
         define main {\n  call greet()\n}\n"
    );
}

#[test]
fn print_of_a_declared_global() {
    let (_, out) = compile_source("venti x = 1 + 2 * 3;\nprintventi x;").unwrap();
    assert_eq!(
        out,
        "module venti\ndeclare printf\nglobal x = 7\ndefine main {\n  call printf(@x)\n}\n"
    );
}

#[test]
fn undefined_variable_in_print_is_a_codegen_error() {
    match compile_source("printventi y;").unwrap_err() {
        VentiError::CodegenError(msg) => assert_eq!(msg, "Undefined variable 'y'"),
        other => panic!("expected a codegen error, got {:?}", other),
    }
}

#[test]
fn array_literal_allocates_and_stores() {
    let (_, out) = compile_source("printventi [1, 2, 3];").unwrap();
    assert_eq!(
        out,
        "module venti\ndeclare printf\ndefine main {\n\
         \x20 %0 = alloc 3\n\
         \x20 store 1, %0[0]\n\
         \x20 store 2, %0[1]\n\
         \x20 store 3, %0[2]\n\
         \x20 call printf(%0)\n}\n"
    );
}

#[test]
fn binary_operation_lowers_to_an_instruction_in_a_body() {
    let (_, out) = compile_source("printventi 1 + 2;").unwrap();
    assert_eq!(
        out,
        "module venti\ndeclare printf\ndefine main {\n  %0 = add 1, 2\n  call printf(%0)\n}\n"
    );
}

#[test]
fn await_unwraps_to_its_inner_value() {
    let (_, out) = compile_source("printventi await 5;").unwrap();
    assert_eq!(out, "module venti\ndeclare printf\ndefine main {\n  call printf(5)\n}\n");
}

#[test]
fn async_wrapper_expression_is_unsupported() {
    let stmts = vec![Statement::Print(Expr::Async(Box::new(Expr::Number(1))))];
    let mut cg = CodeGen::new();
    match cg.compile(stmts).unwrap_err() {
        VentiError::CodegenError(msg) => assert!(msg.contains("Unsupported")),
        other => panic!("expected a codegen error, got {:?}", other),
    }
}

#[test]
fn operand_kind_mismatch_is_a_codegen_error() {
    match compile_source("venti x = 1 + true;").unwrap_err() {
        VentiError::CodegenError(msg) => assert!(msg.contains("Type mismatch")),
        other => panic!("expected a codegen error, got {:?}", other),
    }
    match compile_source("printventi 1 + \"s\";").unwrap_err() {
        VentiError::CodegenError(msg) => assert!(msg.contains("Type mismatch")),
        other => panic!("expected a codegen error, got {:?}", other),
    }
}

#[test]
fn constant_arithmetic_wraps_and_division_truncates() {
    let (cg, _) = compile_source("venti x = 9223372036854775807 + 1;").unwrap();
    assert_eq!(global_value(&cg, "x"), ConstValue::Int(i64::MIN));
    let (cg, _) = compile_source("venti y = 0 - 7;\nventi x = y / 2;").unwrap();
    assert_eq!(global_value(&cg, "x"), ConstValue::Int(-3));
    let (cg, _) = compile_source("venti x = 7 / 2;").unwrap();
    assert_eq!(global_value(&cg, "x"), ConstValue::Int(3));
}

#[test]
fn constant_division_by_zero_is_a_codegen_error() {
    match compile_source("venti x = 1 / 0;").unwrap_err() {
        VentiError::CodegenError(msg) => {
            assert_eq!(msg, "Division by zero in constant expression");
        }
        other => panic!("expected a codegen error, got {:?}", other),
    }
}

#[test]
fn overflowing_constant_division_has_its_own_error() {
    let src = "venti a = 0 - 9223372036854775807 - 1;\nventi x = a / (0 - 1);";
    match compile_source(src).unwrap_err() {
        VentiError::CodegenError(msg) => assert_eq!(msg, "Overflow in constant division"),
        other => panic!("expected a codegen error, got {:?}", other),
    }
}

#[test]
fn failed_statement_preserves_earlier_bindings() {
    // The second declaration fails, and the binding installed by the first
    // stays as it was: failure never removes or rewrites a binding.
    let stmts = vec![
        Statement::VariableDeclaration { identifier: "x".to_string(), value: Expr::Number(1) },
        Statement::VariableDeclaration {
            identifier: "y".to_string(),
            value: Expr::Identifier("missing".to_string()),
        },
    ];
    let mut cg = CodeGen::new();
    assert!(cg.compile(stmts).is_err());
    assert_eq!(cg.globals.len(), 1);
    assert_eq!(global_value(&cg, "x"), ConstValue::Int(1));
}

#[test]
fn array_initializer_is_not_constant_foldable() {
    match compile_source("venti x = [1, 2];").unwrap_err() {
        VentiError::CodegenError(msg) => assert!(msg.contains("constant-foldable")),
        other => panic!("expected a codegen error, got {:?}", other),
    }
}

#[test]
fn string_literals_are_interned_in_order() {
    let (cg, out) = compile_source("venti s = \"hi\";\nprintventi \"ho\";").unwrap();
    assert_eq!(cg.strings.len(), 2);
    assert_eq!(cg.strings[0], "hi");
    assert_eq!(cg.strings[1], "ho");
    assert_eq!(global_value(&cg, "s"), ConstValue::Str(0));
    assert_eq!(
        out,
        "module venti\ndeclare printf\nstr.0 = \"hi\"\nstr.1 = \"ho\"\n\
         global s = str.0\ndefine main {\n  call printf(str.1)\n}\n"
    );
}

#[test]
fn declared_function_may_call_itself() {
    let (_, out) = compile_source("async f { f() }").unwrap();
    assert_eq!(
        out,
        "module venti\ndeclare printf\ndefine f {\n  call f()\n  ret\n}\ndefine main {\n}\n"
    );
}

#[test]
fn lowering_twice_with_fresh_state_is_byte_identical() {
    // The same AST, lowered twice from fresh module state, serializes to
    // byte-identical output.
    fn ast() -> Vec<Statement> {
        vec![
            Statement::VariableDeclaration {
                identifier: "x".to_string(),
                value: Expr::BinaryOp(
                    Box::new(Expr::Number(2)),
                    BinOp::Multiply,
                    Box::new(Expr::Number(21)),
                ),
            },
            Statement::AsyncFunction {
                identifier: "announce".to_string(),
                body: vec![Statement::Print(Expr::Identifier("x".to_string()))],
            },
            Statement::FunctionCall { identifier: "announce".to_string(), args: vec![] },
            Statement::Print(Expr::String("done".to_string())),
        ]
    }
    let mut cg1 = CodeGen::new();
    let out1 = cg1.compile(ast()).unwrap();
    let mut cg2 = CodeGen::new();
    let out2 = cg2.compile(ast()).unwrap();
    assert_eq!(out1.as_bytes(), out2.as_bytes());
}

#[test]
fn calling_the_output_primitive_by_name_resolves() {
    let (_, out) = compile_source("printf(\"hi\", 1)").unwrap();
    assert_eq!(
        out,
        "module venti\ndeclare printf\nstr.0 = \"hi\"\ndefine main {\n  call printf(str.0, 1)\n}\n"
    );
}

#[test]
fn compile_source_runs_the_whole_pipeline() {
    let out = venti::compile_source("venti x = 1 + 2 * 3;\nprintventi x;").unwrap();
    assert_eq!(
        out,
        "module venti\ndeclare printf\nglobal x = 7\ndefine main {\n  call printf(@x)\n}\n"
    );
    assert!(matches!(
        venti::compile_source("venti x = ;"),
        Err(VentiError::SyntaxError(_))
    ));
    assert!(matches!(
        venti::compile_source("venti x = @;"),
        Err(VentiError::SyntaxError(_))
    ));
    assert!(matches!(
        venti::compile_source("printventi y;"),
        Err(VentiError::CodegenError(_))
    ));
}

#[test]
fn failed_lowering_keeps_error_and_produces_no_text() {
    let mut parser = Parser::new(lex("venti x = 1;\nprintventi y;").unwrap());
    let ast = parser.parse().unwrap();
    let mut cg = CodeGen::new();
    let res = cg.compile(ast);
    assert!(res.is_err());
}

#[test]
fn nested_async_function_bodies_keep_their_own_instructions() {
    let (_, out) =
        compile_source("async outer { async inner { printventi 1; } inner() }").unwrap();
    assert_eq!(
        out,
        "module venti\ndeclare printf\n\
         define outer {\n  call inner()\n  ret\n}\n\
         define inner {\n  call printf(1)\n  ret\n}\n\
         define main {\n}\n"
    );
}

#[test]
fn redeclaration_may_change_the_bound_kind() {
    let (cg, _) = compile_source("venti x = 1;\nventi x = \"s\";").unwrap();
    assert_eq!(cg.globals.len(), 1);
    assert_eq!(global_value(&cg, "x"), ConstValue::Str(0));
}
