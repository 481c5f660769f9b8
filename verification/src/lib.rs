//! A compiler front end for the Venti scripting language: a lexer that turns
//! source text into tokens, a recursive-descent parser that builds an abstract
//! syntax tree, and a lowering stage that emits a textual intermediate
//! representation for an external backend.
//!
//! Control flows strictly lexer → parser → lowering; `compile_source` runs the
//! three stages in that order over one source text.

pub mod ast;
pub mod codegen;
pub mod errors;
pub mod lexer;
pub mod parser;
pub mod token;

use vstd::prelude::*;

use crate::codegen::CodeGen;
use crate::codegen::spec_compile;
use crate::codegen::spec_empty_module;
use crate::codegen::spec_serialize_program;
use crate::errors::VentiError;
use crate::lexer::lex;
use crate::lexer::spec_lex;
use crate::parser::Parser;
use crate::parser::spec_parse_program;

verus! {

/// Runs the whole pipeline on one source text: tokenize, parse, lower and
/// serialize. The first failure of any stage aborts the compile with that
/// stage's error — a `SyntaxError` from the lexer or parser, a
/// `CodegenError` from the lowering stage — and on success the result is the
/// serialized module, exactly as the composed stage specifications define it.
pub fn compile_source(source: &str) -> (r: Result<String, VentiError>)
    ensures
        match r {
            Ok(out) => (match spec_lex(source@) {
                Some(toks) => (match spec_parse_program(toks) {
                    Some(program) => (match spec_compile(spec_empty_module(), program) {
                        Ok((m, main)) => out@ == spec_serialize_program(m, main),
                        Err(_) => false,
                    }),
                    None => false,
                }),
                None => false,
            }),
            Err(e) => (match spec_lex(source@) {
                None => e is SyntaxError,
                Some(toks) => (match spec_parse_program(toks) {
                    None => e is SyntaxError,
                    Some(program) => spec_compile(spec_empty_module(), program) is Err
                        && e is CodegenError && e.spec_message() == spec_compile(
                        spec_empty_module(),
                        program,
                    )->Err_0,
                }),
            }),
        },
{
    let tokens = lex(source)?;
    let mut parser = Parser::new(tokens);
    let program = parser.parse()?;
    let mut codegen = CodeGen::new();
    codegen.compile(program)
}

} // verus!
