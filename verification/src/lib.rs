//! A toolchain for a small first-order expression language over saturating
//! 64-bit integers: an abstract syntax tree, a shunting-yard expression
//! parser, a tree-walking interpreter whose functions see the function table
//! as it was when they were defined, and a code-generation driver that lowers
//! a program to operations of an abstract native backend.

pub mod arith;
pub mod ast;
pub mod bindings;
pub mod compiler;
pub mod interpreter;
pub mod parser;
pub mod printer;
pub mod semantics;
pub mod shunting_yard;

use vstd::prelude::*;

verus! {

/// Why a source text gave no result.
#[derive(Debug, PartialEq, Eq)]
pub enum Error {
    ParseError(parser::Error),
    InterpreterError(interpreter::Error),
    CompilerError(compiler::Error),
}

/// Parses a program and runs it on the given inputs.
pub fn interpret(s: &[u8], inputs: &Vec<i64>) -> (outputs: Result<Vec<i64>, Error>)
    ensures
        match parser::parsed(s@) {
            Err(e) => outputs matches Err(Error::ParseError(x)) && x@ == e,
            Ok(program) => match semantics::run_program(program, inputs@) {
                Err(e) => outputs matches Err(Error::InterpreterError(x)) && x@ == e,
                Ok(values) => outputs matches Ok(v) && v@ == values,
            },
        },
{
    let program = match parser::parse(s) {
        Ok(program) => program,
        Err(e) => {
            return Err(Error::ParseError(e));
        },
    };
    match interpreter::execute(&program, inputs) {
        Ok(values) => Ok(values),
        Err(e) => Err(Error::InterpreterError(e)),
    }
}

/// Parses a program and lowers it to a translation unit.
pub fn compile(s: &[u8]) -> (unit: Result<compiler::target::TranslationUnit, Error>)
    ensures
        match parser::parsed(s@) {
            Err(e) => unit matches Err(Error::ParseError(x)) && x@ == e,
            Ok(program) => match compiler::lower_program(program) {
                Err(e) => unit matches Err(Error::CompilerError(x)) && x@ == e,
                Ok(lowered) => unit matches Ok(u) && u@ == lowered,
            },
        },
{
    let program = match parser::parse(s) {
        Ok(program) => program,
        Err(e) => {
            return Err(Error::ParseError(e));
        },
    };
    match compiler::compile(&program) {
        Ok(unit) => Ok(unit),
        Err(e) => Err(Error::CompilerError(e)),
    }
}

} // verus!
