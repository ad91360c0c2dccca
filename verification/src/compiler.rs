//! The whole front half of the pipeline as one call: scan, parse, generate.
//! The result is the symbolic instruction text that the assembler consumes.

use crate::generator::{code_gen, code_gen_spec};
use crate::parser::{sp_program, StmtV, AST};
use crate::scanner::{tokenize_spec, TokenStream, TokenView};
use crate::CompileError;
use vstd::prelude::*;

verus! {

/// What compiling a source text yields: the scanned tokens parsed as a
/// program and lowered to the symbolic instruction text, or the first
/// stage's error.
pub open spec fn compile_spec(s: Seq<char>) -> Result<Seq<char>, CompileError> {
    match tokenize_spec(s) {
        Ok(ts) => match sp_program(ts) {
            Ok(ss) => code_gen_spec(ss),
            Err(e) => Err(e),
        },
        Err(e) => Err(e),
    }
}

/// Compiles a source text of the structured language to the symbolic
/// instruction text.
pub fn compile(program: &str) -> (r: Result<String, CompileError>)
    ensures
        r matches Ok(out) ==> compile_spec(program@) == Ok::<_, CompileError>(out@),
        r matches Err(e) ==> compile_spec(program@) == Err::<Seq<char>, _>(e),
{
    let tokens = match TokenStream::tokenize(program) {
        Ok(t) => t,
        Err(e) => {
            return Err(e);
        },
    };
    let toks = tokens.into_tokens();
    let tree = match AST::parse(&toks) {
        Ok(t) => t,
        Err(e) => {
            return Err(e);
        },
    };
    code_gen(&tree)
}

} // verus!
