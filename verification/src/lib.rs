//! A single-pass compiler from the chasm language to WebAssembly.
//!
//! chasm is a small imperative language: `print`, variables, `while`
//! loops, `if`/`else`, and procedures with forward references.  The
//! compiler lexes, parses, type-checks and emits a complete
//! WebAssembly module in one pass, with no intermediate syntax tree.
//! Everything `compile` returns is proved equal to the functional
//! model in `model`, so compilation is a mathematical function of the
//! source text.

use vstd::prelude::*;

pub mod binary;
pub mod compiler;
pub mod emit;
pub mod error;
pub mod laws;
pub mod lexer;
pub mod model;
pub mod number;

use vstd::string::StringSliceAdditionalSpecFns;

use crate::error::Error;
use crate::model::{compile_spec, parse_spec};

verus! {

/// Compile chasm source code into a complete WebAssembly module.
///
/// The module imports the function `env.print`, which receives one
/// 32-bit numeric value and returns nothing, and a memory `env.memory`
/// of at least one page, and exports the entry point as `main`.  After
/// `main` runs, the rendered 100 by 100 output lies in the first
/// 10000 bytes of the memory.  The length bound on the source is a
/// machine limit.
pub fn compile(source: &str) -> (r: Result<Vec<u8>, Error>)
    requires
        source.spec_bytes().len() <= usize::MAX - 2,
    ensures
        match r {
            Ok(bytes) => {
                &&& compile_spec(source.spec_bytes()) is Ok
                &&& bytes@ == compile_spec(source.spec_bytes())->Ok_0
            },
            Err(e) => {
                &&& compile_spec(source.spec_bytes()) is Err
                &&& e@ == compile_spec(source.spec_bytes())->Err_0
                &&& e.source@ == source.spec_bytes()
            },
        },
{
    let src = source.as_bytes();
    match crate::compiler::Parser::parse_bytes(src) {
        Err(e) => Err(e),
        Ok(v) => {
            let out = crate::binary::assemble(&v, Ghost(parse_spec(src@)->Ok_0));
            Ok(out)
        },
    }
}

} // verus!
