use vstd::prelude::*;

pub mod text;
pub mod lexer;
pub mod ast;
pub mod parser;
pub mod quantum;
pub mod gui;
pub mod ir;
pub mod eval;
pub mod jit;
pub mod engine;

verus! {

/// Returns the version string of the library.
pub fn version() -> (v: &'static str)
    ensures
        v@ == "0.1.0"@,
{
    "0.1.0"
}

} // verus!
