use vstd::prelude::*;

pub mod ast;
pub mod grammar;
pub mod interpreter;
pub mod laws;
pub mod parser;
pub mod text;

verus! {

} // verus!
