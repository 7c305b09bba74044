use vstd::prelude::*;

pub mod ast;
pub mod circuit;
pub mod builder;
pub mod interpreter;
pub mod correctness;

verus! {

} // verus!
