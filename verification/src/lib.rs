use vstd::prelude::*;

pub mod model;
pub mod library;
pub mod dns;
pub mod simple_example_grammar;

verus! {
} // verus!
