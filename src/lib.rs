use vstd::prelude::*;

pub mod age;
pub mod filter;
pub mod listing;
pub mod naming;
pub mod outcome;
pub mod plan;
pub mod render;
pub mod report;
pub mod text;

verus! {

} // verus!
