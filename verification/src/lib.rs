//! The verified core of `mcpg-plugin`: argument parsing, signing and
//! verification decisions, package and registry naming, cache retention,
//! the mock-gateway harness's inputs and the plugin scaffolds.
use vstd::prelude::*;

pub mod cli;
pub mod cache;
pub mod crypto;
pub mod gc;
pub mod harness;
pub mod inspect;
pub mod num;
pub mod pack;
pub mod path;
pub mod registry;
pub mod scaffold;
pub mod sign;
pub mod text;

verus! {

} // verus!
