//! Script tooling for generating directory trees from WEM scripts.
use vstd::prelude::*;

pub mod arg;
pub mod cards;
pub mod defs;
pub mod error;
pub mod general_func;
pub mod headers;
pub mod laws;
pub mod lexer;
pub mod make;
pub mod paths;
pub mod reread;
pub mod search_org;
pub mod str_map;
pub mod structure;
pub mod text;
pub mod tree;
pub mod wem_structure;
pub mod writer;

verus! {
}
