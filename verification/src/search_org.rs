//! Character membership, as the search helpers use it.
pub use crate::general_func::does_contain_vec;
