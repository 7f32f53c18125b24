//! Recognizer for the scalar tokens of JSON: `true`, `false`, `null` and
//! numbers, over a complete buffer or over one that may still grow.
//!
//! Every production is stated as a function on the input's characters
//! (`number_spec`, `keyword_spec`, `scalar_spec`) and each matcher is proved
//! to return exactly what its function gives.
use vstd::prelude::*;

pub mod digits;
pub mod laws;
pub mod literal;
pub mod number;
pub mod outcome;
pub mod scalar;

pub use literal::{boolean, keyword, null, Keyword};
pub use number::{integer, number, real_number};
pub use outcome::{Cursor, Expected, MatchOutcome, Node, Rejection};
pub use scalar::{json, scalar, whitespace0};

verus! {

} // verus!
