pub mod encoding;
pub mod laws;
pub mod models;
pub mod state;
pub mod stream;

use vstd::prelude::*;

verus! {

/// Longest line, in bytes, that a parser made with `StreamParser::new` accepts.
pub const MAX_LINE_LENGTH: usize = 16384;

} // verus!
