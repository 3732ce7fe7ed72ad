//! Customer feedback analysis by retrieval-augmented prompting.
//!
//! Records are rendered as profile texts (`record`), embedded in paced batches whose
//! failures are isolated (`batching`), stored in a vector index ranked by similarity
//! (`index`), and merged with each query into a prompt for a language model (`prompt`).
//! Decimal rendering of fixed-point values lives in `text`.
use vstd::prelude::*;

pub mod batching;
pub mod index;
pub mod prompt;
pub mod record;
pub mod text;

verus! {

/// Records per embedding call.
pub const DEFAULT_BATCH_SIZE: usize = 1000;

/// Pause after each embedding call, in milliseconds.
pub const DEFAULT_BATCH_DELAY_MS: u64 = 200;

/// Profiles retrieved per query.
pub const DEFAULT_TOP_K: usize = 5;

/// Pause between two queries of a query run, in milliseconds.
pub const DEFAULT_QUERY_DELAY_MS: u64 = 2000;

/// Similarities are fixed-point integers with this many units per 1.0.
pub const SCORE_SCALE: i64 = 1000000;

} // verus!
