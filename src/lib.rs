//! Aggregation of a chunk of weighted vote records: every balance is checked
//! against the decimal floating-point literal grammar, records are routed to
//! the approval or rejection bucket, and voter identifiers are deduplicated.

pub mod chunk;
pub mod literal;
pub mod voters;

pub use chunk::{BalanceParseError, ChunkBuckets, VoteData, WasmVoteProcessor};
pub use literal::is_float_literal;
