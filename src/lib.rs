//! Validation of a linear sequence of Bitcoin block headers.
//!
//! Each header is decoded, checked against its predecessor and against its own
//! proof-of-work target, and its timestamp is held to the previous one and to
//! the median of the recent ones. A successful run commits to the double
//! SHA-256 hash of the last header.

pub mod chain;
pub mod difficulty;
pub mod error;
pub mod hashing;
pub mod header;
pub mod magnitude;
pub mod time_window;

pub use chain::{validate_chain, ChainState, ChainValidator, RunPhase};
pub use difficulty::bits_to_target;
pub use error::ChainError;
pub use hashing::double_sha256;
pub use header::{header_from_hex, BlockHeader, HEADER_LEN};
pub use magnitude::{assert_eq_256, assert_eq_32, assert_le_256, assert_le_32};
pub use time_window::{median, TimeWindow, WINDOW_CAPACITY};
