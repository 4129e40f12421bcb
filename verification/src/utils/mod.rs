//! Sequence arithmetic and checksums.

pub mod checksum;
pub mod seq;

pub use checksum::{calculate_checksum, calculate_pseudo_header_checksum, CalculateChecksum};
pub use seq::SeqNumber;
