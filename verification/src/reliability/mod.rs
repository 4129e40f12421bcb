//! Reliability: retransmission and reassembly.

pub mod reorder;
pub mod retransmit;

pub use reorder::ReorderBuffer;
pub use retransmit::{PendingSegment, RetransmissionManager};
