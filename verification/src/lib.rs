//! A userspace TCP protocol engine over raw IPv4 datagrams.
//!
//! The crate holds the protocol logic only: sequence arithmetic, checksums,
//! the IPv4 and TCP header codecs, the sliding window, the reorder buffer,
//! the retransmission table, NewReno congestion control, the connection
//! state machine and the demultiplexer. Every function is verified against
//! the contract written on it.

pub mod congestion;
pub mod connection;
pub mod demux;
pub mod flow_control;
pub mod packet;
pub mod reliability;
pub mod utils;
