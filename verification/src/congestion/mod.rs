//! Congestion control.

pub mod newreno;

pub use newreno::{CongestionState, NewReno};
