//! TCP connection states.

use vstd::prelude::*;

verus! {

/// The states of a TCP connection.
#[derive(Debug, Clone, Copy, PartialEq, Eq, Structural)]
pub enum TcpState {
    Closed,
    Listen,
    SynSent,
    SynReceived,
    Established,
    FinWait1,
    FinWait2,
    CloseWait,
    Closing,
    LastAck,
    TimeWait,
}

impl Default for TcpState {
    fn default() -> (result: Self)
        ensures
            result == TcpState::Closed,
    {
        TcpState::Closed
    }
}

impl TcpState {
    /// Whether the connection no longer carries data: closed, or waiting
    /// out the last duplicates.
    pub fn is_closed(&self) -> (result: bool)
        ensures
            result == (*self == TcpState::Closed || *self == TcpState::TimeWait),
    {
        matches!(self, Self::Closed | Self::TimeWait)
    }

    pub fn is_established(&self) -> (result: bool)
        ensures
            result == (*self == TcpState::Established),
    {
        matches!(self, Self::Established)
    }

    pub fn is_syn_sent(&self) -> (result: bool)
        ensures
            result == (*self == TcpState::SynSent),
    {
        matches!(self, Self::SynSent)
    }

    /// Whether data from the peer is still taken in: the peer has not
    /// closed its side.
    pub open spec fn takes_data(self) -> bool {
        self == TcpState::Established || self == TcpState::FinWait1 || self == TcpState::FinWait2
    }
}

} // verus!
