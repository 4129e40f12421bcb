//! IPv4 and TCP header codecs.

pub mod datagram;
pub mod ip;
pub mod tcp;
pub mod wire;

pub use ip::Ipv4Header;
pub use tcp::{SackBlock, TcpFlags, TcpHeader, TcpOption};
