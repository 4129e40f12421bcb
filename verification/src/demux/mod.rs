//! Packet demultiplexing: from the four-tuple of an inbound segment to
//! the connection that owns it.

use crate::packet::{Ipv4Header, TcpHeader};
use std::collections::HashMap;
use vstd::prelude::*;

verus! {

/// One end of a connection: an IPv4 address, read big-endian as a 32-bit
/// value, and a port.
#[derive(Debug, Clone, Copy, PartialEq, Eq, Hash, Structural)]
pub struct Endpoint {
    pub addr: u32,
    pub port: u16,
}

/// The four-tuple that names a connection.
#[derive(Debug, Clone, Copy, PartialEq, Eq, Hash, Structural)]
pub struct ConnectionKey {
    pub local: Endpoint,
    pub remote: Endpoint,
}

/// The 96 bits of a key as one number: local address, local port, remote
/// address, remote port, most significant first.
pub open spec fn packed(key: ConnectionKey) -> u128 {
    (key.local.addr as int * 0x1_0000_0000_0000_0000 + key.local.port as int * 0x1_0000_0000_0000
        + key.remote.addr as int * 0x1_0000 + key.remote.port as int) as u128
}

/// Two keys that pack to the same number are the same key.
pub proof fn lemma_packed_injective(a: ConnectionKey, b: ConnectionKey)
    requires
        packed(a) == packed(b),
    ensures
        a == b,
{
}

impl ConnectionKey {
    pub fn new(local: Endpoint, remote: Endpoint) -> (result: Self)
        ensures
            result == (ConnectionKey { local, remote }),
    {
        Self { local, remote }
    }

    /// The key of the connection that an inbound segment belongs to: the
    /// local end is the destination of the segment, the remote end its
    /// source.
    pub fn from_headers(ip: &Ipv4Header, tcp: &TcpHeader) -> (result: Option<Self>)
        ensures
            result == Some(
                ConnectionKey {
                    local: Endpoint { addr: ip.dst_addr, port: tcp.dst_port },
                    remote: Endpoint { addr: ip.src_addr, port: tcp.src_port },
                },
            ),
    {
        Some(
            Self {
                local: Endpoint { addr: ip.dst_addr, port: tcp.dst_port },
                remote: Endpoint { addr: ip.src_addr, port: tcp.src_port },
            },
        )
    }

    /// The key as one number.
    fn pack(&self) -> (result: u128)
        ensures
            result == packed(*self),
    {
        (self.local.addr as u128) * 0x1_0000_0000_0000_0000 + (self.local.port as u128)
            * 0x1_0000_0000_0000 + (self.remote.addr as u128) * 0x1_0000 + (self.remote.port as u128)
    }
}

/// Demultiplexer for routing packets to connections.
pub struct Demultiplexer {
    connections: HashMap<u128, u64>,
}

impl View for Demultiplexer {
    type V = Map<ConnectionKey, u64>;

    closed spec fn view(&self) -> Map<ConnectionKey, u64> {
        Map::new(
            |key: ConnectionKey| self.connections@.contains_key(packed(key)),
            |key: ConnectionKey| self.connections@[packed(key)],
        )
    }
}

impl Demultiplexer {
    /// A demultiplexer that knows no connection.
    pub fn new() -> (result: Self)
        ensures
            result@ == Map::<ConnectionKey, u64>::empty(),
    {
        let result = Self { connections: HashMap::new() };
        assert(result@ =~= Map::<ConnectionKey, u64>::empty());
        result
    }

    /// Routes `key` to connection `id`, in place of any earlier route.
    pub fn register(&mut self, key: ConnectionKey, id: u64)
        ensures
            final(self)@ == old(self)@.insert(key, id),
    {
        self.connections.insert(key.pack(), id);
        proof {
            assert forall|other: ConnectionKey| other != key implies packed(other) != packed(
                key,
            ) by {
                if packed(other) == packed(key) {
                    lemma_packed_injective(other, key);
                }
            }
            assert(self@ =~= old(self)@.insert(key, id));
        }
    }

    /// Forgets the route of `key`, if there is one.
    pub fn unregister(&mut self, key: &ConnectionKey)
        ensures
            final(self)@ == old(self)@.remove(*key),
    {
        let packed_key: u128 = key.pack();
        self.connections.remove(&packed_key);
        proof {
            assert forall|other: ConnectionKey| other != *key implies packed(other) != packed(
                *key,
            ) by {
                if packed(other) == packed(*key) {
                    lemma_packed_injective(other, *key);
                }
            }
            assert(self@ =~= old(self)@.remove(*key));
        }
    }

    /// The connection that `key` is routed to.
    pub fn find(&self, key: &ConnectionKey) -> (result: Option<&u64>)
        ensures
            result is Some <==> self@.contains_key(*key),
            result matches Some(id) ==> *id == self@[*key],
    {
        let packed_key: u128 = key.pack();
        self.connections.get(&packed_key)
    }
}

impl Default for Demultiplexer {
    fn default() -> (result: Self)
        ensures
            result@ == Map::<ConnectionKey, u64>::empty(),
    {
        Self::new()
    }
}

} // verus!
