//! The process's networking mode and the derived role states.
//!
//! A process is disconnected, hosting (embedded server plus local client),
//! a dedicated server, or a client connected by address or through a
//! friend's session. The two role states below are computed from the mode:
//! a host is both a client and a server.

use vstd::prelude::*;

verus! {

/// A socket address as plain values: an IPv4 address and a port.
#[derive(Clone, Copy, Debug, PartialEq, Eq, Structural)]
pub struct NetAddr {
    pub ip: u32,
    pub port: u16,
}

/// The networking mode a process runs in.
#[derive(Clone, Copy, Debug, PartialEq, Eq, Structural)]
pub enum NetworkState {
    Disconnected,
    /// Embedded server with a local client.
    Host(NetAddr),
    /// Dedicated server.
    Server(NetAddr),
    /// Client connected to a server by address.
    Client { server_addr: NetAddr, client_id: u64 },
    /// Client joining a friend's session.
    ClientSteam { server_addr: NetAddr },
}

/// Present exactly while the process runs a client.
#[derive(Clone, Copy, Debug, PartialEq, Eq, Hash, Structural)]
pub struct IsClient;

impl IsClient {
    /// A host, an address client and a friend-session client all run a
    /// client; a dedicated server and a disconnected process do not.
    pub fn compute(network_state: NetworkState) -> (r: Option<IsClient>)
        ensures
            r == (match network_state {
                NetworkState::Host(..) | NetworkState::Client { .. }
                    | NetworkState::ClientSteam { .. } => Some(IsClient),
                _ => None::<IsClient>,
            }),
    {
        match network_state {
            NetworkState::Host(..) | NetworkState::Client { .. }
                | NetworkState::ClientSteam { .. } => Some(IsClient),
            _ => None,
        }
    }
}

/// Present exactly while the process runs the authoritative server.
#[derive(Clone, Copy, Debug, PartialEq, Eq, Hash, Structural)]
pub struct IsServer;

impl IsServer {
    /// A host and a dedicated server run the server; every kind of pure
    /// client and a disconnected process do not.
    pub fn compute(network_state: NetworkState) -> (r: Option<IsServer>)
        ensures
            r == (match network_state {
                NetworkState::Host(..) | NetworkState::Server(..) => Some(IsServer),
                _ => None::<IsServer>,
            }),
    {
        match network_state {
            NetworkState::Host(..) | NetworkState::Server(..) => Some(IsServer),
            _ => None,
        }
    }
}

} // verus!
