//! A safe handle layer for a mesh-network node driven through a descriptor-based
//! native surface.
//!
//! The native engine (session creation, bring-up, dial, listen, accept, address
//! queries, teardown) is consumed through small integer descriptors and raw text
//! buffers. This crate holds the bridging logic itself: configuration planning,
//! outcome classification for every native call, parsing of the native text
//! buffers (error messages, assigned addresses, remote addresses), and the
//! descriptor-lifecycle rules that guarantee exactly-once close even under
//! concurrent reads and writes. An embedding runtime performs the native calls
//! and hands their raw results to the functions here.

pub mod bridge;
pub mod config;
pub mod conn;
pub mod errors;
pub mod gate;
pub mod ip;
pub mod session;
pub mod text;

use vstd::prelude::*;

verus! {

/// Network protocol type for connections over the mesh network.
#[derive(Clone, Copy, PartialEq, Eq, Structural, Debug)]
pub enum NetworkType {
    /// TCP protocol
    Tcp,
    /// UDP protocol
    Udp,
}

/// The text form of a network type as it crosses the native boundary.
pub open spec fn network_text(n: NetworkType) -> Seq<char> {
    match n {
        NetworkType::Tcp => "tcp"@,
        NetworkType::Udp => "udp"@,
    }
}

/// The text of a network type as bytes, as it stands in failure context.
pub open spec fn network_bytes(n: NetworkType) -> Seq<u8> {
    match n {
        NetworkType::Tcp => seq![0x74u8, 0x63u8, 0x70u8],
        NetworkType::Udp => seq![0x75u8, 0x64u8, 0x70u8],
    }
}

impl NetworkType {
    /// Returns the string representation of the network type.
    pub fn as_str(&self) -> (r: &'static str)
        ensures
            r@ == network_text(*self),
    {
        match self {
            NetworkType::Tcp => "tcp",
            NetworkType::Udp => "udp",
        }
    }

    /// The network type's text as bytes.
    pub fn to_bytes(&self) -> (v: Vec<u8>)
        ensures
            v@ == network_bytes(*self),
    {
        let mut v: Vec<u8> = Vec::new();
        match self {
            NetworkType::Tcp => {
                v.push(0x74u8);
                v.push(0x63u8);
                v.push(0x70u8);
            },
            NetworkType::Udp => {
                v.push(0x75u8);
                v.push(0x64u8);
                v.push(0x70u8);
            },
        }
        proof {
            assert(v@ =~= network_bytes(*self));
        }
        v
    }
}

} // verus!
