//! Transport-facing types: the request-response protocol's messages, the
//! events the transport reports to the engine, and discovery settings.

use vstd::prelude::*;
use crate::engine::{action_views, connected_effect, is_online, received_effect, Action, Engine};
use crate::types::NodeId;

verus! {

/// Protocol name for Whisper messages.
pub const WHISPER_PROTOCOL: &'static str = "/whisper/1.0.0";

/// Relay connection timeout in seconds.
pub const RELAY_CONNECT_TIMEOUT_SECS: u64 = 30;

/// mDNS query interval in seconds.
pub const MDNS_QUERY_INTERVAL_SECS: u64 = 5;

/// mDNS record lifetime in seconds.
pub const MDNS_TTL_SECS: u64 = 360;

/// Kademlia replication factor.
pub const KAD_REPLICATION_FACTOR: usize = 20;

/// Kademlia query timeout in seconds.
pub const KAD_QUERY_TIMEOUT_SECS: u64 = 60;

/// The request-response codec of the protocol: a request is the payload
/// bytes to its end, a response is one byte.
#[derive(Clone, Copy, Debug, Default)]
pub struct MessageCodec;

/// Request: encrypted message bytes.
#[derive(Clone, Debug)]
pub struct MessageRequest(pub Vec<u8>);

/// Response: whether the peer accepted the message.
#[derive(Clone, Copy, Debug, PartialEq, Eq, Structural)]
pub struct MessageResponse(pub bool);

impl MessageCodec {
    /// The byte a response is written as: 1 for accepted, 0 otherwise.
    pub fn encode_response(&self, res: MessageResponse) -> (r: u8)
        ensures
            r == (if res.0 { 1u8 } else { 0u8 }),
    {
        if res.0 {
            1
        } else {
            0
        }
    }

    /// The response a byte stands for: accepted exactly when it is 1.
    pub fn decode_response(&self, b: u8) -> (r: MessageResponse)
        ensures
            r.0 == (b == 1),
    {
        MessageResponse(b == 1)
    }
}

/// Events the transport reports.
#[derive(Debug)]
pub enum NodeEvent {
    /// A peer connected.
    PeerConnected(NodeId),
    /// A peer disconnected.
    PeerDisconnected(NodeId),
    /// Bytes arrived from a peer.
    MessageReceived { from: NodeId, data: Vec<u8> },
    /// A peer answered a request.
    MessageSent { to: NodeId },
    /// The transport listens on this address.
    Listening(String),
}

impl Engine {
    /// Dispatches a transport event at time `now` to the engine and returns
    /// the actions it decides.
    pub fn handle_event(&mut self, event: NodeEvent, now: i64) -> (r: Vec<Action>)
        requires
            old(self).wf(),
        ensures
            final(self).wf(),
            match event {
                NodeEvent::PeerConnected(peer) => connected_effect(old(self)@, final(self)@, peer@, now, r@.map_values(|a: Action| a@)),
                NodeEvent::PeerDisconnected(peer) => {
                    &&& final(self)@.store == old(self)@.store
                    &&& !is_online(final(self)@.online, peer@)
                    &&& forall|q: Seq<u8>| q != peer@ ==> (is_online(final(self)@.online, q) == is_online(old(self)@.online, q))
                    &&& r@.len() == 0
                },
                NodeEvent::MessageReceived { from, data } => exists|local: Seq<u8>, rid: Seq<u8>|
                    #[trigger] received_effect(old(self)@, final(self)@, from@, data@, now, local, rid, action_views(r@)),
                _ => final(self)@ == old(self)@ && r@.len() == 0,
            },
    {
        match event {
            NodeEvent::PeerConnected(peer) => self.on_connected(&peer, now),
            NodeEvent::PeerDisconnected(peer) => {
                self.on_disconnected(&peer);
                Vec::new()
            },
            NodeEvent::MessageReceived { from, data } => self.on_received(&from, data.as_slice(), now),
            NodeEvent::MessageSent { .. } => Vec::new(),
            NodeEvent::Listening(_) => Vec::new(),
        }
    }
}

/// Whether an IPv4 address is private (10/8, 172.16/12, 192.168/16),
/// loopback (127/8) or link-local (169.254/16).
pub open spec fn is_local_ipv4(ip: [u8; 4]) -> bool {
    ip[0] == 10 || (ip[0] == 172 && 16 <= ip[1] <= 31) || (ip[0] == 192 && ip[1] == 168) || ip[0]
        == 127 || (ip[0] == 169 && ip[1] == 254)
}

/// Whether an IPv4 address is private, loopback or link-local.
pub fn is_local_ip(ip: [u8; 4]) -> (r: bool)
    ensures
        r == is_local_ipv4(ip),
{
    ip[0] == 10 || (ip[0] == 172 && 16 <= ip[1] && ip[1] <= 31) || (ip[0] == 192 && ip[1] == 168)
        || ip[0] == 127 || (ip[0] == 169 && ip[1] == 254)
}

/// Whether the node is likely behind NAT, given the local address its
/// outbound route uses: when that address is private, loopback or
/// link-local, or when there is none.
pub fn is_behind_nat(local_ip: Option<[u8; 4]>) -> (r: bool)
    ensures
        r == match local_ip {
            Some(ip) => is_local_ipv4(ip),
            None => true,
        },
{
    match local_ip {
        Some(ip) => is_local_ip(ip),
        None => true,
    }
}

} // verus!
