//! What the network layer reports to a node, and the table of open connections to peers.
//! The socket reading and writing itself is asynchronous I/O and lives outside the library.
use crate::keyed::{entry_mut, keys_of};
use crate::message::MessageEnvelope;
use std::collections::HashMap;
use tokio::net::tcp::OwnedWriteHalf;
use vstd::prelude::*;

verus! {

#[verifier::external_type_specification]
#[verifier::external_body]
pub struct ExOwnedWriteHalf(OwnedWriteHalf);

/// An event of the network layer.
#[derive(Debug)]
pub enum NetworkEvent {
    PeerConnected { party_id: u32, addr: String },
    PeerDisconnected { party_id: u32 },
    MessageReceived { envelope: MessageEnvelope },
    Error { description: String },
}

/// The write half of the connection to each peer, keyed by party id.
pub struct PeerMap {
    peers: HashMap<u32, OwnedWriteHalf>,
}

impl View for PeerMap {
    type V = Map<u32, OwnedWriteHalf>;

    /// The open connection of each party.
    closed spec fn view(&self) -> Map<u32, OwnedWriteHalf> {
        self.peers@
    }
}

impl PeerMap {
    /// A table without connections.
    pub fn new() -> (r: PeerMap)
        ensures
            r@ == Map::<u32, OwnedWriteHalf>::empty(),
    {
        PeerMap { peers: HashMap::new() }
    }

    /// Records the connection to `party_id`, replacing an earlier one.
    pub fn add_peer(&mut self, party_id: u32, write_half: OwnedWriteHalf)
        ensures
            final(self)@ == old(self)@.insert(party_id, write_half),
    {
        self.peers.insert(party_id, write_half);
    }

    /// Forgets the connection to `party_id`.
    pub fn remove_peer(&mut self, party_id: u32)
        ensures
            final(self)@ == old(self)@.remove(party_id),
    {
        self.peers.remove(&party_id);
    }

    /// Whether a connection to `party_id` is open.
    pub fn is_connected(&self, party_id: u32) -> (r: bool)
        ensures
            r == self@.contains_key(party_id),
    {
        self.peers.contains_key(&party_id)
    }

    /// The number of open connections.
    pub fn peer_count(&self) -> (r: usize)
        ensures
            r == self@.len(),
    {
        self.peers.len()
    }

    /// The parties with an open connection, each once, in the table's order.
    pub fn peer_ids(&self) -> (r: Vec<u32>)
        ensures
            r@.no_duplicates(),
            r@.to_set() == self@.dom(),
    {
        keys_of(&self.peers)
    }

    /// The connection to `party_id`, if open, for writing.
    pub fn writer_mut(&mut self, party_id: u32) -> (r: Option<&mut OwnedWriteHalf>)
        ensures
            match r {
                Some(w) => {
                    &&& old(self)@.contains_key(party_id)
                    &&& *w == old(self)@[party_id]
                    &&& final(self)@ == old(self)@.insert(party_id, *final(w))
                },
                None => !old(self)@.contains_key(party_id) && final(self)@ == old(self)@,
            },
    {
        entry_mut(&mut self.peers, party_id)
    }
}

} // verus!
