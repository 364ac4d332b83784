//! The messages that nodes exchange, and the envelope that routes them.
use crate::clock::{millis_u64, since_unix_epoch, system_now};
use vstd::prelude::*;

verus! {

/// Every message of the protocol.
#[derive(Debug)]
pub enum Message {
    Hello { from_party: u32, party_count: u32, version: String },
    HelloAck { from_party: u32, accepted: bool },
    JobAnnounce { job_id: String, party_count: u32, operation: Operation },
    JobReady { job_id: String, from_party: u32 },
    ShareMsg {
        job_id: String,
        from_party: u32,
        to_party: u32,
        share_x: u64,
        share_y: u64,
        mac_tag: u64,
    },
    SharesReceived { job_id: String, from_party: u32 },
    TripleShare {
        job_id: String,
        to_party: u32,
        a_share: u64,
        b_share: u64,
        c_share: u64,
        a_mac: u64,
        b_mac: u64,
        c_mac: u64,
    },
    BroadcastValue { job_id: String, from_party: u32, label: String, value: u64 },
    OpenShare { job_id: String, from_party: u32, share_value: u64, mac_tag: u64 },
    Result { job_id: String, value: u64, success: bool },
    Abort { job_id: String, from_party: u32, reason: String },
    Ping { from_party: u32, timestamp: u64 },
    Pong { from_party: u32, timestamp: u64 },
}

/// The computation a job performs over the parties' inputs.
#[derive(Debug)]
pub enum Operation {
    Sum,
    Average,
    Product,
    Custom { description: String },
}

impl Clone for Operation {
    fn clone(&self) -> (r: Self)
        ensures
            r == *self,
    {
        match self {
            Operation::Sum => Operation::Sum,
            Operation::Average => Operation::Average,
            Operation::Product => Operation::Product,
            Operation::Custom { description } => Operation::Custom { description: description.clone() },
        }
    }
}

impl Clone for Message {
    fn clone(&self) -> (r: Self)
        ensures
            r == *self,
    {
        match self {
            Message::Hello { from_party, party_count, version } => Message::Hello {
                from_party: *from_party,
                party_count: *party_count,
                version: version.clone(),
            },
            Message::HelloAck { from_party, accepted } => Message::HelloAck {
                from_party: *from_party,
                accepted: *accepted,
            },
            Message::JobAnnounce { job_id, party_count, operation } => Message::JobAnnounce {
                job_id: job_id.clone(),
                party_count: *party_count,
                operation: operation.clone(),
            },
            Message::JobReady { job_id, from_party } => Message::JobReady {
                job_id: job_id.clone(),
                from_party: *from_party,
            },
            Message::ShareMsg { job_id, from_party, to_party, share_x, share_y, mac_tag } =>
                Message::ShareMsg {
                job_id: job_id.clone(),
                from_party: *from_party,
                to_party: *to_party,
                share_x: *share_x,
                share_y: *share_y,
                mac_tag: *mac_tag,
            },
            Message::SharesReceived { job_id, from_party } => Message::SharesReceived {
                job_id: job_id.clone(),
                from_party: *from_party,
            },
            Message::TripleShare {
                job_id,
                to_party,
                a_share,
                b_share,
                c_share,
                a_mac,
                b_mac,
                c_mac,
            } => Message::TripleShare {
                job_id: job_id.clone(),
                to_party: *to_party,
                a_share: *a_share,
                b_share: *b_share,
                c_share: *c_share,
                a_mac: *a_mac,
                b_mac: *b_mac,
                c_mac: *c_mac,
            },
            Message::BroadcastValue { job_id, from_party, label, value } =>
                Message::BroadcastValue {
                job_id: job_id.clone(),
                from_party: *from_party,
                label: label.clone(),
                value: *value,
            },
            Message::OpenShare { job_id, from_party, share_value, mac_tag } => Message::OpenShare {
                job_id: job_id.clone(),
                from_party: *from_party,
                share_value: *share_value,
                mac_tag: *mac_tag,
            },
            Message::Result { job_id, value, success } => Message::Result {
                job_id: job_id.clone(),
                value: *value,
                success: *success,
            },
            Message::Abort { job_id, from_party, reason } => Message::Abort {
                job_id: job_id.clone(),
                from_party: *from_party,
                reason: reason.clone(),
            },
            Message::Ping { from_party, timestamp } => Message::Ping {
                from_party: *from_party,
                timestamp: *timestamp,
            },
            Message::Pong { from_party, timestamp } => Message::Pong {
                from_party: *from_party,
                timestamp: *timestamp,
            },
        }
    }
}

/// The party id that addresses every party.
pub const BROADCAST: u32 = 255;

/// A message with its routing data: a unique id, sender, receiver and send time.
#[derive(Debug)]
pub struct MessageEnvelope {
    pub id: String,
    pub from: u32,
    pub to: u32,
    pub payload: Message,
    pub timestamp: u64,
}

impl Clone for MessageEnvelope {
    fn clone(&self) -> (r: Self)
        ensures
            r == *self,
    {
        MessageEnvelope {
            id: self.id.clone(),
            from: self.from,
            to: self.to,
            payload: self.payload.clone(),
            timestamp: self.timestamp,
        }
    }
}

/// Calls `uuid::Uuid::new_v4` and writes the id in its hyphenated form. The id is random;
/// the contract claims only the 36 characters of that form.
#[verifier::external_body]
fn fresh_message_id() -> (r: String)
    ensures
        r@.len() == 36,
{
    uuid::Uuid::new_v4().to_string()
}

impl MessageEnvelope {
    /// `payload` from `from` to `to`, with a fresh random id and the current Unix time in
    /// milliseconds.
    pub fn new(from: u32, to: u32, payload: Message) -> (r: MessageEnvelope)
        ensures
            r.from == from,
            r.to == to,
            r.payload == payload,
            r.id@.len() == 36,
    {
        let id = fresh_message_id();
        let timestamp = millis_u64(&since_unix_epoch(&system_now()));
        MessageEnvelope { id, from, to, payload, timestamp }
    }

    /// Whether the envelope addresses every party.
    pub fn is_broadcast(&self) -> (r: bool)
        ensures
            r == (self.to == BROADCAST),
    {
        self.to == BROADCAST
    }
}

} // verus!
