//! One participant of the network: its configuration, its current job, and how it answers
//! each incoming message.
use crate::mac::MacKey;
use crate::message::{Message, MessageEnvelope, Operation, BROADCAST};
use std::collections::HashMap;
use vstd::prelude::*;

verus! {

/// Where a node listens and whom it talks to.
#[derive(Debug, Clone)]
pub struct NodeConfig {
    pub party_id: u32,
    pub party_count: u32,
    pub listen_addr: String,
    pub peer_addrs: Vec<String>,
}

impl NodeConfig {
    pub fn new(party_id: u32, party_count: u32, listen_addr: &str, peer_addrs: Vec<String>) -> (r:
        NodeConfig)
        ensures
            r.party_id == party_id,
            r.party_count == party_count,
            r.listen_addr@ == listen_addr@,
            r.peer_addrs == peer_addrs,
    {
        NodeConfig { party_id, party_count, listen_addr: String::from_str(listen_addr), peer_addrs }
    }
}

/// The progress of a job.
#[derive(Debug)]
pub enum JobState {
    Idle,
    WaitingForPeers,
    CollectingShares,
    Computing,
    WaitingForResults,
    Complete(u64),
    Failed(String),
}

impl Clone for JobState {
    fn clone(&self) -> (r: Self)
        ensures
            r == *self,
    {
        match self {
            JobState::Idle => JobState::Idle,
            JobState::WaitingForPeers => JobState::WaitingForPeers,
            JobState::CollectingShares => JobState::CollectingShares,
            JobState::Computing => JobState::Computing,
            JobState::WaitingForResults => JobState::WaitingForResults,
            JobState::Complete(v) => JobState::Complete(*v),
            JobState::Failed(reason) => JobState::Failed(reason.clone()),
        }
    }
}

impl PartialEq for JobState {
    fn eq(&self, other: &Self) -> (r: bool) {
        match (self, other) {
            (JobState::Idle, JobState::Idle) => true,
            (JobState::WaitingForPeers, JobState::WaitingForPeers) => true,
            (JobState::CollectingShares, JobState::CollectingShares) => true,
            (JobState::Computing, JobState::Computing) => true,
            (JobState::WaitingForResults, JobState::WaitingForResults) => true,
            (JobState::Complete(a), JobState::Complete(b)) => *a == *b,
            (JobState::Failed(a), JobState::Failed(b)) => *a == *b,
            _ => false,
        }
    }
}

impl vstd::std_specs::cmp::PartialEqSpecImpl for JobState {
    open spec fn obeys_eq_spec() -> bool {
        true
    }

    open spec fn eq_spec(&self, other: &Self) -> bool {
        match (self, other) {
            (JobState::Idle, JobState::Idle) => true,
            (JobState::WaitingForPeers, JobState::WaitingForPeers) => true,
            (JobState::CollectingShares, JobState::CollectingShares) => true,
            (JobState::Computing, JobState::Computing) => true,
            (JobState::WaitingForResults, JobState::WaitingForResults) => true,
            (JobState::Complete(a), JobState::Complete(b)) => a == b,
            (JobState::Failed(a), JobState::Failed(b)) => a@ == b@,
            _ => false,
        }
    }
}

/// One computation job as a node tracks it.
#[derive(Debug, Clone)]
pub struct Job {
    pub job_id: String,
    pub operation: Operation,
    pub my_input: u64,
    pub state: JobState,
    pub received_shares: HashMap<u32, (u64, u64, u64)>,
    pub ready_parties: Vec<u32>,
    pub open_shares: HashMap<u32, (u64, u64)>,
}

impl Job {
    /// `self` is a job just started: waiting for peers, nothing received.
    pub open spec fn is_new(self, job_id: Seq<char>, operation: Operation, my_input: u64) -> bool {
        &&& self.job_id@ == job_id
        &&& self.operation == operation
        &&& self.my_input == my_input
        &&& self.state == JobState::WaitingForPeers
        &&& self.received_shares@ == Map::<u32, (u64, u64, u64)>::empty()
        &&& self.ready_parties@ == Seq::<u32>::empty()
        &&& self.open_shares@ == Map::<u32, (u64, u64)>::empty()
    }

    pub fn new(job_id: String, operation: Operation, my_input: u64) -> (r: Job)
        ensures
            r.is_new(job_id@, operation, my_input),
            r.job_id == job_id,
    {
        Job {
            job_id,
            operation,
            my_input,
            state: JobState::WaitingForPeers,
            received_shares: HashMap::new(),
            ready_parties: Vec::new(),
            open_shares: HashMap::new(),
        }
    }

    /// Whether at least `party_count` parties are ready.
    pub fn all_parties_ready(&self, party_count: u32) -> (r: bool)
        ensures
            r == (self.ready_parties@.len() >= party_count),
    {
        self.ready_parties.len() >= party_count as usize
    }

    /// Whether shares from at least `party_count` parties arrived.
    pub fn all_shares_received(&self, party_count: u32) -> (r: bool)
        ensures
            r == (self.received_shares@.len() >= party_count),
    {
        self.received_shares.len() >= party_count as usize
    }

    /// Whether opened shares from at least `party_count` parties arrived.
    pub fn all_open_shares_received(&self, party_count: u32) -> (r: bool)
        ensures
            r == (self.open_shares@.len() >= party_count),
    {
        self.open_shares.len() >= party_count as usize
    }
}

/// A participant of the network.
pub struct MpcNode {
    pub config: NodeConfig,
    pub mac_key: MacKey,
    pub current_job: Option<Job>,
    pub message_log: Vec<MessageEnvelope>,
}

/// Whether `v` holds `x`.
pub(crate) fn contains_party(v: &Vec<u32>, x: u32) -> (r: bool)
    ensures
        r == v@.contains(x),
{
    let mut i: usize = 0;
    while i < v.len()
        invariant
            i <= v@.len(),
            forall|j: int| 0 <= j < i ==> v@[j] != x,
        decreases v@.len() - i,
    {
        if v[i] == x {
            return true;
        }
        i = i + 1;
    }
    false
}

/// The reply, if any, of party `me` to `msg` with job `job`: receiver and payload.
pub open spec fn node_reply(me: u32, job: Option<Job>, msg: Message) -> Option<(u32, Message)> {
    match msg {
        Message::Hello { from_party, .. } => Some(
            (from_party, Message::HelloAck { from_party: me, accepted: true }),
        ),
        Message::JobAnnounce { job_id, .. } => Some(
            (BROADCAST, Message::JobReady { job_id, from_party: me }),
        ),
        Message::ShareMsg { from_party, .. } => match job {
            Some(j) => Some(
                (from_party, Message::SharesReceived { job_id: j.job_id, from_party: me }),
            ),
            None => None,
        },
        Message::Ping { from_party, timestamp } => Some(
            (from_party, Message::Pong { from_party: me, timestamp }),
        ),
        _ => None,
    }
}

/// How the job `j1` changes into `j2` on `msg` (a node without a job keeps none, except
/// that a job announcement starts one).
pub open spec fn job_step(j1: Option<Job>, msg: Message, j2: Option<Job>) -> bool {
    match msg {
        Message::JobAnnounce { job_id, operation, .. } => match j1 {
            Some(j) => j2 == Some(j),
            None => j2 is Some && j2->Some_0.is_new(job_id@, operation, 0),
        },
        Message::JobReady { from_party, .. } => match j1 {
            Some(j) => j2 is Some && {
                let k = j2->Some_0;
                &&& k == (Job { ready_parties: k.ready_parties, ..j })
                &&& k.ready_parties@ == if j.ready_parties@.contains(from_party) {
                    j.ready_parties@
                } else {
                    j.ready_parties@.push(from_party)
                }
            },
            None => j2 is None,
        },
        Message::ShareMsg { from_party, share_x, share_y, mac_tag, .. } => match j1 {
            Some(j) => j2 is Some && {
                let k = j2->Some_0;
                &&& k == (Job { received_shares: k.received_shares, ..j })
                &&& k.received_shares@ == j.received_shares@.insert(
                    from_party,
                    (share_x, share_y, mac_tag),
                )
            },
            None => j2 is None,
        },
        Message::OpenShare { from_party, share_value, mac_tag, .. } => match j1 {
            Some(j) => j2 is Some && {
                let k = j2->Some_0;
                &&& k == (Job { open_shares: k.open_shares, ..j })
                &&& k.open_shares@ == j.open_shares@.insert(from_party, (share_value, mac_tag))
            },
            None => j2 is None,
        },
        Message::Abort { reason, .. } => match j1 {
            Some(j) => j2 == Some(Job { state: JobState::Failed(reason), ..j }),
            None => j2 is None,
        },
        _ => j2 == j1,
    }
}

impl MpcNode {
    /// A node with a fresh random MAC key, no job and an empty log.
    pub fn new(config: NodeConfig) -> (r: MpcNode)
        ensures
            r.config == config,
            r.current_job is None,
            r.message_log@.len() == 0,
    {
        MpcNode { config, mac_key: MacKey::generate(), current_job: None, message_log: Vec::new() }
    }

    pub fn party_id(&self) -> (r: u32)
        ensures
            r == self.config.party_id,
    {
        self.config.party_id
    }

    pub fn party_count(&self) -> (r: u32)
        ensures
            r == self.config.party_count,
    {
        self.config.party_count
    }

    /// Whether a job is running.
    pub fn is_busy(&self) -> (r: bool)
        ensures
            r == self.current_job is Some,
    {
        self.current_job.is_some()
    }

    /// Starts a job with this party's input; refused while another job runs.
    pub fn start_job(&mut self, job_id: String, operation: Operation, my_input: u64) -> (r: Result<
        (),
        String,
    >)
        ensures
            old(self).current_job is Some ==> r is Err && r->Err_0@ == "Node is already running a job"@
                && *final(self) == *old(self),
            old(self).current_job is None ==> r is Ok && final(self).current_job is Some
                && final(self).current_job->Some_0.is_new(job_id@, operation, my_input) && *final(self)
                == (MpcNode { current_job: final(self).current_job, ..*old(self) }),
    {
        if self.is_busy() {
            return Err(String::from_str("Node is already running a job"));
        }
        self.current_job = Some(Job::new(job_id, operation, my_input));
        Ok(())
    }

    /// Logs the message, updates the job, and returns the reply, if any: `HelloAck` to a
    /// `Hello`, `JobReady` to all on a job announcement (starting the job when idle),
    /// `SharesReceived` to a share's sender while a job runs, `Pong` to a `Ping`.
    pub fn handle_message(&mut self, envelope: MessageEnvelope) -> (r: Vec<MessageEnvelope>)
        ensures
            final(self).message_log@ == old(self).message_log@.push(envelope),
            final(self).config == old(self).config,
            final(self).mac_key == old(self).mac_key,
            job_step(old(self).current_job, envelope.payload, final(self).current_job),
            match node_reply(old(self).config.party_id, old(self).current_job, envelope.payload) {
                Some((to, payload)) => r@.len() == 1 && r@[0].from == old(self).config.party_id
                    && r@[0].to == to && r@[0].payload == payload,
                None => r@.len() == 0,
            },
            envelope.payload matches Message::Hello { from_party, .. } ==> {
                &&& r@.len() == 1
                &&& r@[0].from == old(self).config.party_id
                &&& r@[0].to == from_party
                &&& r@[0].payload == (Message::HelloAck {
                    from_party: old(self).config.party_id,
                    accepted: true,
                })
            },
            envelope.payload matches Message::Ping { from_party, timestamp } ==> {
                &&& r@.len() == 1
                &&& r@[0].from == old(self).config.party_id
                &&& r@[0].to == from_party
                &&& r@[0].payload == (Message::Pong { from_party: old(self).config.party_id, timestamp })
            },
            envelope.payload matches Message::JobAnnounce { job_id, .. } ==> {
                &&& r@.len() == 1
                &&& r@[0].from == old(self).config.party_id
                &&& r@[0].to == BROADCAST
                &&& r@[0].payload == (Message::JobReady { job_id, from_party: old(self).config.party_id })
            },
            envelope.payload matches Message::ShareMsg { from_party, .. } ==> match old(
                self,
            ).current_job {
                Some(j) => {
                    &&& r@.len() == 1
                    &&& r@[0].from == old(self).config.party_id
                    &&& r@[0].to == from_party
                    &&& r@[0].payload == (Message::SharesReceived {
                        job_id: j.job_id,
                        from_party: old(self).config.party_id,
                    })
                },
                None => r@.len() == 0,
            },
            !(envelope.payload is Hello || envelope.payload is Ping || envelope.payload is JobAnnounce
                || envelope.payload is ShareMsg) ==> r@.len() == 0,
            envelope.payload matches Message::JobAnnounce { job_id, operation, .. } ==> match old(
                self,
            ).current_job {
                Some(j) => final(self).current_job == Some(j),
                None => final(self).current_job matches Some(k) && {
                    &&& k.job_id@ == job_id@
                    &&& k.operation == operation
                    &&& k.my_input == 0
                    &&& k.state == JobState::WaitingForPeers
                    &&& k.ready_parties@.len() == 0
                    &&& k.received_shares@.dom().len() == 0
                    &&& k.open_shares@.dom().len() == 0
                },
            },
            envelope.payload matches Message::JobReady { from_party, .. } ==> match old(
                self,
            ).current_job {
                Some(j) => final(self).current_job matches Some(k) && {
                    &&& k.ready_parties@ == if j.ready_parties@.contains(from_party) {
                        j.ready_parties@
                    } else {
                        j.ready_parties@.push(from_party)
                    }
                    &&& k.job_id == j.job_id
                    &&& k.state == j.state
                },
                None => final(self).current_job is None,
            },
            envelope.payload matches Message::ShareMsg { from_party, share_x, share_y, mac_tag, .. }
                ==> match old(self).current_job {
                Some(j) => final(self).current_job matches Some(k) && {
                    &&& k.received_shares@.contains_key(from_party)
                    &&& k.received_shares@[from_party] == (share_x, share_y, mac_tag)
                    &&& forall|q: u32| q != from_party ==> k.received_shares@.get(q)
                        == j.received_shares@.get(q)
                    &&& k.job_id == j.job_id
                    &&& k.state == j.state
                },
                None => final(self).current_job is None,
            },
            envelope.payload matches Message::Abort { reason, .. } ==> match old(self).current_job {
                Some(j) => final(self).current_job matches Some(k) && k.state == JobState::Failed(
                    reason,
                ) && k.job_id == j.job_id,
                None => final(self).current_job is None,
            },
    {
        self.message_log.push(envelope.clone());
        let mut responses: Vec<MessageEnvelope> = Vec::new();
        let me = self.party_id();
        match &envelope.payload {
            Message::Hello { from_party, .. } => {
                let ack = Message::HelloAck { from_party: me, accepted: true };
                responses.push(MessageEnvelope::new(me, *from_party, ack));
            },
            Message::JobAnnounce { job_id, operation, .. } => {
                let _ = self.start_job(job_id.clone(), operation.clone(), 0);
                let ready = Message::JobReady { job_id: job_id.clone(), from_party: me };
                responses.push(MessageEnvelope::new(me, BROADCAST, ready));
            },
            Message::JobReady { from_party, .. } => {
                if let Some(mut job) = self.current_job.take() {
                    if !contains_party(&job.ready_parties, *from_party) {
                        job.ready_parties.push(*from_party);
                    }
                    self.current_job = Some(job);
                }
            },
            Message::ShareMsg { from_party, share_x, share_y, mac_tag, .. } => {
                if let Some(mut job) = self.current_job.take() {
                    job.received_shares.insert(*from_party, (*share_x, *share_y, *mac_tag));
                    let ack = Message::SharesReceived { job_id: job.job_id.clone(), from_party: me };
                    responses.push(MessageEnvelope::new(me, *from_party, ack));
                    self.current_job = Some(job);
                }
            },
            Message::OpenShare { from_party, share_value, mac_tag, .. } => {
                if let Some(mut job) = self.current_job.take() {
                    job.open_shares.insert(*from_party, (*share_value, *mac_tag));
                    self.current_job = Some(job);
                }
            },
            Message::Ping { from_party, timestamp } => {
                let pong = Message::Pong { from_party: me, timestamp: *timestamp };
                responses.push(MessageEnvelope::new(me, *from_party, pong));
            },
            Message::Abort { reason, .. } => {
                if let Some(mut job) = self.current_job.take() {
                    job.state = JobState::Failed(reason.clone());
                    self.current_job = Some(job);
                }
            },
            _ => {},
        }
        responses
    }

    /// Marks the running job, if any, complete with `result`.
    pub fn complete_job(&mut self, result: u64)
        ensures
            match old(self).current_job {
                Some(j) => final(self).current_job == Some(Job { state: JobState::Complete(result), ..j }),
                None => final(self).current_job is None,
            },
            *final(self) == (MpcNode { current_job: final(self).current_job, ..*old(self) }),
    {
        if let Some(mut job) = self.current_job.take() {
            job.state = JobState::Complete(result);
            self.current_job = Some(job);
        }
    }

    /// The state of the running job, if any.
    pub fn job_state(&self) -> (r: Option<&JobState>)
        ensures
            match self.current_job {
                Some(j) => r is Some && *(r->Some_0) == j.state,
                None => r is None,
            },
    {
        match &self.current_job {
            Some(job) => Some(&job.state),
            None => None,
        }
    }

    /// Drops the job.
    pub fn clear_job(&mut self)
        ensures
            *final(self) == (MpcNode { current_job: None, ..*old(self) }),
    {
        self.current_job = None;
    }
}

} // verus!
