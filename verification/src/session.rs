//! Peer sessions: the state of the connection to each other party, message counters, a
//! queue of messages waiting for the session, and the handshake that activates it.
use crate::clock::{duration_nanos, elapsed, nanos, now};
use crate::keyed::{entry_mut, keys_of, lemma_filter_counts_set, lemma_sum_any_order, lemma_sum_prefix, lists_keys, sum_by};
use crate::message::{Message, MessageEnvelope};
use crate::text::{decimal, with_decimal};
use std::collections::HashMap;
use std::time::{Duration, Instant};
use vstd::prelude::*;

verus! {

/// The state of the connection to one peer.
#[derive(Debug, Clone, Copy, PartialEq, Eq, Structural)]
pub enum SessionState {
    Connecting,
    Handshaking,
    Active,
    Disconnected,
}

/// The connection to one peer.
#[derive(Debug)]
pub struct Session {
    pub peer_party_id: u32,
    pub peer_addr: String,
    pub state: SessionState,
    pub connected_at: Instant,
    pub last_ping: Instant,
    pub messages_sent: u64,
    pub messages_received: u64,
    pub pending_messages: Vec<MessageEnvelope>,
}

/// Whether the duration `a` is longer than `b`.
pub fn longer_than(a: &Duration, b: &Duration) -> (r: bool)
    ensures
        r == (duration_nanos(*a) > duration_nanos(*b)),
{
    nanos(a) > nanos(b)
}

impl Session {
    /// A fresh session with `peer_party_id` at `peer_addr`: connecting, no traffic.
    pub open spec fn is_fresh(self, peer_party_id: u32, peer_addr: Seq<char>) -> bool {
        &&& self.peer_party_id == peer_party_id
        &&& self.peer_addr@ == peer_addr
        &&& self.state == SessionState::Connecting
        &&& self.messages_sent == 0
        &&& self.messages_received == 0
        &&& self.pending_messages@.len() == 0
    }

    /// A new session with a peer; both instants are now.
    pub fn new(peer_party_id: u32, peer_addr: String) -> (r: Session)
        ensures
            r.is_fresh(peer_party_id, peer_addr@),
            r.peer_addr == peer_addr,
    {
        Session {
            peer_party_id,
            peer_addr,
            state: SessionState::Connecting,
            connected_at: now(),
            last_ping: now(),
            messages_sent: 0,
            messages_received: 0,
            pending_messages: Vec::new(),
        }
    }

    /// Marks the session active.
    pub fn activate(&mut self)
        ensures
            *final(self) == (Session { state: SessionState::Active, ..*old(self) }),
    {
        self.state = SessionState::Active;
    }

    /// Marks the session disconnected.
    pub fn disconnect(&mut self)
        ensures
            *final(self) == (Session { state: SessionState::Disconnected, ..*old(self) }),
    {
        self.state = SessionState::Disconnected;
    }

    /// Whether the session is active.
    pub fn is_active(&self) -> (r: bool)
        ensures
            r == (self.state == SessionState::Active),
    {
        self.state == SessionState::Active
    }

    /// Whether the session is disconnected.
    pub fn is_disconnected(&self) -> (r: bool)
        ensures
            r == (self.state == SessionState::Disconnected),
    {
        self.state == SessionState::Disconnected
    }

    /// Counts one message sent.
    pub fn record_sent(&mut self)
        requires
            old(self).messages_sent < u64::MAX,
        ensures
            *final(self) == (Session { messages_sent: (old(self).messages_sent + 1) as u64, ..*old(self) }),
    {
        self.messages_sent = self.messages_sent + 1;
    }

    /// Counts one message received; the peer was last heard from now.
    pub fn record_received(&mut self)
        requires
            old(self).messages_received < u64::MAX,
        ensures
            *final(self) == (Session {
                messages_received: (old(self).messages_received + 1) as u64,
                last_ping: final(self).last_ping,
                ..*old(self)
            }),
    {
        self.messages_received = self.messages_received + 1;
        self.last_ping = now();
    }

    /// Queues a message for later sending.
    pub fn queue_message(&mut self, envelope: MessageEnvelope)
        ensures
            final(self).pending_messages@ == old(self).pending_messages@.push(envelope),
            *final(self) == (Session { pending_messages: final(self).pending_messages, ..*old(self) }),
    {
        self.pending_messages.push(envelope);
    }

    /// Hands out the queued messages in order and empties the queue.
    pub fn take_pending(&mut self) -> (r: Vec<MessageEnvelope>)
        ensures
            r@ == old(self).pending_messages@,
            final(self).pending_messages@.len() == 0,
            *final(self) == (Session { pending_messages: final(self).pending_messages, ..*old(self) }),
    {
        let mut taken: Vec<MessageEnvelope> = Vec::new();
        std::mem::swap(&mut taken, &mut self.pending_messages);
        taken
    }

    /// How long the session has existed.
    pub fn age(&self) -> Duration {
        elapsed(&self.connected_at)
    }

    /// How long since the peer was last heard from.
    pub fn silence_duration(&self) -> Duration {
        elapsed(&self.last_ping)
    }

    /// Whether the peer has been silent for longer than `timeout`.
    pub fn is_timed_out(&self, timeout: Duration) -> bool {
        let silence = self.silence_duration();
        longer_than(&silence, &timeout)
    }
}

/// The keys of a session map whose sessions are active.
pub open spec fn active_ids(m: Map<u32, Session>) -> Set<u32> {
    m.dom().filter(|k: u32| m[k].state == SessionState::Active)
}

/// Key `k` holds an active session.
pub open spec fn active_key(m: Map<u32, Session>) -> spec_fn(u32) -> bool {
    |k: u32| m[k].state == SessionState::Active
}


/// The messages a session sent.
pub open spec fn sent_count() -> spec_fn(Session) -> int {
    |s: Session| s.messages_sent as int
}

/// The messages a session received.
pub open spec fn received_count() -> spec_fn(Session) -> int {
    |s: Session| s.messages_received as int
}

/// All sessions of a party, keyed by the peer's party id.
pub struct SessionManager {
    pub sessions: HashMap<u32, Session>,
    pub my_party_id: u32,
    pub expected_parties: u32,
}

impl SessionManager {
    /// A manager without sessions.
    pub fn new(my_party_id: u32, expected_parties: u32) -> (r: SessionManager)
        ensures
            r.sessions@ == Map::<u32, Session>::empty(),
            r.my_party_id == my_party_id,
            r.expected_parties == expected_parties,
    {
        SessionManager { sessions: HashMap::new(), my_party_id, expected_parties }
    }

    /// Starts a fresh session with `peer_party_id`, replacing any earlier one.
    pub fn add_session(&mut self, peer_party_id: u32, peer_addr: String)
        ensures
            final(self).sessions@ == old(self).sessions@.insert(
                peer_party_id,
                final(self).sessions@[peer_party_id],
            ),
            final(self).sessions@[peer_party_id].is_fresh(peer_party_id, peer_addr@),
            final(self).my_party_id == old(self).my_party_id,
            final(self).expected_parties == old(self).expected_parties,
    {
        let session = Session::new(peer_party_id, peer_addr);
        self.sessions.insert(peer_party_id, session);
    }

    /// The session with `party_id`, if any.
    pub fn get_session(&self, party_id: u32) -> (r: Option<&Session>)
        ensures
            match r {
                Some(s) => self.sessions@.contains_key(party_id) && *s == self.sessions@[party_id],
                None => !self.sessions@.contains_key(party_id),
            },
    {
        self.sessions.get(&party_id)
    }

    /// The session with `party_id`, if any, for changing in place.
    pub fn get_session_mut(&mut self, party_id: u32) -> (r: Option<&mut Session>)
        ensures
            match r {
                Some(s) => {
                    &&& old(self).sessions@.contains_key(party_id)
                    &&& *s == old(self).sessions@[party_id]
                    &&& final(self).sessions@ == old(self).sessions@.insert(party_id, *final(s))
                },
                None => !old(self).sessions@.contains_key(party_id) && final(self).sessions@ == old(
                    self,
                ).sessions@,
            },
            final(self).my_party_id == old(self).my_party_id,
            final(self).expected_parties == old(self).expected_parties,
    {
        entry_mut(&mut self.sessions, party_id)
    }

    /// Sets the state of the session with `party_id`, if any.
    fn set_state(&mut self, party_id: u32, state: SessionState)
        ensures
            old(self).sessions@.contains_key(party_id) ==> final(self).sessions@ == old(
                self,
            ).sessions@.insert(party_id, Session { state, ..old(self).sessions@[party_id] }),
            !old(self).sessions@.contains_key(party_id) ==> final(self).sessions@ == old(self).sessions@,
            final(self).my_party_id == old(self).my_party_id,
            final(self).expected_parties == old(self).expected_parties,
    {
        match self.sessions.remove(&party_id) {
            Some(mut s) => {
                s.state = state;
                self.sessions.insert(party_id, s);
                proof {
                    assert(self.sessions@ =~= old(self).sessions@.insert(
                        party_id,
                        Session { state, ..old(self).sessions@[party_id] },
                    ));
                }
            },
            None => {},
        }
    }

    /// Counts one message received on the session with `party_id`, if any.
    fn note_received(&mut self, party_id: u32)
        requires
            old(self).sessions@.contains_key(party_id) ==> old(self).sessions@[party_id].messages_received
                < u64::MAX,
        ensures
            old(self).sessions@.contains_key(party_id) ==> {
                &&& final(self).sessions@ == old(self).sessions@.insert(
                    party_id,
                    final(self).sessions@[party_id],
                )
                &&& final(self).sessions@[party_id] == (Session {
                    messages_received: (old(self).sessions@[party_id].messages_received + 1) as u64,
                    last_ping: final(self).sessions@[party_id].last_ping,
                    ..old(self).sessions@[party_id]
                })
            },
            !old(self).sessions@.contains_key(party_id) ==> final(self).sessions@ == old(self).sessions@,
            final(self).my_party_id == old(self).my_party_id,
            final(self).expected_parties == old(self).expected_parties,
    {
        match self.sessions.remove(&party_id) {
            Some(mut s) => {
                s.record_received();
                self.sessions.insert(party_id, s);
                proof {
                    assert(self.sessions@ =~= old(self).sessions@.insert(
                        party_id,
                        self.sessions@[party_id],
                    ));
                }
            },
            None => {},
        }
    }

    /// Activates the session with `party_id`; whether there was one.
    pub fn activate_session(&mut self, party_id: u32) -> (r: bool)
        ensures
            r == old(self).sessions@.contains_key(party_id),
            r ==> final(self).sessions@ == old(self).sessions@.insert(
                party_id,
                Session { state: SessionState::Active, ..old(self).sessions@[party_id] },
            ),
            !r ==> final(self).sessions@ == old(self).sessions@,
            final(self).my_party_id == old(self).my_party_id,
            final(self).expected_parties == old(self).expected_parties,
    {
        let present = self.sessions.contains_key(&party_id);
        self.set_state(party_id, SessionState::Active);
        present
    }

    /// Marks the session with `party_id`, if any, disconnected.
    pub fn disconnect_session(&mut self, party_id: u32)
        ensures
            old(self).sessions@.contains_key(party_id) ==> final(self).sessions@ == old(
                self,
            ).sessions@.insert(
                party_id,
                Session { state: SessionState::Disconnected, ..old(self).sessions@[party_id] },
            ),
            !old(self).sessions@.contains_key(party_id) ==> final(self).sessions@ == old(self).sessions@,
            final(self).my_party_id == old(self).my_party_id,
            final(self).expected_parties == old(self).expected_parties,
    {
        self.set_state(party_id, SessionState::Disconnected);
    }

    /// The number of active sessions.
    pub fn active_count(&self) -> (r: usize)
        ensures
            r == active_ids(self.sessions@).len(),
    {
        let keys = keys_of(&self.sessions);
        let ghost m = self.sessions@;
        let mut count: usize = 0;
        let mut i: usize = 0;
        while i < keys.len()
            invariant
                m == self.sessions@,
                lists_keys(keys@, m),
                i <= keys@.len(),
                count == keys@.take(i as int).filter(active_key(m)).len(),
                count <= i,
            decreases keys@.len() - i,
        {
            let k = keys[i];
            proof {
                assert(keys@.to_set().contains(k));
                assert(keys@.take(i as int + 1) =~= keys@.take(i as int).push(k));
                keys@.take(i as int).lemma_filter_push(k, active_key(m));
            }
            let s = self.sessions.get(&k).unwrap();
            if s.is_active() {
                count = count + 1;
            }
            i = i + 1;
        }
        proof {
            assert(keys@.take(keys@.len() as int) =~= keys@);
            lemma_filter_counts_set(keys@, m, active_key(m));
            assert(m.dom().filter(active_key(m)) =~= active_ids(m));
        }
        count
    }

    /// Whether every other expected party has an active session.
    pub fn all_connected(&self) -> (r: bool)
        requires
            self.expected_parties >= 1,
        ensures
            r == (active_ids(self.sessions@).len() >= self.expected_parties - 1),
    {
        self.active_count() >= (self.expected_parties - 1) as usize
    }

    /// The peer ids of the active sessions, in the map's order.
    pub fn active_party_ids(&self) -> (r: Vec<u32>)
        ensures
            exists|keys: Seq<u32>|
                #![trigger lists_keys(keys, self.sessions@)]
                lists_keys(keys, self.sessions@) && r@ == keys.filter(
                    active_key(self.sessions@),
                ).map_values(|k: u32| self.sessions@[k].peer_party_id),
    {
        let keys = keys_of(&self.sessions);
        let ghost m = self.sessions@;
        let ghost f = |k: u32| m[k].peer_party_id;
        let mut ids: Vec<u32> = Vec::new();
        let mut i: usize = 0;
        while i < keys.len()
            invariant
                m == self.sessions@,
                f == (|k: u32| m[k].peer_party_id),
                lists_keys(keys@, m),
                i <= keys@.len(),
                ids@ == keys@.take(i as int).filter(active_key(m)).map_values(f),
            decreases keys@.len() - i,
        {
            let k = keys[i];
            proof {
                assert(keys@.to_set().contains(k));
                assert(keys@.take(i as int + 1) =~= keys@.take(i as int).push(k));
                keys@.take(i as int).lemma_filter_push(k, active_key(m));
            }
            let s = self.sessions.get(&k).unwrap();
            if s.is_active() {
                ids.push(s.peer_party_id);
                proof {
                    assert(ids@ =~= keys@.take(i as int + 1).filter(active_key(m)).map_values(f));
                }
            } else {
                proof {
                    assert(ids@ =~= keys@.take(i as int + 1).filter(active_key(m)).map_values(f));
                }
            }
            i = i + 1;
        }
        proof {
            assert(keys@.take(keys@.len() as int) =~= keys@);
        }
        ids
    }

    /// Drops every disconnected session.
    pub fn cleanup_disconnected(&mut self)
        ensures
            final(self).sessions@ == old(self).sessions@.restrict(
                old(self).sessions@.dom().filter(
                    |k: u32| old(self).sessions@[k].state != SessionState::Disconnected,
                ),
            ),
            final(self).my_party_id == old(self).my_party_id,
            final(self).expected_parties == old(self).expected_parties,
    {
        let keys = keys_of(&self.sessions);
        let ghost m = self.sessions@;
        let ghost keep = m.dom().filter(|k: u32| m[k].state != SessionState::Disconnected);
        let mut i: usize = 0;
        while i < keys.len()
            invariant
                lists_keys(keys@, m),
                keep == m.dom().filter(|k: u32| m[k].state != SessionState::Disconnected),
                i <= keys@.len(),
                self.my_party_id == old(self).my_party_id,
                self.expected_parties == old(self).expected_parties,
                self.sessions@ == m.restrict(
                    m.dom().filter(|k: u32| !keys@.take(i as int).contains(k) || keep.contains(k)),
                ),
            decreases keys@.len() - i,
        {
            let k = keys[i];
            proof {
                assert(keys@.to_set().contains(k));
            }
            let ghost before = self.sessions@;
            let disconnected = match self.sessions.get(&k) {
                Some(s) => s.is_disconnected(),
                None => false,
            };
            if disconnected {
                self.sessions.remove(&k);
            }
            proof {
                let t0 = keys@.take(i as int);
                let t1 = keys@.take(i as int + 1);
                assert(t1 =~= t0.push(k));
                assert forall|j: u32| #[trigger] t1.contains(j) <==> (t0.contains(j) || j == k) by {
                    if t1.contains(j) {
                        let x = choose|x: int| 0 <= x < t1.len() && t1[x] == j;
                        if x < i {
                            assert(t0[x] == j);
                        }
                    }
                    if t0.contains(j) {
                        let x = choose|x: int| 0 <= x < t0.len() && t0[x] == j;
                        assert(t1[x] == j);
                    }
                    if j == k {
                        assert(t1[i as int] == j);
                    }
                }
                assert(!t0.contains(k)) by {
                    if t0.contains(k) {
                        let x = choose|x: int| 0 <= x < t0.len() && t0[x] == k;
                        assert(keys@[x] == keys@[i as int]);
                    }
                }
                assert(self.sessions@ =~= m.restrict(
                    m.dom().filter(|j: u32| !t1.contains(j) || keep.contains(j)),
                ));
            }
            i = i + 1;
        }
        proof {
            assert(keys@.take(keys@.len() as int) =~= keys@);
            assert(self.sessions@ =~= m.restrict(keep));
        }
    }

    /// Advances the handshake on a `Hello` or `HelloAck`: a `Hello` opens (or reuses) the
    /// session with its sender, marks it handshaking and counts the message; an accepted
    /// `HelloAck` activates the sender's session and counts the message; a refused one
    /// disconnects it. Whether the handshake went on; any other message is refused.
    pub fn handle_handshake(&mut self, envelope: &MessageEnvelope) -> (r: bool)
        requires
            handshake_counts_fit(old(self).sessions@, envelope.payload),
        ensures
            r == handshake_accepted(envelope.payload),
            envelope.payload is Hello ==> r,
            envelope.payload matches Message::HelloAck { accepted, .. } ==> r == accepted,
            !(envelope.payload is Hello || envelope.payload is HelloAck) ==> !r,
            handshake_step(old(self).sessions@, envelope.payload, final(self).sessions@),
            envelope.payload matches Message::Hello { from_party, .. } ==> {
                &&& final(self).sessions@.contains_key(from_party)
                &&& final(self).sessions@[from_party].state == SessionState::Handshaking
                &&& final(self).sessions@[from_party].messages_received == if old(
                    self,
                ).sessions@.contains_key(from_party) {
                    old(self).sessions@[from_party].messages_received + 1
                } else {
                    1
                }
                &&& forall|q: u32| q != from_party ==> final(self).sessions@.get(q) == old(
                    self,
                ).sessions@.get(q)
            },
            envelope.payload matches Message::HelloAck { from_party, accepted } ==> {
                &&& old(self).sessions@.contains_key(from_party) ==> {
                    &&& final(self).sessions@.contains_key(from_party)
                    &&& final(self).sessions@[from_party].state == if accepted {
                        SessionState::Active
                    } else {
                        SessionState::Disconnected
                    }
                }
                &&& !old(self).sessions@.contains_key(from_party) ==> final(self).sessions@ == old(
                    self,
                ).sessions@
                &&& forall|q: u32| q != from_party ==> final(self).sessions@.get(q) == old(
                    self,
                ).sessions@.get(q)
            },
            !(envelope.payload is Hello || envelope.payload is HelloAck) ==> final(self).sessions@
                == old(self).sessions@,
            final(self).my_party_id == old(self).my_party_id,
            final(self).expected_parties == old(self).expected_parties,
    {
        match &envelope.payload {
            Message::Hello { from_party, party_count: _, version: _ } => {
                let from = *from_party;
                if !self.sessions.contains_key(&from) {
                    self.add_session(from, with_decimal("party-", from as u64));
                }
                self.set_state(from, SessionState::Handshaking);
                self.note_received(from);
                proof {
                    assert(self.sessions@ =~= old(self).sessions@.insert(from, self.sessions@[from]));
                }
                true
            },
            Message::HelloAck { from_party, accepted } => {
                let from = *from_party;
                if *accepted {
                    self.activate_session(from);
                    self.note_received(from);
                    proof {
                        if old(self).sessions@.contains_key(from) {
                            assert(self.sessions@ =~= old(self).sessions@.insert(
                                from,
                                self.sessions@[from],
                            ));
                        }
                    }
                    true
                } else {
                    self.disconnect_session(from);
                    false
                }
            },
            _ => false,
        }
    }

    /// The messages sent over all sessions.
    pub fn total_sent(&self) -> (r: u64)
        requires
            forall|keys: Seq<u32>|
                #![trigger lists_keys(keys, self.sessions@)]
                lists_keys(keys, self.sessions@) ==> sum_by(self.sessions@, keys, sent_count()) <= u64::MAX,
        ensures
            forall|keys: Seq<u32>|
                #![trigger lists_keys(keys, self.sessions@)]
                lists_keys(keys, self.sessions@) ==> r == sum_by(self.sessions@, keys, sent_count()),
    {
        self.total(true)
    }

    /// The messages received over all sessions.
    pub fn total_received(&self) -> (r: u64)
        requires
            forall|keys: Seq<u32>|
                #![trigger lists_keys(keys, self.sessions@)]
                lists_keys(keys, self.sessions@) ==> sum_by(self.sessions@, keys, received_count()) <= u64::MAX,
        ensures
            forall|keys: Seq<u32>|
                #![trigger lists_keys(keys, self.sessions@)]
                lists_keys(keys, self.sessions@) ==> r == sum_by(self.sessions@, keys, received_count()),
    {
        self.total(false)
    }

    fn total(&self, sent: bool) -> (r: u64)
        requires
            forall|keys: Seq<u32>|
                #![trigger lists_keys(keys, self.sessions@)]
                lists_keys(keys, self.sessions@) ==> sum_by(self.sessions@, keys, if sent { sent_count() } else { received_count() }) <= u64::MAX,
        ensures
            forall|keys: Seq<u32>|
                #![trigger lists_keys(keys, self.sessions@)]
                lists_keys(keys, self.sessions@) ==> r == sum_by(self.sessions@, keys, if sent { sent_count() } else { received_count() }),
    {
        let keys = keys_of(&self.sessions);
        let ghost m = self.sessions@;
        let ghost f = if sent { sent_count() } else { received_count() };
        proof {
            assert(lists_keys(keys@, m));
        }
        let mut total: u64 = 0;
        let mut i: usize = 0;
        while i < keys.len()
            invariant
                m == self.sessions@,
                lists_keys(keys@, m),
                f == (if sent { sent_count() } else { received_count() }),
                sum_by(m, keys@, f) <= u64::MAX,
                i <= keys@.len(),
                total == sum_by(m, keys@.take(i as int), f),
            decreases keys@.len() - i,
        {
            let k = keys[i];
            proof {
                assert(keys@.to_set().contains(k));
                assert(keys@.take(i as int + 1).drop_last() =~= keys@.take(i as int));
                lemma_sum_prefix(m, keys@, i as int + 1, f);
            }
            let s = self.sessions.get(&k).unwrap();
            if sent {
                total = total + s.messages_sent;
            } else {
                total = total + s.messages_received;
            }
            i = i + 1;
        }
        proof {
            assert(keys@.take(keys@.len() as int) =~= keys@);
            assert forall|ks: Seq<u32>| #[trigger] lists_keys(ks, m) implies total == sum_by(m, ks, f) by {
                lemma_sum_any_order(m, keys@, ks, f);
            }
        }
        total
    }
}

/// Every handshake message that counts a received message leaves room in the counter.
pub open spec fn handshake_counts_fit(m: Map<u32, Session>, msg: Message) -> bool {
    match msg {
        Message::Hello { from_party, .. } => m.contains_key(from_party) ==> m[from_party].messages_received
            < u64::MAX,
        Message::HelloAck { from_party, accepted } => accepted && m.contains_key(from_party)
            ==> m[from_party].messages_received < u64::MAX,
        _ => true,
    }
}

/// Whether the handshake goes on after `msg`.
pub open spec fn handshake_accepted(msg: Message) -> bool {
    match msg {
        Message::Hello { .. } => true,
        Message::HelloAck { accepted, .. } => accepted,
        _ => false,
    }
}

/// `s2` is `s1` with the given state and one more message received, heard from at some
/// instant.
pub open spec fn advanced(s1: Session, s2: Session, state: SessionState) -> bool {
    s2 == (Session {
        state,
        messages_received: (s1.messages_received + 1) as u64,
        last_ping: s2.last_ping,
        ..s1
    })
}

/// How the sessions change on a handshake message.
pub open spec fn handshake_step(m1: Map<u32, Session>, msg: Message, m2: Map<u32, Session>) -> bool {
    match msg {
        Message::Hello { from_party, .. } => {
            &&& m2 == m1.insert(from_party, m2[from_party])
            &&& if m1.contains_key(from_party) {
                advanced(m1[from_party], m2[from_party], SessionState::Handshaking)
            } else {
                &&& m2[from_party].peer_party_id == from_party
                &&& m2[from_party].peer_addr@ == "party-"@ + decimal(from_party as nat)
                &&& m2[from_party].state == SessionState::Handshaking
                &&& m2[from_party].messages_sent == 0
                &&& m2[from_party].messages_received == 1
                &&& m2[from_party].pending_messages@.len() == 0
            }
        },
        Message::HelloAck { from_party, accepted } => if !m1.contains_key(from_party) {
            m2 == m1
        } else if accepted {
            &&& m2 == m1.insert(from_party, m2[from_party])
            &&& advanced(m1[from_party], m2[from_party], SessionState::Active)
        } else {
            m2 == m1.insert(
                from_party,
                Session { state: SessionState::Disconnected, ..m1[from_party] },
            )
        },
        _ => m2 == m1,
    }
}

} // verus!
