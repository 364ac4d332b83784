//! The coordinator of one job at one party: announce the job, wait for every party to be
//! ready, Shamir-share this party's input, collect the shares sent to it, reconstruct and
//! open an output share, and sum the opened shares into the result.
use crate::field::{FieldElement, PRIME};
use crate::keyed::{keys_of, lemma_sum_any_order, lemma_sum_prefix, lists_keys, sum_by};
use crate::mac::MacKey;
use crate::message::{Message, MessageEnvelope, Operation, BROADCAST};
use crate::node::contains_party;
use crate::shamir::{denominators_nonzero, lagrange_sum, reconstruct, shares_at, split, Share};
use std::collections::HashMap;
use vstd::prelude::*;

verus! {

/// The outcome of a job.
#[derive(Debug)]
pub struct ComputationResult {
    pub job_id: String,
    pub result: u64,
    pub operation: Operation,
    pub party_count: u32,
    pub success: bool,
}

impl Clone for ComputationResult {
    fn clone(&self) -> (r: Self)
        ensures
            r == *self,
    {
        ComputationResult {
            job_id: self.job_id.clone(),
            result: self.result,
            operation: self.operation.clone(),
            party_count: self.party_count,
            success: self.success,
        }
    }
}

/// The progress of the coordinator.
#[derive(Debug)]
pub enum CoordinatorState {
    Idle,
    WaitingForParties,
    SharingInputs,
    Computing,
    OpeningOutputs,
    Done,
    Failed(String),
}

impl Clone for CoordinatorState {
    fn clone(&self) -> (r: Self)
        ensures
            r == *self,
    {
        match self {
            CoordinatorState::Idle => CoordinatorState::Idle,
            CoordinatorState::WaitingForParties => CoordinatorState::WaitingForParties,
            CoordinatorState::SharingInputs => CoordinatorState::SharingInputs,
            CoordinatorState::Computing => CoordinatorState::Computing,
            CoordinatorState::OpeningOutputs => CoordinatorState::OpeningOutputs,
            CoordinatorState::Done => CoordinatorState::Done,
            CoordinatorState::Failed(reason) => CoordinatorState::Failed(reason.clone()),
        }
    }
}

impl PartialEq for CoordinatorState {
    fn eq(&self, other: &Self) -> (r: bool) {
        match (self, other) {
            (CoordinatorState::Idle, CoordinatorState::Idle) => true,
            (CoordinatorState::WaitingForParties, CoordinatorState::WaitingForParties) => true,
            (CoordinatorState::SharingInputs, CoordinatorState::SharingInputs) => true,
            (CoordinatorState::Computing, CoordinatorState::Computing) => true,
            (CoordinatorState::OpeningOutputs, CoordinatorState::OpeningOutputs) => true,
            (CoordinatorState::Done, CoordinatorState::Done) => true,
            (CoordinatorState::Failed(a), CoordinatorState::Failed(b)) => *a == *b,
            _ => false,
        }
    }
}

impl vstd::std_specs::cmp::PartialEqSpecImpl for CoordinatorState {
    open spec fn obeys_eq_spec() -> bool {
        true
    }

    open spec fn eq_spec(&self, other: &Self) -> bool {
        match (self, other) {
            (CoordinatorState::Idle, CoordinatorState::Idle) => true,
            (CoordinatorState::WaitingForParties, CoordinatorState::WaitingForParties) => true,
            (CoordinatorState::SharingInputs, CoordinatorState::SharingInputs) => true,
            (CoordinatorState::Computing, CoordinatorState::Computing) => true,
            (CoordinatorState::OpeningOutputs, CoordinatorState::OpeningOutputs) => true,
            (CoordinatorState::Done, CoordinatorState::Done) => true,
            (CoordinatorState::Failed(a), CoordinatorState::Failed(b)) => a@ == b@,
            _ => false,
        }
    }
}

/// Runs one job at one party.
pub struct JobCoordinator {
    pub job_id: String,
    pub my_party_id: u32,
    pub party_count: u32,
    pub operation: Operation,
    pub my_input: u64,
    pub state: CoordinatorState,
    pub mac_key: MacKey,
    pub my_shares_sent: HashMap<u32, Share>,
    pub received_shares: HashMap<u32, Share>,
    pub output_shares: HashMap<u32, u64>,
    pub ready_parties: Vec<u32>,
    pub outgoing: Vec<MessageEnvelope>,
}

/// `out` are envelopes from `from` carrying `msgs` (receiver and payload), in order.
pub open spec fn sends(out: Seq<MessageEnvelope>, from: u32, msgs: Seq<(u32, Message)>) -> bool {
    &&& out.len() == msgs.len()
    &&& forall|i: int|
        0 <= i < out.len() ==> (#[trigger] out[i]).from == from && out[i].to == msgs[i].0
            && out[i].payload == msgs[i].1
}

/// `sh` is a Shamir sharing of `secret` among `total` parties with threshold `threshold`.
pub open spec fn is_sharing(sh: Seq<Share>, secret: u64, threshold: nat, total: nat) -> bool {
    exists|cs: Seq<FieldElement>|
        {
            &&& cs.len() == threshold
            &&& cs[0].value == secret
            &&& forall|k: int| 1 <= k < threshold ==> 1 <= #[trigger] cs[k].value < PRIME
            &&& sh == shares_at(cs, total)
        }
}

/// `m` with share `k` of `sh` recorded under party `k`, for `k` in `1..=n`.
pub open spec fn record_shares(m: Map<u32, Share>, sh: Seq<Share>, n: nat) -> Map<u32, Share>
    decreases n,
{
    if n == 0 {
        m
    } else {
        record_shares(m, sh, (n - 1) as nat).insert(n as u32, sh[n - 1])
    }
}

/// The share messages that party `me` sends to the parties `1..=n` other than itself.
pub open spec fn share_messages(job_id: String, me: u32, sh: Seq<Share>, n: nat) -> Seq<(u32, Message)>
    decreases n,
{
    if n == 0 {
        seq![]
    } else {
        let prev = share_messages(job_id, me, sh, (n - 1) as nat);
        if n == me {
            prev
        } else {
            prev.push(
                (
                    n as u32,
                    Message::ShareMsg {
                        job_id,
                        from_party: me,
                        to_party: n as u32,
                        share_x: sh[n - 1].x.value,
                        share_y: sh[n - 1].y.value,
                        mac_tag: 0,
                    },
                ),
            )
        }
    }
}

/// The shares stored under `keys`, in order.
pub open spec fn shares_in(m: Map<u32, Share>, keys: Seq<u32>) -> Seq<Share> {
    keys.map_values(|k: u32| m[k])
}

/// The shares received can be interpolated, whatever order they are listed in.
pub open spec fn interpolable(m: Map<u32, Share>) -> bool {
    &&& m.len() >= 2
    &&& forall|k: u32| #[trigger] m.contains_key(k) ==> m[k].x.value <= PRIME
    &&& forall|keys: Seq<u32>|
        #![trigger lists_keys(keys, m)]
        lists_keys(keys, m) ==> denominators_nonzero(shares_in(m, keys))
}

/// The output share for `reconstructed`: the average divides by the party count.
pub open spec fn output_share(op: Operation, reconstructed: u64, party_count: u32) -> u64 {
    match op {
        Operation::Average => (reconstructed / (party_count as u64)) as u64,
        _ => reconstructed,
    }
}

/// The output share of an average is the reconstructed value divided by the party count,
/// rounded down: `share * n <= r < (share + 1) * n`; every other operation passes the
/// reconstructed value through.
pub proof fn lemma_output_share(op: Operation, reconstructed: u64, party_count: u32)
    requires
        party_count > 0,
    ensures
        op is Average ==> output_share(op, reconstructed, party_count) * party_count <= reconstructed
            < (output_share(op, reconstructed, party_count) + 1) * party_count,
        !(op is Average) ==> output_share(op, reconstructed, party_count) == reconstructed,
{
    if op is Average {
        let n = party_count as int;
        let r = reconstructed as int;
        vstd::arithmetic::div_mod::lemma_fundamental_div_mod(r, n);
        vstd::arithmetic::div_mod::lemma_mod_bound(r, n);
        vstd::arithmetic::div_mod::lemma_div_pos_is_pos(r, n);
        vstd::arithmetic::div_mod::lemma_div_is_ordered_by_denominator(r, 1, n);
        let q = r / n;
        assert(q * n <= r < (q + 1) * n) by (nonlinear_arith)
            requires
                r == n * q + r % n,
                0 <= r % n < n,
        ;
    }
}

/// The sharing threshold is the smallest strict majority of the parties: more than half of
/// them, and one fewer would be at most half.
pub proof fn lemma_threshold_majority(c: JobCoordinator)
    ensures
        2 * c.threshold() > c.party_count,
        2 * (c.threshold() - 1) <= c.party_count,
{
}

/// After a ready signal the sender is among the ready parties, every party ready before
/// still is, nobody else joins, and no party is listed twice that was not before.
pub proof fn lemma_ready_after(c: JobCoordinator, from: u32)
    ensures
        c.ready_after(from).contains(from),
        forall|q: u32| c.ready_parties@.contains(q) ==> #[trigger] c.ready_after(from).contains(q),
        forall|q: u32| #[trigger] c.ready_after(from).contains(q) ==> q == from || c.ready_parties@.contains(q),
        c.ready_after(from).len() == if c.ready_parties@.contains(from) {
            c.ready_parties@.len()
        } else {
            c.ready_parties@.len() + 1
        },
{
    let r = c.ready_parties@;
    if !r.contains(from) {
        assert(r.push(from)[r.len() as int] == from);
        assert forall|q: u32| r.contains(q) implies #[trigger] r.push(from).contains(q) by {
            let i = choose|i: int| 0 <= i < r.len() && r[i] == q;
            assert(r.push(from)[i] == q);
        }
        assert forall|q: u32| #[trigger] r.push(from).contains(q) implies q == from || r.contains(q) by {
            let i = choose|i: int| 0 <= i < r.push(from).len() && r.push(from)[i] == q;
            if i < r.len() {
                assert(r[i] == q);
            }
        }
    }
}

/// The opened shares sum to at most `u64::MAX`, whatever order they are listed in.
pub open spec fn sum_fits(m: Map<u32, u64>) -> bool {
    forall|keys: Seq<u32>|
        #![trigger lists_keys(keys, m)]
        lists_keys(keys, m) ==> sum_by(m, keys, as_count()) <= u64::MAX
}

/// A `u64` as an integer.
pub open spec fn as_count() -> spec_fn(u64) -> int {
    |v: u64| v as int
}

/// The sum of the opened shares.
pub open spec fn opened_sum(m: Map<u32, u64>, r: u64) -> bool {
    forall|keys: Seq<u32>|
        #![trigger lists_keys(keys, m)]
        lists_keys(keys, m) ==> r == sum_by(m, keys, as_count())
}

impl JobCoordinator {
    /// The ready list after a ready signal from `from`.
    pub open spec fn ready_after(self, from: u32) -> Seq<u32> {
        if self.ready_parties@.contains(from) {
            self.ready_parties@
        } else {
            self.ready_parties@.push(from)
        }
    }

    /// A ready signal from `from` completes the set of ready parties while waiting.
    pub open spec fn sharing_starts(self, from: u32) -> bool {
        self.ready_after(from).len() >= self.party_count && self.state
            == CoordinatorState::WaitingForParties
    }

    /// The threshold of the sharing: a majority of the parties.
    pub open spec fn threshold(self) -> nat {
        (self.party_count / 2 + 1) as nat
    }

    /// The shares received after a share `(x, y)` from `from`.
    pub open spec fn received_after(self, from: u32, x: u64, y: u64) -> Map<u32, Share> {
        self.received_shares@.insert(
            from,
            Share { x: FieldElement { value: x % PRIME }, y: FieldElement { value: y % PRIME } },
        )
    }

    /// A share from `from` completes the shares while sharing.
    pub open spec fn computing_starts(self, from: u32, x: u64, y: u64) -> bool {
        self.received_after(from, x, y).len() >= self.party_count && self.state
            == CoordinatorState::SharingInputs
    }

    /// The opened shares after an opened share `value` from `from`.
    pub open spec fn opened_after(self, from: u32, value: u64) -> Map<u32, u64> {
        self.output_shares@.insert(from, value)
    }

    /// An opened share from `from` completes the opened shares while opening.
    pub open spec fn finishing(self, from: u32, value: u64) -> bool {
        self.opened_after(from, value).len() >= self.party_count && self.state
            == CoordinatorState::OpeningOutputs
    }

    /// What a ready signal from `from` needs: the sharing it may start is possible.
    pub open spec fn can_take_ready(self, from: u32) -> bool {
        self.sharing_starts(from) ==> self.party_count >= 2 && self.my_input < PRIME
    }

    /// What a share needs: the computation it may start is possible.
    pub open spec fn can_take_share(self, from: u32, x: u64, y: u64) -> bool {
        self.computing_starts(from, x, y) ==> {
            &&& interpolable(self.received_after(from, x, y))
            &&& self.operation is Average ==> self.party_count > 0
        }
    }

    /// What an opened share needs: the result it may produce fits.
    pub open spec fn can_take_open(self, from: u32, value: u64) -> bool {
        self.finishing(from, value) ==> sum_fits(self.opened_after(from, value))
    }

    /// `c2` and `out` follow from a ready signal from `from`.
    pub open spec fn ready_step(self, from: u32, c2: JobCoordinator, out: Seq<MessageEnvelope>) -> bool {
        &&& c2.ready_parties@ == self.ready_after(from)
        &&& if self.sharing_starts(from) {
            exists|sh: Seq<Share>|
                #![trigger is_sharing(sh, self.my_input, self.threshold(), self.party_count as nat)]
                {
                    &&& is_sharing(sh, self.my_input, self.threshold(), self.party_count as nat)
                    &&& c2 == (JobCoordinator {
                        state: CoordinatorState::SharingInputs,
                        ready_parties: c2.ready_parties,
                        my_shares_sent: c2.my_shares_sent,
                        received_shares: c2.received_shares,
                        ..self
                    })
                    &&& c2.my_shares_sent@ == record_shares(
                        self.my_shares_sent@,
                        sh,
                        self.party_count as nat,
                    )
                    &&& c2.received_shares@ == if 1 <= self.my_party_id <= self.party_count {
                        self.received_shares@.insert(self.my_party_id, sh[self.my_party_id - 1])
                    } else {
                        self.received_shares@
                    }
                    &&& sends(
                        out,
                        self.my_party_id,
                        share_messages(self.job_id, self.my_party_id, sh, self.party_count as nat),
                    )
                }
        } else {
            &&& c2 == (JobCoordinator { ready_parties: c2.ready_parties, ..self })
            &&& out.len() == 0
        }
    }

    /// `c2` and `out` follow from a share `(x, y)` from `from`.
    pub open spec fn share_step(
        self,
        from: u32,
        x: u64,
        y: u64,
        c2: JobCoordinator,
        out: Seq<MessageEnvelope>,
    ) -> bool {
        &&& c2.received_shares@ == self.received_after(from, x, y)
        &&& if self.computing_starts(from, x, y) {
            exists|keys: Seq<u32>|
                #![trigger shares_in(self.received_after(from, x, y), keys)]
                {
                    let m = self.received_after(from, x, y);
                    let reconstructed = lagrange_sum(shares_in(m, keys), m.len()) as u64;
                    let share = output_share(self.operation, reconstructed, self.party_count);
                    &&& lists_keys(keys, m)
                    &&& c2 == (JobCoordinator {
                        state: CoordinatorState::OpeningOutputs,
                        received_shares: c2.received_shares,
                        output_shares: c2.output_shares,
                        ..self
                    })
                    &&& c2.output_shares@ == self.output_shares@.insert(self.my_party_id, share)
                    &&& sends(
                        out,
                        self.my_party_id,
                        seq![
                            (
                                BROADCAST,
                                Message::OpenShare {
                                    job_id: self.job_id,
                                    from_party: self.my_party_id,
                                    share_value: share,
                                    mac_tag: 0,
                                },
                            ),
                        ],
                    )
                }
        } else {
            &&& c2 == (JobCoordinator { received_shares: c2.received_shares, ..self })
            &&& out.len() == 0
        }
    }

    /// `c2` and `res` follow from an opened share `value` from `from`.
    pub open spec fn open_step(
        self,
        from: u32,
        value: u64,
        c2: JobCoordinator,
        res: Option<ComputationResult>,
    ) -> bool {
        &&& c2.output_shares@ == self.opened_after(from, value)
        &&& if self.finishing(from, value) {
            &&& c2 == (JobCoordinator {
                state: CoordinatorState::Done,
                output_shares: c2.output_shares,
                ..self
            })
            &&& res is Some
            &&& res->Some_0.job_id == self.job_id
            &&& opened_sum(c2.output_shares@, res->Some_0.result)
            &&& res->Some_0.operation == self.operation
            &&& res->Some_0.party_count == self.party_count
            &&& res->Some_0.success
        } else {
            &&& c2 == (JobCoordinator { output_shares: c2.output_shares, ..self })
            &&& res is None
        }
    }

    /// What a message needs to be handled.
    pub open spec fn can_take(self, msg: Message) -> bool {
        match msg {
            Message::JobReady { from_party, .. } => self.can_take_ready(from_party),
            Message::ShareMsg { from_party, share_x, share_y, .. } => self.can_take_share(
                from_party,
                share_x,
                share_y,
            ),
            Message::OpenShare { from_party, share_value, .. } => self.can_take_open(
                from_party,
                share_value,
            ),
            _ => true,
        }
    }

    /// A coordinator for `job_id` at party `my_party_id` with a fresh random MAC key,
    /// idle, with nothing sent or received.
    pub fn new(
        job_id: String,
        my_party_id: u32,
        party_count: u32,
        operation: Operation,
        my_input: u64,
    ) -> (r: JobCoordinator)
        ensures
            r.job_id == job_id,
            r.my_party_id == my_party_id,
            r.party_count == party_count,
            r.operation == operation,
            r.my_input == my_input,
            r.state == CoordinatorState::Idle,
            r.my_shares_sent@ == Map::<u32, Share>::empty(),
            r.received_shares@ == Map::<u32, Share>::empty(),
            r.output_shares@ == Map::<u32, u64>::empty(),
            r.ready_parties@.len() == 0,
            r.outgoing@.len() == 0,
    {
        JobCoordinator {
            job_id,
            my_party_id,
            party_count,
            operation,
            my_input,
            state: CoordinatorState::Idle,
            mac_key: MacKey::generate(),
            my_shares_sent: HashMap::new(),
            received_shares: HashMap::new(),
            output_shares: HashMap::new(),
            ready_parties: Vec::new(),
            outgoing: Vec::new(),
        }
    }

    /// Announces the job to all parties and signals this party ready.
    pub fn start(&mut self) -> (r: Vec<MessageEnvelope>)
        ensures
            *final(self) == (JobCoordinator {
                state: CoordinatorState::WaitingForParties,
                ready_parties: final(self).ready_parties,
                ..*old(self)
            }),
            final(self).ready_parties@ == old(self).ready_parties@.push(old(self).my_party_id),
            sends(
                r@,
                old(self).my_party_id,
                seq![
                    (
                        BROADCAST,
                        Message::JobAnnounce {
                            job_id: old(self).job_id,
                            party_count: old(self).party_count,
                            operation: old(self).operation,
                        },
                    ),
                    (
                        BROADCAST,
                        Message::JobReady { job_id: old(self).job_id, from_party: old(self).my_party_id },
                    ),
                ],
            ),
    {
        self.state = CoordinatorState::WaitingForParties;
        let mut messages: Vec<MessageEnvelope> = Vec::new();
        let announce = Message::JobAnnounce {
            job_id: self.job_id.clone(),
            party_count: self.party_count,
            operation: self.operation.clone(),
        };
        messages.push(MessageEnvelope::new(self.my_party_id, BROADCAST, announce));
        let ready = Message::JobReady { job_id: self.job_id.clone(), from_party: self.my_party_id };
        messages.push(MessageEnvelope::new(self.my_party_id, BROADCAST, ready));
        self.ready_parties.push(self.my_party_id);
        messages
    }

    /// Records a ready signal; once every party is ready while waiting, shares this
    /// party's input and returns the share messages.
    pub fn handle_job_ready(&mut self, from_party: u32) -> (r: Vec<MessageEnvelope>)
        requires
            old(self).can_take_ready(from_party),
        ensures
            old(self).ready_step(from_party, *final(self), r@),
    {
        let ghost before = *self;
        if !contains_party(&self.ready_parties, from_party) {
            self.ready_parties.push(from_party);
        }
        if self.ready_parties.len() >= self.party_count as usize && self.state
            == CoordinatorState::WaitingForParties {
            self.state = CoordinatorState::SharingInputs;
            return self.share_input(Ghost(before));
        }
        Vec::new()
    }

    /// Splits this party's input with a majority threshold and sends share `i` to party
    /// `i`, keeping its own.
    fn share_input(&mut self, Ghost(before): Ghost<JobCoordinator>) -> (r: Vec<MessageEnvelope>)
        requires
            *old(self) == (JobCoordinator {
                state: CoordinatorState::SharingInputs,
                ready_parties: old(self).ready_parties,
                ..before
            }),
            before.party_count >= 2,
            before.my_input < PRIME,
        ensures
            exists|sh: Seq<Share>|
                #![trigger is_sharing(sh, before.my_input, before.threshold(), before.party_count as nat)]
                {
                    &&& is_sharing(sh, before.my_input, before.threshold(), before.party_count as nat)
                    &&& *final(self) == (JobCoordinator {
                        my_shares_sent: final(self).my_shares_sent,
                        received_shares: final(self).received_shares,
                        ..*old(self)
                    })
                    &&& final(self).my_shares_sent@ == record_shares(
                        before.my_shares_sent@,
                        sh,
                        before.party_count as nat,
                    )
                    &&& final(self).received_shares@ == if 1 <= before.my_party_id
                        <= before.party_count {
                        before.received_shares@.insert(before.my_party_id, sh[before.my_party_id - 1])
                    } else {
                        before.received_shares@
                    }
                    &&& sends(
                        r@,
                        before.my_party_id,
                        share_messages(before.job_id, before.my_party_id, sh, before.party_count as nat),
                    )
                },
    {
        let threshold = (self.party_count / 2 + 1) as usize;
        let n = self.party_count as usize;
        let shares = split(self.my_input, threshold, n);
        let ghost sh = shares@;
        proof {
            assert(is_sharing(sh, before.my_input, before.threshold(), before.party_count as nat));
        }
        let me = self.my_party_id;
        let mut messages: Vec<MessageEnvelope> = Vec::new();
        let mut i: usize = 0;
        while i < n
            invariant
                *old(self) == (JobCoordinator {
                    state: CoordinatorState::SharingInputs,
                    ready_parties: old(self).ready_parties,
                    ..before
                }),
                n == before.party_count,
                n <= u32::MAX,
                shares@ == sh,
                sh.len() == n,
                me == before.my_party_id,
                i <= n,
                *self == (JobCoordinator {
                    my_shares_sent: self.my_shares_sent,
                    received_shares: self.received_shares,
                    ..*old(self)
                }),
                self.my_shares_sent@ == record_shares(before.my_shares_sent@, sh, i as nat),
                self.received_shares@ == if 1 <= me <= i {
                    before.received_shares@.insert(me, sh[me - 1])
                } else {
                    before.received_shares@
                },
                sends(messages@, me, share_messages(before.job_id, me, sh, i as nat)),
            decreases n - i,
        {
            let share = shares[i];
            let target_party = (i + 1) as u32;
            let ghost prev_msgs = messages@;
            self.my_shares_sent.insert(target_party, share);
            if target_party == me {
                self.received_shares.insert(me, share);
            } else {
                let msg = Message::ShareMsg {
                    job_id: self.job_id.clone(),
                    from_party: me,
                    to_party: target_party,
                    share_x: share.x.value,
                    share_y: share.y.value,
                    mac_tag: 0,
                };
                let env = MessageEnvelope::new(me, target_party, msg);
                messages.push(env);
                proof {
                    assert(messages@ == prev_msgs.push(env));
                }
            }
            proof {
                let prev = share_messages(before.job_id, me, sh, i as nat);
                let msgs = share_messages(before.job_id, me, sh, (i + 1) as nat);
                if target_party != me {
                    assert(msgs == prev.push(
                        (
                            target_party,
                            Message::ShareMsg {
                                job_id: before.job_id,
                                from_party: me,
                                to_party: target_party,
                                share_x: sh[i as int].x.value,
                                share_y: sh[i as int].y.value,
                                mac_tag: 0,
                            },
                        ),
                    ));
                    assert forall|j: int| 0 <= j < messages@.len() implies (#[trigger] messages@[j]).from
                        == me && messages@[j].to == msgs[j].0 && messages@[j].payload == msgs[j].1 by {
                        if j < prev_msgs.len() {
                            assert(messages@[j] == prev_msgs[j]);
                        }
                    }
                }
                assert(sends(messages@, me, msgs));
                assert(self.my_shares_sent@ =~= record_shares(before.my_shares_sent@, sh, (i + 1) as nat));
            }
            i = i + 1;
        }
        messages
    }

    /// Records a share sent to this party; once shares from every party are in while
    /// sharing, computes and returns the message opening this party's output share.
    pub fn handle_share(&mut self, from_party: u32, share_x: u64, share_y: u64, _mac_tag: u64) -> (r:
        Vec<MessageEnvelope>)
        requires
            old(self).can_take_share(from_party, share_x, share_y),
        ensures
            old(self).share_step(from_party, share_x, share_y, *final(self), r@),
    {
        let share = Share { x: FieldElement::new(share_x), y: FieldElement::new(share_y) };
        self.received_shares.insert(from_party, share);
        if self.received_shares.len() >= self.party_count as usize && self.state
            == CoordinatorState::SharingInputs {
            self.state = CoordinatorState::Computing;
            return self.compute();
        }
        Vec::new()
    }

    /// Interpolates the received shares at zero, keeps the output share and returns the
    /// message opening it.
    fn compute(&mut self) -> (r: Vec<MessageEnvelope>)
        requires
            interpolable(old(self).received_shares@),
            old(self).operation is Average ==> old(self).party_count > 0,
        ensures
            exists|keys: Seq<u32>|
                #![trigger shares_in(old(self).received_shares@, keys)]
                {
                    let m = old(self).received_shares@;
                    let reconstructed = lagrange_sum(shares_in(m, keys), m.len()) as u64;
                    let share = output_share(old(self).operation, reconstructed, old(self).party_count);
                    &&& lists_keys(keys, m)
                    &&& *final(self) == (JobCoordinator {
                        state: CoordinatorState::OpeningOutputs,
                        output_shares: final(self).output_shares,
                        ..*old(self)
                    })
                    &&& final(self).output_shares@ == old(self).output_shares@.insert(
                        old(self).my_party_id,
                        share,
                    )
                    &&& sends(
                        r@,
                        old(self).my_party_id,
                        seq![
                            (
                                BROADCAST,
                                Message::OpenShare {
                                    job_id: old(self).job_id,
                                    from_party: old(self).my_party_id,
                                    share_value: share,
                                    mac_tag: 0,
                                },
                            ),
                        ],
                    )
                },
    {
        let keys = keys_of(&self.received_shares);
        let ghost m = self.received_shares@;
        let mut shares: Vec<Share> = Vec::new();
        let mut i: usize = 0;
        while i < keys.len()
            invariant
                m == self.received_shares@,
                lists_keys(keys@, m),
                i <= keys@.len(),
                shares@ == shares_in(m, keys@.take(i as int)),
            decreases keys@.len() - i,
        {
            let k = keys[i];
            proof {
                assert(keys@.to_set().contains(k));
            }
            let s = *self.received_shares.get(&k).unwrap();
            shares.push(s);
            proof {
                assert(shares@ =~= shares_in(m, keys@.take(i as int + 1)));
            }
            i = i + 1;
        }
        proof {
            assert(keys@.take(keys@.len() as int) =~= keys@);
            assert(shares_in(m, keys@).len() == keys@.len());
            keys@.unique_seq_to_set();
            assert(shares@.len() == m.len());
            assert forall|j: int| 0 <= j < shares@.len() implies #[trigger] shares@[j].x.value <= PRIME by {
                assert(keys@.to_set().contains(keys@[j]));
            }
        }
        let reconstructed = reconstruct(shares.as_slice());
        let my_output_share = match self.operation {
            Operation::Average => reconstructed / (self.party_count as u64),
            _ => reconstructed,
        };
        self.output_shares.insert(self.my_party_id, my_output_share);
        self.state = CoordinatorState::OpeningOutputs;
        let open = Message::OpenShare {
            job_id: self.job_id.clone(),
            from_party: self.my_party_id,
            share_value: my_output_share,
            mac_tag: 0,
        };
        let mut out: Vec<MessageEnvelope> = Vec::new();
        out.push(MessageEnvelope::new(self.my_party_id, BROADCAST, open));
        out
    }

    /// Records an opened output share; once every party's is in while opening, returns the
    /// result.
    pub fn handle_open_share(&mut self, from_party: u32, share_value: u64) -> (r: Option<
        ComputationResult,
    >)
        requires
            old(self).can_take_open(from_party, share_value),
        ensures
            old(self).open_step(from_party, share_value, *final(self), r),
    {
        self.output_shares.insert(from_party, share_value);
        if self.output_shares.len() >= self.party_count as usize && self.state
            == CoordinatorState::OpeningOutputs {
            return self.finalize();
        }
        None
    }

    /// The sum of the opened shares as the result.
    fn finalize(&mut self) -> (r: Option<ComputationResult>)
        requires
            sum_fits(old(self).output_shares@),
        ensures
            *final(self) == (JobCoordinator { state: CoordinatorState::Done, ..*old(self) }),
            r is Some,
            r->Some_0.job_id == old(self).job_id,
            opened_sum(old(self).output_shares@, r->Some_0.result),
            r->Some_0.operation == old(self).operation,
            r->Some_0.party_count == old(self).party_count,
            r->Some_0.success,
    {
        self.state = CoordinatorState::Done;
        let keys = keys_of(&self.output_shares);
        let ghost m = self.output_shares@;
        let ghost f = as_count();
        proof {
            assert(lists_keys(keys@, m));
        }
        let mut result: u64 = 0;
        let mut i: usize = 0;
        while i < keys.len()
            invariant
                m == self.output_shares@,
                f == as_count(),
                lists_keys(keys@, m),
                sum_by(m, keys@, f) <= u64::MAX,
                i <= keys@.len(),
                result == sum_by(m, keys@.take(i as int), f),
            decreases keys@.len() - i,
        {
            let k = keys[i];
            proof {
                assert(keys@.to_set().contains(k));
                lemma_sum_prefix(m, keys@, i as int + 1, f);
            }
            result = result + *self.output_shares.get(&k).unwrap();
            i = i + 1;
        }
        proof {
            assert(keys@.take(keys@.len() as int) =~= keys@);
            assert forall|ks: Seq<u32>| #[trigger] lists_keys(ks, m) implies result == sum_by(m, ks, f) by {
                lemma_sum_any_order(m, keys@, ks, f);
            }
        }
        Some(
            ComputationResult {
                job_id: self.job_id.clone(),
                result,
                operation: self.operation.clone(),
                party_count: self.party_count,
                success: true,
            },
        )
    }

    /// Routes a message to its handler: ready signals, shares, opened shares; an abort
    /// fails the job; anything else is ignored.
    pub fn handle_message(&mut self, envelope: MessageEnvelope) -> (r: (
        Vec<MessageEnvelope>,
        Option<ComputationResult>,
    ))
        requires
            old(self).can_take(envelope.payload),
        ensures
            match envelope.payload {
                Message::JobReady { from_party, .. } => old(self).ready_step(
                    from_party,
                    *final(self),
                    r.0@,
                ) && r.1 is None,
                Message::ShareMsg { from_party, share_x, share_y, .. } => old(self).share_step(
                    from_party,
                    share_x,
                    share_y,
                    *final(self),
                    r.0@,
                ) && r.1 is None,
                Message::OpenShare { from_party, share_value, .. } => old(self).open_step(
                    from_party,
                    share_value,
                    *final(self),
                    r.1,
                ) && r.0@.len() == 0,
                Message::Abort { reason, .. } => *final(self) == (JobCoordinator {
                    state: CoordinatorState::Failed(reason),
                    ..*old(self)
                }) && r.0@.len() == 0 && r.1 is None,
                _ => *final(self) == *old(self) && r.0@.len() == 0 && r.1 is None,
            },
    {
        let mut outgoing: Vec<MessageEnvelope> = Vec::new();
        let mut result: Option<ComputationResult> = None;
        match &envelope.payload {
            Message::JobReady { from_party, .. } => {
                outgoing = self.handle_job_ready(*from_party);
            },
            Message::ShareMsg { from_party, share_x, share_y, mac_tag, .. } => {
                outgoing = self.handle_share(*from_party, *share_x, *share_y, *mac_tag);
            },
            Message::OpenShare { from_party, share_value, .. } => {
                result = self.handle_open_share(*from_party, *share_value);
            },
            Message::Abort { reason, .. } => {
                self.state = CoordinatorState::Failed(reason.clone());
            },
            _ => {},
        }
        (outgoing, result)
    }

    /// Whether the job is over, done or failed.
    pub fn is_done(&self) -> (r: bool)
        ensures
            r == (self.state is Done || self.state is Failed),
    {
        match self.state {
            CoordinatorState::Done => true,
            CoordinatorState::Failed(_) => true,
            _ => false,
        }
    }
}

} // verus!
