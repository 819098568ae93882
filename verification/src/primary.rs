use vstd::prelude::*;
use crate::batch::{tids_unique, Batch, Certificate};
use crate::codec::{deserialize_batch, deserialize_certificate, spec_items_view, spec_parse_batch, spec_parse_certificate};
use crate::assign::{assign_to_worker, spec_assign};
use crate::errors::Error;
use crate::gateway::{Event, Gateway, Outbound};
use crate::shared::{spec_cert_lookup, spec_lookup, Shared};
use crate::signature::{spec_address_of, spec_sign, Signature};
use crate::transmission::{Transmission, TransmissionId, TransmissionView};
use crate::worker::{buffer_contains, Worker};

verus! {

/// Upper bound on mempool shards: a worker's identifier must fit in eight
/// bits.
pub const MAX_WORKERS: u8 = u8::MAX;

/// The outstanding locally-authored batch, with the signatures collected on
/// it so far.
#[derive(Debug)]
pub struct Proposal {
    pub batch: Batch,
    pub signatures: Vec<Signature>,
}

impl Proposal {
    /// Every collected signature verifies over this proposal's batch
    /// identifier under its signer's address, and no two signatures share
    /// a signer.
    pub open spec fn wf(self) -> bool {
        &&& forall|i: int|
            0 <= i < self.signatures@.len() ==> (#[trigger] self.signatures@[i]).spec_verify(
                self.signatures@[i].signer,
                self.batch.batch_id,
            )
        &&& forall|i: int, j: int|
            0 <= i < j < self.signatures@.len() ==> (#[trigger] self.signatures@[i]).signer != (
            #[trigger] self.signatures@[j]).signer
    }
}

/// Inserts one drained item into the merged map: a new identifier is
/// appended, a repeated identifier replaces the payload in place, so the
/// worker drained last wins.
pub open spec fn upsert(
    acc: Seq<(TransmissionId, TransmissionView)>,
    id: TransmissionId,
    tv: TransmissionView,
) -> Seq<(TransmissionId, TransmissionView)> {
    if !buffer_contains(acc, id) {
        acc.push((id, tv))
    } else {
        acc.update(choose|i: int| 0 <= i < acc.len() && (#[trigger] acc[i]).0 == id, (id, tv))
    }
}

/// Merges one worker's drained items into the accumulator, in buffer order.
pub open spec fn union_step(
    acc: Seq<(TransmissionId, TransmissionView)>,
    items: Seq<(TransmissionId, TransmissionView)>,
) -> Seq<(TransmissionId, TransmissionView)>
    decreases items.len(),
{
    if items.len() == 0 {
        acc
    } else {
        union_step(upsert(acc, items[0].0, items[0].1), items.drop_first())
    }
}

/// Merges the workers' buffers one after the other, by ascending worker
/// identifier, into the accumulator.
pub open spec fn union_from(
    acc: Seq<(TransmissionId, TransmissionView)>,
    buffers: Seq<Seq<(TransmissionId, TransmissionView)>>,
) -> Seq<(TransmissionId, TransmissionView)>
    decreases buffers.len(),
{
    if buffers.len() == 0 {
        acc
    } else {
        union_from(union_step(acc, buffers[0]), buffers.drop_first())
    }
}

/// What one round's proposal carries: the union of all workers' buffers,
/// where on a repeated identifier the highest worker identifier wins.
pub open spec fn drained_union(
    buffers: Seq<Seq<(TransmissionId, TransmissionView)>>,
) -> Seq<(TransmissionId, TransmissionView)> {
    union_from(Seq::empty(), buffers)
}

/// Inserts one item into the merged buffer, replacing the payload in place
/// when the identifier is already present.
#[verifier::loop_isolation(false)]
fn upsert_item(acc: &mut Vec<(TransmissionId, Transmission)>, id: TransmissionId, t: Transmission)
    requires
        tids_unique(spec_items_view(old(acc)@)),
    ensures
        spec_items_view(final(acc)@) == upsert(spec_items_view(old(acc)@), id, t@),
        tids_unique(spec_items_view(final(acc)@)),
{
    let ghost pre = spec_items_view(acc@);
    let mut i: usize = 0;
    while i < acc.len()
        invariant
            i <= acc@.len(),
            pre == spec_items_view(acc@),
            tids_unique(pre),
            forall|k: int| 0 <= k < i ==> (#[trigger] pre[k]).0 != id,
        decreases acc@.len() - i,
    {
        if acc[i].0 == id {
            proof {
                assert(pre[i as int].0 == id);
                let w = choose|k: int| 0 <= k < pre.len() && (#[trigger] pre[k]).0 == id;
                assert(w == i as int);
            }
            acc.set(i, (id, t));
            proof {
                assert(buffer_contains(pre, id));
                assert(spec_items_view(acc@) =~= pre.update(i as int, (id, t@)));
                assert(upsert(pre, id, t@) == pre.update(i as int, (id, t@)));
                assert forall|a: int, b: int|
                    0 <= a < b < spec_items_view(acc@).len() implies (#[trigger] spec_items_view(
                    acc@,
                )[a]).0 != (#[trigger] spec_items_view(acc@)[b]).0 by {
                    assert(spec_items_view(acc@)[a].0 == pre[a].0);
                    assert(spec_items_view(acc@)[b].0 == pre[b].0);
                }
            }
            return ;
        }
        i = i + 1;
    }
    proof {
        assert(!buffer_contains(pre, id));
    }
    acc.push((id, t));
    proof {
        assert(spec_items_view(acc@) =~= pre.push((id, t@)));
        assert forall|a: int, b: int|
            0 <= a < b < spec_items_view(acc@).len() implies (#[trigger] spec_items_view(
            acc@,
        )[a]).0 != (#[trigger] spec_items_view(acc@)[b]).0 by {
            if b == spec_items_view(acc@).len() - 1 {
                assert(pre[a] == spec_items_view(acc@)[a]);
            } else {
                assert(pre[a] == spec_items_view(acc@)[a]);
                assert(pre[b] == spec_items_view(acc@)[b]);
            }
        }
    }
}

/// Copies a list of certificate identifiers.
fn copy_ids(ids: &Vec<u64>) -> (r: Vec<u64>)
    ensures
        r@ == ids@,
{
    let mut out: Vec<u64> = Vec::new();
    let mut i: usize = 0;
    while i < ids.len()
        invariant
            i <= ids@.len(),
            out@ == ids@.take(i as int),
        decreases ids@.len() - i,
    {
        out.push(ids[i]);
        proof {
            assert(out@ =~= ids@.take(i + 1));
        }
        i = i + 1;
    }
    proof {
        assert(ids@.take(ids@.len() as int) =~= ids@);
    }
    out
}

impl Batch {
    /// Rebuilds the batch value field for field; used where the batch must
    /// live both in the proposal cell and on the wire.
    pub fn duplicate(&self) -> (r: Batch)
        ensures
            r@ == self@,
            r.author == self.author,
            r.round == self.round,
            r.timestamp == self.timestamp,
            r.batch_id == self.batch_id,
            r.author_signature == self.author_signature,
    {
        let mut transmissions: Vec<(TransmissionId, Transmission)> = Vec::new();
        let mut i: usize = 0;
        while i < self.transmissions.len()
            invariant
                i <= self.transmissions@.len(),
                spec_items_view(transmissions@) == spec_items_view(self.transmissions@).take(
                    i as int,
                ),
            decreases self.transmissions@.len() - i,
        {
            let id = self.transmissions[i].0;
            let t = self.transmissions[i].1.duplicate();
            let ghost pre = spec_items_view(transmissions@);
            let ghost sv = spec_items_view(self.transmissions@);
            transmissions.push((id, t));
            proof {
                assert(spec_items_view(transmissions@) =~= pre.push((id, t@)));
                assert(sv[i as int] == (self.transmissions@[i as int].0, self.transmissions@[i as int].1@));
                assert(sv.take(i + 1) =~= sv.take(i as int).push(sv[i as int]));
            }
            i = i + 1;
        }
        proof {
            assert(spec_items_view(self.transmissions@).take(self.transmissions@.len() as int)
                =~= spec_items_view(self.transmissions@));
        }
        let previous_certificate_ids = copy_ids(&self.previous_certificate_ids);
        Batch {
            author: self.author,
            round: self.round,
            timestamp: self.timestamp,
            transmissions,
            previous_certificate_ids,
            batch_id: self.batch_id,
            author_signature: self.author_signature,
        }
    }
}

/// The per-validator coordinator of the mempool: it shards unconfirmed
/// transmissions over the workers, proposes batches, collects signatures,
/// and seals batches into certificates. Decisions live here as plain
/// functions of the state; the runtime owns the clock, the channels and
/// the transport, and calls in.
#[derive(Debug)]
pub struct Primary {
    pub shared: Shared,
    pub gateway: Gateway,
    pub workers: Vec<Worker>,
    pub proposed_batch: Option<Proposal>,
    pub quorum_threshold: usize,
    pub batch_expiration: u64,
    pub running: bool,
    pub handlers_live: bool,
}

impl Primary {
    /// Worker identifiers are exactly the prefix of shard numbers, every
    /// worker's buffer is well formed, the proposal cell holds at most one
    /// batch and only one this primary authored, with valid and
    /// signer-distinct signatures, and sealing needs at least one
    /// signature.
    pub open spec fn wf(self) -> bool {
        &&& self.workers@.len() <= MAX_WORKERS as int
        &&& forall|i: int|
            0 <= i < self.workers@.len() ==> (#[trigger] self.workers@[i]).id == i
                && self.workers@[i].wf()
        &&& match self.proposed_batch {
            Option::Some(p) => p.wf() && p.batch.author == spec_address_of(
                self.gateway.private_key,
            ),
            Option::None => true,
        }
        &&& self.quorum_threshold >= 1
    }

    /// Creates an idle primary around the shared registry and the local
    /// account. The quorum threshold and the proposal expiration are the
    /// runtime's configuration knobs.
    pub fn new(shared: Shared, private_key: u64, quorum_threshold: usize, batch_expiration: u64) -> (
        r: Primary)
        requires
            quorum_threshold >= 1,
        ensures
            r.wf(),
            r.shared == shared,
            r.gateway.private_key == private_key,
            !r.gateway.running,
            r.gateway.outbox@.len() == 0,
            r.workers@.len() == 0,
            r.proposed_batch is None,
            r.quorum_threshold == quorum_threshold,
            r.batch_expiration == batch_expiration,
            !r.running,
            !r.handlers_live,
    {
        Primary {
            shared,
            gateway: Gateway::new(private_key),
            workers: Vec::new(),
            proposed_batch: None,
            quorum_threshold,
            batch_expiration,
            running: false,
            handlers_live: false,
        }
    }

    /// The gateway.
    pub fn gateway(&self) -> (r: &Gateway)
        ensures
            r == self.gateway,
    {
        &self.gateway
    }

    /// The number of workers.
    pub fn num_workers(&self) -> (r: u8)
        requires
            self.wf(),
        ensures
            r as int == self.workers@.len(),
    {
        self.workers.len() as u8
    }

    /// Starts the primary: publishes the ingress channels, spawns the
    /// workers with fresh identifiers counting up from zero, starts the
    /// gateway, and marks the handler tasks live.
    pub fn run(&mut self, num_workers: u8)
        requires
            old(self).wf(),
            old(self).workers@.len() == 0,
            !old(self).running,
        ensures
            final(self).wf(),
            final(self).workers@.len() == num_workers as int,
            forall|i: int|
                0 <= i < num_workers as int ==> (#[trigger] final(self).workers@[i]).id == i
                    && final(self).workers@[i].accepting && final(self).workers@[i].contents()
                    == Seq::<(TransmissionId, TransmissionView)>::empty(),
            final(self).shared == (
            Shared { primary_sender_set: true, ..old(self).shared }),
            final(self).gateway == (Gateway { running: true, ..old(self).gateway }),
            final(self).proposed_batch == old(self).proposed_batch,
            final(self).quorum_threshold == old(self).quorum_threshold,
            final(self).batch_expiration == old(self).batch_expiration,
            final(self).running,
            final(self).handlers_live,
    {
        self.shared.set_primary_sender();
        let mut id: u8 = 0;
        while id < num_workers
            invariant
                id <= num_workers,
                self.workers@.len() == id as int,
                forall|i: int|
                    0 <= i < id as int ==> (#[trigger] self.workers@[i]).id == i
                        && self.workers@[i].accepting && self.workers@[i].contents() == Seq::<
                    (TransmissionId, TransmissionView),
                    >::empty() && self.workers@[i].wf(),
                self.shared == (Shared { primary_sender_set: true, ..old(self).shared }),
                self.gateway == old(self).gateway,
                self.proposed_batch == old(self).proposed_batch,
                self.quorum_threshold == old(self).quorum_threshold,
                self.batch_expiration == old(self).batch_expiration,
                self.running == old(self).running,
                self.handlers_live == old(self).handlers_live,
            decreases num_workers - id,
        {
            self.workers.push(Worker::new(id));
            id = id + 1;
        }
        self.gateway.run();
        self.running = true;
        self.handlers_live = true;
    }

    /// Stops every worker, aborts the handler tasks, and closes the
    /// gateway. Safe after partial startup and idempotent: a second call
    /// changes nothing.
    pub fn shut_down(&mut self)
        ensures
            final(self).quiescent(),
            final(self).shared == old(self).shared,
            final(self).gateway == (Gateway { running: false, ..old(self).gateway }),
            final(self).proposed_batch == old(self).proposed_batch,
            final(self).quorum_threshold == old(self).quorum_threshold,
            final(self).batch_expiration == old(self).batch_expiration,
            final(self).running == old(self).running,
            final(self).workers@.len() == old(self).workers@.len(),
            forall|i: int|
                0 <= i < old(self).workers@.len() ==> (#[trigger] final(self).workers@[i]) == (
                Worker { accepting: false, ..old(self).workers@[i] }),
            old(self).wf() ==> final(self).wf(),
            old(self).quiescent() ==> final(self).workers@ == old(self).workers@,
            final(self).handlers_live == false,
    {
        let mut i: usize = 0;
        while i < self.workers.len()
            invariant
                i <= self.workers@.len(),
                self.workers@.len() == old(self).workers@.len(),
                forall|k: int|
                    0 <= k < i ==> (#[trigger] self.workers@[k]) == (
                    Worker { accepting: false, ..old(self).workers@[k] }),
                forall|k: int|
                    i <= k < self.workers@.len() ==> (#[trigger] self.workers@[k]) == old(self).workers@[k],
                self.shared == old(self).shared,
                self.gateway == old(self).gateway,
                self.proposed_batch == old(self).proposed_batch,
                self.quorum_threshold == old(self).quorum_threshold,
                self.batch_expiration == old(self).batch_expiration,
                self.running == old(self).running,
                self.handlers_live == old(self).handlers_live,
            decreases self.workers@.len() - i,
        {
            let ghost ws = self.workers@;
            let mut w = self.workers.remove(i);
            w.shut_down();
            self.workers.insert(i, w);
            proof {
                assert(self.workers@ =~= ws.update(
                    i as int,
                    Worker { accepting: false, ..old(self).workers@[i as int] },
                ));
            }
            i = i + 1;
        }
        self.handlers_live = false;
        self.gateway.shut_down();
        proof {
            if old(self).quiescent() {
                assert(self.workers@ =~= old(self).workers@);
            }
        }
    }

    /// After shutdown: no worker accepts work, no handler task is
    /// runnable, and the gateway is closed.
    pub open spec fn quiescent(self) -> bool {
        &&& forall|i: int| 0 <= i < self.workers@.len() ==> !(#[trigger] self.workers@[i]).accepting
        &&& !self.handlers_live
        &&& !self.gateway.running
    }
}


/// What one pass of the sealer did.
#[derive(Clone, Copy, Debug, PartialEq, Eq, Structural)]
pub enum SealerAction {
    /// No proposal is outstanding.
    Idle,
    /// A proposal is outstanding but has neither a quorum nor expired.
    Waiting,
    /// The proposal expired and was discarded.
    Expired,
    /// The proposal reached its quorum and was sealed.
    Sealed,
}

/// How an inbound batch signature was handled.
#[derive(Clone, Copy, Debug, PartialEq, Eq, Structural)]
pub enum SignatureOutcome {
    /// The signature was appended to the outstanding proposal.
    Added,
    /// No outstanding proposal carries this batch identifier.
    UnknownBatch,
    /// The sending peer is not in the directory.
    UnknownPeer,
    /// The signer is not a committee member.
    NotCommittee,
    /// The signature does not verify.
    InvalidSignature,
    /// This signer already signed the outstanding proposal.
    Duplicate,
}

/// Copies a list of signatures.
fn copy_sigs(sigs: &Vec<Signature>) -> (r: Vec<Signature>)
    ensures
        r@ == sigs@,
{
    let mut out: Vec<Signature> = Vec::new();
    let mut i: usize = 0;
    while i < sigs.len()
        invariant
            i <= sigs@.len(),
            out@ == sigs@.take(i as int),
        decreases sigs@.len() - i,
    {
        out.push(sigs[i]);
        proof {
            assert(out@ =~= sigs@.take(i + 1));
        }
        i = i + 1;
    }
    proof {
        assert(sigs@.take(sigs@.len() as int) =~= sigs@);
    }
    out
}

/// The buffers of a primary's workers, by ascending worker identifier.
pub open spec fn worker_buffers(p: Primary) -> Seq<Seq<(TransmissionId, TransmissionView)>> {
    Seq::new(p.workers@.len() as nat, |i: int| p.workers@[i].contents())
}

/// The parents a new proposal refers to: the certificates recorded for the
/// current round, or none when the round has none yet.
pub open spec fn spec_parents(p: Primary) -> Seq<u64> {
    match spec_cert_lookup(p.shared.certificates@, p.shared.round) {
        Option::Some(ids) => ids,
        Option::None => Seq::empty(),
    }
}

/// Relates a primary's state before and after proposing a batch: all
/// workers are drained into the proposal, the cell holds the freshly
/// signed batch with no signatures yet, and the batch went out as a
/// broadcast.
pub open spec fn proposes(pre: Primary, post: Primary, timestamp: u64) -> bool {
    &&& post.workers@.len() == pre.workers@.len()
    &&& forall|i: int|
        0 <= i < pre.workers@.len() ==> (#[trigger] post.workers@[i]).id == pre.workers@[i].id
            && post.workers@[i].accepting == pre.workers@[i].accepting && post.workers@[i].contents()
            == Seq::<(TransmissionId, TransmissionView)>::empty()
    &&& post.proposed_batch is Some
    &&& {
        let p = post.proposed_batch.unwrap();
        &&& p.batch@.wf()
        &&& p.batch.author == spec_address_of(pre.gateway.private_key)
        &&& p.batch.round == pre.shared.round
        &&& p.batch.timestamp == timestamp
        &&& p.batch@.transmissions == drained_union(worker_buffers(pre))
        &&& p.batch.previous_certificate_ids@ == spec_parents(pre)
        &&& p.signatures@.len() == 0
    }
    &&& post.gateway.outbox@.len() == pre.gateway.outbox@.len() + 1
    &&& post.gateway.outbox@.drop_last() == pre.gateway.outbox@
    &&& post.gateway.outbox@.last().destination is None
    &&& post.gateway.outbox@.last().event is BatchPropose
    &&& (post.gateway.outbox@.last().event->BatchPropose_0)@ == post.proposed_batch.unwrap().batch@
    &&& post.shared == pre.shared
    &&& post.gateway.private_key == pre.gateway.private_key
    &&& post.gateway.running == pre.gateway.running
    &&& post.quorum_threshold == pre.quorum_threshold
    &&& post.batch_expiration == pre.batch_expiration
    &&& post.running == pre.running
    &&& post.handlers_live == pre.handlers_live
}

/// How an inbound batch signature must be handled, given the state it
/// meets: the checks of the handler, in order.
pub open spec fn signature_outcome(
    pre: Primary,
    peer_ip: u64,
    batch_id: u64,
    signature: Signature,
) -> SignatureOutcome {
    if !(pre.proposed_batch is Some) || pre.proposed_batch.unwrap().batch.batch_id != batch_id {
        SignatureOutcome::UnknownBatch
    } else if spec_lookup(pre.shared.peers@, peer_ip) is None {
        SignatureOutcome::UnknownPeer
    } else if !pre.shared.committee@.contains(spec_lookup(pre.shared.peers@, peer_ip).unwrap()) {
        SignatureOutcome::NotCommittee
    } else if !signature.spec_verify(spec_lookup(pre.shared.peers@, peer_ip).unwrap(), batch_id) {
        SignatureOutcome::InvalidSignature
    } else if exists|i: int|
        0 <= i < pre.proposed_batch.unwrap().signatures@.len() && (
        #[trigger] pre.proposed_batch.unwrap().signatures@[i]).signer == signature.signer {
        SignatureOutcome::Duplicate
    } else {
        SignatureOutcome::Added
    }
}

impl Primary {
    /// Proposes the batch for the current round: drains every worker into
    /// one map where on a repeated identifier the worker drained last
    /// wins, signs the batch, sets it as the outstanding proposal, and
    /// broadcasts it to all validators for signing.
    #[verifier::loop_isolation(false)]
    pub fn propose_batch(&mut self, timestamp: u64)
        requires
            old(self).wf(),
        ensures
            final(self).wf(),
            proposes(*old(self), *final(self), timestamp),
    {
        let ghost all = worker_buffers(*old(self));
        let mut merged: Vec<(TransmissionId, Transmission)> = Vec::new();
        let mut rest: Vec<Worker> = Vec::new();
        core::mem::swap(&mut rest, &mut self.workers);
        proof {
            assert(all.skip(0) =~= all);
            assert(spec_items_view(merged@) =~= Seq::<(TransmissionId, TransmissionView)>::empty());
        }
        while rest.len() > 0
            invariant
                self.workers@.len() + rest@.len() == all.len(),
                forall|k: int|
                    0 <= k < self.workers@.len() ==> (#[trigger] self.workers@[k]).id == old(self).workers@[k].id && self.workers@[k].accepting == old(self).workers@[k].accepting && self.workers@[k].contents() == Seq::<
                    (TransmissionId, TransmissionView),
                    >::empty() && self.workers@[k].wf(),
                forall|k: int|
                    0 <= k < rest@.len() ==> (#[trigger] rest@[k]) == old(self).workers@[
                        self.workers@.len() + k
                    ],
                tids_unique(spec_items_view(merged@)),
                union_from(spec_items_view(merged@), all.skip(self.workers@.len() as int))
                    == drained_union(all),
                self.shared == old(self).shared,
                self.gateway == old(self).gateway,
                self.proposed_batch == old(self).proposed_batch,
                self.quorum_threshold == old(self).quorum_threshold,
                self.batch_expiration == old(self).batch_expiration,
                self.running == old(self).running,
                self.handlers_live == old(self).handlers_live,
            decreases rest@.len(),
        {
            let ghost i = self.workers@.len() as int;
            let mut w = rest.remove(0);
            proof {
                assert(w == old(self).workers@[i]);
                assert(forall|k: int|
                    0 <= k < rest@.len() ==> (#[trigger] rest@[k]) == old(self).workers@[
                        self.workers@.len() + 1 + k
                    ]);
            }
            let mut items = w.drain();
            proof {
                assert(spec_items_view(items@) == all[i]);
            }
            let ghost m0 = spec_items_view(merged@);
            let ghost target = union_step(m0, spec_items_view(items@));
            while items.len() > 0
                invariant
                    tids_unique(spec_items_view(merged@)),
                    union_step(spec_items_view(merged@), spec_items_view(items@)) == target,
                decreases items@.len(),
            {
                let ghost iv = spec_items_view(items@);
                let (id, t) = items.remove(0);
                proof {
                    assert(iv[0] == (id, t@));
                    assert(spec_items_view(items@) =~= iv.drop_first());
                }
                upsert_item(&mut merged, id, t);
            }
            proof {
                assert(spec_items_view(items@) =~= Seq::<
                    (TransmissionId, TransmissionView),
                >::empty());
                assert(spec_items_view(merged@) == union_step(m0, all[i]));
                assert(all.skip(i)[0] == all[i]);
                assert(all.skip(i).drop_first() =~= all.skip(i + 1));
            }
            self.workers.push(w);
            proof {
                assert(union_from(spec_items_view(merged@), all.skip(i + 1)) == drained_union(
                    all,
                ));
            }
        }
        proof {
            assert(rest@.len() == 0);
            assert(all.skip(self.workers@.len() as int) =~= Seq::<
                Seq<(TransmissionId, TransmissionView)>,
            >::empty());
            assert(spec_items_view(merged@) == drained_union(all));
        }
        let round = self.shared.round();
        let parents: Vec<u64> = match self.shared.previous_certificates(round) {
            Option::Some(ids) => copy_ids(ids),
            Option::None => {
                let empty: Vec<u64> = Vec::new();
                proof {
                    assert(empty@ =~= spec_parents(*old(self)));
                }
                empty
            },
        };
        let batch = Batch::new(self.gateway.private_key, round, merged, parents, timestamp);
        let wire = batch.duplicate();
        self.proposed_batch = Some(Proposal { batch, signatures: Vec::new() });
        self.gateway.broadcast(Event::BatchPropose(wire));
        proof {
            assert(final(self).gateway.outbox@.drop_last() =~= old(self).gateway.outbox@);
        }
    }

    /// One pass of the proposer loop: while a proposal is outstanding,
    /// wait for it to be sealed; otherwise propose a fresh batch.
    pub fn proposer_step(&mut self, timestamp: u64) -> (proposed: bool)
        requires
            old(self).wf(),
        ensures
            final(self).wf(),
            old(self).proposed_batch is Some ==> !proposed && *final(self) == *old(self),
            old(self).proposed_batch is None ==> proposed && proposes(
                *old(self),
                *final(self),
                timestamp,
            ),
    {
        if self.proposed_batch.is_some() {
            return false;
        }
        self.propose_batch(timestamp);
        true
    }

    /// One pass of the sealer loop: a proposal that reached its quorum is
    /// sealed, stored locally and broadcast; one that expired without a
    /// quorum is discarded; sealing wins when both hold at once.
    pub fn sealer_step(&mut self, now: u64) -> (r: SealerAction)
        requires
            old(self).wf(),
        ensures
            final(self).wf(),
            old(self).proposed_batch is None ==> r == SealerAction::Idle && *final(self) == *old(self),
            old(self).proposed_batch matches Some(p) ==> {
                if p.signatures@.len() >= old(self).quorum_threshold {
                    &&& r == SealerAction::Sealed
                    &&& final(self).proposed_batch is None
                    &&& final(self).shared == (
                    Shared { sealed_from_primary: final(self).shared.sealed_from_primary, ..old(self).shared })
                    &&& final(self).shared.sealed_from_primary@.len() == old(self).shared.sealed_from_primary@.len() + 1
                    &&& final(self).shared.sealed_from_primary@.drop_last() == old(self).shared.sealed_from_primary@
                    &&& {
                        let (addr, sealed) = final(self).shared.sealed_from_primary@.last();
                        &&& addr == spec_address_of(old(self).gateway.private_key)
                        &&& sealed.batch == p.batch
                        &&& sealed.certificate.batch_id == p.batch.batch_id
                        &&& sealed.certificate.round == p.batch.round
                        &&& sealed.certificate.signatures@ == p.signatures@
                    }
                    &&& final(self).gateway.outbox@.len() == old(self).gateway.outbox@.len() + 1
                    &&& final(self).gateway.outbox@.drop_last() == old(self).gateway.outbox@
                    &&& final(self).gateway.outbox@.last().destination is None
                    &&& final(self).gateway.outbox@.last().event is BatchSealed
                    &&& {
                        let c = final(self).gateway.outbox@.last().event->BatchSealed_0;
                        c.batch_id == p.batch.batch_id && c.round == p.batch.round
                            && c.signatures@ == p.signatures@
                    }
                    &&& final(self).gateway.private_key == old(self).gateway.private_key
                    &&& final(self).gateway.running == old(self).gateway.running
                    &&& final(self).workers@ == old(self).workers@
                    &&& final(self).quorum_threshold == old(self).quorum_threshold
                    &&& final(self).batch_expiration == old(self).batch_expiration
                    &&& final(self).running == old(self).running
                    &&& final(self).handlers_live == old(self).handlers_live
                } else if now - p.batch.timestamp > old(self).batch_expiration {
                    &&& r == SealerAction::Expired
                    &&& final(self).proposed_batch is None
                    &&& final(self).shared == old(self).shared
                    &&& final(self).gateway == old(self).gateway
                    &&& final(self).workers@ == old(self).workers@
                    &&& final(self).quorum_threshold == old(self).quorum_threshold
                    &&& final(self).batch_expiration == old(self).batch_expiration
                    &&& final(self).running == old(self).running
                    &&& final(self).handlers_live == old(self).handlers_live
                } else {
                    r == SealerAction::Waiting && *final(self) == *old(self)
                }
            },
    {
        let mut cell: Option<Proposal> = None;
        core::mem::swap(&mut cell, &mut self.proposed_batch);
        match cell {
            Option::None => SealerAction::Idle,
            Option::Some(p) => {
                if p.signatures.len() >= self.quorum_threshold {
                    let Proposal { batch, signatures } = p;
                    let address = self.gateway.address();
                    let cert_sigs = copy_sigs(&signatures);
                    let ghost pre_batch = batch;
                    let sealed = batch.seal(signatures);
                    let certificate = Certificate {
                        batch_id: sealed.certificate.batch_id,
                        round: sealed.certificate.round,
                        signatures: cert_sigs,
                    };
                    self.shared.store_sealed_batch_from_primary(address, sealed);
                    self.gateway.broadcast(Event::BatchSealed(certificate));
                    proof {
                        assert(final(self).shared.sealed_from_primary@.drop_last() =~= old(self).shared.sealed_from_primary@);
                        assert(final(self).gateway.outbox@.drop_last() =~= old(self).gateway.outbox@);
                    }
                    SealerAction::Sealed
                } else {
                    let expired = now > p.batch.timestamp && now - p.batch.timestamp
                        > self.batch_expiration;
                    if expired {
                        SealerAction::Expired
                    } else {
                        self.proposed_batch = Some(p);
                        SealerAction::Waiting
                    }
                }
            },
        }
    }

    /// Handles a batch proposed by a peer: parse it, record it in the
    /// shared registry, sign its identifier with the local account, and
    /// send the signature back to the proposing peer. Nothing beyond the
    /// wire shape is validated here; validating a peer's batch is the
    /// store's concern.
    pub fn process_batch_propose(&mut self, peer_ip: u64, bytes: &Vec<u8>) -> (r: Result<(), Error>)
        requires
            old(self).wf(),
        ensures
            final(self).wf(),
            spec_parse_batch(bytes@) is None ==> r == Result::<(), Error>::Err(
                Error::MalformedBatch,
            ) && *final(self) == *old(self),
            spec_parse_batch(bytes@) matches Some(bv) ==> {
                &&& r == Result::<(), Error>::Ok(())
                &&& final(self).shared == (
                Shared { proposed_batches: final(self).shared.proposed_batches, ..old(self).shared })
                &&& final(self).shared.proposed_batches@.len() == old(self).shared.proposed_batches@.len() + 1
                &&& final(self).shared.proposed_batches@.drop_last() == old(self).shared.proposed_batches@
                &&& final(self).shared.proposed_batches@.last().0 == peer_ip
                &&& final(self).shared.proposed_batches@.last().1@ == bv
                &&& final(self).gateway == (
                Gateway { outbox: final(self).gateway.outbox, ..old(self).gateway })
                &&& final(self).gateway.outbox@ == old(self).gateway.outbox@.push(
                    Outbound {
                        destination: Some(peer_ip),
                        event: Event::BatchSignature(
                            bv.batch_id,
                            spec_sign(old(self).gateway.private_key, bv.batch_id),
                        ),
                    },
                )
                &&& final(self).workers@ == old(self).workers@
                &&& final(self).proposed_batch == old(self).proposed_batch
                &&& final(self).quorum_threshold == old(self).quorum_threshold
                &&& final(self).batch_expiration == old(self).batch_expiration
                &&& final(self).running == old(self).running
                &&& final(self).handlers_live == old(self).handlers_live
            },
    {
        let batch = match deserialize_batch(bytes) {
            Result::Ok(batch) => batch,
            Result::Err(e) => {
                return Err(e);
            },
        };
        let batch_id = batch.batch_id();
        self.shared.store_proposed_batch(peer_ip, batch);
        let signature = Signature::sign(self.gateway.private_key, batch_id);
        self.gateway.send(peer_ip, Event::BatchSignature(batch_id, signature));
        proof {
            assert(final(self).shared.proposed_batches@.drop_last() =~= old(self).shared.proposed_batches@);
        }
        Ok(())
    }

    /// Handles a peer's certificate for a sealed batch: parse it and
    /// record it in the shared registry. Verifying the certificate is the
    /// store's concern.
    pub fn process_batch_sealed(&mut self, peer_ip: u64, bytes: &Vec<u8>) -> (r: Result<(), Error>)
        requires
            old(self).wf(),
        ensures
            final(self).wf(),
            spec_parse_certificate(bytes@) is None ==> r == Result::<(), Error>::Err(
                Error::MalformedCertificate,
            ) && *final(self) == *old(self),
            spec_parse_certificate(bytes@) matches Some(cv) ==> {
                &&& r == Result::<(), Error>::Ok(())
                &&& final(self).shared == (
                Shared { sealed_batches: final(self).shared.sealed_batches, ..old(self).shared })
                &&& final(self).shared.sealed_batches@.len() == old(self).shared.sealed_batches@.len() + 1
                &&& final(self).shared.sealed_batches@.drop_last() == old(self).shared.sealed_batches@
                &&& final(self).shared.sealed_batches@.last().0 == peer_ip
                &&& final(self).shared.sealed_batches@.last().1@ == cv
                &&& final(self).gateway == old(self).gateway
                &&& final(self).workers@ == old(self).workers@
                &&& final(self).proposed_batch == old(self).proposed_batch
                &&& final(self).quorum_threshold == old(self).quorum_threshold
                &&& final(self).batch_expiration == old(self).batch_expiration
                &&& final(self).running == old(self).running
                &&& final(self).handlers_live == old(self).handlers_live
            },
    {
        let certificate = match deserialize_certificate(bytes) {
            Result::Ok(certificate) => certificate,
            Result::Err(e) => {
                return Err(e);
            },
        };
        self.shared.store_sealed_batch(peer_ip, certificate);
        proof {
            assert(final(self).shared.sealed_batches@.drop_last() =~= old(self).shared.sealed_batches@);
        }
        Ok(())
    }

    /// Handles a peer's signature over the outstanding proposal: the batch
    /// identifier must match the proposal, the peer must be known, its
    /// address must sit in the committee, the signature must verify, and
    /// each signer counts once. Only then is the signature appended, so
    /// the signature count of a live proposal only ever grows.
    #[verifier::loop_isolation(false)]
    pub fn process_batch_signature(
        &mut self,
        peer_ip: u64,
        batch_id: u64,
        signature: Signature,
    ) -> (r: SignatureOutcome)
        requires
            old(self).wf(),
        ensures
            final(self).wf(),
            r == signature_outcome(*old(self), peer_ip, batch_id, signature),
            r != SignatureOutcome::Added ==> *final(self) == *old(self),
            r == SignatureOutcome::Added ==> {
                &&& final(self).proposed_batch is Some
                &&& final(self).proposed_batch.unwrap().batch == old(self).proposed_batch.unwrap().batch
                &&& final(self).proposed_batch.unwrap().signatures@ == old(self).proposed_batch.unwrap().signatures@.push(signature)
                &&& final(self).shared == old(self).shared
                &&& final(self).gateway == old(self).gateway
                &&& final(self).workers@ == old(self).workers@
                &&& final(self).quorum_threshold == old(self).quorum_threshold
                &&& final(self).batch_expiration == old(self).batch_expiration
                &&& final(self).running == old(self).running
                &&& final(self).handlers_live == old(self).handlers_live
            },
            old(self).proposed_batch is Some && final(self).proposed_batch is Some ==> final(self).proposed_batch.unwrap().signatures@.len() >= old(self).proposed_batch.unwrap().signatures@.len(),
    {
        let id_matches = match &self.proposed_batch {
            Option::Some(p) => p.batch.batch_id == batch_id,
            Option::None => false,
        };
        if !id_matches {
            return SignatureOutcome::UnknownBatch;
        }
        let address = match self.shared.get_address(peer_ip) {
            Option::Some(address) => address,
            Option::None => {
                return SignatureOutcome::UnknownPeer;
            },
        };
        if !self.shared.is_committee_member(address) {
            return SignatureOutcome::NotCommittee;
        }
        if !signature.verify(address, batch_id) {
            return SignatureOutcome::InvalidSignature;
        }
        let mut cell: Option<Proposal> = None;
        core::mem::swap(&mut cell, &mut self.proposed_batch);
        proof {
            assert(cell == old(self).proposed_batch);
            assert(cell is Some);
        }
        match cell {
            Option::None => {
                proof {
                    assert(false);
                }
                SignatureOutcome::UnknownBatch
            },
            Option::Some(mut p) => {
                let mut i: usize = 0;
                while i < p.signatures.len()
                    invariant
                        i <= p.signatures@.len(),
                        forall|k: int|
                            0 <= k < i ==> (#[trigger] p.signatures@[k]).signer
                                != signature.signer,
                        p == old(self).proposed_batch.unwrap(),
                        self.proposed_batch is None,
                        self.shared == old(self).shared,
                        self.gateway == old(self).gateway,
                        self.workers == old(self).workers,
                        self.quorum_threshold == old(self).quorum_threshold,
                        self.batch_expiration == old(self).batch_expiration,
                        self.running == old(self).running,
                        self.handlers_live == old(self).handlers_live,
                    decreases p.signatures@.len() - i,
                {
                    if p.signatures[i].signer == signature.signer {
                        self.proposed_batch = Some(p);
                        return SignatureOutcome::Duplicate;
                    }
                    i = i + 1;
                }
                let ghost pre_sigs = p.signatures@;
                p.signatures.push(signature);
                proof {
                    assert forall|a: int|
                        0 <= a < p.signatures@.len() implies (
                    #[trigger] p.signatures@[a]).spec_verify(
                        p.signatures@[a].signer,
                        p.batch.batch_id,
                    ) by {
                        if a < pre_sigs.len() {
                            assert(p.signatures@[a] == pre_sigs[a]);
                        }
                    }
                    assert forall|a: int, b: int|
                        0 <= a < b < p.signatures@.len() implies (
                    #[trigger] p.signatures@[a]).signer != (#[trigger] p.signatures@[b]).signer by {
                        if b == p.signatures@.len() - 1 {
                            assert(p.signatures@[a] == pre_sigs[a]);
                        } else {
                            assert(p.signatures@[a] == pre_sigs[a]);
                            assert(p.signatures@[b] == pre_sigs[b]);
                        }
                    }
                }
                self.proposed_batch = Some(p);
                SignatureOutcome::Added
            },
        }
    }
}


impl Primary {
    /// Routes an unconfirmed prover solution to its worker: the shard is
    /// the solution's fingerprint reduced modulo the worker count, and the
    /// worker buffers the payload.
    pub fn process_unconfirmed_solution(&mut self, commitment: u64, solution: Vec<u8>) -> (r:
        Result<(), Error>)
        requires
            old(self).wf(),
        ensures
            final(self).wf(),
            old(self).workers@.len() == 0 ==> r == Result::<(), Error>::Err(Error::NoWorkers)
                && *final(self) == *old(self),
            old(self).workers@.len() > 0 ==> {
                let wid = spec_assign(
                    TransmissionId::Solution(commitment),
                    old(self).workers@.len() as u8,
                ).unwrap() as int;
                let w = old(self).workers@[wid];
                &&& final(self).workers@.len() == old(self).workers@.len()
                &&& forall|k: int|
                    0 <= k < old(self).workers@.len() && k != wid ==> (
                    #[trigger] final(self).workers@[k]) == old(self).workers@[k]
                &&& (!w.accepting ==> r == Result::<(), Error>::Err(Error::WorkerShutDown)
                    && final(self).workers@[wid].contents() == w.contents())
                &&& (w.accepting ==> r == Result::<(), Error>::Ok(()))
                &&& (w.accepting && buffer_contains(
                    w.contents(),
                    TransmissionId::Solution(commitment),
                ) ==> final(self).workers@[wid].contents() == w.contents())
                &&& final(self).workers@[wid].id == w.id
                &&& final(self).workers@[wid].accepting == w.accepting
                &&& (w.accepting && !buffer_contains(
                    w.contents(),
                    TransmissionId::Solution(commitment),
                ) ==> final(self).workers@[wid].contents() == w.contents().push(
                    (TransmissionId::Solution(commitment), TransmissionView::Solution(solution@)),
                ))
                &&& final(self).shared == old(self).shared
                &&& final(self).gateway == old(self).gateway
                &&& final(self).proposed_batch == old(self).proposed_batch
                &&& final(self).quorum_threshold == old(self).quorum_threshold
                &&& final(self).batch_expiration == old(self).batch_expiration
                &&& final(self).running == old(self).running
                &&& final(self).handlers_live == old(self).handlers_live
            },
    {
        let n = self.num_workers();
        let id = TransmissionId::Solution(commitment);
        let wid = match assign_to_worker(&id, n) {
            Result::Ok(wid) => wid,
            Result::Err(e) => {
                return Err(e);
            },
        };
        let ghost ws = self.workers@;
        let mut w = self.workers.remove(wid as usize);
        let r = w.process_unconfirmed_solution(commitment, solution);
        self.workers.insert(wid as usize, w);
        proof {
            assert(self.workers@ =~= ws.update(wid as int, self.workers@[wid as int]));
        }
        r
    }

    /// Routes an unconfirmed transaction to its worker: the shard is the
    /// transaction identifier's fingerprint reduced modulo the worker
    /// count, and the worker buffers the payload.
    pub fn process_unconfirmed_transaction(&mut self, transaction_id: u64, transaction: Vec<
        u8,
    >) -> (r: Result<(), Error>)
        requires
            old(self).wf(),
        ensures
            final(self).wf(),
            old(self).workers@.len() == 0 ==> r == Result::<(), Error>::Err(Error::NoWorkers)
                && *final(self) == *old(self),
            old(self).workers@.len() > 0 ==> {
                let wid = spec_assign(
                    TransmissionId::Transaction(transaction_id),
                    old(self).workers@.len() as u8,
                ).unwrap() as int;
                let w = old(self).workers@[wid];
                &&& final(self).workers@.len() == old(self).workers@.len()
                &&& forall|k: int|
                    0 <= k < old(self).workers@.len() && k != wid ==> (
                    #[trigger] final(self).workers@[k]) == old(self).workers@[k]
                &&& (!w.accepting ==> r == Result::<(), Error>::Err(Error::WorkerShutDown)
                    && final(self).workers@[wid].contents() == w.contents())
                &&& (w.accepting ==> r == Result::<(), Error>::Ok(()))
                &&& (w.accepting && buffer_contains(
                    w.contents(),
                    TransmissionId::Transaction(transaction_id),
                ) ==> final(self).workers@[wid].contents() == w.contents())
                &&& final(self).workers@[wid].id == w.id
                &&& final(self).workers@[wid].accepting == w.accepting
                &&& (w.accepting && !buffer_contains(
                    w.contents(),
                    TransmissionId::Transaction(transaction_id),
                ) ==> final(self).workers@[wid].contents() == w.contents().push(
                    (
                        TransmissionId::Transaction(transaction_id),
                        TransmissionView::Transaction(transaction@),
                    ),
                ))
                &&& final(self).shared == old(self).shared
                &&& final(self).gateway == old(self).gateway
                &&& final(self).proposed_batch == old(self).proposed_batch
                &&& final(self).quorum_threshold == old(self).quorum_threshold
                &&& final(self).batch_expiration == old(self).batch_expiration
                &&& final(self).running == old(self).running
                &&& final(self).handlers_live == old(self).handlers_live
            },
    {
        let n = self.num_workers();
        let id = TransmissionId::Transaction(transaction_id);
        let wid = match assign_to_worker(&id, n) {
            Result::Ok(wid) => wid,
            Result::Err(e) => {
                return Err(e);
            },
        };
        let ghost ws = self.workers@;
        let mut w = self.workers.remove(wid as usize);
        let r = w.process_unconfirmed_transaction(transaction_id, transaction);
        self.workers.insert(wid as usize, w);
        proof {
            assert(self.workers@ =~= ws.update(wid as int, self.workers@[wid as int]));
        }
        r
    }
}

/// The signature count at which a proposal may be sealed in a full
/// Byzantine-fault-tolerant deployment: two thirds of the committee,
/// rounded up, plus one. The primary takes its threshold as configuration,
/// so a deployment may also run with a smaller placeholder value.
pub fn quorum_threshold(num_validators: usize) -> (r: usize)
    requires
        num_validators <= (usize::MAX - 2) / 2,
    ensures
        r as int == (2 * num_validators + 2) / 3 + 1,
{
    (2 * num_validators + 2) / 3 + 1
}

/// At any instant at most one locally authored batch is outstanding: the
/// proposal cell holds at most one entry, and in a well-formed primary
/// that entry was authored by the local account.
pub proof fn lemma_single_proposal(p: Primary)
    requires
        p.wf(),
        p.proposed_batch is Some,
    ensures
        p.proposed_batch.unwrap().batch.author == spec_address_of(p.gateway.private_key),
{
}

/// Every signature in the proposal cell verifies under its signer's
/// address over the cell's batch identifier.
pub proof fn lemma_proposal_signatures_valid(p: Primary)
    requires
        p.wf(),
        p.proposed_batch is Some,
    ensures
        forall|i: int|
            0 <= i < p.proposed_batch.unwrap().signatures@.len() ==> (
            #[trigger] p.proposed_batch.unwrap().signatures@[i]).spec_verify(
                p.proposed_batch.unwrap().signatures@[i].signer,
                p.proposed_batch.unwrap().batch.batch_id,
            ),
{
}

/// No two signatures in the proposal cell share a signer address.
pub proof fn lemma_proposal_signers_unique(p: Primary)
    requires
        p.wf(),
        p.proposed_batch is Some,
    ensures
        forall|i: int, j: int|
            0 <= i < j < p.proposed_batch.unwrap().signatures@.len() ==> (
            #[trigger] p.proposed_batch.unwrap().signatures@[i]).signer != (
            #[trigger] p.proposed_batch.unwrap().signatures@[j]).signer,
{
}

/// After startup the worker identifiers are exactly the prefix of shard
/// numbers, and there are never more shards than an identifier can name.
pub proof fn lemma_worker_ids_prefix(p: Primary)
    requires
        p.wf(),
    ensures
        p.workers@.len() <= MAX_WORKERS as int,
        forall|i: int| 0 <= i < p.workers@.len() ==> (#[trigger] p.workers@[i]).id == i,
{
}

} // verus!
