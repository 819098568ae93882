use vstd::prelude::*;
use crate::batch::tids_unique;
use crate::codec::spec_items_view;
use crate::errors::Error;
use crate::transmission::{Transmission, TransmissionId, TransmissionView};

verus! {

/// Whether some buffered item carries the given identifier.
pub open spec fn buffer_contains(
    s: Seq<(TransmissionId, TransmissionView)>,
    id: TransmissionId,
) -> bool {
    exists|i: int| 0 <= i < s.len() && (#[trigger] s[i]).0 == id
}

/// One shard of the mempool: a buffer of unconfirmed transmissions, filled
/// by the routing handlers and emptied wholesale when a batch is proposed.
#[derive(Debug)]
pub struct Worker {
    pub id: u8,
    pub accepting: bool,
    pub buffer: Vec<(TransmissionId, Transmission)>,
}

impl Worker {
    /// The buffer never holds two items with the same identifier.
    pub open spec fn wf(self) -> bool {
        tids_unique(spec_items_view(self.buffer@))
    }

    /// The buffer's mathematical shape.
    pub open spec fn contents(self) -> Seq<(TransmissionId, TransmissionView)> {
        spec_items_view(self.buffer@)
    }

    /// Creates an empty worker for shard `id`.
    pub fn new(id: u8) -> (r: Worker)
        ensures
            r.id == id,
            r.accepting,
            r.contents() == Seq::<(TransmissionId, TransmissionView)>::empty(),
            r.wf(),
    {
        let r = Worker { id, accepting: true, buffer: Vec::new() };
        proof {
            assert(r.contents() =~= Seq::<(TransmissionId, TransmissionView)>::empty());
        }
        r
    }

    /// The shard identifier.
    pub fn id(&self) -> (r: u8)
        ensures
            r == self.id,
    {
        self.id
    }

    /// Whether an item with this identifier is already buffered.
    pub fn contains(&self, id: &TransmissionId) -> (r: bool)
        ensures
            r == buffer_contains(self.contents(), *id),
    {
        let mut i: usize = 0;
        while i < self.buffer.len()
            invariant
                i <= self.buffer.len(),
                forall|k: int| 0 <= k < i ==> (#[trigger] self.contents()[k]).0 != id,
            decreases self.buffer.len() - i,
        {
            if self.buffer[i].0 == *id {
                proof {
                    assert(self.contents()[i as int].0 == id);
                }
                return true;
            }
            i = i + 1;
        }
        false
    }

    /// Buffers a transmission unless the worker is shut down. Inserting is
    /// idempotent on the identifier: an item already buffered under the same
    /// identifier stays, and the new payload is dropped.
    fn insert_transmission(&mut self, id: TransmissionId, t: Transmission) -> (r: Result<
        (),
        Error,
    >)
        requires
            old(self).wf(),
        ensures
            final(self).id == old(self).id,
            final(self).accepting == old(self).accepting,
            final(self).wf(),
            !old(self).accepting ==> r == Result::<(), Error>::Err(Error::WorkerShutDown) && final(self).contents() == old(self).contents(),
            old(self).accepting ==> r == Result::<(), Error>::Ok(()),
            old(self).accepting && buffer_contains(old(self).contents(), id) ==> final(self).contents() == old(self).contents(),
            old(self).accepting && !buffer_contains(old(self).contents(), id) ==> final(self).contents() == old(self).contents().push((id, t@)),
    {
        if !self.accepting {
            return Err(Error::WorkerShutDown);
        }
        if self.contains(&id) {
            return Ok(());
        }
        let ghost pre = self.contents();
        self.buffer.push((id, t));
        proof {
            assert(self.contents() =~= pre.push((id, t@)));
            assert forall|i: int, j: int|
                0 <= i < j < self.contents().len() implies (#[trigger] self.contents()[i]).0 != (
            #[trigger] self.contents()[j]).0 by {
                if j == self.contents().len() - 1 {
                    assert(!buffer_contains(pre, id));
                    assert(pre[i] == self.contents()[i]);
                }
            }
        }
        Ok(())
    }

    /// Validates minimally and buffers an unconfirmed prover solution.
    pub fn process_unconfirmed_solution(&mut self, commitment: u64, solution: Vec<u8>) -> (r:
        Result<(), Error>)
        requires
            old(self).wf(),
        ensures
            final(self).id == old(self).id,
            final(self).accepting == old(self).accepting,
            final(self).wf(),
            !old(self).accepting ==> r == Result::<(), Error>::Err(Error::WorkerShutDown) && final(self).contents() == old(self).contents(),
            old(self).accepting ==> r == Result::<(), Error>::Ok(()),
            old(self).accepting && buffer_contains(
                old(self).contents(),
                TransmissionId::Solution(commitment),
            ) ==> final(self).contents() == old(self).contents(),
            old(self).accepting && !buffer_contains(
                old(self).contents(),
                TransmissionId::Solution(commitment),
            ) ==> final(self).contents() == old(self).contents().push(
                (TransmissionId::Solution(commitment), TransmissionView::Solution(solution@)),
            ),
    {
        self.insert_transmission(
            TransmissionId::Solution(commitment),
            Transmission::Solution(solution),
        )
    }

    /// Validates minimally and buffers an unconfirmed transaction.
    pub fn process_unconfirmed_transaction(&mut self, transaction_id: u64, transaction: Vec<
        u8,
    >) -> (r: Result<(), Error>)
        requires
            old(self).wf(),
        ensures
            final(self).id == old(self).id,
            final(self).accepting == old(self).accepting,
            final(self).wf(),
            !old(self).accepting ==> r == Result::<(), Error>::Err(Error::WorkerShutDown) && final(self).contents() == old(self).contents(),
            old(self).accepting ==> r == Result::<(), Error>::Ok(()),
            old(self).accepting && buffer_contains(
                old(self).contents(),
                TransmissionId::Transaction(transaction_id),
            ) ==> final(self).contents() == old(self).contents(),
            old(self).accepting && !buffer_contains(
                old(self).contents(),
                TransmissionId::Transaction(transaction_id),
            ) ==> final(self).contents() == old(self).contents().push(
                (
                    TransmissionId::Transaction(transaction_id),
                    TransmissionView::Transaction(transaction@),
                ),
            ),
    {
        self.insert_transmission(
            TransmissionId::Transaction(transaction_id),
            Transmission::Transaction(transaction),
        )
    }

    /// Removes and returns everything buffered, atomically from the
    /// worker's point of view: what comes out is exactly what was in, and
    /// nothing stays behind.
    pub fn drain(&mut self) -> (r: Vec<(TransmissionId, Transmission)>)
        ensures
            final(self).id == old(self).id,
            final(self).accepting == old(self).accepting,
            spec_items_view(r@) == old(self).contents(),
            final(self).contents() == Seq::<(TransmissionId, TransmissionView)>::empty(),
            final(self).wf(),
    {
        let mut out: Vec<(TransmissionId, Transmission)> = Vec::new();
        core::mem::swap(&mut out, &mut self.buffer);
        proof {
            assert(final(self).contents() =~= Seq::<(TransmissionId, TransmissionView)>::empty());
        }
        out
    }

    /// Stops accepting work. The buffer is kept: a drain after shutdown
    /// still returns what was buffered before.
    pub fn shut_down(&mut self)
        ensures
            *final(self) == (Worker { accepting: false, ..*old(self) }),
    {
        self.accepting = false;
    }
}


/// One step in a worker's life, as the drain-totality law sees it. The
/// executable operations above realize exactly these steps: inserting is
/// idempotent on the identifier, and draining empties the buffer.
pub enum WorkerOp {
    Insert(TransmissionId, TransmissionView),
    Drain,
}

/// The buffer after replaying a sequence of operations on a fresh worker.
pub open spec fn replay_buffer(ops: Seq<WorkerOp>) -> Seq<(TransmissionId, TransmissionView)>
    decreases ops.len(),
{
    if ops.len() == 0 {
        Seq::empty()
    } else {
        let pre = replay_buffer(ops.drop_last());
        match ops.last() {
            WorkerOp::Insert(id, tv) => if buffer_contains(pre, id) {
                pre
            } else {
                pre.push((id, tv))
            },
            WorkerOp::Drain => Seq::empty(),
        }
    }
}

/// What a drain at step `d` returns: the buffer as it stood just before.
pub open spec fn drain_output(ops: Seq<WorkerOp>, d: int) -> Seq<
    (TransmissionId, TransmissionView),
> {
    replay_buffer(ops.take(d))
}

/// An inserted identifier stays buffered until the next drain.
proof fn lemma_insert_retained(ops: Seq<WorkerOp>, k: int, j: int, id: TransmissionId)
    requires
        0 <= k < j <= ops.len(),
        ops[k] is Insert,
        ops[k]->Insert_0 == id,
        forall|m: int| k < m < j ==> !((#[trigger] ops[m]) is Drain),
    ensures
        buffer_contains(replay_buffer(ops.take(j)), id),
    decreases j - k,
{
    assert(ops.take(j).drop_last() =~= ops.take(j - 1));
    assert(ops.take(j).last() == ops[j - 1]);
    let pre = replay_buffer(ops.take(j - 1));
    if j == k + 1 {
        if !buffer_contains(pre, id) {
            assert(replay_buffer(ops.take(j))[pre.len() as int].0 == id);
        }
    } else {
        lemma_insert_retained(ops, k, j - 1, id);
        let w = choose|i: int| 0 <= i < pre.len() && pre[i].0 == id;
        match ops[j - 1] {
            WorkerOp::Insert(id2, tv2) => {
                if !buffer_contains(pre, id2) {
                    assert(replay_buffer(ops.take(j))[w] == pre[w]);
                }
            },
            WorkerOp::Drain => {
                assert(false);
            },
        }
    }
}

/// Drain totality: replaying any sequence of inserts and drains on a fresh
/// worker, an item inserted at step `k` appears in the output of the first
/// drain that follows, and the buffer is empty immediately after that
/// drain, so the same insertion reappears in no later drain unless the
/// item is inserted again.
pub proof fn lemma_drain_totality(
    ops: Seq<WorkerOp>,
    k: int,
    d: int,
    id: TransmissionId,
    tv: TransmissionView,
)
    requires
        0 <= k < d < ops.len(),
        ops[k] == WorkerOp::Insert(id, tv),
        ops[d] is Drain,
        forall|m: int| k < m < d ==> !((#[trigger] ops[m]) is Drain),
    ensures
        buffer_contains(drain_output(ops, d), id),
        replay_buffer(ops.take(d + 1)) == Seq::<(TransmissionId, TransmissionView)>::empty(),
{
    lemma_insert_retained(ops, k, d, id);
    assert(ops.take(d + 1).drop_last() =~= ops.take(d));
    assert(ops.take(d + 1).last() == ops[d]);
}

} // verus!
