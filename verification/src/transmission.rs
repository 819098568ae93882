use vstd::prelude::*;

verus! {

/// Identifies an unconfirmed mempool item: either a transaction or a
/// prover solution. The inner value is the item's stable fingerprint,
/// read from the first eight bytes of its canonical encoding.
#[derive(Clone, Copy, Debug, PartialEq, Eq, Hash, Structural)]
pub enum TransmissionId {
    Transaction(u64),
    Solution(u64),
}

impl TransmissionId {
    /// The fingerprint that drives worker assignment: a pure function of
    /// the identifier alone.
    pub open spec fn spec_fingerprint(self) -> u64 {
        match self {
            TransmissionId::Transaction(id) => id,
            TransmissionId::Solution(commitment) => commitment,
        }
    }

    pub fn fingerprint(&self) -> (r: u64)
        ensures
            r == self.spec_fingerprint(),
    {
        match self {
            TransmissionId::Transaction(id) => *id,
            TransmissionId::Solution(commitment) => *commitment,
        }
    }
}

/// The payload behind a [`TransmissionId`]: an opaque blob carrying either
/// a serialized transaction or a serialized prover solution. The primary
/// never looks inside; it only buffers and forwards these.
#[derive(Debug, PartialEq, Eq)]
pub enum Transmission {
    Transaction(Vec<u8>),
    Solution(Vec<u8>),
}

/// The mathematical shape of a [`Transmission`]: the same two variants over
/// byte sequences.
pub enum TransmissionView {
    Transaction(Seq<u8>),
    Solution(Seq<u8>),
}

impl View for Transmission {
    type V = TransmissionView;

    open spec fn view(&self) -> TransmissionView {
        match self {
            Transmission::Transaction(data) => TransmissionView::Transaction(data@),
            Transmission::Solution(data) => TransmissionView::Solution(data@),
        }
    }
}

impl Transmission {
    /// Rebuilds the payload byte for byte; moving a buffered transmission
    /// into a batch while the worker keeps nothing behind needs no copy, so
    /// this is used only where a value must live in two places.
    pub fn duplicate(&self) -> (r: Transmission)
        ensures
            r@ == self@,
    {
        match self {
            Transmission::Transaction(data) => {
                Transmission::Transaction(copy_bytes(data))
            },
            Transmission::Solution(data) => Transmission::Solution(copy_bytes(data)),
        }
    }
}

/// Copies a byte buffer element by element.
pub fn copy_bytes(data: &Vec<u8>) -> (r: Vec<u8>)
    ensures
        r@ == data@,
{
    let mut out: Vec<u8> = Vec::new();
    let mut i: usize = 0;
    while i < data.len()
        invariant
            i <= data.len(),
            out@ == data@.take(i as int),
        decreases data.len() - i,
    {
        out.push(data[i]);
        proof {
            assert(out@ =~= data@.take(i + 1));
        }
        i = i + 1;
    }
    proof {
        assert(data@.take(data@.len() as int) =~= data@);
    }
    out
}

} // verus!
