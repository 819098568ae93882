use vstd::prelude::*;
use crate::codec::{serialize_content, spec_content_bytes, spec_items_view};
use crate::digest::{digest, spec_digest};
use crate::signature::{spec_address_of, Signature};
use crate::transmission::{Transmission, TransmissionId, TransmissionView};

verus! {

/// No two buffered items share a transmission identifier.
pub open spec fn tids_unique(items: Seq<(TransmissionId, TransmissionView)>) -> bool {
    forall|i: int, j: int|
        0 <= i < j < items.len() ==> (#[trigger] items[i]).0 != (#[trigger] items[j]).0
}

/// A proposed bundle of transmissions for one round, together with
/// references to the previous round's certificates. Immutable once built:
/// the batch identifier digests the whole content, and the author's
/// signature binds the identifier to the author.
#[derive(Debug, PartialEq, Eq)]
pub struct Batch {
    pub author: u64,
    pub round: u64,
    pub timestamp: u64,
    pub transmissions: Vec<(TransmissionId, Transmission)>,
    pub previous_certificate_ids: Vec<u64>,
    pub batch_id: u64,
    pub author_signature: Signature,
}

/// The mathematical shape of a [`Batch`].
pub struct BatchView {
    pub author: u64,
    pub round: u64,
    pub timestamp: u64,
    pub transmissions: Seq<(TransmissionId, TransmissionView)>,
    pub previous_certificate_ids: Seq<u64>,
    pub batch_id: u64,
    pub author_signature: Signature,
}

impl View for Batch {
    type V = BatchView;

    open spec fn view(&self) -> BatchView {
        BatchView {
            author: self.author,
            round: self.round,
            timestamp: self.timestamp,
            transmissions: spec_items_view(self.transmissions@),
            previous_certificate_ids: self.previous_certificate_ids@,
            batch_id: self.batch_id,
            author_signature: self.author_signature,
        }
    }
}

impl BatchView {
    /// The bytes the batch identifier digests.
    pub open spec fn content_bytes(self) -> Seq<u8> {
        spec_content_bytes(
            self.author,
            self.round,
            self.timestamp,
            self.transmissions,
            self.previous_certificate_ids,
        )
    }

    /// A well-formed batch: its identifier is the digest of its content,
    /// the author's signature verifies under the author's address over the
    /// identifier, and no transmission identifier repeats.
    pub open spec fn wf(self) -> bool {
        &&& self.batch_id == spec_digest(self.content_bytes())
        &&& self.author_signature.spec_verify(self.author, self.batch_id)
        &&& tids_unique(self.transmissions)
    }
}

impl Batch {
    /// Builds and signs a batch for `round` out of the drained
    /// transmissions and the previous round's certificate identifiers.
    pub fn new(
        private_key: u64,
        round: u64,
        transmissions: Vec<(TransmissionId, Transmission)>,
        previous_certificate_ids: Vec<u64>,
        timestamp: u64,
    ) -> (r: Batch)
        requires
            tids_unique(spec_items_view(transmissions@)),
        ensures
            r@.wf(),
            r.author == spec_address_of(private_key),
            r.round == round,
            r.timestamp == timestamp,
            r@.transmissions == spec_items_view(transmissions@),
            r.previous_certificate_ids@ == previous_certificate_ids@,
            r.batch_id == spec_digest(
                spec_content_bytes(
                    spec_address_of(private_key),
                    round,
                    timestamp,
                    spec_items_view(transmissions@),
                    previous_certificate_ids@,
                ),
            ),
    {
        let author = crate::signature::address_of(private_key);
        let content = serialize_content(
            author,
            round,
            timestamp,
            &transmissions,
            &previous_certificate_ids,
        );
        let batch_id = digest(&content);
        let author_signature = Signature::sign(private_key, batch_id);
        Batch {
            author,
            round,
            timestamp,
            transmissions,
            previous_certificate_ids,
            batch_id,
            author_signature,
        }
    }

    /// The batch identifier.
    pub fn batch_id(&self) -> (r: u64)
        ensures
            r == self.batch_id,
    {
        self.batch_id
    }

    /// Seals this batch with the collected signatures. The certificate
    /// published to peers carries the same batch identifier and round as
    /// the batch itself.
    pub fn seal(self, signatures: Vec<Signature>) -> (r: SealedBatch)
        ensures
            r.batch == self,
            r.certificate.batch_id == self.batch_id,
            r.certificate.round == self.round,
            r.certificate.signatures@ == signatures@,
    {
        let certificate = Certificate { batch_id: self.batch_id, round: self.round, signatures };
        SealedBatch { batch: self, certificate }
    }
}

/// The published portion of a sealed batch: the batch identifier, its
/// round, and the quorum of signatures that sealed it.
#[derive(Debug, PartialEq, Eq)]
pub struct Certificate {
    pub batch_id: u64,
    pub round: u64,
    pub signatures: Vec<Signature>,
}

/// The mathematical shape of a [`Certificate`].
pub struct CertificateView {
    pub batch_id: u64,
    pub round: u64,
    pub signatures: Seq<Signature>,
}

impl View for Certificate {
    type V = CertificateView;

    open spec fn view(&self) -> CertificateView {
        CertificateView {
            batch_id: self.batch_id,
            round: self.round,
            signatures: self.signatures@,
        }
    }
}

/// A batch sealed by a quorum of signatures, kept locally together with the
/// certificate that is published to peers.
#[derive(Debug)]
pub struct SealedBatch {
    pub batch: Batch,
    pub certificate: Certificate,
}

impl SealedBatch {
    /// The certificate to publish.
    pub fn certificate(&self) -> (r: &Certificate)
        ensures
            r == self.certificate,
    {
        &self.certificate
    }
}

} // verus!
