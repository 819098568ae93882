use vstd::prelude::*;
use crate::batch::{Batch, Certificate, SealedBatch};

verus! {

/// First address registered for a peer, if any.
pub open spec fn spec_lookup(s: Seq<(u64, u64)>, key: u64) -> Option<u64>
    decreases s.len(),
{
    if s.len() == 0 {
        None
    } else if s[0].0 == key {
        Some(s[0].1)
    } else {
        spec_lookup(s.drop_first(), key)
    }
}

/// The process-wide registry every subsystem shares: the round counter, the
/// committee, the peer directory, and the stores of proposed and sealed
/// batches.
#[derive(Debug)]
pub struct Shared {
    pub round: u64,
    pub committee: Vec<u64>,
    pub peers: Vec<(u64, u64)>,
    pub certificates: Vec<(u64, Vec<u64>)>,
    pub proposed_batches: Vec<(u64, Batch)>,
    pub sealed_batches: Vec<(u64, Certificate)>,
    pub sealed_from_primary: Vec<(u64, SealedBatch)>,
    pub primary_sender_set: bool,
}

impl Shared {
    /// A fresh registry at the given round with the given committee.
    pub fn new(round: u64, committee: Vec<u64>) -> (r: Shared)
        ensures
            r.round == round,
            r.committee@ == committee@,
            r.peers@.len() == 0,
            r.certificates@.len() == 0,
            r.proposed_batches@.len() == 0,
            r.sealed_batches@.len() == 0,
            r.sealed_from_primary@.len() == 0,
            !r.primary_sender_set,
    {
        Shared {
            round,
            committee,
            peers: Vec::new(),
            certificates: Vec::new(),
            proposed_batches: Vec::new(),
            sealed_batches: Vec::new(),
            sealed_from_primary: Vec::new(),
            primary_sender_set: false,
        }
    }

    /// The current round index.
    pub fn round(&self) -> (r: u64)
        ensures
            r == self.round,
    {
        self.round
    }

    /// How many validators sit in the committee.
    pub fn num_validators(&self) -> (r: usize)
        ensures
            r == self.committee@.len(),
    {
        self.committee.len()
    }

    /// Whether an address belongs to the committee.
    pub fn is_committee_member(&self, address: u64) -> (r: bool)
        ensures
            r == self.committee@.contains(address),
    {
        let mut i: usize = 0;
        while i < self.committee.len()
            invariant
                i <= self.committee@.len(),
                forall|k: int| 0 <= k < i ==> self.committee@[k] != address,
            decreases self.committee@.len() - i,
        {
            if self.committee[i] == address {
                return true;
            }
            i = i + 1;
        }
        false
    }

    /// The address registered for a peer, if the peer is known.
    pub fn get_address(&self, peer_ip: u64) -> (r: Option<u64>)
        ensures
            r == spec_lookup(self.peers@, peer_ip),
    {
        proof {
            assert(self.peers@.skip(0) =~= self.peers@);
        }
        let mut i: usize = 0;
        while i < self.peers.len()
            invariant
                i <= self.peers@.len(),
                spec_lookup(self.peers@, peer_ip) == spec_lookup(
                    self.peers@.skip(i as int),
                    peer_ip,
                ),
            decreases self.peers@.len() - i,
        {
            proof {
                assert(self.peers@.skip(i as int)[0] == self.peers@[i as int]);
                assert(self.peers@.skip(i as int).drop_first() =~= self.peers@.skip(i + 1));
            }
            if self.peers[i].0 == peer_ip {
                return Some(self.peers[i].1);
            }
            i = i + 1;
        }
        proof {
            assert(self.peers@.skip(self.peers@.len() as int) =~= Seq::<(u64, u64)>::empty());
        }
        None
    }

    /// Registers a peer's address.
    pub fn insert_peer(&mut self, peer_ip: u64, address: u64)
        ensures
            *final(self) == (Shared { peers: final(self).peers, ..*old(self) }),
            final(self).peers@ == old(self).peers@.push((peer_ip, address)),
    {
        self.peers.push((peer_ip, address));
    }

    /// The certificate identifiers recorded for a round, if any.
    pub fn previous_certificates(&self, round: u64) -> (r: Option<&Vec<u64>>)
        ensures
            match spec_cert_lookup(self.certificates@, round) {
                Option::Some(ids) => r is Some && r.unwrap()@ == ids,
                Option::None => r is None,
            },
    {
        proof {
            assert(self.certificates@.skip(0) =~= self.certificates@);
        }
        let mut i: usize = 0;
        while i < self.certificates.len()
            invariant
                i <= self.certificates@.len(),
                spec_cert_lookup(self.certificates@, round) == spec_cert_lookup(
                    self.certificates@.skip(i as int),
                    round,
                ),
            decreases self.certificates@.len() - i,
        {
            proof {
                assert(self.certificates@.skip(i as int)[0] == self.certificates@[i as int]);
                assert(self.certificates@.skip(i as int).drop_first() =~= self.certificates@.skip(
                    i + 1,
                ));
            }
            if self.certificates[i].0 == round {
                return Some(&self.certificates[i].1);
            }
            i = i + 1;
        }
        proof {
            assert(self.certificates@.skip(self.certificates@.len() as int) =~= Seq::<
                (u64, Vec<u64>),
            >::empty());
        }
        None
    }

    /// Records the certificate identifiers for a round.
    pub fn store_certificates(&mut self, round: u64, ids: Vec<u64>)
        ensures
            *final(self) == (Shared { certificates: final(self).certificates, ..*old(self) }),
            final(self).certificates@ == old(self).certificates@.push((round, ids)),
    {
        self.certificates.push((round, ids));
    }

    /// Records a batch proposed by a peer.
    pub fn store_proposed_batch(&mut self, peer_ip: u64, batch: Batch)
        ensures
            *final(self) == (Shared { proposed_batches: final(self).proposed_batches, ..*old(self) }),
            final(self).proposed_batches@ == old(self).proposed_batches@.push((peer_ip, batch)),
    {
        self.proposed_batches.push((peer_ip, batch));
    }

    /// Records a certificate sealed by a peer.
    pub fn store_sealed_batch(&mut self, peer_ip: u64, certificate: Certificate)
        ensures
            *final(self) == (Shared { sealed_batches: final(self).sealed_batches, ..*old(self) }),
            final(self).sealed_batches@ == old(self).sealed_batches@.push((peer_ip, certificate)),
    {
        self.sealed_batches.push((peer_ip, certificate));
    }

    /// Records a batch this primary itself sealed.
    pub fn store_sealed_batch_from_primary(&mut self, address: u64, sealed: SealedBatch)
        ensures
            *final(self) == (
            Shared { sealed_from_primary: final(self).sealed_from_primary, ..*old(self) }),
            final(self).sealed_from_primary@ == old(self).sealed_from_primary@.push(
                (address, sealed),
            ),
    {
        self.sealed_from_primary.push((address, sealed));
    }

    /// Publishes the primary's ingress channels to the rest of the process.
    /// The channels themselves live with the runtime; the registry records
    /// that they were published.
    pub fn set_primary_sender(&mut self)
        ensures
            *final(self) == (Shared { primary_sender_set: true, ..*old(self) }),
    {
        self.primary_sender_set = true;
    }
}

/// First certificate list recorded for a round, if any.
pub open spec fn spec_cert_lookup(s: Seq<(u64, Vec<u64>)>, round: u64) -> Option<Seq<u64>>
    decreases s.len(),
{
    if s.len() == 0 {
        None
    } else if s[0].0 == round {
        Some(s[0].1@)
    } else {
        spec_cert_lookup(s.drop_first(), round)
    }
}

} // verus!
