use narwhal_primary::assign_to_worker;
use narwhal_primary::address_of;
use narwhal_primary::codec::{
    deserialize_batch, deserialize_certificate, serialize_batch, serialize_certificate,
};
use narwhal_primary::primary::{quorum_threshold, SealerAction, SignatureOutcome};
use narwhal_primary::Batch;
use narwhal_primary::Certificate;
use narwhal_primary::Error;
use narwhal_primary::Event;
use narwhal_primary::Primary;
use narwhal_primary::Shared;
use narwhal_primary::Signature;
use narwhal_primary::Transmission;
use narwhal_primary::TransmissionId;
use narwhal_primary::Worker;

const SK_A: u64 = 0x1111;
const SK_B: u64 = 0x2222;
const SK_C: u64 = 0x3333;
const PEER_B: u64 = 200;
const PEER_C: u64 = 300;

fn committee_ab() -> Vec<u64> {
    vec![address_of(SK_A), address_of(SK_B)]
}

fn primary_ab(quorum: usize, expiration: u64) -> Primary {
    let shared = Shared::new(1, committee_ab());
    let mut primary = Primary::new(shared, SK_A, quorum, expiration);
    primary.run(2);
    primary.shared.insert_peer(PEER_B, address_of(SK_B));
    primary
}

#[test]
fn happy_path_seal_with_one_signature_quorum() {
    let mut primary = primary_ab(1, u64::MAX);
    primary
        .process_unconfirmed_transaction(42, vec![1, 2, 3])
        .unwrap();

    assert!(primary.proposer_step(100));
    let events = primary.gateway.take_outbox();
    assert_eq!(events.len(), 1);
    assert!(events[0].destination.is_none());
    let batch_id = match &events[0].event {
        Event::BatchPropose(batch) => {
            assert_eq!(batch.round, 1);
            assert_eq!(batch.timestamp, 100);
            assert_eq!(batch.author, address_of(SK_A));
            assert_eq!(batch.transmissions.len(), 1);
            assert_eq!(batch.transmissions[0].0, TransmissionId::Transaction(42));
            batch.batch_id
        }
        other => panic!("expected a proposal broadcast, got {:?}", other),
    };

    let sig_b = Signature::sign(SK_B, batch_id);
    let outcome = primary.process_batch_signature(PEER_B, batch_id, sig_b);
    assert_eq!(outcome, SignatureOutcome::Added);
    assert_eq!(
        primary.proposed_batch.as_ref().unwrap().signatures,
        vec![sig_b]
    );

    let action = primary.sealer_step(101);
    assert_eq!(action, SealerAction::Sealed);
    assert!(primary.proposed_batch.is_none());

    let events = primary.gateway.take_outbox();
    assert_eq!(events.len(), 1);
    match &events[0].event {
        Event::BatchSealed(certificate) => {
            assert_eq!(certificate.batch_id, batch_id);
            assert_eq!(certificate.round, 1);
            assert_eq!(certificate.signatures, vec![sig_b]);
        }
        other => panic!("expected a sealed broadcast, got {:?}", other),
    }

    assert_eq!(primary.shared.sealed_from_primary.len(), 1);
    let (address, sealed) = &primary.shared.sealed_from_primary[0];
    assert_eq!(*address, address_of(SK_A));
    assert_eq!(sealed.batch.batch_id, batch_id);
    assert_eq!(sealed.certificate().batch_id, batch_id);
}

#[test]
fn unknown_batch_id_signature_is_rejected() {
    let mut primary = primary_ab(1, u64::MAX);
    let sig = Signature::sign(SK_B, 0xDEAD);
    let outcome = primary.process_batch_signature(PEER_B, 0xDEAD, sig);
    assert_eq!(outcome, SignatureOutcome::UnknownBatch);
    assert!(primary.proposed_batch.is_none());
    assert_eq!(primary.gateway.outbox.len(), 0);
}

#[test]
fn mismatched_batch_id_signature_is_rejected() {
    let mut primary = primary_ab(2, u64::MAX);
    primary.propose_batch(100);
    let batch_id = primary.proposed_batch.as_ref().unwrap().batch.batch_id;
    let sig = Signature::sign(SK_B, batch_id.wrapping_add(1));
    let outcome = primary.process_batch_signature(PEER_B, batch_id.wrapping_add(1), sig);
    assert_eq!(outcome, SignatureOutcome::UnknownBatch);
    assert_eq!(primary.proposed_batch.as_ref().unwrap().signatures.len(), 0);
}

#[test]
fn non_committee_signer_is_rejected() {
    let mut primary = primary_ab(2, u64::MAX);
    primary.shared.insert_peer(PEER_C, address_of(SK_C));
    primary.propose_batch(100);
    let batch_id = primary.proposed_batch.as_ref().unwrap().batch.batch_id;
    let sig_c = Signature::sign(SK_C, batch_id);
    let outcome = primary.process_batch_signature(PEER_C, batch_id, sig_c);
    assert_eq!(outcome, SignatureOutcome::NotCommittee);
    assert_eq!(primary.proposed_batch.as_ref().unwrap().signatures.len(), 0);
}

#[test]
fn unknown_peer_signature_is_rejected() {
    let mut primary = primary_ab(2, u64::MAX);
    primary.propose_batch(100);
    let batch_id = primary.proposed_batch.as_ref().unwrap().batch.batch_id;
    let sig = Signature::sign(SK_B, batch_id);
    let outcome = primary.process_batch_signature(999, batch_id, sig);
    assert_eq!(outcome, SignatureOutcome::UnknownPeer);
    assert_eq!(primary.proposed_batch.as_ref().unwrap().signatures.len(), 0);
}

#[test]
fn invalid_signature_is_rejected() {
    let mut primary = primary_ab(2, u64::MAX);
    primary.propose_batch(100);
    let batch_id = primary.proposed_batch.as_ref().unwrap().batch.batch_id;
    let bad = Signature {
        signer: address_of(SK_B),
        message: batch_id.wrapping_add(1),
    };
    let outcome = primary.process_batch_signature(PEER_B, batch_id, bad);
    assert_eq!(outcome, SignatureOutcome::InvalidSignature);
    assert_eq!(primary.proposed_batch.as_ref().unwrap().signatures.len(), 0);
}

#[test]
fn duplicate_signatures_dedup() {
    let mut primary = primary_ab(2, u64::MAX);
    primary.propose_batch(100);
    let batch_id = primary.proposed_batch.as_ref().unwrap().batch.batch_id;
    let sig_b = Signature::sign(SK_B, batch_id);
    assert_eq!(
        primary.process_batch_signature(PEER_B, batch_id, sig_b),
        SignatureOutcome::Added
    );
    assert_eq!(
        primary.process_batch_signature(PEER_B, batch_id, sig_b),
        SignatureOutcome::Duplicate
    );
    assert_eq!(primary.proposed_batch.as_ref().unwrap().signatures.len(), 1);
}

#[test]
fn worker_routing_is_deterministic() {
    let mut first = Vec::new();
    for i in 0..100u64 {
        let id = TransmissionId::Transaction(i.wrapping_mul(0x9E3779B9));
        let w = assign_to_worker(&id, 4).unwrap();
        assert!(w < 4);
        first.push(w);
    }
    let mut second = Vec::new();
    for i in 0..100u64 {
        let id = TransmissionId::Transaction(i.wrapping_mul(0x9E3779B9));
        second.push(assign_to_worker(&id, 4).unwrap());
    }
    assert_eq!(first, second);
}

#[test]
fn assign_exact_values_and_no_workers_error() {
    assert_eq!(assign_to_worker(&TransmissionId::Transaction(10), 4), Ok(2));
    assert_eq!(assign_to_worker(&TransmissionId::Solution(7), 3), Ok(1));
    assert_eq!(
        assign_to_worker(&TransmissionId::Transaction(10), 0),
        Err(Error::NoWorkers)
    );
}

#[test]
fn shutdown_is_clean_and_idempotent() {
    let mut primary = primary_ab(1, u64::MAX);
    for i in 0..10u64 {
        primary
            .process_unconfirmed_transaction(i, vec![i as u8])
            .unwrap();
    }
    primary.shut_down();
    assert!(!primary.gateway.running);
    assert!(!primary.handlers_live);
    for w in &primary.workers {
        assert!(!w.accepting);
    }
    assert_eq!(
        primary.process_unconfirmed_transaction(11, vec![11]),
        Err(Error::WorkerShutDown)
    );
    primary.shut_down();
    assert!(!primary.gateway.running);
    assert_eq!(primary.num_workers(), 2);
}

#[test]
fn proposer_waits_while_proposal_outstanding() {
    let mut primary = primary_ab(2, u64::MAX);
    assert!(primary.proposer_step(100));
    let batch_id = primary.proposed_batch.as_ref().unwrap().batch.batch_id;
    assert!(!primary.proposer_step(200));
    assert_eq!(
        primary.proposed_batch.as_ref().unwrap().batch.batch_id,
        batch_id
    );
}

#[test]
fn sealer_idle_waiting_expired() {
    let mut primary = primary_ab(2, 10);
    assert_eq!(primary.sealer_step(0), SealerAction::Idle);
    primary.propose_batch(100);
    assert_eq!(primary.sealer_step(105), SealerAction::Waiting);
    assert!(primary.proposed_batch.is_some());
    assert_eq!(primary.sealer_step(111), SealerAction::Expired);
    assert!(primary.proposed_batch.is_none());
}

#[test]
fn sealing_wins_over_expiry() {
    let mut primary = primary_ab(1, 10);
    primary.propose_batch(100);
    let batch_id = primary.proposed_batch.as_ref().unwrap().batch.batch_id;
    let sig_b = Signature::sign(SK_B, batch_id);
    assert_eq!(
        primary.process_batch_signature(PEER_B, batch_id, sig_b),
        SignatureOutcome::Added
    );
    assert_eq!(primary.sealer_step(1000), SealerAction::Sealed);
    assert_eq!(primary.shared.sealed_from_primary.len(), 1);
}

#[test]
fn routed_transmissions_land_in_assigned_worker() {
    let mut primary = primary_ab(1, u64::MAX);
    let wid = assign_to_worker(&TransmissionId::Transaction(5), 2).unwrap();
    primary
        .process_unconfirmed_transaction(5, vec![9])
        .unwrap();
    assert!(primary.workers[wid as usize]
        .contains(&TransmissionId::Transaction(5)));
    let other = 1 - wid;
    assert!(!primary.workers[other as usize]
        .contains(&TransmissionId::Transaction(5)));
}

#[test]
fn worker_insert_is_idempotent_and_drain_is_total() {
    let mut worker = Worker::new(0);
    worker.process_unconfirmed_transaction(1, vec![1]).unwrap();
    worker.process_unconfirmed_transaction(1, vec![2]).unwrap();
    worker.process_unconfirmed_solution(1, vec![3]).unwrap();
    let drained = worker.drain();
    assert_eq!(drained.len(), 2);
    assert_eq!(drained[0].0, TransmissionId::Transaction(1));
    match &drained[0].1 {
        Transmission::Transaction(data) => assert_eq!(data, &vec![1]),
        other => panic!("expected the first payload, got {:?}", other),
    }
    assert_eq!(drained[1].0, TransmissionId::Solution(1));
    assert_eq!(worker.drain().len(), 0);
    worker.process_unconfirmed_transaction(7, vec![7]).unwrap();
    let again = worker.drain();
    assert_eq!(again.len(), 1);
    assert_eq!(again[0].0, TransmissionId::Transaction(7));
}

#[test]
fn propose_drains_all_workers_highest_id_wins() {
    let mut primary = primary_ab(1, u64::MAX);
    primary.process_unconfirmed_transaction(2, vec![2]).unwrap();
    primary.process_unconfirmed_transaction(3, vec![3]).unwrap();
    primary.process_unconfirmed_solution(4, vec![4]).unwrap();
    primary.propose_batch(100);
    for w in &primary.workers {
        assert!(!w.contains(&TransmissionId::Transaction(2)));
        assert!(!w.contains(&TransmissionId::Transaction(3)));
        assert!(!w.contains(&TransmissionId::Solution(4)));
    }
    let batch = &primary.proposed_batch.as_ref().unwrap().batch;
    assert_eq!(batch.transmissions.len(), 3);
}

#[test]
fn signing_then_verifying_succeeds() {
    let sig = Signature::sign(SK_A, 77);
    assert!(sig.verify(address_of(SK_A), 77));
    assert!(!sig.verify(address_of(SK_B), 77));
    assert!(!sig.verify(address_of(SK_A), 78));
}

#[test]
fn batch_serialization_round_trips() {
    let transmissions = vec![
        (
            TransmissionId::Transaction(5),
            Transmission::Transaction(vec![1, 2, 3]),
        ),
        (
            TransmissionId::Solution(9),
            Transmission::Solution(vec![4, 5]),
        ),
        (
            TransmissionId::Transaction(6),
            Transmission::Transaction(vec![]),
        ),
    ];
    let batch = Batch::new(SK_A, 3, transmissions, vec![10, 11], 1234);
    let bytes = serialize_batch(&batch);
    let parsed = deserialize_batch(&bytes).unwrap();
    assert_eq!(parsed.author, batch.author);
    assert_eq!(parsed.round, 3);
    assert_eq!(parsed.timestamp, 1234);
    assert_eq!(parsed.batch_id, batch.batch_id);
    assert_eq!(parsed.author_signature, batch.author_signature);
    assert_eq!(parsed.previous_certificate_ids, vec![10, 11]);
    assert_eq!(parsed.transmissions.len(), 3);
    assert_eq!(parsed.transmissions[0].0, TransmissionId::Transaction(5));
    match &parsed.transmissions[0].1 {
        Transmission::Transaction(data) => assert_eq!(data, &vec![1, 2, 3]),
        other => panic!("expected a transaction payload, got {:?}", other),
    }
    assert_eq!(parsed.transmissions[1].0, TransmissionId::Solution(9));
    assert_eq!(parsed.transmissions[2].0, TransmissionId::Transaction(6));
    assert_eq!(parsed, batch);
}

#[test]
fn empty_batch_serialization_round_trips() {
    let batch = Batch::new(SK_B, 0, Vec::new(), Vec::new(), 0);
    let bytes = serialize_batch(&batch);
    let parsed = deserialize_batch(&bytes).unwrap();
    assert_eq!(parsed.batch_id, batch.batch_id);
    assert_eq!(parsed.transmissions.len(), 0);
    assert_eq!(parsed.previous_certificate_ids.len(), 0);
    assert_eq!(parsed, batch);
}

#[test]
fn malformed_batch_bytes_are_rejected() {
    assert_eq!(
        deserialize_batch(&vec![1, 2, 3]),
        Err(Error::MalformedBatch)
    );
    let batch = Batch::new(SK_A, 1, Vec::new(), Vec::new(), 5);
    let mut bytes = serialize_batch(&batch);
    bytes.pop();
    assert_eq!(deserialize_batch(&bytes), Err(Error::MalformedBatch));
    let mut primary = primary_ab(1, u64::MAX);
    assert_eq!(
        primary.process_batch_propose(PEER_B, &vec![0xFF; 8]),
        Err(Error::MalformedBatch)
    );
    assert_eq!(primary.shared.proposed_batches.len(), 0);
}

#[test]
fn certificate_serialization_round_trips() {
    let certificate = Certificate {
        batch_id: 99,
        round: 4,
        signatures: vec![Signature::sign(SK_A, 99), Signature::sign(SK_B, 99)],
    };
    let bytes = serialize_certificate(&certificate);
    let parsed = deserialize_certificate(&bytes).unwrap();
    assert_eq!(parsed.batch_id, 99);
    assert_eq!(parsed.round, 4);
    assert_eq!(parsed.signatures, certificate.signatures);
}

#[test]
fn malformed_certificate_bytes_are_rejected() {
    assert_eq!(
        deserialize_certificate(&vec![7; 10]),
        Err(Error::MalformedCertificate)
    );
    let mut primary = primary_ab(1, u64::MAX);
    assert_eq!(
        primary.process_batch_sealed(PEER_B, &vec![7; 10]),
        Err(Error::MalformedCertificate)
    );
    assert_eq!(primary.shared.sealed_batches.len(), 0);
}

#[test]
fn peer_proposal_is_stored_and_signed() {
    let mut primary = primary_ab(1, u64::MAX);
    let peer_batch = Batch::new(SK_B, 1, Vec::new(), Vec::new(), 50);
    let batch_id = peer_batch.batch_id;
    let bytes = serialize_batch(&peer_batch);
    primary.process_batch_propose(PEER_B, &bytes).unwrap();
    assert_eq!(primary.shared.proposed_batches.len(), 1);
    assert_eq!(primary.shared.proposed_batches[0].0, PEER_B);
    assert_eq!(primary.shared.proposed_batches[0].1.batch_id, batch_id);
    let events = primary.gateway.take_outbox();
    assert_eq!(events.len(), 1);
    assert_eq!(events[0].destination, Some(PEER_B));
    match &events[0].event {
        Event::BatchSignature(id, sig) => {
            assert_eq!(*id, batch_id);
            assert!(sig.verify(address_of(SK_A), batch_id));
        }
        other => panic!("expected a signature reply, got {:?}", other),
    }
}

#[test]
fn peer_certificate_is_stored() {
    let mut primary = primary_ab(1, u64::MAX);
    let certificate = Certificate {
        batch_id: 12,
        round: 1,
        signatures: vec![Signature::sign(SK_B, 12)],
    };
    let bytes = serialize_certificate(&certificate);
    primary.process_batch_sealed(PEER_B, &bytes).unwrap();
    assert_eq!(primary.shared.sealed_batches.len(), 1);
    assert_eq!(primary.shared.sealed_batches[0].0, PEER_B);
    assert_eq!(primary.shared.sealed_batches[0].1.batch_id, 12);
}

#[test]
fn seal_preserves_batch_id() {
    let batch = Batch::new(SK_A, 2, Vec::new(), vec![1], 60);
    let batch_id = batch.batch_id;
    let sigs = vec![Signature::sign(SK_B, batch_id)];
    let sealed = batch.seal(sigs.clone());
    assert_eq!(sealed.certificate().batch_id, batch_id);
    assert_eq!(sealed.certificate().round, 2);
    assert_eq!(sealed.certificate().signatures, sigs);
    assert_eq!(sealed.batch.batch_id, batch_id);
}

#[test]
fn proposal_uses_previous_certificates_for_round() {
    let mut shared = Shared::new(7, committee_ab());
    shared.store_certificates(7, vec![71, 72]);
    let mut primary = Primary::new(shared, SK_A, 1, u64::MAX);
    primary.run(1);
    primary.propose_batch(100);
    let batch = &primary.proposed_batch.as_ref().unwrap().batch;
    assert_eq!(batch.round, 7);
    assert_eq!(batch.previous_certificate_ids, vec![71, 72]);
}

#[test]
fn worker_ids_are_a_prefix() {
    let primary = primary_ab(1, u64::MAX);
    assert_eq!(primary.num_workers(), 2);
    for (i, w) in primary.workers.iter().enumerate() {
        assert_eq!(w.id, i as u8);
    }
    let no_workers = Primary::new(Shared::new(1, committee_ab()), SK_A, 1, u64::MAX);
    assert_eq!(no_workers.workers.len(), 0);
}

#[test]
fn quorum_threshold_exact_values() {
    assert_eq!(quorum_threshold(1), 2);
    assert_eq!(quorum_threshold(3), 3);
    assert_eq!(quorum_threshold(4), 4);
    assert_eq!(quorum_threshold(6), 5);
}
