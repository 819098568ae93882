use vstd::prelude::*;
use crate::errors::Error;
use crate::transmission::TransmissionId;

verus! {

/// The worker a transmission belongs to: its fingerprint reduced modulo the
/// number of workers, or nothing when there are no workers at all.
pub open spec fn spec_assign(id: TransmissionId, num_workers: u8) -> Option<u8> {
    if num_workers == 0 {
        None
    } else {
        Some((id.spec_fingerprint() % (num_workers as u64)) as u8)
    }
}

/// Computes the worker shard responsible for a transmission.
///
/// The result is a pure function of the identifier and the worker count:
/// for a fixed count, the same identifier always lands on the same worker.
pub fn assign_to_worker(id: &TransmissionId, num_workers: u8) -> (r: Result<u8, Error>)
    ensures
        num_workers == 0 ==> r == Result::<u8, Error>::Err(Error::NoWorkers),
        num_workers > 0 ==> r == Result::<u8, Error>::Ok(spec_assign(*id, num_workers).unwrap()),
        r is Ok ==> r.unwrap() < num_workers,
{
    if num_workers == 0 {
        return Err(Error::NoWorkers);
    }
    let fingerprint = id.fingerprint();
    let worker = fingerprint % (num_workers as u64);
    Ok(worker as u8)
}

} // verus!
