use vstd::prelude::*;

verus! {

/// Errors surfaced by the primary's logic.
#[derive(Clone, Copy, Debug, PartialEq, Eq, Structural)]
pub enum Error {
    /// No workers are available, so a transmission cannot be routed.
    NoWorkers,
    /// The worker has been shut down and accepts no new work.
    WorkerShutDown,
    /// A proposed batch arrived in bytes that do not parse.
    MalformedBatch,
    /// A sealed-batch certificate arrived in bytes that do not parse.
    MalformedCertificate,
}

} // verus!
