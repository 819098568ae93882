//! Core logic of a Narwhal-style mempool primary: worker sharding,
//! batch proposal, signature collection, and sealing into certificates.
//!
//! The primary's decisions are ordinary functions from state and event to
//! state and outbound actions; an embedding runtime owns the clock, the
//! channels and the network transport.

pub mod errors;
pub mod transmission;
pub mod assign;
pub mod signature;
pub mod digest;
pub mod codec;
pub mod batch;
pub mod worker;
pub mod shared;
pub mod gateway;
pub mod primary;

pub use errors::Error;
pub use transmission::{Transmission, TransmissionId};
pub use assign::assign_to_worker;
pub use signature::{address_of, Signature};
pub use batch::{Batch, Certificate, SealedBatch};
pub use worker::Worker;
pub use shared::Shared;
pub use gateway::{Event, Gateway, Outbound};
pub use primary::{Primary, Proposal, MAX_WORKERS};
