use vstd::prelude::*;
use crate::batch::{Batch, Certificate};
use crate::signature::{spec_address_of, Signature};

verus! {

/// An event on the validator-to-validator wire.
#[derive(Debug)]
pub enum Event {
    /// A freshly authored batch, broadcast for signing.
    BatchPropose(Batch),
    /// A signature over a batch identifier, sent back to its author.
    BatchSignature(u64, Signature),
    /// A sealed batch's certificate, broadcast to everyone.
    BatchSealed(Certificate),
}

/// One message handed to the transport: to one peer, or to all of them.
#[derive(Debug)]
pub struct Outbound {
    /// The receiving peer, or nothing for a broadcast.
    pub destination: Option<u64>,
    pub event: Event,
}

/// The networking facade as the primary's logic sees it: the local account,
/// and a queue of outbound events that the transport drains and delivers.
/// Sockets, serialization on the wire and peer bookkeeping live with the
/// runtime.
#[derive(Debug)]
pub struct Gateway {
    pub private_key: u64,
    pub running: bool,
    pub outbox: Vec<Outbound>,
}

impl Gateway {
    /// A gateway for the local account, not yet started.
    pub fn new(private_key: u64) -> (r: Gateway)
        ensures
            r.private_key == private_key,
            !r.running,
            r.outbox@.len() == 0,
    {
        Gateway { private_key, running: false, outbox: Vec::new() }
    }

    /// The local account's address.
    pub fn address(&self) -> (r: u64)
        ensures
            r == spec_address_of(self.private_key),
    {
        crate::signature::address_of(self.private_key)
    }

    /// Starts the transport.
    pub fn run(&mut self)
        ensures
            *final(self) == (Gateway { running: true, ..*old(self) }),
    {
        self.running = true;
    }

    /// Queues an event for every peer.
    pub fn broadcast(&mut self, event: Event)
        ensures
            *final(self) == (Gateway { outbox: final(self).outbox, ..*old(self) }),
            final(self).outbox@ == old(self).outbox@.push(
                Outbound { destination: None, event },
            ),
    {
        self.outbox.push(Outbound { destination: None, event });
    }

    /// Queues an event for one peer.
    pub fn send(&mut self, peer_ip: u64, event: Event)
        ensures
            *final(self) == (Gateway { outbox: final(self).outbox, ..*old(self) }),
            final(self).outbox@ == old(self).outbox@.push(
                Outbound { destination: Some(peer_ip), event },
            ),
    {
        self.outbox.push(Outbound { destination: Some(peer_ip), event });
    }

    /// Hands the queued events to the transport, leaving the queue empty.
    pub fn take_outbox(&mut self) -> (r: Vec<Outbound>)
        ensures
            *final(self) == (Gateway { outbox: final(self).outbox, ..*old(self) }),
            r@ == old(self).outbox@,
            final(self).outbox@.len() == 0,
    {
        let mut out: Vec<Outbound> = Vec::new();
        core::mem::swap(&mut out, &mut self.outbox);
        out
    }

    /// Closes the transport.
    pub fn shut_down(&mut self)
        ensures
            *final(self) == (Gateway { running: false, ..*old(self) }),
    {
        self.running = false;
    }
}

} // verus!
