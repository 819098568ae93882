use vstd::prelude::*;

verus! {

/// A signature over a single message word, as the primary's logic sees one:
/// it records the signer's address and the message that was signed, and
/// verification checks both. The signing scheme itself is a collaborator of
/// this crate; deployments substitute a cryptographic scheme behind the same
/// interface, and the coordination logic here depends only on the facts
/// stated below.
#[derive(Clone, Copy, Debug, PartialEq, Eq, Structural)]
pub struct Signature {
    pub signer: u64,
    pub message: u64,
}

/// The address derived from a private key.
pub open spec fn spec_address_of(private_key: u64) -> u64 {
    !private_key
}

/// Derives the public address of an account from its private key.
pub fn address_of(private_key: u64) -> (r: u64)
    ensures
        r == spec_address_of(private_key),
{
    !private_key
}

/// The signature an account produces over a message word.
pub open spec fn spec_sign(private_key: u64, message: u64) -> Signature {
    Signature { signer: spec_address_of(private_key), message }
}

impl Signature {
    /// Whether this signature binds `message` to the signer at `address`.
    pub open spec fn spec_verify(self, address: u64, message: u64) -> bool {
        self.signer == address && self.message == message
    }

    /// Signs a message word with an account's private key.
    pub fn sign(private_key: u64, message: u64) -> (r: Signature)
        ensures
            r == spec_sign(private_key, message),
    {
        Signature { signer: address_of(private_key), message }
    }

    /// Verifies this signature against an address and a message word.
    pub fn verify(&self, address: u64, message: u64) -> (r: bool)
        ensures
            r == self.spec_verify(address, message),
    {
        self.signer == address && self.message == message
    }
}

/// Signing then verifying succeeds: a signature produced with a private
/// key verifies under that key's own address over the signed message.
pub proof fn lemma_sign_verifies(private_key: u64, message: u64)
    ensures
        spec_sign(private_key, message).spec_verify(spec_address_of(private_key), message),
{
}

} // verus!
