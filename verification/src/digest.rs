use vstd::prelude::*;

verus! {

/// Multiplier of the byte-folding digest (the 64-bit FNV prime).
pub const DIGEST_PRIME: u64 = 0x100000001b3;

/// Initial state of the byte-folding digest (the 64-bit FNV offset basis).
pub const DIGEST_BASIS: u64 = 0xcbf29ce484222325;

/// One digest step: multiply the state by the prime, add the next byte,
/// and keep the low 64 bits.
pub open spec fn spec_digest_step(h: u64, byte: u8) -> u64 {
    (((h as int) * (DIGEST_PRIME as int) + (byte as int)) % 0x10000000000000000) as u64
}

/// The digest of a byte sequence: the left fold of [`spec_digest_step`]
/// over the bytes, starting from the basis.
pub open spec fn spec_digest(bytes: Seq<u8>) -> u64
    decreases bytes.len(),
{
    if bytes.len() == 0 {
        DIGEST_BASIS
    } else {
        spec_digest_step(spec_digest(bytes.drop_last()), bytes.last())
    }
}

/// Computes the digest of a byte slice. The result is a pure function of
/// the bytes alone, so two encodings digest equal exactly when their byte
/// streams match step for step.
pub fn digest(bytes: &Vec<u8>) -> (r: u64)
    ensures
        r == spec_digest(bytes@),
{
    let mut h: u64 = DIGEST_BASIS;
    let mut i: usize = 0;
    while i < bytes.len()
        invariant
            i <= bytes.len(),
            h == spec_digest(bytes@.take(i as int)),
        decreases bytes.len() - i,
    {
        let b = bytes[i];
        let wide: u128 = (h as u128) * (DIGEST_PRIME as u128) + (b as u128);
        let next: u64 = (wide % 0x10000000000000000u128) as u64;
        proof {
            assert(bytes@.take(i + 1).drop_last() =~= bytes@.take(i as int));
            assert(bytes@.take(i + 1).last() == bytes@[i as int]);
        }
        h = next;
        i = i + 1;
    }
    proof {
        assert(bytes@.take(bytes@.len() as int) =~= bytes@);
    }
    h
}

} // verus!
