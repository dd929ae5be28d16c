//! Content addresses: the number a payload is known by.
//!
//! A unit does not carry its payload, only the payload's address, which is
//! the 64-bit FNV-1a hash of the payload's bytes.

use vstd::prelude::*;

verus! {

/// The FNV-1a offset basis.
pub const ADDRESS_BASIS: u64 = 0xcbf2_9ce4_8422_2325;

/// The FNV-1a prime.
pub const ADDRESS_PRIME: u64 = 0x0000_0100_0000_01b3;

/// One round of the hash: fold the byte in, then multiply, keeping the low
/// 64 bits.
pub open spec fn address_step(hash: u64, byte: u8) -> u64 {
    (hash ^ (byte as u64)).wrapping_mul(ADDRESS_PRIME)
}

/// The address of a payload: the basis, then one round per byte in order.
pub open spec fn address_of(bytes: Seq<u8>) -> u64
    decreases bytes.len(),
{
    if bytes.len() == 0 {
        ADDRESS_BASIS
    } else {
        address_step(address_of(bytes.drop_last()), bytes.last())
    }
}

/// Computes the address of a payload.
pub fn content_address(bytes: &[u8]) -> (address: u64)
    ensures
        address == address_of(bytes@),
{
    let mut hash: u64 = ADDRESS_BASIS;
    let mut i: usize = 0;
    while i < bytes.len()
        invariant
            i <= bytes.len(),
            hash == address_of(bytes@.take(i as int)),
        decreases bytes.len() - i,
    {
        proof {
            let grown = bytes@.take(i + 1);
            assert(grown.drop_last() =~= bytes@.take(i as int));
            assert(grown.last() == bytes@[i as int]);
        }
        hash = (hash ^ (bytes[i] as u64)).wrapping_mul(ADDRESS_PRIME);
        i += 1;
    }
    assert(bytes@.take(bytes.len() as int) =~= bytes@);
    hash
}

} // verus!
