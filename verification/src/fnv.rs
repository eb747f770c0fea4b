//! 64-bit FNV-1a hashing, the deterministic seed of the mock providers.
use vstd::prelude::*;

use crate::text::utf8_bytes;
use vstd::utf8::encode_utf8;

verus! {

/// The FNV-1a offset basis.
pub open spec fn fnv_offset() -> u64 {
    1469598103934665603
}

/// The FNV-1a prime.
pub open spec fn fnv_prime() -> u64 {
    1099511628211
}

/// One FNV-1a step: xor in the byte, then multiply, wrapping.
pub open spec fn fnv_step(h: u64, b: u8) -> u64 {
    vstd::wrapping::u64_specs::wrapping_mul(h ^ (b as u64), fnv_prime())
}

/// The FNV-1a hash of a byte sequence.
pub open spec fn fnv1a(bytes: Seq<u8>) -> u64
    decreases bytes.len(),
{
    if bytes.len() == 0 {
        fnv_offset()
    } else {
        fnv_step(fnv1a(bytes.drop_last()), bytes.last())
    }
}

/// The FNV-1a hash of the UTF-8 bytes of a text.
pub fn fnv1a_text(text: &String) -> (h: u64)
    ensures
        h == fnv1a(encode_utf8(text@)),
{
    let bytes = utf8_bytes(text);
    let n = bytes.len();
    let mut hash: u64 = 1469598103934665603;
    for i in 0..n
        invariant
            n == bytes@.len(),
            hash == fnv1a(bytes@.take(i as int)),
    {
        assert(bytes@.take(i + 1).drop_last() =~= bytes@.take(i as int));
        hash = (hash ^ (bytes[i] as u64)).wrapping_mul(1099511628211);
    }
    assert(bytes@.take(n as int) =~= bytes@);
    hash
}

} // verus!
