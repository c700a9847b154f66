//! Content hashing of the bundle: a deterministic 64-bit
//! Fowler–Noll–Vo accumulator over a framed byte feed, so that two bundles
//! with the same documents carry the same revision.

use vstd::prelude::*;
use crate::json::{push_bytes, push_byte};

verus! {

/// The offset basis of the 64-bit accumulator.
pub open spec fn hash_basis() -> u64 {
    0xcbf29ce484222325
}

/// The multiplier of the 64-bit accumulator.
pub open spec fn hash_prime() -> u64 {
    0x100000001b3
}

/// One accumulation step: fold one byte into the state.
pub open spec fn hash_step(h: u64, b: u8) -> u64 {
    vstd::wrapping::u64_specs::wrapping_mul(h ^ (b as u64), hash_prime())
}

/// The hash of a byte sequence: the accumulator folded over the bytes in
/// order, starting from the offset basis.
pub open spec fn hash_of(s: Seq<u8>) -> u64
    decreases s.len(),
{
    if s.len() == 0 {
        hash_basis()
    } else {
        hash_step(hash_of(s.drop_last()), s.last())
    }
}

/// The little-endian encoding of a 64-bit length, used to frame each part
/// of the feed so that part boundaries are unambiguous.
pub open spec fn le64(n: u64) -> Seq<u8> {
    seq![
        (n & 0xff) as u8,
        ((n >> 8) & 0xff) as u8,
        ((n >> 16) & 0xff) as u8,
        ((n >> 24) & 0xff) as u8,
        ((n >> 32) & 0xff) as u8,
        ((n >> 40) & 0xff) as u8,
        ((n >> 48) & 0xff) as u8,
        ((n >> 56) & 0xff) as u8,
    ]
}

/// One framed part of the feed: its length, then its bytes.
pub open spec fn framed(s: Seq<u8>) -> Seq<u8> {
    le64(s.len() as u64) + s
}

/// Computes the hash of a byte vector.
pub fn hash_bytes(data: &Vec<u8>) -> (h: u64)
    ensures
        h == hash_of(data@),
{
    let mut h: u64 = 0xcbf29ce484222325;
    let mut i: usize = 0;
    while i < data.len()
        invariant
            i <= data@.len(),
            h == hash_of(data@.take(i as int)),
        decreases data@.len() - i,
    {
        h = (h ^ (data[i] as u64)).wrapping_mul(0x100000001b3);
        proof {
            assert(data@.take(i + 1).drop_last() =~= data@.take(i as int));
        }
        i = i + 1;
    }
    proof {
        assert(data@.take(data@.len() as int) =~= data@);
    }
    h
}

/// Appends the little-endian encoding of a 64-bit number.
pub fn push_le64(out: &mut Vec<u8>, n: u64)
    ensures
        final(out)@ == old(out)@ + le64(n),
{
    push_byte(out, (n & 0xff) as u8);
    push_byte(out, ((n >> 8) & 0xff) as u8);
    push_byte(out, ((n >> 16) & 0xff) as u8);
    push_byte(out, ((n >> 24) & 0xff) as u8);
    push_byte(out, ((n >> 32) & 0xff) as u8);
    push_byte(out, ((n >> 40) & 0xff) as u8);
    push_byte(out, ((n >> 48) & 0xff) as u8);
    push_byte(out, ((n >> 56) & 0xff) as u8);
    proof {
        assert(final(out)@ =~= old(out)@ + le64(n));
    }
}

/// Appends one framed part of the feed.
pub fn push_framed(out: &mut Vec<u8>, part: &Vec<u8>)
    ensures
        final(out)@ == old(out)@ + framed(part@),
{
    push_le64(out, part.len() as u64);
    push_bytes(out, part.as_slice());
    proof {
        assert(final(out)@ =~= old(out)@ + framed(part@));
    }
}

} // verus!
