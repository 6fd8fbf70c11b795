//! The zigzag mapping between signed integers and the unsigned integers
//! that varints carry.
//!
//! Numbers of small magnitude, negative ones too, map to small unsigned
//! numbers and so to short varints: 0, -1, 1, -2, 2, ... become 0, 1, 2, 3,
//! 4, ...

use vstd::prelude::*;

verus! {

/// The unsigned number that stands for `n`: twice `n` where `n` is not
/// negative, and one less than twice its magnitude where it is.
pub open spec fn zigzag(n: i64) -> u64 {
    if n >= 0 {
        (2 * n) as u64
    } else {
        (-2 * n - 1) as u64
    }
}

/// The signed number that `u` stands for: half of an even `u`, and the
/// negative of one more than half of an odd `u`.
pub open spec fn unzigzag(u: u64) -> i64 {
    if u % 2 == 0 {
        (u / 2) as i64
    } else {
        (-(u / 2) - 1) as i64
    }
}

/// Maps a signed integer to the unsigned integer that is written for it,
/// `(n << 1) ^ (n >> 63)`.
pub fn zigzag_encode(n: i64) -> (u: u64)
    ensures
        u == zigzag(n),
{
    let u = ((n << 1) ^ (n >> 63)) as u64;
    assert(((n << 1) ^ (n >> 63)) as u64 == zigzag(n)) by (bit_vector);
    u
}

/// Maps an unsigned integer as read from a varint back to the signed
/// integer it stands for. Every input is valid.
pub fn zigzag_decode(u: u64) -> (n: i64)
    ensures
        n == unzigzag(u),
{
    let half = (u >> 1) as i64;
    assert(u >> 1 == u / 2) by (bit_vector);
    assert((u & 1 == 1) == (u % 2 != 0)) by (bit_vector);
    if u & 1 == 1 {
        -half - 1
    } else {
        half
    }
}

/// Decoding undoes encoding, for every signed integer.
pub proof fn zigzag_round_trip(n: i64)
    ensures
        unzigzag(zigzag(n)) == n,
{
}

/// Encoding undoes decoding, for every unsigned integer: with
/// [`zigzag_round_trip`], the two maps are inverse bijections.
pub proof fn unzigzag_round_trip(u: u64)
    ensures
        zigzag(unzigzag(u)) == u,
{
}

} // verus!
