//! Varints: unsigned 64-bit integers in little-endian groups of seven bits.
//!
//! Each byte carries seven bits of the number in its low bits. Its high bit
//! says that another byte follows. Ten bytes carry 70 bits; of the tenth
//! group only the lowest bit lands inside 64 bits, and the bits above it
//! are dropped.

use crate::error::Error;
use crate::parsed::Parsed;
use vstd::arithmetic::div_mod::{lemma_mod_multiples_vanish, lemma_small_mod};
use vstd::arithmetic::mul::lemma_mul_inequality;
use vstd::arithmetic::power2::{
    lemma2_to64, lemma2_to64_rest, lemma_pow2_adds, lemma_pow2_strictly_increases, pow2,
};
use vstd::bits::lemma_u64_shl_is_mul;
use vstd::prelude::*;

verus! {

/// The largest number of bytes that a varint read accepts: ten groups of
/// seven bits are the fewest that reach 64 bits.
pub const MAX_VARINT_LEN: usize = 10;

/// The number of bytes at the start of `s` that have the continuation bit
/// set.
pub open spec fn continuation_run(s: Seq<u8>) -> nat
    decreases s.len(),
{
    if s.len() > 0 && s[0] >= 0x80 {
        1 + continuation_run(s.drop_first())
    } else {
        0
    }
}

/// The number that the low seven bits of each byte of `s` spell in base
/// 128, least significant group first.
pub open spec fn base128(s: Seq<u8>) -> nat
    decreases s.len(),
{
    if s.len() == 0 {
        0
    } else {
        (s[0] % 0x80) as nat + 0x80 * base128(s.drop_first())
    }
}

/// What reading a varint from the front of `s` gives.
///
/// The varint ends with the first byte whose continuation bit is clear. If
/// that byte is among the first ten, the value is the base-128 number of
/// the bytes up to it, reduced to 64 bits. If the first ten bytes all ask
/// for more, an eleventh byte, whatever it holds, is read and is one too
/// many. If `s` ends before either happens, all of it has been read in
/// vain.
pub open spec fn parse_varint(s: Seq<u8>) -> Parsed<u64> {
    let run = continuation_run(s);
    if run < s.len() && run < MAX_VARINT_LEN {
        Parsed {
            outcome: Ok((base128(s.take(run as int + 1)) % 0x1_0000_0000_0000_0000) as u64),
            consumed: run + 1,
        }
    } else if s.len() > MAX_VARINT_LEN {
        Parsed { outcome: Err(Error::VarintOverflow), consumed: (MAX_VARINT_LEN + 1) as nat }
    } else {
        Parsed { outcome: Err(Error::UnexpectedEof), consumed: s.len() }
    }
}

/// The bytes written for `v`: its groups of seven bits from the lowest up,
/// as few as hold it, each but the last with the continuation bit set. Zero
/// is the single byte `0x00`.
pub open spec fn encode_varint(v: u64) -> Seq<u8>
    decreases v,
{
    if v < 0x80 {
        seq![v as u8]
    } else {
        seq![(v % 0x80 + 0x80) as u8] + encode_varint(v / 0x80)
    }
}

/// The run of continuation bytes is `n` exactly when the first `n` bytes
/// have the bit set and the byte after them, if there is one, has not.
pub proof fn lemma_run_is(s: Seq<u8>, n: nat)
    requires
        n <= s.len(),
        forall|j: int| 0 <= j < n ==> s[j] >= 0x80,
        n < s.len() ==> s[n as int] < 0x80,
    ensures
        continuation_run(s) == n,
    decreases n,
{
    if n > 0 {
        let t = s.drop_first();
        assert forall|j: int| 0 <= j < n - 1 implies t[j] >= 0x80 by {
            assert(t[j] == s[j + 1]);
        }
        if n < s.len() {
            assert(t[n - 1] == s[n as int]);
        }
        lemma_run_is(t, (n - 1) as nat);
    }
}

/// The bytes inside the run have the continuation bit set, and the byte
/// that ends it has not.
pub proof fn lemma_run_bytes(s: Seq<u8>)
    ensures
        continuation_run(s) <= s.len(),
        forall|j: int| 0 <= j < continuation_run(s) ==> s[j] >= 0x80,
        continuation_run(s) < s.len() ==> s[continuation_run(s) as int] < 0x80,
    decreases s.len(),
{
    if s.len() > 0 && s[0] >= 0x80 {
        let t = s.drop_first();
        lemma_run_bytes(t);
        assert forall|j: int| 0 <= j < continuation_run(s) implies s[j] >= 0x80 by {
            if j > 0 {
                assert(s[j] == t[j - 1]);
            }
        }
        if continuation_run(s) < s.len() {
            assert(s[continuation_run(s) as int] == t[continuation_run(t) as int]);
        }
    }
}

/// One more byte adds its seven bits above those already there.
pub proof fn lemma_base128_push(s: Seq<u8>, b: u8)
    ensures
        base128(s.push(b)) == base128(s) + (b % 0x80) * pow2(7 * s.len()),
    decreases s.len(),
{
    lemma2_to64();
    let g = (b % 0x80) as nat;
    if s.len() == 0 {
        assert(s.push(b).drop_first() =~= s);
        assert(base128(s.push(b)) == g + 0x80 * base128(s));
        assert(pow2(7 * s.len()) == 1);
    } else {
        let t = s.drop_first();
        let w = pow2(7 * t.len());
        assert(s.push(b).drop_first() =~= t.push(b));
        assert(s.push(b)[0] == s[0]);
        lemma_base128_push(t, b);
        assert(base128(t.push(b)) == base128(t) + g * w);
        assert(pow2(7 * s.len()) == 0x80 * w) by {
            lemma_pow2_adds(7, 7 * t.len());
            assert(7 + 7 * t.len() == 7 * s.len());
        }
        assert(0x80 * (base128(t) + g * w) == 0x80 * base128(t) + g * (0x80 * w))
            by (nonlinear_arith);
    }
}

/// `n` bytes spell a number below `128^n`.
pub proof fn lemma_base128_bounded(s: Seq<u8>)
    ensures
        base128(s) < pow2(7 * s.len()),
    decreases s.len(),
{
    lemma2_to64();
    if s.len() > 0 {
        let t = s.drop_first();
        lemma_base128_bounded(t);
        lemma_pow2_adds(7, 7 * t.len());
        assert(7 + 7 * t.len() == 7 * s.len());
    }
}

/// The shape of an encoding: as many groups as the number needs and no
/// more, the continuation bit on every byte but the last, and the number
/// itself when read back in base 128.
pub proof fn lemma_encode_varint_shape(v: u64)
    ensures
        1 <= encode_varint(v).len() <= MAX_VARINT_LEN,
        forall|j: int| 0 <= j < encode_varint(v).len() - 1 ==> encode_varint(v)[j] >= 0x80,
        encode_varint(v)[encode_varint(v).len() - 1] < 0x80,
        base128(encode_varint(v)) == v,
        v < pow2(7 * encode_varint(v).len()),
        encode_varint(v).len() > 1 ==> v >= pow2((7 * (encode_varint(v).len() - 1)) as nat),
    decreases v,
{
    lemma2_to64();
    let e = encode_varint(v);
    if v < 0x80 {
        assert(e.drop_first() =~= Seq::<u8>::empty());
        assert(base128(e) == (e[0] % 0x80) as nat + 0x80 * base128(e.drop_first()));
    } else {
        let head = (v % 0x80 + 0x80) as u8;
        let t = encode_varint(v / 0x80);
        lemma_encode_varint_shape(v / 0x80);
        assert(e =~= seq![head] + t);
        assert(e.drop_first() =~= t);
        assert(e[0] == head);
        assert forall|j: int| 0 <= j < e.len() - 1 implies e[j] >= 0x80 by {
            if j > 0 {
                assert(e[j] == t[j - 1]);
            }
        }
        assert(e[e.len() - 1] == t[t.len() - 1]);
        assert(base128(e) == (head % 0x80) as nat + 0x80 * base128(t));
        assert(pow2(7 * e.len()) == 0x80 * pow2(7 * t.len())) by {
            lemma_pow2_adds(7, 7 * t.len());
            assert(7 + 7 * t.len() == 7 * e.len());
        }
        if t.len() > 1 {
            assert(pow2(7 * t.len()) == 0x80 * pow2((7 * (t.len() - 1)) as nat)) by {
                lemma_pow2_adds(7, (7 * (t.len() - 1)) as nat);
                assert(7 + 7 * (t.len() - 1) == 7 * t.len());
            }
        }
        if e.len() > MAX_VARINT_LEN {
            // ten groups or more below the top one would take the number past 64 bits
            lemma_pow2_adds(6, 64);
            if t.len() > MAX_VARINT_LEN {
                lemma_pow2_strictly_increases(70, 7 * t.len());
            }
            assert(v >= pow2(70));
        }
    }
}

/// What is written for a number is read back as that number, whatever
/// follows it in the buffer, and the read stops where the encoding ends.
pub proof fn varint_round_trip(v: u64, rest: Seq<u8>)
    ensures
        parse_varint(encode_varint(v) + rest) == (Parsed {
            outcome: Ok::<u64, Error>(v),
            consumed: encode_varint(v).len(),
        }),
{
    let e = encode_varint(v);
    let s = e + rest;
    lemma_encode_varint_shape(v);
    lemma_run_is(s, (e.len() - 1) as nat);
    assert(s.take(e.len() as int) =~= e);
    lemma2_to64();
    lemma_small_mod(v as nat, 0x1_0000_0000_0000_0000);
}

/// When a read of a varint succeeds, and which way it fails when it does
/// not: it succeeds exactly when one of the first ten bytes has no
/// continuation bit; it overflows exactly when the first ten bytes all
/// have it and an eleventh byte is there; and the buffer has ended too
/// early exactly when every byte has it and there are ten at most. However
/// it ends, the read never goes past the end of the bytes.
pub proof fn varint_outcomes(s: Seq<u8>)
    ensures
        parse_varint(s).outcome is Ok <==> exists|k: int|
            0 <= k < s.len() && k < MAX_VARINT_LEN && s[k] < 0x80,
        parse_varint(s).outcome == Err::<u64, Error>(Error::VarintOverflow) <==> s.len()
            > MAX_VARINT_LEN && forall|j: int| 0 <= j < MAX_VARINT_LEN ==> s[j] >= 0x80,
        parse_varint(s).outcome == Err::<u64, Error>(Error::UnexpectedEof) <==> s.len()
            <= MAX_VARINT_LEN && forall|j: int| 0 <= j < s.len() ==> s[j] >= 0x80,
        parse_varint(s).consumed <= s.len(),
{
    lemma_run_bytes(s);
    let run = continuation_run(s) as int;
    if run < s.len() && run < MAX_VARINT_LEN {
        assert(0 <= run < s.len() && run < MAX_VARINT_LEN && s[run] < 0x80);
    } else {
        assert forall|k: int| 0 <= k < s.len() && k < MAX_VARINT_LEN implies s[k] >= 0x80 by {
            assert(k < run);
        }
    }
}

/// One step of a read: the low seven bits of `b`, shifted to the place of
/// group `i`, are added to what the groups below `i` came to. The sum
/// stays inside 64 bits, and it is the number spelled so far, reduced to 64
/// bits.
pub proof fn lemma_accumulate(acc: u64, b: u8, i: nat)
    requires
        i < MAX_VARINT_LEN,
        acc < pow2(7 * i),
    ensures
        acc + (((b & 0x7f) as u64) << ((7 * i) as u64)) <= u64::MAX,
        acc + (((b & 0x7f) as u64) << ((7 * i) as u64)) == (acc + (b % 0x80) * pow2(7 * i))
            % 0x1_0000_0000_0000_0000,
{
    lemma2_to64();
    lemma2_to64_rest();
    let g = (b & 0x7f) as u64;
    let w = pow2(7 * i);
    assert(b & 0x7f == b % 0x80) by (bit_vector);
    assert(g == b % 0x80);
    if i < 9 {
        assert(0x80 * w <= 0x8000_0000_0000_0000) by {
            lemma_pow2_adds(7, 7 * i);
            if 7 + 7 * i < 63 {
                lemma_pow2_strictly_increases(7 + 7 * i, 63);
            }
        }
        assert(g * w <= 0x7f * w) by {
            lemma_mul_inequality(g as int, 0x7f, w as int);
        }
        lemma_u64_shl_is_mul(g, (7 * i) as u64);
        lemma_small_mod((acc + g * w) as nat, 0x1_0000_0000_0000_0000);
    } else {
        assert(w == 0x8000_0000_0000_0000);
        assert(g << 63 == (g % 2) * 0x8000_0000_0000_0000) by (bit_vector)
            requires
                g < 0x80,
        ;
        let kept = acc + (g % 2) * 0x8000_0000_0000_0000;
        assert(acc + g * w == 0x1_0000_0000_0000_0000 * (g / 2) + kept);
        lemma_mod_multiples_vanish((g / 2) as int, kept as int, 0x1_0000_0000_0000_0000);
        lemma_small_mod(kept as nat, 0x1_0000_0000_0000_0000);
    }
}

} // verus!
