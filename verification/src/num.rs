//! Numbers are IEEE-754 binary64 values, carried as their bit patterns.
//! The library only needs a handful of exact facts about them; everything
//! that computes with floating point is left to the host.

use vstd::prelude::*;

verus! {

/// Bit pattern of `0.0`.
pub const ZERO_BITS: u64 = 0u64;

/// Bit pattern of `1.0`.
pub const ONE_BITS: u64 = 0x3FF0_0000_0000_0000u64;

/// Bit pattern of `-0.0`.
pub const NEG_ZERO_BITS: u64 = 0x8000_0000_0000_0000u64;

/// Largest count that a binary64 value holds exactly (2^53).
pub const EXACT_LIMIT: u64 = 0x20_0000_0000_0000u64;

/// The sign bit.
pub open spec fn sign_of(b: u64) -> bool {
    (b >> 63u64) == 1u64
}

/// The biased exponent field.
pub open spec fn exp_of(b: u64) -> u64 {
    (b >> 52u64) & 0x7FFu64
}

/// The fraction field.
pub open spec fn frac_of(b: u64) -> u64 {
    b & 0xF_FFFF_FFFF_FFFFu64
}

pub open spec fn is_nan(b: u64) -> bool {
    exp_of(b) == 0x7FF && frac_of(b) != 0
}

/// `b` denotes positive or negative zero.
pub open spec fn is_zero(b: u64) -> bool {
    exp_of(b) == 0 && frac_of(b) == 0
}

/// `b` denotes a value `v` with `0 <= v <= 1`.
pub open spec fn in_unit_interval(b: u64) -> bool {
    is_zero(b) || (!sign_of(b) && (exp_of(b) < 1023 || (exp_of(b) == 1023 && frac_of(b) == 0)))
}

/// Position of the leading one bit of `n` (0 for 0 and 1).
pub open spec fn high_bit(n: u64) -> nat
    decreases n,
{
    if n < 2 { 0 } else { 1 + high_bit(n / 2) }
}

/// The binary64 encoding of a count `n < 2^53`: the exponent records the
/// position `k` of the leading bit and the fraction holds the `k` bits below
/// it, aligned to the top of the 52-bit field.
pub open spec fn count_bits(n: u64) -> u64 {
    if n == 0 {
        0
    } else {
        let k = high_bit(n) as u64;
        (((1023u64 + k) as u64) << 52u64) | (((n - (1u64 << k)) as u64) << ((52u64 - k) as u64))
    }
}

/// What `v as usize` gives for the binary64 value with bits `b` when `usize`
/// has 64 bits: NaN and negative values give 0, values of 2^64 and above
/// (and infinity) saturate, and finite values `m * 2^(e - 52)` are truncated
/// toward zero.
pub open spec fn trunc_u64(b: u64) -> u64 {
    let e = exp_of(b);
    let m = frac_of(b) | 0x10_0000_0000_0000u64;
    if e == 0x7FF {
        if frac_of(b) != 0 || sign_of(b) { 0 } else { u64::MAX }
    } else if sign_of(b) || e < 1023 {
        0
    } else if e >= 1023 + 64 {
        u64::MAX
    } else if e >= 1023 + 52 {
        m << ((e - 1023 - 52) as u64)
    } else {
        m >> ((1023 + 52 - e) as u64)
    }
}

/// `v as usize`: truncation toward zero, saturating at both ends, NaN to 0.
pub open spec fn to_index_spec(b: u64) -> usize {
    let t = trunc_u64(b);
    if t <= usize::MAX { t as usize } else { usize::MAX }
}

proof fn lemma_high_bit(n: u64)
    requires 1 <= n,
    ensures
        high_bit(n) < 64,
        (1u64 << high_bit(n)) <= n,
        n / 2 < (1u64 << high_bit(n)),
    decreases n,
{
    if n < 2 {
        assert((1u64 << 0u64) == 1) by (bit_vector);
    } else {
        lemma_high_bit(n / 2);
        let k = high_bit(n / 2) as u64;
        let h = n / 2;
        assert((1u64 << (k + 1) as u64) == 2 * (1u64 << k) && (1u64 << k) <= h && h / 2 < (1u64 << k) ==> ((1u64 << (k + 1) as u64) <= n && n / 2 < (1u64 << (k + 1) as u64))) by (nonlinear_arith)
            requires h == n / 2;
        assert(k < 63) by {
            assert(k < 64);
            if k == 63 {
                assert((1u64 << 63u64) == 0x8000_0000_0000_0000u64) by (bit_vector);
                assert(h <= 0x7FFF_FFFF_FFFF_FFFFu64);
            }
        }
        assert((1u64 << (k + 1) as u64) == 2 * (1u64 << k)) by (bit_vector)
            requires k < 63;
    }
}

/// Reading back the encoding of a count gives the count.
pub proof fn lemma_count_roundtrip(n: u64)
    requires n < EXACT_LIMIT,
    ensures trunc_u64(count_bits(n)) == n,
{
    if n == 0 {
        assert(trunc_u64(0) == 0) by (bit_vector);
    } else {
        lemma_high_bit(n);
        let k = high_bit(n) as u64;
        assert(k <= 52) by {
            if k > 52 {
                assert((1u64 << k) >= 0x20_0000_0000_0000u64) by (bit_vector)
                    requires 52 < k < 64;
            }
        }
        let b = count_bits(n);
        let d: u64 = (n - (1u64 << k)) as u64;
        let f: u64 = d << ((52u64 - k) as u64);
        let s: u64 = (52u64 - k) as u64;
        assert(d < (1u64 << k)) by (bit_vector)
            requires k <= 52, (1u64 << k) <= n, n / 2 < (1u64 << k), d == n - (1u64 << k);
        assert(f < 0x10_0000_0000_0000u64) by (bit_vector)
            requires k <= 52, d < (1u64 << k), f == d << ((52u64 - k) as u64);
        assert(exp_of(b) == 1023 + k && frac_of(b) == f && !sign_of(b)) by (bit_vector)
            requires k <= 52, f < 0x10_0000_0000_0000u64,
                b == (((1023u64 + k) as u64) << 52u64) | f;
        assert((f | 0x10_0000_0000_0000u64) == n << s) by (bit_vector)
            requires k <= 52, s == 52 - k, d < (1u64 << k), n == d + (1u64 << k), f == d << s;
        assert((n << s) >> s == n) by (bit_vector)
            requires k <= 52, s == 52 - k, n / 2 < (1u64 << k);
        assert((n << 0u64) == n) by (bit_vector);
    }
}

pub fn count_to_bits(n: u64) -> (b: u64)
    requires n < EXACT_LIMIT,
    ensures b == count_bits(n),
{
    if n == 0 {
        return 0;
    }
    let mut k: u64 = 0;
    let mut m: u64 = n;
    while m >= 2
        invariant
            1 <= m <= n,
            k + high_bit(m) == high_bit(n),
            k < 64,
            n < EXACT_LIMIT,
        decreases m,
    {
        proof {
            lemma_high_bit(n);
            assert(high_bit(m) == 1 + high_bit(m / 2));
        }
        m = m / 2;
        k = k + 1;
        proof { lemma_high_bit(n); }
    }
    proof { lemma_high_bit(n); }
    assert(k <= 52) by {
        if k > 52 {
            assert((1u64 << k) >= 0x20_0000_0000_0000u64) by (bit_vector)
                requires 52 < k < 64;
        }
    }
    (((1023u64 + k) as u64) << 52u64) | (((n - (1u64 << k)) as u64) << ((52u64 - k) as u64))
}

pub fn to_index(b: u64) -> (r: usize)
    ensures r == to_index_spec(b),
{
    let e = (b >> 52u64) & 0x7FFu64;
    let f = b & 0xF_FFFF_FFFF_FFFFu64;
    let neg = (b >> 63u64) == 1u64;
    let m = f | 0x10_0000_0000_0000u64;
    let t: u64 = if e == 0x7FF {
        if f != 0 || neg { 0 } else { u64::MAX }
    } else if neg || e < 1023 {
        0
    } else if e >= 1023 + 64 {
        u64::MAX
    } else if e >= 1023 + 52 {
        m << (e - 1023 - 52)
    } else {
        m >> (1023 + 52 - e)
    };
    if t <= usize::MAX as u64 { t as usize } else { usize::MAX }
}

pub fn is_zero_bits(b: u64) -> (r: bool)
    ensures r == is_zero(b),
{
    let r = (b & 0x7FFF_FFFF_FFFF_FFFFu64) == 0;
    assert(r == is_zero(b)) by (bit_vector)
        requires r == ((b & 0x7FFF_FFFF_FFFF_FFFFu64) == 0);
    r
}

pub fn in_unit_interval_bits(b: u64) -> (r: bool)
    ensures r == in_unit_interval(b),
{
    let r = b <= ONE_BITS || b == NEG_ZERO_BITS;
    assert(r == in_unit_interval(b)) by (bit_vector)
        requires r == (b <= 0x3FF0_0000_0000_0000u64 || b == 0x8000_0000_0000_0000u64);
    r
}

} // verus!
