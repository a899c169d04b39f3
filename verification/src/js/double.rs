//! Numbers of scripts: IEEE 754 doubles, held by their bits.
//!
//! What is needed of them here is how they become integers: a cast drops the
//! fraction, keeps to the range of the integer type, and makes zero of a NaN.
use vstd::prelude::*;

verus! {

/// The sign bit is set.
pub open spec fn negative(bits: u64) -> bool {
    bits >= 0x8000_0000_0000_0000
}

/// The eleven bits of the exponent.
pub open spec fn exponent(bits: u64) -> int {
    (bits as int / 0x10_0000_0000_0000) % 0x800
}

/// The fifty-two bits of the fraction.
pub open spec fn fraction(bits: u64) -> int {
    bits as int % 0x10_0000_0000_0000
}

/// The bits are those of no number.
pub open spec fn is_nan(bits: u64) -> bool {
    exponent(bits) == 0x7ff && fraction(bits) != 0
}

/// The bits are those of a number that is neither infinite nor a NaN.
pub open spec fn is_finite(bits: u64) -> bool {
    exponent(bits) != 0x7ff
}

/// The integer part of the magnitude. That of an infinity is taken to be
/// larger than any that a finite double has.
pub open spec fn magnitude(bits: u64) -> nat {
    let e = exponent(bits);
    if e < 1023 {
        0
    } else if e <= 1075 {
        ((0x10_0000_0000_0000 + fraction(bits)) / vstd::arithmetic::power2::pow2((1075 - e) as nat) as int) as nat
    } else {
        ((0x10_0000_0000_0000 + fraction(bits)) * vstd::arithmetic::power2::pow2((e - 1075) as nat)) as nat
    }
}

/// The double with its fraction dropped; zero of a NaN.
pub open spec fn truncated(bits: u64) -> int {
    if is_nan(bits) {
        0
    } else if negative(bits) {
        -(magnitude(bits) as int)
    } else {
        magnitude(bits) as int
    }
}

/// The integer of the range from `lo` to `hi` that is nearest to `n`.
pub open spec fn clamped(n: int, lo: int, hi: int) -> int {
    if n < lo {
        lo
    } else if n > hi {
        hi
    } else {
        n
    }
}

fn exponent_of(bits: u64) -> (r: u64)
    ensures
        r == exponent(bits),
{
    (bits / 0x10_0000_0000_0000) % 0x800
}

fn fraction_of(bits: u64) -> (r: u64)
    ensures
        r == fraction(bits),
{
    bits % 0x10_0000_0000_0000
}

fn power(n: u64) -> (r: u64)
    requires
        n < 64,
    ensures
        r == vstd::arithmetic::power2::pow2(n as nat),
{
    let mut r: u64 = 1;
    let mut i: u64 = 0;
    proof {
        vstd::arithmetic::power2::lemma2_to64();
    }
    while i < n
        invariant
            i <= n < 64,
            r == vstd::arithmetic::power2::pow2(i as nat),
        decreases n - i,
    {
        proof {
            vstd::arithmetic::power2::lemma_pow2_unfold((i + 1) as nat);
            vstd::arithmetic::power2::lemma_pow2_strictly_increases((i + 1) as nat, 64);
            vstd::arithmetic::power2::lemma2_to64();
        }
        r = r * 2;
        i = i + 1;
    }
    r
}

/// The magnitude of a double, as far as it fits in 64 bits.
fn magnitude_of(bits: u64) -> (r: Option<u64>)
    ensures
        match r {
            Some(n) => magnitude(bits) == n,
            None => magnitude(bits) > u64::MAX,
        },
{
    let e: u64 = exponent_of(bits);
    let m: u64 = 0x10_0000_0000_0000 + fraction_of(bits);
    if e < 1023 {
        Some(0)
    } else if e <= 1075 {
        let p: u64 = power(1075 - e);
        proof {
            vstd::arithmetic::power2::lemma_pow2_pos((1075 - e) as nat);
        }
        Some(m / p)
    } else if e < 1087 {
        let p: u64 = power(e - 1075);
        proof {
            vstd::arithmetic::power2::lemma2_to64();
            if e < 1086 {
                vstd::arithmetic::power2::lemma_pow2_strictly_increases((e - 1075) as nat, 11);
            }
            assert(p <= 0x800);
            assert(m * p < 0x20_0000_0000_0000 * 0x800) by (nonlinear_arith)
                requires
                    0 < m < 0x20_0000_0000_0000,
                    0 < p <= 0x800,
            ;
            vstd::arithmetic::power2::lemma_pow2_pos((e - 1075) as nat);
        }
        Some(m * p)
    } else {
        proof {
            vstd::arithmetic::power2::lemma2_to64();
            let p = vstd::arithmetic::power2::pow2((e - 1075) as nat);
            if e > 1087 {
                vstd::arithmetic::power2::lemma_pow2_strictly_increases(12, (e - 1075) as nat);
            }
            assert(p >= 0x1000);
            assert(m * p >= 0x10_0000_0000_0000 * 0x1000) by (nonlinear_arith)
                requires
                    m >= 0x10_0000_0000_0000,
                    p >= 0x1000,
            ;
        }
        None
    }
}

/// Whether the bits are those of no number.
pub fn nan(bits: u64) -> (r: bool)
    ensures
        r == is_nan(bits),
{
    exponent_of(bits) == 0x7ff && fraction_of(bits) != 0
}

/// Whether the bits are those of a number that is neither infinite nor a NaN.
pub fn finite(bits: u64) -> (r: bool)
    ensures
        r == is_finite(bits),
{
    exponent_of(bits) != 0x7ff
}

/// A double as an integer without sign that is at most `hi`.
fn to_unsigned(bits: u64, hi: u64) -> (r: u64)
    ensures
        r == clamped(truncated(bits), 0, hi as int),
{
    if nan(bits) || bits >= 0x8000_0000_0000_0000 {
        return 0;
    }
    match magnitude_of(bits) {
        Some(n) => if n > hi {
            hi
        } else {
            n
        },
        None => hi,
    }
}

/// A double cast to `u64`.
pub fn to_u64(bits: u64) -> (r: u64)
    ensures
        r == clamped(truncated(bits), 0, u64::MAX as int),
{
    to_unsigned(bits, 0xffff_ffff_ffff_ffff)
}

/// A double cast to `u32`.
pub fn to_u32(bits: u64) -> (r: u32)
    ensures
        r == clamped(truncated(bits), 0, u32::MAX as int),
{
    to_unsigned(bits, 0xffff_ffff) as u32
}

/// A double cast to `u8`.
pub fn to_u8(bits: u64) -> (r: u8)
    ensures
        r == clamped(truncated(bits), 0, 255),
{
    to_unsigned(bits, 255) as u8
}

/// A double cast to `i32`.
pub fn to_i32(bits: u64) -> (r: i32)
    ensures
        r == clamped(truncated(bits), i32::MIN as int, i32::MAX as int),
{
    if nan(bits) {
        return 0;
    }
    let n: u64 = match magnitude_of(bits) {
        Some(n) => n,
        None => 0xffff_ffff_ffff_ffff,
    };
    if bits >= 0x8000_0000_0000_0000 {
        if n >= 0x8000_0000 {
            -0x8000_0000
        } else {
            -(n as i32)
        }
    } else if n > 0x7fff_ffff {
        0x7fff_ffff
    } else {
        n as i32
    }
}

/// A double with its fraction dropped is the integer next to it towards zero: its
/// magnitude is not above that of the double, and less than one below it.
/// Numbers below one become zero, and the sign stays.
pub proof fn lemma_truncated(bits: u64)
    requires
        is_finite(bits),
    ensures
        ({
            let e = (bits as int / 0x10_0000_0000_0000) % 0x800;
            let m = 0x10_0000_0000_0000 + bits as int % 0x10_0000_0000_0000;
            let t = truncated(bits);
            let a = if t < 0 {
                -t
            } else {
                t
            };
            &&& bits < 0x8000_0000_0000_0000 ==> t >= 0
            &&& bits >= 0x8000_0000_0000_0000 ==> t <= 0
            &&& e < 1023 ==> t == 0
            &&& 1023 <= e <= 1075 ==> {
                let p = vstd::arithmetic::power2::pow2((1075 - e) as nat) as int;
                a * p <= m < (a + 1) * p
            }
            &&& e > 1075 ==> a == m * vstd::arithmetic::power2::pow2((e - 1075) as nat)
        }),
{
    let e = exponent(bits);
    let m = 0x10_0000_0000_0000 + fraction(bits);
    if 1023 <= e <= 1075 {
        let p = vstd::arithmetic::power2::pow2((1075 - e) as nat) as int;
        vstd::arithmetic::power2::lemma_pow2_pos((1075 - e) as nat);
        vstd::arithmetic::div_mod::lemma_fundamental_div_mod(m, p);
        vstd::arithmetic::div_mod::lemma_mod_bound(m, p);
        vstd::arithmetic::div_mod::lemma_div_pos_is_pos(m, p);
        let q = m / p;
        vstd::arithmetic::mul::lemma_mul_is_commutative(p, q);
        vstd::arithmetic::mul::lemma_mul_is_distributive_add(p, q, 1);
        vstd::arithmetic::mul::lemma_mul_is_commutative(p, q + 1);
    } else if e > 1075 {
        let p = vstd::arithmetic::power2::pow2((e - 1075) as nat) as int;
        vstd::arithmetic::power2::lemma_pow2_pos((e - 1075) as nat);
        assert(m * p >= 0) by (nonlinear_arith)
            requires
                m >= 0,
                p >= 0,
        ;
    }
}

/// A double is finite exactly if not all bits of its exponent are set; of the
/// others those without a fraction are the infinities. No NaN is an integer: it
/// becomes zero.
pub proof fn lemma_kinds(bits: u64)
    ensures
        is_finite(bits) <==> (bits % 0x8000_0000_0000_0000) < 0x7ff0_0000_0000_0000,
        is_nan(bits) <==> (bits % 0x8000_0000_0000_0000) > 0x7ff0_0000_0000_0000,
        is_nan(bits) ==> truncated(bits) == 0,
{
}

/// What is kept to a range lies in it, and is nearer to the number than any
/// other integer of the range; a number of the range stays.
pub proof fn lemma_clamped(n: int, lo: int, hi: int, k: int)
    requires
        lo <= hi,
    ensures
        lo <= clamped(n, lo, hi) <= hi,
        lo <= n <= hi ==> clamped(n, lo, hi) == n,
        n <= k && lo <= k <= hi ==> clamped(n, lo, hi) <= k,
        n >= k && lo <= k <= hi ==> clamped(n, lo, hi) >= k,
{
}

} // verus!
