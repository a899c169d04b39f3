//! Single precision numbers of IEEE 754, held by their bits.
use vstd::prelude::*;

verus! {

/// The bits of one.
pub const ONE: u32 = 0x3f80_0000;

/// The number is positive and finite.
pub open spec fn positive_finite(bits: u32) -> bool {
    0 < bits < 0x7f80_0000
}

/// The number is not zero. A NaN counts as not zero.
pub open spec fn nonzero(bits: u32) -> bool {
    bits != 0 && bits != 0x8000_0000
}

/// The number is positive: an infinite one too.
pub open spec fn positive(bits: u32) -> bool {
    0 < bits <= 0x7f80_0000
}

/// The number is zero or negative. A NaN is neither this nor positive.
pub open spec fn at_most_zero(bits: u32) -> bool {
    bits == 0 || 0x8000_0000 <= bits <= 0xff80_0000
}

/// The smallest integer that is not less than a positive finite number.
pub open spec fn ceiling(bits: u32) -> int {
    let e = bits as int / 0x80_0000;
    let m = 0x80_0000 + bits as int % 0x80_0000;
    if e < 127 {
        1
    } else if e <= 150 {
        let p = vstd::arithmetic::power2::pow2((150 - e) as nat) as int;
        if m % p == 0 {
            m / p
        } else {
            m / p + 1
        }
    } else {
        m * vstd::arithmetic::power2::pow2((e - 150) as nat)
    }
}

/// Whether the number is positive and finite.
pub fn is_positive_finite(bits: u32) -> (r: bool)
    ensures
        r == positive_finite(bits),
{
    0 < bits && bits < 0x7f80_0000
}

/// Whether the number is not zero.
pub fn is_nonzero(bits: u32) -> (r: bool)
    ensures
        r == nonzero(bits),
{
    bits != 0 && bits != 0x8000_0000
}

/// Whether the number is positive.
pub fn is_positive(bits: u32) -> (r: bool)
    ensures
        r == positive(bits),
{
    0 < bits && bits <= 0x7f80_0000
}

/// Whether the number is zero or negative.
pub fn is_at_most_zero(bits: u32) -> (r: bool)
    ensures
        r == at_most_zero(bits),
{
    bits == 0 || (0x8000_0000 <= bits && bits <= 0xff80_0000)
}

fn power(n: u32) -> (r: u64)
    requires
        n < 32,
    ensures
        r == vstd::arithmetic::power2::pow2(n as nat),
        0 < r <= 0x8000_0000,
{
    let mut r: u64 = 1;
    let mut i: u32 = 0;
    proof {
        vstd::arithmetic::power2::lemma2_to64();
    }
    while i < n
        invariant
            i <= n < 32,
            r == vstd::arithmetic::power2::pow2(i as nat),
            0 < r <= 0x8000_0000,
        decreases n - i,
    {
        proof {
            vstd::arithmetic::power2::lemma_pow2_unfold((i + 1) as nat);
            vstd::arithmetic::power2::lemma2_to64();
            if i + 1 < 31 {
                vstd::arithmetic::power2::lemma_pow2_strictly_increases((i + 1) as nat, 31);
            }
        }
        r = r * 2;
        i = i + 1;
    }
    r
}

/// A positive finite number rounded up, kept to what 32 bits hold.
pub fn ceil_u32(bits: u32) -> (r: u32)
    requires
        positive_finite(bits),
    ensures
        r == if ceiling(bits) > u32::MAX {
            u32::MAX as int
        } else {
            ceiling(bits)
        },
{
    let e: u32 = bits / 0x80_0000;
    let m: u64 = 0x80_0000 + (bits % 0x80_0000) as u64;
    if e < 127 {
        1
    } else if e <= 150 {
        let p: u64 = power(150 - e);
        proof {
            assert(m / p <= m) by (nonlinear_arith)
                requires
                    p > 0,
                    m >= 0,
            ;
        }
        if m % p == 0 {
            (m / p) as u32
        } else {
            (m / p + 1) as u32
        }
    } else if e <= 158 {
        let p: u64 = power(e - 150);
        proof {
            vstd::arithmetic::power2::lemma2_to64();
            if e < 158 {
                vstd::arithmetic::power2::lemma_pow2_strictly_increases((e - 150) as nat, 8);
            }
            assert(m * p < 0x100_0000 * 0x100) by (nonlinear_arith)
                requires
                    0 < m < 0x100_0000,
                    0 < p <= 0x100,
            ;
        }
        (m * p) as u32
    } else {
        proof {
            vstd::arithmetic::power2::lemma2_to64();
            let p = vstd::arithmetic::power2::pow2((e - 150) as nat);
            if e > 159 {
                vstd::arithmetic::power2::lemma_pow2_strictly_increases(9, (e - 150) as nat);
            }
            assert(m * p >= 0x80_0000 * 0x200) by (nonlinear_arith)
                requires
                    m >= 0x80_0000,
                    p >= 0x200,
            ;
        }
        0xffff_ffff
    }
}

/// A number that is no NaN is positive or at most zero, never both, and turns
/// from the one into the other with its sign unless it is zero. Zero of either
/// sign is not positive. A NaN is neither.
pub proof fn lemma_sign(bits: u32)
    requires
        bits < 0x8000_0000,
    ensures
        ({
            let opposite = (bits + 0x8000_0000) as u32;
            let nan = bits > 0x7f80_0000;
            &&& !positive(opposite)
            &&& nan ==> !positive(bits) && !at_most_zero(bits) && !at_most_zero(opposite)
            &&& !nan ==> positive(bits) == !at_most_zero(bits) && at_most_zero(opposite)
            &&& nonzero(bits) == nonzero(opposite)
            &&& !nan ==> positive(bits) == nonzero(bits)
            &&& positive_finite(bits) ==> positive(bits)
            &&& positive(bits) && !positive_finite(bits) ==> bits == 0x7f80_0000
            &&& !positive_finite(opposite)
        }),
{
}

/// A number rounded up is the least integer that is not below it, so that it
/// is less than one above it. A number below one is rounded up to one, and one
/// that has no fraction stays what it is.
pub proof fn lemma_ceiling_at_least(bits: u32)
    requires
        positive_finite(bits),
        0x80_0000 <= bits,
    ensures
        ({
            let e = bits as int / 0x80_0000;
            let m = 0x80_0000 + bits as int % 0x80_0000;
            let c = ceiling(bits);
            &&& c >= 1
            &&& e < 127 ==> c == 1
            &&& 127 <= e <= 150 ==> {
                let p = vstd::arithmetic::power2::pow2((150 - e) as nat) as int;
                (c - 1) * p < m <= c * p
            }
            &&& e > 150 ==> c == m * vstd::arithmetic::power2::pow2((e - 150) as nat)
        }),
{
    let e = bits as int / 0x80_0000;
    let m = 0x80_0000 + bits as int % 0x80_0000;
    vstd::arithmetic::power2::lemma2_to64();
    if e <= 150 && e >= 127 {
        let p = vstd::arithmetic::power2::pow2((150 - e) as nat) as int;
        vstd::arithmetic::power2::lemma_pow2_pos((150 - e) as nat);
        vstd::arithmetic::div_mod::lemma_fundamental_div_mod(m, p);
        vstd::arithmetic::div_mod::lemma_mod_bound(m, p);
        let q = m / p;
        vstd::arithmetic::mul::lemma_mul_is_commutative(p, q);
        vstd::arithmetic::mul::lemma_mul_is_distributive_add(p, q, 1);
        vstd::arithmetic::mul::lemma_mul_is_distributive_sub(p, q, 1);
        vstd::arithmetic::mul::lemma_mul_is_commutative(p, q + 1);
        vstd::arithmetic::mul::lemma_mul_is_commutative(p, q - 1);
        if e < 150 {
            vstd::arithmetic::power2::lemma_pow2_strictly_increases((150 - e) as nat, 24);
        }
        assert(q >= 0) by {
            vstd::arithmetic::div_mod::lemma_div_pos_is_pos(m, p);
        }
        if q == 0 && m % p == 0 {
            assert(m == 0);
        }
    } else if e > 150 {
        let p = vstd::arithmetic::power2::pow2((e - 150) as nat) as int;
        vstd::arithmetic::power2::lemma_pow2_pos((e - 150) as nat);
        assert(m * p >= 1) by (nonlinear_arith)
            requires
                m >= 1,
                p >= 1,
        ;
    }
}

/// An infinite number is positive and not finite, and zero is neither; every
/// other number between them is positive and finite.
pub proof fn lemma_finite(bits: u32)
    ensures
        positive(0x7f80_0000) && !positive_finite(0x7f80_0000),
        !positive(0) && !positive_finite(0) && at_most_zero(0),
        0 < bits < 0x7f80_0000 ==> positive_finite(bits),
{
}

} // verus!
