//! Conversions between 32-bit integers and single-precision numbers held as
//! IEEE-754 bit patterns, with the rounding of Rust's `as` casts.
use vstd::prelude::*;
use vstd::arithmetic::power2::{pow2, lemma2_to64, lemma_pow2_pos, lemma_pow2_adds, lemma_pow2_strictly_increases, lemma_pow2_unfold};
use vstd::bits::{lemma_u64_shr_is_div, lemma_u64_shl_is_mul};

verus! {

/// Biased exponent field.
pub open spec fn exponent_of(b: u32) -> nat {
    ((b / 0x80_0000) % 0x100) as nat
}

/// Fraction field.
pub open spec fn fraction_of(b: u32) -> nat {
    (b % 0x80_0000) as nat
}

pub open spec fn is_negative(b: u32) -> bool {
    b >= 0x8000_0000
}

/// Magnitude of a finite number, rounded toward zero to an integer.
pub open spec fn trunc_magnitude(b: u32) -> nat {
    let e = exponent_of(b);
    let m = fraction_of(b) + 0x80_0000;
    if e == 0 {
        0
    } else if e >= 150 {
        m * pow2((e - 150) as nat)
    } else {
        m / pow2((150 - e) as nat)
    }
}

pub open spec fn clamp_i32(v: int) -> i32 {
    if v < i32::MIN {
        i32::MIN
    } else if v > i32::MAX {
        i32::MAX
    } else {
        v as i32
    }
}

/// A number rounded toward zero to an `i32`, saturating at the ends of the
/// range, with NaN giving zero.
pub open spec fn float_to_int(b: u32) -> i32 {
    if exponent_of(b) == 255 && fraction_of(b) != 0 {
        0
    } else if exponent_of(b) == 255 {
        if is_negative(b) { i32::MIN } else { i32::MAX }
    } else {
        let t = trunc_magnitude(b) as int;
        clamp_i32(if is_negative(b) { -t } else { t })
    }
}

pub fn truncate_to_int(b: u32) -> (r: i32)
    ensures
        r == float_to_int(b),
{
    let e: u32 = (b / 0x80_0000) % 0x100;
    let f: u32 = b % 0x80_0000;
    let neg = b >= 0x8000_0000;
    if e == 255 && f != 0 {
        return 0;
    }
    proof {
        lemma2_to64();
    }
    if e >= 158 {
        proof {
            if e != 255 {
                let m = fraction_of(b) + 0x80_0000;
                lemma_pow2_adds(8, (e - 158) as nat);
                lemma_pow2_pos((e - 158) as nat);
                assert(m * pow2((e - 150) as nat) >= 0x80_0000 * 256) by (nonlinear_arith)
                    requires
                        m >= 0x80_0000,
                        pow2((e - 150) as nat) == 256 * pow2((e - 158) as nat),
                        pow2((e - 158) as nat) >= 1,
                ;
            }
        }
        return if neg { i32::MIN } else { i32::MAX };
    }
    let m: u64 = (f + 0x80_0000) as u64;
    let t: u64 = if e < 127 {
        proof {
            if e != 0 {
                if e < 126 {
                    lemma_pow2_strictly_increases(24, (150 - e) as nat);
                }
                vstd::arithmetic::div_mod::lemma_basic_div(m as int, pow2((150 - e) as nat) as int);
            }
        }
        0
    } else if e >= 150 {
        let sh: u64 = (e - 150) as u64;
        proof {
            if sh < 7 {
                lemma_pow2_strictly_increases(sh as nat, 7);
            }
            assert(m * pow2(sh as nat) <= 0x100_0000 * 128) by (nonlinear_arith)
                requires
                    m < 0x100_0000,
                    pow2(sh as nat) <= 128,
            ;
            lemma_u64_shl_is_mul(m, sh);
        }
        m << sh
    } else {
        let sh: u64 = (150 - e) as u64;
        proof {
            lemma_u64_shr_is_div(m, sh);
            lemma_pow2_pos(sh as nat);
            vstd::arithmetic::div_mod::lemma_div_is_ordered_by_denominator(m as int, 1, pow2(sh as nat) as int);
        }
        m >> sh
    };
    if neg {
        (0 - t as i64) as i32
    } else {
        proof {
            if t == 0x8000_0000 {
                assert(t as int > i32::MAX);
            }
        }
        if t > 0x7fff_ffff { i32::MAX } else { t as i32 }
    }
}

/// Index of the highest set bit of a positive number.
pub open spec fn floor_log2(n: nat) -> nat
    decreases n,
{
    if n <= 1 {
        0
    } else {
        1 + floor_log2(n / 2)
    }
}

/// The 24-bit significand of `n`, whose highest bit is bit `k`, rounded to
/// nearest with ties to even; it may round up to `2^24`.
pub open spec fn rounded_significand(n: nat, k: nat) -> nat {
    if k <= 23 {
        n * pow2((23 - k) as nat)
    } else {
        let sh = (k - 23) as nat;
        let q = n / pow2(sh);
        let rem = n % pow2(sh);
        let half = pow2((sh - 1) as nat);
        if rem > half || (rem == half && q % 2 == 1) {
            q + 1
        } else {
            q
        }
    }
}

/// The single-precision number nearest to `i`, ties to even. A significand
/// that rounds up to `2^24` carries into the exponent.
pub open spec fn int_to_float(i: i32) -> u32 {
    if i == 0 {
        0
    } else {
        let n = (if i < 0 { -(i as int) } else { i as int }) as nat;
        let k = floor_log2(n);
        let sign: nat = if i < 0 { 0x8000_0000 } else { 0 };
        (sign + (k + 127) * 0x80_0000 + (rounded_significand(n, k) - 0x80_0000)) as u32
    }
}

proof fn lemma_floor_log2(n: nat, k: nat)
    requires
        pow2(k) <= n < pow2(k + 1),
    ensures
        floor_log2(n) == k,
    decreases k,
{
    lemma_pow2_unfold(k + 1);
    if k == 0 {
        assert(pow2(0) == 1) by { lemma2_to64(); }
    } else {
        lemma_pow2_unfold(k);
        lemma_floor_log2(n / 2, (k - 1) as nat);
    }
}

pub fn int_to_float_bits(i: i32) -> (r: u32)
    ensures
        r == int_to_float(i),
{
    if i == 0 {
        return 0;
    }
    proof {
        lemma2_to64();
    }
    let n: u64 = if i < 0 { (0 - i as i64) as u64 } else { i as u64 };
    let mut k: u64 = 0;
    while (n >> (k + 1)) != 0
        invariant
            1 <= n <= 0x8000_0000,
            k <= 31,
            pow2(31) == 0x8000_0000,
            pow2(k as nat) <= n,
        decreases 32 - k,
    {
        proof {
            lemma_u64_shr_is_div(n, (k + 1) as u64);
            lemma_pow2_pos((k + 1) as nat);
            if n < pow2((k + 1) as nat) {
                vstd::arithmetic::div_mod::lemma_basic_div(n as int, pow2((k + 1) as nat) as int);
            }
            if k + 1 > 31 {
                lemma_pow2_strictly_increases(31, (k + 1) as nat);
            }
        }
        k = k + 1;
    }
    proof {
        lemma_u64_shr_is_div(n, (k + 1) as u64);
        lemma_pow2_pos((k + 1) as nat);
        if n >= pow2((k + 1) as nat) {
            vstd::arithmetic::div_mod::lemma_div_is_ordered(pow2((k + 1) as nat) as int, n as int, pow2((k + 1) as nat) as int);
            vstd::arithmetic::div_mod::lemma_div_by_self(pow2((k + 1) as nat) as int);
        }
        lemma_floor_log2(n as nat, k as nat);
    }
    let q: u64 = if k <= 23 {
        let sh: u64 = 23 - k;
        proof {
            lemma_pow2_adds(k as nat, sh as nat);
            assert(n * pow2(sh as nat) < 0x100_0000) by (nonlinear_arith)
                requires
                    n < pow2((k + 1) as nat),
                    pow2((k + 1) as nat) == 2 * pow2(k as nat),
                    pow2(k as nat) * pow2(sh as nat) == 0x80_0000,
            ;
            lemma_pow2_unfold((k + 1) as nat);
            lemma_u64_shl_is_mul(n, sh);
            assert(n * pow2(sh as nat) >= 0x80_0000) by (nonlinear_arith)
                requires
                    n >= pow2(k as nat),
                    pow2(k as nat) * pow2(sh as nat) == 0x80_0000,
            ;
        }
        n << sh
    } else {
        let sh: u64 = k - 23;
        proof {
            lemma_u64_shr_is_div(n, sh);
            lemma_u64_shl_is_mul(1, sh);
            lemma_u64_shl_is_mul(1, (sh - 1) as u64);
            lemma_pow2_strictly_increases(sh as nat, 32);
            lemma_pow2_strictly_increases((sh - 1) as nat, 32);
            lemma_pow2_adds(23, sh as nat);
            lemma_pow2_unfold((k + 1) as nat);
            lemma_pow2_pos(sh as nat);
            assert(pow2(k as nat) == pow2(23) * pow2(sh as nat));
            vstd::arithmetic::div_mod::lemma_multiply_divide_lt(n as int, pow2(sh as nat) as int, 0x100_0000);
            vstd::arithmetic::div_mod::lemma_div_multiples_vanish((2 * pow2(23)) as int, pow2(sh as nat) as int);
            vstd::arithmetic::mul::lemma_mul_is_associative(2, pow2(23) as int, pow2(sh as nat) as int);
            vstd::arithmetic::div_mod::lemma_div_is_ordered((pow2(23) * pow2(sh as nat)) as int, n as int, pow2(sh as nat) as int);
            vstd::arithmetic::div_mod::lemma_div_multiples_vanish(pow2(23) as int, pow2(sh as nat) as int);
            assert(pow2(23) * pow2(sh as nat) == pow2(sh as nat) * pow2(23)) by (nonlinear_arith);
        }
        let low: u64 = n % (1u64 << sh);
        let q0: u64 = n >> sh;
        let half: u64 = 1u64 << (sh - 1);
        if low > half || (low == half && q0 % 2 == 1) { q0 + 1 } else { q0 }
    };
    assert(q <= 0x100_0000);
    let sign: u64 = if i < 0 { 0x8000_0000 } else { 0 };
    assert(q >= 0x80_0000);
    (sign + (k + 127) * 0x80_0000 + (q - 0x80_0000)) as u32
}

} // verus!
