//! Binary floating-point numbers, held as the bit patterns of their IEEE 754 encodings.
//!
//! A single is a `u32` and a double a `u64`. What is read from them here is what integers can
//! say: equality, order, whether a double is a whole number, and which integer it truncates to.

use vstd::arithmetic::power2::*;
use vstd::prelude::*;

verus! {

/// Is this single a NaN?
pub open spec fn f32_nan(bits: u32) -> bool {
    bits % 0x8000_0000 > 0x7f80_0000
}

/// IEEE equality of singles: NaN equals nothing, and the two zeros are equal.
pub open spec fn f32_eq(a: u32, b: u32) -> bool {
    &&& !f32_nan(a)
    &&& !f32_nan(b)
    &&& a == b || (a % 0x8000_0000 == 0 && b % 0x8000_0000 == 0)
}

/// Is this double a NaN?
pub open spec fn f64_nan(bits: u64) -> bool {
    bits % 0x8000_0000_0000_0000 > 0x7ff0_0000_0000_0000
}

/// IEEE equality of doubles: NaN equals nothing, and the two zeros are equal.
pub open spec fn f64_eq(a: u64, b: u64) -> bool {
    &&& !f64_nan(a)
    &&& !f64_nan(b)
    &&& a == b || (a % 0x8000_0000_0000_0000 == 0 && b % 0x8000_0000_0000_0000 == 0)
}

/// A number that orders doubles other than NaN as IEEE 754 orders them.
pub open spec fn f64_rank(bits: u64) -> int {
    if bits >= 0x8000_0000_0000_0000 {
        -(bits - 0x8000_0000_0000_0000)
    } else {
        bits as int
    }
}

/// IEEE equality of singles.
pub fn same_f32(a: u32, b: u32) -> (r: bool)
    ensures
        r == f32_eq(a, b),
{
    let am: u32 = a % 0x8000_0000;
    let bm: u32 = b % 0x8000_0000;
    am <= 0x7f80_0000 && bm <= 0x7f80_0000 && (a == b || (am == 0 && bm == 0))
}

/// IEEE equality of doubles.
pub fn same_f64(a: u64, b: u64) -> (r: bool)
    ensures
        r == f64_eq(a, b),
{
    let am: u64 = a % 0x8000_0000_0000_0000;
    let bm: u64 = b % 0x8000_0000_0000_0000;
    am <= 0x7ff0_0000_0000_0000 && bm <= 0x7ff0_0000_0000_0000 && (a == b || (am == 0 && bm == 0))
}

/// The biased exponent of a double.
pub open spec fn f64_exponent(bits: u64) -> int {
    (bits / 0x10_0000_0000_0000) as int % 2048
}

/// The significand of a double that is neither infinite nor NaN, as an integer.
pub open spec fn f64_significand(bits: u64) -> nat {
    if f64_exponent(bits) == 0 {
        (bits % 0x10_0000_0000_0000) as nat
    } else {
        (bits % 0x10_0000_0000_0000) as nat + 0x10_0000_0000_0000
    }
}

/// The power of two by which the significand is scaled.
pub open spec fn f64_scale(bits: u64) -> int {
    if f64_exponent(bits) == 0 {
        -1074
    } else {
        f64_exponent(bits) - 1075
    }
}

/// Is this double an integer? Neither an infinity nor a NaN is.
pub open spec fn f64_whole(bits: u64) -> bool {
    &&& f64_exponent(bits) != 2047
    &&& f64_scale(bits) >= 0 || f64_significand(bits) % pow2((-f64_scale(bits)) as nat) == 0
}

/// The magnitude of a finite double, with the fraction dropped.
pub open spec fn f64_magnitude(bits: u64) -> nat {
    if f64_scale(bits) >= 0 {
        f64_significand(bits) * pow2(f64_scale(bits) as nat)
    } else {
        f64_significand(bits) / pow2((-f64_scale(bits)) as nat)
    }
}

/// A finite double truncated towards zero.
pub open spec fn f64_truncated(bits: u64) -> int {
    if bits >= 0x8000_0000_0000_0000 {
        -(f64_magnitude(bits) as int)
    } else {
        f64_magnitude(bits) as int
    }
}

/// `x` brought into `low..=high`.
pub open spec fn clamped(x: int, low: int, high: int) -> int {
    if x < low {
        low
    } else if x > high {
        high
    } else {
        x
    }
}

/// A double as an integer in `low..=high`: truncated towards zero and saturated at the ends; NaN
/// is zero.
pub open spec fn f64_to_int(bits: u64, low: int, high: int) -> int {
    if f64_nan(bits) {
        0
    } else if f64_exponent(bits) == 2047 {
        if bits >= 0x8000_0000_0000_0000 {
            low
        } else {
            high
        }
    } else {
        clamped(f64_truncated(bits), low, high)
    }
}

proof fn pow2_at_least(k: nat, n: nat)
    requires
        k <= n,
    ensures
        pow2(k) <= pow2(n),
{
    if k < n {
        lemma_pow2_strictly_increases(k, n);
    }
}

/// Two to the power of `k`.
fn power(k: u64) -> (r: u64)
    requires
        k < 64,
    ensures
        r == pow2(k as nat),
{
    let mut r: u64 = 1;
    let mut i: u64 = 0;
    proof {
        lemma2_to64();
    }
    while i < k
        invariant
            i <= k < 64,
            r == pow2(i as nat),
        decreases k - i,
    {
        proof {
            lemma_pow2_unfold((i + 1) as nat);
            pow2_at_least((i + 1) as nat, 63);
            lemma2_to64_rest();
        }
        r = r * 2;
        i += 1;
    }
    r
}

proof fn magnitude_bound(bits: u64)
    ensures
        f64_significand(bits) < 0x20_0000_0000_0000,
        f64_exponent(bits) > 0 ==> f64_significand(bits) >= 0x10_0000_0000_0000,
        0 <= f64_exponent(bits) < 2048,
{
}

/// Is this double an integer?
pub fn is_whole(bits: u64) -> (r: bool)
    ensures
        r == f64_whole(bits),
{
    proof {
        magnitude_bound(bits);
        lemma2_to64();
        lemma2_to64_rest();
    }
    let e: u64 = (bits / 0x10_0000_0000_0000) % 2048;
    let m: u64 = bits % 0x10_0000_0000_0000;
    if e == 2047 {
        return false;
    }
    if e == 0 {
        proof {
            pow2_at_least(53, 1074);
            if m != 0 {
                vstd::arithmetic::div_mod::lemma_small_mod(m as nat, pow2(1074));
            }
        }
        return m == 0;
    }
    if e >= 1075 {
        return true;
    }
    let s: u64 = m + 0x10_0000_0000_0000;
    let down: u64 = 1075 - e;
    if down >= 54 {
        proof {
            pow2_at_least(54, down as nat);
            vstd::arithmetic::div_mod::lemma_small_mod(s as nat, pow2(down as nat));
        }
        return false;
    }
    proof {
        lemma_pow2_pos(down as nat);
    }
    s % power(down) == 0
}

/// The magnitude of a finite double with the fraction dropped, or `None` where it is
/// `2^63` or more.
fn magnitude(bits: u64) -> (r: Option<u64>)
    requires
        f64_exponent(bits) != 2047,
    ensures
        match r {
            Some(n) => n == f64_magnitude(bits) && n < 0x8000_0000_0000_0000,
            None => f64_magnitude(bits) >= 0x8000_0000_0000_0000,
        },
{
    proof {
        magnitude_bound(bits);
        lemma2_to64();
        lemma2_to64_rest();
    }
    let e: u64 = (bits / 0x10_0000_0000_0000) % 2048;
    let m: u64 = bits % 0x10_0000_0000_0000;
    if e == 0 {
        proof {
            pow2_at_least(53, 1074);
            vstd::arithmetic::div_mod::lemma_basic_div(m as int, pow2(1074) as int);
        }
        return Some(0);
    }
    let s: u64 = m + 0x10_0000_0000_0000;
    if e >= 1075 {
        let up: u64 = e - 1075;
        if up >= 11 {
            proof {
                pow2_at_least(11, up as nat);
                assert(s * pow2(up as nat) >= 0x10_0000_0000_0000 * pow2(11)) by (nonlinear_arith)
                    requires
                        s >= 0x10_0000_0000_0000,
                        pow2(up as nat) >= pow2(11),
                ;
            }
            return None;
        }
        proof {
            pow2_at_least(up as nat, 10);
            assert(s * pow2(up as nat) < 0x20_0000_0000_0000 * 1024) by (nonlinear_arith)
                requires
                    0 <= s < 0x20_0000_0000_0000,
                    0 < pow2(up as nat) <= 1024,
            ;
            lemma_pow2_pos(up as nat);
        }
        let p: u64 = power(up);
        return Some(s * p);
    }
    let down: u64 = 1075 - e;
    if down >= 54 {
        proof {
            pow2_at_least(54, down as nat);
            vstd::arithmetic::div_mod::lemma_basic_div(s as int, pow2(down as nat) as int);
        }
        return Some(0);
    }
    let p: u64 = power(down);
    proof {
        lemma_pow2_pos(down as nat);
        vstd::arithmetic::div_mod::lemma_div_is_ordered_by_denominator(s as int, 1, p as int);
    }
    Some(s / p)
}

/// A double as an `i32`: truncated towards zero, saturated at the ends, and zero for NaN.
pub fn to_i32(bits: u64) -> (r: i32)
    ensures
        r == f64_to_int(bits, i32::MIN as int, i32::MAX as int),
{
    let r: i64 = to_i64(bits);
    if r < -2147483648 {
        -2147483648
    } else if r > 2147483647 {
        2147483647
    } else {
        r as i32
    }
}

/// A double as an `i64`: truncated towards zero, saturated at the ends, and zero for NaN.
pub fn to_i64(bits: u64) -> (r: i64)
    ensures
        r == f64_to_int(bits, i64::MIN as int, i64::MAX as int),
{
    let unsigned: u64 = bits % 0x8000_0000_0000_0000;
    if unsigned > 0x7ff0_0000_0000_0000 {
        return 0;
    }
    let negative = bits >= 0x8000_0000_0000_0000;
    if unsigned == 0x7ff0_0000_0000_0000 {
        assert(f64_exponent(bits) == 2047);
        return if negative {
            i64::MIN
        } else {
            i64::MAX
        };
    }
    assert(f64_exponent(bits) != 2047);
    match magnitude(bits) {
        None => if negative {
            i64::MIN
        } else {
            i64::MAX
        },
        Some(n) => if negative {
            -(n as i64)
        } else {
            n as i64
        },
    }
}

/// A double as a `u64`: truncated towards zero, saturated at the ends, and zero for NaN.
pub fn to_u64(bits: u64) -> (r: u64)
    ensures
        r == f64_to_int(bits, 0, u64::MAX as int),
{
    let unsigned: u64 = bits % 0x8000_0000_0000_0000;
    if unsigned > 0x7ff0_0000_0000_0000 {
        return 0;
    }
    let negative = bits >= 0x8000_0000_0000_0000;
    if unsigned == 0x7ff0_0000_0000_0000 {
        assert(f64_exponent(bits) == 2047);
        return if negative {
            0
        } else {
            u64::MAX
        };
    }
    assert(f64_exponent(bits) != 2047);
    if negative {
        return 0;
    }
    match magnitude(bits) {
        Some(n) => n,
        None => {
            let e: u64 = (bits / 0x10_0000_0000_0000) % 2048;
            proof {
                magnitude_bound(bits);
                lemma2_to64();
                lemma2_to64_rest();
                if e < 1075 {
                    lemma_pow2_pos((-f64_scale(bits)) as nat);
                    vstd::arithmetic::div_mod::lemma_div_is_ordered_by_denominator(
                        f64_significand(bits) as int,
                        1,
                        pow2((-f64_scale(bits)) as nat) as int,
                    );
                    assert(false);
                }
            }
            let s: u64 = bits % 0x10_0000_0000_0000 + 0x10_0000_0000_0000;
            let up: u64 = e - 1075;
            if up > 11 {
                proof {
                    pow2_at_least(12, up as nat);
                    assert(s * pow2(up as nat) >= 0x10_0000_0000_0000 * 4096) by (nonlinear_arith)
                        requires
                            s >= 0x10_0000_0000_0000,
                            pow2(up as nat) >= 4096,
                    ;
                }
                return u64::MAX;
            }
            proof {
                if up < 11 {
                    pow2_at_least(up as nat, 10);
                    assert(s * pow2(up as nat) < 0x20_0000_0000_0000 * 1024) by (nonlinear_arith)
                        requires
                            0 <= s < 0x20_0000_0000_0000,
                            0 <= pow2(up as nat) <= 1024,
                    ;
                    assert(false);
                }
            }
            s * 2048
        },
    }
}

// ---- into doubles ----

/// The place of the highest bit of a number above zero.
pub open spec fn top_bit(m: nat) -> nat
    decreases m,
{
    if m <= 1 {
        0
    } else {
        1 + top_bit(m / 2)
    }
}

pub(crate) proof fn top_bit_bounds(m: nat)
    requires
        m > 0,
    ensures
        pow2(top_bit(m)) <= m < pow2(top_bit(m) + 1),
    decreases m,
{
    lemma2_to64();
    if m > 1 {
        top_bit_bounds(m / 2);
        lemma_pow2_unfold(top_bit(m));
        lemma_pow2_unfold(top_bit(m) + 1);
    }
}

fn highest(m: u64) -> (r: u64)
    requires
        m > 0,
    ensures
        r == top_bit(m as nat),
        r < 64,
    decreases m,
{
    let r: u64 = if m <= 1 {
        0
    } else {
        let below: u64 = highest(m / 2);
        below + 1
    };
    proof {
        top_bit_bounds(m as nat);
        if r >= 64 {
            pow2_at_least(64, r as nat);
            lemma2_to64_rest();
        }
    }
    r
}

/// `m` divided by a power of two, rounded to the nearest integer and from the middle to the even
/// one.
pub open spec fn halved(m: nat, times: nat) -> nat {
    let q = m / pow2(times);
    let r = m % pow2(times);
    if 2 * r > pow2(times) || (2 * r == pow2(times) && q % 2 == 1) {
        q + 1
    } else {
        q
    }
}

/// The double closest to an integer, of two as close the even one.
pub open spec fn int_f64(n: int) -> int {
    if n == 0 {
        0
    } else {
        let m = if n < 0 {
            (-n) as nat
        } else {
            n as nat
        };
        let p = top_bit(m);
        let sign = if n < 0 {
            0x8000_0000_0000_0000int
        } else {
            0
        };
        let fraction = if p <= 52 {
            m * pow2((52 - p) as nat)
        } else {
            halved(m, (p - 52) as nat)
        };
        sign + (1023 + p) * 0x10_0000_0000_0000 + fraction - 0x10_0000_0000_0000
    }
}

/// The double closest to an integer.
pub fn f64_from_i64(n: i64) -> (r: u64)
    ensures
        r == int_f64(n as int),
{
    if n == 0 {
        return 0;
    }
    let wide: i128 = n as i128;
    let m: u64 = if n < 0 {
        (-wide) as u64
    } else {
        n as u64
    };
    let p: u64 = highest(m);
    let sign: u64 = if n < 0 {
        0x8000_0000_0000_0000
    } else {
        0
    };
    proof {
        top_bit_bounds(m as nat);
        lemma2_to64();
        lemma2_to64_rest();
    }
    let fraction: u64 = if p <= 52 {
        let scale: u64 = power(52 - p);
        proof {
            lemma_pow2_adds(p as nat, (52 - p) as nat);
            lemma_pow2_adds((p + 1) as nat, (52 - p) as nat);
            assert(m * scale < pow2((p + 1) as nat) * scale) by (nonlinear_arith)
                requires
                    m < pow2((p + 1) as nat),
                    scale > 0,
            ;
            assert(m * scale >= pow2(p as nat) * scale) by (nonlinear_arith)
                requires
                    m >= pow2(p as nat),
            ;
        }
        m * scale
    } else {
        let k: u64 = p - 52;
        let scale: u64 = power(k);
        let q: u64 = m / scale;
        let rest: u64 = m % scale;
        proof {
            lemma_pow2_adds(53, k as nat);
            lemma_pow2_adds(52, k as nat);
            assert(q < 0x20_0000_0000_0000) by (nonlinear_arith)
                requires
                    m < 0x20_0000_0000_0000 * scale,
                    scale > 0,
                    q == m / scale,
            ;
            assert(q >= 0x10_0000_0000_0000) by (nonlinear_arith)
                requires
                    m >= 0x10_0000_0000_0000 * scale,
                    scale > 0,
                    q == m / scale,
            ;
            pow2_at_least(k as nat, 12);
        }
        if 2 * rest > scale || (2 * rest == scale && q % 2 == 1) {
            q + 1
        } else {
            q
        }
    };
    sign + (1023 + p) * 0x10_0000_0000_0000 + fraction - 0x10_0000_0000_0000
}

/// The single closest to `n` 65536ths; see [`crate::scalar::steps_single`].
pub(crate) fn f32_from_steps(n: i64) -> (r: u32)
    ensures
        r == crate::scalar::steps_single(n as int),
{
    if n == 0 {
        return 0;
    }
    let wide: i128 = n as i128;
    let m: u64 = if n < 0 {
        (-wide) as u64
    } else {
        n as u64
    };
    let p: u64 = highest(m);
    let sign: u64 = if n < 0 {
        0x8000_0000
    } else {
        0
    };
    proof {
        top_bit_bounds(m as nat);
        lemma2_to64();
        lemma2_to64_rest();
    }
    let fraction: u64 = if p <= 23 {
        let scale: u64 = power(23 - p);
        proof {
            lemma_pow2_adds(p as nat, (23 - p) as nat);
            lemma_pow2_adds((p + 1) as nat, (23 - p) as nat);
            assert(m * scale < pow2((p + 1) as nat) * scale) by (nonlinear_arith)
                requires
                    m < pow2((p + 1) as nat),
                    scale > 0,
            ;
            assert(m * scale >= pow2(p as nat) * scale) by (nonlinear_arith)
                requires
                    m >= pow2(p as nat),
            ;
        }
        m * scale
    } else {
        let k: u64 = p - 23;
        let scale: u64 = power(k);
        let q: u64 = m / scale;
        let rest: u64 = m % scale;
        proof {
            lemma_pow2_adds(24, k as nat);
            lemma_pow2_adds(23, k as nat);
            assert(q < 0x100_0000) by (nonlinear_arith)
                requires
                    m < 0x100_0000 * scale,
                    scale > 0,
                    q == m / scale,
            ;
            assert(q >= 0x80_0000) by (nonlinear_arith)
                requires
                    m >= 0x80_0000 * scale,
                    scale > 0,
                    q == m / scale,
            ;
            pow2_at_least(k as nat, 41);
        }
        if 2 * rest > scale || (2 * rest == scale && q % 2 == 1) {
            q + 1
        } else {
            q
        }
    };
    (sign + (111 + p) * 0x80_0000 + fraction - 0x80_0000) as u32
}

/// The double of the same value as a single.
pub open spec fn widened(bits: u32) -> int {
    let sign = if bits >= 0x8000_0000 {
        0x8000_0000_0000_0000int
    } else {
        0
    };
    let e = (bits / 0x80_0000) as int % 256;
    let f = (bits % 0x80_0000) as nat;
    if e == 255 {
        sign + 2047 * 0x10_0000_0000_0000 + f * 0x2000_0000
    } else if e > 0 {
        sign + (e + 896) * 0x10_0000_0000_0000 + f * 0x2000_0000
    } else if f == 0 {
        sign
    } else {
        let p = top_bit(f);
        sign + (874 + p) * 0x10_0000_0000_0000 + f * pow2((52 - p) as nat) - 0x10_0000_0000_0000
    }
}

/// The double of the same value as a single.
pub fn widen(bits: u32) -> (r: u64)
    ensures
        r == widened(bits),
{
    let sign: u64 = if bits >= 0x8000_0000 {
        0x8000_0000_0000_0000
    } else {
        0
    };
    let e: u64 = ((bits / 0x80_0000) % 256) as u64;
    let f: u64 = (bits % 0x80_0000) as u64;
    if e == 255 {
        return sign + 2047 * 0x10_0000_0000_0000 + f * 0x2000_0000;
    }
    if e > 0 {
        return sign + (e + 896) * 0x10_0000_0000_0000 + f * 0x2000_0000;
    }
    if f == 0 {
        return sign;
    }
    let p: u64 = highest(f);
    proof {
        top_bit_bounds(f as nat);
        lemma2_to64();
        lemma2_to64_rest();
        if p >= 23 {
            pow2_at_least(23, p as nat);
        }
    }
    let scale: u64 = power(52 - p);
    proof {
        lemma_pow2_adds(p as nat, (52 - p) as nat);
        lemma_pow2_adds((p + 1) as nat, (52 - p) as nat);
        assert(f * scale < pow2((p + 1) as nat) * scale) by (nonlinear_arith)
            requires
                f < pow2((p + 1) as nat),
                scale > 0,
        ;
        assert(f * scale >= pow2(p as nat) * scale) by (nonlinear_arith)
            requires
                f >= pow2(p as nat),
        ;
    }
    sign + (874 + p) * 0x10_0000_0000_0000 + f * scale - 0x10_0000_0000_0000
}

/// Is the first double below the second?
pub fn f64_below(a: u64, b: u64) -> (r: bool)
    ensures
        r == (f64_rank(a) < f64_rank(b)),
{
    let an = a >= 0x8000_0000_0000_0000;
    let bn = b >= 0x8000_0000_0000_0000;
    if an && bn {
        a > b
    } else if an {
        a > 0x8000_0000_0000_0000 || b > 0
    } else if bn {
        false
    } else {
        a < b
    }
}

// ---- laws ----

/// A number above zero and what it is scaled to in a double: its highest bit in place 52.
proof fn scaled_bounds(m: nat)
    requires
        0 < m <= 0x20_0000_0000_0000,
    ensures
        top_bit(m) <= 53,
        top_bit(m) <= 52 ==> 0x10_0000_0000_0000 <= m * pow2((52 - top_bit(m)) as nat)
            < 0x20_0000_0000_0000,
        top_bit(m) == 53 ==> m == 0x20_0000_0000_0000,
{
    let p = top_bit(m);
    top_bit_bounds(m);
    lemma2_to64();
    lemma2_to64_rest();
    if p > 53 {
        pow2_at_least(54, p);
    }
    if p <= 52 {
        let scale = pow2((52 - p) as nat);
        lemma_pow2_pos((52 - p) as nat);
        lemma_pow2_adds(p, (52 - p) as nat);
        lemma_pow2_adds(p + 1, (52 - p) as nat);
        assert(m * scale < pow2(p + 1) * scale) by (nonlinear_arith)
            requires
                m < pow2(p + 1),
                scale > 0,
        ;
        assert(m * scale >= pow2(p) * scale) by (nonlinear_arith)
            requires
                m >= pow2(p),
        ;
    }
}

/// The encoding of an exact integer above zero.
spec fn exact_code(m: nat) -> int {
    (1022 + top_bit(m)) * 0x10_0000_0000_0000 + if top_bit(m) <= 52 {
        m * pow2((52 - top_bit(m)) as nat) as int
    } else {
        0x10_0000_0000_0000
    }
}

proof fn code_of(m: nat)
    requires
        0 < m <= 0x20_0000_0000_0000,
    ensures
        int_f64(m as int) == exact_code(m),
        int_f64(-(m as int)) == 0x8000_0000_0000_0000 + exact_code(m),
        0x3ff0_0000_0000_0000 <= exact_code(m) < 0x4350_0000_0000_0000,
{
    scaled_bounds(m);
    lemma2_to64();
    if top_bit(m) == 53 {
        assert(m == 0x20_0000_0000_0000);
        assert(halved(m, 1) == 0x10_0000_0000_0000);
    }
}

proof fn code_grows(a: nat, b: nat)
    requires
        0 < a < b <= 0x20_0000_0000_0000,
    ensures
        exact_code(a) < exact_code(b),
{
    scaled_bounds(a);
    scaled_bounds(b);
    top_bit_bounds(a);
    top_bit_bounds(b);
    let p = top_bit(a);
    let q = top_bit(b);
    if p > q {
        pow2_at_least(q + 1, p);
    }
    if p == q && p <= 52 {
        let scale = pow2((52 - p) as nat);
        lemma_pow2_pos((52 - p) as nat);
        assert(a * scale < b * scale) by (nonlinear_arith)
            requires
                a < b,
                scale > 0,
        ;
    }
}

/// Doubles of integers are in the order of the integers, as far as doubles hold them exactly.
pub proof fn doubles_are_ordered_as_integers(a: int, b: int)
    requires
        -0x20_0000_0000_0000 <= a <= 0x20_0000_0000_0000,
        -0x20_0000_0000_0000 <= b <= 0x20_0000_0000_0000,
    ensures
        0 <= int_f64(a) <= u64::MAX,
        !f64_nan(int_f64(a) as u64),
        f64_rank(int_f64(a) as u64) < f64_rank(int_f64(b) as u64) <==> a < b,
        f64_rank(int_f64(a) as u64) == f64_rank(int_f64(b) as u64) <==> a == b,
{
    let m = if a < 0 { (-a) as nat } else { a as nat };
    let n = if b < 0 { (-b) as nat } else { b as nat };
    if m > 0 {
        code_of(m);
    }
    if n > 0 {
        code_of(n);
    }
    if 0 < m && 0 < n {
        if m < n {
            code_grows(m, n);
        } else if n < m {
            code_grows(n, m);
        }
    }
}

/// The double of an integer is that integer again, as far as doubles hold them exactly.
pub proof fn a_double_of_an_integer_is_that_integer(n: int)
    requires
        -0x20_0000_0000_0000 <= n <= 0x20_0000_0000_0000,
    ensures
        f64_whole(int_f64(n) as u64),
        f64_to_int(int_f64(n) as u64, i64::MIN as int, i64::MAX as int) == n,
{
    let m = if n < 0 { (-n) as nat } else { n as nat };
    lemma2_to64();
    lemma2_to64_rest();
    if m == 0 {
        lemma_pow2_pos(1074);
        vstd::arithmetic::div_mod::lemma_small_mod(0, pow2(1074));
        vstd::arithmetic::div_mod::lemma_basic_div(0, pow2(1074) as int);
    } else {
        code_of(m);
        scaled_bounds(m);
        let bits = int_f64(n) as u64;
        let p = top_bit(m);
        if p <= 52 {
            let k = (52 - p) as nat;
            let scale = pow2(k);
            lemma_pow2_pos(k);
            let f = m * scale;
            assert(f64_exponent(bits) == 1023 + p);
            assert(f64_significand(bits) == f);
            assert(f64_scale(bits) == -(k as int));
            vstd::arithmetic::div_mod::lemma_div_multiples_vanish(m as int, scale as int);
            vstd::arithmetic::div_mod::lemma_mod_multiples_basic(m as int, scale as int);
            assert(m * scale == scale * m) by (nonlinear_arith);
            if k == 0 {
                assert(scale == 1);
                assert(m * scale == m) by (nonlinear_arith)
                    requires
                        scale == 1,
                ;
                assert(f64_magnitude(bits) == f * pow2(0));
            } else {
                assert((-f64_scale(bits)) as nat == k);
                assert(f / scale == m);
            }
            assert(f64_magnitude(bits) == m);
        } else {
            assert(f64_exponent(bits) == 1076);
            assert(f64_significand(bits) == 0x10_0000_0000_0000);
            assert(f64_scale(bits) == 1);
            assert(f64_magnitude(bits) == m);
        }
        assert(!f64_nan(bits));
        assert(bits >= 0x8000_0000_0000_0000 <==> n < 0);
    }
}

/// A number that orders singles other than NaN as IEEE 754 orders them.
pub open spec fn f32_rank(bits: u32) -> int {
    if bits >= 0x8000_0000 {
        -(bits - 0x8000_0000)
    } else {
        bits as int
    }
}

proof fn wide_code_bounds(f: nat)
    requires
        0 < f < 0x80_0000,
    ensures
        top_bit(f) < 23,
        0x10_0000_0000_0000 <= f * pow2((52 - top_bit(f)) as nat) < 0x20_0000_0000_0000,
{
    scaled_bounds(f);
    top_bit_bounds(f);
    lemma2_to64();
    if top_bit(f) >= 23 {
        pow2_at_least(23, top_bit(f));
    }
}

proof fn wide_code_grows(a: u32, b: u32)
    requires
        a < b < 0x8000_0000,
    ensures
        0 <= widened(a) < widened(b) < 0x8000_0000_0000_0000,
{
    let e = (a / 0x80_0000) as int % 256;
    let g = (b / 0x80_0000) as int % 256;
    let f = (a % 0x80_0000) as nat;
    let h = (b % 0x80_0000) as nat;
    assert(a == e * 0x80_0000 + f);
    assert(b == g * 0x80_0000 + h);
    if e == 0 && f > 0 {
        wide_code_bounds(f);
    }
    if g == 0 && h > 0 {
        wide_code_bounds(h);
    }
    if e == 0 && g == 0 && f > 0 {
        top_bit_bounds(f);
        top_bit_bounds(h);
        let p = top_bit(f);
        let q = top_bit(h);
        if p > q {
            pow2_at_least(q + 1, p);
        }
        if p == q {
            let scale = pow2((52 - p) as nat);
            lemma_pow2_pos((52 - p) as nat);
            assert(f * scale < h * scale) by (nonlinear_arith)
                requires
                    f < h,
                    scale > 0,
            ;
        }
    }
}

/// To widen singles keeps their order, and what is not a number stays none.
pub proof fn widening_keeps_the_order(a: u32, b: u32)
    requires
        !f32_nan(a),
        !f32_nan(b),
    ensures
        0 <= widened(a) <= u64::MAX,
        !f64_nan(widened(a) as u64),
        f64_rank(widened(a) as u64) < f64_rank(widened(b) as u64) <==> f32_rank(a) < f32_rank(b),
{
    let m = (a % 0x8000_0000) as u32;
    let n = (b % 0x8000_0000) as u32;
    assert((a / 0x80_0000) as int % 256 == (m / 0x80_0000) as int % 256);
    assert((b / 0x80_0000) as int % 256 == (n / 0x80_0000) as int % 256);
    assert(a % 0x80_0000 == m % 0x80_0000);
    assert(b % 0x80_0000 == n % 0x80_0000);
    if m < n {
        wide_code_grows(m, n);
    }
    if n < m {
        wide_code_grows(n, m);
    }
    if m > 0 {
        wide_code_grows(0, m);
    }
    if n > 0 {
        wide_code_grows(0, n);
    }
    assert(widened(0x7f80_0000) == 0x7ff0_0000_0000_0000);
    if m < 0x7f80_0000 {
        wide_code_grows(m, 0x7f80_0000);
    }
    if n < 0x7f80_0000 {
        wide_code_grows(n, 0x7f80_0000);
    }
}

/// Two doubles are equal where neither is larger and both are numbers; the two zeros are equal.
pub proof fn equal_doubles_rank_alike(a: u64, b: u64, c: u32, d: u32)
    ensures
        f64_eq(a, b) <==> !f64_nan(a) && !f64_nan(b) && f64_rank(a) == f64_rank(b),
        f32_eq(c, d) <==> !f32_nan(c) && !f32_nan(d) && f32_rank(c) == f32_rank(d),
{
}

/// A double is cut off towards zero: what is left is no larger, and less than one is lost.
pub proof fn cutting_off_loses_less_than_one(bits: u64)
    ensures
        f64_scale(bits) < 0 ==> {
            let unit = pow2((-f64_scale(bits)) as nat);
            f64_magnitude(bits) * unit <= f64_significand(bits) < (f64_magnitude(bits) + 1) * unit
        },
        bits < 0x8000_0000_0000_0000 ==> f64_truncated(bits) >= 0 && f64_truncated(
            (bits + 0x8000_0000_0000_0000) as u64,
        ) == -f64_truncated(bits),
{
    if f64_scale(bits) < 0 {
        let k = (-f64_scale(bits)) as nat;
        vstd::arithmetic::power2::lemma_pow2_pos(k);
        let unit = pow2(k) as int;
        let n = f64_significand(bits) as int;
        vstd::arithmetic::div_mod::lemma_fundamental_div_mod(n, unit);
        vstd::arithmetic::div_mod::lemma_mod_bound(n, unit);
        assert((n / unit) * unit <= n < (n / unit + 1) * unit) by (nonlinear_arith)
            requires
                n == unit * (n / unit) + n % unit,
                0 <= n % unit < unit,
        ;
    }
    if bits < 0x8000_0000_0000_0000 {
        let other = (bits + 0x8000_0000_0000_0000) as u64;
        assert(other == bits + 0x8000_0000_0000_0000);
        assert(f64_exponent(other) == f64_exponent(bits));
        assert(other % 0x10_0000_0000_0000 == bits % 0x10_0000_0000_0000);
    }
}

/// A number becomes an integer within the limits, the limit where it lies beyond, and zero where
/// it is no number.
pub proof fn an_integer_stays_within_its_limits(bits: u64, low: int, high: int)
    requires
        low <= 0 <= high,
    ensures
        low <= f64_to_int(bits, low, high) <= high,
        f64_nan(bits) ==> f64_to_int(bits, low, high) == 0,
        bits == 0x7ff0_0000_0000_0000 ==> f64_to_int(bits, low, high) == high,
        bits == 0xfff0_0000_0000_0000 ==> f64_to_int(bits, low, high) == low,
        f64_exponent(bits) != 2047 && low <= f64_truncated(bits) <= high ==> f64_to_int(
            bits,
            low,
            high,
        ) == f64_truncated(bits),
{
}

} // verus!
