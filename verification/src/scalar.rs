//! The numbers that lengths are made of.
//!
//! Layout is the same whatever arithmetic it is done in, as long as equal operands give equal
//! results. A host that has floating point lays out in singles; [`Fixed`] needs integers only.

use crate::number::{
    f64_exponent, f64_to_int, halved, to_i64, top_bit, widen, widened,
};
use crate::guest::{signed, signed_long};
use crate::text::{glue, text_holding};
use vstd::arithmetic::power2::*;
use vstd::prelude::*;

verus! {

/// Arithmetic for layout. Each operation gives the result that its mathematical counterpart
/// names, and nothing else is asked of them.
pub trait Scalar: Sized + Copy {
    spec fn sum(self, other: Self) -> Self;

    spec fn difference(self, other: Self) -> Self;

    spec fn product(self, other: Self) -> Self;

    spec fn quotient(self, other: Self) -> Self;

    /// The larger of the two.
    spec fn larger(self, other: Self) -> Self;

    /// The smaller of the two.
    spec fn smaller(self, other: Self) -> Self;

    spec fn less(self, other: Self) -> bool;

    spec fn less_or_equal(self, other: Self) -> bool;

    spec fn equal(self, other: Self) -> bool;

    /// The number that a single stands for.
    spec fn of_single(bits: u32) -> Self;

    /// The number that a double stands for.
    spec fn of_double(bits: u64) -> Self;

    spec fn of_int(n: i128) -> Self;

    /// Below every length.
    spec fn bottom() -> Self;

    /// Above every length.
    spec fn top() -> Self;

    /// The whole number, truncated towards zero.
    spec fn whole(self) -> i32;

    /// The closest byte.
    spec fn byte(self) -> u8;

    /// The single that stands for the number.
    spec fn single(self) -> u32;

    /// The largest whole number that is not above the number.
    spec fn floored(self) -> Self;

    /// The whole number, truncated towards zero.
    spec fn long(self) -> i64;

    /// How the number prints.
    spec fn spelled(self) -> String;

    fn plus(self, other: Self) -> (r: Self)
        ensures
            r == self.sum(other),
    ;

    fn minus(self, other: Self) -> (r: Self)
        ensures
            r == self.difference(other),
    ;

    fn times(self, other: Self) -> (r: Self)
        ensures
            r == self.product(other),
    ;

    fn over(self, other: Self) -> (r: Self)
        ensures
            r == self.quotient(other),
    ;

    fn most(self, other: Self) -> (r: Self)
        ensures
            r == self.larger(other),
    ;

    fn least(self, other: Self) -> (r: Self)
        ensures
            r == self.smaller(other),
    ;

    fn below(self, other: Self) -> (r: bool)
        ensures
            r == self.less(other),
    ;

    fn at_most(self, other: Self) -> (r: bool)
        ensures
            r == self.less_or_equal(other),
    ;

    fn same(self, other: Self) -> (r: bool)
        ensures
            r == self.equal(other),
    ;

    fn from_single(bits: u32) -> (r: Self)
        ensures
            r == Self::of_single(bits),
    ;

    fn from_double(bits: u64) -> (r: Self)
        ensures
            r == Self::of_double(bits),
    ;

    fn from_int(n: i128) -> (r: Self)
        requires
            -0x1_0000_0000_0000_0000 <= n <= 0x1_0000_0000_0000_0000,
        ensures
            r == Self::of_int(n),
    ;

    fn lowest() -> (r: Self)
        ensures
            r == Self::bottom(),
    ;

    fn highest() -> (r: Self)
        ensures
            r == Self::top(),
    ;

    fn to_i32(self) -> (r: i32)
        ensures
            r == self.whole(),
    ;

    fn to_byte(self) -> (r: u8)
        ensures
            r == self.byte(),
    ;

    fn to_single(self) -> (r: u32)
        ensures
            r == self.single(),
    ;

    fn floor(self) -> (r: Self)
        ensures
            r == self.floored(),
    ;

    fn to_long(self) -> (r: i64)
        ensures
            r == self.long(),
    ;

    fn spell(self) -> (r: String)
        ensures
            r@ == self.spelled()@,
    ;
}

/// `x` brought between `low` and `high`.
pub open spec fn between<S: Scalar>(x: S, low: S, high: S) -> S {
    if x.less(low) {
        low
    } else if high.less(x) {
        high
    } else {
        x
    }
}

pub fn clamp<S: Scalar>(x: S, low: S, high: S) -> (r: S)
    ensures
        r == between(x, low, high),
{
    if x.below(low) {
        low
    } else if high.below(x) {
        high
    } else {
        x
    }
}

// ---- fixed point ----

/// A number in steps of a 65536th, held at the ends of its range.
#[derive(Clone, Copy, Debug, PartialEq, Eq, Structural)]
pub struct Fixed {
    pub steps: i64,
}

/// A number of steps brought into range.
pub open spec fn held(n: int) -> Fixed {
    Fixed {
        steps: if n < i64::MIN {
            i64::MIN
        } else if n > i64::MAX {
            i64::MAX
        } else {
            n as i64
        },
    }
}

fn hold(n: i128) -> (r: Fixed)
    ensures
        r == held(n as int),
{
    let steps: i64 = if n < -9223372036854775808 {
        i64::MIN
    } else if n > 9223372036854775807 {
        i64::MAX
    } else {
        n as i64
    };
    Fixed { steps }
}

/// A double in steps, truncated towards zero.
pub open spec fn steps_of(bits: u64) -> int {
    let e = f64_exponent(bits);
    f64_to_int(
        if 0 < e < 2031 {
            (bits + 16 * 0x10_0000_0000_0000) as u64
        } else {
            bits
        },
        i64::MIN as int,
        i64::MAX as int,
    )
}

fn steps_from(bits: u64) -> (r: i64)
    ensures
        r == steps_of(bits),
{
    let e: u64 = (bits / 0x10_0000_0000_0000) % 2048;
    if 0 < e && e < 2031 {
        assert(bits + 16 * 0x10_0000_0000_0000 <= u64::MAX) by {
            assert(bits / 0x10_0000_0000_0000 < 4096);
            assert((bits / 0x10_0000_0000_0000) % 2048 < 2031);
            assert(bits < (bits / 0x10_0000_0000_0000 + 1) * 0x10_0000_0000_0000);
        }
        to_i64(bits + 16 * 0x10_0000_0000_0000)
    } else {
        to_i64(bits)
    }
}

/// The single closest to a number of steps.
pub open spec fn steps_single(n: int) -> int {
    if n == 0 {
        0
    } else {
        let m = if n < 0 {
            (-n) as nat
        } else {
            n as nat
        };
        let p = top_bit(m);
        let sign = if n < 0 {
            0x8000_0000int
        } else {
            0
        };
        let fraction = if p <= 23 {
            m * pow2((23 - p) as nat)
        } else {
            halved(m, (p - 23) as nat)
        };
        sign + (111 + p) * 0x80_0000 + fraction - 0x80_0000
    }
}

fn single_of(n: i64) -> (r: u32)
    ensures
        r == steps_single(n as int),
{
    crate::number::f32_from_steps(n)
}

impl Scalar for Fixed {
    open spec fn sum(self, other: Self) -> Self {
        held(self.steps + other.steps)
    }

    open spec fn difference(self, other: Self) -> Self {
        held(self.steps - other.steps)
    }

    open spec fn product(self, other: Self) -> Self {
        held((self.steps * other.steps) / 65536)
    }

    open spec fn quotient(self, other: Self) -> Self {
        if other.steps > 0 {
            held((self.steps * 65536) / (other.steps as int))
        } else if other.steps < 0 {
            held((-(self.steps * 65536)) / (-(other.steps as int)))
        } else if self.steps < 0 {
            held(i64::MIN as int)
        } else {
            held(i64::MAX as int)
        }
    }

    open spec fn larger(self, other: Self) -> Self {
        if self.steps < other.steps {
            other
        } else {
            self
        }
    }

    open spec fn smaller(self, other: Self) -> Self {
        if other.steps < self.steps {
            other
        } else {
            self
        }
    }

    open spec fn less(self, other: Self) -> bool {
        self.steps < other.steps
    }

    open spec fn less_or_equal(self, other: Self) -> bool {
        self.steps <= other.steps
    }

    open spec fn equal(self, other: Self) -> bool {
        self.steps == other.steps
    }

    open spec fn of_single(bits: u32) -> Self {
        held(steps_of(widened(bits) as u64))
    }

    open spec fn of_double(bits: u64) -> Self {
        held(steps_of(bits))
    }

    open spec fn of_int(n: i128) -> Self {
        held(n * 65536)
    }

    open spec fn bottom() -> Self {
        Fixed { steps: i64::MIN }
    }

    open spec fn top() -> Self {
        Fixed { steps: i64::MAX }
    }

    open spec fn whole(self) -> i32 {
        let n = if self.steps < 0 {
            -((-self.steps) / 65536)
        } else {
            self.steps as int / 65536
        };
        crate::number::clamped(n, i32::MIN as int, i32::MAX as int) as i32
    }

    open spec fn byte(self) -> u8 {
        crate::number::clamped((self.steps + 32768) / 65536, 0, 255) as u8
    }

    open spec fn single(self) -> u32 {
        steps_single(self.steps as int) as u32
    }

    open spec fn floored(self) -> Self {
        held((self.steps as int / 65536) * 65536)
    }

    open spec fn long(self) -> i64 {
        if self.steps < 0 {
            (-((-self.steps) / 65536)) as i64
        } else {
            (self.steps as int / 65536) as i64
        }
    }

    open spec fn spelled(self) -> String {
        text_holding(signed(self.steps as int) + "/65536"@)
    }

    fn plus(self, other: Self) -> (r: Self) {
        hold(self.steps as i128 + other.steps as i128)
    }

    fn minus(self, other: Self) -> (r: Self) {
        hold(self.steps as i128 - other.steps as i128)
    }

    fn times(self, other: Self) -> (r: Self) {
        proof {
            product_fits(self.steps, other.steps);
        }
        let p: i128 = self.steps as i128 * other.steps as i128;
        hold(floor_steps(p))
    }

    fn over(self, other: Self) -> (r: Self) {
        let n: i128 = self.steps as i128 * 65536;
        let d: i128 = other.steps as i128;
        if d > 0 {
            hold(floor_div(n, d))
        } else if d < 0 {
            hold(floor_div(-n, -d))
        } else if self.steps < 0 {
            Fixed { steps: i64::MIN }
        } else {
            Fixed { steps: i64::MAX }
        }
    }

    fn most(self, other: Self) -> (r: Self) {
        if self.steps < other.steps {
            other
        } else {
            self
        }
    }

    fn least(self, other: Self) -> (r: Self) {
        if other.steps < self.steps {
            other
        } else {
            self
        }
    }

    fn below(self, other: Self) -> (r: bool) {
        self.steps < other.steps
    }

    fn at_most(self, other: Self) -> (r: bool) {
        self.steps <= other.steps
    }

    fn same(self, other: Self) -> (r: bool) {
        self.steps == other.steps
    }

    fn from_single(bits: u32) -> (r: Self) {
        Fixed { steps: steps_from(widen(bits)) }
    }

    fn from_double(bits: u64) -> (r: Self) {
        Fixed { steps: steps_from(bits) }
    }

    fn from_int(n: i128) -> (r: Self) {
        hold(n * 65536)
    }

    fn lowest() -> (r: Self) {
        Fixed { steps: i64::MIN }
    }

    fn highest() -> (r: Self) {
        Fixed { steps: i64::MAX }
    }

    fn to_i32(self) -> (r: i32) {
        let wide: i128 = self.steps as i128;
        let n: i128 = if wide < 0 {
            -((-wide) / 65536)
        } else {
            wide / 65536
        };
        if n < -2147483648 {
            -2147483648
        } else if n > 2147483647 {
            2147483647
        } else {
            n as i32
        }
    }

    fn to_byte(self) -> (r: u8) {
        let n: i128 = floor_steps(self.steps as i128 + 32768);
        if n < 0 {
            0
        } else if n > 255 {
            255
        } else {
            n as u8
        }
    }

    fn to_single(self) -> (r: u32) {
        single_of(self.steps)
    }

    fn floor(self) -> (r: Self) {
        let n: i128 = floor_steps(self.steps as i128);
        hold(n * 65536)
    }

    fn to_long(self) -> (r: i64) {
        let wide: i128 = self.steps as i128;
        if wide < 0 {
            (-((-wide) / 65536)) as i64
        } else {
            (wide / 65536) as i64
        }
    }

    fn spell(self) -> (r: String) {
        let r = glue(signed_long(self.steps), "/65536");
        assert(r@ == signed(self.steps as int) + "/65536"@);
        r
    }
}

proof fn product_fits(a: i64, b: i64)
    ensures
        -0x4000_0000_0000_0000_0000_0000_0000_0000 <= a * b
            <= 0x4000_0000_0000_0000_0000_0000_0000_0000,
{
    assert(-0x4000_0000_0000_0000_0000_0000_0000_0000 <= a * b
        <= 0x4000_0000_0000_0000_0000_0000_0000_0000) by (nonlinear_arith)
        requires
            -0x8000_0000_0000_0000 <= a <= 0x7fff_ffff_ffff_ffff,
            -0x8000_0000_0000_0000 <= b <= 0x7fff_ffff_ffff_ffff,
    ;
}

/// A quotient, rounded down.
fn floor_div(n: i128, d: i128) -> (r: i128)
    requires
        d > 0,
        -0x4000_0000_0000_0000_0000_0000_0000_0000 <= n
            <= 0x4000_0000_0000_0000_0000_0000_0000_0000,
    ensures
        r == (n as int) / (d as int),
{
    if n >= 0 {
        n / d
    } else {
        let m: i128 = -n;
        let q: i128 = m / d;
        let rest: i128 = m % d;
        proof {
            vstd::arithmetic::div_mod::lemma_fundamental_div_mod(m as int, d as int);
            let qi = q as int;
            assert((-qi) * d == -(d * qi)) by (nonlinear_arith);
            assert((-qi - 1) * d == -(d * qi) - d) by (nonlinear_arith);
            if rest == 0 {
                vstd::arithmetic::div_mod::lemma_fundamental_div_mod_converse(
                    n as int,
                    d as int,
                    -qi,
                    0,
                );
            } else {
                vstd::arithmetic::div_mod::lemma_fundamental_div_mod_converse(
                    n as int,
                    d as int,
                    -qi - 1,
                    d - rest,
                );
            }
        }
        if rest == 0 {
            -q
        } else {
            -q - 1
        }
    }
}

fn floor_steps(n: i128) -> (r: i128)
    requires
        -0x4000_0000_0000_0000_0000_0000_0000_0000 <= n
            <= 0x4000_0000_0000_0000_0000_0000_0000_0000,
    ensures
        r == (n as int) / 65536,
{
    floor_div(n, 65536)
}

// ---- laws ----

/// A number of steps that a single holds exactly is the same number of steps again.
pub proof fn a_single_keeps_its_steps(n: i64)
    requires
        -0x100_0000 < n < 0x100_0000,
    ensures
        Fixed::of_single((Fixed { steps: n }).single()) == (Fixed { steps: n }),
{
    let m: nat = if n < 0 {
        (-n) as nat
    } else {
        n as nat
    };
    lemma2_to64();
    lemma2_to64_rest();
    if m == 0 {
        assert(steps_single(0) == 0);
        assert(widened(0) == 0);
        crate::number::a_double_of_an_integer_is_that_integer(0);
        assert(crate::number::int_f64(0) == 0);
    } else {
        let p = top_bit(m);
        crate::number::top_bit_bounds(m);
        if p >= 24 {
            vstd::arithmetic::power2::lemma_pow2_strictly_increases(23, p);
            if p > 24 {
                vstd::arithmetic::power2::lemma_pow2_strictly_increases(24, p);
            }
        }
        let k = (23 - p) as nat;
        let big = m * pow2(k);
        vstd::arithmetic::power2::lemma_pow2_adds(p, k);
        vstd::arithmetic::power2::lemma_pow2_adds(p + 1, k);
        vstd::arithmetic::power2::lemma_pow2_adds(k, 29);
        let lo = pow2(p);
        let hi = pow2(p + 1);
        let scale = pow2(k);
        vstd::arithmetic::power2::lemma_pow2_pos(k);
        assert(lo * scale <= m * scale < hi * scale) by (nonlinear_arith)
            requires
                lo <= m < hi,
                scale > 0,
        ;
        assert(0x80_0000 <= big < 0x100_0000);
        let f = big - 0x80_0000;
        let sign: int = if n < 0 {
            0x8000_0000
        } else {
            0
        };
        let bits = steps_single(n as int);
        assert(bits == sign + (111 + p) * 0x80_0000 + f);
        let b = bits as u32;
        assert(b == bits);
        assert((b / 0x80_0000) as int % 256 == 111 + p);
        assert((b % 0x80_0000) as int == f);
        let wide: int = if n < 0 {
            0x8000_0000_0000_0000
        } else {
            0
        };
        assert(widened(b) == wide + (1007 + p) * 0x10_0000_0000_0000 + f * 0x2000_0000);
        let w = widened(b) as u64;
        assert(f64_exponent(w) == 1007 + p);
        let moved = (w + 16 * 0x10_0000_0000_0000) as u64;
        let whole = m * pow2((52 - p) as nat);
        assert(pow2((52 - p) as nat) == scale * 0x2000_0000);
        assert(m * (scale * 0x2000_0000) == (m * scale) * 0x2000_0000) by (nonlinear_arith);
        assert(moved == wide + (1023 + p) * 0x10_0000_0000_0000 + whole - 0x10_0000_0000_0000);
        assert(moved == crate::number::int_f64(n as int));
        crate::number::a_double_of_an_integer_is_that_integer(n as int);
    }
}

/// A product of two numbers of steps is off by less than a step, and so is a quotient.
pub proof fn arithmetic_is_off_by_less_than_a_step(a: Fixed, b: Fixed)
    requires
        -0x1000_0000_0000 <= a.steps <= 0x1000_0000_0000,
        -0x1000_0000_0000 <= b.steps <= 0x1000_0000_0000,
    ensures
        a.sum(b).steps == a.steps + b.steps,
        a.difference(b).steps == a.steps - b.steps,
        -0x7fff_ffff_ffff_ffff < (a.steps * b.steps) / 65536 < 0x7fff_ffff_ffff_ffff ==> a.product(
            b,
        ).steps * 65536 <= a.steps * b.steps < (a.product(b).steps + 1) * 65536,
        b.steps > 0 ==> a.quotient(b).steps * b.steps <= a.steps * 65536 < (a.quotient(b).steps + 1)
            * b.steps,
{
    if b.steps > 0 {
        let n = a.steps * 65536;
        let d = b.steps as int;
        vstd::arithmetic::div_mod::lemma_fundamental_div_mod(n, d);
        let q = n / d;
        assert(q * d == d * q) by (nonlinear_arith);
        assert((q + 1) * d == d * q + d) by (nonlinear_arith);
        assert(-0x1000_0000_0000_0000 <= q <= 0x1000_0000_0000_0000) by (nonlinear_arith)
            requires
                -0x1000_0000_0000_0000 <= n <= 0x1000_0000_0000_0000,
                d >= 1,
                d * q <= n < d * q + d,
        ;
    }
}

/// The whole part of a number is the number without its fraction, and rounding down gives the
/// largest whole number that is not above it.
pub proof fn whole_parts_and_floors(a: Fixed)
    requires
        -0x1000_0000_0000 <= a.steps <= 0x1000_0000_0000,
    ensures
        a.steps >= 0 ==> a.whole() * 65536 <= a.steps < (a.whole() + 1) * 65536,
        a.steps <= 0 ==> (a.whole() - 1) * 65536 < a.steps <= a.whole() * 65536,
        a.long() == a.whole(),
        a.floored().steps % 65536 == 0,
        a.floored().steps <= a.steps < a.floored().steps + 65536,
{
}

/// The larger of two is not below either and is one of them, and so is the smaller not above.
pub proof fn the_larger_and_the_smaller(a: Fixed, b: Fixed)
    ensures
        a.larger(b).steps >= a.steps && a.larger(b).steps >= b.steps,
        a.larger(b) == a || a.larger(b) == b,
        a.smaller(b).steps <= a.steps && a.smaller(b).steps <= b.steps,
        a.smaller(b) == a || a.smaller(b) == b,
        a.less(b) == (a.steps < b.steps),
        a.less_or_equal(b) == !b.less(a),
        a.equal(b) == (!a.less(b) && !b.less(a)),
        Fixed::bottom().less_or_equal(a) && a.less_or_equal(Fixed::top()),
{
}

/// A number is brought between two others: it stays where it is between them, and is the closer of
/// them otherwise.
pub proof fn clamping_stays_between(x: Fixed, low: Fixed, high: Fixed, r: Fixed)
    requires
        call_ensures(clamp::<Fixed>, (x, low, high), r),
        low.steps <= high.steps,
    ensures
        low.steps <= r.steps <= high.steps,
        low.steps <= x.steps <= high.steps ==> r == x,
        x.steps < low.steps ==> r == low,
        x.steps > high.steps ==> r == high,
{
}

} // verus!
