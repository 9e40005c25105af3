//! Double-precision values held as their IEEE 754 bit patterns.
//!
//! Blocks compare, select and clamp doubles far more often than they
//! compute with them. All of that is integer work on the bit pattern, so it
//! stands here with exact contracts; sums, products and quotients are left
//! to the caller.

use vstd::arithmetic::div_mod::{
    lemma_div_denominator, lemma_div_is_ordered, lemma_div_multiples_vanish,
    lemma_fundamental_div_mod, lemma_fundamental_div_mod_converse, lemma_mod_bound,
    lemma_mod_multiples_basic,
};
use vstd::arithmetic::mul::{
    lemma_mul_basics_3, lemma_mul_equality_converse, lemma_mul_inequality, lemma_mul_is_associative,
    lemma_mul_is_commutative, lemma_mul_strict_inequality,
};
use vstd::arithmetic::power2::{
    lemma2_to64, lemma2_to64_rest, lemma_pow2_adds, lemma_pow2_pos, lemma_pow2_strictly_increases,
    lemma_pow2_unfold, pow2,
};
use vstd::prelude::*;

verus! {

/// The sign bit.
pub const SIGN: u64 = 0x8000_0000_0000_0000;

/// The pattern of positive infinity; larger magnitudes are NaN.
pub const INFINITE: u64 = 0x7ff0_0000_0000_0000;

/// Two to the number of fraction bits.
pub const HIDDEN: u64 = 0x0010_0000_0000_0000;

/// A double-precision value, given by its bit pattern.
#[derive(Debug, Clone, Copy, PartialEq, Eq, Structural)]
pub struct Float {
    pub bits: u64,
}

/// The value of the finite magnitude pattern `magnitude`, counted in the
/// smallest positive double, two to the power of -1074.
pub open spec fn units_of(magnitude: int) -> int {
    let exponent = magnitude / HIDDEN as int;
    let fraction = magnitude % HIDDEN as int;
    if exponent <= 0 {
        fraction
    } else {
        (HIDDEN + fraction) * pow2((exponent - 1) as nat)
    }
}

/// How many low bits a 53-bit significand of `m` leaves out.
pub open spec fn excess_bits(m: nat) -> nat
    decreases m,
{
    if m < 2 * HIDDEN {
        0
    } else {
        1 + excess_bits(m / 2)
    }
}

/// The multiple of `unit` nearest to `m`; between two, the even one.
pub open spec fn nearest_multiple(m: nat, unit: nat) -> nat {
    let low = m / unit;
    let rest = m % unit;
    if 2 * rest < unit || (2 * rest == unit && low % 2 == 0) {
        low * unit
    } else {
        (low + 1) * unit
    }
}

/// The integer nearest to `n` that a 53-bit significand holds.
pub open spec fn nearest_double(n: int) -> int {
    if n < 0 {
        -(nearest_multiple((-n) as nat, pow2(excess_bits((-n) as nat))) as int)
    } else {
        nearest_multiple(n as nat, pow2(excess_bits(n as nat))) as int
    }
}

impl Float {
    /// Zero.
    pub open spec fn spec_zero() -> Float {
        Float { bits: 0 }
    }

    /// Zero.
    #[verifier::when_used_as_spec(spec_zero)]
    pub fn zero() -> (r: Float)
        ensures
            r == Float::spec_zero(),
    {
        Float { bits: 0 }
    }

    /// Whether the sign bit is set.
    pub open spec fn negative(self) -> bool {
        self.bits >= SIGN
    }

    /// The pattern without its sign bit.
    pub open spec fn magnitude(self) -> int {
        if self.negative() {
            self.bits - SIGN
        } else {
            self.bits as int
        }
    }

    /// Whether the pattern is a NaN.
    pub open spec fn nan(self) -> bool {
        self.magnitude() > INFINITE
    }

    /// Whether the pattern is neither a NaN nor an infinity.
    pub open spec fn finite(self) -> bool {
        self.magnitude() < INFINITE
    }

    /// The position on the number line: the numeric order of two patterns
    /// that are not NaN is the order of these.
    pub open spec fn order(self) -> int {
        if self.negative() {
            -self.magnitude()
        } else {
            self.magnitude()
        }
    }

    /// The value of a finite pattern, counted in the smallest positive
    /// double.
    pub open spec fn scaled(self) -> int {
        if self.negative() {
            -units_of(self.magnitude())
        } else {
            units_of(self.magnitude())
        }
    }

    /// Numeric less-than, false whenever a NaN takes part.
    pub open spec fn lt(self, other: Float) -> bool {
        !self.nan() && !other.nan() && self.order() < other.order()
    }

    /// Numeric at-most, false whenever a NaN takes part.
    pub open spec fn le(self, other: Float) -> bool {
        !self.nan() && !other.nan() && self.order() <= other.order()
    }

    /// Numeric equality: false whenever a NaN takes part, and true of the
    /// two zeros.
    pub open spec fn same(self, other: Float) -> bool {
        !self.nan() && !other.nan() && self.order() == other.order()
    }

    /// Whether the value is finite and not below zero.
    pub open spec fn nonnegative(self) -> bool {
        self.finite() && !self.lt(Float::spec_zero())
    }

    /// The value held to the range from `low` to `high`; a NaN stays as it
    /// is.
    pub open spec fn clamped(self, low: Float, high: Float) -> Float {
        if self.lt(low) {
            low
        } else if high.lt(self) {
            high
        } else {
            self
        }
    }

    /// The value with its sign dropped.
    pub open spec fn absolute(self) -> Float {
        Float { bits: self.magnitude() as u64 }
    }

    /// Whether the value is exactly the integer `n`.
    pub open spec fn is_integer(self, n: int) -> bool {
        self.finite() && self.scaled() == n * pow2(1074)
    }

    /// The `u64` that the value is exactly, where it is one.
    pub open spec fn as_u64(self) -> Option<u64> {
        if exists|v: u64| #[trigger] self.is_integer(v as int) {
            Some(choose|v: u64| #[trigger] self.is_integer(v as int))
        } else {
            None
        }
    }

    /// The double that is exactly `n`, where there is one; for zero, the
    /// positive one.
    pub open spec fn of_integer(n: int) -> Option<Float> {
        if exists|f: Float| #[trigger] f.is_integer(n) && f.bits != SIGN {
            Some(choose|f: Float| #[trigger] f.is_integer(n) && f.bits != SIGN)
        } else {
            None
        }
    }

    /// The integer nearest to a finite value, halves going away from zero.
    pub open spec fn nearest_integer(self) -> int {
        let whole = pow2(1074) as int;
        let nearest = (2 * units_of(self.magnitude()) + whole) / (2 * whole);
        if self.negative() {
            -nearest
        } else {
            nearest
        }
    }

    /// The value as a count: the nearest integer, held to the range of an
    /// `i64`; a NaN is zero.
    pub open spec fn as_count(self) -> i64 {
        if self.nan() {
            0
        } else if !self.finite() || self.nearest_integer() > i64::MAX
            || self.nearest_integer() < i64::MIN {
            if self.negative() {
                i64::MIN
            } else {
                i64::MAX
            }
        } else {
            self.nearest_integer() as i64
        }
    }

    /// The double nearest to a count; between two, the one with the even
    /// significand.
    pub open spec fn of_count(n: i64) -> Float {
        Float::of_integer(nearest_double(n as int))->0
    }

    /// The value with the bit pattern `bits`.
    pub fn from_bits(bits: u64) -> (r: Float)
        ensures
            r.bits == bits,
    {
        Float { bits }
    }

    /// The bit pattern.
    pub fn to_bits(self) -> (r: u64)
        ensures
            r == self.bits,
    {
        self.bits
    }

    /// Drops the sign.
    pub fn abs(self) -> (r: Float)
        ensures
            r == self.absolute(),
    {
        if self.bits >= SIGN {
            Float { bits: self.bits - SIGN }
        } else {
            self
        }
    }

    /// Whether the value is a NaN.
    pub fn is_nan(self) -> (r: bool)
        ensures
            r == self.nan(),
    {
        self.abs().bits > INFINITE
    }

    /// Whether the value is neither a NaN nor an infinity.
    pub fn is_finite(self) -> (r: bool)
        ensures
            r == self.finite(),
    {
        self.abs().bits < INFINITE
    }

    /// Numeric less-than.
    pub fn less_than(self, other: Float) -> (r: bool)
        ensures
            r == self.lt(other),
    {
        if self.is_nan() || other.is_nan() {
            return false;
        }
        if self.bits >= SIGN {
            if other.bits >= SIGN {
                other.bits < self.bits
            } else {
                self.bits != SIGN || other.bits != 0
            }
        } else {
            other.bits < SIGN && self.bits < other.bits
        }
    }

    /// Numeric at-most.
    pub fn at_most(self, other: Float) -> (r: bool)
        ensures
            r == self.le(other),
    {
        !self.is_nan() && !other.is_nan() && !other.less_than(self)
    }

    /// Whether the value is finite and not below zero.
    pub fn is_nonnegative(self) -> (r: bool)
        ensures
            r == self.nonnegative(),
    {
        self.is_finite() && !self.less_than(Float::zero())
    }

    /// Numeric equality.
    pub fn equals(self, other: Float) -> (r: bool)
        ensures
            r == self.same(other),
    {
        self.at_most(other) && other.at_most(self)
    }

    /// Holds the value to the range from `low` to `high`.
    pub fn clamp(self, low: Float, high: Float) -> (r: Float)
        requires
            low.le(high),
        ensures
            r == self.clamped(low, high),
    {
        if self.less_than(low) {
            low
        } else if high.less_than(self) {
            high
        } else {
            self
        }
    }

    /// The value as a `u64`, where it is exactly one.
    pub fn to_u64(self) -> (r: Option<u64>)
        ensures
            r == self.as_u64(),
            r matches Some(v) ==> self.is_integer(v as int),
    {
        let r = self.find_u64();
        proof {
            if let Some(v) = r {
                assert(self.is_integer(v as int));
                lemma_integer_unique(self, v as int, self.as_u64()->0 as int);
            }
        }
        r
    }

    fn find_u64(self) -> (r: Option<u64>)
        ensures
            match r {
                Some(v) => self.is_integer(v as int),
                None => forall|v: u64| !#[trigger] self.is_integer(v as int),
            },
    {
        proof {
            lemma_powers();
            lemma_pow2_pos(1074);
        }
        if self.bits == 0 || self.bits == SIGN {
            return Some(0);
        }
        proof {
            lemma_units_positive(self.magnitude());
        }
        if self.bits > SIGN {
            assert forall|v: u64| !#[trigger] self.is_integer(v as int) by {
                assert(v * pow2(1074) >= 0) by (nonlinear_arith);
            }
            return None;
        }
        let exponent: u64 = self.bits / HIDDEN;
        let fraction: u64 = self.bits % HIDDEN;
        if exponent < 1023 {
            proof {
                lemma_units_below(self.bits as int, 1023);
                assert forall|v: u64| !#[trigger] self.is_integer(v as int) by {
                    if v >= 1 {
                        lemma_mul_inequality(1, v as int, pow2(1074) as int);
                    }
                }
            }
            return None;
        }
        let ghost power = pow2((exponent - 1) as nat);
        let significand: u64 = HIDDEN + fraction;
        if exponent > 1086 {
            proof {
                lemma_units_from(self.bits as int, 1087);
                lemma_pow2_adds(64, 1074);
                assert forall|v: u64| !#[trigger] self.is_integer(v as int) by {
                    lemma_mul_strict_inequality(v as int, pow2(64) as int, pow2(1074) as int);
                }
            }
            return None;
        }
        proof {
            lemma_pow2_pos((exponent - 1) as nat);
        }
        if exponent >= 1075 {
            let shift: u64 = exponent - 1075;
            let factor: u64 = power_of_two(shift);
            proof {
                lemma_pow2_adds(shift as nat, 1074);
                lemma_mul_is_associative(significand as int, factor as int, pow2(1074) as int);
                assert(significand * factor <= 0x1f_ffff_ffff_ffff * 0x800) by (nonlinear_arith)
                    requires
                        significand <= 0x1f_ffff_ffff_ffff,
                        factor <= 0x800,
                ;
            }
            return Some(significand * factor);
        }
        let shift: u64 = 1075 - exponent;
        let factor: u64 = power_of_two(shift);
        proof {
            lemma_pow2_adds(shift as nat, (exponent - 1) as nat);
            assert forall|v: int| #[trigger] self.is_integer(v) <==> significand == v * factor by {
                lemma_mul_is_associative(v, factor as int, power as int);
                if significand * power == (v * factor) * power {
                    lemma_mul_is_commutative(significand as int, power as int);
                    lemma_mul_is_commutative(v * factor, power as int);
                    lemma_mul_equality_converse(power as int, significand as int, v * factor);
                }
            }
            lemma_fundamental_div_mod(significand as int, factor as int);
            lemma_mul_is_commutative(factor as int, significand as int / factor as int);
        }
        if significand % factor == 0 {
            Some(significand / factor)
        } else {
            assert forall|v: u64| !#[trigger] self.is_integer(v as int) by {
                lemma_mod_multiples_basic(v as int, factor as int);
            }
            None
        }
    }

    /// The double that is exactly `n`, where there is one.
    pub fn from_i64(n: i64) -> (r: Option<Float>)
        ensures
            r == Float::of_integer(n as int),
            r matches Some(f) ==> f.is_integer(n as int),
    {
        let r = Float::find_i64(n);
        proof {
            if let Some(f) = r {
                assert(f.is_integer(n as int) && f.bits != SIGN);
                lemma_double_unique(f, Float::of_integer(n as int)->0, n as int);
            }
        }
        r
    }

    fn find_i64(n: i64) -> (r: Option<Float>)
        ensures
            match r {
                Some(f) => f.is_integer(n as int) && f.bits != SIGN,
                None => forall|f: Float| !#[trigger] f.is_integer(n as int),
            },
    {
        proof {
            lemma_powers();
            lemma_pow2_pos(1074);
        }
        if n == 0 {
            return Some(Float::zero());
        }
        let positive: u64 = if n < 0 {
            (-(n + 1)) as u64 + 1
        } else {
            n as u64
        };
        let mut significand: u64 = positive;
        let mut exponent: u64 = 1075;
        while significand < HIDDEN
            invariant
                exponent < 1075 ==> significand < 2 * HIDDEN,
                significand > 0,
                1023 <= exponent <= 1075,
                significand >= pow2((1075 - exponent) as nat),
                significand * pow2((exponent - 1) as nat) == positive * pow2(1074),
            decreases exponent,
        {
            proof {
                lemma_pow2_unfold((exponent - 1) as nat);
                lemma_pow2_unfold((1076 - exponent) as nat);
                let half = pow2((exponent - 2) as nat) as int;
                assert(significand * (2 * half) == (2 * significand) * half) by (nonlinear_arith);
                lemma_powers();
            }
            significand = 2 * significand;
            exponent = exponent - 1;
        }
        while significand >= 2 * HIDDEN
            invariant
                HIDDEN <= significand,
                1023 <= exponent <= 1086,
                exponent < 1075 ==> significand < 2 * HIDDEN,
                exponent >= 1075 ==> significand < pow2((1139 - exponent) as nat),
                significand * pow2((exponent - 1) as nat) == positive * pow2(1074),
                positive == if n < 0 { -n } else { n as int },
                n != 0,
            decreases significand,
        {
            proof {
                lemma_pow2_unfold(exponent as nat);
                let low = pow2((exponent - 1) as nat) as int;
                lemma_fundamental_div_mod(significand as int, 2);
                lemma_powers();
                lemma_pow2_unfold((1139 - exponent) as nat);
            }
            if significand % 2 != 0 {
                assert forall|f: Float| !#[trigger] f.is_integer(n as int) by {
                    if f.is_integer(n as int) {
                        lemma_negated_product(n as int, pow2(1074) as int);
                        lemma_odd_not_representable(
                            f.magnitude(),
                            significand as int,
                            (exponent - 1) as nat,
                        );
                    }
                }
                return None;
            }
            proof {
                let half = significand as int / 2;
                let low = pow2((exponent - 1) as nat) as int;
                assert((2 * half) * low == half * (2 * low)) by (nonlinear_arith);
            }
            significand = significand / 2;
            exponent = exponent + 1;
        }
        let magnitude: u64 = exponent * HIDDEN + (significand - HIDDEN);
        proof {
            assert(magnitude as int / HIDDEN as int == exponent);
            assert(magnitude as int % HIDDEN as int == significand - HIDDEN);
            lemma_negated_product(n as int, pow2(1074) as int);
        }
        if n < 0 {
            Some(Float { bits: SIGN + magnitude })
        } else {
            Some(Float { bits: magnitude })
        }
    }

    /// The value as a count: the nearest integer, held to the range of an
    /// `i64`; a NaN is zero.
    pub fn to_count(self) -> (r: i64)
        ensures
            r == self.as_count(),
    {
        if self.is_nan() {
            return 0;
        }
        let negative = self.bits >= SIGN;
        let magnitude: u64 = self.abs().bits;
        if magnitude >= 1086 * HIDDEN {
            proof {
                if self.finite() {
                    lemma_units_from(magnitude as int, 1086);
                    lemma_far_from_zero(units_of(magnitude as int));
                }
            }
            return if negative {
                i64::MIN
            } else {
                i64::MAX
            };
        }
        let nearest: u64 = nearest_count(magnitude);
        if negative {
            -(nearest as i64)
        } else {
            nearest as i64
        }
    }

    /// The double nearest to a count.
    pub fn from_count(n: i64) -> (r: Float)
        ensures
            r == Float::of_count(n),
            r.is_integer(nearest_double(n as int)),
    {
        let positive: u64 = if n < 0 {
            (-(n + 1)) as u64 + 1
        } else {
            n as u64
        };
        let (significand, excess): (u64, u64) = rounded_significand(positive);
        let magnitude: u64 = assembled(significand, 1075 + excess);
        let r = if n < 0 {
            Float { bits: SIGN + magnitude }
        } else {
            Float { bits: magnitude }
        };
        proof {
            let value = significand * pow2(excess as nat);
            lemma_pow2_adds(excess as nat, 1074);
            lemma_mul_is_associative(
                significand as int,
                pow2(excess as nat) as int,
                pow2(1074) as int,
            );
            lemma_negated_product(value, pow2(1074) as int);
            let nearest = nearest_double(n as int);
            assert(r.is_integer(nearest));
            assert(r.bits != SIGN) by {
                if n < 0 && magnitude == 0 {
                    lemma_nearest_positive(positive as nat);
                    lemma_pow2_pos(1074);
                    assert(value * pow2(1074) > 0) by (nonlinear_arith)
                        requires
                            value > 0,
                            pow2(1074) > 0,
                    ;
                }
            }
            lemma_double_unique(r, Float::of_integer(nearest)->0, nearest);
        }
        r
    }
}

/// The integer nearest to the value of a magnitude pattern below two to the
/// power of 63, halves going up.
fn nearest_count(magnitude: u64) -> (r: u64)
    requires
        magnitude < 1086 * HIDDEN,
    ensures
        r == (2 * units_of(magnitude as int) + pow2(1074)) / (2 * pow2(1074) as int),
        r <= i64::MAX,
{
    proof {
        lemma_powers();
        lemma_pow2_pos(1074);
    }
    let exponent: u64 = magnitude / HIDDEN;
    let fraction: u64 = magnitude % HIDDEN;
    let ghost units = units_of(magnitude as int);
    let ghost whole = pow2(1074) as int;
    if exponent < 1022 {
        proof {
            lemma_units_below(magnitude as int, 1022);
            lemma_pow2_unfold(1074);
            assert(units >= 0) by {
                if magnitude > 0 {
                    lemma_units_positive(magnitude as int);
                }
            }
            lemma_fundamental_div_mod_converse(2 * units + whole, 2 * whole, 0, 2 * units + whole);
        }
        return 0;
    }
    let significand: u64 = HIDDEN + fraction;
    let ghost low = pow2((exponent - 1) as nat) as int;
    proof {
        lemma_pow2_pos((exponent - 1) as nat);
    }
    if exponent >= 1075 {
        let factor: u64 = power_of_two(exponent - 1075);
        proof {
            lemma_pow2_adds((exponent - 1075) as nat, 1074);
            lemma_mul_is_associative(significand as int, factor as int, whole);
            if exponent - 1075 < 10 {
                lemma_pow2_strictly_increases((exponent - 1075) as nat, 10);
            }
            lemma_powers();
            assert(significand * factor <= 0x1f_ffff_ffff_ffff * 0x400) by (nonlinear_arith)
                requires
                    significand <= 0x1f_ffff_ffff_ffff,
                    factor <= 0x400,
            ;
            let value = significand * factor;
            assert(2 * (value * whole) + whole == (2 * whole) * value + whole) by (nonlinear_arith);
            lemma_fundamental_div_mod_converse(2 * units + whole, 2 * whole, value, whole);
        }
        return significand * factor;
    }
    let half: u64 = power_of_two(1074 - exponent);
    proof {
        if 1074 - exponent < 52 {
            lemma_pow2_strictly_increases((1074 - exponent) as nat, 52);
        }
        lemma_powers();
    }
    let r: u64 = (significand + half) / (2 * half);
    proof {
        lemma_pow2_unfold((1075 - exponent) as nat);
        lemma_pow2_adds((1075 - exponent) as nat, (exponent - 1) as nat);
        let rest = (significand + half) % (2 * half);
        lemma_fundamental_div_mod(significand + half, 2 * half as int);
        assert(2 * (significand * low) + (2 * half) * low == (2 * ((2 * half) * low)) * r + 2 * (
        rest * low)) by (nonlinear_arith)
            requires
                significand + half == (2 * half) * r + rest,
        ;
        assert(0 <= 2 * (rest * low) < 2 * ((2 * half) * low)) by (nonlinear_arith)
            requires
                0 <= rest < 2 * half,
                low > 0,
        ;
        assert(whole == (2 * half) * low);
        lemma_mul_is_commutative(2 * whole, r as int);
        lemma_fundamental_div_mod_converse(
            2 * units + whole,
            2 * whole,
            r as int,
            2 * (rest * low),
        );
    }
    r
}

/// Values from two to the power of 63 on round to no `i64`.
proof fn lemma_far_from_zero(units: int)
    requires
        units >= pow2(1137),
    ensures
        (2 * units + pow2(1074)) / (2 * pow2(1074) as int) >= 0x8000_0000_0000_0000,
{
    lemma_powers();
    lemma_pow2_pos(1074);
    lemma_pow2_adds(63, 1074);
    let whole = pow2(1074) as int;
    let limit = pow2(63) as int;
    assert((2 * whole) * limit <= 2 * units + whole) by (nonlinear_arith)
        requires
            limit * whole <= units,
            whole > 0,
    ;
    lemma_div_is_ordered((2 * whole) * limit, 2 * units + whole, 2 * whole);
    lemma_div_multiples_vanish(limit, 2 * whole);
}

/// The significand of the double nearest to `positive`, and how many low
/// bits it leaves out.
fn rounded_significand(positive: u64) -> (r: (u64, u64))
    requires
        positive <= 0x8000_0000_0000_0000,
    ensures
        r.0 <= 2 * HIDDEN,
        r.1 <= 11,
        r.0 * pow2(r.1 as nat) == nearest_multiple(
            positive as nat,
            pow2(excess_bits(positive as nat)),
        ),
{
    let mut significand: u64 = positive;
    let mut excess: u64 = 0;
    proof {
        lemma_powers();
    }
    while significand >= 2 * HIDDEN
        invariant
            positive <= 0x8000_0000_0000_0000,
            excess <= 11,
            significand * pow2(excess as nat) <= positive,
            significand == positive as int / pow2(excess as nat) as int,
            excess_bits(positive as nat) == excess + excess_bits(significand as nat),
        decreases significand,
    {
        proof {
            lemma_powers();
            lemma_pow2_pos(excess as nat);
            lemma_pow2_unfold((excess + 1) as nat);
            lemma_div_denominator(positive as int, pow2(excess as nat) as int, 2);
            lemma_mul_is_commutative(pow2(excess as nat) as int, 2);
            if excess == 11 {
                assert(significand * 0x800 > 0x8000_0000_0000_0000) by (nonlinear_arith)
                    requires
                        significand >= 2 * 0x0010_0000_0000_0000,
                ;
            }
            let half = significand as int / 2;
            let power = pow2(excess as nat) as int;
            assert(half * (2 * power) <= significand * power) by (nonlinear_arith)
                requires
                    2 * half <= significand,
                    power > 0,
            ;
        }
        significand = significand / 2;
        excess = excess + 1;
    }
    let unit: u64 = power_of_two(excess);
    let rest: u64 = positive % unit;
    proof {
        lemma_powers();
    }
    if rest < unit - rest || (rest == unit - rest && significand % 2 == 0) {
        (significand, excess)
    } else {
        (significand + 1, excess)
    }
}

/// The magnitude pattern of `significand` times two to the power of
/// `exponent - 1` units.
fn assembled(significand: u64, exponent: u64) -> (r: u64)
    requires
        significand <= 2 * HIDDEN,
        1075 <= exponent <= 1086,
    ensures
        r < INFINITE,
        units_of(r as int) == significand * pow2((exponent - 1) as nat),
{
    proof {
        lemma_powers();
    }
    if significand == 0 {
        return 0;
    }
    let ghost value = significand * pow2((exponent - 1) as nat);
    let mut s: u64 = significand;
    let mut e: u64 = exponent;
    if s == 2 * HIDDEN {
        proof {
            lemma_pow2_unfold(e as nat);
            let low = pow2((e - 1) as nat) as int;
            assert((2 * HIDDEN as int) * low == HIDDEN as int * (2 * low)) by (nonlinear_arith);
        }
        s = HIDDEN;
        e = e + 1;
    }
    while s < HIDDEN
        invariant
            0 < s < 2 * HIDDEN,
            1022 < e <= 1087,
            s >= pow2((if e < 1075 { 1075 - e } else { 0 }) as nat),
            s * pow2((e - 1) as nat) == value,
        decreases e,
    {
        proof {
            lemma_powers();
            lemma_pow2_unfold((e - 1) as nat);
            let half = pow2((e - 2) as nat) as int;
            assert(s * (2 * half) == (2 * s) * half) by (nonlinear_arith);
            if e <= 1075 {
                lemma_pow2_unfold((1076 - e) as nat);
            }
            if e == 1023 {
                assert(s >= HIDDEN);
            }
        }
        s = 2 * s;
        e = e - 1;
    }
    let r: u64 = e * HIDDEN + (s - HIDDEN);
    proof {
        assert(r as int / HIDDEN as int == e);
        assert(r as int % HIDDEN as int == s - HIDDEN);
    }
    r
}

proof fn lemma_nearest_positive(m: nat)
    ensures
        m > 0 ==> nearest_multiple(m, pow2(excess_bits(m))) > 0,
{
    let unit = pow2(excess_bits(m));
    lemma_pow2_pos(excess_bits(m));
    if m > 0 {
        lemma_excess_fits(m);
        lemma_fundamental_div_mod(m as int, unit as int);
        let low = (m / unit) as int;
        assert(low > 0) by {
            if low == 0 {
                assert(unit * low == 0) by (nonlinear_arith)
                    requires
                        low == 0,
                ;
                lemma_mod_bound(m as int, unit as int);
            }
        }
        assert(low * unit > 0 && (low + 1) * unit > 0) by (nonlinear_arith)
            requires
                low > 0,
                unit > 0,
        ;
    }
}

/// A number is not below the unit that its significand leaves out.
proof fn lemma_excess_fits(m: nat)
    requires
        m > 0,
    ensures
        pow2(excess_bits(m)) <= m,
    decreases m,
{
    lemma_powers();
    if m >= 2 * HIDDEN {
        lemma_excess_fits(m / 2);
        lemma_pow2_unfold(excess_bits(m));
    }
}

/// Two to the power of `exponent`.
fn power_of_two(exponent: u64) -> (r: u64)
    requires
        exponent < 64,
    ensures
        r == pow2(exponent as nat),
        r > 0,
        exponent <= 11 ==> r <= 0x800,
{
    let mut r: u64 = 1;
    let mut done: u64 = 0;
    proof {
        lemma_powers();
    }
    while done < exponent
        invariant
            done <= exponent < 64,
            r == pow2(done as nat),
        decreases exponent - done,
    {
        proof {
            lemma_pow2_unfold((done + 1) as nat);
            lemma_powers();
            if done + 1 < 63 {
                lemma_pow2_strictly_increases((done + 1) as nat, 63);
            }
        }
        r = 2 * r;
        done = done + 1;
    }
    proof {
        lemma_powers();
        if exponent < 11 {
            lemma_pow2_strictly_increases(exponent as nat, 11);
        }
        lemma_pow2_pos(exponent as nat);
    }
    r
}

proof fn lemma_powers()
    ensures
        pow2(0) == 1,
        pow2(1) == 2,
        pow2(10) == 0x400,
        pow2(11) == 0x800,
        pow2(52) == HIDDEN,
        pow2(53) == 2 * HIDDEN,
        pow2(63) == 0x8000_0000_0000_0000,
        pow2(64) == 0x1_0000_0000_0000_0000,
{
    lemma2_to64();
    lemma2_to64_rest();
}

proof fn lemma_negated_product(n: int, p: int)
    ensures
        (-n) * p == -(n * p),
{
    assert((-n) * p == -(n * p)) by (nonlinear_arith);
}

/// Patterns with an exponent below `exponent` count fewer units than its
/// first one.
proof fn lemma_units_below(magnitude: int, exponent: nat)
    requires
        0 <= magnitude,
        1 < exponent,
        magnitude / (HIDDEN as int) < exponent,
    ensures
        units_of(magnitude) < pow2(exponent + 51),
{
    lemma_powers();
    let own = magnitude / HIDDEN as int;
    let fraction = magnitude % HIDDEN as int;
    if own <= 0 {
        lemma_pow2_strictly_increases(52, exponent + 51);
    } else {
        let low = pow2((own - 1) as nat) as int;
        lemma_pow2_pos((own - 1) as nat);
        lemma_mul_strict_inequality(HIDDEN + fraction, 2 * HIDDEN as int, low);
        lemma_pow2_adds(53, (own - 1) as nat);
        if own + 52 < exponent + 51 {
            lemma_pow2_strictly_increases((own + 52) as nat, exponent + 51);
        }
    }
}

/// Patterns with an exponent of at least `exponent` count at least as many
/// units as its first one.
proof fn lemma_units_from(magnitude: int, exponent: nat)
    requires
        0 <= magnitude,
        0 < exponent,
        magnitude / (HIDDEN as int) >= exponent,
    ensures
        units_of(magnitude) >= pow2(exponent + 51),
{
    lemma_powers();
    let own = magnitude / HIDDEN as int;
    let fraction = magnitude % HIDDEN as int;
    let low = pow2((own - 1) as nat) as int;
    lemma_pow2_pos((own - 1) as nat);
    lemma_mul_inequality(HIDDEN as int, HIDDEN + fraction, low);
    lemma_pow2_adds(52, (own - 1) as nat);
    if exponent + 51 < own + 51 {
        lemma_pow2_strictly_increases(exponent + 51, (own + 51) as nat);
    }
}

/// Only the zero pattern counts no unit.
proof fn lemma_units_positive(magnitude: int)
    requires
        0 < magnitude,
    ensures
        units_of(magnitude) > 0,
{
    let exponent = magnitude / HIDDEN as int;
    let fraction = magnitude % HIDDEN as int;
    if exponent > 0 {
        lemma_pow2_pos((exponent - 1) as nat);
        let low = pow2((exponent - 1) as nat) as int;
        assert((HIDDEN + fraction) * low > 0) by (nonlinear_arith)
            requires
                HIDDEN + fraction > 0,
                low > 0,
        ;
    }
}

/// An odd number of more than 53 bits is no significand.
proof fn lemma_odd_not_representable(magnitude: int, odd: int, exponent: nat)
    requires
        0 <= magnitude < INFINITE,
        odd >= 2 * HIDDEN,
        odd % 2 == 1,
    ensures
        units_of(magnitude) != odd * pow2(exponent),
{
    let biased = magnitude / HIDDEN as int;
    let fraction = magnitude % HIDDEN as int;
    let other: nat = if biased <= 0 {
        0
    } else {
        (biased - 1) as nat
    };
    let significand = if biased <= 0 {
        fraction
    } else {
        HIDDEN + fraction
    };
    lemma_powers();
    lemma_pow2_pos(other);
    lemma_pow2_pos(exponent);
    assert(units_of(magnitude) == significand * pow2(other)) by {
        lemma_mul_basics_3(significand);
    }
    if units_of(magnitude) != odd * pow2(exponent) {
    } else if other <= exponent {
        let gap = (exponent - other) as nat;
        lemma_pow2_adds(gap, other);
        lemma_pow2_pos(gap);
        lemma_mul_is_associative(odd, pow2(gap) as int, pow2(other) as int);
        lemma_mul_is_commutative(significand, pow2(other) as int);
        lemma_mul_is_commutative(odd * pow2(gap), pow2(other) as int);
        lemma_mul_equality_converse(pow2(other) as int, significand, odd * pow2(gap));
        assert(odd * pow2(gap) >= odd) by (nonlinear_arith)
            requires
                pow2(gap) >= 1,
                odd >= 0,
        ;
    } else {
        let gap = (other - exponent) as nat;
        lemma_pow2_adds(gap, exponent);
        lemma_mul_is_associative(significand, pow2(gap) as int, pow2(exponent) as int);
        lemma_mul_is_commutative(odd, pow2(exponent) as int);
        lemma_mul_is_commutative(significand * pow2(gap), pow2(exponent) as int);
        lemma_mul_equality_converse(pow2(exponent) as int, odd, significand * pow2(gap));
        lemma_pow2_unfold(gap);
        let half = pow2((gap - 1) as nat) as int;
        assert(significand * (2 * half) == 2 * (significand * half)) by (nonlinear_arith);
    }
}

/// Larger finite magnitude patterns count more units.
proof fn lemma_units_increase(a: int, b: int)
    requires
        0 <= a < b,
    ensures
        units_of(a) < units_of(b),
{
    lemma_powers();
    let ea = a / HIDDEN as int;
    let fa = a % HIDDEN as int;
    let eb = b / HIDDEN as int;
    let fb = b % HIDDEN as int;
    if eb > 0 {
        let high = pow2((eb - 1) as nat) as int;
        lemma_pow2_pos((eb - 1) as nat);
        if ea == eb {
            lemma_mul_strict_inequality(HIDDEN + fa, HIDDEN + fb, high);
        } else {
            lemma_mul_inequality(HIDDEN as int, HIDDEN + fb, high);
            if ea <= 0 {
                lemma_mul_inequality(1, high, HIDDEN as int);
                lemma_mul_is_commutative(high, HIDDEN as int);
            } else {
                let low = pow2((ea - 1) as nat) as int;
                lemma_pow2_pos((ea - 1) as nat);
                lemma_mul_strict_inequality(HIDDEN + fa, 2 * HIDDEN as int, low);
                lemma_pow2_unfold(ea as nat);
                if ea < eb - 1 {
                    lemma_pow2_strictly_increases(ea as nat, (eb - 1) as nat);
                }
                lemma_mul_inequality(2 * low, high, HIDDEN as int);
                lemma_mul_is_commutative(2 * low, HIDDEN as int);
                lemma_mul_is_commutative(high, HIDDEN as int);
                assert((2 * HIDDEN as int) * low == HIDDEN as int * (2 * low)) by (nonlinear_arith);
            }
        }
    }
}

/// The order of two finite doubles is the order of the numbers they stand
/// for, so comparing bit patterns compares values.
pub proof fn order_is_numeric(a: Float, b: Float)
    requires
        a.finite(),
        b.finite(),
    ensures
        a.lt(b) <==> a.scaled() < b.scaled(),
        a.same(b) <==> a.scaled() == b.scaled(),
{
    let ma = a.magnitude();
    let mb = b.magnitude();
    if ma > 0 {
        lemma_units_positive(ma);
    }
    if mb > 0 {
        lemma_units_positive(mb);
    }
    if ma < mb {
        lemma_units_increase(ma, mb);
    } else if mb < ma {
        lemma_units_increase(mb, ma);
    }
}

proof fn lemma_integer_unique(f: Float, a: int, b: int)
    requires
        f.is_integer(a),
        f.is_integer(b),
    ensures
        a == b,
{
    lemma_pow2_pos(1074);
    lemma_mul_is_commutative(a, pow2(1074) as int);
    lemma_mul_is_commutative(b, pow2(1074) as int);
    lemma_mul_equality_converse(pow2(1074) as int, a, b);
}

proof fn lemma_double_unique(a: Float, b: Float, n: int)
    requires
        a.is_integer(n),
        b.is_integer(n),
        a.bits != SIGN,
        b.bits != SIGN,
    ensures
        a == b,
{
    order_is_numeric(a, b);
}

/// A number of at most 53 bits times a power of two has a magnitude pattern,
/// as long as normalising it does not run out of exponents.
proof fn lemma_pattern_exists(significand: int, exponent: nat, left: nat) -> (magnitude: int)
    requires
        0 < significand < 2 * HIDDEN,
        significand * pow2(left) >= HIDDEN,
        left < exponent <= 2046,
    ensures
        0 < magnitude < INFINITE,
        units_of(magnitude) == significand * pow2((exponent - 1) as nat),
    decreases left,
{
    lemma_powers();
    if significand >= HIDDEN {
        let magnitude = exponent * HIDDEN + (significand - HIDDEN);
        assert(magnitude / (HIDDEN as int) == exponent);
        assert(magnitude % (HIDDEN as int) == significand - HIDDEN);
        magnitude
    } else {
        if left == 0 {
            lemma_mul_basics_3(significand);
        }
        lemma_pow2_unfold(left);
        lemma_pow2_unfold((exponent - 1) as nat);
        let rest = pow2((left - 1) as nat) as int;
        let half = pow2((exponent - 2) as nat) as int;
        assert(significand * (2 * rest) == (2 * significand) * rest) by (nonlinear_arith);
        assert(significand * (2 * half) == (2 * significand) * half) by (nonlinear_arith);
        lemma_pattern_exists(2 * significand, (exponent - 1) as nat, (left - 1) as nat)
    }
}

proof fn lemma_exact_double(n: i64)
    requires
        -(2 * HIDDEN) < n < 2 * HIDDEN,
    ensures
        Float::of_integer(n as int) is Some,
        Float::of_integer(n as int)->0.is_integer(n as int),
        Float::of_integer(n as int)->0.bits != SIGN,
{
    lemma_powers();
    lemma_negated_product(n as int, pow2(1074) as int);
    if n == 0 {
        assert(Float::spec_zero().is_integer(0)) by {
            assert(0 * pow2(1074) == 0) by (nonlinear_arith);
        }
    } else {
        let m = if n < 0 {
            -n
        } else {
            n as int
        };
        assert(m * pow2(52) >= HIDDEN) by (nonlinear_arith)
            requires
                m >= 1,
                pow2(52) == HIDDEN,
        ;
        let magnitude = lemma_pattern_exists(m, 1075, 52);
        let f = Float {
            bits: if n < 0 {
                (SIGN + magnitude) as u64
            } else {
                magnitude as u64
            },
        };
        assert(f.magnitude() == magnitude);
        assert(f.is_integer(n as int) && f.bits != SIGN);
    }
}

/// Counts of at most 53 bits become doubles and come back unchanged.
pub proof fn small_counts_are_exact(n: i64)
    requires
        -(2 * HIDDEN) < n < 2 * HIDDEN,
    ensures
        nearest_double(n as int) == n,
        Float::of_count(n).is_integer(n as int),
        Float::of_count(n).as_count() == n,
{
    lemma_powers();
    let m = if n < 0 {
        -n
    } else {
        n as int
    };
    assert(nearest_multiple(m as nat, 1) == m) by {
        lemma_mul_basics_3(m);
    }
    let f = Float::of_count(n);
    lemma_exact_double(n);
    let whole = pow2(1074) as int;
    lemma_pow2_pos(1074);
    lemma_negated_product(n as int, whole);
    assert(m * whole >= 0) by (nonlinear_arith)
        requires
            m >= 0,
            whole > 0,
    ;
    if f.magnitude() > 0 {
        lemma_units_positive(f.magnitude());
    }
    assert(units_of(f.magnitude()) == m * whole);
    assert(2 * (m * whole) + whole == m * (2 * whole) + whole) by (nonlinear_arith);
    lemma_fundamental_div_mod_converse(2 * (m * whole) + whole, 2 * whole, m, whole);
    if n == 0 {
        assert(f.magnitude() == 0);
    } else {
        assert(m * whole > 0) by (nonlinear_arith)
            requires
                m > 0,
                whole > 0,
        ;
    }
}

/// A clamped finite value lies in the range, and a value in the range is
/// not moved.
pub proof fn clamp_holds_the_range(value: Float, low: Float, high: Float)
    requires
        low.le(high),
        !value.nan(),
    ensures
        low.le(value.clamped(low, high)),
        value.clamped(low, high).le(high),
        low.le(value) && value.le(high) ==> value.clamped(low, high) == value,
{
}

/// What a pattern is, by its eleven exponent bits: it is finite unless all of
/// them are set, and then a NaN unless the fraction is zero. The sign is the
/// highest bit.
pub proof fn patterns_are_classified(f: Float)
    ensures
        ({
            let exponent = (f.bits / 0x10_0000_0000_0000) % 2048;
            let fraction = f.bits % 0x10_0000_0000_0000;
            &&& f.finite() <==> exponent != 2047
            &&& f.nan() <==> exponent == 2047 && fraction != 0
            &&& f.negative() <==> f.bits / 0x8000_0000_0000_0000 == 1
        }),
{
}

/// Numeric comparison: a NaN is in no relation to anything, not even itself.
/// Of two other values exactly one of less, equal and greater holds, at-most
/// is less or equal, less is transitive, every finite value lies between the
/// infinities, and the two zeros are equal.
pub proof fn comparisons_follow_the_number_line(a: Float, b: Float, c: Float)
    ensures
        a.nan() ==> !a.lt(b) && !b.lt(a) && !a.le(b) && !b.le(a) && !a.same(b) && !b.same(a),
        !a.nan() && !b.nan() ==> (a.lt(b) <==> !b.le(a)) && (a.same(b) <==> a.le(b) && b.le(a)),
        a.le(b) <==> a.lt(b) || a.same(b),
        !(a.lt(b) && a.same(b)),
        a.lt(b) && b.lt(c) ==> a.lt(c),
        a.same(b) && b.same(c) ==> a.same(c),
        a.finite() ==> (Float { bits: 0xfff0_0000_0000_0000 }).lt(a) && a.lt(
            (Float { bits: 0x7ff0_0000_0000_0000 }),
        ),
        (Float { bits: 0 }).same((Float { bits: 0x8000_0000_0000_0000 })),
        Float::spec_zero() == (Float { bits: 0 }),
{
}

/// The number line of the doubles: zero is no unit, each next magnitude
/// pattern lies one unit in the last place higher, which doubles with each
/// exponent, and the sign turns the value around.
pub proof fn patterns_step_by_the_last_place(magnitude: int)
    requires
        0 <= magnitude,
    ensures
        units_of(0) == 0,
        magnitude < 0x10_0000_0000_0000 ==> units_of(magnitude + 1) - units_of(magnitude) == 1,
        magnitude >= 0x10_0000_0000_0000 ==> units_of(magnitude + 1) - units_of(magnitude) == pow2(
            (magnitude / 0x10_0000_0000_0000 - 1) as nat,
        ),
{
    let exponent = magnitude / 0x10_0000_0000_0000;
    let fraction = magnitude % 0x10_0000_0000_0000;
    lemma2_to64();
    if fraction + 1 < 0x10_0000_0000_0000 {
        assert((magnitude + 1) / 0x10_0000_0000_0000 == exponent);
        assert((magnitude + 1) % 0x10_0000_0000_0000 == fraction + 1);
        if exponent > 0 {
            let power = pow2((exponent - 1) as nat) as int;
            assert((HIDDEN + (fraction + 1)) * power - (HIDDEN + fraction) * power == power)
                by (nonlinear_arith);
        }
    } else {
        assert((magnitude + 1) / 0x10_0000_0000_0000 == exponent + 1);
        assert((magnitude + 1) % 0x10_0000_0000_0000 == 0);
        if exponent > 0 {
            let power = pow2((exponent - 1) as nat) as int;
            lemma_pow2_unfold(exponent as nat);
            assert((HIDDEN + fraction) * power == 2 * (HIDDEN * power) - power) by (nonlinear_arith)
                requires
                    fraction == HIDDEN - 1,
            ;
            assert((HIDDEN + 0) * (2 * power) == 2 * (HIDDEN * power)) by (nonlinear_arith);
        }
    }
}

/// The sign bit alone turns a finite value around, and dropping it leaves the
/// distance from zero.
pub proof fn signs_mirror_the_value(f: Float)
    requires
        f.finite(),
    ensures
        !f.absolute().negative(),
        f.absolute().finite(),
        f.absolute().scaled() == if f.scaled() < 0 {
            -f.scaled()
        } else {
            f.scaled()
        },
        f.bits < 0x8000_0000_0000_0000 ==> f.scaled() >= 0 && (Float {
            bits: (f.bits + 0x8000_0000_0000_0000) as u64,
        }).scaled() == -f.scaled(),
        f.nonnegative() <==> f.scaled() >= 0,
{
    if f.magnitude() > 0 {
        lemma_units_positive(f.magnitude());
    }
    order_is_numeric(f, Float::spec_zero());
}

/// A value is the `u64`, or the double that an integer is, exactly where it
/// equals that number: what is read back is the number itself, and nothing is
/// read where there is none. Of the two zeros, an integer becomes the
/// positive one.
pub proof fn integers_convert_exactly(f: Float, v: u64, n: int)
    ensures
        f.as_u64() == Some(v) <==> f.is_integer(v as int),
        Float::of_integer(n) == Some(f) <==> f.is_integer(n) && f.bits
            != 0x8000_0000_0000_0000,
{
    if f.is_integer(v as int) {
        lemma_integer_unique(f, v as int, f.as_u64()->0 as int);
    }
    if f.is_integer(n) && f.bits != 0x8000_0000_0000_0000 {
        lemma_double_unique(f, Float::of_integer(n)->0, n);
    }
}

/// A value becomes the nearest count: no integer is closer, of two equally
/// close ones it is the one further from zero, and what lies outside the
/// counts is held to their range. A NaN becomes zero.
pub proof fn counts_are_the_nearest(f: Float)
    ensures
        ({
            let whole = pow2(1074) as int;
            let nearest = f.nearest_integer();
            let off = f.scaled() - nearest * whole;
            &&& f.finite() ==> -whole <= 2 * off <= whole
            &&& f.finite() && 2 * off == whole ==> f.scaled() < 0
            &&& f.finite() && 2 * off == -whole ==> f.scaled() > 0
            &&& f.finite() && i64::MIN <= nearest <= i64::MAX ==> f.as_count() == nearest
            &&& f.finite() && nearest > i64::MAX ==> f.as_count() == i64::MAX
            &&& f.finite() && nearest < i64::MIN ==> f.as_count() == i64::MIN
            &&& f.bits == 0x7ff0_0000_0000_0000 ==> f.as_count() == i64::MAX
            &&& f.bits == 0xfff0_0000_0000_0000 ==> f.as_count() == i64::MIN
            &&& f.nan() ==> f.as_count() == 0
        }),
{
    let whole = pow2(1074) as int;
    lemma_pow2_pos(1074);
    if f.finite() {
        let units = units_of(f.magnitude());
        if f.magnitude() > 0 {
            lemma_units_positive(f.magnitude());
        }
        let up = (2 * units + whole) / (2 * whole);
        assert(2 * whole * up <= 2 * units + whole < 2 * whole * up + 2 * whole)
            by (nonlinear_arith)
            requires
                whole > 0,
                up == (2 * units + whole) / (2 * whole),
        ;
        assert(2 * whole * up == 2 * (up * whole)) by (nonlinear_arith);
        assert((-up) * whole == -(up * whole)) by (nonlinear_arith);
        assert(up >= 0) by (nonlinear_arith)
            requires
                whole > 0,
                units >= 0,
                up == (2 * units + whole) / (2 * whole),
        ;
        assert(up == 0 ==> up * whole == 0) by (nonlinear_arith);
        assert(up >= 1 ==> up * whole >= whole) by (nonlinear_arith)
            requires
                whole > 0,
        ;
    }
}

/// The significand of a rounded integer: it leaves out as few low bits as 53
/// bits allow, and what stands for the integer is the nearest multiple of what
/// the left-out bits count, the even one where two are equally near.
pub proof fn integers_round_to_even(m: nat)
    ensures
        ({
            let unit = pow2(excess_bits(m));
            let rounded = nearest_multiple(m, unit);
            let off = 2 * (m - rounded);
            &&& m / unit < 0x20_0000_0000_0000
            &&& unit > 1 ==> m / unit >= 0x10_0000_0000_0000
            &&& rounded % unit == 0
            &&& -unit <= off <= unit
            &&& off == unit || off == -unit ==> (rounded / unit) % 2 == 0
            &&& nearest_double(m as int) == rounded && nearest_double(-(m as int)) == -rounded
        }),
    decreases m,
{
    lemma_pow2_pos(excess_bits(m));
    lemma_excess_keeps_the_significand(m);
    let unit = pow2(excess_bits(m)) as int;
    let low = m as int / unit;
    let rest = m as int % unit;
    assert(m == low * unit + rest && 0 <= rest < unit) by (nonlinear_arith)
        requires
            unit > 0,
            low == m as int / unit,
            rest == m as int % unit,
    ;
    assert((low + 1) * unit == low * unit + unit) by (nonlinear_arith);
    lemma_multiple(low, unit);
    lemma_multiple(low + 1, unit);
}

proof fn lemma_multiple(n: int, unit: int)
    requires
        unit > 0,
    ensures
        (n * unit) % unit == 0,
        (n * unit) / unit == n,
{
    lemma_mod_multiples_basic(n, unit);
    lemma_div_multiples_vanish(n, unit);
    assert(n * unit == unit * n) by (nonlinear_arith);
}

proof fn lemma_excess_keeps_the_significand(m: nat)
    ensures
        m / pow2(excess_bits(m)) < 0x20_0000_0000_0000,
        excess_bits(m) > 0 ==> m / pow2(excess_bits(m)) >= 0x10_0000_0000_0000,
        excess_bits(m) == 0 ==> pow2(excess_bits(m)) == 1,
    decreases m,
{
    lemma2_to64();
    if m >= 2 * HIDDEN {
        let fewer = excess_bits(m / 2);
        lemma_excess_keeps_the_significand(m / 2);
        lemma_pow2_unfold(1 + fewer);
        lemma_pow2_pos(fewer);
        lemma_div_denominator(m as int, 2, pow2(fewer) as int);
        assert(2 * pow2(fewer) == pow2(1 + fewer));
    }
}

/// A count becomes the double that is exactly its rounded value, which for a
/// count of up to 53 bits is the count itself; zero becomes the positive zero.
pub proof fn counts_become_doubles(n: i64)
    ensures
        Float::of_count(n).is_integer(nearest_double(n as int)),
        Float::of_count(n).bits != 0x8000_0000_0000_0000,
        -(2 * HIDDEN) < n < 2 * HIDDEN ==> nearest_double(n as int) == n,
{
    if -(2 * HIDDEN) < n < 2 * HIDDEN {
        small_counts_are_exact(n);
        lemma_exact_double(n);
    } else {
        let m = if n < 0 {
            (-n) as nat
        } else {
            n as nat
        };
        integers_round_to_even(m);
        let magnitude = lemma_rounded_pattern(m);
        let unit = pow2(excess_bits(m));
        let rounded = nearest_multiple(m, unit) as int;
        let double = if n < 0 {
            Float { bits: (SIGN + magnitude) as u64 }
        } else {
            Float { bits: magnitude as u64 }
        };
        lemma_negated_product(rounded, pow2(1074) as int);
        assert(double.is_integer(nearest_double(n as int)));
        assert(double.bits != SIGN);
        integers_convert_exactly(double, 0, nearest_double(n as int));
    }
}

/// The rounded value of a large integer has a magnitude pattern.
proof fn lemma_rounded_pattern(m: nat) -> (magnitude: int)
    requires
        2 * HIDDEN <= m <= 0x8000_0000_0000_0000,
    ensures
        0 < magnitude < INFINITE,
        units_of(magnitude) == nearest_multiple(m, pow2(excess_bits(m))) * pow2(1074),
{
    let excess = excess_bits(m);
    let unit = pow2(excess) as int;
    let low = m as int / unit;
    lemma_powers();
    lemma_pow2_pos(excess);
    lemma_excess_keeps_the_significand(m);
    lemma_excess_below(m, 11);
    let significand = if nearest_multiple(m, unit as nat) == low * unit {
        low
    } else {
        low + 1
    };
    assert(nearest_multiple(m, unit as nat) == significand * unit);
    let (halved, more) = if significand == 2 * HIDDEN {
        (HIDDEN as int, (excess + 1) as nat)
    } else {
        (significand, excess)
    };
    lemma_pow2_unfold((excess + 1) as nat);
    assert(halved * pow2(more) == significand * unit) by {
        if significand == 2 * HIDDEN {
            assert(HIDDEN * (2 * unit) == (2 * HIDDEN) * unit) by (nonlinear_arith);
        }
    }
    assert(halved * pow2(0) >= HIDDEN);
    let magnitude = lemma_pattern_exists(halved, (more + 1075) as nat, 0);
    lemma_pow2_adds(more, 1074);
    lemma_mul_is_associative(halved, pow2(more) as int, pow2(1074) as int);
    magnitude
}

proof fn lemma_excess_below(m: nat, limit: nat)
    requires
        m < pow2(limit) * (2 * HIDDEN),
    ensures
        excess_bits(m) <= limit,
    decreases limit,
{
    lemma_powers();
    if m >= 2 * HIDDEN {
        if limit == 0 {
            assert(pow2(0) * (2 * HIDDEN) == 2 * HIDDEN);
        } else {
            lemma_pow2_unfold(limit);
            let fewer = (limit - 1) as nat;
            assert(pow2(limit) * (2 * HIDDEN) == 2 * (pow2(fewer) * (2 * HIDDEN)))
                by (nonlinear_arith)
                requires
                    pow2(limit) == 2 * pow2(fewer),
            ;
            lemma_excess_below(m / 2, fewer);
        }
    }
}

} // verus!
