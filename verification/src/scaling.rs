//! An integer times a binary64 factor, cut to an integer.
//!
//! This is the one product that an admission ceiling is cut by. It is computed
//! in integers, as IEEE 754 defines it: the exact product, rounded to the
//! nearest binary64 value with ties to even, then cut toward zero.
use crate::binary64::{Binary64, INFINITE_BITS, SIGN_BIT};
use vstd::arithmetic::power2::{
    lemma2_to64, lemma2_to64_rest, lemma_pow2_adds, lemma_pow2_pos, lemma_pow2_strictly_increases,
    lemma_pow2_unfold, pow2,
};
use vstd::prelude::*;

verus! {

/// 2 to the 52nd: where the patterns of normal values begin, and how many share
/// an exponent.
pub const BINADE: u64 = 0x10_0000_0000_0000;

/// 2 to the 53rd: one more than the largest significand.
pub const SIGNIFICANDS: u64 = 0x20_0000_0000_0000;

/// What the exponent field of a pattern counts above the power of two that the
/// significand is multiplied by.
pub const EXPONENT_BIAS: u64 = 1075;

impl Binary64 {
    /// The exponent field, where that of the subnormal values counts as one.
    pub open spec fn exponent_field(self) -> int {
        if self.magnitude() < BINADE {
            1
        } else {
            self.magnitude() / BINADE as int
        }
    }

    /// The integer significand. The magnitude of a finite value is
    /// `significand * 2^(exponent_field - EXPONENT_BIAS)`.
    pub open spec fn significand(self) -> nat {
        if self.magnitude() < BINADE {
            self.magnitude() as nat
        } else {
            (BINADE + self.magnitude() % BINADE as int) as nat
        }
    }

    /// Whether the value lies strictly between zero and one.
    pub open spec fn is_proper_fraction(self) -> bool {
        self.positive() && self.less(Self::one_value())
    }

    /// `n * self` as binary64, cut toward zero and to the range of `u32`. NaN
    /// cuts to zero.
    pub open spec fn times(self, n: nat) -> nat {
        let product = rounded(n * self.significand());
        if self.is_nan() || self.bits >= SIGN_BIT || n == 0 {
            0
        } else if !self.finite() {
            u32::MAX as nat
        } else if self.exponent_field() >= EXPONENT_BIAS {
            up_to_u32(product * pow2((self.exponent_field() - EXPONENT_BIAS) as nat))
        } else {
            up_to_u32(product / pow2((EXPONENT_BIAS - self.exponent_field()) as nat))
        }
    }
}

impl Binary64 {
    /// `n * self` as binary64, cut toward zero and to the range of `u32`. NaN
    /// cuts to zero.
    pub fn scale(self, n: u32) -> (r: u32)
        ensures
            r == self.times(n as nat),
    {
        if self.bits >= SIGN_BIT || self.bits > INFINITE_BITS || n == 0 {
            return 0;
        }
        if self.bits == INFINITE_BITS {
            return u32::MAX;
        }
        let mut significand: u64 = self.bits;
        let mut field: u64 = 1;
        if self.bits >= BINADE {
            significand = BINADE + self.bits % BINADE;
            field = self.bits / BINADE;
        }
        let ghost x = n as nat * significand as nat;
        proof {
            lemma_product_is_small(n as nat, significand as nat);
        }
        let product: u128 = round(n as u128 * significand as u128);
        if field >= EXPONENT_BIAS {
            proof {
                let above = pow2((field - EXPONENT_BIAS) as nat);
                lemma_pow2_pos((field - EXPONENT_BIAS) as nat);
                lemma_rounding_keeps_large(x);
                assert(product * above > u32::MAX) by (nonlinear_arith)
                    requires
                        product > u32::MAX,
                        above >= 1,
                ;
            }
            return u32::MAX;
        }
        let shift: u64 = EXPONENT_BIAS - field;
        if shift >= 128 {
            proof {
                lemma2_to64();
                lemma2_to64_rest();
                lemma_pow2_adds(64, 64);
                if shift > 128 {
                    lemma_pow2_strictly_increases(128, shift as nat);
                }
                assert(product as nat / pow2(shift as nat) == 0) by (nonlinear_arith)
                    requires
                        product < pow2(shift as nat),
                ;
            }
            return 0;
        }
        proof {
            vstd::bits::lemma_u128_shr_is_div(product, shift as u128);
        }
        let cut: u128 = product >> (shift as u128);
        if cut <= u32::MAX as u128 {
            cut as u32
        } else {
            u32::MAX
        }
    }
}

/// `x` rounded to the nearest value that a binary64 significand can hold.
fn round(x: u128) -> (r: u128)
    requires
        x < SIGNIFICANDS * 0x1_0000_0000,
    ensures
        r == rounded(x as nat),
{
    let mut unit: u128 = 1;
    let mut rest: u128 = x;
    while rest >= SIGNIFICANDS as u128
        invariant
            x < SIGNIFICANDS * 0x1_0000_0000,
            1 <= unit <= 0x2_0000_0000,
            unit * rest <= x,
            unit_of(x as nat) == unit * unit_of(rest as nat),
        decreases rest,
    {
        let ghost tail = unit_of((rest / 2) as nat);
        assert(unit < 0x1_0000_0000) by (nonlinear_arith)
            requires
                unit * rest <= x,
                rest >= SIGNIFICANDS,
                x < SIGNIFICANDS * 0x1_0000_0000,
        ;
        assert((2 * unit) * (rest / 2) <= x) by (nonlinear_arith)
            requires
                unit * rest <= x,
                unit >= 1,
        ;
        assert(unit * (2 * tail) == (2 * unit) * tail) by (nonlinear_arith);
        rest = rest / 2;
        unit = 2 * unit;
    }
    assert(unit * unit_of(rest as nat) == unit) by (nonlinear_arith)
        requires
            unit_of(rest as nat) == 1,
    ;
    let below: u128 = x / unit;
    let left: u128 = x % unit;
    assert(x == below * unit + left && left < unit) by (nonlinear_arith)
        requires
            unit >= 1,
            below == x / unit,
            left == x % unit,
    ;
    assert((below + 1) * unit == below * unit + unit) by (nonlinear_arith);
    if 2 * left > unit || 2 * left == unit && below % 2 == 1 {
        (below + 1) * unit
    } else {
        below * unit
    }
}

/// `x`, or the largest `u32` if `x` is larger.
pub open spec fn up_to_u32(x: nat) -> nat {
    if x <= u32::MAX {
        x
    } else {
        u32::MAX as nat
    }
}

/// The weight of the last bit that is kept of `x`: the least power of two of
/// which `x` holds fewer than `SIGNIFICANDS`.
pub open spec fn unit_of(x: nat) -> nat
    decreases x,
{
    if x < SIGNIFICANDS {
        1
    } else {
        2 * unit_of(x / 2)
    }
}

/// The multiple of `unit_of(x)` that is nearest to `x`, the even one of two.
pub open spec fn rounded(x: nat) -> nat {
    let unit = unit_of(x);
    let below = x / unit;
    let left = x % unit;
    if 2 * left > unit || 2 * left == unit && below % 2 == 1 {
        (below + 1) * unit
    } else {
        below * unit
    }
}

/// The unit is a power of two, and small for small numbers.
proof fn lemma_unit_is_a_power(x: nat, b: nat) -> (j: nat)
    requires
        x < SIGNIFICANDS * pow2(b),
    ensures
        j <= b,
        unit_of(x) == pow2(j),
    decreases b,
{
    lemma2_to64();
    if x < SIGNIFICANDS {
        0
    } else {
        assert(b > 0);
        lemma_pow2_unfold(b);
        let half = lemma_unit_is_a_power(x / 2, (b - 1) as nat);
        lemma_pow2_unfold(half + 1);
        half + 1
    }
}

/// A product of a `u32` and a significand.
proof fn lemma_product_is_small(n: nat, significand: nat)
    requires
        n <= u32::MAX,
        significand < SIGNIFICANDS,
    ensures
        n * significand < SIGNIFICANDS * 0x1_0000_0000,
        n >= 1 ==> n * significand >= significand,
{
    assert(n * significand < SIGNIFICANDS * 0x1_0000_0000) by (nonlinear_arith)
        requires
            n <= u32::MAX,
            significand < SIGNIFICANDS,
    ;
    assert(n >= 1 ==> n * significand >= significand) by (nonlinear_arith);
}

/// Rounding keeps a large number large.
proof fn lemma_rounding_keeps_large(x: nat)
    requires
        BINADE <= x < SIGNIFICANDS * 0x1_0000_0000,
    ensures
        rounded(x) > u32::MAX,
{
    lemma2_to64();
    let j = lemma_unit_is_a_power(x, 32);
    lemma_pow2_pos(j);
    if j < 32 {
        lemma_pow2_strictly_increases(j, 32);
    }
    let unit = unit_of(x);
    let below = x / unit;
    assert(x == below * unit + x % unit && x % unit < unit) by (nonlinear_arith)
        requires
            unit >= 1,
            below == x / unit,
    ;
    assert((below + 1) * unit == below * unit + unit) by (nonlinear_arith);
}

/// Rounding does not pass a multiple of the unit.
proof fn lemma_rounding_stays_below(x: nat, unit: nat, t: nat)
    requires
        unit == unit_of(x),
        unit > 0,
        x <= t * unit,
    ensures
        rounded(x) <= t * unit,
{
    let below = x / unit;
    let left = x % unit;
    assert(x == below * unit + left) by (nonlinear_arith)
        requires
            unit > 0,
            below == x / unit,
            left == x % unit,
    ;
    if left > 0 {
        assert(t >= below + 1) by (nonlinear_arith)
            requires
                below * unit + left <= t * unit,
                left > 0,
        ;
        assert((below + 1) * unit <= t * unit) by (nonlinear_arith)
            requires
                t >= below + 1,
        ;
    }
}

/// A factor between zero and one never gives more than the integer itself.
pub proof fn law_a_proper_fraction_never_grows(factor: Binary64, n: u32)
    requires
        factor.is_proper_fraction(),
    ensures
        factor.times(n as nat) <= n,
{
    let x = n as nat * factor.significand();
    let k = (EXPONENT_BIAS - factor.exponent_field()) as nat;
    lemma2_to64();
    lemma2_to64_rest();
    assert(factor.exponent_field() <= 1022);
    assert(factor.significand() < SIGNIFICANDS);
    assert(k >= 53);
    assert(x <= n * SIGNIFICANDS) by (nonlinear_arith)
        requires
            x == n as nat * factor.significand(),
            factor.significand() < SIGNIFICANDS,
    ;
    assert(pow2(32) == 0x1_0000_0000);
    assert(pow2(53) == SIGNIFICANDS);
    assert(x < SIGNIFICANDS * pow2(32));
    let j = lemma_unit_is_a_power(x, 32);
    lemma_pow2_pos(j);
    lemma_pow2_pos(k);
    // The integer, in units of the product, is a whole number of them.
    let t = n as nat * pow2((k - j) as nat);
    lemma_pow2_adds((k - j) as nat, j);
    assert(t * pow2(j) == n * pow2(k)) by (nonlinear_arith)
        requires
            t == n as nat * pow2((k - j) as nat),
            pow2((k - j) as nat) * pow2(j) == pow2(k),
    ;
    if k > 53 {
        lemma_pow2_strictly_increases(53, k);
    }
    assert(n * SIGNIFICANDS <= n * pow2(k)) by (nonlinear_arith)
        requires
            SIGNIFICANDS <= pow2(k),
    ;
    lemma_rounding_stays_below(x, pow2(j), t);
    assert(rounded(x) / pow2(k) <= n) by (nonlinear_arith)
        requires
            rounded(x) <= n * pow2(k),
            pow2(k) > 0,
    ;
}

/// A unit that rounding leaves something below is the largest that the number
/// holds enough of.
proof fn lemma_unit_is_the_binade(x: nat, j: nat)
    requires
        j > 0,
        BINADE * pow2(j) <= x < SIGNIFICANDS * pow2(j),
    ensures
        unit_of(x) == pow2(j),
    decreases j,
{
    lemma2_to64();
    lemma_pow2_unfold(j);
    lemma_pow2_pos((j - 1) as nat);
    assert(x >= SIGNIFICANDS);
    if j == 1 {
        reveal_with_fuel(unit_of, 2);
    } else {
        lemma_unit_is_the_binade(x / 2, (j - 1) as nat);
    }
}

/// Rounding is to the nearest multiple of the last place of a 53-bit
/// significand, and of two that are equally near to the even one.
pub proof fn law_rounding_is_to_nearest_even(x: nat, j: nat)
    ensures
        x < 0x20_0000_0000_0000 ==> rounded(x) == x,
        j > 0 && 0x10_0000_0000_0000 * pow2(j) <= x < 0x20_0000_0000_0000 * pow2(j) ==> {
            &&& rounded(x) % pow2(j) == 0
            &&& 2 * (rounded(x) - x) <= pow2(j)
            &&& 2 * (x - rounded(x)) <= pow2(j)
            &&& 2 * (rounded(x) - x) == pow2(j) || 2 * (x - rounded(x)) == pow2(j) ==> (rounded(x)
                / pow2(j)) % 2 == 0
        },
{
    if x < 0x20_0000_0000_0000 {
        assert(unit_of(x) == 1);
    }
    if j > 0 && 0x10_0000_0000_0000 * pow2(j) <= x < 0x20_0000_0000_0000 * pow2(j) {
        lemma_unit_is_the_binade(x, j);
        lemma_pow2_pos(j);
        let unit = pow2(j);
        let below = x / unit;
        let left = x % unit;
        assert(x == below * unit + left && left < unit) by (nonlinear_arith)
            requires
                unit > 0,
                below == x / unit,
                left == x % unit,
        ;
        assert((below + 1) * unit == below * unit + unit) by (nonlinear_arith);
        vstd::arithmetic::div_mod::lemma_mod_multiples_basic(below as int, unit as int);
        vstd::arithmetic::div_mod::lemma_mod_multiples_basic((below + 1) as int, unit as int);
        vstd::arithmetic::div_mod::lemma_div_multiples_vanish(below as int, unit as int);
        vstd::arithmetic::div_mod::lemma_div_multiples_vanish((below + 1) as int, unit as int);
        assert(unit * below == below * unit) by (nonlinear_arith);
        assert(unit * (below + 1) == (below + 1) * unit) by (nonlinear_arith);
    }
}

/// The product is cut toward zero: for a normal factor above zero and below
/// 2^53, of pattern `bits`, it is the integer part of the exact product
/// `n * (2^52 + bits % 2^52) / 2^(1075 - bits / 2^52)` once that is rounded, or
/// the largest `u32`. A factor that is no number above zero gives zero, and
/// infinity gives the largest `u32`.
pub proof fn law_product_is_cut_toward_zero(factor: Binary64, n: u32)
    ensures
        n == 0 || factor.bits == 0 || factor.bits > 0x7ff0_0000_0000_0000 ==> factor.times(n as nat)
            == 0,
        n > 0 && factor.bits == 0x7ff0_0000_0000_0000 ==> factor.times(n as nat) == u32::MAX,
        n > 0 && 0x10_0000_0000_0000 <= factor.bits && factor.bits / 0x10_0000_0000_0000 < 1075 ==> {
            let exact = n as nat * (0x10_0000_0000_0000 + factor.bits % 0x10_0000_0000_0000) as nat;
            let scale = pow2((1075 - factor.bits / 0x10_0000_0000_0000) as nat);
            let t = factor.times(n as nat);
            &&& t <= u32::MAX
            &&& t * scale <= rounded(exact)
            &&& t < u32::MAX ==> rounded(exact) < (t + 1) * scale
        },
        n > 0 && 1075 <= factor.bits / 0x10_0000_0000_0000 && factor.bits < 0x7ff0_0000_0000_0000
            ==> factor.times(n as nat) == u32::MAX,
        factor.bits < 0x10_0000_0000_0000 ==> factor.times(n as nat) == 0,
{
    let x = n as nat * factor.significand();
    let e = factor.exponent_field();
    if factor.bits < INFINITE_BITS && n > 0 {
        assert(factor.significand() < SIGNIFICANDS);
        lemma_product_is_small(n as nat, factor.significand());
        if e >= EXPONENT_BIAS {
            let above = pow2((e - EXPONENT_BIAS) as nat);
            lemma_pow2_pos((e - EXPONENT_BIAS) as nat);
            lemma_rounding_keeps_large(x);
            assert(rounded(x) * above > u32::MAX) by (nonlinear_arith)
                requires
                    rounded(x) > u32::MAX,
                    above >= 1,
            ;
        } else {
            let scale = pow2((EXPONENT_BIAS - e) as nat);
            lemma_pow2_pos((EXPONENT_BIAS - e) as nat);
            let q = rounded(x) / scale;
            assert(q * scale <= rounded(x) < (q + 1) * scale) by (nonlinear_arith)
                requires
                    scale > 0,
                    q == rounded(x) / scale,
            ;
            let t = factor.times(n as nat);
            assert(t * scale <= q * scale) by (nonlinear_arith)
                requires
                    t <= q,
            ;
            if factor.bits < BINADE {
                lemma_subnormal_product_is_tiny(x);
                vstd::arithmetic::div_mod::lemma_basic_div(rounded(x) as int, scale as int);
            }
        }
    }
}

proof fn lemma_subnormal_product_is_tiny(x: nat)
    requires
        x < SIGNIFICANDS * 0x1_0000_0000,
    ensures
        rounded(x) < pow2(1074),
{
    lemma2_to64();
    let j = lemma_unit_is_a_power(x, 32);
    lemma_pow2_pos(j);
    if j < 32 {
        lemma_pow2_strictly_increases(j, 32);
    }
    let unit = unit_of(x);
    let below = x / unit;
    assert(below * unit <= x) by (nonlinear_arith)
        requires
            unit >= 1,
            below == x / unit,
    ;
    assert((below + 1) * unit == below * unit + unit) by (nonlinear_arith);
    lemma_pow2_adds(64, 64);
    lemma_pow2_strictly_increases(128, 1074);
}

/// Rounding does not fall below a multiple of the unit.
proof fn lemma_rounding_stays_above(x: nat, unit: nat, t: nat)
    requires
        unit == unit_of(x),
        unit > 0,
        t * unit <= x,
    ensures
        t * unit <= rounded(x),
{
    let below = x / unit;
    assert(t <= below) by (nonlinear_arith)
        requires
            unit > 0,
            t * unit <= x,
            below == x / unit,
    ;
    assert(t * unit <= below * unit) by (nonlinear_arith)
        requires
            t <= below,
    ;
    assert((below + 1) * unit == below * unit + unit) by (nonlinear_arith);
}

/// A normal factor between zero and one, of pattern `bits`, leaves of `n` its
/// share in whole numbers: more than `n * factor - 1`, and no more than
/// `n * factor` but for the rounding of the product, which adds less than one
/// part in 2^53.
pub proof fn law_a_fraction_leaves_its_share(factor: Binary64, n: u32)
    requires
        0x10_0000_0000_0000 <= factor.bits < 0x3ff0_0000_0000_0000,
    ensures
        ({
            let exact = n as nat * (0x10_0000_0000_0000 + factor.bits % 0x10_0000_0000_0000) as nat;
            let one = pow2((1075 - factor.bits / 0x10_0000_0000_0000) as nat);
            let t = factor.times(n as nat);
            &&& exact < (t + 1) * one
            &&& 0x20_0000_0000_0000 * (t * one - exact) <= exact
        }),
{
    let exact = n as nat * factor.significand();
    let k = (1075 - factor.exponent_field()) as nat;
    let one = pow2(k);
    let t = factor.times(n as nat);
    lemma2_to64();
    lemma2_to64_rest();
    lemma_pow2_pos(k);
    law_a_proper_fraction_never_grows(factor, n);
    law_product_is_cut_toward_zero(factor, n);
    lemma_product_is_small(n as nat, factor.significand());
    if n == 0 {
        assert(exact == 0) by (nonlinear_arith)
            requires
                exact == 0nat * factor.significand(),
        ;
        assert(t * one == 0) by (nonlinear_arith)
            requires
                t == 0,
        ;
        assert((t + 1) * one == one) by (nonlinear_arith)
            requires
                t == 0,
        ;
    } else {
        assert(pow2(53) == SIGNIFICANDS);
        if k > 53 {
            lemma_pow2_strictly_increases(53, k);
        }
        let j = lemma_unit_is_a_power(exact, 32);
        lemma_pow2_pos(j);
        lemma_pow2_adds((k - j) as nat, j);
        let unit = pow2(j);
        // Whole numbers are whole numbers of units.
        let more = (t + 1) * pow2((k - j) as nat);
        assert(more * unit == (t + 1) * one) by (nonlinear_arith)
            requires
                more == (t + 1) * pow2((k - j) as nat),
                pow2((k - j) as nat) * unit == one,
        ;
        if t == u32::MAX {
            assert(exact < (t + 1) * one) by (nonlinear_arith)
                requires
                    t == u32::MAX,
                    exact < 0x20_0000_0000_0000 * 0x1_0000_0000,
                    one >= 0x20_0000_0000_0000,
            ;
        } else if (t + 1) * one <= exact {
            lemma_rounding_stays_above(exact, unit, more);
        }
        lemma_rounding_adds_little(exact);
    }
}

/// Rounding adds at most one part in 2^53.
proof fn lemma_rounding_adds_little(x: nat)
    ensures
        SIGNIFICANDS * (rounded(x) - x) <= x,
{
    let unit = unit_of(x);
    lemma_unit_is_small(x);
    let below = x / unit;
    let left = x % unit;
    assert(x == below * unit + left && left < unit) by (nonlinear_arith)
        requires
            unit > 0,
            below == x / unit,
            left == x % unit,
    ;
    assert((below + 1) * unit == below * unit + unit) by (nonlinear_arith);
    if unit == 1 {
        assert(left == 0);
    }
}

/// A unit above one is at most one part in 2^52.
proof fn lemma_unit_is_small(x: nat)
    ensures
        unit_of(x) >= 1,
        unit_of(x) > 1 ==> BINADE * unit_of(x) <= x,
    decreases x,
{
    if x >= SIGNIFICANDS {
        lemma_unit_is_small(x / 2);
    }
}

} // verus!
