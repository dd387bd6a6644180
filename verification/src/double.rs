//! Double- and single-precision numbers, held as their IEEE 754 bit patterns.

use vstd::arithmetic::power2::{
    lemma2_to64, lemma2_to64_rest, lemma_pow2_adds, lemma_pow2_pos, lemma_pow2_strictly_increases, pow2,
};
use vstd::prelude::*;

verus! {

/// Weight of the hidden bit of a double, one past its largest fraction.
pub const HIDDEN: u64 = 0x10_0000_0000_0000;

/// Weight of the sign bit of a double.
pub const SIGN: u64 = 0x8000_0000_0000_0000;

/// Weight of the hidden bit of a single.
pub const HIDDEN_SINGLE: u32 = 0x80_0000;

/// Weight of the sign bit of a single.
pub const SIGN_SINGLE: u32 = 0x8000_0000;

/// Bit pattern of positive infinity as a single.
pub const INFINITY_SINGLE: u32 = 0x7f80_0000;

/// A double-precision number by its bit pattern.
#[derive(Debug, Clone, Copy, PartialEq, Eq, Structural)]
pub struct Double {
    pub bits: u64,
}

impl Double {
    /// The number with the bit pattern `bits`.
    pub fn from_bits(bits: u64) -> (d: Self)
        ensures
            d.bits == bits,
    {
        Double { bits }
    }

    /// The bit pattern of the number.
    pub fn to_bits(self) -> (bits: u64)
        ensures
            bits == self.bits,
    {
        self.bits
    }

    /// The sign bit is set.
    pub open spec fn negative(self) -> bool {
        self.bits >= SIGN
    }

    /// The exponent field.
    pub open spec fn exponent(self) -> int {
        (self.bits as int / HIDDEN as int) % 2048
    }

    /// The fraction field.
    pub open spec fn fraction(self) -> int {
        self.bits as int % HIDDEN as int
    }

    pub open spec fn nan(self) -> bool {
        self.exponent() == 2047 && self.fraction() != 0
    }

    pub open spec fn infinite(self) -> bool {
        self.exponent() == 2047 && self.fraction() == 0
    }

    pub open spec fn finite(self) -> bool {
        self.exponent() != 2047
    }

    /// The significand of a finite number, with its hidden bit.
    pub open spec fn significand(self) -> int {
        if self.exponent() == 0 {
            self.fraction()
        } else {
            self.fraction() + HIDDEN
        }
    }

    /// A finite number is its significand times two to this power, less 1075.
    pub open spec fn scale(self) -> int {
        if self.exponent() == 0 {
            1
        } else {
            self.exponent()
        }
    }

    /// The magnitude of a finite number in units of the smallest positive double.
    pub open spec fn units(self) -> int {
        self.significand() * pow2((self.scale() - 1) as nat)
    }

    /// The magnitude of a finite number without its fractional part.
    pub open spec fn whole(self) -> int {
        if self.scale() >= 1075 {
            self.significand() * pow2((self.scale() - 1075) as nat)
        } else {
            self.significand() / pow2((1075 - self.scale()) as nat) as int
        }
    }

    /// The number is `n` times two to the power `q`, with the sign `negative`.
    pub open spec fn equals_scaled(self, negative: bool, n: int, q: int) -> bool {
        &&& self.finite()
        &&& self.negative() == negative
        &&& self.units() == n * pow2((q + 1074) as nat)
    }

    /// The number is the integer `n`. Zero is the positive zero.
    pub open spec fn is_integer(self, n: int) -> bool {
        self.equals_scaled(
            n < 0,
            if n < 0 {
                -n
            } else {
                n
            },
            0,
        )
    }

    /// The integer between `low` and `high` that stands for the number: its value without the
    /// fractional part, the nearer bound outside of them, and zero for no number at all.
    pub open spec fn saturated(self, low: int, high: int) -> int {
        if self.nan() {
            0
        } else if self.infinite() {
            if self.negative() {
                low
            } else {
                high
            }
        } else {
            let value = if self.negative() {
                -self.whole()
            } else {
                self.whole()
            };
            if value < low {
                low
            } else if value > high {
                high
            } else {
                value
            }
        }
    }

    /// No integer between `low` and `high` is the number without its fractional part.
    pub open spec fn clipped(self, low: int, high: int) -> bool {
        let value = if self.negative() {
            -self.whole()
        } else {
            self.whole()
        };
        !self.finite() || value < low || value > high
    }

    /// The number is a number and not zero.
    pub open spec fn truthy(self) -> bool {
        !self.nan() && !(self.finite() && self.significand() == 0)
    }

    fn exponent_field(self) -> (e: u64)
        ensures
            e == self.exponent(),
    {
        (self.bits / HIDDEN) % 2048
    }

    fn fraction_field(self) -> (f: u64)
        ensures
            f == self.fraction(),
    {
        self.bits % HIDDEN
    }

    pub fn is_nan(self) -> (nan: bool)
        ensures
            nan == self.nan(),
    {
        self.exponent_field() == 2047 && self.fraction_field() != 0
    }

    /// The number is a number and not zero.
    pub fn is_truthy(self) -> (truthy: bool)
        ensures
            truthy == self.truthy(),
    {
        let e: u64 = self.exponent_field();
        let f: u64 = self.fraction_field();
        if e == 2047 {
            f == 0
        } else {
            e != 0 || f != 0
        }
    }

    /// The magnitude without its fractional part, up to `cap`.
    fn whole_capped(self, cap: u64) -> (n: u64)
        requires
            self.finite(),
            cap <= 0x1_0000_0000,
        ensures
            n == if self.whole() > cap {
                cap as int
            } else {
                self.whole()
            },
    {
        let e: u64 = self.exponent_field();
        let f: u64 = self.fraction_field();
        if e >= 1075 {
            proof {
                lemma_pow2_pos((e - 1075) as nat);
                assert((f + HIDDEN) * pow2((e - 1075) as nat) >= f + HIDDEN) by (nonlinear_arith)
                    requires
                        pow2((e - 1075) as nat) >= 1,
                        f + HIDDEN >= 0,
                ;
            }
            return cap;
        }
        let m: u64 = if e == 0 {
            f
        } else {
            f + HIDDEN
        };
        let k: u64 = 1075 - if e == 0 {
            1
        } else {
            e
        };
        if k >= 53 {
            proof {
                lemma2_to64_rest();
                assert(m < 0x20_0000_0000_0000);
                if k > 53 {
                    lemma_pow2_strictly_increases(53, k as nat);
                }
                vstd::arithmetic::div_mod::lemma_basic_div(m as int, pow2(k as nat) as int);
            }
            return 0;
        }
        let whole: u64 = m >> k;
        proof {
            vstd::bits::lemma_u64_shr_is_div(m, k);
        }
        if whole > cap {
            cap
        } else {
            whole
        }
    }

    /// The integer from zero to `high` that stands for the number.
    pub fn saturate_unsigned(self, high: u32) -> (n: u32)
        ensures
            n == self.saturated(0, high as int),
    {
        if self.is_nan() {
            return 0;
        }
        let negative: bool = self.bits >= SIGN;
        if self.exponent_field() == 2047 {
            return if negative {
                0
            } else {
                high
            };
        }
        proof {
            self.lemma_whole_nonnegative();
        }
        if negative {
            0
        } else {
            self.whole_capped(high as u64) as u32
        }
    }

    /// The integer from `-high - 1` to `high` that stands for the number.
    pub fn saturate_signed(self, high: i32) -> (n: i32)
        requires
            high >= 0,
        ensures
            n == self.saturated(-high - 1, high as int),
    {
        if self.is_nan() {
            return 0;
        }
        let negative: bool = self.bits >= SIGN;
        if self.exponent_field() == 2047 {
            return if negative {
                -high - 1
            } else {
                high
            };
        }
        proof {
            self.lemma_whole_nonnegative();
        }
        if negative {
            let m: u64 = self.whole_capped(high as u64 + 1);
            (-(m as i64)) as i32
        } else {
            self.whole_capped(high as u64) as i32
        }
    }

    /// No integer from `-below` to `above` is the number without its fractional part.
    pub fn is_clipped(self, below: u32, above: u32) -> (clipped: bool)
        ensures
            clipped == self.clipped(-(below as int), above as int),
    {
        if self.exponent_field() == 2047 {
            return true;
        }
        proof {
            self.lemma_whole_nonnegative();
        }
        if self.bits >= SIGN {
            self.whole_capped(below as u64 + 1) > below as u64
        } else {
            self.whole_capped(above as u64 + 1) > above as u64
        }
    }

    proof fn lemma_whole_nonnegative(self)
        ensures
            self.whole() >= 0,
            self.significand() >= 0,
    {
        if self.scale() >= 1075 {
            lemma_pow2_pos((self.scale() - 1075) as nat);
            assert(self.significand() * pow2((self.scale() - 1075) as nat) >= 0)
                by (nonlinear_arith)
                requires
                    self.significand() >= 0,
                    pow2((self.scale() - 1075) as nat) > 0,
            ;
        } else {
            lemma_pow2_pos((1075 - self.scale()) as nat);
            vstd::arithmetic::div_mod::lemma_div_pos_is_pos(
                self.significand(),
                pow2((1075 - self.scale()) as nat) as int,
            );
        }
    }
}

/// A single-precision number by its bit pattern.
#[derive(Debug, Clone, Copy, PartialEq, Eq, Structural)]
pub struct Single {
    pub bits: u32,
}

/// `m` divided by two to the power `shift`, rounded to the nearest integer and to the even one
/// of two equally near.
pub open spec fn nearest_even(m: int, shift: nat) -> int {
    let whole = m / pow2(shift) as int;
    let rest = m % pow2(shift) as int;
    if 2 * rest > pow2(shift) || 2 * rest == pow2(shift) && whole % 2 == 1 {
        whole + 1
    } else {
        whole
    }
}

impl Single {
    /// The sign bit is set.
    pub open spec fn negative(self) -> bool {
        self.bits >= SIGN_SINGLE
    }

    /// The exponent field.
    pub open spec fn exponent(self) -> int {
        (self.bits as int / HIDDEN_SINGLE as int) % 256
    }

    /// The fraction field.
    pub open spec fn fraction(self) -> int {
        self.bits as int % HIDDEN_SINGLE as int
    }

    pub open spec fn nan(self) -> bool {
        self.exponent() == 255 && self.fraction() != 0
    }

    pub open spec fn infinite(self) -> bool {
        self.exponent() == 255 && self.fraction() == 0
    }

    /// The significand of a finite number, with its hidden bit.
    pub open spec fn significand(self) -> int {
        if self.exponent() == 0 {
            self.fraction()
        } else {
            self.fraction() + HIDDEN_SINGLE
        }
    }

    /// A finite number is its significand times two to this power, less 150.
    pub open spec fn scale(self) -> int {
        if self.exponent() == 0 {
            1
        } else {
            self.exponent()
        }
    }

    /// The number `wide` is this number. What is no number stays none, with its sign and its
    /// payload, and never signals.
    pub open spec fn widens_to(self, wide: Double) -> bool {
        if self.nan() {
            &&& wide.nan()
            &&& wide.negative() == self.negative()
            &&& wide.fraction() == (HIDDEN / 2) + (self.fraction() % (HIDDEN_SINGLE as int / 2))
                * 0x2000_0000
        } else if self.infinite() {
            wide.infinite() && wide.negative() == self.negative()
        } else {
            wide.equals_scaled(self.negative(), self.significand(), self.scale() - 150)
        }
    }

    /// The number with double precision.
    pub fn widen(self) -> (wide: Double)
        ensures
            self.widens_to(wide),
    {
        let negative: bool = self.bits >= SIGN_SINGLE;
        let sign: u64 = if negative {
            SIGN
        } else {
            0
        };
        let e: u32 = (self.bits / HIDDEN_SINGLE) % 256;
        let f: u32 = self.bits % HIDDEN_SINGLE;
        if e == 255 {
            let rest: u64 = if f == 0 {
                0
            } else {
                HIDDEN / 2 + (f % (HIDDEN_SINGLE / 2)) as u64 * 0x2000_0000
            };
            let wide = Double { bits: sign + 0x7ff0_0000_0000_0000 + rest };
            proof {
                lemma_fields(negative, 2047, rest as int);
            }
            return wide;
        }
        if e == 0 {
            Double::from_scaled(negative, f, -149)
        } else {
            Double::from_scaled(negative, f + HIDDEN_SINGLE, e as i32 - 150)
        }
    }
}

/// The three fields of a bit pattern.
proof fn lemma_fields(negative: bool, exponent: int, fraction: int)
    requires
        0 <= exponent < 2048,
        0 <= fraction < HIDDEN,
    ensures
        ({
            let bits = (if negative {
                SIGN as int
            } else {
                0
            }) + exponent * HIDDEN + fraction;
            let d = Double { bits: bits as u64 };
            &&& 0 <= bits <= u64::MAX
            &&& d.negative() == negative
            &&& d.exponent() == exponent
            &&& d.fraction() == fraction
        }),
{
}

impl Double {
    /// The number `n` times two to the power `q`.
    fn from_scaled(negative: bool, n: u32, q: i32) -> (d: Double)
        requires
            -149 <= q <= 104,
        ensures
            d.equals_scaled(negative, n as int, q as int),
    {
        let sign: u64 = if negative {
            SIGN
        } else {
            0
        };
        if n == 0 {
            proof {
                lemma_fields(negative, 0, 0);
            }
            return Double { bits: sign };
        }
        let mut k: u64 = 31;
        let mut top: u64 = 0x8000_0000;
        proof {
            lemma2_to64();
        }
        while top > n as u64
            invariant
                n > 0,
                k <= 31,
                top == pow2(k as nat),
                n < pow2((k + 1) as nat),
            decreases k,
        {
            proof {
                lemma2_to64();
                assert(k > 0);
                vstd::arithmetic::power2::lemma_pow2_unfold(k as nat);
            }
            k -= 1;
            top /= 2;
        }
        let rest: u64 = n as u64 - top;
        let shift: u64 = 52 - k;
        proof {
            lemma2_to64();
            lemma2_to64_rest();
            lemma_pow2_adds(k as nat, shift as nat);
            lemma_pow2_pos(shift as nat);
            vstd::arithmetic::power2::lemma_pow2_unfold((k + 1) as nat);
            assert(rest * pow2(shift as nat) < HIDDEN) by (nonlinear_arith)
                requires
                    0 <= rest < top,
                    top == pow2(k as nat),
                    pow2(k as nat) * pow2(shift as nat) == HIDDEN,
                    pow2(shift as nat) > 0,
            ;
            vstd::bits::lemma_u64_shl_is_mul(rest, shift);
        }
        let fraction: u64 = rest << shift;
        let exponent: u64 = (k as i64 + q as i64 + 1023) as u64;
        let d = Double { bits: sign + exponent * 0x10_0000_0000_0000 + fraction };
        proof {
            lemma_fields(negative, exponent as int, fraction as int);
            let p = pow2(shift as nat);
            assert(d.significand() == n * p) by (nonlinear_arith)
                requires
                    d.significand() == rest * p + HIDDEN,
                    rest == n - top,
                    top * p == HIDDEN,
            ;
            lemma_pow2_adds(shift as nat, (exponent - 1) as nat);
            assert(shift + (exponent - 1) == q + 1074);
            assert(n * p * pow2((exponent - 1) as nat) == n * pow2((q + 1074) as nat))
                by (nonlinear_arith)
                requires
                    p * pow2((exponent - 1) as nat) == pow2((q + 1074) as nat),
            ;
        }
        d
    }
}

proof fn lemma_leading_bit_unique(n: int, i: nat, j: nat)
    requires
        pow2(i) <= n < pow2(i + 1),
        pow2(j) <= n < pow2(j + 1),
    ensures
        i == j,
{
    if i < j {
        if i + 1 < j {
            lemma_pow2_strictly_increases(i + 1, j);
        }
    } else if j < i {
        if j + 1 < i {
            lemma_pow2_strictly_increases(j + 1, i);
        }
    }
}

impl Double {
    /// The number with single precision, by its bits without the sign: the nearest single,
    /// the even one of two equally near, infinity beyond the largest. What is no number stays
    /// none and never signals.
    pub open spec fn narrowed(self) -> int {
        if self.nan() {
            INFINITY_SINGLE + HIDDEN_SINGLE / 2 + (self.fraction() / 0x2000_0000) % (
            HIDDEN_SINGLE as int / 2)
        } else if self.infinite() {
            INFINITY_SINGLE as int
        } else if self.scale() > 896 {
            let bits = (self.scale() - 897) * HIDDEN_SINGLE + nearest_even(self.significand(), 29);
            if bits > INFINITY_SINGLE {
                INFINITY_SINGLE as int
            } else {
                bits
            }
        } else {
            nearest_even(self.significand(), (926 - self.scale()) as nat)
        }
    }

    /// The number with single precision.
    pub fn narrow(self) -> (single: Single)
        ensures
            single.negative() == self.negative(),
            single.bits as int % SIGN_SINGLE as int == self.narrowed(),
    {
        let sign: u32 = if self.bits >= SIGN {
            SIGN_SINGLE
        } else {
            0
        };
        let e: u64 = self.exponent_field();
        let f: u64 = self.fraction_field();
        if e == 2047 {
            let rest: u32 = if f == 0 {
                0
            } else {
                HIDDEN_SINGLE / 2 + ((f / 0x2000_0000) % (HIDDEN_SINGLE as u64 / 2)) as u32
            };
            return Single { bits: sign + INFINITY_SINGLE + rest };
        }
        if e > 896 {
            proof {
                lemma2_to64();
            }
            let r: u64 = round_shift(f + HIDDEN, 29);
            proof {
                lemma_rounded_normal((f + HIDDEN) as int);
            }
            let bits: u64 = (e - 897) * 0x80_0000 + r;
            let magnitude: u32 = if bits > INFINITY_SINGLE as u64 {
                INFINITY_SINGLE
            } else {
                bits as u32
            };
            return Single { bits: sign + magnitude };
        }
        let m: u64 = if e == 0 {
            f
        } else {
            f + HIDDEN
        };
        let shift: u64 = if e == 0 {
            925
        } else {
            926 - e
        };
        let r: u64 = if shift >= 55 {
            proof {
                lemma_rounds_to_zero(m as int, shift as nat);
            }
            0
        } else {
            round_shift(m, shift)
        };
        proof {
            lemma_rounded_small(m as int, shift as nat);
        }
        Single { bits: sign + r as u32 }
    }
}

impl Double {
    /// A single has 31 bits besides its sign.
    pub proof fn lemma_narrowed_bound(self)
        ensures
            0 <= self.narrowed() < SIGN_SINGLE,
    {
        lemma2_to64();
        if self.finite() {
            if self.scale() > 896 {
                lemma_rounded_normal(self.significand());
            } else {
                lemma_rounded_small(self.significand(), (926 - self.scale()) as nat);
            }
        }
    }

    /// Saturation ends within the bounds, or at zero.
    pub proof fn lemma_saturated_bound(self, low: int, high: int)
        requires
            low <= 0 <= high,
        ensures
            low <= self.saturated(low, high) <= high,
    {
    }

    /// An integer is zero or not.
    pub proof fn lemma_truthy_integer(self, n: int)
        requires
            self.is_integer(n),
        ensures
            self.truthy() == (n != 0),
    {
        let m = if n < 0 {
            -n
        } else {
            n
        };
        let unit = pow2(1074) as int;
        lemma_pow2_pos(1074);
        let p = pow2((self.scale() - 1) as nat) as int;
        lemma_pow2_pos((self.scale() - 1) as nat);
        assert((self.significand() == 0) == (m == 0)) by (nonlinear_arith)
            requires
                self.significand() * p == m * unit,
                p > 0,
                unit > 0,
        ;
    }
}

/// Divides by two to the power `shift` and rounds.
fn round_shift(m: u64, shift: u64) -> (r: u64)
    requires
        m < 0x20_0000_0000_0000,
        1 <= shift < 55,
    ensures
        r == nearest_even(m as int, shift as nat),
{
    proof {
        vstd::bits::lemma_u64_shr_is_div(m, shift);
        vstd::bits::lemma_u64_pow2_no_overflow(shift as nat);
        vstd::bits::lemma_u64_shl_is_mul(1, shift);
        lemma2_to64_rest();
        if shift < 54 {
            lemma_pow2_strictly_increases(shift as nat, 54);
        }
        lemma_pow2_pos(shift as nat);
    }
    let unit: u64 = 1u64 << shift;
    let whole: u64 = m / unit;
    let rest: u64 = m % unit;
    assert(whole <= m) by {
        vstd::arithmetic::div_mod::lemma_div_nonincreasing(m as int, unit as int);
    }
    assert(rest < unit) by {
        vstd::arithmetic::div_mod::lemma_mod_bound(m as int, unit as int);
    }
    if 2 * rest > unit || 2 * rest == unit && whole % 2 == 1 {
        whole + 1
    } else {
        whole
    }
}

proof fn lemma_rounded_normal(m: int)
    requires
        HIDDEN <= m < 2 * HIDDEN,
    ensures
        HIDDEN_SINGLE <= nearest_even(m, 29) <= 2 * HIDDEN_SINGLE,
{
    lemma2_to64();
    assert(pow2(29) == 0x2000_0000);
}

proof fn lemma_rounds_to_zero(m: int, shift: nat)
    requires
        0 <= m < 2 * HIDDEN,
        shift >= 55,
    ensures
        nearest_even(m, shift) == 0,
{
    lemma2_to64_rest();
    if shift > 55 {
        lemma_pow2_strictly_increases(55, shift);
    }
    assert(2 * m < pow2(shift));
    vstd::arithmetic::div_mod::lemma_basic_div(m, pow2(shift) as int);
    vstd::arithmetic::div_mod::lemma_small_mod(m as nat, pow2(shift));
}

proof fn lemma_rounded_small(m: int, shift: nat)
    requires
        0 <= m < 2 * HIDDEN,
        shift >= 30,
    ensures
        0 <= nearest_even(m, shift) <= HIDDEN_SINGLE,
{
    lemma2_to64();
    lemma2_to64_rest();
    if shift > 30 {
        lemma_pow2_strictly_increases(30, shift);
    }
    let p = pow2(shift) as int;
    let whole = m / p;
    vstd::arithmetic::div_mod::lemma_fundamental_div_mod(m, p);
    vstd::arithmetic::div_mod::lemma_mod_bound(m, p);
    assert(0 <= whole < HIDDEN_SINGLE) by (nonlinear_arith)
        requires
            m == p * whole + m % p,
            0 <= m % p < p,
            p >= 0x4000_0000,
            0 <= m < 0x20_0000_0000_0000,
    ;
}

/// Dividing an exact multiple loses nothing.
proof fn lemma_exact_rounding(n: int, shift: nat)
    requires
        n >= 0,
    ensures
        nearest_even(n * pow2(shift), shift) == n,
{
    lemma_pow2_pos(shift);
    let p = pow2(shift) as int;
    vstd::arithmetic::div_mod::lemma_div_by_multiple(n, p);
    vstd::arithmetic::div_mod::lemma_mod_multiples_basic(n, p);
    assert(n * p == n * pow2(shift));
}

/// The value of a number pins its bit pattern: two finite numbers of the same sign and
/// magnitude are the same.
pub proof fn law_value_is_unique(a: Double, b: Double)
    requires
        a.finite(),
        b.finite(),
        a.negative() == b.negative(),
        a.units() == b.units(),
    ensures
        a == b,
{
    if a.scale() < b.scale() {
        lemma_scales_differ(a, b);
    } else if b.scale() < a.scale() {
        lemma_scales_differ(b, a);
    } else {
        let p = pow2((a.scale() - 1) as nat) as int;
        lemma_pow2_pos((a.scale() - 1) as nat);
        assert(a.significand() == b.significand()) by (nonlinear_arith)
            requires
                a.significand() * p == b.significand() * p,
                p > 0,
        ;
    }
}

proof fn lemma_scales_differ(a: Double, b: Double)
    requires
        a.scale() < b.scale(),
    ensures
        a.units() < b.units(),
{
    let p = pow2((a.scale() - 1) as nat) as int;
    let r = pow2((b.scale() - 1) as nat) as int;
    lemma_pow2_pos((a.scale() - 1) as nat);
    vstd::arithmetic::power2::lemma_pow2_unfold(a.scale() as nat);
    if a.scale() < b.scale() - 1 {
        lemma_pow2_strictly_increases(a.scale() as nat, (b.scale() - 1) as nat);
    }
    assert(a.significand() * p < b.significand() * r) by (nonlinear_arith)
        requires
            0 <= a.significand() < 2 * HIDDEN,
            b.significand() >= HIDDEN,
            p > 0,
            r >= 2 * p,
    ;
}

/// A single survives a trip through double precision, unless it is no number.
pub proof fn law_single_survives_widening(single: Single, wide: Double, back: Single)
    requires
        !single.nan(),
        single.widens_to(wide),
        back.negative() == wide.negative(),
        back.bits as int % SIGN_SINGLE as int == wide.narrowed(),
    ensures
        back == single,
{
    let n = single.significand();
    let q = single.scale() - 150;
    if !single.infinite() {
        if n == 0 {
            assert(wide.units() == 0) by (nonlinear_arith)
                requires
                    wide.units() == n * pow2((q + 1074) as nat),
                    n == 0,
            ;
            lemma_zero_units(wide);
            lemma_pow2_pos(925);
            assert(0int == 0 * pow2(925));
            lemma_exact_rounding(0, 925);
        } else {
            lemma2_to64();
            assert(pow2(24) == 2 * HIDDEN_SINGLE);
            let k = lemma_has_leading_bit(n, 23);
            lemma_spread_from_value(wide, single.negative(), n, q, k);
            if single.exponent() > 0 {
                lemma_leading_bit_unique(n, k, 23);
                assert(wide.significand() == n * pow2(29)) by {
                    assert(pow2(29) == 0x2000_0000);
                    assert(wide.fraction() == (n - HIDDEN_SINGLE) * 0x2000_0000);
                }
                lemma_exact_rounding(n, 29);
            } else {
                let shift = (52 - k) as nat;
                if k > 22 {
                    lemma_pow2_strictly_increases(22, k);
                }
                lemma_pow2_adds(k, shift);
                lemma2_to64_rest();
                assert(wide.significand() == n * pow2(shift)) by (nonlinear_arith)
                    requires
                        wide.significand() == (n - pow2(k)) * pow2(shift) + HIDDEN,
                        pow2(k) * pow2(shift) == HIDDEN,
                ;
                lemma_exact_rounding(n, shift);
            }
        }
    }
}

proof fn lemma_zero_units(d: Double)
    requires
        d.finite(),
        d.units() == 0,
    ensures
        d.exponent() == 0,
        d.fraction() == 0,
{
    let p = pow2((d.scale() - 1) as nat) as int;
    lemma_pow2_pos((d.scale() - 1) as nat);
    assert(d.significand() == 0) by (nonlinear_arith)
        requires
            d.significand() * p == 0,
            p > 0,
    ;
}

proof fn lemma_has_leading_bit(n: int, bound: nat) -> (k: nat)
    requires
        0 < n < pow2(bound + 1),
    ensures
        k <= bound,
        pow2(k) <= n < pow2(k + 1),
    decreases bound,
{
    lemma2_to64();
    if pow2(bound) <= n {
        bound
    } else {
        lemma_has_leading_bit(n, (bound - 1) as nat)
    }
}

/// The fields of the double whose value is `n` times two to the power `q`.
proof fn lemma_spread_from_value(d: Double, negative: bool, n: int, q: int, k: nat)
    requires
        d.equals_scaled(negative, n, q),
        pow2(k) <= n < pow2(k + 1),
        k <= 31,
        -149 <= q <= 104,
    ensures
        d.exponent() == k + q + 1023,
        d.fraction() == (n - pow2(k)) * pow2((52 - k) as nat),
{
    let shift = (52 - k) as nat;
    let p = pow2(shift) as int;
    let exponent = k + q + 1023;
    lemma2_to64();
    lemma2_to64_rest();
    lemma_pow2_adds(k, shift);
    lemma_pow2_pos(shift);
    vstd::arithmetic::power2::lemma_pow2_unfold(k + 1);
    let fraction = (n - pow2(k)) * p;
    assert(0 <= fraction < HIDDEN) by (nonlinear_arith)
        requires
            fraction == (n - pow2(k)) * p,
            pow2(k) <= n < 2 * pow2(k),
            pow2(k) * p == HIDDEN,
            p > 0,
    ;
    lemma_fields(negative, exponent, fraction);
    let bits = (if negative {
        SIGN as int
    } else {
        0
    }) + exponent * HIDDEN + fraction;
    let built = Double { bits: bits as u64 };
    assert(built.significand() == n * p) by (nonlinear_arith)
        requires
            built.significand() == (n - pow2(k)) * p + HIDDEN,
            pow2(k) * p == HIDDEN,
    ;
    lemma_pow2_adds(shift, (exponent - 1) as nat);
    assert(shift + (exponent - 1) == q + 1074);
    assert(n * p * pow2((exponent - 1) as nat) == n * pow2((q + 1074) as nat))
        by (nonlinear_arith)
        requires
            p * pow2((exponent - 1) as nat) == pow2((q + 1074) as nat),
    ;
    law_value_is_unique(d, built);
}

impl Double {
    /// The number zero, one, and so on.
    pub fn from_unsigned(n: u32) -> (d: Double)
        ensures
            d.is_integer(n as int),
    {
        Double::from_scaled(false, n, 0)
    }

    pub fn from_signed(n: i32) -> (d: Double)
        ensures
            d.is_integer(n as int),
    {
        if n < 0 {
            Double::from_scaled(true, (-(n as i64)) as u32, 0)
        } else {
            Double::from_scaled(false, n as u32, 0)
        }
    }
}

/// A number that is an integer is finite, has its sign and loses nothing without its fractional
/// part.
pub proof fn lemma_integer_is_whole(d: Double, n: int)
    requires
        d.is_integer(n),
    ensures
        d.finite(),
        d.negative() <==> n < 0,
        d.whole() == vstd::math::abs(n),
{
    let m = if n < 0 {
        -n
    } else {
        n
    };
    let s = d.significand();
    let unit = pow2(1074) as int;
    lemma_pow2_pos(1074);
    assert(d.units() == m * unit);
    if d.scale() >= 1075 {
        let up = pow2((d.scale() - 1075) as nat) as int;
        lemma_pow2_adds((d.scale() - 1075) as nat, 1074);
        assert(s * up == m) by (nonlinear_arith)
            requires
                s * (up * unit) == m * unit,
                unit > 0,
        ;
    } else {
        let down = pow2((1075 - d.scale()) as nat) as int;
        let rest = pow2((d.scale() - 1) as nat) as int;
        lemma_pow2_adds((1075 - d.scale()) as nat, (d.scale() - 1) as nat);
        lemma_pow2_pos((d.scale() - 1) as nat);
        lemma_pow2_pos((1075 - d.scale()) as nat);
        assert(s == m * down) by (nonlinear_arith)
            requires
                s * rest == m * (down * rest),
                rest > 0,
        ;
        vstd::arithmetic::div_mod::lemma_div_by_multiple(m, down);
    }
}

/// An integer within the bounds stands for itself.
pub proof fn law_integer_saturates_to_itself(d: Double, n: int, low: int, high: int)
    requires
        d.is_integer(n),
        low <= n <= high,
    ensures
        d.saturated(low, high) == n,
{
    lemma_integer_is_whole(d, n);
}

/// An integer out of the bounds stands for the nearer of them, and only then is it clipped. So does
/// an infinity; no number at all stands for zero and is clipped.
pub proof fn law_bounds_are_kept(d: Double, n: int, low: int, high: int)
    requires
        low <= 0 <= high,
    ensures
        low <= d.saturated(low, high) <= high,
        d.is_integer(n) && n < low ==> d.saturated(low, high) == low && d.clipped(low, high),
        d.is_integer(n) && n > high ==> d.saturated(low, high) == high && d.clipped(low, high),
        d.is_integer(n) && low <= n <= high ==> !d.clipped(low, high),
        d.infinite() && d.negative() ==> d.saturated(low, high) == low,
        d.infinite() && !d.negative() ==> d.saturated(low, high) == high,
        d.nan() ==> d.saturated(low, high) == 0,
        d.nan() || d.infinite() ==> d.clipped(low, high),
{
    if d.is_integer(n) {
        lemma_integer_is_whole(d, n);
    }
}

/// What the bits of a double say: the highest is the sign, and without it the bits are above those
/// of infinity for no number at all and below for a finite one; only zeros have none.
pub proof fn law_bits_tell_the_kind(d: Double)
    ensures
        d.negative() <==> d.bits >= 0x8000_0000_0000_0000,
        ({
            let rest = d.bits as int % 0x8000_0000_0000_0000;
            &&& d.nan() <==> rest > 0x7ff0_0000_0000_0000
            &&& d.infinite() <==> rest == 0x7ff0_0000_0000_0000
            &&& d.finite() <==> rest < 0x7ff0_0000_0000_0000
            &&& d.truthy() <==> 0 < rest <= 0x7ff0_0000_0000_0000
        }),
{
    let bits = d.bits;
    assert(HIDDEN == 0x10_0000_0000_0000);
    assert(bits % 0x8000_0000_0000_0000 == ((bits / 0x10_0000_0000_0000) % 2048)
        * 0x10_0000_0000_0000 + bits % 0x10_0000_0000_0000) by (bit_vector);
}

/// Rounding goes no further than half a step.
proof fn lemma_nearest_even_is_near(m: int, shift: nat)
    requires
        m >= 0,
    ensures
        nearest_even(m, shift) >= 0,
        -(pow2(shift) as int) <= 2 * (nearest_even(m, shift) * pow2(shift) - m) <= pow2(shift),
{
    lemma_pow2_pos(shift);
    let p = pow2(shift) as int;
    vstd::arithmetic::div_mod::lemma_fundamental_div_mod(m, p);
    vstd::arithmetic::div_mod::lemma_mod_bound(m, p);
    vstd::arithmetic::div_mod::lemma_div_pos_is_pos(m, p);
    let whole = m / p;
    assert((whole + 1) * p == whole * p + p) by (nonlinear_arith);
    assert(p * whole == whole * p) by (nonlinear_arith);
}

/// A finite number that a single can stand for is narrowed to one that is no further away than half
/// a step of that single.
pub proof fn law_narrowing_is_near(d: Double)
    requires
        d.finite(),
        d.narrowed() < INFINITY_SINGLE,
    ensures
        ({
            let s = Single { bits: d.narrowed() as u32 };
            let step = pow2((s.scale() + 924) as nat);
            &&& !s.nan()
            &&& !s.infinite()
            &&& !s.negative()
            &&& 2 * vstd::math::abs(s.significand() * step - d.units()) <= step
        }),
{
    d.lemma_narrowed_bound();
    lemma2_to64();
    let s = Single { bits: d.narrowed() as u32 };
    let sig = d.significand();
    let unit = pow2((d.scale() - 1) as nat) as int;
    lemma_pow2_pos((d.scale() - 1) as nat);
    let shift: nat = if d.scale() > 896 {
        29
    } else {
        (926 - d.scale()) as nat
    };
    let m = nearest_even(sig, shift);
    let p = pow2(shift) as int;
    let at = (shift + d.scale() - 1) as nat;
    lemma_nearest_even_is_near(sig, shift);
    lemma_pow2_adds(shift, (d.scale() - 1) as nat);
    let step = pow2(at) as int;
    lemma_pow2_pos(at);
    if d.scale() > 896 {
        lemma_rounded_normal(sig);
    } else {
        lemma_rounded_small(sig, shift);
    }
    assert(-step <= 2 * (m * step - sig * unit) <= step) by (nonlinear_arith)
        requires
            step == p * unit,
            unit > 0,
            -p <= 2 * (m * p - sig) <= p,
    ;
    if m == 2 * HIDDEN_SINGLE {
        assert(s.significand() == HIDDEN_SINGLE);
        assert(s.scale() + 924 == at + 1);
        vstd::arithmetic::power2::lemma_pow2_unfold((at + 1) as nat);
        let big = pow2((at + 1) as nat) as int;
        assert(HIDDEN_SINGLE * big == m * step) by (nonlinear_arith)
            requires
                big == 2 * step,
                m == 2 * HIDDEN_SINGLE,
        ;
    } else {
        assert(s.significand() == m);
        assert(s.scale() + 924 == at);
    }
}

/// A finite number is narrowed to infinity exactly where it lies at least half a step beyond the
/// largest single.
pub proof fn law_narrowing_overflows(d: Double)
    requires
        d.finite(),
    ensures
        d.narrowed() == INFINITY_SINGLE <==> d.units() >= 0x1ff_ffff * pow2(1177),
{
    lemma2_to64();
    let sig = d.significand();
    let e = d.scale();
    let unit = pow2((e - 1) as nat) as int;
    let top = pow2(1177) as int;
    lemma_pow2_pos((e - 1) as nat);
    if e > 896 {
        lemma_rounded_normal(sig);
    } else {
        lemma_rounded_small(sig, (926 - e) as nat);
    }
    if e >= 1151 {
        let low = pow2(1150) as int;
        lemma_pow2_pos(1150);
        lemma_pow2_adds(27, 1150);
        if e > 1151 {
            lemma_pow2_strictly_increases(1150, (e - 1) as nat);
        }
        assert(sig * unit >= 0x1ff_ffff * top) by (nonlinear_arith)
            requires
                sig >= 0x10_0000_0000_0000,
                unit >= low > 0,
                top == 0x800_0000 * low,
        ;
    } else if e == 1150 {
        lemma_pow2_adds(28, 1149);
        assert(pow2(29) == 0x2000_0000);
        assert(nearest_even(sig, 29) == 0x100_0000 <==> sig >= 0x1ff_ffff * 0x1000_0000);
        assert(sig * unit >= 0x1ff_ffff * top <==> sig >= 0x1ff_ffff * 0x1000_0000)
            by (nonlinear_arith)
            requires
                unit > 0,
                top == 0x1000_0000 * unit,
        ;
    } else {
        let high = pow2(1148) as int;
        lemma_pow2_pos(1148);
        lemma_pow2_adds(29, 1148);
        if e < 1149 {
            lemma_pow2_strictly_increases((e - 1) as nat, 1148);
        }
        assert(sig * unit < 0x1ff_ffff * top) by (nonlinear_arith)
            requires
                0 <= sig < 0x20_0000_0000_0000,
                0 < unit <= high,
                top == 0x2000_0000 * high,
        ;
    }
}

} // verus!
