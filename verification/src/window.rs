//! How far a state may reach for its frame, in the arithmetic of single precision.

use vstd::arithmetic::power2::{
    lemma2_to64, lemma2_to64_rest, lemma_pow2_adds, lemma_pow2_pos, lemma_pow2_strictly_increases,
    lemma_pow2_unfold, pow2,
};
use vstd::prelude::*;

use crate::double::{Single, HIDDEN_SINGLE, SIGN_SINGLE};

verus! {

/// `n / d` rounded to the nearest integer, and to the even one of two equally near.
pub open spec fn nearest_ratio(n: int, d: int) -> int {
    let whole = n / d;
    let rest = n % d;
    if 2 * rest > d || 2 * rest == d && whole % 2 == 1 {
        whole + 1
    } else {
        whole
    }
}

/// The bits of an integer beyond the 24 that a single keeps.
pub open spec fn spare_bits(q: nat) -> nat
    decreases q,
{
    if q < 0x100_0000 {
        0
    } else {
        1 + spare_bits(q / 2)
    }
}

/// `n / d` with the precision of a single. All numbers are in units of the smallest positive
/// single.
pub open spec fn rounded(n: nat, d: nat) -> nat {
    let spare = spare_bits(n / d);
    (nearest_ratio(n as int, (d * pow2(spare)) as int) * pow2(spare)) as nat
}

/// The magnitude of a finite single in units of the smallest positive one.
pub open spec fn single_units(x: Single) -> nat {
    (x.significand() * pow2((x.scale() - 1) as nat)) as nat
}

/// The whole microseconds of `tolerance` ticks at `fps` ticks a second: a million is multiplied
/// by the one and divided by the other, each time with the precision of a single. What is too
/// large is the largest integer there is; a tolerance that is no number or not above zero gives
/// zero.
pub open spec fn window_us(tolerance: Single, fps: u32) -> int {
    if tolerance.nan() || tolerance.negative() || tolerance.bits == 0 {
        0
    } else if tolerance.infinite() || fps == 0 {
        u64::MAX as int
    } else {
        let ticks = rounded(single_units(tolerance) * 1_000_000, 1);
        let us = (rounded(ticks, rounded(fps as nat, 1)) / pow2(149)) as int;
        if us > u64::MAX {
            u64::MAX as int
        } else {
            us
        }
    }
}

proof fn lemma_spare_is(q: nat, s: nat)
    requires
        q < pow2(s) * 0x100_0000,
        s > 0 ==> pow2(s) * 0x80_0000 <= q,
    ensures
        spare_bits(q) == s,
    decreases s,
{
    if s == 0 {
        lemma2_to64();
    } else {
        lemma_pow2_unfold(s);
        lemma_pow2_pos((s - 1) as nat);
        lemma_spare_is(q / 2, (s - 1) as nat);
    }
}

proof fn lemma_spare_bounds(q: nat)
    ensures
        q < pow2(spare_bits(q)) * 0x100_0000,
        spare_bits(q) > 0 ==> pow2(spare_bits(q)) * 0x80_0000 <= q,
    decreases q,
{
    lemma2_to64();
    if q >= 0x100_0000 {
        lemma_spare_bounds(q / 2);
        lemma_pow2_unfold(spare_bits(q));
    }
}

proof fn lemma_ratio_scales(n: int, d: int, k: int)
    requires
        n >= 0,
        d > 0,
        k > 0,
    ensures
        nearest_ratio(n * k, d * k) == nearest_ratio(n, d),
{
    let q = n / d;
    let r = n % d;
    vstd::arithmetic::div_mod::lemma_fundamental_div_mod(n, d);
    vstd::arithmetic::div_mod::lemma_mod_bound(n, d);
    assert(n * k == (d * k) * q + r * k) by (nonlinear_arith)
        requires
            n == d * q + r,
    ;
    assert(0 <= r * k < d * k) by (nonlinear_arith)
        requires
            0 <= r < d,
            k > 0,
    ;
    assert((d * k) * q == q * (d * k)) by (nonlinear_arith);
    vstd::arithmetic::div_mod::lemma_fundamental_div_mod_converse(n * k, d * k, q, r * k);
    assert(2 * (r * k) > d * k <==> 2 * r > d) by (nonlinear_arith)
        requires
            k > 0,
    ;
    assert(2 * (r * k) == d * k <==> 2 * r == d) by (nonlinear_arith)
        requires
            k > 0,
    ;
}

proof fn lemma_ratio_exact(n: int, k: int)
    requires
        n >= 0,
        k > 0,
    ensures
        nearest_ratio(n * k, k) == n,
{
    vstd::arithmetic::div_mod::lemma_div_by_multiple(n, k);
    vstd::arithmetic::div_mod::lemma_mod_multiples_basic(n, k);
}

/// Rounding does not depend on the scale, as long as there is something to round.
proof fn lemma_rounded_scales(n: nat, d: nat, k: nat)
    requires
        d > 0,
        n / d >= 0x100_0000,
    ensures
        rounded(n * pow2(k), d) == rounded(n, d) * pow2(k),
{
    let q = n / d;
    let s = spare_bits(q);
    let p = pow2(k);
    let up = (n * p) / d;
    lemma_spare_bounds(q);
    lemma_pow2_pos(k);
    lemma_pow2_pos(s);
    lemma_pow2_adds(s, k);
    vstd::arithmetic::div_mod::lemma_fundamental_div_mod(n as int, d as int);
    vstd::arithmetic::div_mod::lemma_mod_bound(n as int, d as int);
    vstd::arithmetic::div_mod::lemma_fundamental_div_mod((n * p) as int, d as int);
    vstd::arithmetic::div_mod::lemma_mod_bound((n * p) as int, d as int);
    assert(q * p <= up < (q + 1) * p) by (nonlinear_arith)
        requires
            n == d * q + n % d,
            0 <= n % d < d,
            n * p == d * up + (n * p) % d,
            0 <= (n * p) % d < d,
            d > 0,
            p > 0,
            q >= 0,
            up >= 0,
    ;
    assert(s > 0) by {
        lemma2_to64();
    }
    assert(pow2(s + k) * 0x80_0000 <= up < pow2(s + k) * 0x100_0000) by (nonlinear_arith)
        requires
            pow2(s) * pow2(k) == pow2(s + k),
            pow2(s) * 0x80_0000 <= q,
            q + 1 <= pow2(s) * 0x100_0000,
            q * p <= up < (q + 1) * p,
            p == pow2(k),
            p > 0,
    ;
    lemma_spare_is(up, s + k);
    let unit = (d * pow2(s)) as int;
    assert(unit > 0) by (nonlinear_arith)
        requires
            d > 0,
            pow2(s) > 0,
            unit == d * pow2(s),
    ;
    lemma_ratio_scales(n as int, unit, p as int);
    assert(d * pow2(s + k) == unit * p) by (nonlinear_arith)
        requires
            pow2(s) * pow2(k) == pow2(s + k),
            unit == d * pow2(s),
            p == pow2(k),
    ;
    let m = nearest_ratio(n as int, unit);
    lemma_ratio_nonnegative(n as int, unit);
    assert(m * pow2(s + k) == m * pow2(s) * p) by (nonlinear_arith)
        requires
            pow2(s) * pow2(k) == pow2(s + k),
            p == pow2(k),
    ;
    assert(m * pow2(s) >= 0) by (nonlinear_arith)
        requires
            m >= 0,
            pow2(s) > 0,
    ;
}

proof fn lemma_ratio_nonnegative(n: int, d: int)
    requires
        n >= 0,
        d > 0,
    ensures
        nearest_ratio(n, d) >= 0,
        nearest_ratio(n, d) <= n / d + 1,
        n / d <= n,
{
    vstd::arithmetic::div_mod::lemma_div_pos_is_pos(n, d);
    vstd::arithmetic::div_mod::lemma_div_nonincreasing(n, d);
}

/// What a single holds anyway is not rounded, at any scale.
proof fn lemma_rounded_exact(n: nat, k: nat)
    requires
        n < 0x100_0000,
    ensures
        rounded(n * pow2(k), 1) == n * pow2(k),
{
    let q = n * pow2(k);
    let s = spare_bits(q);
    lemma_spare_bounds(q);
    lemma_pow2_pos(k);
    lemma_pow2_pos(s);
    if s > k {
        lemma_pow2_unfold(s);
        if s > k + 1 {
            lemma_pow2_strictly_increases(k, (s - 1) as nat);
        }
        assert(false) by (nonlinear_arith)
            requires
                n * pow2(k) >= pow2(s) * 0x80_0000,
                pow2(s) >= 2 * pow2(k),
                n < 0x100_0000,
                pow2(k) > 0,
        ;
    }
    let high = (k - s) as nat;
    lemma_pow2_adds(s, high);
    lemma_pow2_pos(high);
    let m = (n * pow2(high)) as int;
    assert(m >= 0 && m * pow2(s) == n * pow2(k)) by (nonlinear_arith)
        requires
            m == n * pow2(high),
            pow2(s) * pow2(high) == pow2(k),
            pow2(high) > 0,
            n >= 0,
    ;
    lemma_ratio_exact(m, pow2(s) as int);
}

/// Counts the bits beyond the 24 that a single keeps.
fn spare(q: u64) -> (s: u64)
    requires
        q < 0x8000_0000_0000_0000,
    ensures
        s == spare_bits(q as nat),
        s <= 39,
{
    let mut s: u64 = 0;
    let mut x: u64 = q;
    proof {
        lemma2_to64();
        lemma2_to64_rest();
        assert(pow2(63) == 0x8000_0000_0000_0000);
    }
    while x >= 0x100_0000
        invariant
            s <= 39,
            x < pow2((63 - s) as nat),
            spare_bits(q as nat) == s + spare_bits(x as nat),
        decreases x,
    {
        proof {
            lemma2_to64();
            lemma_pow2_unfold((63 - s) as nat);
            if s == 39 {
                assert(pow2(24) == 0x100_0000);
            }
        }
        x /= 2;
        s += 1;
    }
    s
}

/// Rounds `n / d` to the precision of a single. Returned are the kept bits and the power of
/// two that they are a multiple of.
fn round_ratio(n: u64, d: u64) -> (r: (u64, u64))
    requires
        n < 0x8000_0000_0000_0000,
        0 < d <= 0x1_0000_0000,
    ensures
        r.1 == spare_bits(n as nat / d as nat),
        r.1 <= 39,
        r.0 <= 0x100_0000,
        r.1 > 0 ==> r.0 >= 0x80_0000,
        r.0 * pow2(r.1 as nat) == rounded(n as nat, d as nat),
        r.0 == nearest_ratio(n as int, (d * pow2(r.1 as nat)) as int),
{
    let q: u64 = n / d;
    proof {
        vstd::arithmetic::div_mod::lemma_div_nonincreasing(n as int, d as int);
    }
    let s: u64 = spare(q);
    proof {
        lemma_spare_bounds(q as nat);
        vstd::bits::lemma_u64_pow2_no_overflow(s as nat);
        vstd::bits::lemma_u64_shl_is_mul(1, s);
        lemma2_to64_rest();
        lemma2_to64();
        lemma_pow2_pos(s as nat);
        vstd::arithmetic::div_mod::lemma_fundamental_div_mod(n as int, d as int);
        vstd::arithmetic::div_mod::lemma_mod_bound(n as int, d as int);
        assert(d * pow2(s as nat) <= 0x1_0000_0000 || d * pow2(s as nat) * 0x80_0000 <= n)
            by (nonlinear_arith)
            requires
                s == 0 ==> pow2(s as nat) == 1,
                s > 0 ==> pow2(s as nat) * 0x80_0000 <= q,
                n == d * q + n as int % d as int,
                n as int % d as int >= 0,
                0 < d <= 0x1_0000_0000,
                s >= 0,
        ;
        assert(d * pow2(s as nat) > 0) by (nonlinear_arith)
            requires
                d > 0,
                pow2(s as nat) > 0,
        ;
    }
    let unit: u64 = d * (1u64 << s);
    let whole: u64 = n / unit;
    let rest: u64 = n % unit;
    proof {
        let p = pow2(s as nat) as int;
        vstd::arithmetic::div_mod::lemma_div_denominator(n as int, d as int, p);
        assert(whole == q as int / p);
        vstd::arithmetic::div_mod::lemma_fundamental_div_mod(q as int, p);
        vstd::arithmetic::div_mod::lemma_mod_bound(q as int, p);
        assert(whole < 0x100_0000 && (s > 0 ==> whole >= 0x80_0000)) by (nonlinear_arith)
            requires
                q == p * whole + q as int % p,
                0 <= q as int % p < p,
                q < p * 0x100_0000,
                s > 0 ==> p * 0x80_0000 <= q,
                p > 0,
        ;
        vstd::arithmetic::div_mod::lemma_mod_bound(n as int, unit as int);
    }
    let m: u64 = if 2 * rest > unit || 2 * rest == unit && whole % 2 == 1 {
        whole + 1
    } else {
        whole
    };
    proof {
        assert(m * pow2(s as nat) >= 0) by (nonlinear_arith)
            requires
                m >= 0,
                pow2(s as nat) > 0,
        ;
    }
    (m, s)
}

/// A rounded number is less than twice the number and one more.
proof fn lemma_rounded_bound(n: nat, d: nat)
    requires
        d > 0,
    ensures
        rounded(n, d) <= 2 * n + 1,
{
    let q = n / d;
    let s = spare_bits(q);
    let p = pow2(s);
    let unit = (d * p) as int;
    lemma_spare_bounds(q);
    lemma2_to64();
    lemma_pow2_pos(s);
    assert(unit > 0 && unit >= p) by (nonlinear_arith)
        requires
            d > 0,
            p > 0,
            unit == d * p,
    ;
    lemma_ratio_nonnegative(n as int, unit);
    vstd::arithmetic::div_mod::lemma_fundamental_div_mod(n as int, unit);
    vstd::arithmetic::div_mod::lemma_mod_bound(n as int, unit);
    vstd::arithmetic::div_mod::lemma_div_nonincreasing(n as int, d as int);
    let w = n as int / unit;
    assert(w * p <= n) by (nonlinear_arith)
        requires
            n == unit * w + n as int % unit,
            n as int % unit >= 0,
            unit >= p,
            w >= 0,
    ;
    let m = nearest_ratio(n as int, unit);
    assert(m * p <= w * p + p) by (nonlinear_arith)
        requires
            m <= w + 1,
            p > 0,
    ;
    assert(p <= n + 1) by {
        if s > 0 {
            assert(p <= q);
        }
    }
}

/// How far a state may reach for its frame.
pub fn search_window(tolerance: Single, fps: u32) -> (us: u64)
    ensures
        us == window_us(tolerance, fps),
{
    let e: u32 = (tolerance.bits / HIDDEN_SINGLE) % 256;
    let f: u32 = tolerance.bits % HIDDEN_SINGLE;
    if e == 255 && f != 0 || tolerance.bits >= SIGN_SINGLE || tolerance.bits == 0 {
        return 0;
    }
    if e == 255 || fps == 0 {
        return u64::MAX;
    }
    let significand: u64 = if e == 0 {
        f as u64
    } else {
        f as u64 + 0x80_0000
    };
    let scale: u64 = if e == 0 {
        0
    } else {
        e as u64 - 1
    };
    let product: u64 = significand * 1_000_000;
    let (ticks, ticks_scale) = round_ratio(product, 1);
    let (frames, frames_scale) = round_ratio(fps as u64, 1);
    let ghost exact = single_units(tolerance) * 1_000_000;
    proof {
        lemma_ticks(significand, scale, product, ticks, ticks_scale, exact);
        lemma_frames(fps, frames, frames_scale);
        vstd::bits::lemma_u64_pow2_no_overflow(frames_scale as nat);
        vstd::bits::lemma_u64_shl_is_mul(1, frames_scale);
        lemma2_to64_rest();
    }
    let rate: u64 = frames * (1u64 << frames_scale);
    let up: u64 = ticks_scale + scale;
    let ghost p = rounded(exact, 1);
    assert(p == ticks * pow2(up as nat));
    if up < 38 {
        proof {
            lemma_tiny(ticks, up, p, rate);
        }
        return 0;
    }
    proof {
        lemma2_to64_rest();
    }
    let scaled: u64 = ticks * 0x40_0000_0000;
    proof {
        lemma2_to64_rest();
        assert(scaled as int / rate as int >= 0x100_0000) by {
            vstd::arithmetic::div_mod::lemma_div_is_ordered_by_denominator(
                scaled as int,
                rate as int,
                0x1_0000_0000,
            );
        }
    }
    let (kept, kept_scale) = round_ratio(scaled, rate);
    let total: u64 = kept_scale + up - 38;
    proof {
        let k = (up - 38) as nat;
        lemma_pow2_adds(38, k);
        assert(scaled * pow2(k) == p) by (nonlinear_arith)
            requires
                scaled == ticks * 0x40_0000_0000,
                pow2(38) == 0x40_0000_0000,
                pow2(38) * pow2(k) == pow2(up as nat),
                p == ticks * pow2(up as nat),
        ;
        lemma_rounded_scales(scaled as nat, rate as nat, k);
        lemma_pow2_adds(kept_scale as nat, k);
        assert(rounded(p, rate as nat) == kept * pow2(total as nat)) by (nonlinear_arith)
            requires
                rounded(p, rate as nat) == rounded(scaled as nat, rate as nat) * pow2(k),
                rounded(scaled as nat, rate as nat) == kept * pow2(kept_scale as nat),
                pow2(kept_scale as nat) * pow2(k) == pow2(total as nat),
        ;
    }
    whole_part(kept, total)
}

/// The integer part of `kept` times two to the power `total`, in units of the smallest positive
/// single, up to the largest integer there is.
fn whole_part(kept: u64, total: u64) -> (us: u64)
    requires
        0x80_0000 <= kept <= 0x100_0000,
        total <= 400,
    ensures
        us == if (kept * pow2(total as nat)) / pow2(149) as int > u64::MAX {
            u64::MAX as int
        } else {
            (kept * pow2(total as nat)) / pow2(149) as int
        },
{
    proof {
        lemma_pow2_pos(149);
    }
    if total >= 149 {
        let up: u64 = total - 149;
        proof {
            lemma_pow2_adds(149, up as nat);
            lemma_pow2_pos(up as nat);
            let m = kept * pow2(up as nat);
            assert(kept * pow2(total as nat) == m * pow2(149)) by (nonlinear_arith)
                requires
                    pow2(149) * pow2(up as nat) == pow2(total as nat),
                    m == kept * pow2(up as nat),
            ;
            vstd::arithmetic::div_mod::lemma_div_by_multiple(m, pow2(149) as int);
        }
        if up >= 41 {
            proof {
                lemma2_to64_rest();
                if up > 41 {
                    lemma_pow2_strictly_increases(41, up as nat);
                }
                assert(kept * pow2(up as nat) > u64::MAX) by (nonlinear_arith)
                    requires
                        kept >= 0x80_0000,
                        pow2(up as nat) >= 0x200_0000_0000,
                ;
            }
            return u64::MAX;
        }
        proof {
            vstd::bits::lemma_u64_pow2_no_overflow(up as nat);
            vstd::bits::lemma_u64_shl_is_mul(1, up);
            lemma2_to64_rest();
            lemma2_to64();
            if up < 40 {
                lemma_pow2_strictly_increases(up as nat, 40);
            }
            assert(kept * pow2(up as nat) <= 0x1_0000_0000_0000_0000) by (nonlinear_arith)
                requires
                    0 <= kept <= 0x100_0000,
                    0 < pow2(up as nat) <= 0x100_0000_0000,
            ;
        }
        let wide: u128 = kept as u128 * (1u64 << up) as u128;
        if wide > u64::MAX as u128 {
            u64::MAX
        } else {
            wide as u64
        }
    } else {
        let down: u64 = 149 - total;
        proof {
            lemma_pow2_adds(total as nat, down as nat);
            lemma_pow2_pos(total as nat);
            lemma_pow2_pos(down as nat);
            vstd::arithmetic::div_mod::lemma_div_multiples_vanish_quotient(
                pow2(total as nat) as int,
                kept as int,
                pow2(down as nat) as int,
            );
            assert(kept * pow2(total as nat) == pow2(total as nat) * kept) by (nonlinear_arith);
        }
        if down >= 64 {
            proof {
                lemma2_to64_rest();
                if down > 64 {
                    lemma_pow2_strictly_increases(64, down as nat);
                }
                vstd::arithmetic::div_mod::lemma_basic_div(kept as int, pow2(down as nat) as int);
            }
            return 0;
        }
        proof {
            vstd::bits::lemma_u64_shr_is_div(kept, down);
            vstd::arithmetic::div_mod::lemma_div_nonincreasing(
                kept as int,
                pow2(down as nat) as int,
            );
        }
        kept >> down
    }
}

proof fn lemma_ticks(
    significand: u64,
    scale: u64,
    product: u64,
    ticks: u64,
    ticks_scale: u64,
    exact: nat,
)
    requires
        0 < significand < 0x100_0000,
        product == significand * 1_000_000,
        exact == significand * pow2(scale as nat) * 1_000_000,
        ticks_scale == spare_bits(product as nat),
        ticks * pow2(ticks_scale as nat) == rounded(product as nat, 1),
        ticks_scale > 0 ==> ticks >= 0x80_0000,
    ensures
        rounded(exact, 1) == ticks * pow2((ticks_scale + scale) as nat),
        ticks >= 1_000_000,
        ticks_scale <= 20,
{
    let k = scale as nat;
    lemma_pow2_pos(k);
    lemma_pow2_adds(ticks_scale as nat, k);
    assert(exact == product * pow2(k)) by (nonlinear_arith)
        requires
            product == significand * 1_000_000,
            exact == significand * pow2(k) * 1_000_000,
    ;
    vstd::arithmetic::div_mod::lemma_div_basics(product as int);
    if product >= 0x100_0000 {
        lemma_rounded_scales(product as nat, 1, k);
    } else {
        lemma2_to64();
        lemma_rounded_exact(product as nat, k);
        lemma_rounded_exact(product as nat, 0);
        assert(product * pow2(0) == product);
        assert(ticks_scale == 0);
        assert(ticks * pow2(0) == ticks);
    }
    assert(rounded(exact, 1) == ticks * pow2((ticks_scale + scale) as nat)) by (nonlinear_arith)
        requires
            rounded(exact, 1) == rounded(product as nat, 1) * pow2(k),
            ticks * pow2(ticks_scale as nat) == rounded(product as nat, 1),
            pow2(ticks_scale as nat) * pow2(k) == pow2((ticks_scale + scale) as nat),
    ;
    lemma_spare_bounds(product as nat);
    if ticks_scale > 20 {
        lemma2_to64();
        lemma_pow2_strictly_increases(20, ticks_scale as nat);
        lemma_pow2_unfold(ticks_scale as nat);
        assert(pow2(ticks_scale as nat) >= 2 * pow2(20)) by {
            if ticks_scale > 21 {
                lemma_pow2_strictly_increases(21, ticks_scale as nat);
            }
        }
    }
}

proof fn lemma_frames(fps: u32, frames: u64, frames_scale: u64)
    requires
        fps > 0,
        frames_scale == spare_bits(fps as nat),
        frames <= 0x100_0000,
        frames * pow2(frames_scale as nat) == rounded(fps as nat, 1),
        frames_scale > 0 ==> frames >= 0x80_0000,
    ensures
        frames_scale <= 8,
        0 < frames * pow2(frames_scale as nat) <= 0x1_0000_0000,
{
    lemma_spare_bounds(fps as nat);
    lemma2_to64();
    if frames_scale > 8 {
        lemma_pow2_strictly_increases(8, frames_scale as nat);
        assert(pow2(frames_scale as nat) >= 2 * pow2(8)) by {
            if frames_scale > 9 {
                lemma_pow2_strictly_increases(9, frames_scale as nat);
            }
        }
    }
    if frames_scale < 8 {
        lemma_pow2_strictly_increases(frames_scale as nat, 8);
    }
    lemma_pow2_pos(frames_scale as nat);
    if frames_scale == 0 {
        lemma_rounded_exact(fps as nat, 0);
        assert(fps * pow2(0) == fps);
    }
    assert(0 < frames * pow2(frames_scale as nat) <= 0x1_0000_0000) by (nonlinear_arith)
        requires
            0 < frames <= 0x100_0000,
            0 < pow2(frames_scale as nat) <= 0x100,
    ;
}

/// What is far below one microsecond stays below it.
proof fn lemma_tiny(ticks: u64, up: u64, p: nat, rate: u64)
    requires
        ticks <= 0x100_0000,
        up < 38,
        p == ticks * pow2(up as nat),
        rate > 0,
    ensures
        rounded(p, rate as nat) / pow2(149) == 0,
{
    lemma_rounded_bound(p, rate as nat);
    lemma2_to64_rest();
    lemma_pow2_strictly_increases(up as nat, 38);
    lemma_pow2_strictly_increases(64, 149);
    assert(2 * p + 1 < 0x1_0000_0000_0000_0000) by (nonlinear_arith)
        requires
            p == ticks * pow2(up as nat),
            ticks <= 0x100_0000,
            pow2(up as nat) < 0x40_0000_0000,
    ;
    vstd::arithmetic::div_mod::lemma_basic_div(
        rounded(p, rate as nat) as int,
        pow2(149) as int,
    );
}

/// Rounding a ratio goes no further than half a step, which is at most one part in 24 bits of it
/// unless the ratio is too small to be rounded at all.
proof fn lemma_rounded_near(n: nat, d: nat)
    requires
        d > 0,
    ensures
        ({
            let off = rounded(n, d) * d - n;
            &&& n / d >= 0x100_0000 ==> -(n as int) <= 0x100_0000 * off <= n
            &&& n / d < 0x100_0000 ==> -(d as int) <= 2 * off <= d
        }),
{
    let q = n / d;
    let s = spare_bits(q);
    let p = pow2(s) as int;
    let unit = (d * pow2(s)) as int;
    lemma2_to64();
    lemma_pow2_pos(s);
    lemma_spare_bounds(q);
    assert(unit > 0) by (nonlinear_arith)
        requires
            d > 0,
            p > 0,
            unit == d * p,
    ;
    let m = nearest_ratio(n as int, unit);
    lemma_ratio_nonnegative(n as int, unit);
    vstd::arithmetic::div_mod::lemma_fundamental_div_mod(n as int, unit);
    vstd::arithmetic::div_mod::lemma_mod_bound(n as int, unit);
    vstd::arithmetic::div_mod::lemma_fundamental_div_mod(n as int, d as int);
    vstd::arithmetic::div_mod::lemma_mod_bound(n as int, d as int);
    let whole = n as int / unit;
    assert((whole + 1) * unit == whole * unit + unit) by (nonlinear_arith);
    assert(unit * whole == whole * unit) by (nonlinear_arith);
    assert(-unit <= 2 * (m * unit - n) <= unit);
    assert(m * p >= 0) by (nonlinear_arith)
        requires
            m >= 0,
            p > 0,
    ;
    assert((m * p) * d == m * unit) by (nonlinear_arith)
        requires
            unit == d * p,
    ;
    if q >= 0x100_0000 {
        assert(unit * 0x80_0000 <= n) by (nonlinear_arith)
            requires
                unit == d * p,
                p * 0x80_0000 <= q,
                n == d * q + n as int % d as int,
                n as int % d as int >= 0,
                d > 0,
        ;
    } else {
        assert(p == 1);
        assert(unit == d) by (nonlinear_arith)
            requires
                unit == d * p,
                p == 1,
        ;
    }
}

/// An integer is rounded by at most one part in 24 bits.
proof fn lemma_rounded_integer(n: nat)
    ensures
        -(n as int) <= 0x100_0000 * (rounded(n, 1) - n) <= n,
{
    lemma_rounded_near(n, 1);
}

proof fn lemma_window_bounds(t: int, fps: int, ticks: int, f: int, q: int)
    requires
        t >= 0,
        fps > 0,
        q >= 0,
        -t <= 0x100_0000 * (ticks - t) <= t,
        -fps <= 0x100_0000 * (f - fps) <= fps,
        -ticks <= 0x100_0000 * (q * f - ticks) <= ticks,
    ensures
        0x40_0000 * (q * fps) <= 0x40_0001 * t,
        0x40_0000 * (q * fps) >= 0x3f_ffff * t,
{
    assert(0xff_ffff * (q * fps) <= 0x100_0000 * (q * f)) by (nonlinear_arith)
        requires
            q >= 0,
            0xff_ffff * fps <= 0x100_0000 * f,
    ;
    assert(0x100_0001 * (q * fps) >= 0x100_0000 * (q * f)) by (nonlinear_arith)
        requires
            q >= 0,
            0x100_0001 * fps >= 0x100_0000 * f,
    ;
}

/// The window is a million times the tolerance over the rate, in whole microseconds, to one part in
/// four million: what single precision makes of it. The tolerance is counted in units of the
/// smallest positive single.
pub proof fn law_window_is_tolerance_over_rate(tolerance: Single, fps: u32)
    requires
        0 < tolerance.bits < 0x7f80_0000,
        fps > 0,
    ensures
        ({
            let millionfold = 1_000_000 * (tolerance.significand() * pow2(
                (tolerance.scale() - 1) as nat,
            ));
            let one = pow2(149);
            let window = window_us(tolerance, fps);
            &&& 0 <= window <= u64::MAX
            &&& 0x40_0000 * ((window * one) * fps) <= 0x40_0001 * millionfold
            &&& window < u64::MAX ==> 0x40_0000 * (((window + 1) * one) * fps) >= 0x3f_ffff
                * millionfold
        }),
{
    let bits = tolerance.bits;
    assert((bits / 0x80_0000) % 256 < 255) by (bit_vector)
        requires
            bits < 0x7f80_0000,
    ;
    assert(!tolerance.nan() && !tolerance.infinite() && !tolerance.negative());
    let unit = pow2((tolerance.scale() - 1) as nat) as int;
    lemma_pow2_pos((tolerance.scale() - 1) as nat);
    assert(tolerance.significand() * unit >= 0) by (nonlinear_arith)
        requires
            tolerance.significand() >= 0,
            unit > 0,
    ;
    let t = (single_units(tolerance) * 1_000_000) as int;
    let one = pow2(149) as int;
    lemma_pow2_pos(149);
    lemma_rounded_integer(t as nat);
    lemma_rounded_integer(fps as nat);
    let ticks = rounded(t as nat, 1);
    let f = rounded(fps as nat, 1);
    assert(f > 0);
    lemma_rounded_near(ticks, f);
    let q = rounded(ticks, f) as int;
    let us = q / one;
    let window = window_us(tolerance, fps);
    vstd::arithmetic::div_mod::lemma_fundamental_div_mod(q, one);
    vstd::arithmetic::div_mod::lemma_mod_bound(q, one);
    vstd::arithmetic::div_mod::lemma_div_pos_is_pos(q, one);
    vstd::arithmetic::div_mod::lemma_fundamental_div_mod(ticks as int, f as int);
    vstd::arithmetic::div_mod::lemma_mod_bound(ticks as int, f as int);
    assert(0 <= window <= us);
    assert(window * one <= q < (us + 1) * one) by (nonlinear_arith)
        requires
            0 <= window <= us,
            q == one * us + q % one,
            0 <= q % one < one,
    ;
    assert((window * one) * fps <= q * fps) by (nonlinear_arith)
        requires
            window * one <= q,
            fps > 0,
    ;
    assert(q * fps <= ((us + 1) * one) * fps) by (nonlinear_arith)
        requires
            q < (us + 1) * one,
            fps > 0,
    ;
    if ticks / f >= 0x100_0000 {
        lemma_window_bounds(t, fps as int, ticks as int, f as int, q);
    } else {
        lemma2_to64();
        lemma_pow2_adds(60, 89);
        lemma2_to64_rest();
        lemma_pow2_pos(89);
        assert(one >= 0x400_0000);
        let share = ticks / f;
        assert(ticks <= 0x100_0000 * f) by (nonlinear_arith)
            requires
                ticks == f * share + ticks as int % (f as int),
                ticks as int % (f as int) < f,
                share + 1 <= 0x100_0000,
                f > 0,
        ;
        assert(t <= one * fps) by (nonlinear_arith)
            requires
                ticks <= 0x100_0000 * f,
                f <= 2 * fps,
                t <= 2 * ticks,
                one >= 0x400_0000,
                fps > 0,
        ;
        assert(one * fps <= ((us + 1) * one) * fps) by (nonlinear_arith)
            requires
                us >= 0,
                one > 0,
                fps > 0,
        ;
        assert(2 * (q * f - ticks) <= f);
        assert(q <= 0x100_0001) by (nonlinear_arith)
            requires
                2 * (q * f - ticks) <= f,
                ticks <= 0x100_0000 * f,
                f > 0,
        ;
        assert(us == 0) by (nonlinear_arith)
            requires
                q == one * us + q % one,
                0 <= q % one < one,
                q < one,
                us >= 0,
        ;
        assert((window * one) * fps == 0) by (nonlinear_arith)
            requires
                window == 0,
        ;
    }
}

/// A tolerance that is no number or not above zero gives no window; an infinite one, or no rate at
/// all, gives the largest.
pub proof fn law_window_has_its_limits(tolerance: Single, fps: u32)
    ensures
        tolerance.bits == 0 || tolerance.bits > 0x7f80_0000 ==> window_us(tolerance, fps) == 0,
        tolerance.bits == 0x7f80_0000 ==> window_us(tolerance, fps) == u64::MAX,
        0 < tolerance.bits <= 0x7f80_0000 && fps == 0 ==> window_us(tolerance, fps) == u64::MAX,
{
    let bits = tolerance.bits;
    assert(bits < 0x8000_0000 ==> ((bits / 0x80_0000) % 256 == 255 && bits % 0x80_0000 != 0
        <==> bits > 0x7f80_0000)) by (bit_vector);
    assert(bits == 0x7f80_0000 ==> (bits / 0x80_0000) % 256 == 255 && bits % 0x80_0000 == 0)
        by (bit_vector);
}

} // verus!
