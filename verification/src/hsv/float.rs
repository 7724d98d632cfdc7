//! IEEE 754 numbers as bit patterns: what the value encoding needs of them,
//! computed on integers.

use vstd::arithmetic::power2::{lemma_pow2_adds, lemma_pow2_pos, lemma_pow2_unfold, lemma2_to64, lemma2_to64_rest, pow2};
use vstd::prelude::*;

verus! {

/// The sign, exponent field and fraction field of a binary64 pattern.
pub open spec fn fields64(bits: u64) -> (bool, int, int) {
    (
        bits >= 0x8000_0000_0000_0000,
        ((bits / 0x10_0000_0000_0000) % 0x800) as int,
        (bits % 0x10_0000_0000_0000) as int,
    )
}

/// The sign, exponent field and fraction field of a binary32 pattern.
pub open spec fn fields32(bits: u32) -> (bool, int, int) {
    (bits >= 0x8000_0000, ((bits / 0x80_0000) % 0x100) as int, (bits % 0x80_0000) as int)
}

/// The magnitude of a finite binary64 number, counted in units of 2^-1074.
pub open spec fn units64(bits: u64) -> int {
    let (_, exponent, fraction) = fields64(bits);
    if exponent == 0 {
        fraction
    } else {
        (0x10_0000_0000_0000 + fraction) * pow2((exponent - 1) as nat)
    }
}

/// The magnitude of a finite binary32 number, counted in units of 2^-149.
pub open spec fn units32(bits: u32) -> int {
    let (_, exponent, fraction) = fields32(bits);
    if exponent == 0 {
        fraction
    } else {
        (0x80_0000 + fraction) * pow2((exponent - 1) as nat)
    }
}

/// The integer part of a binary64 number: toward zero, held within the 64-bit
/// signed range, zero where it is not a number.
pub open spec fn truncated(bits: u64) -> i64 {
    let (negative, exponent, fraction) = fields64(bits);
    let magnitude = units64(bits) / (pow2(1074) as int);
    if exponent == 0x7ff && fraction != 0 {
        0
    } else if exponent == 0x7ff || magnitude > 0x7fff_ffff_ffff_ffff {
        if negative {
            i64::MIN
        } else {
            i64::MAX
        }
    } else if negative {
        (-magnitude) as i64
    } else {
        magnitude as i64
    }
}

/// The position of the highest one bit of `n`.
pub open spec fn top_bit(n: nat) -> nat
    decreases n,
{
    if n < 2 {
        0
    } else {
        1 + top_bit(n / 2)
    }
}

/// A binary32 number as a binary64 number. What is not a number stays so, with
/// its payload, and does not signal.
pub open spec fn widened(bits: u32) -> u64 {
    let (negative, exponent, fraction) = fields32(bits);
    let sign: int = if negative {
        0x8000_0000_0000_0000
    } else {
        0
    };
    let magnitude: int = if exponent == 0xff {
        if fraction == 0 {
            0x7ff0_0000_0000_0000
        } else if fraction < 0x40_0000 {
            0x7ff8_0000_0000_0000 + fraction * 0x2000_0000
        } else {
            0x7ff0_0000_0000_0000 + fraction * 0x2000_0000
        }
    } else if exponent != 0 {
        (exponent + 896) * 0x10_0000_0000_0000 + fraction * 0x2000_0000
    } else if fraction == 0 {
        0
    } else {
        let top = top_bit(fraction as nat);
        (top + 874) * 0x10_0000_0000_0000 + (fraction - pow2(top)) * pow2((52 - top) as nat)
    };
    (sign + magnitude) as u64
}

proof fn lemma_top_bit(n: nat)
    requires
        n > 0,
    ensures
        pow2(top_bit(n)) <= n < pow2(top_bit(n) + 1),
    decreases n,
{
    lemma_pow2_unfold(top_bit(n) + 1);
    if n < 2 {
        lemma2_to64();
        lemma2_to64_rest();
    } else {
        lemma_top_bit(n / 2);
        lemma_pow2_unfold(top_bit(n));
    }
}

proof fn lemma_top_bit_is(n: nat, k: nat)
    requires
        pow2(k) <= n < pow2(k + 1),
    ensures
        top_bit(n) == k,
    decreases k,
{
    lemma_pow2_unfold(k + 1);
    if k == 0 {
        lemma2_to64();
        lemma2_to64_rest();
    } else {
        lemma_pow2_unfold(k);
        lemma_pow2_pos((k - 1) as nat);
        lemma_top_bit_is(n / 2, (k - 1) as nat);
    }
}

/// Widens a binary32 pattern to binary64.
pub fn widen(bits: u32) -> (r: u64)
    ensures
        r == widened(bits),
{
    let exponent: u64 = ((bits / 0x80_0000) % 0x100) as u64;
    let fraction: u64 = (bits % 0x80_0000) as u64;
    let sign: u64 = if bits >= 0x8000_0000 {
        0x8000_0000_0000_0000
    } else {
        0
    };
    if exponent == 0xff {
        if fraction == 0 {
            return sign + 0x7ff0_0000_0000_0000;
        }
        if fraction < 0x40_0000 {
            return sign + 0x7ff8_0000_0000_0000 + fraction * 0x2000_0000;
        }
        return sign + 0x7ff0_0000_0000_0000 + fraction * 0x2000_0000;
    }
    if exponent != 0 {
        return sign + (exponent + 896) * 0x10_0000_0000_0000 + fraction * 0x2000_0000;
    }
    if fraction == 0 {
        return sign;
    }
    let mut top: u64 = 0;
    let mut p: u64 = 1;
    let mut q: u64 = 0x10_0000_0000_0000;
    proof {
        lemma2_to64();
        lemma2_to64_rest();
    }
    while fraction >= 2 * p
        invariant
            top <= 22,
            p == pow2(top as nat),
            q == pow2((52 - top) as nat),
            p <= fraction < 0x80_0000,
        decreases fraction - p,
    {
        proof {
            lemma2_to64();
            lemma2_to64_rest();
            lemma_pow2_unfold((top + 1) as nat);
            lemma_pow2_unfold((52 - top) as nat);
            if top == 22 {
                assert(false);
            }
        }
        p = 2 * p;
        q = q / 2;
        top = top + 1;
    }
    proof {
        lemma_pow2_unfold((top + 1) as nat);
        lemma_top_bit_is(fraction as nat, top as nat);
        lemma_pow2_adds(top as nat, (52 - top) as nat);
        lemma2_to64();
        lemma2_to64_rest();
        assert(p * q == 0x10_0000_0000_0000);
        assert(0 <= (fraction - p) * q < p * q) by (nonlinear_arith)
            requires
                p <= fraction < 2 * p,
                q > 0,
        ;
    }
    sign + (top + 874) * 0x10_0000_0000_0000 + (fraction - p) * q
}

/// Widening is exact: a finite binary32 number keeps its sign and its value.
pub proof fn law_widening_is_exact(bits: u32)
    requires
        fields32(bits).1 != 0xff,
    ensures
        fields64(widened(bits)).0 == fields32(bits).0,
        fields64(widened(bits)).1 != 0x7ff,
        units64(widened(bits)) == units32(bits) * pow2(925),
{
    let (negative, exponent, fraction) = fields32(bits);
    let wide = widened(bits);
    let sign: int = if negative {
        0x8000_0000_0000_0000
    } else {
        0
    };
    if exponent != 0 {
        assert(wide == sign + (exponent + 896) * 0x10_0000_0000_0000 + fraction * 0x2000_0000);
        lemma_fields64(wide, negative, exponent + 896, fraction * 0x2000_0000);
        lemma_pow2_adds((exponent - 1) as nat, 896);
        lemma_pow2_adds(29, 896);
        lemma2_to64();
        lemma2_to64_rest();
        let a = pow2((exponent - 1) as nat) as int;
        let b = pow2(896) as int;
        assert((0x10_0000_0000_0000 + fraction * 0x2000_0000) * (a * b) == ((0x80_0000 + fraction)
            * a) * (0x2000_0000 * b)) by (nonlinear_arith);
        assert(units64(wide) == (0x10_0000_0000_0000 + fraction * 0x2000_0000) * (a * b));
        assert(units32(bits) == (0x80_0000 + fraction) * a);
        assert(pow2(925) == 0x2000_0000 * b);
    } else if fraction == 0 {
        lemma_fields64(wide, negative, 0, 0);
        assert(0 * pow2(925) == 0) by (nonlinear_arith);
    } else {
        let top = top_bit(fraction as nat);
        lemma_top_bit(fraction as nat);
        lemma_pow2_unfold(top + 1);
        lemma2_to64();
        lemma2_to64_rest();
        if top >= 23 {
            if top > 23 {
                vstd::arithmetic::power2::lemma_pow2_strictly_increases(23, top);
            }
            assert(false);
        }
        let p = pow2(top) as int;
        let q = pow2((52 - top) as nat) as int;
        lemma_pow2_adds(top, (52 - top) as nat);
        lemma_pow2_pos((52 - top) as nat);
        assert(0 <= (fraction - p) * q < p * q) by (nonlinear_arith)
            requires
                p <= fraction < 2 * p,
                q > 0,
        ;
        assert(wide == sign + (top + 874) * 0x10_0000_0000_0000 + (fraction - p) * q);
        lemma_fields64(wide, negative, top as int + 874, (fraction - p) * q);
        lemma_pow2_adds((52 - top) as nat, top + 873);
        let r = pow2((top + 873) as nat) as int;
        assert((p * q + (fraction - p) * q) * r == fraction * (q * r)) by (nonlinear_arith);
        assert(units64(wide) == (p * q + (fraction - p) * q) * r);
        assert(pow2(925) == q * r);
    }
}

/// The fields of a pattern put together from them.
proof fn lemma_fields64(bits: u64, negative: bool, exponent: int, fraction: int)
    requires
        0 <= exponent < 0x800,
        0 <= fraction < 0x10_0000_0000_0000,
        bits == (if negative {
            0x8000_0000_0000_0000int
        } else {
            0
        }) + exponent * 0x10_0000_0000_0000 + fraction,
    ensures
        fields64(bits) == (negative, exponent, fraction),
{
    let high: int = if negative {
        0x800
    } else {
        0
    };
    assert(bits == (high + exponent) * 0x10_0000_0000_0000 + fraction);
    assert((bits / 0x10_0000_0000_0000) == high + exponent);
}

/// The integer part of a binary64 number.
pub fn truncate(bits: u64) -> (r: i64)
    ensures
        r == truncated(bits),
{
    let exponent: u64 = (bits / 0x10_0000_0000_0000) % 0x800;
    let fraction: u64 = bits % 0x10_0000_0000_0000;
    let negative: bool = bits >= 0x8000_0000_0000_0000;
    if exponent == 0x7ff && fraction != 0 {
        return 0;
    }
    let significand: u64 = 0x10_0000_0000_0000 + fraction;
    if exponent < 1023 {
        proof {
            lemma2_to64();
            lemma2_to64_rest();
            lemma_pow2_adds(53, 1021);
            lemma_pow2_pos(1021);
            let unit = pow2(1074) as int;
            if exponent > 0 {
                let scale = pow2((exponent - 1) as nat) as int;
                if exponent < 1022 {
                    vstd::arithmetic::power2::lemma_pow2_strictly_increases((exponent - 1) as nat, 1021);
                }
                assert(significand * scale < 0x20_0000_0000_0000 * pow2(1021)) by (nonlinear_arith)
                    requires
                        0 <= significand < 0x20_0000_0000_0000,
                        0 <= scale <= pow2(1021),
                        pow2(1021) > 0,
                ;
                assert(0 <= significand * scale) by (nonlinear_arith)
                    requires
                        0 <= significand,
                        0 <= scale,
                ;
            } else {
                assert(pow2(1021) >= 1);
                assert(fraction < 0x20_0000_0000_0000 * pow2(1021));
            }
            assert(0 <= units64(bits) < unit);
            vstd::arithmetic::div_mod::lemma_basic_div(units64(bits), unit);
        }
        return 0;
    }
    if exponent >= 1086 {
        proof {
            lemma_pow2_adds(1074, (exponent - 1075) as nat);
            lemma_pow2_pos(1074);
            let scale = pow2((exponent - 1075) as nat) as int;
            let unit = pow2(1074) as int;
            assert(significand * (unit * scale) == unit * (significand * scale)) by (nonlinear_arith);
            vstd::arithmetic::div_mod::lemma_div_multiples_vanish(significand * scale, unit);
            lemma2_to64();
            lemma2_to64_rest();
            if exponent > 1086 {
                vstd::arithmetic::power2::lemma_pow2_strictly_increases(11, (exponent - 1075) as nat);
            }
            assert(significand * scale >= 0x10_0000_0000_0000 * 0x800) by (nonlinear_arith)
                requires
                    significand >= 0x10_0000_0000_0000,
                    scale >= 0x800,
            ;
        }
        return if negative {
            i64::MIN
        } else {
            i64::MAX
        };
    }
    let magnitude: u64 = if exponent >= 1075 {
        let scale: u64 = power_of_two(exponent - 1075);
        proof {
            lemma_pow2_adds(1074, (exponent - 1075) as nat);
            lemma_pow2_pos(1074);
            let unit = pow2(1074) as int;
            assert(significand * (unit * scale) == unit * (significand * scale)) by (nonlinear_arith);
            vstd::arithmetic::div_mod::lemma_div_multiples_vanish(significand * scale, unit);
            lemma2_to64();
            lemma2_to64_rest();
            if exponent < 1085 {
                vstd::arithmetic::power2::lemma_pow2_strictly_increases((exponent - 1075) as nat, 10);
            }
            assert(significand * scale < 0x20_0000_0000_0000 * 0x400) by (nonlinear_arith)
                requires
                    significand < 0x20_0000_0000_0000,
                    0 < scale <= 0x400,
            ;
        }
        significand * scale
    } else {
        let scale: u64 = power_of_two(1075 - exponent);
        proof {
            lemma_pow2_adds((exponent - 1) as nat, (1075 - exponent) as nat);
            lemma_pow2_pos((exponent - 1) as nat);
            lemma_pow2_pos((1075 - exponent) as nat);
            let low = pow2((exponent - 1) as nat) as int;
            assert(significand * low == low * significand) by (nonlinear_arith);
            vstd::arithmetic::div_mod::lemma_div_multiples_vanish_quotient(
                low,
                significand as int,
                scale as int,
            );
            assert(significand / scale <= significand) by (nonlinear_arith)
                requires
                    scale > 0,
            ;
        }
        significand / scale
    };
    if negative {
        -(magnitude as i64)
    } else {
        magnitude as i64
    }
}

/// Two to the power `k`.
fn power_of_two(k: u64) -> (p: u64)
    requires
        k <= 63,
    ensures
        p == pow2(k as nat),
{
    let mut p: u64 = 1;
    let mut i: u64 = 0;
    proof {
        lemma2_to64();
        lemma2_to64_rest();
    }
    while i < k
        invariant
            i <= k <= 63,
            p == pow2(i as nat),
        decreases k - i,
    {
        proof {
            lemma_pow2_unfold((i + 1) as nat);
            lemma2_to64();
            lemma2_to64_rest();
            vstd::arithmetic::power2::lemma_pow2_strictly_increases(i as nat, 63);
        }
        p = 2 * p;
        i = i + 1;
    }
    p
}

/// The integer part is that toward zero: its magnitude is the largest whole number that is
/// not above that of the number, and its sign the same. What is not a number counts as
/// zero, and what is too large as the number at that end of the range.
pub proof fn law_the_fraction_is_cut_off(bits: u64)
    ensures
        ({
            let (negative, exponent, fraction) = fields64(bits);
            let t = truncated(bits) as int;
            let size = if t < 0 {
                -t
            } else {
                t
            };
            &&& exponent == 0x7ff && fraction != 0 ==> t == 0
            &&& exponent == 0x7ff && fraction == 0 ==> t == (if negative {
                i64::MIN as int
            } else {
                i64::MAX as int
            })
            &&& negative ==> t <= 0
            &&& !negative ==> t >= 0
            &&& exponent != 0x7ff && i64::MIN < t < i64::MAX ==> size * pow2(1074) <= units64(bits)
                < (size + 1) * pow2(1074)
        }),
{
    let (negative, exponent, fraction) = fields64(bits);
    lemma_pow2_pos(1074);
    let unit = pow2(1074) as int;
    let n = units64(bits);
    if exponent > 0 {
        lemma_pow2_pos((exponent - 1) as nat);
        let p = pow2((exponent - 1) as nat) as int;
        assert((0x10_0000_0000_0000 + fraction) * p >= 0) by (nonlinear_arith)
            requires
                fraction >= 0,
                p > 0,
        ;
    }
    assert(n >= 0);
    let size = n / unit;
    assert(size >= 0 && size * unit <= n < (size + 1) * unit) by (nonlinear_arith)
        requires
            size == n / unit,
            unit > 0,
            n >= 0,
    ;
}

/// The sign, the exponent and the fraction of a number are the parts of its pattern, from
/// the top, of 1, 11 and 52 bits, and of 1, 8 and 23 bits for the short form.
pub proof fn law_a_pattern_has_three_parts(
    negative: bool,
    exponent: int,
    fraction: int,
    short_exponent: int,
    short_fraction: int,
)
    requires
        0 <= exponent < 0x800,
        0 <= fraction < 0x10_0000_0000_0000,
        0 <= short_exponent < 0x100,
        0 <= short_fraction < 0x80_0000,
    ensures
        ({
            let top = if negative {
                1int
            } else {
                0
            };
            let wide = (top * 0x8000_0000_0000_0000 + exponent * 0x10_0000_0000_0000 + fraction)
                as u64;
            let short = (top * 0x8000_0000 + short_exponent * 0x80_0000 + short_fraction) as u32;
            fields64(wide) == (negative, exponent, fraction) && fields32(short) == (
                negative,
                short_exponent,
                short_fraction,
            )
        }),
{
}

/// A number too large for a short form stays infinite, with its sign, and what is not a
/// number stays that: its payload is kept in the upper bits, and it no longer signals.
pub proof fn law_widening_keeps_what_is_no_number(bits: u32)
    requires
        fields32(bits).1 == 0xff,
    ensures
        ({
            let (negative, exponent, fraction) = fields64(widened(bits));
            let payload = fields32(bits).2;
            &&& negative == fields32(bits).0
            &&& exponent == 0x7ff
            &&& payload == 0 ==> fraction == 0
            &&& 0 < payload < 0x40_0000 ==> fraction == (payload + 0x40_0000) * 0x2000_0000
            &&& payload >= 0x40_0000 ==> fraction == payload * 0x2000_0000
        }),
{
    let (negative, exponent, payload) = fields32(bits);
    let fraction = if payload == 0 {
        0
    } else if payload < 0x40_0000 {
        (payload + 0x40_0000) * 0x2000_0000
    } else {
        payload * 0x2000_0000
    };
    let sign: int = if negative {
        0x8000_0000_0000_0000
    } else {
        0
    };
    assert(widened(bits) == sign + 0x7ff * 0x10_0000_0000_0000 + fraction);
    lemma_fields64(widened(bits), negative, 0x7ff, fraction);
}

/// The integer part is exact as long as it fits: below two to the sixty-third power
/// nothing but the fraction is lost.
pub proof fn law_integers_that_fit_are_exact(bits: u64)
    requires
        fields64(bits).1 != 0x7ff,
        units64(bits) < 0x8000_0000_0000_0000 * pow2(1074),
    ensures
        ({
            let t = truncated(bits) as int;
            let size = if fields64(bits).0 {
                -t
            } else {
                t
            };
            size * pow2(1074) <= units64(bits) < (size + 1) * pow2(1074)
        }),
{
    let (negative, exponent, fraction) = fields64(bits);
    lemma_pow2_pos(1074);
    let unit = pow2(1074) as int;
    let n = units64(bits);
    if exponent > 0 {
        lemma_pow2_pos((exponent - 1) as nat);
        let p = pow2((exponent - 1) as nat) as int;
        assert((0x10_0000_0000_0000 + fraction) * p >= 0) by (nonlinear_arith)
            requires
                fraction >= 0,
                p > 0,
        ;
    }
    assert(n >= 0);
    let size = n / unit;
    assert(0 <= size < 0x8000_0000_0000_0000 && size * unit <= n < (size + 1) * unit)
        by (nonlinear_arith)
        requires
            size == n / unit,
            unit > 0,
            0 <= n < 0x8000_0000_0000_0000 * unit,
    ;
}

} // verus!
