//! IEEE-754 binary16, widened to binary32 and narrowed back, as bit patterns.
//!
//! A field of sixteen bits is exposed as a binary32, because that is what a flight computer with
//! a floating-point unit is likely to be holding. Everything here works on bit patterns, so
//! the conversion is the same on every machine.

use vstd::arithmetic::mul::*;
use vstd::arithmetic::power2::*;
use vstd::prelude::*;

verus! {

/// The sign bit of a binary16.
pub open spec fn half_sign(half: u16) -> int {
    half as int / 0x8000
}

/// A binary16 without its sign.
pub open spec fn half_magnitude(half: u16) -> int {
    half as int % 0x8000
}

/// The number a binary16 magnitude denotes, in units of 2^-24.
///
/// The encoding of infinity stands for 2^16 here, the number that would come after the largest
/// finite one if the exponent had no upper end.
pub open spec fn half_units(magnitude: int) -> int {
    let exponent = magnitude / 1024;
    let fraction = magnitude % 1024;
    if exponent == 0 {
        fraction
    } else {
        (1024 + fraction) * pow2((exponent - 1) as nat)
    }
}

/// The sign bit of a binary32.
pub open spec fn single_sign(single: u32) -> int {
    single as int / 0x8000_0000
}

/// The biased exponent of a binary32.
pub open spec fn single_exponent(single: u32) -> int {
    single as int / 0x80_0000 % 256
}

/// The fraction of a binary32.
pub open spec fn single_fraction(single: u32) -> int {
    single as int % 0x80_0000
}

/// The number a finite binary32 denotes, without its sign, in units of 2^-149.
pub open spec fn single_units(single: u32) -> int {
    let exponent = single_exponent(single);
    if exponent == 0 {
        single_fraction(single)
    } else {
        (0x80_0000 + single_fraction(single)) * pow2((exponent - 1) as nat)
    }
}

/// How many units of a binary32 make up one of a binary16: 2^125.
pub open spec fn unit_ratio() -> int {
    pow2(125) as int
}

/// How far a number is from what a binary16 magnitude denotes, in units of 2^-149.
pub open spec fn half_distance(units: int, magnitude: int) -> int {
    let other = half_units(magnitude) * unit_ratio();
    if units >= other {
        units - other
    } else {
        other - units
    }
}

/// Whether a magnitude is the nearest to a number, and the even one where two are as near.
pub open spec fn is_nearest(units: int, magnitude: int) -> bool {
    forall|other: int|
        0 <= other <= 0x7C00 && other != magnitude ==> {
            ||| half_distance(units, magnitude) < #[trigger] half_distance(units, other)
            ||| half_distance(units, magnitude) == half_distance(units, other) && magnitude % 2 == 0
        }
}

/// Whether a binary32 is what a binary16 widens to: the same number, or the same infinity, or a
/// NaN with the same payload.
pub open spec fn widens(half: u16, single: u32) -> bool {
    &&& single_sign(single) == half_sign(half)
    &&& half_magnitude(half) < 0x7C00 ==> single_exponent(single) < 255 && single_units(single)
        == half_units(half_magnitude(half)) * unit_ratio()
    &&& half_magnitude(half) >= 0x7C00 ==> single_exponent(single) == 255 && single_fraction(single)
        == (half_magnitude(half) - 0x7C00) * 0x2000
}

/// A NaN payload with the quiet bit set.
pub open spec fn quiet_payload(payload: int) -> int {
    if payload < 0x200 {
        payload + 0x200
    } else {
        payload
    }
}

/// Whether a binary16 is what a binary32 narrows to.
///
/// A number goes to the nearest binary16 and to the even one of two that are as near; from halfway
/// above the largest finite one it goes to infinity. The sign is kept throughout. A NaN stays one:
/// its payload is cut off at the bottom and the quiet bit is set.
pub open spec fn narrows(single: u32, half: u16) -> bool {
    &&& half_sign(half) == single_sign(single)
    &&& half_magnitude(half) == if single_exponent(single) < 255 {
        nearest_half(single_units(single))
    } else if single_fraction(single) == 0 {
        0x7C00
    } else {
        0x7C00 + quiet_payload(single_fraction(single) / 0x2000)
    }
}

/// The binary16 magnitude that is the nearest to a number.
pub open spec fn nearest_half(units: int) -> int {
    choose|magnitude: int| 0 <= magnitude <= 0x7C00 && is_nearest(units, magnitude)
}

/// The binary32 that a binary16 widens to.
pub open spec fn widened(half: u16) -> u32 {
    choose|single: u32| widens(half, single)
}

/// The binary16 that a binary32 narrows to.
pub open spec fn narrowed(single: u32) -> u16 {
    choose|half: u16| narrows(single, half)
}

/// Widens a binary16 to a binary32, exactly.
///
/// Every binary16 is a binary32 too, subnormals included, so nothing is lost: a subnormal
/// is renormalised, an infinity stays one, and a NaN keeps its payload.
pub fn half_to_f32_bits(half: u16) -> (single: u32)
    ensures
        widens(half, single),
        single == widened(half),
{
    let sign: u32 = (half / 0x8000) as u32 * 0x8000_0000;
    let exponent: u32 = (half / 1024 % 32) as u32;
    let fraction: u32 = (half % 1024) as u32;
    let single: u32 = if exponent == 0 && fraction == 0 {
        assert(half_units(0) == 0);
        assert(0 * unit_ratio() == 0) by (nonlinear_arith);
        sign
    } else if exponent == 0 {
        let mut scaled = fraction;
        let mut shift: u32 = 0;
        proof {
            lemma2_to64();
        }
        while scaled < 1024
            invariant
                1 <= fraction <= scaled < 2048,
                fraction < 1024,
                shift <= 10,
                scaled == fraction * pow2(shift as nat),
                pow2(shift as nat) <= scaled,
            decreases 2048 - scaled,
        {
            proof {
                lemma2_to64();
                lemma_pow2_unfold((shift + 1) as nat);
                let p = pow2(shift as nat) as int;
                assert(fraction * (2 * p) == 2 * (fraction * p)) by (nonlinear_arith);
                assert(2 * p <= fraction * (2 * p)) by (nonlinear_arith)
                    requires
                        fraction >= 1,
                        p >= 0,
                ;
                if shift >= 10 {
                    if shift > 10 {
                        lemma_pow2_strictly_increases(10, shift as nat);
                    }
                    assert(pow2(10) == 1024);
                }
            }
            scaled = scaled * 2;
            shift = shift + 1;
        }
        proof {
            lemma_widens_subnormal(half, fraction as int, shift as nat);
        }
        sign + (113 - shift) * 0x80_0000 + (scaled - 1024) * 0x2000
    } else if exponent == 31 {
        sign + 255 * 0x80_0000 + fraction * 0x2000
    } else {
        proof {
            lemma_widens_normal(half);
        }
        sign + (exponent + 112) * 0x80_0000 + fraction * 0x2000
    };
    assert(widens(half, single));
    proof {
        lemma_widened_once(half, single, widened(half));
    }
    single
}

/// A binary32 put together from its parts.
spec fn compose(sign: int, exponent: int, fraction: int) -> u32 {
    (sign * 0x8000_0000 + exponent * 0x80_0000 + fraction) as u32
}

/// A subnormal binary16 widens to a normal binary32.
proof fn lemma_widens_subnormal(half: u16, fraction: int, shift: nat)
    requires
        half_magnitude(half) == fraction,
        1 <= fraction < 1024,
        shift <= 10,
        1024 <= fraction * pow2(shift) < 2048,
    ensures
        widens(
            half,
            compose(half_sign(half), 113 - shift, (fraction * pow2(shift) - 1024) * 0x2000),
        ),
{
    let scaled = fraction * pow2(shift);
    let single = compose(half_sign(half), 113 - shift, (scaled - 1024) * 0x2000);
    assert(single_exponent(single) == 113 - shift);
    assert(single_fraction(single) == (scaled - 1024) * 0x2000);
    lemma2_to64();
    lemma_pow2_adds(13, (112 - shift) as nat);
    lemma_pow2_adds(shift, (125 - shift) as nat);
    let p = pow2(shift) as int;
    let q = pow2((125 - shift) as nat) as int;
    let r = pow2((112 - shift) as nat) as int;
    assert((scaled * 0x2000) * r == fraction * (p * q)) by (nonlinear_arith)
        requires
            scaled == fraction * p,
            q == 0x2000 * r,
    ;
}

/// A normal binary16 widens to a binary32 with the exponent moved up.
proof fn lemma_widens_normal(half: u16)
    requires
        1024 <= half_magnitude(half) < 0x7C00,
    ensures
        widens(
            half,
            compose(
                half_sign(half),
                half_magnitude(half) / 1024 + 112,
                half_magnitude(half) % 1024 * 0x2000,
            ),
        ),
{
    let exponent = half_magnitude(half) / 1024;
    let fraction = half_magnitude(half) % 1024;
    let single = compose(half_sign(half), exponent + 112, fraction * 0x2000);
    assert(single_exponent(single) == exponent + 112);
    assert(single_fraction(single) == fraction * 0x2000);
    lemma2_to64();
    lemma_pow2_adds(13, (exponent + 111) as nat);
    lemma_pow2_adds((exponent - 1) as nat, 125);
    let p = pow2((exponent - 1) as nat) as int;
    let q = pow2(125) as int;
    let r = pow2((exponent + 111) as nat) as int;
    let m = 1024 + fraction;
    assert((m * 0x2000) * r == (m * p) * q) by (nonlinear_arith)
        requires
            p * q == 0x2000 * r,
    ;
}

/// How far a fraction has to move up for its highest bit to be the eleventh.
proof fn lemma_normalise(fraction: int) -> (shift: nat)
    requires
        1 <= fraction < 2048,
    ensures
        shift <= 10,
        1024 <= fraction * pow2(shift) < 2048,
        pow2(shift) * fraction < 2048,
    decreases 2048 - fraction,
{
    lemma2_to64();
    if fraction >= 1024 {
        assert(fraction * 1 == fraction);
        0
    } else {
        let rest = lemma_normalise(2 * fraction);
        lemma_pow2_unfold(rest + 1);
        let p = pow2(rest) as int;
        assert((2 * fraction) * p == fraction * (2 * p)) by (nonlinear_arith);
        assert((2 * p) * fraction == fraction * (2 * p)) by (nonlinear_arith);
        if rest + 1 > 10 {
            assert(pow2(11) == 2048);
            assert(fraction * (2 * p) >= 2 * p) by (nonlinear_arith)
                requires
                    fraction >= 1,
                    p >= 0,
            ;
        }
        rest + 1
    }
}

/// Every binary16 widens to some binary32.
pub proof fn lemma_widens_some(half: u16)
    ensures
        widens(half, widened(half)),
{
    let m = half_magnitude(half);
    let sign = half_sign(half);
    if m == 0 {
        assert(half_units(0) == 0);
        assert(0 * unit_ratio() == 0) by (nonlinear_arith);
        assert(widens(half, compose(sign, 0, 0)));
    } else if m < 1024 {
        let shift = lemma_normalise(m);
        lemma_widens_subnormal(half, m, shift);
    } else if m < 0x7C00 {
        lemma_widens_normal(half);
    } else {
        assert(widens(half, compose(sign, 255, (m - 0x7C00) * 0x2000)));
    }
}

/// Finite binary32 bit patterns are ordered as the numbers they denote.
#[verifier::spinoff_prover]
proof fn lemma_single_units_ordered(a: u32, b: u32)
    requires
        a < b < 0x7F80_0000,
    ensures
        single_units(a) < single_units(b),
    decreases b - a,
{
    if a + 1 < b {
        lemma_single_units_ordered(a, (b - 1) as u32);
        lemma_single_units_ordered((b - 1) as u32, b);
    } else {
        let e = single_exponent(a);
        let f = single_fraction(a);
        lemma2_to64();
        if e == 0 {
            if single_exponent(b) == 0 {
                assert(single_fraction(b) == f + 1);
            } else {
                assert(single_exponent(b) == 1);
                assert(single_fraction(b) == 0);
                assert(single_units(b) == 0x80_0000 * pow2(0));
            }
        } else {
            let p = pow2((e - 1) as nat) as int;
            lemma_pow2_pos((e - 1) as nat);
            if single_exponent(b) == e {
                assert(single_fraction(b) == f + 1);
                assert((0x80_0000 + f) * p < (0x80_0000 + (f + 1)) * p) by (nonlinear_arith)
                    requires
                        p > 0,
                ;
            } else {
                assert(single_exponent(b) == e + 1);
                assert(single_fraction(b) == 0);
                lemma_pow2_unfold(e as nat);
                assert((0x80_0000 + f) * p < 0x80_0000 * (2 * p)) by (nonlinear_arith)
                    requires
                        p > 0,
                        f < 0x80_0000,
                ;
            }
        }
    }
}

/// A binary16 widens to one binary32 only.
pub proof fn lemma_widened_once(half: u16, a: u32, b: u32)
    requires
        widens(half, a),
        widens(half, b),
    ensures
        a == b,
{
    let x = (a as int % 0x8000_0000) as u32;
    let y = (b as int % 0x8000_0000) as u32;
    assert(single_exponent(x) == single_exponent(a) && single_fraction(x) == single_fraction(a));
    assert(single_exponent(y) == single_exponent(b) && single_fraction(y) == single_fraction(b));
    if half_magnitude(half) < 0x7C00 {
        if x < y {
            lemma_single_units_ordered(x, y);
        } else if y < x {
            lemma_single_units_ordered(y, x);
        }
    }
}

/// No two magnitudes are both the nearest to a number.
pub proof fn lemma_nearest_once(units: int, a: int, b: int)
    requires
        0 <= a <= 0x7C00,
        0 <= b <= 0x7C00,
        is_nearest(units, a),
        is_nearest(units, b),
    ensures
        a == b,
{
    if a != b {
        let (low, high) = if a < b {
            (a, b)
        } else {
            (b, a)
        };
        assert(half_distance(units, low) == half_distance(units, high));
        assert(low % 2 == 0 && high % 2 == 0);
        let mid = low + 1;
        assert(half_distance(units, mid) >= half_distance(units, low));
        lemma_half_units_ordered(low, mid);
        lemma_half_units_ordered(mid, high);
        lemma_pow2_pos(125);
        let u = unit_ratio();
        let (l, m, h) = (half_units(low), half_units(mid), half_units(high));
        assert(l * u < m * u && m * u < h * u) by (nonlinear_arith)
            requires
                l < m < h,
                u > 0,
        ;
    }
}

/// A binary32 narrows to one binary16 only.
pub proof fn lemma_narrowed_once(single: u32, a: u16, b: u16)
    requires
        narrows(single, a),
        narrows(single, b),
    ensures
        a == b,
{
}

/// A normal number widens by moving its exponent over and filling up its fraction with zeros.
pub proof fn lemma_widened_normal(half: u16)
    requires
        1024 <= half_magnitude(half) < 0x7C00,
    ensures
        widened(half) == half_sign(half) * 0x8000_0000 + (half_magnitude(half) / 1024 + 112)
            * 0x80_0000 + half_magnitude(half) % 1024 * 0x2000,
{
    lemma_widens_some(half);
    lemma_widens_normal(half);
    let single = compose(
        half_sign(half),
        half_magnitude(half) / 1024 + 112,
        half_magnitude(half) % 1024 * 0x2000,
    );
    lemma_widened_once(half, widened(half), single);
}

/// Binary16 magnitudes are ordered as the numbers they denote.
pub proof fn lemma_half_units_ordered(a: int, b: int)
    requires
        0 <= a < b <= 0x7C00,
    ensures
        half_units(a) < half_units(b),
    decreases b - a,
{
    if a + 1 < b {
        lemma_half_units_ordered(a, b - 1);
        lemma_half_units_ordered(b - 1, b);
    } else {
        let e = a / 1024;
        lemma2_to64();
        if e == 0 {
            if b / 1024 == 1 {
                assert(b % 1024 == 0);
                assert((1024 + 0) * pow2(0) == 1024);
            }
        } else {
            let p = pow2((e - 1) as nat) as int;
            lemma_pow2_pos((e - 1) as nat);
            if b / 1024 == e {
                assert((1024 + a % 1024) * p < (1024 + b % 1024) * p) by (nonlinear_arith)
                    requires
                        p > 0,
                        a % 1024 < b % 1024,
                ;
            } else {
                lemma_pow2_unfold(e as nat);
                assert((1024 + a % 1024) * p < 1024 * (2 * p)) by (nonlinear_arith)
                    requires
                        p > 0,
                        a % 1024 < 1024,
                ;
            }
        }
    }
}

/// A number between two neighbouring magnitudes has the nearer of them as its nearest.
proof fn lemma_nearest_of_neighbours(units: int, low: int, chosen: int)
    requires
        0 <= low < 0x7C00,
        chosen == low || chosen == low + 1,
        half_units(low) * unit_ratio() <= units <= half_units(low + 1) * unit_ratio(),
        chosen == low ==> {
            ||| half_distance(units, low) < half_distance(units, low + 1)
            ||| half_distance(units, low) == half_distance(units, low + 1) && low % 2 == 0
        },
        chosen == low + 1 ==> {
            ||| half_distance(units, low + 1) < half_distance(units, low)
            ||| half_distance(units, low) == half_distance(units, low + 1) && low % 2 == 1
        },
    ensures
        is_nearest(units, chosen),
{
    lemma_pow2_pos(125);
    let u = unit_ratio();
    assert forall|other: int| 0 <= other <= 0x7C00 && other != chosen implies {
        ||| half_distance(units, chosen) < #[trigger] half_distance(units, other)
        ||| half_distance(units, chosen) == half_distance(units, other) && chosen % 2 == 0
    } by {
        if other < low {
            lemma_half_units_ordered(other, low);
            let a = half_units(other);
            let b = half_units(low);
            assert(a * u < b * u) by (nonlinear_arith)
                requires
                    a < b,
                    u > 0,
            ;
        } else if other > low + 1 {
            lemma_half_units_ordered(low + 1, other);
            let a = half_units(low + 1);
            let b = half_units(other);
            assert(a * u < b * u) by (nonlinear_arith)
                requires
                    a < b,
                    u > 0,
            ;
        }
    }
}

/// A number at or above 2^16 has infinity as its nearest.
proof fn lemma_nearest_beyond(units: int)
    requires
        units >= half_units(0x7C00) * unit_ratio(),
    ensures
        is_nearest(units, 0x7C00),
{
    lemma_pow2_pos(125);
    let u = unit_ratio();
    assert forall|other: int| 0 <= other <= 0x7C00 && other != 0x7C00 implies half_distance(
        units,
        0x7C00,
    ) < #[trigger] half_distance(units, other) by {
        lemma_half_units_ordered(other, 0x7C00);
        let a = half_units(other);
        let b = half_units(0x7C00);
        assert(a * u < b * u) by (nonlinear_arith)
            requires
                a < b,
                u > 0,
        ;
    }
}

/// Two to the power of a number from 0 to 31.
fn power_of_two(exponent: u32) -> (power: u32)
    requires
        exponent < 32,
    ensures
        power == pow2(exponent as nat),
{
    let mut power: u32 = 1;
    let mut done: u32 = 0;
    proof {
        lemma2_to64();
    }
    while done < exponent
        invariant
            done <= exponent < 32,
            power == pow2(done as nat),
        decreases exponent - done,
    {
        proof {
            lemma_pow2_unfold((done + 1) as nat);
            lemma2_to64();
            if done + 1 < 31 {
                lemma_pow2_strictly_increases((done + 1) as nat, 31);
            }
        }
        power = power * 2;
        done = done + 1;
    }
    power
}

/// Narrows a binary32 to a binary16, rounding to nearest and ties to even.
///
/// Rounding, not rejection: the definition already said how much precision the field has, and
/// what the ground reads back is the rounded value.
pub fn f32_bits_to_half(single: u32) -> (half: u16)
    ensures
        narrows(single, half),
        half == narrowed(single),
{
    let half = round_to_half(single);
    proof {
        lemma_narrowed_once(single, half, narrowed(single));
    }
    half
}

/// The rounding itself, by exponent.
fn round_to_half(single: u32) -> (half: u16)
    ensures
        narrows(single, half),
{
    let sign: u16 = (single / 0x8000_0000) as u16 * 0x8000;
    let exponent: u32 = single / 0x80_0000 % 256;
    let fraction: u32 = single % 0x80_0000;
    proof {
        lemma2_to64();
        lemma2_to64_rest();
        lemma_pow2_pos(125);
    }
    if exponent == 255 {
        if fraction == 0 {
            return sign + 0x7C00;
        }
        let payload = (fraction / 0x2000) as u16;
        return sign + 0x7C00 + (if payload < 0x0200 {
            payload + 0x0200
        } else {
            payload
        });
    }
    let ghost units = single_units(single);
    if exponent > 142 {
        proof {
            lemma_pow2_adds(30, 125);
            lemma_pow2_adds(10, 30);
            lemma_pow2_adds(23, 142);
            lemma_pow2_adds(40, 125);
            if exponent > 143 {
                lemma_pow2_strictly_increases(142, (exponent - 1) as nat);
            }
            let p = pow2((exponent - 1) as nat) as int;
            let q = pow2(142) as int;
            assert((0x80_0000 + fraction) * p >= 0x80_0000 * q) by (nonlinear_arith)
                requires
                    p >= q,
                    q > 0,
                    fraction >= 0,
            ;
            let a = pow2(30) as int;
            let u = unit_ratio();
            assert(half_units(0x7C00) == 1024 * a);
            assert((1024 * a) * u == pow2(165) as int);
            lemma_nearest_beyond(units);
            lemma_nearest_once(units, 0x7C00, nearest_half(units));
        }
        return sign + 0x7C00;
    }
    if exponent < 102 {
        proof {
            if exponent > 0 {
                let p = pow2((exponent - 1) as nat) as int;
                lemma_pow2_adds(24, (exponent - 1) as nat);
                lemma_pow2_pos((exponent - 1) as nat);
                if exponent < 101 {
                    lemma_pow2_strictly_increases((exponent + 23) as nat, 124);
                }
                assert((0x80_0000 + fraction) * p < 0x100_0000 * p) by (nonlinear_arith)
                    requires
                        p > 0,
                        fraction < 0x80_0000,
                ;
            } else {
                lemma_pow2_strictly_increases(23, 124);
            }
            lemma_pow2_unfold(125);
            let u = unit_ratio();
            assert(half_units(0) == 0);
            assert(half_units(1) == 1);
            assert(0 * u == 0 && 1 * u == u) by (nonlinear_arith);
            lemma_nearest_of_neighbours(units, 0, 0);
            lemma_nearest_once(units, 0, nearest_half(units));
        }
        return sign;
    }
    let significand = fraction + 0x80_0000;
    let ghost scale = pow2((exponent - 1) as nat) as int;
    let (truncated, remainder, step) = if exponent < 113 {
        // Subnormal in binary16: the implicit one becomes explicit and the whole significand
        // moves down.
        let step = power_of_two(126 - exponent);
        proof {
            lemma_pow2_adds((126 - exponent) as nat, (exponent - 1) as nat);
            lemma_pow2_strictly_increases(13, (126 - exponent) as nat);
        }
        (significand / step, significand % step, step)
    } else {
        ((exponent - 112) * 1024 + fraction / 0x2000, fraction % 0x2000, 0x2000)
    };
    let halfway = step / 2;
    let round: u32 = if remainder > halfway || (remainder == halfway && truncated % 2 == 1) {
        1
    } else {
        0
    };
    proof {
        let t = truncated as int;
        let u = unit_ratio();
        let st = step as int;
        let rem = remainder as int;
        lemma_pow2_pos((exponent - 1) as nat);
        assert(scale > 0);
        lemma_step(single, t, rem, st);
        let low = half_units(t) * u;
        let high = half_units(t + 1) * u;
        assert(units == low + rem * scale);
        assert(high == low + st * scale);
        assert(rem * scale < st * scale) by (nonlinear_arith)
            requires
                rem < st,
                scale > 0,
        ;
        assert(rem * scale >= 0) by (nonlinear_arith)
            requires
                rem >= 0,
                scale > 0,
        ;
        assert(2 * halfway == st);
        let hw = halfway as int;
        assert(st * scale == 2 * (hw * scale)) by (nonlinear_arith)
            requires
                st == 2 * hw,
        ;
        if rem > hw {
            assert(rem * scale > hw * scale) by (nonlinear_arith)
                requires
                    rem > hw,
                    scale > 0,
            ;
        } else if rem < hw {
            assert(rem * scale < hw * scale) by (nonlinear_arith)
                requires
                    rem < hw,
                    scale > 0,
            ;
        }
        lemma_nearest_of_neighbours(units, t, t + round);
        lemma_nearest_once(units, t + round, nearest_half(units));
    }
    sign + (truncated + round) as u16
}

/// What the truncated magnitude of a binary32 leaves over, and how far its neighbour is.
proof fn lemma_step(single: u32, truncated: int, remainder: int, step: int)
    requires
        102 <= single_exponent(single) <= 142,
        single_exponent(single) < 113 ==> {
            &&& step == pow2((126 - single_exponent(single)) as nat)
            &&& truncated == (0x80_0000 + single_fraction(single)) / step
            &&& remainder == (0x80_0000 + single_fraction(single)) % step
        },
        single_exponent(single) >= 113 ==> {
            &&& step == 0x2000
            &&& truncated == (single_exponent(single) - 112) * 1024 + single_fraction(single)
                / 0x2000
            &&& remainder == single_fraction(single) % 0x2000
        },
    ensures
        0 <= truncated < 0x7C00,
        0 <= remainder < step,
        step % 2 == 0,
        single_units(single) == half_units(truncated) * unit_ratio() + remainder * pow2(
            (single_exponent(single) - 1) as nat,
        ),
        half_units(truncated + 1) * unit_ratio() == half_units(truncated) * unit_ratio() + step
            * pow2((single_exponent(single) - 1) as nat),
{
    let e = single_exponent(single);
    let s = 0x80_0000 + single_fraction(single);
    let scale = pow2((e - 1) as nat) as int;
    let u = unit_ratio();
    lemma2_to64();
    if e < 113 {
        lemma_pow2_adds((126 - e) as nat, (e - 1) as nat);
        lemma_pow2_unfold((126 - e) as nat);
        if e < 112 {
            lemma_pow2_strictly_increases(14, (126 - e) as nat);
        }
        assert(step >= 0x4000);
        vstd::arithmetic::div_mod::lemma_fundamental_div_mod(s, step);
        assert(truncated < 1024) by (nonlinear_arith)
            requires
                s == step * truncated + remainder,
                s < 0x100_0000,
                step >= 0x4000,
                remainder >= 0,
        ;
        assert(truncated >= 0) by (nonlinear_arith)
            requires
                s == step * truncated + remainder,
                s >= 0,
                remainder < step,
                step > 0,
        ;
        assert(u == step * scale);
        assert(half_units(truncated) == truncated);
        assert(half_units(truncated + 1) == truncated + 1) by {
            if truncated == 1023 {
                assert(1024int * pow2(0) == 1024);
            }
        }
        assert(s * scale == truncated * (step * scale) + remainder * scale) by (nonlinear_arith)
            requires
                s == step * truncated + remainder,
        ;
        assert((truncated + 1) * u == truncated * u + step * scale) by (nonlinear_arith)
            requires
                u == step * scale,
        ;
    } else {
        let te = e - 112;
        let tf = single_fraction(single) / 0x2000;
        let p = pow2((te - 1) as nat) as int;
        lemma_pow2_adds((te - 1) as nat, 125);
        lemma_pow2_adds(13, (e - 1) as nat);
        assert(p * u == 0x2000 * scale);
        assert(truncated / 1024 == te);
        assert(truncated % 1024 == tf);
        let m = 1024 + tf;
        assert(half_units(truncated) == m * p);
        assert(s == m * 0x2000 + remainder);
        assert(s * scale == (m * p) * u + remainder * scale) by (nonlinear_arith)
            requires
                s == m * 0x2000 + remainder,
                p * u == 0x2000 * scale,
        ;
        assert(half_units(truncated + 1) == (m + 1) * p) by {
            if tf == 1023 {
                lemma_pow2_unfold(te as nat);
                assert((truncated + 1) / 1024 == te + 1);
                assert(1024 * (2 * p) == (m + 1) * p) by (nonlinear_arith)
                    requires
                        m == 2047,
                ;
            }
        }
        assert(((m + 1) * p) * u == (m * p) * u + 0x2000 * scale) by (nonlinear_arith)
            requires
                p * u == 0x2000 * scale,
        ;
    }
}

/// Widening a binary16 and narrowing it again gives it back. The one exception is a signalling
/// NaN, which comes back quiet.
pub proof fn lemma_half_round_trip(half: u16)
    requires
        half_magnitude(half) <= 0x7C00 || half_magnitude(half) >= 0x7E00,
    ensures
        narrowed(widened(half)) == half,
{
    lemma_widens_some(half);
    let single = widened(half);
    let m = half_magnitude(half);
    lemma_pow2_pos(125);
    let u = unit_ratio();
    if m < 0x7C00 {
        let n = half_units(m);
        assert(is_nearest(n * u, m)) by {
            assert forall|other: int| 0 <= other <= 0x7C00 && other != m implies half_distance(
                n * u,
                m,
            ) < #[trigger] half_distance(n * u, other) by {
                if other < m {
                    lemma_half_units_ordered(other, m);
                } else {
                    lemma_half_units_ordered(m, other);
                }
                let o = half_units(other);
                assert(n * u != o * u) by (nonlinear_arith)
                    requires
                        n != o,
                        u > 0,
                ;
            }
        }
        lemma_nearest_once(n * u, m, nearest_half(n * u));
    }
    assert(narrows(single, half));
    lemma_narrowed_once(single, half, narrowed(single));
}

} // verus!
