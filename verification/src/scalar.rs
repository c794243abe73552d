//! Integers and the bits that carry them: signed codings, ranges and byte order.

use vstd::arithmetic::div_mod::*;
use vstd::arithmetic::power2::*;
use vstd::bits::*;
use vstd::prelude::*;

use crate::bits::{mask_for, mask_value, natural_bits, natural_width};
use crate::plan::IntegerCoding;

verus! {

// ---------------------------------------------------------------------------------------
// Signed codings
// ---------------------------------------------------------------------------------------

/// Whether a signed value can be written in `width` bits of a coding.
///
/// Sign-magnitude and ones' complement spend a bit on the sign and have two zeros, so their
/// range is symmetric and one short of two's complement at the bottom. A field without a sign bit
/// has no negative values, unless it is exactly as wide as its Rust type and read through it.
pub open spec fn signed_fits(coding: IntegerCoding, width: int, value: int) -> bool {
    let half = pow2((width - 1) as nat) as int;
    match coding {
        IntegerCoding::Unsigned => if width == natural_width(width) {
            -half <= value < half
        } else {
            0 <= value < half
        },
        IntegerCoding::TwosComplement => -half <= value < half,
        IntegerCoding::SignMagnitude | IntegerCoding::OnesComplement => -half < value < half,
    }
}

/// The bits a signed value becomes.
pub open spec fn signed_raw(coding: IntegerCoding, width: int, value: int) -> int {
    if value >= 0 {
        value
    } else {
        match coding {
            IntegerCoding::Unsigned | IntegerCoding::TwosComplement => value + pow2(width as nat),
            IntegerCoding::SignMagnitude => pow2((width - 1) as nat) - value,
            IntegerCoding::OnesComplement => pow2(width as nat) - 1 + value,
        }
    }
}

/// The number that `width` bits mean under a coding.
///
/// A field without a sign bit that is exactly as wide as its Rust type is read through that
/// type, which is a signed one.
pub open spec fn signed_value(coding: IntegerCoding, width: int, raw: int) -> int {
    let negative = raw >= pow2((width - 1) as nat);
    if !negative {
        raw
    } else {
        match coding {
            IntegerCoding::Unsigned => if width == natural_width(width) {
                raw - pow2(width as nat)
            } else {
                raw
            },
            IntegerCoding::TwosComplement => raw - pow2(width as nat),
            IntegerCoding::SignMagnitude => pow2((width - 1) as nat) - raw,
            IntegerCoding::OnesComplement => raw - (pow2(width as nat) - 1),
        }
    }
}

/// Powers of two that a width of 1 to 64 bits stands between.
pub proof fn lemma_width_powers(width: int)
    requires
        1 <= width <= 64,
    ensures
        pow2(width as nat) == 2 * pow2((width - 1) as nat),
        1 <= pow2((width - 1) as nat) <= 0x8000_0000_0000_0000,
        2 <= pow2(width as nat) <= 0x1_0000_0000_0000_0000,
        mask_value(width) == pow2(width as nat) - 1,
{
    lemma_pow2_unfold(width as nat);
    lemma_pow2_pos((width - 1) as nat);
    lemma2_to64();
    lemma2_to64_rest();
    if width < 64 {
        lemma_pow2_strictly_increases((width - 1) as nat, 63);
    }
}

/// A value that fits becomes bits of its width.
pub proof fn lemma_signed_raw_bound(coding: IntegerCoding, width: int, value: int)
    requires
        1 <= width <= 64,
        signed_fits(coding, width, value),
    ensures
        0 <= signed_raw(coding, width, value) < pow2(width as nat),
{
    lemma_width_powers(width);
}

/// Reading a signed value's bits gives the value back.
pub proof fn lemma_signed_inverse(coding: IntegerCoding, width: int, value: int)
    requires
        1 <= width <= 64,
        signed_fits(coding, width, value),
    ensures
        signed_value(coding, width, signed_raw(coding, width, value)) == value,
{
    lemma_width_powers(width);
}

/// The magnitude of a signed integer.
pub fn magnitude(value: i64) -> (abs: u64)
    ensures
        abs == if value < 0 {
            -value
        } else {
            value as int
        },
{
    if value < 0 {
        (-(value + 1)) as u64 + 1
    } else {
        value as u64
    }
}

/// Whether `value` can be written in `width` bits of `coding`.
pub fn check_signed(coding: IntegerCoding, width: u32, value: i64) -> (fits: bool)
    requires
        1 <= width <= 64,
    ensures
        fits == signed_fits(coding, width as int, value as int),
{
    let largest = mask_for(width - 1);
    proof {
        lemma_width_powers(width as int);
    }
    match coding {
        IntegerCoding::Unsigned if width != natural_bits(width) => {
            value >= 0 && value as u64 <= largest
        },
        IntegerCoding::Unsigned | IntegerCoding::TwosComplement => {
            if value < 0 {
                magnitude(value) - 1 <= largest
            } else {
                value as u64 <= largest
            }
        },
        IntegerCoding::SignMagnitude | IntegerCoding::OnesComplement => {
            magnitude(value) <= largest
        },
    }
}

/// The bits that a signed value becomes.
pub fn raw_from_signed(coding: IntegerCoding, width: u32, value: i64) -> (raw: u64)
    requires
        1 <= width <= 64,
        signed_fits(coding, width as int, value as int),
    ensures
        raw == signed_raw(coding, width as int, value as int),
        raw < pow2(width as nat),
{
    proof {
        lemma_width_powers(width as int);
        lemma_signed_raw_bound(coding, width as int, value as int);
    }
    if value >= 0 {
        return value as u64;
    }
    let mask = mask_for(width);
    let abs = magnitude(value);
    match coding {
        IntegerCoding::Unsigned | IntegerCoding::TwosComplement => mask - (abs - 1),
        IntegerCoding::SignMagnitude => mask_for(width - 1) + 1 + abs,
        IntegerCoding::OnesComplement => mask - abs,
    }
}

/// The number that bits mean under one of the signed codings.
pub fn signed_from_raw(coding: IntegerCoding, width: u32, raw: u64) -> (value: i64)
    requires
        1 <= width <= 64,
        raw < pow2(width as nat),
    ensures
        value == signed_value(coding, width as int, raw as int),
{
    proof {
        lemma_width_powers(width as int);
    }
    let largest = mask_for(width - 1);
    if raw <= largest {
        return raw as i64;
    }
    let mask = mask_for(width);
    match coding {
        IntegerCoding::Unsigned => {
            if width == natural_bits(width) {
                -((mask - raw) as i64) - 1
            } else {
                proof {
                    lemma2_to64_rest();
                    lemma_pow2_strictly_increases(width as nat, 64);
                    assert(pow2(width as nat) <= pow2(63)) by {
                        if width < 63 {
                            lemma_pow2_strictly_increases(width as nat, 63);
                        }
                    }
                }
                raw as i64
            }
        },
        IntegerCoding::TwosComplement => -((mask - raw) as i64) - 1,
        IntegerCoding::SignMagnitude => -((raw - largest - 1) as i64),
        IntegerCoding::OnesComplement => -((mask - raw) as i64),
    }
}

// ---------------------------------------------------------------------------------------
// Byte order
// ---------------------------------------------------------------------------------------

/// The number that bytes spell, most significant first.
pub open spec fn bytes_value(bytes: Seq<u8>) -> nat
    decreases bytes.len(),
{
    if bytes.len() == 0 {
        0
    } else {
        256 * bytes_value(bytes.drop_last()) + bytes.last() as nat
    }
}

/// A number as `count` bytes, most significant first.
pub open spec fn value_bytes(value: nat, count: nat) -> Seq<u8>
    decreases count,
{
    if count == 0 {
        Seq::empty()
    } else {
        value_bytes(value / 256, (count - 1) as nat).push((value % 256) as u8)
    }
}

/// A number of `count` bytes with its bytes the other way round.
pub open spec fn reversed(value: nat, count: nat) -> nat {
    bytes_value(value_bytes(value, count).reverse())
}

/// Two to the power of eight times a number of bytes, one byte more.
proof fn lemma_pow2_byte(count: nat)
    ensures
        pow2((8 * (count + 1)) as nat) == 256 * pow2((8 * count) as nat),
{
    lemma2_to64();
    lemma_pow2_adds((8 * count) as nat, 8);
}

/// Bytes spell a number that fits them.
pub proof fn lemma_bytes_value_bound(bytes: Seq<u8>)
    ensures
        bytes_value(bytes) < pow2((8 * bytes.len()) as nat),
    decreases bytes.len(),
{
    lemma2_to64();
    if bytes.len() > 0 {
        lemma_bytes_value_bound(bytes.drop_last());
        lemma_pow2_byte((bytes.len() - 1) as nat);
    }
}

/// How many bytes a number is written as.
pub proof fn lemma_value_bytes_len(value: nat, count: nat)
    ensures
        value_bytes(value, count).len() == count,
    decreases count,
{
    if count > 0 {
        lemma_value_bytes_len(value / 256, (count - 1) as nat);
    }
}

/// The bytes of a number spell it, where it fits them.
pub proof fn lemma_value_bytes_inverse(value: nat, count: nat)
    requires
        value < pow2((8 * count) as nat),
    ensures
        bytes_value(value_bytes(value, count)) == value,
    decreases count,
{
    lemma2_to64();
    lemma_value_bytes_len(value, count);
    if count > 0 {
        lemma_pow2_byte((count - 1) as nat);
        lemma_value_bytes_inverse(value / 256, (count - 1) as nat);
        assert(value_bytes(value, count).drop_last() =~= value_bytes(
            value / 256,
            (count - 1) as nat,
        ));
    }
}

/// The number that bytes spell has those bytes.
pub proof fn lemma_bytes_value_inverse(bytes: Seq<u8>)
    ensures
        value_bytes(bytes_value(bytes), bytes.len()) == bytes,
    decreases bytes.len(),
{
    if bytes.len() > 0 {
        lemma_bytes_value_inverse(bytes.drop_last());
        let rest = bytes_value(bytes.drop_last());
        assert(bytes_value(bytes) / 256 == rest);
        assert(bytes_value(bytes) % 256 == bytes.last());
        assert(bytes.drop_last().push(bytes.last()) =~= bytes);
    } else {
        assert(value_bytes(0, 0) =~= bytes);
    }
}

/// Reversing the bytes of a number twice gives it back: the reversal is its own inverse, which
/// is what makes a little-endian field of whole bytes writable.
pub proof fn lemma_reversal_is_its_own_inverse(value: nat, count: nat)
    requires
        value < pow2((8 * count) as nat),
    ensures
        reversed(reversed(value, count), count) == value,
        reversed(value, count) < pow2((8 * count) as nat),
{
    let bytes = value_bytes(value, count);
    lemma_value_bytes_len(value, count);
    lemma_value_bytes_inverse(value, count);
    lemma_bytes_value_inverse(bytes.reverse());
    lemma_bytes_value_bound(bytes.reverse());
    assert(bytes.reverse().reverse() =~= bytes);
}

/// The first byte of a number, taken off the front of the rest.
proof fn lemma_value_bytes_front(value: nat, count: nat)
    requires
        count > 0,
    ensures
        value_bytes(value, count).reverse() =~= seq![(value % 256) as u8] + value_bytes(
            value / 256,
            (count - 1) as nat,
        ).reverse(),
{
    lemma_value_bytes_len(value, count);
    lemma_value_bytes_len(value / 256, (count - 1) as nat);
}

/// Puts the bytes of a number of `count` bytes the other way round.
pub fn reverse_bytes(value: u64, count: u32) -> (swapped: u64)
    requires
        1 <= count <= 8,
        value < pow2((8 * count) as nat),
    ensures
        swapped == reversed(value as nat, count as nat),
        swapped < pow2((8 * count) as nat),
{
    let mut rest = value;
    let mut swapped: u64 = 0;
    let mut left = count;
    let ghost all = value_bytes(value as nat, count as nat).reverse();
    proof {
        lemma_value_bytes_len(value as nat, count as nat);
        lemma_bytes_value_bound(all);
        assert(seq![].add(all) =~= all);
    }
    let ghost mut done: Seq<u8> = Seq::empty();
    while left > 0
        invariant
            left <= count <= 8,
            done.len() == count - left,
            swapped == bytes_value(done),
            all == done + value_bytes(rest as nat, left as nat).reverse(),
            all == value_bytes(value as nat, count as nat).reverse(),
            all.len() == count,
        decreases left,
    {
        proof {
            let next = done.push((rest % 256) as u8);
            lemma_value_bytes_front(rest as nat, left as nat);
            lemma_value_bytes_len(rest as nat / 256, (left - 1) as nat);
            assert(next.drop_last() =~= done);
            assert(all =~= next + value_bytes(rest as nat / 256, (left - 1) as nat).reverse());
            lemma_bytes_value_bound(next);
            lemma2_to64_rest();
            if next.len() < 8 {
                lemma_pow2_strictly_increases((8 * next.len()) as nat, 64);
            }
            done = next;
        }
        swapped = swapped * 256 + rest % 256;
        rest = rest / 256;
        left = left - 1;
    }
    proof {
        assert(all =~= done);
        lemma_bytes_value_bound(done);
    }
    swapped
}

/// Bytes followed by zero bytes spell the number moved up.
proof fn lemma_bytes_value_zeros(bytes: Seq<u8>, zeros: nat)
    ensures
        bytes_value(bytes + Seq::new(zeros, |i: int| 0u8)) == bytes_value(bytes) * pow2(
            (8 * zeros) as nat,
        ),
    decreases zeros,
{
    lemma2_to64();
    let tail = Seq::new(zeros, |i: int| 0u8);
    if zeros == 0 {
        assert(bytes + tail =~= bytes);
        assert(pow2((8 * zeros) as nat) == 1);
    } else {
        let shorter = Seq::new((zeros - 1) as nat, |i: int| 0u8);
        assert((bytes + tail).drop_last() =~= bytes + shorter);
        lemma_bytes_value_zeros(bytes, (zeros - 1) as nat);
        lemma_pow2_byte((zeros - 1) as nat);
        let v = bytes_value(bytes) as int;
        let p = pow2((8 * (zeros - 1)) as nat) as int;
        assert(256 * (v * p) == v * (256 * p)) by (nonlinear_arith);
    }
}

/// A number that fits in fewer bytes has zero bytes in front.
proof fn lemma_value_bytes_zeros(value: nat, count: nat, zeros: nat)
    requires
        value < pow2((8 * count) as nat),
    ensures
        value_bytes(value, count + zeros) == Seq::new(zeros, |i: int| 0u8) + value_bytes(
            value,
            count,
        ),
    decreases count,
{
    lemma2_to64();
    lemma_value_bytes_len(value, count);
    lemma_value_bytes_len(value, count + zeros);
    if count == 0 {
        lemma_value_bytes_of_zero(zeros);
        assert(Seq::new(zeros, |i: int| 0u8) + value_bytes(value, 0) =~= Seq::new(
            zeros,
            |i: int| 0u8,
        ));
    } else {
        lemma_pow2_byte((count - 1) as nat);
        lemma_value_bytes_zeros(value / 256, (count - 1) as nat, zeros);
        lemma_value_bytes_len(value / 256, (count - 1) as nat);
        assert(value_bytes(value, count + zeros) =~= Seq::new(zeros, |i: int| 0u8) + value_bytes(
            value,
            count,
        ));
    }
}

/// Zero is written as zero bytes.
proof fn lemma_value_bytes_of_zero(count: nat)
    ensures
        value_bytes(0, count) =~= Seq::new(count, |i: int| 0u8),
    decreases count,
{
    if count > 0 {
        lemma_value_bytes_of_zero((count - 1) as nat);
    }
}

/// The bytes of a field the other way round, as the flight code does it: reverse the whole Rust
/// integer, and let the bytes above the field fall off.
pub open spec fn swapped(raw: int, width: int) -> int {
    let natural = natural_width(width);
    reversed((raw % (pow2(natural as nat) as int)) as nat, (natural / 8) as nat) as int / (pow2(
        (natural - width) as nat,
    ) as int)
}

/// On a value that fits its whole bytes, that is the reversal of those bytes.
pub proof fn lemma_swapped(raw: int, width: int)
    requires
        8 <= width <= 64,
        width % 8 == 0,
        0 <= raw < pow2(width as nat),
    ensures
        swapped(raw, width) == reversed(raw as nat, (width / 8) as nat),
        0 <= swapped(raw, width) < pow2(width as nat),
        swapped(swapped(raw, width), width) == raw,
{
    lemma_swapped_once(raw, width);
    let count = (width / 8) as nat;
    assert(8 * count == width);
    lemma_reversal_is_its_own_inverse(raw as nat, count);
    lemma_swapped_once(swapped(raw, width), width);
}

proof fn lemma_swapped_once(raw: int, width: int)
    requires
        8 <= width <= 64,
        width % 8 == 0,
        0 <= raw < pow2(width as nat),
    ensures
        swapped(raw, width) == reversed(raw as nat, (width / 8) as nat),
{
    let natural = natural_width(width);
    let count = (width / 8) as nat;
    let zeros = ((natural - width) / 8) as nat;
    assert(8 * count == width);
    assert(8 * zeros == natural - width);
    if width < natural {
        lemma_pow2_strictly_increases(width as nat, natural as nat);
    }
    lemma_small_mod(raw as nat, pow2(natural as nat));
    lemma_value_bytes_zeros(raw as nat, count, zeros);
    lemma_value_bytes_len(raw as nat, count);
    let bytes = value_bytes(raw as nat, count);
    let pad = Seq::new(zeros, |i: int| 0u8);
    assert((pad + bytes).reverse() =~= bytes.reverse() + pad);
    lemma_bytes_value_zeros(bytes.reverse(), zeros);
    assert(count + zeros == natural / 8);
    lemma_pow2_pos((natural - width) as nat);
    let v = reversed(raw as nat, count) as int;
    let p = pow2((natural - width) as nat) as int;
    lemma_div_multiples_vanish(v, p);
    assert(v * p == p * v) by (nonlinear_arith);
}

/// Puts a field's bytes the other way round.
pub fn swap_field_bytes(raw: u64, width: u32) -> (result: u64)
    requires
        1 <= width <= 64,
    ensures
        result == swapped(raw as int, width as int),
{
    let natural = natural_bits(width);
    let mask = mask_for(natural);
    proof {
        lemma2_to64();
        lemma2_to64_rest();
        lemma_pow2_pos((natural - width) as nat);
        if natural < 64 {
            lemma_u64_low_bits_mask_is_mod(raw, natural as nat);
        } else {
            assert(raw & 0xffff_ffff_ffff_ffffu64 == raw) by (bit_vector);
            lemma_small_mod(raw as nat, pow2(64));
        }
        lemma_mod_pos_bound(raw as int, pow2(natural as nat) as int);
        assert(8 * (natural / 8) == natural);
    }
    let low = raw & mask;
    assert(low == raw as int % (pow2(natural as nat) as int));
    let whole = reverse_bytes(low, natural / 8);
    let shift = natural - width;
    proof {
        lemma_u64_shr_is_div(whole, shift as u64);
    }
    whole >> (shift as u64)
}

} // verus!
