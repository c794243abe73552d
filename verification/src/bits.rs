//! Runs of bits inside a packet: where they sit, how they are read, how they are written.
//!
//! A packet is a sequence of bytes read most significant bit first. A run of `width` bits
//! that starts at bit `offset` touches between one and nine bytes, and [`bit_plan`] works out
//! which ones, by how much the value is shifted inside them, and how wide an accumulator has to
//! be so that nothing is lost. The flight code renders that plan as literals; [`read_bits`] and
//! [`write_bits`] run it.

use vstd::arithmetic::div_mod::*;
use vstd::arithmetic::mul::*;
use vstd::arithmetic::power2::*;
use vstd::bits::*;
use vstd::prelude::*;

verus! {

/// Bit `i` of a packet, counted from the most significant bit of its first byte.
pub open spec fn bit(data: Seq<u8>, i: int) -> bool {
    (data[i / 8] >> ((7 - i % 8) as u8)) & 1u8 == 1u8
}

/// The number that `width` bits from `offset` spell, most significant bit first.
pub open spec fn number(data: Seq<u8>, offset: int, width: nat) -> nat
    decreases width,
{
    if width == 0 {
        0
    } else {
        2 * number(data, offset, (width - 1) as nat) + if bit(data, offset + width - 1) {
            1nat
        } else {
            0nat
        }
    }
}

/// Bit `k` of a value, counted from its least significant bit.
pub open spec fn value_bit(value: u64, k: int) -> bool {
    0 <= k < 64 && (value >> (k as u64)) & 1u64 == 1u64
}

/// The bytes a run of bits touches, and how its value lies in them.
pub struct BitPlan {
    /// The first byte touched.
    pub first: usize,
    /// How many bytes are touched.
    pub span: usize,
    /// The size in bytes of the narrowest integer that covers the span.
    pub slots: usize,
    /// Bytes of that integer above the span.
    pub pad: usize,
    /// How far the value sits above the last bit of the span.
    pub shift: u32,
    /// Whether the run owns every bit of the bytes it touches.
    pub whole: bool,
}

/// How many bytes a run touches.
pub open spec fn span_of(offset: int, width: int) -> int {
    (offset + width - 1) / 8 - offset / 8 + 1
}

/// The size in bytes of the narrowest unsigned integer of at least `span` bytes.
pub open spec fn slots_of(span: int) -> int {
    if span <= 1 {
        1
    } else if span <= 2 {
        2
    } else if span <= 4 {
        4
    } else if span <= 8 {
        8
    } else {
        16
    }
}

/// How many bits of the last byte lie below a run.
pub open spec fn shift_of(offset: int, width: int) -> int {
    8 * span_of(offset, width) - offset % 8 - width
}

/// Whether a run starts on a byte and ends on one.
pub open spec fn is_whole(offset: int, width: int) -> bool {
    offset % 8 == 0 && width % 8 == 0
}

impl BitPlan {
    /// What [`bit_plan`] computes for a run.
    pub open spec fn describes(self, offset: int, width: int) -> bool {
        &&& self.first == offset / 8
        &&& self.span == span_of(offset, width)
        &&& self.slots == slots_of(self.span as int)
        &&& self.pad == self.slots - self.span
        &&& self.shift == shift_of(offset, width)
        &&& self.whole == is_whole(offset, width)
    }
}

/// Plans the access to `width` bits at `offset`.
///
/// The value, shifted into place, fits the accumulator: nine bytes are reached by a 64-bit run
/// one bit off a boundary, and then the accumulator is sixteen bytes wide.
pub fn bit_plan(offset: usize, width: u32) -> (plan: BitPlan)
    requires
        1 <= width <= 64,
        offset + width <= usize::MAX,
    ensures
        plan.describes(offset as int, width as int),
        1 <= plan.span <= 9,
        plan.span <= plan.slots <= 16,
        plan.shift < 8,
        width + plan.shift <= 8 * plan.span,
        8 * (plan.first + plan.span) - plan.shift == offset + width,
        plan.whole ==> plan.shift == 0 && width == 8 * plan.span,
{
    let first = offset / 8;
    let last = (offset + width as usize - 1) / 8;
    let span = last - first + 1;
    let bit_in_byte = (offset % 8) as u32;
    let slots: usize = if span <= 1 {
        1
    } else if span <= 2 {
        2
    } else if span <= 4 {
        4
    } else if span <= 8 {
        8
    } else {
        16
    };
    let shift = (span as u32) * 8 - bit_in_byte - width;
    BitPlan {
        first,
        span,
        slots,
        pad: slots - span,
        shift,
        whole: shift == 0 && width == (span as u32) * 8,
    }
}

/// The low `width` bits set.
pub fn mask_for(width: u32) -> (mask: u64)
    ensures
        mask == mask_value(width as int),
{
    if width >= 64 {
        proof {
            lemma2_to64_rest();
        }
        u64::MAX
    } else {
        proof {
            lemma_u64_pow2_no_overflow(width as nat);
            lemma_u64_shl_is_mul(1, width as u64);
        }
        (1u64 << width) - 1
    }
}

/// The largest number of `width` bits, or of 64 where the width is larger.
pub open spec fn mask_value(width: int) -> int {
    if width >= 64 {
        u64::MAX as int
    } else {
        pow2(width as nat) - 1
    }
}

/// The width of the Rust integer that holds `bits` bits.
pub fn natural_bits(bits: u32) -> (natural: u32)
    ensures
        natural == natural_width(bits as int),
{
    if bits <= 8 {
        8
    } else if bits <= 16 {
        16
    } else if bits <= 32 {
        32
    } else {
        64
    }
}

/// The narrowest of 8, 16, 32 and 64 that is not below `bits`, or 64.
pub open spec fn natural_width(bits: int) -> int {
    if bits <= 8 {
        8
    } else if bits <= 16 {
        16
    } else if bits <= 32 {
        32
    } else {
        64
    }
}

// ---------------------------------------------------------------------------------------
// Reading
// ---------------------------------------------------------------------------------------

/// A number of `width` bits is below two to that power.
pub proof fn lemma_number_bound(data: Seq<u8>, offset: int, width: nat)
    ensures
        number(data, offset, width) < pow2(width),
    decreases width,
{
    if width == 0 {
        lemma2_to64();
    } else {
        lemma_number_bound(data, offset, (width - 1) as nat);
        lemma_pow2_unfold(width);
    }
}

/// A run splits into a high part and a low part.
pub proof fn lemma_number_split(data: Seq<u8>, offset: int, high: nat, low: nat)
    ensures
        number(data, offset, high + low) == number(data, offset, high) * pow2(low) + number(
            data,
            offset + high,
            low,
        ),
    decreases low,
{
    if low == 0 {
        lemma2_to64();
    } else {
        lemma_number_split(data, offset, high, (low - 1) as nat);
        lemma_pow2_unfold(low);
        let h = number(data, offset, high) as int;
        let p = pow2((low - 1) as nat) as int;
        assert(2 * (h * p) == h * (2 * p)) by (nonlinear_arith);
        assert(offset + high + low - 1 == offset + (high + low) - 1);
    }
}

/// Runs that carry the same bits spell the same number.
pub proof fn lemma_number_same(a: Seq<u8>, b: Seq<u8>, offset: int, width: nat)
    requires
        forall|i: int| offset <= i < offset + width ==> bit(a, i) == bit(b, i),
    ensures
        number(a, offset, width) == number(b, offset, width),
    decreases width,
{
    if width > 0 {
        lemma_number_same(a, b, offset, (width - 1) as nat);
    }
}

/// Eight bits from a byte boundary spell the byte.
pub proof fn lemma_number_byte(data: Seq<u8>, index: int)
    requires
        0 <= index < data.len(),
    ensures
        number(data, 8 * index, 8) == data[index],
{
    let b = data[index];
    reveal_with_fuel(number, 9);
    assert forall|r: int| 0 <= r < 8 implies (#[trigger] bit(data, 8 * index + r)) == ((b >> ((7
        - r) as u8)) & 1u8 == 1u8) by {
        assert((8 * index + r) / 8 == index);
        assert((8 * index + r) % 8 == r);
    }
    assert(bit(data, 8 * index + 0) == ((b >> 7u8) & 1u8 == 1u8));
    assert(bit(data, 8 * index + 1) == ((b >> 6u8) & 1u8 == 1u8));
    assert(bit(data, 8 * index + 2) == ((b >> 5u8) & 1u8 == 1u8));
    assert(bit(data, 8 * index + 3) == ((b >> 4u8) & 1u8 == 1u8));
    assert(bit(data, 8 * index + 4) == ((b >> 3u8) & 1u8 == 1u8));
    assert(bit(data, 8 * index + 5) == ((b >> 2u8) & 1u8 == 1u8));
    assert(bit(data, 8 * index + 6) == ((b >> 1u8) & 1u8 == 1u8));
    assert(bit(data, 8 * index + 7) == ((b >> 0u8) & 1u8 == 1u8));
    assert(b == 128 * ((b >> 7u8) & 1u8) + 64 * ((b >> 6u8) & 1u8) + 32 * ((b >> 5u8) & 1u8) + 16
        * ((b >> 4u8) & 1u8) + 8 * ((b >> 3u8) & 1u8) + 4 * ((b >> 2u8) & 1u8) + 2 * ((b >> 1u8)
        & 1u8) + ((b >> 0u8) & 1u8)) by (bit_vector);
    assert(forall|k: u8| k < 8 ==> (#[trigger] (b >> k)) & 1u8 == 0u8 || (b >> k) & 1u8 == 1u8)
        by (bit_vector);
}

/// Reads `width` bits at `offset`.
pub fn read_bits(data: &[u8], offset: usize, width: u32) -> (value: u64)
    requires
        1 <= width <= 64,
        offset + width <= usize::MAX,
        offset + width <= 8 * data@.len(),
    ensures
        value == number(data@, offset as int, width as nat),
        value < pow2(width as nat),
{
    let plan = bit_plan(offset, width);
    let ghost from = 8 * plan.first;
    let mut load: u128 = 0;
    let mut index: usize = 0;
    proof {
        lemma2_to64();
        lemma2_to64_rest();
    }
    while index < plan.span
        invariant
            plan.span <= 9,
            index <= plan.span,
            from == 8 * plan.first,
            plan.first + plan.span <= data.len(),
            load == number(data@, from as int, (8 * index) as nat),
            load < pow2((8 * index) as nat),
        decreases plan.span - index,
    {
        let byte = data[plan.first + index];
        proof {
            lemma_number_split(data@, from as int, (8 * index) as nat, 8);
            lemma_number_byte(data@, (plan.first + index) as int);
            lemma_number_bound(data@, from as int, (8 * (index + 1)) as nat);
            lemma2_to64();
            lemma_pow2_adds((8 * index) as nat, 8);
            assert(pow2((8 * index) as nat) <= pow2(64)) by {
                if index < 8 {
                    lemma_pow2_strictly_increases((8 * index) as nat, 64);
                }
            }
            lemma2_to64_rest();
        }
        load = load * 256 + byte as u128;
        index = index + 1;
    }
    let shifted = load >> (plan.shift as u128);
    let mask = mask_for(width);
    proof {
        let shift = plan.shift as nat;
        let w = width as nat;
        let high = (offset % 8) as nat;
        lemma_u128_shr_is_div(load, plan.shift as u128);
        lemma_number_split(data@, from as int, high, (w + shift) as nat);
        lemma_number_split(data@, offset as int, w, shift);
        lemma_number_bound(data@, offset + w, shift);
        lemma_number_bound(data@, offset as int, w);
        lemma_pow2_pos(shift);
        lemma_pow2_pos(w);
        lemma_pow2_adds(w, shift);
        let a = number(data@, from as int, high) as int;
        let v = number(data@, offset as int, w) as int;
        let r = number(data@, offset + w, shift) as int;
        let ps = pow2(shift) as int;
        let pw = pow2(w) as int;
        assert(load == a * (pw * ps) + (v * ps + r));
        assert(load as int == (a * pw + v) * ps + r) by (nonlinear_arith)
            requires
                load == a * (pw * ps) + (v * ps + r),
        ;
        lemma_fundamental_div_mod_converse(load as int, ps, a * pw + v, r);
        assert(shifted as int == a * pw + v);
        lemma_mod_multiples_vanish(a, v, pw);
        assert(a * pw + v == pw * a + v) by (nonlinear_arith);
        lemma_small_mod(v as nat, pw as nat);
        assert(shifted as int % pw == v);
    }
    let low = (shifted & 0xffff_ffff_ffff_ffffu128) as u64;
    proof {
        let pw = pow2(width as nat) as int;
        let whole: u128 = shifted;
        assert(whole & 0xffff_ffff_ffff_ffffu128 == whole % 0x1_0000_0000_0000_0000u128)
            by (bit_vector);
        lemma2_to64_rest();
        if width < 64 {
            lemma_u64_low_bits_mask_is_mod(low, width as nat);
            lemma_pow2_adds(width as nat, (64 - width) as nat);
            lemma_pow2_pos((64 - width) as nat);
            lemma_pow2_pos(width as nat);
            lemma_mod_mod(shifted as int, pw, pow2((64 - width) as nat) as int);
        } else {
            assert(low & 0xffff_ffff_ffff_ffffu64 == low) by (bit_vector);
        }
    }
    low & mask
}

// ---------------------------------------------------------------------------------------
// Writing
// ---------------------------------------------------------------------------------------

/// The eight bits of `value`, moved up by `shift`, that lie `k` bytes above its last.
pub open spec fn chunk(value: u64, shift: int, k: int) -> u8 {
    ((((value as u128) << (shift as u128)) >> ((8 * k) as u128)) & 0xffu128) as u8
}

/// A packet after `width` bits of `value` have gone in at `offset`.
///
/// A run that owns the whole of its bytes replaces them. Any other run is or-ed into the bytes
/// it touches, since it may share the first and the last with its neighbours.
pub open spec fn written(data: Seq<u8>, offset: int, width: int, value: u64) -> Seq<u8> {
    let first = offset / 8;
    let last = first + span_of(offset, width) - 1;
    Seq::new(
        data.len(),
        |j: int|
            if first <= j <= last {
                let part = chunk(value, shift_of(offset, width), last - j);
                if is_whole(offset, width) {
                    part
                } else {
                    data[j] | part
                }
            } else {
                data[j]
            },
    )
}

/// Writes `width` bits of `value` at `offset`, by or-ing them into the bytes they touch.
pub fn write_bits(out: &mut [u8], offset: usize, width: u32, value: u64)
    requires
        1 <= width <= 64,
        offset + width <= usize::MAX,
        offset + width <= 8 * old(out)@.len(),
    ensures
        final(out)@ == written(old(out)@, offset as int, width as int, value),
{
    let plan = bit_plan(offset, width);
    let shifted = (value as u128) << (plan.shift as u128);
    let mut index: usize = 0;
    while index < plan.span
        invariant
            index <= plan.span,
            1 <= plan.span <= 9,
            plan.first + plan.span <= out.len(),
            plan.describes(offset as int, width as int),
            shifted == (value as u128) << (plan.shift as u128),
            out@.len() == old(out)@.len(),
            forall|j: int|
                0 <= j < plan.first + index ==> out@[j] == written(
                    old(out)@,
                    offset as int,
                    width as int,
                    value,
                )[j],
            forall|j: int| plan.first + index <= j < out@.len() ==> out@[j] == old(out)@[j],
        decreases plan.span - index,
    {
        let at = plan.first + index;
        let above = 8 * (plan.span - 1 - index);
        assert(above < 128);
        let moved = shifted >> (above as u128);
        let part = (moved & 0xffu128) as u8;
        assert(part == chunk(value, plan.shift as int, plan.span - 1 - index));
        if plan.whole {
            out[at] = part;
        } else {
            out[at] = out[at] | part;
        }
        index = index + 1;
    }
    assert(out@ =~= written(old(out)@, offset as int, width as int, value));
}

/// What a write leaves at each bit: the value's own bits inside the run, and what was there
/// everywhere else.
pub proof fn lemma_written_bit(data: Seq<u8>, offset: int, width: int, value: u64, i: int)
    requires
        1 <= width <= 64,
        0 <= offset,
        offset + width <= 8 * data.len(),
        value < pow2(width as nat),
        0 <= i < 8 * data.len(),
    ensures
        bit(written(data, offset, width, value), i) == if offset <= i < offset + width {
            value_bit(value, offset + width - 1 - i) || (!is_whole(offset, width) && bit(data, i))
        } else {
            bit(data, i)
        },
{
    let first = offset / 8;
    let last = first + span_of(offset, width) - 1;
    let shift = shift_of(offset, width);
    let j = i / 8;
    let q = 7 - i % 8;
    if first <= j <= last {
        let k = last - j;
        let part = chunk(value, shift, k);
        let s = shift as u128;
        let up = (8 * k) as u128;
        let qb = q as u8;
        let big = value as u128;
        // The position of bit `i`, counted from the last bit of the span.
        let p = 8 * k + q;
        assert(0 <= shift < 8);
        assert(0 <= k <= 8);
        assert(p - shift == offset + width - 1 - i);
        let part_bit = (part >> qb) & 1u8;
        let pu = p as u128;
        assert(part_bit == ((big << s) >> pu) & 1u128) by {
            let byte = ((big << s) >> up) & 0xffu128;
            assert(byte < 256) by (bit_vector)
                requires
                    byte == ((big << s) >> up) & 0xffu128,
            ;
            assert((part >> qb) & 1u8 == (byte >> (qb as u128)) & 1u128) by (bit_vector)
                requires
                    byte < 256,
                    part == byte as u8,
                    qb < 8,
            ;
            assert((byte >> (qb as u128)) & 1u128 == ((big << s) >> pu) & 1u128) by (bit_vector)
                requires
                    byte == ((big << s) >> up) & 0xffu128,
                    pu == up + qb,
                    qb < 8,
                    up <= 64,
            ;
        }
        if p >= shift {
            let d = (p - shift) as u128;
            assert(((big << s) >> pu) & 1u128 == (big >> d) & 1u128) by (bit_vector)
                requires
                    s < 8,
                    pu == s + d,
                    pu <= 71,
                    big < 0x1_0000_0000_0000_0000u128,
            ;
            if d < 64 {
                let d64 = d as u64;
                assert((big >> d) & 1u128 == (value >> d64) & 1u64) by (bit_vector)
                    requires
                        big == value as u128,
                        d == d64 as u128,
                        d < 64,
                ;
            } else {
                assert((big >> d) & 1u128 == 0) by (bit_vector)
                    requires
                        big < 0x1_0000_0000_0000_0000u128,
                        64 <= d <= 71,
                ;
            }
            assert((part_bit == 1u8) == value_bit(value, p - shift));
            if p - shift >= width {
                lemma_high_bit_clear(value, width as nat, p - shift);
            }
        } else {
            assert(((big << s) >> pu) & 1u128 == 0) by (bit_vector)
                requires
                    s < 8,
                    pu < s,
            ;
        }
        let old_byte = data[j];
        assert(((old_byte | part) >> qb) & 1u8 == 1u8 <==> (old_byte >> qb) & 1u8 == 1u8 || (part
            >> qb) & 1u8 == 1u8) by (bit_vector);
    }
}

/// A value below two to the `width` has no bit at or above it.
pub proof fn lemma_high_bit_clear(value: u64, width: nat, k: int)
    requires
        value < pow2(width),
        width <= k,
    ensures
        !value_bit(value, k),
{
    if k < 64 {
        lemma_u64_shr_is_div(value, k as u64);
        if width < k {
            lemma_pow2_strictly_increases(width, k as nat);
        }
        lemma_basic_div(value as int, pow2(k as nat) as int);
        let shifted = value >> (k as u64);
        assert(shifted == 0);
        assert(0u64 & 1u64 == 0u64) by (bit_vector);
    }
}

/// A run that carries the bits of a value spells it.
pub proof fn lemma_number_of_bits(data: Seq<u8>, offset: int, width: nat, value: u64)
    requires
        width <= 64,
        value < pow2(width),
        forall|k: int|
            0 <= k < width ==> bit(data, offset + width - 1 - k) == #[trigger] value_bit(value, k),
    ensures
        number(data, offset, width) == value,
    decreases width,
{
    if width == 0 {
        lemma2_to64();
    } else {
        let half = value >> 1u64;
        lemma2_to64();
        lemma_u64_shr_is_div(value, 1);
        lemma_pow2_unfold(width);
        assert(half == value / 2);
        assert forall|k: int| 0 <= k < width - 1 implies bit(data, offset + (width - 1) - 1 - k)
            == #[trigger] value_bit(half, k) by {
            assert(value_bit(value, k + 1) == bit(data, offset + width - 1 - (k + 1)));
            let k64 = k as u64;
            assert((value >> 1u64) >> k64 == value >> ((k64 + 1) as u64)) by (bit_vector)
                requires
                    k64 < 63,
            ;
        }
        lemma_number_of_bits(data, offset, (width - 1) as nat, half);
        assert(value_bit(value, 0) == bit(data, offset + width - 1));
        assert((value >> 0u64) & 1u64 == value % 2) by (bit_vector);
    }
}

/// What a write puts in, a read of the same bits gives back, provided nothing was there
/// already.
pub proof fn lemma_read_after_write(data: Seq<u8>, offset: int, width: int, value: u64)
    requires
        1 <= width <= 64,
        0 <= offset,
        offset + width <= 8 * data.len(),
        value < pow2(width as nat),
        forall|i: int| offset <= i < offset + width ==> !bit(data, i),
    ensures
        number(written(data, offset, width, value), offset, width as nat) == value,
{
    let after = written(data, offset, width, value);
    assert forall|k: int| 0 <= k < width implies bit(after, offset + width - 1 - k)
        == #[trigger] value_bit(value, k) by {
        lemma_written_bit(data, offset, width, value, offset + width - 1 - k);
    }
    lemma_number_of_bits(after, offset, width as nat, value);
}

} // verus!
