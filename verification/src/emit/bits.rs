//! The bits of one field, as source.
//!
//! Every index is a literal, worked out here from the place of the run.

use vstd::prelude::*;
use vstd::string::*;

use crate::bits::{
    bit_plan, is_whole, mask_for, mask_value, natural_bits, natural_width, shift_of, slots_of,
    span_of,
};
use crate::layout::{FieldModel, FlightField};
use crate::names::{decimal, decimal_text};

verus! {

/// The Rust integer of so many bytes.
pub open spec fn accumulator_text(slots: int) -> Seq<char> {
    if slots == 1 {
        "u8"@
    } else if slots == 2 {
        "u16"@
    } else if slots == 4 {
        "u32"@
    } else if slots == 8 {
        "u64"@
    } else {
        "u128"@
    }
}

/// The Rust integer of so many bytes.
fn accumulator(slots: usize) -> (name: &'static str)
    ensures
        name@ == accumulator_text(slots as int),
{
    match slots {
        1 => "u8",
        2 => "u16",
        4 => "u32",
        8 => "u64",
        _ => "u128",
    }
}

/// The unsigned Rust integer of a width.
pub open spec fn unsigned_text(bits: int) -> Seq<char> {
    if bits == 8 {
        "u8"@
    } else if bits == 16 {
        "u16"@
    } else if bits == 32 {
        "u32"@
    } else {
        "u64"@
    }
}

/// The unsigned Rust integer of a width.
pub fn unsigned_type(bits: u32) -> (name: &'static str)
    ensures
        name@ == unsigned_text(bits as int),
{
    match bits {
        8 => "u8",
        16 => "u16",
        32 => "u32",
        _ => "u64",
    }
}

/// The signed Rust integer of a width.
pub open spec fn signed_name(bits: int) -> Seq<char> {
    if bits == 8 {
        "i8"@
    } else if bits == 16 {
        "i16"@
    } else if bits == 32 {
        "i32"@
    } else {
        "i64"@
    }
}

/// The signed Rust integer of a width.
pub fn signed_type(bits: u32) -> (name: &'static str)
    ensures
        name@ == signed_name(bits as int),
{
    match bits {
        8 => "i8",
        16 => "i16",
        32 => "i32",
        _ => "i64",
    }
}

/// One byte of a packet that is loaded into an integer: a byte of the packet, or a zero above
/// them.
pub open spec fn loaded_byte(name: Seq<char>, first: int, pad: int, at: int) -> Seq<char> {
    if at < pad {
        "0"@
    } else {
        name + "["@ + decimal_text((first + at - pad) as nat) + "]"@
    }
}

/// The first `count` bytes that are loaded into an integer, with commas between them.
pub open spec fn loaded_bytes(name: Seq<char>, first: int, pad: int, count: nat) -> Seq<char>
    decreases count,
{
    if count == 0 {
        Seq::empty()
    } else if count == 1 {
        loaded_byte(name, first, pad, 0)
    } else {
        loaded_bytes(name, first, pad, (count - 1) as nat) + ", "@ + loaded_byte(
            name,
            first,
            pad,
            count - 1,
        )
    }
}

/// One byte of a packet that is loaded into an integer.
fn load_byte(name: &str, first: usize, pad: usize, at: usize) -> (source: String)
    requires
        first + at <= usize::MAX,
    ensures
        source@ == loaded_byte(name@, first as int, pad as int, at as int),
{
    if at < pad {
        "0".to_owned()
    } else {
        let mut source = name.to_owned();
        source.append("[");
        source.append(decimal((first + (at - pad)) as u128).as_str());
        source.append("]");
        source
    }
}

/// The bytes that are loaded into an integer, with commas between them.
fn load_bytes(name: &str, first: usize, pad: usize, count: usize) -> (source: String)
    requires
        first + count <= usize::MAX,
    ensures
        source@ == loaded_bytes(name@, first as int, pad as int, count as nat),
{
    let mut source = String::new();
    let mut at: usize = 0;
    while at < count
        invariant
            at <= count,
            first + count <= usize::MAX,
            source@ == loaded_bytes(name@, first as int, pad as int, at as nat),
        decreases count - at,
    {
        let byte = load_byte(name, first, pad, at);
        if at == 0 {
            source = byte;
        } else {
            source.append(", ");
            source.append(byte.as_str());
        }
        at = at + 1;
    }
    source
}

// ---------------------------------------------------------------------------------------
// Writing
// ---------------------------------------------------------------------------------------

/// A value moved to where its bits go in the integer that covers them.
pub open spec fn shifted_text(offset: int, width: int, value: Seq<char>) -> Seq<char> {
    let accumulator = accumulator_text(slots_of(span_of(offset, width)));
    if shift_of(offset, width) == 0 {
        value + " as "@ + accumulator
    } else {
        "("@ + value + " as "@ + accumulator + ") << "@ + decimal_text(
            shift_of(offset, width) as nat,
        )
    }
}

/// What goes back into the bytes a run touches: the value, with what was there already unless the
/// run owns its bytes.
pub open spec fn combined_text(offset: int, width: int, value: Seq<char>) -> Seq<char> {
    let slots = slots_of(span_of(offset, width));
    if is_whole(offset, width) {
        shifted_text(offset, width, value)
    } else {
        accumulator_text(slots) + "::from_be_bytes(["@ + loaded_bytes(
            "out"@,
            offset / 8,
            slots - span_of(offset, width),
            slots as nat,
        ) + "]) | "@ + shifted_text(offset, width, value)
    }
}

/// The first `count` stores of the bytes a run touches.
pub open spec fn stores_text(first: int, pad: int, count: nat) -> Seq<char>
    decreases count,
{
    if count == 0 {
        Seq::empty()
    } else {
        stores_text(first, pad, (count - 1) as nat) + "out["@ + decimal_text(
            (first + count - 1) as nat,
        ) + "] = bytes["@ + decimal_text((pad + count - 1) as nat) + "];\n"@
    }
}

/// The statement that writes `width` bits of `value` at `offset`, by or-ing them into the bytes
/// they touch.
pub open spec fn write_text(offset: int, width: int, value: Seq<char>) -> Seq<char> {
    let span = span_of(offset, width);
    let slots = slots_of(span);
    if slots == 1 {
        "out["@ + decimal_text((offset / 8) as nat) + if is_whole(offset, width) {
            "] = "@
        } else {
            "] |= "@
        } + shifted_text(offset, width, value) + ";\n"@
    } else {
        "{\nlet bytes = ("@ + combined_text(offset, width, value) + ").to_be_bytes();\n"@
            + stores_text(offset / 8, slots - span, span as nat) + "}\n"@
    }
}

/// The stores of the bytes a run touches.
fn stores(first: usize, pad: usize, count: usize) -> (source: String)
    requires
        first + count <= usize::MAX,
        pad + count <= usize::MAX,
    ensures
        source@ == stores_text(first as int, pad as int, count as nat),
{
    let mut source = String::new();
    let mut at: usize = 0;
    while at < count
        invariant
            at <= count,
            first + count <= usize::MAX,
            pad + count <= usize::MAX,
            source@ == stores_text(first as int, pad as int, at as nat),
        decreases count - at,
    {
        source.append("out[");
        source.append(decimal((first + at) as u128).as_str());
        source.append("] = bytes[");
        source.append(decimal((pad + at) as u128).as_str());
        source.append("];\n");
        at = at + 1;
    }
    source
}

/// The statement that writes `width` bits of `value` at `offset`.
pub fn write_bits(offset: usize, width: u32, value: &str) -> (source: String)
    requires
        1 <= width <= 64,
        offset + width <= usize::MAX,
    ensures
        source@ == write_text(offset as int, width as int, value@),
{
    let plan = bit_plan(offset, width);
    let name = accumulator(plan.slots);
    let shifted = if plan.shift == 0 {
        let mut shifted = value.to_owned();
        shifted.append(" as ");
        shifted.append(name);
        shifted
    } else {
        let mut shifted = "(".to_owned();
        shifted.append(value);
        shifted.append(" as ");
        shifted.append(name);
        shifted.append(") << ");
        shifted.append(decimal(plan.shift as u128).as_str());
        shifted
    };
    if plan.slots == 1 {
        let mut source = "out[".to_owned();
        source.append(decimal(plan.first as u128).as_str());
        if plan.whole {
            source.append("] = ");
        } else {
            source.append("] |= ");
        }
        source.append(shifted.as_str());
        source.append(";\n");
        return source;
    }
    let mut source = "{\nlet bytes = (".to_owned();
    let combined = if plan.whole {
        shifted
    } else {
        let mut combined = name.to_owned();
        combined.append("::from_be_bytes([");
        combined.append(load_bytes("out", plan.first, plan.pad, plan.slots).as_str());
        combined.append("]) | ");
        combined.append(shifted.as_str());
        combined
    };
    source.append(combined.as_str());
    source.append(").to_be_bytes();\n");
    source.append(stores(plan.first, plan.pad, plan.span).as_str());
    source.append("}\n");
    source
}

// ---------------------------------------------------------------------------------------
// Reading
// ---------------------------------------------------------------------------------------

/// The bytes a run touches, as one integer.
pub open spec fn load_text(offset: int, width: int) -> Seq<char> {
    let span = span_of(offset, width);
    let slots = slots_of(span);
    if slots == 1 {
        "data["@ + decimal_text((offset / 8) as nat) + "]"@
    } else {
        accumulator_text(slots) + "::from_be_bytes(["@ + loaded_bytes(
            "data"@,
            offset / 8,
            slots - span,
            slots as nat,
        ) + "])"@
    }
}

/// The expression that reads `width` bits at `offset` as a `u64`.
///
/// A span of nine bytes stays wide until it has been shifted: narrowing first would drop exactly
/// the bits it was widened for.
pub open spec fn read_text(offset: int, width: int) -> Seq<char> {
    let shift = decimal_text(shift_of(offset, width) as nat);
    let mask = decimal_text(mask_value(width) as nat);
    if slots_of(span_of(offset, width)) == 16 {
        "(("@ + load_text(offset, width) + " >> "@ + shift + ") as u64) & "@ + mask
    } else if shift_of(offset, width) == 0 {
        load_text(offset, width) + " as u64 & "@ + mask
    } else {
        "(("@ + load_text(offset, width) + " as u64) >> "@ + shift + ") & "@ + mask
    }
}

/// The expression that reads `width` bits at `offset` as a `u64`.
pub fn read_bits(offset: usize, width: u32) -> (source: String)
    requires
        1 <= width <= 64,
        offset + width <= usize::MAX,
    ensures
        source@ == read_text(offset as int, width as int),
{
    let plan = bit_plan(offset, width);
    let load = if plan.slots == 1 {
        let mut load = "data[".to_owned();
        load.append(decimal(plan.first as u128).as_str());
        load.append("]");
        load
    } else {
        let mut load = accumulator(plan.slots).to_owned();
        load.append("::from_be_bytes([");
        load.append(load_bytes("data", plan.first, plan.pad, plan.slots).as_str());
        load.append("])");
        load
    };
    let shift = decimal(plan.shift as u128);
    let mask = decimal(mask_for(width) as u128);
    if plan.slots == 16 {
        let mut source = "((".to_owned();
        source.append(load.as_str());
        source.append(" >> ");
        source.append(shift.as_str());
        source.append(") as u64) & ");
        source.append(mask.as_str());
        source
    } else if plan.shift == 0 {
        let mut source = load;
        source.append(" as u64 & ");
        source.append(mask.as_str());
        source
    } else {
        let mut source = "((".to_owned();
        source.append(load.as_str());
        source.append(" as u64) >> ");
        source.append(shift.as_str());
        source.append(") & ");
        source.append(mask.as_str());
        source
    }
}

// ---------------------------------------------------------------------------------------
// Byte order
// ---------------------------------------------------------------------------------------

/// An expression with a little-endian field's bytes the other way round.
///
/// The whole Rust integer is reversed, and the shift drops the bytes above the field.
pub open spec fn ordered_text(field: FieldModel, raw: Seq<char>) -> Seq<char> {
    let natural = natural_width(field.bit_width);
    if !field.swap_bytes || field.bit_width <= 8 {
        raw
    } else if natural == field.bit_width {
        "(("@ + raw + ") as "@ + unsigned_text(natural) + ").swap_bytes() as u64"@
    } else {
        "((("@ + raw + ") as "@ + unsigned_text(natural) + ").swap_bytes() >> "@ + decimal_text(
            (natural - field.bit_width) as nat,
        ) + ") as u64"@
    }
}

/// An expression with a little-endian field's bytes the other way round.
pub fn reverse_if_little_endian(field: &FlightField, raw: &str) -> (source: String)
    requires
        field.bit_width <= 64,
    ensures
        source@ == ordered_text(field@, raw@),
{
    if !field.swap_bytes || field.bit_width <= 8 {
        return raw.to_owned();
    }
    let natural = natural_bits(field.bit_width);
    if natural == field.bit_width {
        let mut source = "((".to_owned();
        source.append(raw);
        source.append(") as ");
        source.append(unsigned_type(natural));
        source.append(").swap_bytes() as u64");
        source
    } else {
        let mut source = "(((".to_owned();
        source.append(raw);
        source.append(") as ");
        source.append(unsigned_type(natural));
        source.append(").swap_bytes() >> ");
        source.append(decimal((natural - field.bit_width) as u128).as_str());
        source.append(") as u64");
        source
    }
}

/// The expression that reads a field's bits, with its byte order applied.
pub open spec fn read_in_order_text(field: FieldModel) -> Seq<char> {
    ordered_text(field, read_text(field.bit_offset, field.bit_width))
}

/// The expression that reads a field's bits, with its byte order applied.
pub fn read_bits_in_order(field: &FlightField) -> (source: String)
    requires
        field@.emittable(),
        !field@.kind.borrows(),
    ensures
        source@ == read_in_order_text(field@),
{
    reverse_if_little_endian(field, read_bits(field.bit_offset, field.bit_width).as_str())
}

/// Every byte that the code for a run indexes lies inside the packet that the run lies inside, so
/// no bounds check is left in it.
pub proof fn lemma_indices_are_in_bounds(offset: int, width: int, len_bytes: int)
    requires
        0 <= offset,
        1 <= width <= 64,
        offset + width <= 8 * len_bytes,
    ensures
        0 <= offset / 8,
        1 <= span_of(offset, width) <= 9,
        offset / 8 + span_of(offset, width) <= len_bytes,
        span_of(offset, width) <= slots_of(span_of(offset, width)) <= 16,
{
}

/// Every slice that the code for whole bytes takes lies inside the packet that the bytes lie
/// inside, so no bounds check is left in it.
pub proof fn lemma_slices_are_in_bounds(offset: int, width: int, len_bytes: int)
    requires
        0 <= offset,
        0 <= width,
        offset % 8 == 0,
        width % 8 == 0,
        offset + width <= 8 * len_bytes,
    ensures
        0 <= offset / 8 <= offset / 8 + width / 8 <= len_bytes,
        8 * (offset / 8) == offset,
        8 * (width / 8) == width,
{
}

} // verus!
