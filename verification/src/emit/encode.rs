//! `encode`, as source.

use vstd::arithmetic::power2::*;
use vstd::prelude::*;
use vstd::string::*;

use crate::bits::{mask_for, mask_value, natural_bits, natural_width};
use crate::emit::bits::{ordered_text, reverse_if_little_endian, write_bits, write_text};
use crate::emit::text::{byte_list, bytes_listed, literal, string_literal, trim, trimmed};
use crate::layout::{
    fixed_as_u64, ConstantModel, Container, ContainerModel, FieldModel, FixedModel, FixedValue,
    FlightField, Kind, KindModel,
};
use crate::names::{decimal, decimal_text, signed_decimal, signed_text};
use crate::plan::{DelimiterModel, IntegerCoding, TextCharset, TextDelimiter};
use crate::scalar::lemma_width_powers;

verus! {

// ---------------------------------------------------------------------------------------
// Numbers
// ---------------------------------------------------------------------------------------

/// The statement that gives up on a field, with the name of what is wrong and of the parameter.
pub open spec fn refusal_text(error: Seq<char>, name: Seq<char>) -> Seq<char> {
    "return Err(EncodeError::"@ + error + " { parameter: "@ + string_literal(name) + " });\n"@
}

/// The statement that gives up on a field, with the name of what is wrong and of the parameter.
pub fn refusal(error: &str, name: &str) -> (source: String)
    ensures
        source@ == refusal_text(error@, name@),
{
    let mut source = "return Err(EncodeError::".to_owned();
    source.append(error);
    source.append(" { parameter: ");
    source.append(literal(name).as_str());
    source.append(" });\n");
    source
}

/// The expression that turns a field's typed value into the bits that go into the packet.
pub open spec fn raw_text(field: FieldModel, value: Seq<char>) -> Seq<char> {
    let mask = decimal_text(mask_value(field.bit_width) as nat);
    match field.kind {
        KindModel::Unsigned => value + " as u64 & "@ + mask,
        KindModel::Signed(IntegerCoding::Unsigned) => value + " as u64 & "@ + mask,
        KindModel::Signed(IntegerCoding::TwosComplement) => value + " as i64 as u64 & "@ + mask,
        KindModel::Signed(IntegerCoding::SignMagnitude) => "if "@ + value + " < 0 {\n"@
            + decimal_text(pow2((field.bit_width - 1) as nat)) + " | ("@ + value
            + " as i64).unsigned_abs()\n} else {\n"@ + value + " as u64\n}"@,
        KindModel::Signed(IntegerCoding::OnesComplement) => "if "@ + value + " < 0 {\n"@ + mask
            + " ^ ("@ + value + " as i64).unsigned_abs()\n} else {\n"@ + value + " as u64\n}"@,
        KindModel::Float16 => "f32_to_half("@ + value + ") as u64"@,
        KindModel::Float32 => value + ".to_bits() as u64"@,
        KindModel::Float64 => value + ".to_bits()"@,
        KindModel::Bool => "if "@ + value + " { 1 } else { 0 }"@,
        KindModel::Enumerated(_) => value + ".raw()"@,
        KindModel::Text(_, _) => "0"@,
        KindModel::Binary => "0"@,
    }
}

/// A value, followed by what is done with it.
fn applied(value: &str, operation: &str) -> (source: String)
    ensures
        source@ == value@ + operation@,
{
    let mut source = value.to_owned();
    source.append(operation);
    source
}

/// A value, followed by a cast and a mask.
fn masked(value: &str, cast: &str, mask: &str) -> (source: String)
    ensures
        source@ == value@ + cast@ + mask@,
{
    let mut source = value.to_owned();
    source.append(cast);
    source.append(mask);
    source
}

/// The bits of a value under a coding that spells its sign apart.
fn split_sign(value: &str, pattern: &str, operator: &str) -> (source: String)
    ensures
        source@ == "if "@ + value@ + " < 0 {\n"@ + pattern@ + operator@ + value@
            + " as i64).unsigned_abs()\n} else {\n"@ + value@ + " as u64\n}"@,
{
    let mut source = "if ".to_owned();
    source.append(value);
    source.append(" < 0 {\n");
    source.append(pattern);
    source.append(operator);
    source.append(value);
    source.append(" as i64).unsigned_abs()\n} else {\n");
    source.append(value);
    source.append(" as u64\n}");
    source
}

/// The expression that turns a field's typed value into the bits that go into the packet.
pub fn raw_from_value(field: &FlightField, value: &str) -> (source: String)
    requires
        field@.emittable(),
    ensures
        source@ == raw_text(field@, value@),
{
    let mask = decimal(mask_for(field.bit_width) as u128);
    match &field.kind {
        Kind::Unsigned => masked(value, " as u64 & ", mask.as_str()),
        Kind::Signed(IntegerCoding::Unsigned) => masked(value, " as u64 & ", mask.as_str()),
        Kind::Signed(IntegerCoding::TwosComplement) => masked(
            value,
            " as i64 as u64 & ",
            mask.as_str(),
        ),
        Kind::Signed(IntegerCoding::SignMagnitude) => {
            proof {
                lemma_width_powers(field@.bit_width);
            }
            let sign = decimal(mask_for(field.bit_width - 1) as u128 + 1);
            split_sign(value, sign.as_str(), " | (")
        },
        Kind::Signed(IntegerCoding::OnesComplement) => split_sign(value, mask.as_str(), " ^ ("),
        Kind::Float16 => {
            let mut source = "f32_to_half(".to_owned();
            source.append(value);
            source.append(") as u64");
            source
        },
        Kind::Float32 => applied(value, ".to_bits() as u64"),
        Kind::Float64 => applied(value, ".to_bits()"),
        Kind::Bool => {
            let mut source = "if ".to_owned();
            source.append(value);
            source.append(" { 1 } else { 0 }");
            source
        },
        Kind::Enumerated(_) => applied(value, ".raw()"),
        Kind::Text { .. } => "0".to_owned(),
        Kind::Binary => "0".to_owned(),
    }
}

/// The statement that rejects a value the field cannot hold. There is none where the Rust type
/// holds nothing else.
pub open spec fn check_text(field: FieldModel, value: Seq<char>) -> Seq<char> {
    let width = field.bit_width;
    let refusal = refusal_text("OutOfRange"@, field.xtce_name);
    match field.kind {
        KindModel::Unsigned => if width >= natural_width(width) {
            ""@
        } else {
            "if "@ + value + " as u64 > "@ + decimal_text(mask_value(width) as nat) + " {\n"@
                + refusal + "}\n"@
        },
        KindModel::Signed(coding) => if coding == IntegerCoding::SignMagnitude || coding
            == IntegerCoding::OnesComplement {
            "if ("@ + value + " as i64).unsigned_abs() > "@ + decimal_text(
                mask_value(width - 1) as nat,
            ) + " {\n"@ + refusal + "}\n"@
        } else if width >= natural_width(width) {
            ""@
        } else {
            // A field without a sign bit has no negative values.
            let smallest = if coding == IntegerCoding::Unsigned {
                0
            } else {
                -(pow2((width - 1) as nat) as int)
            };
            "if ("@ + value + " as i64) < "@ + signed_text(smallest)
                + " || ("@ + value + " as i64) > "@ + decimal_text(mask_value(width - 1) as nat)
                + " {\n"@ + refusal + "}\n"@
        },
        _ => ""@,
    }
}

/// The statement that rejects a value the field cannot hold.
pub fn range_check(field: &FlightField, value: &str) -> (source: String)
    requires
        field@.emittable(),
    ensures
        source@ == check_text(field@, value@),
{
    let width = field.bit_width;
    let natural = natural_bits(width);
    let refusal = refusal("OutOfRange", field.xtce_name.as_str());
    match &field.kind {
        Kind::Unsigned => {
            if width >= natural {
                return "".to_owned();
            }
            let mut source = "if ".to_owned();
            source.append(value);
            source.append(" as u64 > ");
            source.append(decimal(mask_for(width) as u128).as_str());
            source.append(" {\n");
            source.append(refusal.as_str());
            source.append("}\n");
            source
        },
        Kind::Signed(coding) => {
            if *coding == IntegerCoding::SignMagnitude || *coding == IntegerCoding::OnesComplement {
                let mut source = "if (".to_owned();
                source.append(value);
                source.append(" as i64).unsigned_abs() > ");
                source.append(decimal(mask_for(width - 1) as u128).as_str());
                source.append(" {\n");
                source.append(refusal.as_str());
                source.append("}\n");
                return source;
            }
            if width >= natural {
                return "".to_owned();
            }
            proof {
                lemma_width_powers(width as int);
            }
            let largest = mask_for(width - 1);
            let smallest: i128 = if *coding == IntegerCoding::Unsigned {
                0
            } else {
                -(largest as i128) - 1
            };
            assert(*coding != IntegerCoding::Unsigned ==> smallest == -(pow2(
                (width - 1) as nat,
            ) as int));
            let mut source = "if (".to_owned();
            source.append(value);
            source.append(" as i64) < ");
            source.append(signed_decimal(smallest).as_str());
            source.append(" || (");
            source.append(value);
            source.append(" as i64) > ");
            source.append(decimal(largest as u128).as_str());
            source.append(" {\n");
            source.append(refusal.as_str());
            source.append("}\n");
            source
        },
        _ => "".to_owned(),
    }
}

// ---------------------------------------------------------------------------------------
// Bytes
// ---------------------------------------------------------------------------------------

/// The statement that copies at most `len` bytes into the packet at `start`.
///
/// A `zip` never panics, whatever the two lengths are.
pub open spec fn copy_text(start: int, len: int) -> Seq<char> {
    "for (slot, byte) in out["@ + decimal_text(start as nat) + ".."@
        + decimal_text((start + len) as nat) + "].iter_mut().zip(bytes) {\n*slot = *byte;\n}\n"@
}

/// The statement that copies at most `len` bytes into the packet at `start`.
///
/// A `zip` never panics, whatever the two lengths are.
pub fn copy_into(start: usize, len: usize) -> (source: String)
    requires
        start + len <= usize::MAX,
    ensures
        source@ == copy_text(start as int, len as int),
{
    let mut source = "for (slot, byte) in out[".to_owned();
    source.append(decimal(start as u128).as_str());
    source.append("..");
    source.append(decimal((start + len) as u128).as_str());
    source.append("].iter_mut().zip(bytes) {\n*slot = *byte;\n}\n");
    source
}

/// The first `count` stores of a terminator.
pub open spec fn terminator_text(count: nat) -> Seq<char>
    decreases count,
{
    if count == 0 {
        Seq::empty()
    } else {
        terminator_text((count - 1) as nat) + "slot["@ + decimal_text((count - 1) as nat)
            + "] = TERMINATOR["@ + decimal_text((count - 1) as nat) + "];\n"@
    }
}

/// The stores of a terminator.
fn terminator_stores(count: usize) -> (source: String)
    ensures
        source@ == terminator_text(count as nat),
{
    let mut source = String::new();
    let mut at: usize = 0;
    while at < count
        invariant
            at <= count,
            source@ == terminator_text(at as nat),
        decreases count - at,
    {
        source.append("slot[");
        source.append(decimal(at as u128).as_str());
        source.append("] = TERMINATOR[");
        source.append(decimal(at as u128).as_str());
        source.append("];\n");
        at = at + 1;
    }
    source
}

/// What is left of a length once another is taken off it.
pub open spec fn room_after(len: int, taken: int) -> int {
    if len < taken {
        0
    } else {
        len - taken
    }
}

/// The statements that write a string which is its whole buffer.
pub open spec fn whole_text(start: int, len: int, value: Seq<char>, name: Seq<char>) -> Seq<char> {
    "let bytes = "@ + value + ".as_bytes();\nif bytes.len() != "@ + decimal_text(len as nat)
        + " {\n"@ + refusal_text("TextLength"@, name) + "}\n"@ + copy_text(start, len)
}

/// The statements that write a string which is its whole buffer.
fn encode_whole(start: usize, len: usize, value: &str, name: &str) -> (source: String)
    requires
        start + len <= usize::MAX,
    ensures
        source@ == whole_text(start as int, len as int, value@, name@),
{
    let mut source = "let bytes = ".to_owned();
    source.append(value);
    source.append(".as_bytes();\nif bytes.len() != ");
    source.append(decimal(len as u128).as_str());
    source.append(" {\n");
    source.append(refusal("TextLength", name).as_str());
    source.append("}\n");
    source.append(copy_into(start, len).as_str());
    source
}

/// The statements that write a string and the terminator behind it.
pub open spec fn terminated_text(start: int, len: int, terminator: Seq<u8>, value: Seq<char>, name: Seq<char>) -> Seq<char> {
    "const TERMINATOR: &[u8] = &["@ + byte_list(terminator) + "];\nlet bytes = "@ + value
        + ".as_bytes();\nif bytes.len() > "@
        + decimal_text(room_after(len, terminator.len() as int) as nat) + " {\n"@
        + refusal_text("TextLength"@, name) + "}\nif ends_early(bytes, TERMINATOR) {\n"@
        + refusal_text("EmbeddedTerminator"@, name) + "}\n"@ + copy_text(start, len)
        + "let at = "@ + decimal_text(start as nat)
        + " + bytes.len();\nmatch out.get_mut(at..at + "@ + decimal_text(terminator.len() as nat)
        + ") {\nSome(slot) => {\n"@ + terminator_text(terminator.len()) + "}\nNone => "@
        + gave_up_text(name) + "}\n"@
}

/// The statements that write a string and the terminator behind it.
fn encode_terminated(start: usize, len: usize, terminator: &Vec<u8>, value: &str, name: &str) -> (source: String)
    requires
        start + len <= usize::MAX,
    ensures
        source@ == terminated_text(start as int, len as int, terminator@, value@, name@),
{
    let room = if len < terminator.len() {
        0
    } else {
        len - terminator.len()
    };
    let mut source = "const TERMINATOR: &[u8] = &[".to_owned();
    source.append(bytes_listed(terminator).as_str());
    source.append("];\nlet bytes = ");
    source.append(value);
    source.append(".as_bytes();\nif bytes.len() > ");
    source.append(decimal(room as u128).as_str());
    source.append(" {\n");
    source.append(refusal("TextLength", name).as_str());
    source.append("}\nif ends_early(bytes, TERMINATOR) {\n");
    source.append(refusal("EmbeddedTerminator", name).as_str());
    source.append("}\n");
    source.append(copy_into(start, len).as_str());
    source.append("let at = ");
    source.append(decimal(start as u128).as_str());
    source.append(" + bytes.len();\nmatch out.get_mut(at..at + ");
    source.append(decimal(terminator.len() as u128).as_str());
    source.append(") {\nSome(slot) => {\n");
    source.append(terminator_stores(terminator.len()).as_str());
    source.append("}\nNone => ");
    source.append(gave_up(name).as_str());
    source.append("}\n");
    source
}

/// The arm that gives up on a string.
pub open spec fn gave_up_text(name: Seq<char>) -> Seq<char> {
    "return Err(EncodeError::TextLength { parameter: "@ + string_literal(name) + " }),\n"@
}

/// The arm that gives up on a string.
fn gave_up(name: &str) -> (source: String)
    ensures
        source@ == gave_up_text(name@),
{
    let mut source = "return Err(EncodeError::TextLength { parameter: ".to_owned();
    source.append(literal(name).as_str());
    source.append(" }),\n");
    source
}

/// The statements that write a string and its length, in bits, in front of it.
pub open spec fn prefixed_text(offset: int, start: int, len: int, size: int, value: Seq<char>, name: Seq<char>) -> Seq<char> {
    "let bytes = "@ + value + ".as_bytes();\nif bytes.len() > "@
        + decimal_text((len - size / 8) as nat) + " {\n"@ + refusal_text("TextLength"@, name)
        + "}\nlet length_bits = bytes.len() as u64 * 8;\nif length_bits > "@
        + decimal_text(mask_value(size) as nat) + " {\n"@ + refusal_text("TextLength"@, name)
        + "}\n"@ + write_text(offset, size, "length_bits"@)
        + copy_text(start + size / 8, len - size / 8)
}

/// The statements that write a string and its length, in bits, in front of it.
fn encode_prefixed(offset: usize, start: usize, len: usize, size: u32, value: &str, name: &str) -> (source: String)
    requires
        1 <= size <= 64,
        size / 8 <= len,
        start + len <= usize::MAX,
        offset + size <= usize::MAX,
    ensures
        source@ == prefixed_text(offset as int, start as int, len as int, size as int, value@, name@),
{
    let prefix = size as usize / 8;
    let room = len - prefix;
    let mut source = "let bytes = ".to_owned();
    source.append(value);
    source.append(".as_bytes();\nif bytes.len() > ");
    source.append(decimal(room as u128).as_str());
    source.append(" {\n");
    source.append(refusal("TextLength", name).as_str());
    source.append("}\nlet length_bits = bytes.len() as u64 * 8;\nif length_bits > ");
    source.append(decimal(mask_for(size) as u128).as_str());
    source.append(" {\n");
    source.append(refusal("TextLength", name).as_str());
    source.append("}\n");
    source.append(write_bits(offset, size, "length_bits").as_str());
    source.append(copy_into(start + prefix, room).as_str());
    source
}

/// The block that writes a string.
pub open spec fn text_block(
    field: FieldModel,
    charset: TextCharset,
    delimiter: DelimiterModel,
    value: Seq<char>,
) -> Seq<char> {
    let start = field.bit_offset / 8;
    let len = field.bit_width / 8;
    let name = field.xtce_name;
    let ascii_check = if charset == TextCharset::UsAscii {
        "if !"@ + value + ".is_ascii() {\n"@ + refusal_text("InvalidText"@, name) + "}\n"@
    } else {
        ""@
    };
    "{\n"@ + ascii_check + match delimiter {
        DelimiterModel::WholeBuffer => whole_text(start, len, value, name),
        DelimiterModel::TerminationChar(terminator) => terminated_text(
            start,
            len,
            terminator,
            value,
            name,
        ),
        DelimiterModel::LeadingSize(size) => prefixed_text(
            field.bit_offset,
            start,
            len,
            size as int,
            value,
            name,
        ),
    } + "}\n"@
}

/// The block that writes a string.
pub fn encode_text(
    field: &FlightField,
    charset: TextCharset,
    delimiter: &TextDelimiter,
    value: &str,
) -> (source: String)
    requires
        field@.emittable(),
        field@.kind == KindModel::Text(charset, delimiter@),
    ensures
        source@ == text_block(field@, charset, delimiter@, value@),
{
    let start = field.bit_offset / 8;
    let len = field.bit_width as usize / 8;
    let name = field.xtce_name.as_str();
    let ascii_check = if charset == TextCharset::UsAscii {
        let mut check = "if !".to_owned();
        check.append(value);
        check.append(".is_ascii() {\n");
        check.append(refusal("InvalidText", name).as_str());
        check.append("}\n");
        check
    } else {
        "".to_owned()
    };
    let body = match delimiter {
        TextDelimiter::WholeBuffer => encode_whole(start, len, value, name),
        TextDelimiter::TerminationChar(terminator) => encode_terminated(
            start,
            len,
            terminator,
            value,
            name,
        ),
        TextDelimiter::LeadingSize { size_in_bits } => encode_prefixed(
            field.bit_offset,
            start,
            len,
            *size_in_bits,
            value,
            name,
        ),
    };
    let mut source = "{\n".to_owned();
    source.append(ascii_check.as_str());
    source.append(body.as_str());
    source.append("}\n");
    source
}

/// The block that writes raw bytes.
pub open spec fn binary_block(field: FieldModel, value: Seq<char>) -> Seq<char> {
    "{\nlet bytes: &[u8] = "@ + value + ";\nif bytes.len() != "@
        + decimal_text((field.bit_width / 8) as nat) + " {\n"@
        + refusal_text("BinaryLength"@, field.xtce_name) + "}\n"@
        + copy_text(field.bit_offset / 8, field.bit_width / 8) + "}\n"@
}

/// The block that writes raw bytes.
pub fn encode_binary(field: &FlightField, value: &str) -> (source: String)
    requires
        field@.emittable(),
    ensures
        source@ == binary_block(field@, value@),
{
    let start = field.bit_offset / 8;
    let len = field.bit_width as usize / 8;
    let mut source = "{\nlet bytes: &[u8] = ".to_owned();
    source.append(value);
    source.append(";\nif bytes.len() != ");
    source.append(decimal(len as u128).as_str());
    source.append(" {\n");
    source.append(refusal("BinaryLength", field.xtce_name.as_str()).as_str());
    source.append("}\n");
    source.append(copy_into(start, len).as_str());
    source.append("}\n");
    source
}

// ---------------------------------------------------------------------------------------
// Fields
// ---------------------------------------------------------------------------------------

/// A field of the struct, as an expression.
pub open spec fn value_text(ident: Seq<char>) -> Seq<char> {
    "self."@ + ident
}

/// The block that writes one field.
pub open spec fn encode_field_text(field: FieldModel) -> Seq<char> {
    let value = value_text(field.ident);
    match field.kind {
        KindModel::Text(charset, delimiter) => text_block(field, charset, delimiter, value),
        KindModel::Binary => binary_block(field, value),
        _ => "{\n"@ + check_text(field, value) + "let "@ + trimmed(field.ident)
            + "_bits: u64 = "@ + ordered_text(field, raw_text(field, value)) + ";\n"@
            + write_text(field.bit_offset, field.bit_width, trimmed(field.ident) + "_bits"@)
            + "}\n"@,
    }
}

/// The block that writes one field.
pub fn encode_field(field: &FlightField) -> (source: String)
    requires
        field@.emittable(),
    ensures
        source@ == encode_field_text(field@),
{
    let mut value = "self.".to_owned();
    value.append(field.ident.as_str());
    match &field.kind {
        Kind::Text { charset, delimiter } => {
            return encode_text(field, *charset, delimiter, value.as_str());
        },
        Kind::Binary => {
            return encode_binary(field, value.as_str());
        },
        _ => {},
    }
    let raw = raw_from_value(field, value.as_str());
    let ordered = reverse_if_little_endian(field, raw.as_str());
    let mut binding = trim(field.ident.as_str());
    binding.append("_bits");
    let mut source = "{\n".to_owned();
    source.append(range_check(field, value.as_str()).as_str());
    source.append("let ");
    source.append(trim(field.ident.as_str()).as_str());
    source.append("_bits: u64 = ");
    source.append(ordered.as_str());
    source.append(";\n");
    source.append(write_bits(field.bit_offset, field.bit_width, binding.as_str()).as_str());
    source.append("}\n");
    source
}

/// The blocks that write the first `count` fields.
pub open spec fn encode_fields_text(fields: Seq<FieldModel>, count: nat) -> Seq<char>
    decreases count,
{
    if count == 0 {
        Seq::empty()
    } else {
        encode_fields_text(fields, (count - 1) as nat) + encode_field_text(fields[count - 1])
    }
}

/// The blocks that write the fields.
fn encode_fields(container: &Container) -> (source: String)
    requires
        container@.emittable(),
    ensures
        source@ == encode_fields_text(container@.fields, container@.fields.len()),
{
    let mut source = String::new();
    let mut at: usize = 0;
    while at < container.fields.len()
        invariant
            at <= container.fields@.len(),
            container@.emittable(),
            source@ == encode_fields_text(container@.fields, at as nat),
        decreases container.fields@.len() - at,
    {
        assert(container@.fields[at as int] == container.fields@[at as int]@);
        source.append(encode_field(&container.fields[at]).as_str());
        at = at + 1;
    }
    source
}

// ---------------------------------------------------------------------------------------
// What the caller does not supply
// ---------------------------------------------------------------------------------------

/// The block that writes a number under a name that says where it comes from.
pub open spec fn named_write_text(name: Seq<char>, raw: u64, offset: int, width: int) -> Seq<char> {
    "{\nlet "@ + name + ": u64 = "@ + decimal_text(raw as nat) + ";\n"@ + write_text(
        offset,
        width,
        name,
    ) + "}\n"@
}

/// The block that writes a number under a name that says where it comes from.
fn named_write(name: &str, raw: u64, offset: usize, width: u32) -> (source: String)
    requires
        1 <= width <= 64,
        offset + width <= usize::MAX,
    ensures
        source@ == named_write_text(name@, raw, offset as int, width as int),
{
    let mut source = "{\nlet ".to_owned();
    source.append(name);
    source.append(": u64 = ");
    source.append(decimal(raw as u128).as_str());
    source.append(";\n");
    source.append(write_bits(offset, width, name).as_str());
    source.append("}\n");
    source
}

/// The blocks that write the first `count` criteria.
pub open spec fn encode_constants_text(constants: Seq<ConstantModel>, count: nat) -> Seq<char>
    decreases count,
{
    if count == 0 {
        Seq::empty()
    } else {
        let constant = constants[count - 1];
        encode_constants_text(constants, (count - 1) as nat) + named_write_text(
            "criterion_"@ + constant.ident,
            constant.raw,
            constant.bit_offset,
            constant.bit_width,
        )
    }
}

/// The blocks that write the criteria.
fn encode_constants(container: &Container) -> (source: String)
    requires
        container@.emittable(),
    ensures
        source@ == encode_constants_text(container@.constants, container@.constants.len()),
{
    let mut source = String::new();
    let mut at: usize = 0;
    while at < container.constants.len()
        invariant
            at <= container.constants@.len(),
            container@.emittable(),
            source@ == encode_constants_text(container@.constants, at as nat),
        decreases container.constants@.len() - at,
    {
        let constant = &container.constants[at];
        assert(container@.constants[at as int] == constant@);
        let mut name = "criterion_".to_owned();
        name.append(constant.ident.as_str());
        source.append(
            named_write(
                name.as_str(),
                constant.raw,
                constant.bit_offset,
                constant.bit_width,
            ).as_str(),
        );
        at = at + 1;
    }
    source
}

/// The stores of the first `count` bytes of a fixed value.
pub open spec fn byte_stores_text(first: int, bytes: Seq<u8>, count: nat) -> Seq<char>
    decreases count,
{
    if count == 0 {
        Seq::empty()
    } else {
        byte_stores_text(first, bytes, (count - 1) as nat) + "out["@ + decimal_text(
            (first + count - 1) as nat,
        ) + "] = "@ + decimal_text(bytes[count - 1] as nat) + ";\n"@
    }
}

/// The stores of the bytes of a fixed value.
fn byte_stores(first: usize, bytes: &Vec<u8>) -> (source: String)
    requires
        first + bytes@.len() <= usize::MAX,
    ensures
        source@ == byte_stores_text(first as int, bytes@, bytes@.len()),
{
    let mut source = String::new();
    let mut at: usize = 0;
    while at < bytes.len()
        invariant
            at <= bytes@.len(),
            first + bytes@.len() <= usize::MAX,
            source@ == byte_stores_text(first as int, bytes@, at as nat),
        decreases bytes@.len() - at,
    {
        source.append("out[");
        source.append(decimal((first + at) as u128).as_str());
        source.append("] = ");
        source.append(decimal(bytes[at] as u128).as_str());
        source.append(";\n");
        at = at + 1;
    }
    source
}

/// The name a fixed value is written under.
pub open spec fn fixed_name(fixed: FixedModel, index: int) -> Seq<char> {
    match fixed.ident {
        Some(ident) => "fixed_"@ + ident,
        None => "fixed_value_"@ + decimal_text(index as nat),
    }
}

/// What writes one fixed value: a number where one holds it, and otherwise its bytes one by one.
pub open spec fn one_fixed_text(fixed: FixedModel, index: int) -> Seq<char> {
    match fixed_as_u64(fixed) {
        Some(raw) => named_write_text(
            fixed_name(fixed, index),
            raw,
            fixed.bit_offset,
            fixed.bit_width,
        ),
        None => byte_stores_text(fixed.bit_offset / 8, fixed.value, fixed.value.len()),
    }
}

/// What writes the first `count` fixed values.
pub open spec fn encode_fixed_text(fixed: Seq<FixedModel>, count: nat) -> Seq<char>
    decreases count,
{
    if count == 0 {
        Seq::empty()
    } else {
        encode_fixed_text(fixed, (count - 1) as nat) + one_fixed_text(fixed[count - 1], count - 1)
    }
}

/// What writes one fixed value.
fn encode_one_fixed(fixed: &FixedValue, index: usize) -> (source: String)
    requires
        fixed@.emittable(),
    ensures
        source@ == one_fixed_text(fixed@, index as int),
{
    let name = match &fixed.ident {
        Some(ident) => {
            let mut name = "fixed_".to_owned();
            name.append(ident.as_str());
            name
        },
        None => {
            let mut name = "fixed_value_".to_owned();
            name.append(decimal(index as u128).as_str());
            name
        },
    };
    match fixed.as_u64() {
        Some(raw) => named_write(name.as_str(), raw, fixed.bit_offset, fixed.bit_width),
        None => byte_stores(fixed.bit_offset / 8, &fixed.value),
    }
}

/// What writes the fixed values.
fn encode_fixed(container: &Container) -> (source: String)
    requires
        container@.emittable(),
    ensures
        source@ == encode_fixed_text(container@.fixed, container@.fixed.len()),
{
    let mut source = String::new();
    let mut at: usize = 0;
    while at < container.fixed.len()
        invariant
            at <= container.fixed@.len(),
            container@.emittable(),
            source@ == encode_fixed_text(container@.fixed, at as nat),
        decreases container.fixed@.len() - at,
    {
        assert(container@.fixed[at as int] == container.fixed@[at as int]@);
        source.append(encode_one_fixed(&container.fixed[at], at).as_str());
        at = at + 1;
    }
    source
}

// ---------------------------------------------------------------------------------------
// The method
// ---------------------------------------------------------------------------------------

/// The documentation of `encode` and its signature.
pub const ENCODE_HEAD: &'static str = r#"#[doc = r" Writes this packet into `out`, returning how many bytes were written."]
#[doc = r""]
#[doc = r" # Errors"]
#[doc = r""]
#[doc = r" [`EncodeError::TooShort`] if `out` is smaller than [`Self::LEN`], and"]
#[doc = r" [`EncodeError::OutOfRange`] naming the parameter if a value does not fit the"]
#[doc = r" bits the definition gives it. Nothing is truncated silently."]
pub fn encode(&self, out: &mut [u8]) -> Result<usize, EncodeError> {
"#;

/// The method that encodes a packet.
///
/// The caller's slice becomes a reference to an array of known length once, at the top. Bits are
/// or-ed in, because two fields can share a byte, so the packet starts out clear.
pub open spec fn encode_text_of(container: ContainerModel) -> Seq<char> {
    ENCODE_HEAD@ + "let out: &mut [u8; "@ + decimal_text(container.len_bytes as nat)
        + "] = match out.get_mut(.."@ + decimal_text(container.len_bytes as nat)
        + ") {\nSome(slice) => match < &mut [u8; "@ + decimal_text(container.len_bytes as nat)
        + "]> ::try_from(slice) {\nOk(array) => array,\nErr(_) => return Err(EncodeError::TooShort { needed: "@
        + decimal_text(container.len_bytes as nat)
        + " }),\n},\nNone => return Err(EncodeError::TooShort { needed: "@
        + decimal_text(container.len_bytes as nat) + " }),\n};\n*out = [0u8; "@
        + decimal_text(container.len_bytes as nat) + "];\n"@
        + encode_constants_text(container.constants, container.constants.len())
        + encode_fixed_text(container.fixed, container.fixed.len())
        + encode_fields_text(container.fields, container.fields.len()) + "Ok("@
        + decimal_text(container.len_bytes as nat) + ")\n}\n"@
}

/// The method that encodes a packet.
///
/// The caller's slice becomes a reference to an array of known length once, at the top. Bits are
/// or-ed in, because two fields can share a byte, so the packet starts out clear.
pub fn encode_body(container: &Container) -> (source: String)
    requires
        container@.emittable(),
    ensures
        source@ == encode_text_of(container@),
{
    let len = decimal(container.len_bytes as u128);
    let mut source = ENCODE_HEAD.to_owned();
    source.append("let out: &mut [u8; ");
    source.append(len.as_str());
    source.append("] = match out.get_mut(..");
    source.append(len.as_str());
    source.append(") {\nSome(slice) => match < &mut [u8; ");
    source.append(len.as_str());
    source.append("]> ::try_from(slice) {\nOk(array) => array,\nErr(_) => return Err(EncodeError::TooShort { needed: ");
    source.append(len.as_str());
    source.append(" }),\n},\nNone => return Err(EncodeError::TooShort { needed: ");
    source.append(len.as_str());
    source.append(" }),\n};\n*out = [0u8; ");
    source.append(len.as_str());
    source.append("];\n");
    source.append(encode_constants(container).as_str());
    source.append(encode_fixed(container).as_str());
    source.append(encode_fields(container).as_str());
    source.append("Ok(");
    source.append(len.as_str());
    source.append(")\n}\n");
    source
}

} // verus!
