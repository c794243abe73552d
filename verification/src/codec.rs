//! What the flight code of a layout does: packets written from values, and read back.
//!
//! The emitter renders these steps as Rust source with every offset, mask and length a literal.
//! Here they run from the layout itself, so what they compute can be stated and proved once,
//! for every container.

use vstd::arithmetic::power2::*;
use vstd::prelude::*;
use vstd::slice::*;
use vstd::string::*;
use vstd::utf8::*;

use crate::bits::{lemma_number_bound, mask_for, mask_value, natural_width, number, read_bits, write_bits, written};
use crate::half::{f32_bits_to_half, half_to_f32_bits, narrowed, widened};
use crate::layout::{
    enum_models, fixed_as_u64, Constant, ConstantModel, Container, ContainerModel, EnumModel,
    EnumType, FieldModel, FixedModel, FixedValue, FlightField, Kind, KindModel, Layout,
    LayoutModel,
};
use crate::plan::{DelimiterModel, TextCharset, TextDelimiter};
use crate::scalar::{
    check_signed, lemma_swapped, raw_from_signed, signed_fits, signed_from_raw, signed_raw, signed_value,
    swap_field_bytes, swapped,
};

verus! {

// ---------------------------------------------------------------------------------------
// Values and refusals
// ---------------------------------------------------------------------------------------

/// One field's value, as the struct of its container holds it.
#[derive(Clone, Copy, Debug, PartialEq)]
pub enum Value<'a> {
    /// An unsigned integer.
    Unsigned(u64),
    /// A signed integer.
    Signed(i64),
    /// The bit pattern of a binary32.
    Single(u32),
    /// The bit pattern of a binary64.
    Double(u64),
    /// A flag.
    Bool(bool),
    /// A variant of an enumeration, by its position.
    Enumerated(usize),
    /// Text.
    Text(&'a str),
    /// Raw bytes.
    Binary(&'a [u8]),
}

/// The contents of a [`Value`].
pub enum Datum {
    /// See [`Value::Unsigned`].
    Unsigned(u64),
    /// See [`Value::Signed`].
    Signed(i64),
    /// See [`Value::Single`].
    Single(u32),
    /// See [`Value::Double`].
    Double(u64),
    /// See [`Value::Bool`].
    Bool(bool),
    /// See [`Value::Enumerated`].
    Enumerated(int),
    /// See [`Value::Text`].
    Text(Seq<char>),
    /// See [`Value::Binary`].
    Binary(Seq<u8>),
}

impl<'a> View for Value<'a> {
    type V = Datum;

    open spec fn view(&self) -> Datum {
        match *self {
            Value::Unsigned(value) => Datum::Unsigned(value),
            Value::Signed(value) => Datum::Signed(value),
            Value::Single(bits) => Datum::Single(bits),
            Value::Double(bits) => Datum::Double(bits),
            Value::Bool(flag) => Datum::Bool(flag),
            Value::Enumerated(index) => Datum::Enumerated(index as int),
            Value::Text(text) => Datum::Text(text@),
            Value::Binary(bytes) => Datum::Binary(bytes@),
        }
    }
}

/// The contents of a list of values.
pub open spec fn datums(values: Seq<Value>) -> Seq<Datum> {
    values.map_values(|value: Value| value@)
}

/// Why a packet could not be encoded.
#[derive(Clone, Copy, Debug, PartialEq, Eq)]
pub enum EncodeError<'c> {
    /// The buffer is smaller than the container needs.
    TooShort {
        /// Bytes the container needs.
        needed: usize,
    },
    /// A value does not fit the bits the definition gives its parameter.
    OutOfRange {
        /// The parameter, named as the definition spells it.
        parameter: &'c str,
    },
    /// A string does not fit its field, or does not fill it.
    TextLength {
        /// The parameter, named as the definition spells it.
        parameter: &'c str,
    },
    /// A string contains the byte sequence that terminates it.
    EmbeddedTerminator {
        /// The parameter, named as the definition spells it.
        parameter: &'c str,
    },
    /// A string holds characters its declared character set cannot represent.
    InvalidText {
        /// The parameter, named as the definition spells it.
        parameter: &'c str,
    },
    /// A binary value is not exactly as wide as its field.
    BinaryLength {
        /// The parameter, named as the definition spells it.
        parameter: &'c str,
    },
}

/// The contents of an [`EncodeError`].
pub enum Refusal {
    /// See [`EncodeError::TooShort`].
    TooShort(int),
    /// See [`EncodeError::OutOfRange`].
    OutOfRange(Seq<char>),
    /// See [`EncodeError::TextLength`].
    TextLength(Seq<char>),
    /// See [`EncodeError::EmbeddedTerminator`].
    EmbeddedTerminator(Seq<char>),
    /// See [`EncodeError::InvalidText`].
    InvalidText(Seq<char>),
    /// See [`EncodeError::BinaryLength`].
    BinaryLength(Seq<char>),
}

impl<'c> View for EncodeError<'c> {
    type V = Refusal;

    open spec fn view(&self) -> Refusal {
        match *self {
            EncodeError::TooShort { needed } => Refusal::TooShort(needed as int),
            EncodeError::OutOfRange { parameter } => Refusal::OutOfRange(parameter@),
            EncodeError::TextLength { parameter } => Refusal::TextLength(parameter@),
            EncodeError::EmbeddedTerminator { parameter } => Refusal::EmbeddedTerminator(
                parameter@,
            ),
            EncodeError::InvalidText { parameter } => Refusal::InvalidText(parameter@),
            EncodeError::BinaryLength { parameter } => Refusal::BinaryLength(parameter@),
        }
    }
}

/// Why a packet could not be decoded.
#[derive(Clone, Copy, Debug, PartialEq, Eq)]
pub enum DecodeError<'c> {
    /// The packet is shorter than the container it was read as.
    TooShort {
        /// Bytes the container needs.
        needed: usize,
    },
    /// No container's restriction criteria hold.
    Unrecognized,
    /// More than one container's restriction criteria hold.
    Ambiguous,
    /// A field's bytes are not valid text.
    InvalidText {
        /// The parameter, named as the definition spells it.
        parameter: &'c str,
    },
    /// A terminated string has no terminator inside its buffer.
    UnterminatedString {
        /// The parameter, named as the definition spells it.
        parameter: &'c str,
    },
    /// A length-prefixed string declares a length its buffer cannot hold.
    BadStringLength {
        /// The parameter, named as the definition spells it.
        parameter: &'c str,
    },
    /// An enumerated field holds a value the definition has no label for.
    UnknownLabel {
        /// The parameter, named as the definition spells it.
        parameter: &'c str,
    },
}

/// The contents of a [`DecodeError`].
pub enum Fault {
    /// See [`DecodeError::TooShort`].
    TooShort(int),
    /// See [`DecodeError::Unrecognized`].
    Unrecognized,
    /// See [`DecodeError::Ambiguous`].
    Ambiguous,
    /// See [`DecodeError::InvalidText`].
    InvalidText(Seq<char>),
    /// See [`DecodeError::UnterminatedString`].
    UnterminatedString(Seq<char>),
    /// See [`DecodeError::BadStringLength`].
    BadStringLength(Seq<char>),
    /// See [`DecodeError::UnknownLabel`].
    UnknownLabel(Seq<char>),
}

impl<'c> View for DecodeError<'c> {
    type V = Fault;

    open spec fn view(&self) -> Fault {
        match *self {
            DecodeError::TooShort { needed } => Fault::TooShort(needed as int),
            DecodeError::Unrecognized => Fault::Unrecognized,
            DecodeError::Ambiguous => Fault::Ambiguous,
            DecodeError::InvalidText { parameter } => Fault::InvalidText(parameter@),
            DecodeError::UnterminatedString { parameter } => Fault::UnterminatedString(parameter@),
            DecodeError::BadStringLength { parameter } => Fault::BadStringLength(parameter@),
            DecodeError::UnknownLabel { parameter } => Fault::UnknownLabel(parameter@),
        }
    }
}

/// Whether a value has the Rust type of its field.
pub open spec fn well_typed(field: FieldModel, enums: Seq<EnumModel>, value: Datum) -> bool {
    let natural = natural_width(field.bit_width);
    match (field.kind, value) {
        (KindModel::Unsigned, Datum::Unsigned(number)) => number <= mask_value(natural),
        (KindModel::Signed(_), Datum::Signed(number)) => -pow2((natural - 1) as nat) <= number
            < pow2((natural - 1) as nat),
        (KindModel::Float16, Datum::Single(_)) => true,
        (KindModel::Float32, Datum::Single(_)) => true,
        (KindModel::Float64, Datum::Double(_)) => true,
        (KindModel::Bool, Datum::Bool(_)) => true,
        (KindModel::Enumerated(index), Datum::Enumerated(variant)) => 0 <= variant
            < enums[index].variants.len(),
        (KindModel::Text(_, _), Datum::Text(_)) => true,
        (KindModel::Binary, Datum::Binary(_)) => true,
        _ => false,
    }
}

/// Whether values are those of a container's struct: one for each field, of its type.
pub open spec fn is_packet(
    container: ContainerModel,
    enums: Seq<EnumModel>,
    values: Seq<Datum>,
) -> bool {
    &&& values.len() == container.fields.len()
    &&& forall|i: int|
        0 <= i < values.len() ==> well_typed(container.fields[i], enums, #[trigger] values[i])
}

// ---------------------------------------------------------------------------------------
// Searching
// ---------------------------------------------------------------------------------------

/// Whether `needle` stands in `haystack` at `at`.
pub open spec fn occurs_at(haystack: Seq<u8>, needle: Seq<u8>, at: int) -> bool {
    &&& 0 <= at
    &&& at + needle.len() <= haystack.len()
    &&& haystack.subrange(at, at + needle.len()) == needle
}

/// The first place from `at` on where `needle` stands in `haystack`.
pub open spec fn first_from(haystack: Seq<u8>, needle: Seq<u8>, at: int) -> Option<int>
    decreases haystack.len() - at,
{
    if at < 0 || at + needle.len() > haystack.len() {
        None
    } else if occurs_at(haystack, needle, at) {
        Some(at)
    } else if at >= haystack.len() {
        None
    } else {
        first_from(haystack, needle, at + 1)
    }
}

/// The first place where `needle` stands in `haystack`. An empty needle stands nowhere.
pub open spec fn first_occurrence(haystack: Seq<u8>, needle: Seq<u8>) -> Option<int> {
    if needle.len() == 0 {
        None
    } else {
        first_from(haystack, needle, 0)
    }
}

/// The index of the first occurrence of `needle` in `haystack`.
pub fn find(haystack: &[u8], needle: &[u8]) -> (at: Option<usize>)
    ensures
        match first_occurrence(haystack@, needle@) {
            Some(place) => at matches Some(found) && found == place,
            None => at is None,
        },
{
    if needle.len() == 0 || haystack.len() < needle.len() {
        return None;
    }
    let last = haystack.len() - needle.len();
    let mut at: usize = 0;
    loop
        invariant
            at <= last,
            last == haystack.len() - needle.len(),
            needle@.len() > 0,
            first_from(haystack@, needle@, 0) == first_from(haystack@, needle@, at as int),
        decreases last - at,
    {
        if same_bytes(haystack, at, needle) {
            return Some(at);
        }
        if at == last {
            assert(first_from(haystack@, needle@, at + 1) is None);
            return None;
        }
        at = at + 1;
    }
}

/// Whether a terminator behind a text is found before the end of the text: inside it, or beginning
/// in it and ending behind it.
pub open spec fn is_early(text: Seq<u8>, terminator: Seq<u8>) -> bool {
    first_occurrence(text + terminator, terminator) != Some(text.len() as int)
}

/// Whether a terminator behind a text is found before the end of the text.
fn ends_early(text: &[u8], terminator: &[u8]) -> (early: bool)
    ensures
        early == is_early(text@, terminator@),
{
    let mut joined: Vec<u8> = Vec::new();
    add_bytes(&mut joined, text);
    add_bytes(&mut joined, terminator);
    assert(joined@ =~= text@ + terminator@);
    match find(joined.as_slice(), terminator) {
        Some(at) => at != text.len(),
        None => true,
    }
}

/// Adds bytes behind others.
fn add_bytes(all: &mut Vec<u8>, bytes: &[u8])
    ensures
        final(all)@ == old(all)@ + bytes@,
{
    let mut at: usize = 0;
    assert(all@ =~= old(all)@ + bytes@.take(0));
    while at < bytes.len()
        invariant
            at <= bytes@.len(),
            all@ == old(all)@ + bytes@.take(at as int),
        decreases bytes@.len() - at,
    {
        all.push(bytes[at]);
        assert(all@ =~= old(all)@ + bytes@.take(at + 1));
        at = at + 1;
    }
    assert(bytes@.take(at as int) =~= bytes@);
}

/// Whether the bytes of `haystack` from `at` are those of `needle`.
fn same_bytes(haystack: &[u8], at: usize, needle: &[u8]) -> (same: bool)
    requires
        at + needle@.len() <= haystack@.len(),
    ensures
        same == occurs_at(haystack@, needle@, at as int),
{
    let mut index: usize = 0;
    while index < needle.len()
        invariant
            index <= needle.len(),
            at + needle.len() <= haystack.len(),
            forall|j: int| 0 <= j < index ==> haystack@[at + j] == #[trigger] needle@[j],
        decreases needle.len() - index,
    {
        if haystack[at + index] != needle[index] {
            assert(haystack@.subrange(at as int, at + needle@.len())[index as int]
                != needle@[index as int]);
            return false;
        }
        index = index + 1;
    }
    assert(haystack@.subrange(at as int, at + needle@.len()) =~= needle@);
    true
}

// ---------------------------------------------------------------------------------------
// Encoding
// ---------------------------------------------------------------------------------------

/// A packet after bytes have been copied into it at `at`.
pub open spec fn spliced(data: Seq<u8>, at: int, bytes: Seq<u8>) -> Seq<u8> {
    Seq::new(
        data.len(),
        |j: int|
            if at <= j < at + bytes.len() {
                bytes[j - at]
            } else {
                data[j]
            },
    )
}

/// Why a string cannot be written into its field.
pub open spec fn text_refusal(
    field: FieldModel,
    charset: TextCharset,
    delimiter: DelimiterModel,
    text: Seq<char>,
) -> Option<Refusal> {
    let bytes = encode_utf8(text);
    let room = field.bit_width / 8;
    if charset == TextCharset::UsAscii && !is_ascii_chars(text) {
        Some(Refusal::InvalidText(field.xtce_name))
    } else {
        match delimiter {
            DelimiterModel::WholeBuffer => if bytes.len() != room {
                Some(Refusal::TextLength(field.xtce_name))
            } else {
                None
            },
            DelimiterModel::TerminationChar(terminator) => if bytes.len() > room
                - terminator.len() {
                Some(Refusal::TextLength(field.xtce_name))
            } else if is_early(bytes, terminator) {
                Some(Refusal::EmbeddedTerminator(field.xtce_name))
            } else {
                None
            },
            DelimiterModel::LeadingSize(size) => if bytes.len() > room - size / 8 || 8
                * bytes.len() > mask_value(size as int) {
                Some(Refusal::TextLength(field.xtce_name))
            } else {
                None
            },
        }
    }
}

/// A packet after a string has been written into its field.
pub open spec fn text_written(
    field: FieldModel,
    delimiter: DelimiterModel,
    text: Seq<char>,
    data: Seq<u8>,
) -> Seq<u8> {
    let bytes = encode_utf8(text);
    let start = field.bit_offset / 8;
    match delimiter {
        DelimiterModel::WholeBuffer => spliced(data, start, bytes),
        DelimiterModel::TerminationChar(terminator) => spliced(
            spliced(data, start, bytes),
            start + bytes.len(),
            terminator,
        ),
        // The prefix counts bits.
        DelimiterModel::LeadingSize(size) => spliced(
            written(data, field.bit_offset, size as int, (8 * bytes.len()) as u64),
            start + size / 8,
            bytes,
        ),
    }
}

/// Why a value cannot be written into its field.
pub open spec fn field_refusal(field: FieldModel, value: Datum) -> Option<Refusal> {
    match (field.kind, value) {
        (KindModel::Unsigned, Datum::Unsigned(number)) => if number <= mask_value(
            field.bit_width,
        ) {
            None
        } else {
            Some(Refusal::OutOfRange(field.xtce_name))
        },
        (KindModel::Signed(coding), Datum::Signed(number)) => if signed_fits(
            coding,
            field.bit_width,
            number as int,
        ) {
            None
        } else {
            Some(Refusal::OutOfRange(field.xtce_name))
        },
        (KindModel::Text(charset, delimiter), Datum::Text(text)) => text_refusal(
            field,
            charset,
            delimiter,
            text,
        ),
        (KindModel::Binary, Datum::Binary(bytes)) => if 8 * bytes.len() == field.bit_width {
            None
        } else {
            Some(Refusal::BinaryLength(field.xtce_name))
        },
        _ => None,
    }
}

/// The number a value that is not text or bytes stands for in the packet, before byte order.
pub open spec fn scalar_bits(field: FieldModel, enums: Seq<EnumModel>, value: Datum) -> int {
    match (field.kind, value) {
        (KindModel::Unsigned, Datum::Unsigned(number)) => number as int,
        (KindModel::Signed(coding), Datum::Signed(number)) => signed_raw(
            coding,
            field.bit_width,
            number as int,
        ),
        (KindModel::Float16, Datum::Single(bits)) => narrowed(bits) as int,
        (KindModel::Float32, Datum::Single(bits)) => bits as int,
        (KindModel::Float64, Datum::Double(bits)) => bits as int,
        (KindModel::Bool, Datum::Bool(flag)) => if flag {
            1
        } else {
            0
        },
        (KindModel::Enumerated(index), Datum::Enumerated(variant)) =>
            enums[index].variants[variant].raw as int,
        _ => 0,
    }
}

/// Bits in the byte order of their field.
pub open spec fn in_order(field: FieldModel, bits: int) -> int {
    if field.swap_bytes && field.bit_width > 8 {
        swapped(bits, field.bit_width)
    } else {
        bits
    }
}

/// A packet after a value has been written into its field.
pub open spec fn field_written(
    field: FieldModel,
    enums: Seq<EnumModel>,
    value: Datum,
    data: Seq<u8>,
) -> Seq<u8> {
    match (field.kind, value) {
        (KindModel::Text(_, delimiter), Datum::Text(text)) => text_written(
            field,
            delimiter,
            text,
            data,
        ),
        (KindModel::Binary, Datum::Binary(bytes)) => spliced(data, field.bit_offset / 8, bytes),
        _ => written(
            data,
            field.bit_offset,
            field.bit_width,
            in_order(field, scalar_bits(field, enums, value)) as u64,
        ),
    }
}

/// A packet after its first `count` criteria have been written.
pub open spec fn constants_written(
    data: Seq<u8>,
    constants: Seq<ConstantModel>,
    count: nat,
) -> Seq<u8>
    decreases count,
{
    if count == 0 {
        data
    } else {
        let last = constants[count - 1];
        written(
            constants_written(data, constants, (count - 1) as nat),
            last.bit_offset,
            last.bit_width,
            last.raw,
        )
    }
}

/// A packet after a fixed value has been written.
pub open spec fn one_fixed_written(data: Seq<u8>, fixed: FixedModel) -> Seq<u8> {
    match fixed_as_u64(fixed) {
        Some(raw) => written(data, fixed.bit_offset, fixed.bit_width, raw),
        None => spliced(data, fixed.bit_offset / 8, fixed.value),
    }
}

/// A packet after its first `count` fixed values have been written.
pub open spec fn fixed_written(data: Seq<u8>, fixed: Seq<FixedModel>, count: nat) -> Seq<u8>
    decreases count,
{
    if count == 0 {
        data
    } else {
        one_fixed_written(fixed_written(data, fixed, (count - 1) as nat), fixed[count - 1])
    }
}

/// A packet before the caller's values go in: clean, with the criteria and the fixed values.
pub open spec fn blank(container: ContainerModel) -> Seq<u8> {
    let clean = Seq::new(container.len_bytes as nat, |j: int| 0u8);
    let marked = constants_written(clean, container.constants, container.constants.len());
    fixed_written(marked, container.fixed, container.fixed.len())
}

/// A packet after the first `count` fields have been written.
pub open spec fn filled(
    container: ContainerModel,
    enums: Seq<EnumModel>,
    values: Seq<Datum>,
    count: nat,
) -> Seq<u8>
    decreases count,
{
    if count == 0 {
        blank(container)
    } else {
        field_written(
            container.fields[count - 1],
            enums,
            values[count - 1],
            filled(container, enums, values, (count - 1) as nat),
        )
    }
}

/// The packet that values encode to.
pub open spec fn encoded(
    container: ContainerModel,
    enums: Seq<EnumModel>,
    values: Seq<Datum>,
) -> Seq<u8> {
    filled(container, enums, values, container.fields.len())
}

/// How many fields from `from` on are accepted before one is refused.
pub open spec fn accepted_from(fields: Seq<FieldModel>, values: Seq<Datum>, from: nat) -> nat
    decreases fields.len() - from,
{
    if from >= fields.len() || field_refusal(fields[from as int], values[from as int]) is Some {
        from
    } else {
        accepted_from(fields, values, from + 1)
    }
}

/// Why values cannot be encoded: the first field that refuses its value says so.
pub open spec fn encode_refusal(container: ContainerModel, values: Seq<Datum>) -> Option<Refusal> {
    let accepted = accepted_from(container.fields, values, 0);
    if accepted >= container.fields.len() {
        None
    } else {
        field_refusal(container.fields[accepted as int], values[accepted as int])
    }
}

/// Copies bytes into a packet.
fn copy_into(out: &mut [u8], at: usize, bytes: &[u8])
    requires
        at + bytes@.len() <= old(out)@.len(),
    ensures
        final(out)@ == spliced(old(out)@, at as int, bytes@),
{
    let mut index: usize = 0;
    while index < bytes.len()
        invariant
            index <= bytes.len(),
            at + bytes.len() <= out.len(),
            out@.len() == old(out)@.len(),
            forall|j: int|
                0 <= j < out@.len() ==> out@[j] == if at <= j < at + index {
                    bytes@[j - at]
                } else {
                    old(out)@[j]
                },
        decreases bytes.len() - index,
    {
        out[at + index] = bytes[index];
        index = index + 1;
    }
    assert(out@ =~= spliced(old(out)@, at as int, bytes@));
}

/// Writes a string into its field, as its delimiter asks.
fn write_text<'c>(
    field: &'c FlightField,
    charset: TextCharset,
    delimiter: &TextDelimiter,
    text: &str,
    out: &mut [u8],
    Ghost(enums): Ghost<Seq<EnumModel>>,
) -> (result: Result<(), EncodeError<'c>>)
    requires
        field@.kind == KindModel::Text(charset, delimiter@),
        field@.valid(enums, old(out)@.len() as int),
    ensures
        match text_refusal(field@, charset, delimiter@, text@) {
            Some(refusal) => (result matches Err(error) && error@ == refusal) && final(out)@ == old(
                out,
            )@,
            None => result is Ok && final(out)@ == text_written(
                field@,
                delimiter@,
                text@,
                old(out)@,
            ),
        },
{
    let parameter = field.xtce_name.as_str();
    let start = field.bit_offset / 8;
    let len = field.bit_width as usize / 8;
    if charset == TextCharset::UsAscii && !text.is_ascii() {
        return Err(EncodeError::InvalidText { parameter });
    }
    let bytes = text.as_bytes();
    match delimiter {
        TextDelimiter::WholeBuffer => {
            // The whole buffer is the string, so a shorter one would decode with its padding
            // attached.
            if bytes.len() != len {
                return Err(EncodeError::TextLength { parameter });
            }
            copy_into(out, start, bytes);
        },
        TextDelimiter::TerminationChar(terminator) => {
            if bytes.len() > len - terminator.len() {
                return Err(EncodeError::TextLength { parameter });
            }
            // A terminator before the end of the string would make the decoded value a prefix of
            // what was encoded.
            if ends_early(bytes, terminator.as_slice()) {
                return Err(EncodeError::EmbeddedTerminator { parameter });
            }
            copy_into(out, start, bytes);
            copy_into(out, start + bytes.len(), terminator.as_slice());
        },
        TextDelimiter::LeadingSize { size_in_bits } => {
            let prefix = *size_in_bits as usize / 8;
            if bytes.len() > len - prefix {
                return Err(EncodeError::TextLength { parameter });
            }
            let length_bits = bytes.len() as u64 * 8;
            if length_bits > mask_for(*size_in_bits) {
                return Err(EncodeError::TextLength { parameter });
            }
            write_bits(out, field.bit_offset, *size_in_bits, length_bits);
            copy_into(out, start + prefix, bytes);
        },
    }
    Ok(())
}

/// The bits that a value that is not text or bytes becomes, before byte order.
fn raw_from_value(
    field: &FlightField,
    enums: &Vec<EnumType>,
    value: &Value,
    Ghost(len_bytes): Ghost<int>,
) -> (raw: u64)
    requires
        field@.valid(enum_models(enums@), len_bytes),
        well_typed(field@, enum_models(enums@), value@),
        field_refusal(field@, value@) is None,
    ensures
        raw == scalar_bits(field@, enum_models(enums@), value@),
{
    match (&field.kind, value) {
        (Kind::Unsigned, Value::Unsigned(number)) => *number,
        (Kind::Signed(coding), Value::Signed(number)) => raw_from_signed(
            *coding,
            field.bit_width,
            *number,
        ),
        (Kind::Float16, Value::Single(bits)) => f32_bits_to_half(*bits) as u64,
        (Kind::Float32, Value::Single(bits)) => *bits as u64,
        (Kind::Float64, Value::Double(bits)) => *bits,
        (Kind::Bool, Value::Bool(flag)) => if *flag {
            1
        } else {
            0
        },
        (Kind::Enumerated(index), Value::Enumerated(variant)) => {
            let definition = &enums[*index];
            assert(definition@ == enum_models(enums@)[*index as int]);
            definition.variants[*variant].1
        },
        _ => 0,
    }
}

/// Writes a value into its field, or names the field that cannot hold it.
pub fn encode_field<'c>(
    field: &'c FlightField,
    enums: &Vec<EnumType>,
    value: &Value,
    out: &mut [u8],
) -> (result: Result<(), EncodeError<'c>>)
    requires
        field@.valid(enum_models(enums@), old(out)@.len() as int),
        well_typed(field@, enum_models(enums@), value@),
    ensures
        match field_refusal(field@, value@) {
            Some(refusal) => (result matches Err(error) && error@ == refusal) && final(out)@ == old(
                out,
            )@,
            None => result is Ok && final(out)@ == field_written(
                field@,
                enum_models(enums@),
                value@,
                old(out)@,
            ),
        },
{
    let parameter = field.xtce_name.as_str();
    match (&field.kind, value) {
        (Kind::Text { charset, delimiter }, Value::Text(text)) => {
            return write_text(field, *charset, delimiter, *text, out, Ghost(enum_models(enums@)));
        },
        (Kind::Binary, Value::Binary(bytes)) => {
            // Fixed-size binary has no delimiter, so a short value cannot be told from a padded
            // one on the way back.
            if bytes.len() != field.bit_width as usize / 8 {
                return Err(EncodeError::BinaryLength { parameter });
            }
            copy_into(out, field.bit_offset / 8, *bytes);
            return Ok(());
        },
        (Kind::Unsigned, Value::Unsigned(number)) => {
            if *number > mask_for(field.bit_width) {
                return Err(EncodeError::OutOfRange { parameter });
            }
        },
        (Kind::Signed(coding), Value::Signed(number)) => {
            if !check_signed(*coding, field.bit_width, *number) {
                return Err(EncodeError::OutOfRange { parameter });
            }
        },
        _ => {},
    }
    let raw = raw_from_value(field, enums, value, Ghost(out@.len() as int));
    let ordered = if field.swap_bytes && field.bit_width > 8 {
        swap_field_bytes(raw, field.bit_width)
    } else {
        raw
    };
    write_bits(out, field.bit_offset, field.bit_width, ordered);
    Ok(())
}

/// Writes the restriction criteria.
fn write_constants(constants: &Vec<Constant>, out: &mut [u8])
    requires
        forall|i: int|
            0 <= i < constants@.len() ==> (#[trigger] constants@[i])@.valid(
                old(out)@.len() as int,
            ),
    ensures
        final(out)@.len() == old(out)@.len(),
        final(out)@ == constants_written(
            old(out)@,
            constants@.map_values(|constant: Constant| constant@),
            constants@.len(),
        ),
{
    let ghost models = constants@.map_values(|constant: Constant| constant@);
    let mut index: usize = 0;
    while index < constants.len()
        invariant
            index <= constants@.len(),
            out@.len() == old(out)@.len(),
            models == constants@.map_values(|constant: Constant| constant@),
            out@ == constants_written(old(out)@, models, index as nat),
            forall|i: int|
                0 <= i < constants@.len() ==> (#[trigger] constants@[i])@.valid(out@.len() as int),
        decreases constants@.len() - index,
    {
        let constant = &constants[index];
        assert(constant@ == models[index as int]);
        write_bits(out, constant.bit_offset, constant.bit_width, constant.raw);
        index = index + 1;
    }
}

/// Writes the values the definition fixes.
fn write_fixed(fixed: &Vec<FixedValue>, out: &mut [u8])
    requires
        forall|i: int|
            0 <= i < fixed@.len() ==> (#[trigger] fixed@[i])@.valid(old(out)@.len() as int),
    ensures
        final(out)@.len() == old(out)@.len(),
        final(out)@ == fixed_written(
            old(out)@,
            fixed@.map_values(|value: FixedValue| value@),
            fixed@.len(),
        ),
{
    let ghost models = fixed@.map_values(|value: FixedValue| value@);
    let mut index: usize = 0;
    while index < fixed.len()
        invariant
            index <= fixed@.len(),
            out@.len() == old(out)@.len(),
            models == fixed@.map_values(|value: FixedValue| value@),
            out@ == fixed_written(old(out)@, models, index as nat),
            forall|i: int|
                0 <= i < fixed@.len() ==> (#[trigger] fixed@[i])@.valid(out@.len() as int),
        decreases fixed@.len() - index,
    {
        let value = &fixed[index];
        assert(value@ == models[index as int]);
        match value.as_u64() {
            Some(raw) => {
                write_bits(out, value.bit_offset, value.bit_width, raw);
            },
            None => {
                copy_into(out, value.bit_offset / 8, value.value.as_slice());
            },
        }
        index = index + 1;
    }
}

/// Every field before the first refused one is accepted.
pub proof fn lemma_accepted(fields: Seq<FieldModel>, values: Seq<Datum>, from: nat, at: nat)
    requires
        from <= at <= fields.len(),
        forall|i: int| from <= i < at ==> field_refusal(fields[i], #[trigger] values[i]) is None,
    ensures
        accepted_from(fields, values, from) == accepted_from(fields, values, at),
    decreases at - from,
{
    if from < at {
        assert(field_refusal(fields[from as int], values[from as int]) is None);
        lemma_accepted(fields, values, from + 1, at);
    }
}

/// Encodes into a buffer of exactly the container's length.
fn encode_exactly<'c>(
    container: &'c Container,
    enums: &Vec<EnumType>,
    values: &[Value],
    out: &mut [u8],
) -> (result: Result<(), EncodeError<'c>>)
    requires
        container@.valid(enum_models(enums@)),
        is_packet(container@, enum_models(enums@), datums(values@)),
        old(out)@.len() == container@.len_bytes,
    ensures
        match encode_refusal(container@, datums(values@)) {
            Some(refusal) => result matches Err(error) && error@ == refusal,
            None => result is Ok,
        },
        final(out)@.len() == old(out)@.len(),
        final(out)@ == filled(
            container@,
            enum_models(enums@),
            datums(values@),
            accepted_from(container@.fields, datums(values@), 0),
        ),
{
    let mut index: usize = 0;
    while index < out.len()
        invariant
            index <= out@.len(),
            out@.len() == container@.len_bytes,
            forall|j: int| 0 <= j < index ==> out@[j] == 0,
        decreases out@.len() - index,
    {
        out[index] = 0;
        index = index + 1;
    }
    assert(out@ =~= Seq::new(container@.len_bytes as nat, |j: int| 0u8));
    assert forall|i: int| 0 <= i < container.constants@.len() implies (
    #[trigger] container.constants@[i])@.valid(out@.len() as int) by {
        assert(container@.constants[i].valid(container@.len_bytes));
    }
    write_constants(&container.constants, out);
    assert forall|i: int| 0 <= i < container.fixed@.len() implies (
    #[trigger] container.fixed@[i])@.valid(out@.len() as int) by {
        assert(container@.fixed[i].valid(container@.len_bytes));
    }
    write_fixed(&container.fixed, out);

    let ghost fields = container@.fields;
    let ghost inputs = datums(values@);
    let mut index: usize = 0;
    while index < container.fields.len()
        invariant
            index <= container.fields@.len(),
            container@.valid(enum_models(enums@)),
            is_packet(container@, enum_models(enums@), inputs),
            inputs == datums(values@),
            fields == container@.fields,
            old(out)@.len() == container@.len_bytes,
            out@.len() == container@.len_bytes,
            out@ == filled(container@, enum_models(enums@), inputs, index as nat),
            forall|i: int|
                0 <= i < index ==> field_refusal(fields[i], #[trigger] inputs[i]) is None,
        decreases container.fields@.len() - index,
    {
        let field = &container.fields[index];
        assert(field@ == fields[index as int]);
        assert(values@[index as int]@ == inputs[index as int]);
        proof {
            lemma_accepted(fields, inputs, 0, index as nat);
        }
        match encode_field(field, enums, &values[index], out) {
            Ok(()) => {},
            Err(error) => {
                return Err(error);
            },
        }
        index = index + 1;
    }
    proof {
        lemma_accepted(fields, inputs, 0, index as nat);
    }
    Ok(())
}

/// Writes a packet into `out`, returning how many bytes were written.
///
/// Bytes of `out` after the packet are left alone. A value that does not fit is refused by
/// name, with the fields in front of it already written.
pub fn encode<'c>(
    container: &'c Container,
    enums: &Vec<EnumType>,
    values: &[Value],
    out: &mut [u8],
) -> (result: Result<usize, EncodeError<'c>>)
    requires
        container@.valid(enum_models(enums@)),
        is_packet(container@, enum_models(enums@), datums(values@)),
    ensures
        final(out)@.len() == old(out)@.len(),
        if old(out)@.len() < container@.len_bytes {
            &&& result matches Err(error) && error@ == Refusal::TooShort(container@.len_bytes)
            &&& final(out)@ == old(out)@
        } else {
            &&& match encode_refusal(container@, datums(values@)) {
                Some(refusal) => result matches Err(error) && error@ == refusal,
                None => result == Ok::<usize, EncodeError<'c>>(container.len_bytes),
            }
            &&& final(out)@ == filled(
                container@,
                enum_models(enums@),
                datums(values@),
                accepted_from(container@.fields, datums(values@), 0),
            ) + old(out)@.skip(container@.len_bytes)
        },
{
    if out.len() < container.len_bytes {
        return Err(EncodeError::TooShort { needed: container.len_bytes });
    }
    let (packet, _rest) = out.split_at_mut(container.len_bytes);
    match encode_exactly(container, enums, values, packet) {
        Ok(()) => Ok(container.len_bytes),
        Err(error) => Err(error),
    }
}

// ---------------------------------------------------------------------------------------
// Decoding
// ---------------------------------------------------------------------------------------

/// The number a field's bits hold, with its byte order applied.
pub open spec fn bits_in_order(field: FieldModel, data: Seq<u8>) -> int {
    in_order(field, number(data, field.bit_offset, field.bit_width as nat) as int)
}

/// The bytes of a field that starts on a byte.
pub open spec fn field_bytes(field: FieldModel, data: Seq<u8>) -> Seq<u8> {
    data.subrange(field.bit_offset / 8, (field.bit_offset + field.bit_width) / 8)
}

/// The bytes of a string inside its field.
pub open spec fn text_bytes(
    field: FieldModel,
    delimiter: DelimiterModel,
    data: Seq<u8>,
) -> Result<Seq<u8>, Fault> {
    let buffer = field_bytes(field, data);
    match delimiter {
        DelimiterModel::WholeBuffer => Ok(buffer),
        DelimiterModel::TerminationChar(terminator) => match first_occurrence(buffer, terminator) {
            Some(end) => Ok(buffer.take(end)),
            None => Err(Fault::UnterminatedString(field.xtce_name)),
        },
        DelimiterModel::LeadingSize(size) => {
            let prefix = size as int / 8;
            let length_bits = number(data, field.bit_offset, size as nat) as int;
            if length_bits % 8 != 0 || prefix + length_bits / 8 > buffer.len() {
                Err(Fault::BadStringLength(field.xtce_name))
            } else {
                Ok(buffer.subrange(prefix, prefix + length_bits / 8))
            }
        },
    }
}

/// Whether bytes are seven-bit characters.
pub open spec fn ascii_bytes(bytes: Seq<u8>) -> bool {
    forall|i: int| 0 <= i < bytes.len() ==> #[trigger] bytes[i] < 128
}

/// The string that bytes spell.
pub open spec fn text_decoded(
    field: FieldModel,
    charset: TextCharset,
    bytes: Seq<u8>,
) -> Result<Seq<char>, Fault> {
    if (charset == TextCharset::UsAscii && !ascii_bytes(bytes)) || !valid_utf8(bytes) {
        Err(Fault::InvalidText(field.xtce_name))
    } else {
        Ok(decode_utf8(bytes))
    }
}

/// The position, from `at` on, of the first variant with a raw value.
pub open spec fn variant_from(definition: EnumModel, raw: int, at: int) -> Option<int>
    decreases definition.variants.len() - at,
{
    if at < 0 || at >= definition.variants.len() {
        None
    } else if definition.variants[at].raw == raw {
        Some(at)
    } else {
        variant_from(definition, raw, at + 1)
    }
}

/// What a decoder makes of a field.
pub open spec fn field_decoded(
    field: FieldModel,
    enums: Seq<EnumModel>,
    data: Seq<u8>,
) -> Result<Datum, Fault> {
    let raw = bits_in_order(field, data);
    match field.kind {
        KindModel::Unsigned => Ok(Datum::Unsigned(raw as u64)),
        KindModel::Signed(coding) => Ok(
            Datum::Signed(signed_value(coding, field.bit_width, raw) as i64),
        ),
        KindModel::Float16 => Ok(Datum::Single(widened(raw as u16))),
        KindModel::Float32 => Ok(Datum::Single(raw as u32)),
        KindModel::Float64 => Ok(Datum::Double(raw as u64)),
        KindModel::Bool => Ok(Datum::Bool(raw != 0)),
        KindModel::Enumerated(index) => match variant_from(enums[index], raw, 0) {
            Some(variant) => Ok(Datum::Enumerated(variant)),
            None => Err(Fault::UnknownLabel(field.xtce_name)),
        },
        KindModel::Text(charset, delimiter) => match text_bytes(field, delimiter, data) {
            Ok(bytes) => match text_decoded(field, charset, bytes) {
                Ok(text) => Ok(Datum::Text(text)),
                Err(fault) => Err(fault),
            },
            Err(fault) => Err(fault),
        },
        KindModel::Binary => Ok(Datum::Binary(field_bytes(field, data))),
    }
}

/// How many fields from `from` on can be decoded before one cannot.
pub open spec fn readable_from(
    fields: Seq<FieldModel>,
    enums: Seq<EnumModel>,
    data: Seq<u8>,
    from: nat,
) -> nat
    decreases fields.len() - from,
{
    if from >= fields.len() || field_decoded(fields[from as int], enums, data) is Err {
        from
    } else {
        readable_from(fields, enums, data, from + 1)
    }
}

/// What a packet of exactly the container's length decodes to: a value for each field, or what
/// is wrong with the first field that has none.
pub open spec fn decoded(
    container: ContainerModel,
    enums: Seq<EnumModel>,
    data: Seq<u8>,
) -> Result<Seq<Datum>, Fault> {
    let readable = readable_from(container.fields, enums, data, 0);
    if readable < container.fields.len() {
        match field_decoded(container.fields[readable as int], enums, data) {
            Ok(_) => Ok(Seq::empty()),
            Err(fault) => Err(fault),
        }
    } else {
        Ok(
            Seq::new(
                container.fields.len(),
                |i: int| field_decoded(container.fields[i], enums, data)->Ok_0,
            ),
        )
    }
}

/// Whether bytes are seven-bit characters.
fn is_ascii(bytes: &[u8]) -> (ascii: bool)
    ensures
        ascii == ascii_bytes(bytes@),
{
    let mut index: usize = 0;
    while index < bytes.len()
        invariant
            index <= bytes@.len(),
            forall|i: int| 0 <= i < index ==> #[trigger] bytes@[i] < 128,
        decreases bytes@.len() - index,
    {
        if bytes[index] >= 128 {
            return false;
        }
        index = index + 1;
    }
    true
}

/// `core::str::from_utf8`.
///
/// Taken on trust: it accepts exactly the byte sequences that are well-formed UTF-8, and the
/// text it gives back is the one they encode.
#[verifier::external_body]
fn text_from_bytes<'a>(bytes: &'a [u8]) -> (text: Option<&'a str>)
    ensures
        match text {
            Some(text) => valid_utf8(bytes@) && text@ == decode_utf8(bytes@),
            None => !valid_utf8(bytes@),
        },
{
    core::str::from_utf8(bytes).ok()
}

/// Reads a field's bits, with its byte order applied.
fn read_in_order(
    field: &FlightField,
    data: &[u8],
    Ghost(enums): Ghost<Seq<EnumModel>>,
) -> (raw: u64)
    requires
        field@.valid(enums, data@.len() as int),
        !field@.kind.borrows(),
    ensures
        raw == bits_in_order(field@, data@),
        raw < pow2(field@.bit_width as nat),
{
    let raw = read_bits(data, field.bit_offset, field.bit_width);
    proof {
        lemma_number_bound(data@, field@.bit_offset, field@.bit_width as nat);
        if field@.swap_bytes {
            lemma_swapped(raw as int, field@.bit_width);
        }
    }
    if field.swap_bytes && field.bit_width > 8 {
        swap_field_bytes(raw, field.bit_width)
    } else {
        raw
    }
}

/// Reads a string out of its field.
fn read_text<'a, 'c>(
    field: &'c FlightField,
    charset: TextCharset,
    delimiter: &TextDelimiter,
    data: &'a [u8],
    Ghost(enums): Ghost<Seq<EnumModel>>,
) -> (result: Result<&'a str, DecodeError<'c>>)
    requires
        field@.kind == KindModel::Text(charset, delimiter@),
        field@.valid(enums, data@.len() as int),
    ensures
        match field_decoded(field@, enums, data@) {
            Ok(value) => result matches Ok(text) && value == Datum::Text(text@),
            Err(fault) => result matches Err(error) && error@ == fault,
        },
{
    let parameter = field.xtce_name.as_str();
    let buffer = slice_subrange(
        data,
        field.bit_offset / 8,
        (field.bit_offset + field.bit_width as usize) / 8,
    );
    let text = match delimiter {
        TextDelimiter::WholeBuffer => buffer,
        TextDelimiter::TerminationChar(terminator) => {
            match find(buffer, terminator.as_slice()) {
                Some(end) => {
                    proof {
                        lemma_first_from(buffer@, terminator@, 0);
                        assert(buffer@.take(end as int) =~= buffer@.subrange(0, end as int));
                    }
                    slice_subrange(buffer, 0, end)
                },
                None => {
                    return Err(DecodeError::UnterminatedString { parameter });
                },
            }
        },
        TextDelimiter::LeadingSize { size_in_bits } => {
            let prefix = *size_in_bits as usize / 8;
            let length_bits = read_bits(data, field.bit_offset, *size_in_bits);
            proof {
                lemma_number_bound(data@, field@.bit_offset, *size_in_bits as nat);
                lemma2_to64();
                if *size_in_bits < 32 {
                    lemma_pow2_strictly_increases(*size_in_bits as nat, 32);
                }
            }
            if length_bits % 8 != 0 {
                return Err(DecodeError::BadStringLength { parameter });
            }
            let length = (length_bits / 8) as usize;
            if length > buffer.len() - prefix {
                return Err(DecodeError::BadStringLength { parameter });
            }
            slice_subrange(buffer, prefix, prefix + length)
        },
    };
    if charset == TextCharset::UsAscii && !is_ascii(text) {
        return Err(DecodeError::InvalidText { parameter });
    }
    match text_from_bytes(text) {
        Some(text) => Ok(text),
        None => Err(DecodeError::InvalidText { parameter }),
    }
}

/// What is found first lies inside the bytes that were searched.
pub proof fn lemma_first_from(haystack: Seq<u8>, needle: Seq<u8>, at: int)
    requires
        0 <= at,
    ensures
        first_from(haystack, needle, at) matches Some(place) ==> at <= place
            && occurs_at(haystack, needle, place) && forall|i: int|
            at <= i < place ==> !occurs_at(haystack, needle, i),
        first_from(haystack, needle, at) is None ==> forall|i: int|
            at <= i ==> !occurs_at(haystack, needle, i),
    decreases haystack.len() - at,
{
    if at + needle.len() <= haystack.len() && !occurs_at(haystack, needle, at) && at
        < haystack.len() {
        lemma_first_from(haystack, needle, at + 1);
    }
}

/// A terminator of one byte is found too early exactly where the text contains it.
pub proof fn lemma_one_byte_early(text: Seq<u8>, terminator: u8)
    ensures
        is_early(text, seq![terminator]) <==> text.contains(terminator),
{
    let needle = seq![terminator];
    let whole = text + needle;
    let end = text.len() as int;
    lemma_first_from(whole, needle, 0);
    assert(whole.subrange(end, end + 1) =~= needle);
    assert(occurs_at(whole, needle, end));
    let place = first_from(whole, needle, 0)->Some_0;
    if text.contains(terminator) {
        let at = choose|at: int| 0 <= at < text.len() && text[at] == terminator;
        assert(whole.subrange(at, at + 1) =~= needle);
        assert(occurs_at(whole, needle, at));
    }
    if place < end {
        assert(whole.subrange(place, place + 1)[0] == terminator);
        assert(text[place] == terminator);
    }
}

/// The position of the variant a raw value selects.
pub fn variant_for(definition: &EnumType, raw: u64) -> (variant: Option<usize>)
    ensures
        match variant_from(definition@, raw as int, 0) {
            Some(at) => variant matches Some(found) && found == at && found
                < definition@.variants.len(),
            None => variant is None,
        },
{
    let mut at: usize = 0;
    while at < definition.variants.len()
        invariant
            at <= definition.variants@.len(),
            variant_from(definition@, raw as int, 0) == variant_from(
                definition@,
                raw as int,
                at as int,
            ),
        decreases definition.variants@.len() - at,
    {
        assert(definition@.variants[at as int].raw == definition.variants@[at as int].1);
        if definition.variants[at].1 == raw {
            return Some(at);
        }
        at = at + 1;
    }
    None
}

/// Reads a field's value.
pub fn decode_field<'a, 'c>(
    field: &'c FlightField,
    enums: &Vec<EnumType>,
    data: &'a [u8],
) -> (result: Result<Value<'a>, DecodeError<'c>>)
    requires
        field@.valid(enum_models(enums@), data@.len() as int),
    ensures
        match field_decoded(field@, enum_models(enums@), data@) {
            Ok(value) => result matches Ok(found) && found@ == value,
            Err(fault) => result matches Err(error) && error@ == fault,
        },
{
    match &field.kind {
        Kind::Text { charset, delimiter } => {
            return match read_text(
                field,
                *charset,
                delimiter,
                data,
                Ghost(enum_models(enums@)),
            ) {
                Ok(text) => Ok(Value::Text(text)),
                Err(error) => Err(error),
            };
        },
        Kind::Binary => {
            return Ok(
                Value::Binary(
                    slice_subrange(
                        data,
                        field.bit_offset / 8,
                        (field.bit_offset + field.bit_width as usize) / 8,
                    ),
                ),
            );
        },
        _ => {},
    }
    let raw = read_in_order(field, data, Ghost(enum_models(enums@)));
    proof {
        lemma2_to64();
        lemma2_to64_rest();
    }
    match &field.kind {
        Kind::Unsigned => Ok(Value::Unsigned(raw)),
        Kind::Signed(coding) => Ok(Value::Signed(signed_from_raw(*coding, field.bit_width, raw))),
        Kind::Float16 => Ok(Value::Single(half_to_f32_bits(raw as u16))),
        Kind::Float32 => Ok(Value::Single(raw as u32)),
        Kind::Float64 => Ok(Value::Double(raw)),
        Kind::Bool => Ok(Value::Bool(raw != 0)),
        Kind::Enumerated(index) => {
            let definition = &enums[*index];
            assert(definition@ == enum_models(enums@)[*index as int]);
            match variant_for(definition, raw) {
                Some(variant) => Ok(Value::Enumerated(variant)),
                None => Err(DecodeError::UnknownLabel { parameter: field.xtce_name.as_str() }),
            }
        },
        Kind::Text { .. } | Kind::Binary => Ok(Value::Unsigned(0)),
    }
}

/// Every field before the first unreadable one can be read.
pub proof fn lemma_readable(
    fields: Seq<FieldModel>,
    enums: Seq<EnumModel>,
    data: Seq<u8>,
    from: nat,
    at: nat,
)
    requires
        from <= at <= fields.len(),
        forall|i: int| from <= i < at ==> field_decoded(#[trigger] fields[i], enums, data) is Ok,
    ensures
        readable_from(fields, enums, data, from) == readable_from(fields, enums, data, at),
    decreases at - from,
{
    if from < at {
        assert(field_decoded(fields[from as int], enums, data) is Ok);
        lemma_readable(fields, enums, data, from + 1, at);
    }
}

/// Reads a packet out of `data`.
///
/// Does not look at the restriction criteria: use [`matches`] for that, or [`dispatch`] to choose
/// a container.
pub fn decode<'a, 'c>(
    container: &'c Container,
    enums: &Vec<EnumType>,
    data: &'a [u8],
) -> (result: Result<Vec<Value<'a>>, DecodeError<'c>>)
    requires
        container@.valid(enum_models(enums@)),
    ensures
        if data@.len() < container@.len_bytes {
            result matches Err(error) && error@ == Fault::TooShort(container@.len_bytes)
        } else {
            match decoded(container@, enum_models(enums@), data@.take(container@.len_bytes)) {
                Ok(values) => result matches Ok(found) && datums(found@) == values,
                Err(fault) => result matches Err(error) && error@ == fault,
            }
        },
{
    if data.len() < container.len_bytes {
        return Err(DecodeError::TooShort { needed: container.len_bytes });
    }
    let packet = slice_subrange(data, 0, container.len_bytes);
    assert(packet@ =~= data@.take(container@.len_bytes));
    let ghost fields = container@.fields;
    let ghost models = enum_models(enums@);
    let mut values: Vec<Value<'a>> = Vec::new();
    while values.len() < container.fields.len()
        invariant
            values@.len() <= container.fields@.len(),
            fields == container@.fields,
            models == enum_models(enums@),
            packet@ == data@.take(container@.len_bytes),
            packet@.len() == container@.len_bytes,
            data@.len() >= container@.len_bytes,
            container@.valid(models),
            forall|i: int|
                0 <= i < values@.len() ==> field_decoded(#[trigger] fields[i], models, packet@) == Ok::<
                    Datum,
                    Fault,
                >(values@[i]@),
        decreases container.fields@.len() - values@.len(),
    {
        let field = &container.fields[values.len()];
        assert(field@ == fields[values@.len() as int]);
        proof {
            lemma_readable(fields, models, packet@, 0, values@.len());
        }
        match decode_field(field, enums, packet) {
            Ok(value) => {
                values.push(value);
            },
            Err(error) => {
                return Err(error);
            },
        }
    }
    proof {
        lemma_readable(fields, models, packet@, 0, values@.len());
        assert(datums(values@) =~= decoded(container@, models, packet@)->Ok_0);
    }
    Ok(values)
}

// ---------------------------------------------------------------------------------------
// Dispatch
// ---------------------------------------------------------------------------------------

/// Whether a packet's bits are those a criterion asks for.
pub open spec fn criterion_holds(constant: ConstantModel, data: Seq<u8>) -> bool {
    number(data, constant.bit_offset, constant.bit_width as nat) == constant.raw
}

/// Whether bytes can be a packet of a container: there are enough of them, and every criterion
/// holds.
pub open spec fn is_match(container: ContainerModel, data: Seq<u8>) -> bool {
    &&& data.len() >= container.len_bytes
    &&& forall|i: int|
        0 <= i < container.constants.len() ==> criterion_holds(
            #[trigger] container.constants[i],
            data.take(container.len_bytes),
        )
}

/// How many of the first `count` containers bytes can be a packet of.
pub open spec fn match_count(containers: Seq<ContainerModel>, data: Seq<u8>, count: nat) -> nat
    decreases count,
{
    if count == 0 {
        0
    } else {
        match_count(containers, data, (count - 1) as nat) + if is_match(
            containers[count - 1],
            data,
        ) {
            1nat
        } else {
            0
        }
    }
}

/// The last of the first `count` containers that bytes can be a packet of.
pub open spec fn last_match(containers: Seq<ContainerModel>, data: Seq<u8>, count: nat) -> int
    decreases count,
{
    if count == 0 {
        -1
    } else if is_match(containers[count - 1], data) {
        count - 1
    } else {
        last_match(containers, data, (count - 1) as nat)
    }
}

/// What bytes are taken for: the one container that claims them, and the values of its fields.
pub open spec fn dispatched(layout: LayoutModel, data: Seq<u8>) -> Result<
    (int, Seq<Datum>),
    Fault,
> {
    let matched = match_count(layout.containers, data, layout.containers.len());
    if matched == 0 {
        Err(Fault::Unrecognized)
    } else if matched > 1 {
        Err(Fault::Ambiguous)
    } else {
        let chosen = last_match(layout.containers, data, layout.containers.len());
        let container = layout.containers[chosen];
        match decoded(container, layout.enums, data.take(container.len_bytes)) {
            Ok(values) => Ok((chosen, values)),
            Err(fault) => Err(fault),
        }
    }
}

/// Whether `data` satisfies the restriction criteria that select this container.
///
/// A container with no criteria matches anything long enough to hold it.
pub fn matches(container: &Container, data: &[u8]) -> (matched: bool)
    requires
        forall|i: int|
            0 <= i < container@.constants.len() ==> (#[trigger] container@.constants[i]).valid(
                container@.len_bytes,
            ),
    ensures
        matched == is_match(container@, data@),
{
    if data.len() < container.len_bytes {
        return false;
    }
    let packet = slice_subrange(data, 0, container.len_bytes);
    assert(packet@ =~= data@.take(container@.len_bytes));
    let mut index: usize = 0;
    while index < container.constants.len()
        invariant
            index <= container.constants@.len(),
            packet@ == data@.take(container@.len_bytes),
            packet@.len() == container@.len_bytes,
            data@.len() >= container@.len_bytes,
            forall|i: int|
                0 <= i < container@.constants.len() ==> (#[trigger] container@.constants[i]).valid(
                    container@.len_bytes,
                ),
            forall|i: int|
                0 <= i < index ==> criterion_holds(#[trigger] container@.constants[i], packet@),
        decreases container.constants@.len() - index,
    {
        let constant = &container.constants[index];
        assert(constant@ == container@.constants[index as int]);
        let read = read_bits(packet, constant.bit_offset, constant.bit_width);
        if read != constant.raw {
            assert(!criterion_holds(container@.constants[index as int], packet@));
            return false;
        }
        index = index + 1;
    }
    true
}

/// Chooses a container by its restriction criteria and decodes `data` as it. The answer holds
/// the container's position and the values of its fields.
///
/// A packet that more than one container claims is an error: a definition that cannot say which
/// container a packet is has a defect, which declaration order must not hide.
pub fn dispatch<'a, 'c>(layout: &'c Layout, data: &'a [u8]) -> (result: Result<
    (usize, Vec<Value<'a>>),
    DecodeError<'c>,
>)
    requires
        layout@.valid(),
    ensures
        match dispatched(layout@, data@) {
            Ok((chosen, values)) => result matches Ok((at, found)) && at == chosen && datums(found@)
                == values,
            Err(fault) => result matches Err(error) && error@ == fault,
        },
{
    let ghost models = layout@.containers;
    let mut matched: usize = 0;
    let mut selected: usize = 0;
    let mut index: usize = 0;
    while index < layout.containers.len()
        invariant
            index <= layout.containers@.len(),
            matched <= index,
            models == layout@.containers,
            layout@.valid(),
            matched == match_count(models, data@, index as nat),
            matched > 0 ==> selected == last_match(models, data@, index as nat) && selected < index
                && is_match(models[selected as int], data@),
        decreases layout.containers@.len() - index,
    {
        let container = &layout.containers[index];
        assert(container@ == models[index as int]);
        assert(models[index as int].valid(layout@.enums));
        if matches(container, data) {
            matched = matched + 1;
            selected = index;
        }
        index = index + 1;
    }
    if matched > 1 {
        return Err(DecodeError::Ambiguous);
    }
    if matched == 0 {
        return Err(DecodeError::Unrecognized);
    }
    let container = &layout.containers[selected];
    assert(container@ == models[selected as int]);
    assert(models[selected as int].valid(layout@.enums));
    match decode(container, &layout.enums, data) {
        Ok(values) => Ok((selected, values)),
        Err(error) => Err(error),
    }
}

} // verus!
