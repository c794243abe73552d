//! `decode` and `matches`, as source.

use vstd::arithmetic::power2::*;
use vstd::prelude::*;
use vstd::string::*;

use crate::bits::{mask_for, mask_value, natural_bits, natural_width};
use crate::emit::bits::{
    read_bits, read_bits_in_order, read_in_order_text, read_text, signed_name, signed_type,
    unsigned_text, unsigned_type,
};
use crate::emit::text::{byte_list, bytes_listed, literal, string_literal};
use crate::layout::{
    enum_models, ConstantModel, Container, ContainerModel, EnumModel, EnumType, FieldModel,
    FlightField, Kind, KindModel,
};
use crate::names::{decimal, decimal_text};
use crate::plan::{DelimiterModel, IntegerCoding, TextCharset, TextDelimiter};
use crate::scalar::lemma_width_powers;

verus! {

/// The name of a generated enum, by its place. A place outside the list has the unit type.
pub open spec fn enum_name_text(index: int, enums: Seq<EnumModel>) -> Seq<char> {
    if 0 <= index < enums.len() {
        enums[index].type_ident
    } else {
        "()"@
    }
}

/// The name of a generated enum, by its place.
pub fn enum_name(index: usize, enums: &Vec<EnumType>) -> (source: String)
    ensures
        source@ == enum_name_text(index as int, enum_models(enums@)),
{
    if index < enums.len() {
        assert(enum_models(enums@)[index as int] == enums@[index as int]@);
        enums[index].type_ident.clone()
    } else {
        "()".to_owned()
    }
}

/// The expression that gives up on a field, with the name of what is wrong and of the parameter.
pub open spec fn fault_text(error: Seq<char>, name: Seq<char>) -> Seq<char> {
    "return Err(DecodeError::"@ + error + " { parameter: "@ + string_literal(name) + " })"@
}

/// The expression that gives up on a field, with the name of what is wrong and of the parameter.
fn fault(error: &str, name: &str) -> (source: String)
    ensures
        source@ == fault_text(error@, name@),
{
    let mut source = "return Err(DecodeError::".to_owned();
    source.append(error);
    source.append(" { parameter: ");
    source.append(literal(name).as_str());
    source.append(" })");
    source
}

/// The expression for the `i64` that bits mean under one of the signed codings.
pub open spec fn signed_from_raw_text(raw: Seq<char>, width: int, coding: IntegerCoding) -> Seq<
    char,
> {
    let sign = decimal_text(pow2((width - 1) as nat));
    match coding {
        IntegerCoding::Unsigned => "("@ + raw + ") as i64"@,
        IntegerCoding::TwosComplement => "(((("@ + raw + ") << "@ + decimal_text(
            (64 - width) as nat,
        ) + ") as i64) >> "@ + decimal_text((64 - width) as nat) + ")"@,
        IntegerCoding::SignMagnitude => "{\nlet raw = "@ + raw
            + ";\nlet magnitude = (raw & "@ + decimal_text(mask_value(width - 1) as nat)
            + ") as i64;\nif raw & "@ + sign + " == 0 { magnitude } else { -magnitude }\n}"@,
        IntegerCoding::OnesComplement => "{\nlet raw = "@ + raw + ";\nif raw & "@ + sign
            + " == 0 {\nraw as i64\n} else {\n-(((!raw) & "@ + decimal_text(
            mask_value(width) as nat,
        ) + ") as i64)\n}\n}"@,
    }
}

/// The expression for the `i64` that bits mean under one of the signed codings.
pub fn signed_from_raw(raw: &str, width: u32, coding: IntegerCoding) -> (source: String)
    requires
        1 <= width <= 64,
    ensures
        source@ == signed_from_raw_text(raw@, width as int, coding),
{
    proof {
        lemma_width_powers(width as int);
    }
    let largest = mask_for(width - 1);
    assert(largest + 1 == pow2((width - 1) as nat));
    let sign = decimal(largest as u128 + 1);
    match coding {
        IntegerCoding::Unsigned => {
            let mut source = "(".to_owned();
            source.append(raw);
            source.append(") as i64");
            source
        },
        IntegerCoding::TwosComplement => {
            let shift = decimal((64 - width) as u128);
            let mut source = "((((".to_owned();
            source.append(raw);
            source.append(") << ");
            source.append(shift.as_str());
            source.append(") as i64) >> ");
            source.append(shift.as_str());
            source.append(")");
            source
        },
        IntegerCoding::SignMagnitude => {
            let mut source = "{\nlet raw = ".to_owned();
            source.append(raw);
            source.append(";\nlet magnitude = (raw & ");
            source.append(decimal(largest as u128).as_str());
            source.append(") as i64;\nif raw & ");
            source.append(sign.as_str());
            source.append(" == 0 { magnitude } else { -magnitude }\n}");
            source
        },
        IntegerCoding::OnesComplement => {
            let mut source = "{\nlet raw = ".to_owned();
            source.append(raw);
            source.append(";\nif raw & ");
            source.append(sign.as_str());
            source.append(" == 0 {\nraw as i64\n} else {\n-(((!raw) & ");
            source.append(decimal(mask_for(width) as u128).as_str());
            source.append(") as i64)\n}\n}");
            source
        },
    }
}

/// A field's bytes, as a slice of the packet.
pub open spec fn slice_text(field: FieldModel) -> Seq<char> {
    "&data["@ + decimal_text((field.bit_offset / 8) as nat) + ".."@
        + decimal_text(((field.bit_offset + field.bit_width) / 8) as nat) + "]"@
}

/// A field's bytes, as a slice of the packet.
pub fn byte_slice(field: &FlightField) -> (source: String)
    requires
        field@.emittable(),
    ensures
        source@ == slice_text(field@),
{
    let end = (field.bit_offset + field.bit_width as usize) / 8;
    let mut source = "&data[".to_owned();
    source.append(decimal((field.bit_offset / 8) as u128).as_str());
    source.append("..");
    source.append(decimal(end as u128).as_str());
    source.append("]");
    source
}

/// The expression for the bytes of a string inside its field.
pub open spec fn found_text(field: FieldModel, delimiter: DelimiterModel) -> Seq<char> {
    let name = field.xtce_name;
    match delimiter {
        DelimiterModel::WholeBuffer => slice_text(field),
        DelimiterModel::TerminationChar(terminator) => "{\nconst TERMINATOR: &[u8] = &["@
            + byte_list(terminator) + "];\nlet buffer = "@ + slice_text(field)
            + ";\nmatch find(buffer, TERMINATOR) {\nSome(end) => match buffer.get(..end) {\nSome(text) => text,\nNone => "@
            + fault_text("UnterminatedString"@, name) + ",\n},\nNone => "@ + fault_text(
            "UnterminatedString"@,
            name,
        ) + ",\n}\n}"@,
        DelimiterModel::LeadingSize(size) => "{\nlet buffer = "@ + slice_text(field)
            + ";\nlet length_bits = "@ + read_text(field.bit_offset, size as int)
            + ";\nif length_bits % 8 != 0 {\n"@ + fault_text("BadStringLength"@, name)
            + ";\n}\nlet length = (length_bits / 8) as usize;\nmatch buffer.get("@ + decimal_text(
            (size / 8) as nat,
        ) + ".."@ + decimal_text((size / 8) as nat)
            + " + length) {\nSome(text) => text,\nNone => "@ + fault_text(
            "BadStringLength"@,
            name,
        ) + ",\n}\n}"@,
    }
}

/// The expression for the bytes of a string inside its field.
fn found(field: &FlightField, delimiter: &TextDelimiter) -> (source: String)
    requires
        field@.emittable(),
        field@.kind matches KindModel::Text(_, model) && model == delimiter@,
    ensures
        source@ == found_text(field@, delimiter@),
{
    let name = field.xtce_name.as_str();
    let buffer = byte_slice(field);
    match delimiter {
        TextDelimiter::WholeBuffer => buffer,
        TextDelimiter::TerminationChar(terminator) => {
            let fault = fault("UnterminatedString", name);
            let mut source = "{\nconst TERMINATOR: &[u8] = &[".to_owned();
            source.append(bytes_listed(terminator).as_str());
            source.append("];\nlet buffer = ");
            source.append(buffer.as_str());
            source.append(
                ";\nmatch find(buffer, TERMINATOR) {\nSome(end) => match buffer.get(..end) {\nSome(text) => text,\nNone => ",
            );
            source.append(fault.as_str());
            source.append(",\n},\nNone => ");
            source.append(fault.as_str());
            source.append(",\n}\n}");
            source
        },
        TextDelimiter::LeadingSize { size_in_bits } => {
            let fault = fault("BadStringLength", name);
            let prefix = decimal((*size_in_bits / 8) as u128);
            let mut source = "{\nlet buffer = ".to_owned();
            source.append(buffer.as_str());
            source.append(";\nlet length_bits = ");
            source.append(read_bits(field.bit_offset, *size_in_bits).as_str());
            source.append(";\nif length_bits % 8 != 0 {\n");
            source.append(fault.as_str());
            source.append(";\n}\nlet length = (length_bits / 8) as usize;\nmatch buffer.get(");
            source.append(prefix.as_str());
            source.append("..");
            source.append(prefix.as_str());
            source.append(" + length) {\nSome(text) => text,\nNone => ");
            source.append(fault.as_str());
            source.append(",\n}\n}");
            source
        },
    }
}

/// The expression that reads a string.
pub open spec fn decode_text_of(
    field: FieldModel,
    charset: TextCharset,
    delimiter: DelimiterModel,
) -> Seq<char> {
    let fault = fault_text("InvalidText"@, field.xtce_name);
    let ascii_check = if charset == TextCharset::UsAscii {
        "if !text.is_ascii() {\n"@ + fault + ";\n}\n"@
    } else {
        ""@
    };
    "{\nlet text = "@ + found_text(field, delimiter) + ";\n"@ + ascii_check
        + "match core::str::from_utf8(text) {\nOk(text) => text,\nErr(_) => "@ + fault
        + ",\n}\n}"@
}

/// The expression that reads a string.
pub fn decode_text(field: &FlightField, charset: TextCharset, delimiter: &TextDelimiter) -> (source:
    String)
    requires
        field@.emittable(),
        field@.kind == KindModel::Text(charset, delimiter@),
    ensures
        source@ == decode_text_of(field@, charset, delimiter@),
{
    let fault = fault("InvalidText", field.xtce_name.as_str());
    let ascii_check = if charset == TextCharset::UsAscii {
        let mut check = "if !text.is_ascii() {\n".to_owned();
        check.append(fault.as_str());
        check.append(";\n}\n");
        check
    } else {
        "".to_owned()
    };
    let mut source = "{\nlet text = ".to_owned();
    source.append(found(field, delimiter).as_str());
    source.append(";\n");
    source.append(ascii_check.as_str());
    source.append("match core::str::from_utf8(text) {\nOk(text) => text,\nErr(_) => ");
    source.append(fault.as_str());
    source.append(",\n}\n}");
    source
}

// ---------------------------------------------------------------------------------------
// Fields
// ---------------------------------------------------------------------------------------

/// The expression that reads one field.
pub open spec fn decoded_text(field: FieldModel, enums: Seq<EnumModel>) -> Seq<char> {
    let raw = read_in_order_text(field);
    let natural = natural_width(field.bit_width);
    match field.kind {
        KindModel::Text(charset, delimiter) => decode_text_of(field, charset, delimiter),
        KindModel::Binary => slice_text(field),
        KindModel::Bool => "("@ + raw + ") != 0"@,
        KindModel::Enumerated(index) => "match "@ + enum_name_text(index, enums) + "::from_raw("@
            + raw + ") {\nSome(value) => value,\nNone => "@ + fault_text(
            "UnknownLabel"@,
            field.xtce_name,
        ) + ",\n}"@,
        KindModel::Float16 => "half_to_f32(("@ + raw + ") as u16)"@,
        KindModel::Float32 => "f32::from_bits(("@ + raw + ") as u32)"@,
        KindModel::Float64 => "f64::from_bits("@ + raw + ")"@,
        KindModel::Unsigned => "("@ + raw + ") as "@ + unsigned_text(natural),
        KindModel::Signed(coding) => signed_from_raw_text(raw, field.bit_width, coding) + " as "@
            + signed_name(natural),
    }
}

/// The statement that reads one field.
pub open spec fn decode_field_text(field: FieldModel, enums: Seq<EnumModel>) -> Seq<char> {
    "let "@ + field.ident + " = "@ + decoded_text(field, enums) + ";\n"@
}

/// A text between two others.
fn between(before: &str, middle: &str, after: &str) -> (source: String)
    ensures
        source@ == before@ + middle@ + after@,
{
    let mut source = before.to_owned();
    source.append(middle);
    source.append(after);
    source
}

/// The expression that reads one field.
fn decoded(field: &FlightField, enums: &Vec<EnumType>) -> (source: String)
    requires
        field@.emittable(),
    ensures
        source@ == decoded_text(field@, enum_models(enums@)),
{
    match &field.kind {
        Kind::Text { charset, delimiter } => {
            return decode_text(field, *charset, delimiter);
        },
        Kind::Binary => {
            return byte_slice(field);
        },
        _ => {},
    }
    let raw = read_bits_in_order(field);
    let natural = natural_bits(field.bit_width);
    match &field.kind {
        Kind::Bool => between("(", raw.as_str(), ") != 0"),
        Kind::Enumerated(index) => {
            let mut source = "match ".to_owned();
            source.append(enum_name(*index, enums).as_str());
            source.append("::from_raw(");
            source.append(raw.as_str());
            source.append(") {\nSome(value) => value,\nNone => ");
            source.append(fault("UnknownLabel", field.xtce_name.as_str()).as_str());
            source.append(",\n}");
            source
        },
        Kind::Float16 => between("half_to_f32((", raw.as_str(), ") as u16)"),
        Kind::Float32 => between("f32::from_bits((", raw.as_str(), ") as u32)"),
        Kind::Float64 => between("f64::from_bits(", raw.as_str(), ")"),
        Kind::Unsigned => {
            let mut source = between("(", raw.as_str(), ") as ");
            source.append(unsigned_type(natural));
            source
        },
        Kind::Signed(coding) => {
            let mut source = signed_from_raw(raw.as_str(), field.bit_width, *coding);
            source.append(" as ");
            source.append(signed_type(natural));
            source
        },
        Kind::Text { .. } => raw,
        Kind::Binary => raw,
    }
}

/// The statement that reads one field.
pub fn decode_field(field: &FlightField, enums: &Vec<EnumType>) -> (source: String)
    requires
        field@.emittable(),
    ensures
        source@ == decode_field_text(field@, enum_models(enums@)),
{
    let mut source = "let ".to_owned();
    source.append(field.ident.as_str());
    source.append(" = ");
    source.append(decoded(field, enums).as_str());
    source.append(";\n");
    source
}

/// The statements that read the first `count` fields.
pub open spec fn decode_fields_text(
    fields: Seq<FieldModel>,
    enums: Seq<EnumModel>,
    count: nat,
) -> Seq<char>
    decreases count,
{
    if count == 0 {
        Seq::empty()
    } else {
        decode_fields_text(fields, enums, (count - 1) as nat) + decode_field_text(
            fields[count - 1],
            enums,
        )
    }
}

/// The names of the first `count` fields, each with a comma behind it.
pub open spec fn names_text(fields: Seq<FieldModel>, count: nat) -> Seq<char>
    decreases count,
{
    if count == 0 {
        Seq::empty()
    } else {
        names_text(fields, (count - 1) as nat) + fields[count - 1].ident + ",\n"@
    }
}

/// The statements that read the fields.
fn decode_fields(container: &Container, enums: &Vec<EnumType>) -> (source: String)
    requires
        container@.emittable(),
    ensures
        source@ == decode_fields_text(
            container@.fields,
            enum_models(enums@),
            container@.fields.len(),
        ),
{
    let mut source = String::new();
    let mut at: usize = 0;
    while at < container.fields.len()
        invariant
            at <= container.fields@.len(),
            container@.emittable(),
            source@ == decode_fields_text(container@.fields, enum_models(enums@), at as nat),
        decreases container.fields@.len() - at,
    {
        assert(container@.fields[at as int] == container.fields@[at as int]@);
        source.append(decode_field(&container.fields[at], enums).as_str());
        at = at + 1;
    }
    source
}

/// The names of the fields, each with a comma behind it.
fn names(container: &Container) -> (source: String)
    ensures
        source@ == names_text(container@.fields, container@.fields.len()),
{
    let mut source = String::new();
    let mut at: usize = 0;
    while at < container.fields.len()
        invariant
            at <= container.fields@.len(),
            source@ == names_text(container@.fields, at as nat),
        decreases container.fields@.len() - at,
    {
        assert(container@.fields[at as int] == container.fields@[at as int]@);
        source.append(container.fields[at].ident.as_str());
        source.append(",\n");
        at = at + 1;
    }
    source
}

// ---------------------------------------------------------------------------------------
// The methods
// ---------------------------------------------------------------------------------------

/// The documentation of `decode` and the start of its signature.
pub const DECODE_HEAD: &'static str = r#"#[doc = r" Reads this packet out of `data`."]
#[doc = r""]
#[doc = r" The inverse of [`Self::encode`]: everything `encode` writes, `decode` gives back"]
#[doc = r" unchanged. It does not check the restriction criteria — use"]
#[doc = r" [`Self::matches`] for that, or the module's `decode` to choose a container."]
#[doc = r""]
#[doc = r" # Errors"]
#[doc = r""]
#[doc = r" [`DecodeError::TooShort`] if `data` is smaller than [`Self::LEN`], and a variant"]
#[doc = r" naming the parameter if its bytes are not a value the definition allows."]
pub fn decode(data: "#;

/// The documentation of `matches` and its signature.
pub const MATCHES_HEAD: &'static str = r#"#[doc = r" Whether `data` satisfies the restriction criteria that select this container."]
#[doc = r""]
#[doc = r" A container with no criteria matches anything long enough to hold it."]
#[must_use]
pub fn matches(data: &[u8]) -> bool {
"#;

/// The type of a packet that is read.
pub open spec fn data_type_text(borrows: bool) -> Seq<char> {
    if borrows {
        "& 'a [u8]"@
    } else {
        "&[u8]"@
    }
}

/// The type of a packet that is read.
pub fn data_type(borrows: bool) -> (source: &'static str)
    ensures
        source@ == data_type_text(borrows),
{
    if borrows {
        "& 'a [u8]"
    } else {
        "&[u8]"
    }
}

/// The method that decodes a packet.
pub open spec fn decode_method_text(container: ContainerModel, enums: Seq<EnumModel>) -> Seq<char> {
    DECODE_HEAD@ + data_type_text(container.borrows)
        + ") -> Result<Self, DecodeError> {\nlet data: &[u8; "@
        + decimal_text(container.len_bytes as nat) + "] = match data.get(.."@
        + decimal_text(container.len_bytes as nat) + ") {\nSome(slice) => match < &[u8; "@
        + decimal_text(container.len_bytes as nat)
        + "]> ::try_from(slice) {\nOk(array) => array,\nErr(_) => return Err(DecodeError::TooShort { needed: "@
        + decimal_text(container.len_bytes as nat)
        + " }),\n},\nNone => return Err(DecodeError::TooShort { needed: "@
        + decimal_text(container.len_bytes as nat) + " }),\n};\n"@
        + decode_fields_text(container.fields, enums, container.fields.len()) + "Ok(Self {\n"@
        + names_text(container.fields, container.fields.len()) + "})\n}\n"@
}

/// The method that decodes a packet.
pub fn decode_body(container: &Container, enums: &Vec<EnumType>) -> (source: String)
    requires
        container@.emittable(),
    ensures
        source@ == decode_method_text(container@, enum_models(enums@)),
{
    let len = decimal(container.len_bytes as u128);
    let mut source = DECODE_HEAD.to_owned();
    source.append(data_type(container.borrows));
    source.append(") -> Result<Self, DecodeError> {\nlet data: &[u8; ");
    source.append(len.as_str());
    source.append("] = match data.get(..");
    source.append(len.as_str());
    source.append(") {\nSome(slice) => match < &[u8; ");
    source.append(len.as_str());
    source.append("]> ::try_from(slice) {\nOk(array) => array,\nErr(_) => return Err(DecodeError::TooShort { needed: ");
    source.append(len.as_str());
    source.append(" }),\n},\nNone => return Err(DecodeError::TooShort { needed: ");
    source.append(len.as_str());
    source.append(" }),\n};\n");
    source.append(decode_fields(container, enums).as_str());
    source.append("Ok(Self {\n");
    source.append(names(container).as_str());
    source.append("})\n}\n");
    source
}

/// The tests of the first `count` criteria.
pub open spec fn tests_text(constants: Seq<ConstantModel>, count: nat) -> Seq<char>
    decreases count,
{
    if count == 0 {
        Seq::empty()
    } else {
        let constant = constants[count - 1];
        tests_text(constants, (count - 1) as nat) + "if ("@ + read_text(
            constant.bit_offset,
            constant.bit_width,
        ) + ") != "@ + decimal_text(constant.raw as nat) + " {\nreturn false;\n}\n"@
    }
}

/// The tests of the criteria.
fn tests(container: &Container) -> (source: String)
    requires
        container@.emittable(),
    ensures
        source@ == tests_text(container@.constants, container@.constants.len()),
{
    let mut source = String::new();
    let mut at: usize = 0;
    while at < container.constants.len()
        invariant
            at <= container.constants@.len(),
            container@.emittable(),
            source@ == tests_text(container@.constants, at as nat),
        decreases container.constants@.len() - at,
    {
        let constant = &container.constants[at];
        assert(container@.constants[at as int] == constant@);
        source.append("if (");
        source.append(read_bits(constant.bit_offset, constant.bit_width).as_str());
        source.append(") != ");
        source.append(decimal(constant.raw as u128).as_str());
        source.append(" {\nreturn false;\n}\n");
        at = at + 1;
    }
    source
}

/// The method that tests a packet for the container's criteria.
pub open spec fn matches_text(container: ContainerModel) -> Seq<char> {
    MATCHES_HEAD@ + "let data: &[u8; "@ + decimal_text(container.len_bytes as nat)
        + "] = match data.get(.."@ + decimal_text(container.len_bytes as nat)
        + ") {\nSome(slice) => match < &[u8; "@ + decimal_text(container.len_bytes as nat)
        + "]> ::try_from(slice) {\nOk(array) => array,\nErr(_) => return false,\n},\nNone => return false,\n};\nlet _ = data;\n"@
        + tests_text(container.constants, container.constants.len()) + "true\n}\n"@
}

/// The method that tests a packet for the container's criteria.
pub fn matches_body(container: &Container) -> (source: String)
    requires
        container@.emittable(),
    ensures
        source@ == matches_text(container@),
{
    let len = decimal(container.len_bytes as u128);
    let mut source = MATCHES_HEAD.to_owned();
    source.append("let data: &[u8; ");
    source.append(len.as_str());
    source.append("] = match data.get(..");
    source.append(len.as_str());
    source.append(") {\nSome(slice) => match < &[u8; ");
    source.append(len.as_str());
    source.append("]> ::try_from(slice) {\nOk(array) => array,\nErr(_) => return false,\n},\nNone => return false,\n};\nlet _ = data;\n");
    source.append(tests(container).as_str());
    source.append("true\n}\n");
    source
}

} // verus!
