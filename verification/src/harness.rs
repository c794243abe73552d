//! The check of generated code, generated as well.
//!
//! Every container is a different struct, so a test that fills one in cannot be reused for the
//! next. The harness is therefore written from the same layout: for each container a function
//! that draws a value for every field from a seeded generator, encodes it, and reports the values
//! it drew beside the bytes. It never asks the encoder what a value means: what is compared is
//! what went in, with what an independent decoder reads.
//!
//! Everything here is `std`, and belongs in a test crate.

use vstd::prelude::*;
use vstd::string::*;

use crate::bits::{mask_for, mask_value, natural_bits, natural_width};
use crate::emit::bits::{signed_name, signed_type, unsigned_text, unsigned_type};
use crate::emit::clean::{is_clean, layout_clean};
use crate::emit::encode::room_after;
use crate::emit::format::{
    format_source, give_out, given_out, is_printable, is_printed, path_prints, printed_tokens,
    rendered, tokens,
};
use crate::emit::text::{
    byte_list, bytes_listed, doc_attribute, doc_line, literal, string_literal, trim, trimmed,
};
use crate::layout::{
    enum_models, optional_text, ConstantModel, Container, ContainerModel, EnumModel, EnumType,
    FieldModel, FlightField, Kind, KindModel, Layout, LayoutModel, VariantModel,
};
use crate::names::{decimal, decimal_text, letters_of, snake, snake_text};
use crate::plan::{DelimiterModel, IntegerCoding, TextCharset, TextDelimiter};

verus! {

/// The part of the harness that does not depend on the definition.
pub const PRELUDE: &'static str = r#"#[doc = r" One encoded packet, and everything that is known about what should come back."]
#[derive(Clone, Debug)]
pub struct Case {
    #[doc = r" The container, named as the definition spells it."]
    pub container: & 'static str,
    #[doc = r" The encoded packet."]
    pub bytes: Vec<u8> ,
    #[doc = r" `(parameter, value that was encoded)`, for every field the caller set."]
    pub expected: Vec<(& 'static str, Expected)> ,
    #[doc = r" `(parameter, raw value, mask)` for every restriction criterion, which the"]
    #[doc = r" encoder wrote rather than the caller."]
    pub criteria: Vec<(& 'static str, u64, u64)> ,
    #[doc = r" `(parameter, raw value, engineering value)` for every calibrated field."]
    #[doc = r""]
    #[doc = r" These are not in `expected`, because for a calibrated parameter the value"]
    #[doc = r" that went in is the *raw* one and the value the ground reads is not. The"]
    #[doc = r" engineering value is `None` when the accessor refused it — a spline asked"]
    #[doc = r" outside its points — in which case the interpreter has to refuse too."]
    pub calibrated: Vec<(& 'static str, u64, Option<f64>)> ,
}
#[doc = r" A value as it went into the encoder."]
#[derive(Clone, Debug, PartialEq)]
pub enum Expected {
    #[doc = r" An unsigned integer."]
    Unsigned(u64),
    #[doc = r" A signed integer."]
    Signed(i64),
    #[doc = r" A float, widened to `f64` as the interpreter reports it."]
    Float(f64),
    #[doc = r" A boolean."]
    Bool(bool),
    #[doc = r" An enumeration label, spelled as the definition spells it."]
    Label(& 'static str),
    #[doc = r" Text."]
    Text(String),
    #[doc = r" Raw bytes."]
    Bytes(Vec<u8>),
}
#[doc = r" `xorshift64*`: small, seedable, and the same sequence on every machine, which is"]
#[doc = r" what a failing case has to be to be worth reporting."]
pub struct Rng(u64);
impl Rng {
    #[doc = r" A generator for `seed`. Zero is not a usable state, so it is replaced."]
    #[must_use]
    pub fn new(seed: u64) -> Self {
        Self(if seed == 0 { 0x2545_F491_4F6C_DD1D } else { seed })
    }
    #[doc = r" The next 64 bits."]
    pub fn next(&mut self) -> u64 {
        let mut state = self.0;
        state ^= state >> 12;
        state ^= state << 25;
        state ^= state >> 27;
        self.0 = state;
        state.wrapping_mul(0x2545_F491_4F6C_DD1D)
    }
    #[doc = r" A number below `limit`, which must not be zero."]
    pub fn below(&mut self, limit: usize) -> usize {
        if limit == 0 { 0 } else { (self.next() % limit as u64) as usize }
    }
    #[doc = r" `count` arbitrary bytes."]
    pub fn bytes(&mut self, count: usize) -> Vec<u8> {
        (0..count).map(|_| (self.next() & 0xFF) as u8).collect()
    }
    #[doc = r" A binary16 bit pattern that is neither infinite nor a NaN."]
    #[doc = r""]
    #[doc = r" Those two are excluded because they do not round trip as values: every NaN"]
    #[doc = r" encodes, but not to the same payload it came from, and comparing them would"]
    #[doc = r" be testing the payload convention rather than the encoder. Subnormals are"]
    #[doc = r" kept — they are the interesting half of binary16."]
    pub fn finite_half(&mut self) -> u16 {
        let bits = (self.next() & 0xFFFF) as u16;
        if (bits >> 10) & 0x1F == 0x1F { bits & 0xF3FF } else { bits }
    }
    #[doc = r" A binary32 bit pattern that is neither infinite nor a NaN."]
    pub fn finite_f32_bits(&mut self) -> u32 {
        let bits = (self.next() & 0xFFFF_FFFF) as u32;
        if (bits >> 23) & 0xFF == 0xFF { bits & 0xFF7F_FFFF } else { bits }
    }
    #[doc = r" A binary64 bit pattern that is neither infinite nor a NaN."]
    pub fn finite_f64_bits(&mut self) -> u64 {
        let bits = self.next();
        if (bits >> 52) & 0x7FF == 0x7FF { bits & 0xFFEF_FFFF_FFFF_FFFF } else { bits }
    }
    #[doc = r" Text of exactly `bytes` bytes, avoiding every sequence in `forbidden`."]
    pub fn text_of_exactly(
        &mut self,
        bytes: usize,
        utf8: bool,
        forbidden: &[u8],
    ) -> String {
        let mut out = String::new();
        let mut written = 0usize;
        while written < bytes {
            let wide = utf8 && bytes - written >= 2 && self.next() % 4 == 0;
            if wide {
                out.push(MULTIBYTE[self.below(MULTIBYTE.len())]);
                written += 2;
            } else {
                let candidate = PRINTABLE[self.below(PRINTABLE.len())];
                if forbidden.contains(&(candidate as u8)) {
                    continue;
                }
                out.push(candidate);
                written += 1;
            }
        }
        out
    }
    #[doc = r" Text of at most `bytes` bytes, sometimes empty."]
    pub fn text_up_to(&mut self, bytes: usize, utf8: bool, forbidden: &[u8]) -> String {
        let length = self.below(bytes + 1);
        self.text_of_exactly(length, utf8, forbidden)
    }
}
#[doc = r" One byte each, and none of them a plausible terminator."]
const PRINTABLE: &[char] = &[
    'a', 'b', 'c', 'd', 'e', 'f', 'g', 'h', 'i', 'j', 'k', 'l', 'm', 'n', 'o', 'p',
    'A', 'B', 'C', 'D', 'E', 'F', 'G', 'H', 'I', 'J', 'K', 'L', 'M', 'N', 'O', 'P',
    '0', '1', '2', '3', '4', '5', '6', '7', '8', '9', ' ', '-', '_', '.', '/', '+',
];
#[doc = r" Two bytes each in UTF-8, so a field declared as UTF-8 is not only ever handed"]
#[doc = r" ASCII."]
const MULTIBYTE: &[char] = &['ą', 'ę', 'ó', 'ż', 'µ', '£', 'Ω', 'é'];
"#;

// ---------------------------------------------------------------------------------------
// Drawing
// ---------------------------------------------------------------------------------------

/// `true` or `false`.
pub open spec fn bool_text(flag: bool) -> Seq<char> {
    if flag {
        "true"@
    } else {
        "false"@
    }
}

/// `true` or `false`.
fn bool_name(flag: bool) -> (source: &'static str)
    ensures
        source@ == bool_text(flag),
{
    if flag {
        "true"
    } else {
        "false"
    }
}

/// The statement that draws a value other values borrow from, for the fields that need one.
pub open spec fn owned_text(field: FieldModel) -> Seq<char> {
    let bytes = field.bit_width / 8;
    match field.kind {
        KindModel::Text(charset, delimiter) => {
            let utf8 = bool_text(charset == TextCharset::Utf8);
            match delimiter {
                DelimiterModel::WholeBuffer => "let "@ + field.ident
                    + ": String = rng.text_of_exactly("@ + decimal_text(bytes as nat) + ", "@
                    + utf8 + ", &[]);\n"@,
                DelimiterModel::TerminationChar(terminator) => "let "@ + field.ident
                    + ": String = rng.text_up_to("@ + decimal_text(
                    room_after(bytes, terminator.len() as int) as nat,
                ) + ", "@ + utf8 + ", &["@ + byte_list(terminator) + "]);\n"@,
                DelimiterModel::LeadingSize(size) => "let "@ + field.ident
                    + ": String = rng.text_up_to("@ + decimal_text(
                    room_after(bytes, size as int / 8) as nat,
                ) + ", "@ + utf8 + ", &["@ + byte_list(Seq::empty()) + "]);\n"@,
            }
        },
        KindModel::Binary => "let "@ + field.ident + ": Vec<u8> = rng.bytes("@ + decimal_text(
            bytes as nat,
        ) + ");\n"@,
        _ => ""@,
    }
}

/// The statement that draws text of at most a number of bytes.
fn draw_up_to(ident: &str, room: usize, utf8: bool, forbidden: &Vec<u8>) -> (source: String)
    ensures
        source@ == "let "@ + ident@ + ": String = rng.text_up_to("@ + decimal_text(room as nat)
            + ", "@ + bool_text(utf8) + ", &["@ + byte_list(forbidden@) + "]);\n"@,
{
    let mut source = "let ".to_owned();
    source.append(ident);
    source.append(": String = rng.text_up_to(");
    source.append(decimal(room as u128).as_str());
    source.append(", ");
    source.append(bool_name(utf8));
    source.append(", &[");
    source.append(bytes_listed(forbidden).as_str());
    source.append("]);\n");
    source
}

/// The statement that draws a value other values borrow from.
fn owned(field: &FlightField) -> (source: String)
    ensures
        source@ == owned_text(field@),
{
    let bytes = field.bit_width as usize / 8;
    let ident = field.ident.as_str();
    match &field.kind {
        Kind::Text { charset, delimiter } => {
            let utf8 = *charset == TextCharset::Utf8;
            match delimiter {
                TextDelimiter::WholeBuffer => {
                    let mut source = "let ".to_owned();
                    source.append(ident);
                    source.append(": String = rng.text_of_exactly(");
                    source.append(decimal(bytes as u128).as_str());
                    source.append(", ");
                    source.append(bool_name(utf8));
                    source.append(", &[]);\n");
                    source
                },
                TextDelimiter::TerminationChar(terminator) => {
                    let room = if bytes < terminator.len() {
                        0
                    } else {
                        bytes - terminator.len()
                    };
                    draw_up_to(ident, room, utf8, terminator)
                },
                TextDelimiter::LeadingSize { size_in_bits } => {
                    let prefix = *size_in_bits as usize / 8;
                    let room = if bytes < prefix {
                        0
                    } else {
                        bytes - prefix
                    };
                    let nothing: Vec<u8> = Vec::new();
                    assert(nothing@ =~= Seq::empty());
                    draw_up_to(ident, room, utf8, &nothing)
                },
            }
        },
        Kind::Binary => {
            let mut source = "let ".to_owned();
            source.append(ident);
            source.append(": Vec<u8> = rng.bytes(");
            source.append(decimal(bytes as u128).as_str());
            source.append(");\n");
            source
        },
        _ => "".to_owned(),
    }
}

/// The arms that draw the first `count` variants of an enumeration.
pub open spec fn draw_arms_text(
    variants: Seq<VariantModel>,
    name: Seq<char>,
    path: Seq<char>,
    count: nat,
) -> Seq<char>
    decreases count,
{
    if count == 0 {
        Seq::empty()
    } else {
        draw_arms_text(variants, name, path, (count - 1) as nat) + decimal_text(
            (count - 1) as nat,
        ) + " => "@ + path + " ::"@ + name + "::"@ + variants[count - 1].ident + ",\n"@
    }
}

/// The expression that draws a variant of an enumeration. A place outside the list of
/// enumerations has nothing to draw.
pub open spec fn draw_enum_text(index: int, enums: Seq<EnumModel>, path: Seq<char>) -> Seq<char> {
    let (count, arms) = if 0 <= index < enums.len() {
        let definition = enums[index];
        (
            definition.variants.len(),
            draw_arms_text(
                definition.variants,
                definition.type_ident,
                path,
                definition.variants.len(),
            ),
        )
    } else {
        (1, Seq::empty())
    };
    "match rng.below("@ + decimal_text(count) + ") {\n"@ + arms
        + "_ => unreachable!(\"below({}) is in range\", "@ + decimal_text(count) + "),\n}"@
}

/// The expression that draws one value for a field.
pub open spec fn draw_text(
    width: int,
    kind: KindModel,
    enums: Seq<EnumModel>,
    path: Seq<char>,
) -> Seq<char> {
    let natural = natural_width(width);
    let mask = decimal_text(mask_value(width) as nat);
    match kind {
        KindModel::Unsigned => "(rng.next() & "@ + mask + ") as "@ + unsigned_text(natural),
        // A random pattern of the field's width, sign-extended, so that negatives are as likely
        // as positives and the extremes are reachable. A field without a sign bit has no negatives.
        KindModel::Signed(coding) => if coding == IntegerCoding::Unsigned && width < natural {
            "(rng.next() & "@ + decimal_text(mask_value(width - 1) as nat) + ") as "@ + signed_name(
                natural,
            )
        } else if coding == IntegerCoding::TwosComplement || coding == IntegerCoding::Unsigned {
            "((((rng.next() & "@ + mask + ") << "@ + decimal_text((64 - width) as nat)
                + ") as i64) >> "@ + decimal_text((64 - width) as nat) + ") as "@ + signed_name(
                natural,
            )
        } else {
            "{\nlet magnitude = (rng.next() & "@ + decimal_text(mask_value(width - 1) as nat)
                + ") as i64;\n(if rng.next() & 1 == 0 { magnitude } else { -magnitude }) as "@
                + signed_name(natural) + "\n}"@
        },
        KindModel::Float16 => path + " ::half_to_f32(rng.finite_half())"@,
        KindModel::Float32 => "f32::from_bits(rng.finite_f32_bits())"@,
        KindModel::Float64 => "f64::from_bits(rng.finite_f64_bits())"@,
        KindModel::Bool => "rng.next() & 1 == 1"@,
        KindModel::Enumerated(index) => draw_enum_text(index, enums, path),
        KindModel::Text(_, _) => "unreachable!(\"drawn as an owned value\")"@,
        KindModel::Binary => "unreachable!(\"drawn as an owned value\")"@,
    }
}

/// The expression that draws a variant of an enumeration.
fn draw_enum(index: usize, enums: &Vec<EnumType>, path: &str) -> (source: String)
    ensures
        source@ == draw_enum_text(index as int, enum_models(enums@), path@),
{
    let mut arms = String::new();
    let mut count: usize = 1;
    if index < enums.len() {
        let definition = &enums[index];
        assert(enum_models(enums@)[index as int] == definition@);
        count = definition.variants.len();
        let mut at: usize = 0;
        while at < definition.variants.len()
            invariant
                at <= definition.variants@.len(),
                arms@ == draw_arms_text(
                    definition@.variants,
                    definition@.type_ident,
                    path@,
                    at as nat,
                ),
            decreases definition.variants@.len() - at,
        {
            assert(definition@.variants[at as int] == crate::layout::variant_model(
                definition.variants@[at as int],
            ));
            arms.append(decimal(at as u128).as_str());
            arms.append(" => ");
            arms.append(path);
            arms.append(" ::");
            arms.append(definition.type_ident.as_str());
            arms.append("::");
            arms.append(definition.variants[at].0.as_str());
            arms.append(",\n");
            at = at + 1;
        }
    }
    let mut source = "match rng.below(".to_owned();
    source.append(decimal(count as u128).as_str());
    source.append(") {\n");
    source.append(arms.as_str());
    source.append("_ => unreachable!(\"below({}) is in range\", ");
    source.append(decimal(count as u128).as_str());
    source.append("),\n}");
    source
}

/// The expression that draws one value for a field.
pub fn draw(width: u32, kind: &Kind, enums: &Vec<EnumType>, path: &str) -> (source: String)
    requires
        !kind@.borrows() ==> 1 <= width <= 64,
    ensures
        source@ == draw_text(width as int, kind@, enum_models(enums@), path@),
{
    let natural = natural_bits(width);
    match kind {
        Kind::Unsigned => {
            let mut source = "(rng.next() & ".to_owned();
            source.append(decimal(mask_for(width) as u128).as_str());
            source.append(") as ");
            source.append(unsigned_type(natural));
            source
        },
        Kind::Signed(coding) => {
            if *coding == IntegerCoding::Unsigned && width < natural {
                let mut source = "(rng.next() & ".to_owned();
                source.append(decimal(mask_for(width - 1) as u128).as_str());
                source.append(") as ");
                source.append(signed_type(natural));
                source
            } else if *coding == IntegerCoding::TwosComplement || *coding
                == IntegerCoding::Unsigned {
                let shift = decimal((64 - width) as u128);
                let mut source = "((((rng.next() & ".to_owned();
                source.append(decimal(mask_for(width) as u128).as_str());
                source.append(") << ");
                source.append(shift.as_str());
                source.append(") as i64) >> ");
                source.append(shift.as_str());
                source.append(") as ");
                source.append(signed_type(natural));
                source
            } else {
                let mut source = "{\nlet magnitude = (rng.next() & ".to_owned();
                source.append(decimal(mask_for(width - 1) as u128).as_str());
                source.append(
                    ") as i64;\n(if rng.next() & 1 == 0 { magnitude } else { -magnitude }) as ",
                );
                source.append(signed_type(natural));
                source.append("\n}");
                source
            }
        },
        Kind::Float16 => {
            let mut source = path.to_owned();
            source.append(" ::half_to_f32(rng.finite_half())");
            source
        },
        Kind::Float32 => "f32::from_bits(rng.finite_f32_bits())".to_owned(),
        Kind::Float64 => "f64::from_bits(rng.finite_f64_bits())".to_owned(),
        Kind::Bool => "rng.next() & 1 == 1".to_owned(),
        Kind::Enumerated(index) => draw_enum(*index, enums, path),
        Kind::Text { .. } => "unreachable!(\"drawn as an owned value\")".to_owned(),
        Kind::Binary => "unreachable!(\"drawn as an owned value\")".to_owned(),
    }
}

// ---------------------------------------------------------------------------------------
// The fields of a case
// ---------------------------------------------------------------------------------------

/// The statements that draw the first `count` values other values borrow from.
pub open spec fn all_owned_text(fields: Seq<FieldModel>, count: nat) -> Seq<char>
    decreases count,
{
    if count == 0 {
        Seq::empty()
    } else {
        all_owned_text(fields, (count - 1) as nat) + owned_text(fields[count - 1])
    }
}

/// The statement that draws a value that borrows from nothing.
pub open spec fn scalar_text(field: FieldModel, enums: Seq<EnumModel>, path: Seq<char>) -> Seq<
    char,
> {
    if field.kind.borrows() {
        ""@
    } else {
        "let "@ + field.ident + " = "@ + draw_text(field.bit_width, field.kind, enums, path)
            + ";\n"@
    }
}

/// The statements that draw the first `count` values that borrow from nothing.
pub open spec fn scalars_text(
    fields: Seq<FieldModel>,
    enums: Seq<EnumModel>,
    path: Seq<char>,
    count: nat,
) -> Seq<char>
    decreases count,
{
    if count == 0 {
        Seq::empty()
    } else {
        scalars_text(fields, enums, path, (count - 1) as nat) + scalar_text(
            fields[count - 1],
            enums,
            path,
        )
    }
}

/// The first `count` fields of the struct literal.
pub open spec fn initialisers_text(fields: Seq<FieldModel>, count: nat) -> Seq<char>
    decreases count,
{
    if count == 0 {
        Seq::empty()
    } else {
        let field = fields[count - 1];
        initialisers_text(fields, (count - 1) as nat) + field.ident + if field.kind.borrows() {
            ": &"@
        } else {
            ": "@
        } + field.ident + ",\n"@
    }
}

/// The value that went in, as the independent decoder reports it.
pub open spec fn expected_text(field: FieldModel) -> Seq<char> {
    match field.kind {
        KindModel::Unsigned => "Expected::Unsigned(u64::from("@ + field.ident + "))"@,
        KindModel::Signed(_) => "Expected::Signed(i64::from("@ + field.ident + "))"@,
        KindModel::Float16 => "Expected::Float(f64::from("@ + field.ident + "))"@,
        KindModel::Float32 => "Expected::Float(f64::from("@ + field.ident + "))"@,
        KindModel::Float64 => "Expected::Float("@ + field.ident + ")"@,
        KindModel::Bool => "Expected::Bool("@ + field.ident + ")"@,
        KindModel::Enumerated(_) => "Expected::Label("@ + field.ident + ".label())"@,
        KindModel::Text(_, _) => "Expected::Text("@ + field.ident + ".clone())"@,
        KindModel::Binary => "Expected::Bytes("@ + field.ident + ".clone())"@,
    }
}

/// What stands between the items so far and the next one.
pub open spec fn separator(items: Seq<char>) -> Seq<char> {
    if items.len() == 0 {
        ""@
    } else {
        ",\n"@
    }
}

/// The first `count` fields without a calibrator, and what went into them.
pub open spec fn expectations_text(fields: Seq<FieldModel>, count: nat) -> Seq<char>
    decreases count,
{
    if count == 0 {
        Seq::empty()
    } else {
        let field = fields[count - 1];
        let items = expectations_text(fields, (count - 1) as nat);
        if field.calibration is None {
            items + separator(items) + "("@ + string_literal(field.xtce_name) + ", "@
                + expected_text(field) + ")"@
        } else {
            items
        }
    }
}

/// A raw value as the `u64` that the independent decoder's raw value is reduced to.
pub open spec fn raw_bits_text(field: FieldModel) -> Seq<char> {
    match field.kind {
        KindModel::Signed(_) => field.ident + " as i64 as u64"@,
        KindModel::Float16 => "f64::from("@ + field.ident + ").to_bits()"@,
        KindModel::Float32 => "f64::from("@ + field.ident + ").to_bits()"@,
        KindModel::Float64 => field.ident + ".to_bits()"@,
        _ => "u64::from("@ + field.ident + ")"@,
    }
}

/// The first `count` fields with a calibrator: what went in, and what the accessor makes of it.
pub open spec fn calibrated_text(fields: Seq<FieldModel>, count: nat) -> Seq<char>
    decreases count,
{
    if count == 0 {
        Seq::empty()
    } else {
        let field = fields[count - 1];
        let items = calibrated_text(fields, (count - 1) as nat);
        if field.calibration is Some {
            items + separator(items) + "("@ + string_literal(field.xtce_name) + ", "@
                + raw_bits_text(field) + ", packet."@ + trimmed(field.ident)
                + "_calibrated().ok())"@
        } else {
            items
        }
    }
}

/// The first `count` criteria: the value the ground compares, and the mask of its width.
pub open spec fn criteria_text(constants: Seq<ConstantModel>, count: nat) -> Seq<char>
    decreases count,
{
    if count == 0 {
        Seq::empty()
    } else {
        let constant = constants[count - 1];
        let items = criteria_text(constants, (count - 1) as nat);
        items + separator(items) + "("@ + string_literal(constant.xtce_name) + ", "@
            + decimal_text(constant.reported as nat) + ", "@ + decimal_text(
            mask_value(constant.bit_width) as nat,
        ) + ")"@
    }
}

/// The statements that draw the values other values borrow from.
fn all_owned(container: &Container) -> (source: String)
    ensures
        source@ == all_owned_text(container@.fields, container@.fields.len()),
{
    let mut source = String::new();
    let mut at: usize = 0;
    while at < container.fields.len()
        invariant
            at <= container.fields@.len(),
            source@ == all_owned_text(container@.fields, at as nat),
        decreases container.fields@.len() - at,
    {
        let field = &container.fields[at];
        assert(container@.fields[at as int] == field@);
        source.append(owned(field).as_str());
        at = at + 1;
    }
    source
}

/// The statement that draws a value that borrows from nothing.
fn scalar(field: &FlightField, enums: &Vec<EnumType>, path: &str) -> (source: String)
    requires
        field@.emittable(),
    ensures
        source@ == scalar_text(field@, enum_models(enums@), path@),
{
    if field.kind.borrows() {
        return "".to_owned();
    }
    let mut source = "let ".to_owned();
    source.append(field.ident.as_str());
    source.append(" = ");
    source.append(draw(field.bit_width, &field.kind, enums, path).as_str());
    source.append(";\n");
    source
}

/// The statements that draw the values that borrow from nothing.
fn scalars(container: &Container, enums: &Vec<EnumType>, path: &str) -> (source: String)
    requires
        container@.emittable(),
    ensures
        source@ == scalars_text(container@.fields, enum_models(enums@), path@, container@.fields.len()),
{
    let mut source = String::new();
    let mut at: usize = 0;
    while at < container.fields.len()
        invariant
            at <= container.fields@.len(),
            container@.emittable(),
            source@ == scalars_text(container@.fields, enum_models(enums@), path@, at as nat),
        decreases container.fields@.len() - at,
    {
        let field = &container.fields[at];
        assert(container@.fields[at as int] == field@);
        source.append(scalar(field, enums, path).as_str());
        at = at + 1;
    }
    source
}

/// The fields of the struct literal.
fn initialisers(container: &Container) -> (source: String)
    ensures
        source@ == initialisers_text(container@.fields, container@.fields.len()),
{
    let mut source = String::new();
    let mut at: usize = 0;
    while at < container.fields.len()
        invariant
            at <= container.fields@.len(),
            source@ == initialisers_text(container@.fields, at as nat),
        decreases container.fields@.len() - at,
    {
        let field = &container.fields[at];
        assert(container@.fields[at as int] == field@);
        source.append(field.ident.as_str());
        if field.kind.borrows() {
            source.append(": &");
        } else {
            source.append(": ");
        }
        source.append(field.ident.as_str());
        source.append(",\n");
        at = at + 1;
    }
    source
}

/// A name between two texts.
fn around(before: &str, name: &str, after: &str) -> (source: String)
    ensures
        source@ == before@ + name@ + after@,
{
    let mut source = before.to_owned();
    source.append(name);
    source.append(after);
    source
}

/// The value that went in, as the independent decoder reports it.
fn expected(field: &FlightField) -> (source: String)
    ensures
        source@ == expected_text(field@),
{
    let ident = field.ident.as_str();
    match &field.kind {
        Kind::Unsigned => around("Expected::Unsigned(u64::from(", ident, "))"),
        Kind::Signed(_) => around("Expected::Signed(i64::from(", ident, "))"),
        Kind::Float16 => around("Expected::Float(f64::from(", ident, "))"),
        Kind::Float32 => around("Expected::Float(f64::from(", ident, "))"),
        Kind::Float64 => around("Expected::Float(", ident, ")"),
        Kind::Bool => around("Expected::Bool(", ident, ")"),
        Kind::Enumerated(_) => around("Expected::Label(", ident, ".label())"),
        Kind::Text { .. } => around("Expected::Text(", ident, ".clone())"),
        Kind::Binary => around("Expected::Bytes(", ident, ".clone())"),
    }
}

/// What stands between the items so far and the next one.
fn comma(items: &str) -> (source: &'static str)
    ensures
        source@ == separator(items@),
{
    if items.unicode_len() == 0 {
        ""
    } else {
        ",\n"
    }
}

/// The fields without a calibrator, and what went into them.
fn expectations(container: &Container) -> (source: String)
    ensures
        source@ == expectations_text(container@.fields, container@.fields.len()),
{
    let mut source = String::new();
    let mut at: usize = 0;
    while at < container.fields.len()
        invariant
            at <= container.fields@.len(),
            source@ == expectations_text(container@.fields, at as nat),
        decreases container.fields@.len() - at,
    {
        let field = &container.fields[at];
        assert(container@.fields[at as int] == field@);
        if field.calibration.is_none() {
            let between = comma(source.as_str());
            source.append(between);
            source.append("(");
            source.append(literal(field.xtce_name.as_str()).as_str());
            source.append(", ");
            source.append(expected(field).as_str());
            source.append(")");
        }
        at = at + 1;
    }
    source
}

/// A raw value as the `u64` that the independent decoder's raw value is reduced to.
fn raw_bits(field: &FlightField) -> (source: String)
    ensures
        source@ == raw_bits_text(field@),
{
    let ident = field.ident.as_str();
    match &field.kind {
        Kind::Signed(_) => {
            let mut source = ident.to_owned();
            source.append(" as i64 as u64");
            source
        },
        Kind::Float16 => around("f64::from(", ident, ").to_bits()"),
        Kind::Float32 => around("f64::from(", ident, ").to_bits()"),
        Kind::Float64 => {
            let mut source = ident.to_owned();
            source.append(".to_bits()");
            source
        },
        _ => around("u64::from(", ident, ")"),
    }
}

/// The fields with a calibrator: what went in, and what the accessor makes of it.
fn calibrated(container: &Container) -> (source: String)
    ensures
        source@ == calibrated_text(container@.fields, container@.fields.len()),
{
    let mut source = String::new();
    let mut at: usize = 0;
    while at < container.fields.len()
        invariant
            at <= container.fields@.len(),
            source@ == calibrated_text(container@.fields, at as nat),
        decreases container.fields@.len() - at,
    {
        let field = &container.fields[at];
        assert(container@.fields[at as int] == field@);
        if field.calibration.is_some() {
            let between = comma(source.as_str());
            source.append(between);
            source.append("(");
            source.append(literal(field.xtce_name.as_str()).as_str());
            source.append(", ");
            source.append(raw_bits(field).as_str());
            source.append(", packet.");
            source.append(trim(field.ident.as_str()).as_str());
            source.append("_calibrated().ok())");
        }
        at = at + 1;
    }
    source
}

/// The criteria: the value the ground compares, and the mask of its width.
fn criteria(container: &Container) -> (source: String)
    ensures
        source@ == criteria_text(container@.constants, container@.constants.len()),
{
    let mut source = String::new();
    let mut at: usize = 0;
    while at < container.constants.len()
        invariant
            at <= container.constants@.len(),
            source@ == criteria_text(container@.constants, at as nat),
        decreases container.constants@.len() - at,
    {
        let constant = &container.constants[at];
        assert(container@.constants[at as int] == constant@);
        let between = comma(source.as_str());
        source.append(between);
        source.append("(");
        source.append(literal(constant.xtce_name.as_str()).as_str());
        source.append(", ");
        source.append(decimal(constant.reported as u128).as_str());
        source.append(", ");
        source.append(decimal(mask_for(constant.bit_width) as u128).as_str());
        source.append(")");
        at = at + 1;
    }
    source
}

// ---------------------------------------------------------------------------------------
// A case
// ---------------------------------------------------------------------------------------

/// The name of the function that makes a case.
pub open spec fn case_name(type_ident: Seq<char>) -> Seq<char> {
    "case_"@ + snake_text(letters_of(type_ident))
}

/// The documentation of the function that makes a case.
pub open spec fn case_doc(name: Seq<char>) -> Seq<char> {
    "A random `"@ + name + "`, encoded, with the values that went in."@
}

/// The documentation of the function that makes a case.
fn document_case(name: &str) -> (source: String)
    ensures
        source@ == doc_attribute(case_doc(name@)),
{
    let mut doc = "A random `".to_owned();
    doc.append(name);
    doc.append("`, encoded, with the values that went in.");
    doc_line(doc.as_str())
}

/// The name of the function that makes a case.
fn name_case(type_ident: &str) -> (source: String)
    ensures
        source@ == case_name(type_ident@),
{
    let mut source = "case_".to_owned();
    source.append(snake(type_ident).as_str());
    source
}

/// The function that makes one random packet of a container, encodes it, and checks that it
/// survives its own round trip and satisfies its own criteria.
#[verifier::opaque]
pub open spec fn case_text(
    container: ContainerModel,
    enums: Seq<EnumModel>,
    path: Seq<char>,
) -> Seq<char> {
    doc_attribute(case_doc(container.xtce_name)) + "#[must_use]\npub fn "@
        + case_name(container.type_ident)
        + "(seed: u64) -> Case {\nlet mut rng = Rng::new(seed);\n"@
        + all_owned_text(container.fields, container.fields.len())
        + scalars_text(container.fields, enums, path, container.fields.len()) + "let packet = "@
        + path + " ::"@ + container.type_ident + " {\n"@
        + initialisers_text(container.fields, container.fields.len())
        + "};\nlet mut bytes = vec![0u8; "@ + decimal_text(container.len_bytes as nat)
        + "];\nlet written = packet\n.encode(&mut bytes)\n.unwrap_or_else(|error| panic!(\"{}: encode failed: {error}\", "@
        + string_literal(container.xtce_name) + "));\nassert_eq!(written, "@
        + decimal_text(container.len_bytes as nat) + ", \"{}: encode wrote the wrong length\", "@
        + string_literal(container.xtce_name) + ");\nlet returned = "@ + path + " ::"@
        + container.type_ident
        + "::decode(&bytes)\n.unwrap_or_else(|error| panic!(\"{}: decode failed: {error}\", "@
        + string_literal(container.xtce_name)
        + "));\nassert_eq!(returned, packet, \"{}: does not survive its own round trip\", "@
        + string_literal(container.xtce_name) + ");\nassert!(\n"@ + path + " ::"@
        + container.type_ident
        + "::matches(&bytes),\n\"{}: encoded packet does not satisfy its own criteria\",\n"@
        + string_literal(container.xtce_name) + "\n);\nCase {\ncontainer: "@
        + string_literal(container.xtce_name) + ",\nbytes,\nexpected: vec!["@
        + expectations_text(container.fields, container.fields.len()) + "],\ncriteria: vec!["@
        + criteria_text(container.constants, container.constants.len()) + "],\ncalibrated: vec!["@
        + calibrated_text(container.fields, container.fields.len()) + "],\n}\n}\n"@
}

/// The function that makes one random packet of a container, encodes it, and checks that it
/// survives its own round trip and satisfies its own criteria.
fn case(container: &Container, enums: &Vec<EnumType>, path: &str) -> (source: String)
    requires
        container@.emittable(),
    ensures
        source@ == case_text(container@, enum_models(enums@), path@),
{
    reveal(case_text);
    let len = decimal(container.len_bytes as u128);
    let name = literal(container.xtce_name.as_str());
    let mut source = document_case(container.xtce_name.as_str()).as_str().to_owned();
    source.append("#[must_use]\npub fn ");
    source.append(name_case(container.type_ident.as_str()).as_str());
    source.append("(seed: u64) -> Case {\nlet mut rng = Rng::new(seed);\n");
    source.append(all_owned(container).as_str());
    source.append(scalars(container, enums, path).as_str());
    source.append("let packet = ");
    source.append(path);
    source.append(" ::");
    source.append(container.type_ident.as_str());
    source.append(" {\n");
    source.append(initialisers(container).as_str());
    source.append("};\nlet mut bytes = vec![0u8; ");
    source.append(len.as_str());
    source.append("];\nlet written = packet\n.encode(&mut bytes)\n.unwrap_or_else(|error| panic!(\"{}: encode failed: {error}\", ");
    source.append(name.as_str());
    source.append("));\nassert_eq!(written, ");
    source.append(len.as_str());
    source.append(", \"{}: encode wrote the wrong length\", ");
    source.append(name.as_str());
    source.append(");\nlet returned = ");
    source.append(path);
    source.append(" ::");
    source.append(container.type_ident.as_str());
    source.append("::decode(&bytes)\n.unwrap_or_else(|error| panic!(\"{}: decode failed: {error}\", ");
    source.append(name.as_str());
    source.append("));\nassert_eq!(returned, packet, \"{}: does not survive its own round trip\", ");
    source.append(name.as_str());
    source.append(");\nassert!(\n");
    source.append(path);
    source.append(" ::");
    source.append(container.type_ident.as_str());
    source.append("::matches(&bytes),\n\"{}: encoded packet does not satisfy its own criteria\",\n");
    source.append(name.as_str());
    source.append("\n);\nCase {\ncontainer: ");
    source.append(name.as_str());
    source.append(",\nbytes,\nexpected: vec![");
    source.append(expectations(container).as_str());
    source.append("],\ncriteria: vec![");
    source.append(criteria(container).as_str());
    source.append("],\ncalibrated: vec![");
    source.append(calibrated(container).as_str());
    source.append("],\n}\n}\n");
    source
}

// ---------------------------------------------------------------------------------------
// The module
// ---------------------------------------------------------------------------------------

/// The functions that make the first `count` cases.
pub open spec fn all_cases_text(layout: LayoutModel, path: Seq<char>, count: nat) -> Seq<char>
    decreases count,
{
    if count == 0 {
        Seq::empty()
    } else {
        all_cases_text(layout, path, (count - 1) as nat) + case_text(
            layout.containers[count - 1],
            layout.enums,
            path,
        )
    }
}

/// What the seed of a container's case is mixed with.
pub open spec fn salt(index: int) -> int {
    (0x9E37_79B9_7F4A_7C15 * (index + 1)) % 0x1_0000_0000_0000_0000
}

/// The calls of the first `count` functions.
pub open spec fn calls_text(layout: LayoutModel, count: nat) -> Seq<char>
    decreases count,
{
    if count == 0 {
        Seq::empty()
    } else {
        let items = calls_text(layout, (count - 1) as nat);
        items + separator(items) + case_name(layout.containers[count - 1].type_ident)
            + "(seed ^ "@ + decimal_text(salt(count - 1) as nat) + ")"@
    }
}

/// What stands between the functions and their calls.
pub const CASES_HEAD: &'static str = r#"#[doc = r" One case per container, all drawn from `seed`."]
#[must_use]
pub fn cases(seed: u64) -> Vec<Case> {
    vec!["#;

/// The source of a harness that calls into the flight module at a path.
pub open spec fn harness_text(layout: LayoutModel, path: Seq<char>) -> Seq<char> {
    PRELUDE@ + all_cases_text(layout, path, layout.containers.len()) + CASES_HEAD@ + calls_text(
        layout,
        layout.containers.len(),
    ) + "]\n}\n"@
}

/// The functions that make the cases.
fn all_cases(layout: &Layout, path: &str) -> (source: String)
    requires
        layout@.emittable(),
    ensures
        source@ == all_cases_text(layout@, path@, layout@.containers.len()),
{
    let mut source = String::new();
    let mut at: usize = 0;
    while at < layout.containers.len()
        invariant
            at <= layout.containers@.len(),
            layout@.emittable(),
            source@ == all_cases_text(layout@, path@, at as nat),
        decreases layout.containers@.len() - at,
    {
        assert(layout@.containers[at as int] == layout.containers@[at as int]@);
        source.append(case(&layout.containers[at], &layout.enums, path).as_str());
        at = at + 1;
    }
    source
}

/// The calls of the functions that make the cases.
fn calls(layout: &Layout) -> (source: String)
    ensures
        source@ == calls_text(layout@, layout@.containers.len()),
{
    let mut source = String::new();
    let mut at: usize = 0;
    while at < layout.containers.len()
        invariant
            at <= layout.containers@.len(),
            source@ == calls_text(layout@, at as nat),
        decreases layout.containers@.len() - at,
    {
        assert(layout@.containers[at as int] == layout.containers@[at as int]@);
        let mixed: u128 = (0x9E37_79B9_7F4A_7C15u128 * (at as u128 + 1))
            % 0x1_0000_0000_0000_0000u128;
        let between = comma(source.as_str());
        source.append(between);
        source.append(name_case(layout.containers[at].type_ident.as_str()).as_str());
        source.append("(seed ^ ");
        source.append(decimal(mixed).as_str());
        source.append(")");
        at = at + 1;
    }
    source
}

/// The path that the harness calls into: the tokens of the one given, unless it is not made of
/// tokens.
pub open spec fn chosen_path(printed: Option<Seq<char>>) -> Seq<char> {
    match printed {
        Some(path) => path,
        None => "super::flight"@,
    }
}

/// Renders a test harness before it is formatted.
pub fn unformatted(layout: &Layout, path: &str) -> (source: String)
    requires
        layout@.emittable(),
    ensures
        source@ == harness_text(layout@, path@),
{
    let mut source = PRELUDE.to_owned();
    source.append(all_cases(layout, path).as_str());
    source.append(CASES_HEAD);
    source.append(calls(layout).as_str());
    source.append("]\n}\n");
    source
}

/// Takes what the formatter made of a harness or else its tokens as they are printed, if there are
/// any, and else the harness as it is.
pub fn assemble(
    layout: &Layout,
    path: &str,
    formatted: &Option<String>,
    printed: &Option<String>,
) -> (source: String)
    requires
        layout@.emittable(),
    ensures
        source@ == given_out(
            harness_text(layout@, path@),
            optional_text(*formatted),
            optional_text(*printed),
        ),
{
    give_out(unformatted(layout, path), formatted, printed)
}

/// A harness as it is given out: formatted, unless that could stop the formatter.
pub open spec fn harness_source(layout: LayoutModel, path: Seq<char>) -> Seq<char> {
    rendered(harness_text(layout, path), layout_clean(layout) && is_printable(path))
}

/// Renders a test harness for `layout` that calls into the flight module at `path`.
fn render(layout: &Layout, path: &str) -> (source: String)
    requires
        layout@.emittable(),
        path@ == "super::flight"@ || is_printed(path@),
    ensures
        source@ == harness_source(layout@, path@),
{
    let formatted = if is_clean(layout) && path_prints(path) {
        format_source(unformatted(layout, path).as_str())
    } else {
        None
    };
    let printed = match formatted {
        Some(_) => None,
        None => tokens(unformatted(layout, path).as_str()),
    };
    assemble(layout, path, &formatted, &printed)
}

/// Renders a test harness for `layout`, calling into the flight module at `flight_path`.
///
/// `flight_path` is spliced into the source token by token, so `super::flight` and
/// `crate::telemetry` are both fine, and so are spaces and comments in them.
#[must_use]
pub fn generate(layout: &Layout, flight_path: &str) -> (source: String)
    requires
        layout@.emittable(),
    ensures
        source@ == harness_source(layout@, chosen_path(printed_tokens(flight_path@))),
{
    match tokens(flight_path) {
        Some(path) => render(layout, path.as_str()),
        None => render(layout, "super::flight"),
    }
}

} // verus!
