//! Fields whose bytes go least significant first, and a criterion on such a field.
//!
//! Reversing bytes is its own inverse, so a whole-byte field costs nothing. The criterion is what
//! is easy to get wrong: it compares the value after the reversal, so the bits to write are the
//! reversal undone.

use vstd::arithmetic::power2::*;
use vstd::prelude::*;

use crate::builder::constant_models;
use crate::codec::{datums, Datum, Value};
use crate::half::{lemma_half_round_trip, lemma_widened_normal, narrowed, widened};
use crate::layout::{
    enum_models, Constant, ConstantModel, Container, ContainerModel, EnumModel, EnumType,
    FieldModel, Kind, KindModel,
};
use crate::missions::parts::{
    carried, comes_back, container, no_values, place, placed, plain, require, reversed, sent,
    supply,
};
use crate::plan::IntegerCoding;

verus! {

/// The fields the caller supplies.
pub open spec fn byte_order_fields() -> Seq<FieldModel> {
    seq![
        reversed(plain("U16_LE"@, "u16_le"@, 16, 16, KindModel::Unsigned)),
        reversed(plain("U24_LE"@, "u24_le"@, 32, 24, KindModel::Unsigned)),
        reversed(plain("U32_LE"@, "u32_le"@, 56, 32, KindModel::Unsigned)),
        reversed(plain("U64_LE"@, "u64_le"@, 88, 64, KindModel::Unsigned)),
        reversed(
            plain("S16_LE"@, "s16_le"@, 152, 16, KindModel::Signed(IntegerCoding::TwosComplement)),
        ),
        reversed(
            plain("S32_LE"@, "s32_le"@, 168, 32, KindModel::Signed(IntegerCoding::TwosComplement)),
        ),
        reversed(plain("F16_LE"@, "f16_le"@, 200, 16, KindModel::Float16)),
        reversed(plain("F32_LE"@, "f32_le"@, 216, 32, KindModel::Float32)),
        reversed(plain("F64_LE"@, "f64_le"@, 248, 64, KindModel::Float64)),
        reversed(plain("U8_LE"@, "u8_le"@, 312, 8, KindModel::Unsigned)),
        plain("NIB"@, "nib"@, 320, 4, KindModel::Unsigned),
        reversed(plain("U16_LE_ODD"@, "u16_le_odd"@, 324, 16, KindModel::Unsigned)),
        plain("PAD_4"@, "pad_4"@, 340, 4, KindModel::Unsigned),
        plain("U16_BE"@, "u16_be"@, 344, 16, KindModel::Unsigned),
        plain("F32_BE"@, "f32_be"@, 360, 32, KindModel::Float32),
    ]
}

/// The criterion: a decoder reports 0x0102 for the bits 0x0201.
pub open spec fn selector() -> ConstantModel {
    ConstantModel {
        xtce_name: "SEL"@,
        ident: "sel"@,
        bit_offset: 0,
        bit_width: 16,
        reported: 0x0102,
        raw: 0x0201,
    }
}

/// The container of the definition.
pub open spec fn byte_order() -> ContainerModel {
    ContainerModel {
        xtce_name: "Telemetry"@,
        type_ident: "Telemetry"@,
        len_bytes: 49,
        fields: byte_order_fields(),
        constants: seq![selector()],
        fixed: Seq::empty(),
        borrows: false,
    }
}

/// The values that [`round_trip_little_endian`] sends.
pub open spec fn byte_order_values() -> Seq<Datum> {
    seq![
        Datum::Unsigned(4660),
        Datum::Unsigned(1193046),
        Datum::Unsigned(305419896),
        Datum::Unsigned(0x1234_5678_9ABC_DEF0),
        Datum::Signed((-1234) as i64),
        Datum::Signed((-123456) as i64),
        Datum::Single(0x3FC0_0000),
        Datum::Single(0x4020_0000),
        Datum::Double(0x400C_0000_0000_0000),
        Datum::Unsigned(7),
        Datum::Unsigned(5),
        Datum::Unsigned(48879),
        Datum::Unsigned(0),
        Datum::Unsigned(51966),
        Datum::Single(0xC090_0000),
    ]
}

/// The container of the definition.
pub fn byte_order_container() -> (made: Container)
    ensures
        made@ == byte_order(),
        placed(made@, Seq::empty(), 392),
{
    let ghost enums = Seq::<EnumModel>::empty();
    let mut constants: Vec<Constant> = Vec::new();
    assert(constant_models(constants@) =~= Seq::empty());
    require(
        &mut constants,
        Constant {
            xtce_name: "SEL".to_owned(),
            ident: "sel".to_owned(),
            bit_offset: 0,
            bit_width: 16,
            reported: 0x0102,
            raw: 0x0201,
        },
    );
    let mut made = container("Telemetry", "Telemetry", 49, constants, Vec::new(), false);
    proof {
        lemma2_to64();
        assert(made@.fixed =~= Seq::empty());
        assert(made@.constants == seq![selector()]);
    }
    place(&mut made, "U16_LE", "u16_le", 16, 16, Kind::Unsigned, true, Ghost(enums));
    place(&mut made, "U24_LE", "u24_le", 32, 24, Kind::Unsigned, true, Ghost(enums));
    place(&mut made, "U32_LE", "u32_le", 56, 32, Kind::Unsigned, true, Ghost(enums));
    place(&mut made, "U64_LE", "u64_le", 88, 64, Kind::Unsigned, true, Ghost(enums));
    place(
        &mut made,
        "S16_LE",
        "s16_le",
        152,
        16,
        Kind::Signed(IntegerCoding::TwosComplement),
        true,
        Ghost(enums),
    );
    place(
        &mut made,
        "S32_LE",
        "s32_le",
        168,
        32,
        Kind::Signed(IntegerCoding::TwosComplement),
        true,
        Ghost(enums),
    );
    place(&mut made, "F16_LE", "f16_le", 200, 16, Kind::Float16, true, Ghost(enums));
    place(&mut made, "F32_LE", "f32_le", 216, 32, Kind::Float32, true, Ghost(enums));
    place(&mut made, "F64_LE", "f64_le", 248, 64, Kind::Float64, true, Ghost(enums));
    place(&mut made, "U8_LE", "u8_le", 312, 8, Kind::Unsigned, true, Ghost(enums));
    place(&mut made, "NIB", "nib", 320, 4, Kind::Unsigned, false, Ghost(enums));
    place(&mut made, "U16_LE_ODD", "u16_le_odd", 324, 16, Kind::Unsigned, true, Ghost(enums));
    place(&mut made, "PAD_4", "pad_4", 340, 4, Kind::Unsigned, false, Ghost(enums));
    place(&mut made, "U16_BE", "u16_be", 344, 16, Kind::Unsigned, false, Ghost(enums));
    place(&mut made, "F32_BE", "f32_be", 360, 32, Kind::Float32, false, Ghost(enums));
    assert(made@.fields =~= byte_order_fields());
    made
}

/// The values that [`round_trip_little_endian`] sends.
fn byte_order_packet() -> (values: Vec<Value<'static>>)
    ensures
        datums(values@) == byte_order_values(),
        carried(byte_order_fields(), Seq::empty(), datums(values@)),
        values@.len() == byte_order_fields().len(),
{
    let ghost fields = byte_order_fields();
    let ghost enums = Seq::<EnumModel>::empty();
    proof {
        lemma2_to64();
        lemma2_to64_rest();
    }
    let mut values = no_values(Ghost(fields), Ghost(enums));
    supply(&mut values, Value::Unsigned(4660), Ghost(fields), Ghost(enums));
    supply(&mut values, Value::Unsigned(1193046), Ghost(fields), Ghost(enums));
    supply(&mut values, Value::Unsigned(305419896), Ghost(fields), Ghost(enums));
    supply(&mut values, Value::Unsigned(0x1234_5678_9ABC_DEF0), Ghost(fields), Ghost(enums));
    supply(&mut values, Value::Signed(-1234), Ghost(fields), Ghost(enums));
    supply(&mut values, Value::Signed(-123456), Ghost(fields), Ghost(enums));
    supply(&mut values, Value::Single(0x3FC0_0000), Ghost(fields), Ghost(enums));
    supply(&mut values, Value::Single(0x4020_0000), Ghost(fields), Ghost(enums));
    supply(&mut values, Value::Double(0x400C_0000_0000_0000), Ghost(fields), Ghost(enums));
    supply(&mut values, Value::Unsigned(7), Ghost(fields), Ghost(enums));
    supply(&mut values, Value::Unsigned(5), Ghost(fields), Ghost(enums));
    supply(&mut values, Value::Unsigned(48879), Ghost(fields), Ghost(enums));
    supply(&mut values, Value::Unsigned(0), Ghost(fields), Ghost(enums));
    supply(&mut values, Value::Unsigned(51966), Ghost(fields), Ghost(enums));
    supply(&mut values, Value::Single(0xC090_0000), Ghost(fields), Ghost(enums));
    values
}

/// A binary16 holds one and a half exactly.
proof fn lemma_one_and_a_half()
    ensures
        widened(narrowed(0x3FC0_0000)) == 0x3FC0_0000,
{
    lemma_widened_normal(0x3E00);
    lemma_half_round_trip(0x3E00);
}

/// Encodes a packet of little-endian fields, decodes it, and says whether the same values came
/// back.
pub fn round_trip_little_endian(out: &mut [u8]) -> (same: bool)
    ensures
        same == (old(out)@.len() >= 49),
        sent(
            byte_order(),
            Seq::empty(),
            byte_order_values(),
            old(out)@,
            final(out)@,
            if same {
                49
            } else {
                0
            },
        ),
{
    let made = byte_order_container();
    let enums: Vec<EnumType> = Vec::new();
    assert(enum_models(enums@) =~= Seq::empty());
    let values = byte_order_packet();
    proof {
        lemma_one_and_a_half();
    }
    comes_back(&made, &enums, values.as_slice(), out, Ghost(392))
}

} // verus!
