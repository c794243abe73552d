//! Every numeric shape: floats of three sizes, signed integers in three codings, and integers up
//! to 64 bits, each both on and off a byte boundary.

use vstd::arithmetic::power2::*;
use vstd::prelude::*;

use crate::codec::{datums, decode, decoded, Datum, Value};
use crate::layout::{
    enum_models, Container, ContainerModel, EnumModel, EnumType, FieldModel, Kind, KindModel,
};
use crate::missions::parts::{
    carried, container, lemma_numbers_decode, no_values, place, placed, plain, sent, supply,
    transmit,
};
use crate::plan::IntegerCoding;

verus! {

/// The fields of a `NumericEdges` packet.
pub open spec fn numeric_edges_fields() -> Seq<FieldModel> {
    seq![
        plain("PAD_4"@, "pad_4"@, 0, 4, KindModel::Unsigned),
        plain("F16_UNALIGNED"@, "f16_unaligned"@, 4, 16, KindModel::Float16),
        plain("F32_UNALIGNED"@, "f32_unaligned"@, 20, 32, KindModel::Float32),
        plain("F64_UNALIGNED"@, "f64_unaligned"@, 52, 64, KindModel::Float64),
        plain(
            "S16_TWOS_UNALIGNED"@,
            "s16_twos_unaligned"@,
            116,
            16,
            KindModel::Signed(IntegerCoding::TwosComplement),
        ),
        plain(
            "S16_SIGNMAG_UNALIGNED"@,
            "s16_signmag_unaligned"@,
            132,
            16,
            KindModel::Signed(IntegerCoding::SignMagnitude),
        ),
        plain(
            "S16_ONES_UNALIGNED"@,
            "s16_ones_unaligned"@,
            148,
            16,
            KindModel::Signed(IntegerCoding::OnesComplement),
        ),
        plain("U64_UNALIGNED"@, "u64_unaligned"@, 164, 64, KindModel::Unsigned),
        plain("U57_UNALIGNED"@, "u57_unaligned"@, 228, 57, KindModel::Unsigned),
        plain(
            "S63_TWOS_UNALIGNED"@,
            "s63_twos_unaligned"@,
            285,
            63,
            KindModel::Signed(IntegerCoding::TwosComplement),
        ),
        plain("PAD_4B"@, "pad_4b"@, 348, 4, KindModel::Unsigned),
        plain("F16_ALIGNED"@, "f16_aligned"@, 352, 16, KindModel::Float16),
        plain("F32_ALIGNED"@, "f32_aligned"@, 368, 32, KindModel::Float32),
        plain("F64_ALIGNED"@, "f64_aligned"@, 400, 64, KindModel::Float64),
        plain(
            "S16_TWOS_ALIGNED"@,
            "s16_twos_aligned"@,
            464,
            16,
            KindModel::Signed(IntegerCoding::TwosComplement),
        ),
        plain(
            "S16_SIGNMAG_ALIGNED"@,
            "s16_signmag_aligned"@,
            480,
            16,
            KindModel::Signed(IntegerCoding::SignMagnitude),
        ),
        plain(
            "S16_ONES_ALIGNED"@,
            "s16_ones_aligned"@,
            496,
            16,
            KindModel::Signed(IntegerCoding::OnesComplement),
        ),
        plain("U64_ALIGNED"@, "u64_aligned"@, 512, 64, KindModel::Unsigned),
        plain(
            "S63_TWOS_ALIGNED"@,
            "s63_twos_aligned"@,
            576,
            63,
            KindModel::Signed(IntegerCoding::TwosComplement),
        ),
        plain("PAD_1"@, "pad_1"@, 639, 1, KindModel::Unsigned),
    ]
}

/// The container of the definition.
pub open spec fn numeric_edges() -> ContainerModel {
    ContainerModel {
        xtce_name: "NumericEdges"@,
        type_ident: "NumericEdges"@,
        len_bytes: 80,
        fields: numeric_edges_fields(),
        constants: Seq::empty(),
        fixed: Seq::empty(),
        borrows: false,
    }
}

/// The values that [`encode_numeric_edges`] sends.
pub open spec fn numeric_edges_values() -> Seq<Datum> {
    seq![
        Datum::Unsigned(1),
        Datum::Single(0x3FC0_0000),
        Datum::Single(0x4020_0000),
        Datum::Double(0x400C_0000_0000_0000),
        Datum::Signed((-1) as i64),
        Datum::Signed((-2) as i64),
        Datum::Signed((-3) as i64),
        Datum::Unsigned(0xFFFF_FFFF_FFFF_FFFF),
        Datum::Unsigned(1),
        Datum::Signed((-4) as i64),
        Datum::Unsigned(2),
        Datum::Single(0x4090_0000),
        Datum::Single(0x40B0_0000),
        Datum::Double(0x401A_0000_0000_0000),
        Datum::Signed((-5) as i64),
        Datum::Signed((-6) as i64),
        Datum::Signed((-7) as i64),
        Datum::Unsigned(9),
        Datum::Signed((-8) as i64),
        Datum::Unsigned(1),
    ]
}

/// The container of the definition.
pub fn numeric_edges_container() -> (made: Container)
    ensures
        made@ == numeric_edges(),
        placed(made@, Seq::empty(), 640),
{
    let ghost enums = Seq::<EnumModel>::empty();
    let mut made = container("NumericEdges", "NumericEdges", 80, Vec::new(), Vec::new(), false);
    assert(made@.constants =~= Seq::empty());
    assert(made@.fixed =~= Seq::empty());
    place(&mut made, "PAD_4", "pad_4", 0, 4, Kind::Unsigned, false, Ghost(enums));
    place(&mut made, "F16_UNALIGNED", "f16_unaligned", 4, 16, Kind::Float16, false, Ghost(enums));
    place(&mut made, "F32_UNALIGNED", "f32_unaligned", 20, 32, Kind::Float32, false, Ghost(enums));
    place(&mut made, "F64_UNALIGNED", "f64_unaligned", 52, 64, Kind::Float64, false, Ghost(enums));
    place(
        &mut made,
        "S16_TWOS_UNALIGNED",
        "s16_twos_unaligned",
        116,
        16,
        Kind::Signed(IntegerCoding::TwosComplement),
        false,
        Ghost(enums),
    );
    place(
        &mut made,
        "S16_SIGNMAG_UNALIGNED",
        "s16_signmag_unaligned",
        132,
        16,
        Kind::Signed(IntegerCoding::SignMagnitude),
        false,
        Ghost(enums),
    );
    place(
        &mut made,
        "S16_ONES_UNALIGNED",
        "s16_ones_unaligned",
        148,
        16,
        Kind::Signed(IntegerCoding::OnesComplement),
        false,
        Ghost(enums),
    );
    place(
        &mut made,
        "U64_UNALIGNED",
        "u64_unaligned",
        164,
        64,
        Kind::Unsigned,
        false,
        Ghost(enums),
    );
    place(
        &mut made,
        "U57_UNALIGNED",
        "u57_unaligned",
        228,
        57,
        Kind::Unsigned,
        false,
        Ghost(enums),
    );
    place(
        &mut made,
        "S63_TWOS_UNALIGNED",
        "s63_twos_unaligned",
        285,
        63,
        Kind::Signed(IntegerCoding::TwosComplement),
        false,
        Ghost(enums),
    );
    place(&mut made, "PAD_4B", "pad_4b", 348, 4, Kind::Unsigned, false, Ghost(enums));
    place(&mut made, "F16_ALIGNED", "f16_aligned", 352, 16, Kind::Float16, false, Ghost(enums));
    place(&mut made, "F32_ALIGNED", "f32_aligned", 368, 32, Kind::Float32, false, Ghost(enums));
    place(&mut made, "F64_ALIGNED", "f64_aligned", 400, 64, Kind::Float64, false, Ghost(enums));
    place(
        &mut made,
        "S16_TWOS_ALIGNED",
        "s16_twos_aligned",
        464,
        16,
        Kind::Signed(IntegerCoding::TwosComplement),
        false,
        Ghost(enums),
    );
    place(
        &mut made,
        "S16_SIGNMAG_ALIGNED",
        "s16_signmag_aligned",
        480,
        16,
        Kind::Signed(IntegerCoding::SignMagnitude),
        false,
        Ghost(enums),
    );
    place(
        &mut made,
        "S16_ONES_ALIGNED",
        "s16_ones_aligned",
        496,
        16,
        Kind::Signed(IntegerCoding::OnesComplement),
        false,
        Ghost(enums),
    );
    place(&mut made, "U64_ALIGNED", "u64_aligned", 512, 64, Kind::Unsigned, false, Ghost(enums));
    place(
        &mut made,
        "S63_TWOS_ALIGNED",
        "s63_twos_aligned",
        576,
        63,
        Kind::Signed(IntegerCoding::TwosComplement),
        false,
        Ghost(enums),
    );
    place(&mut made, "PAD_1", "pad_1", 639, 1, Kind::Unsigned, false, Ghost(enums));
    assert(made@.fields =~= numeric_edges_fields());
    made
}

/// The values that [`encode_numeric_edges`] sends.
fn numeric_edges_packet() -> (values: Vec<Value<'static>>)
    ensures
        datums(values@) == numeric_edges_values(),
        carried(numeric_edges_fields(), Seq::empty(), datums(values@)),
        values@.len() == numeric_edges_fields().len(),
{
    let ghost fields = numeric_edges_fields();
    let ghost enums = Seq::<EnumModel>::empty();
    proof {
        lemma2_to64();
        lemma2_to64_rest();
    }
    let mut values = no_values(Ghost(fields), Ghost(enums));
    supply(&mut values, Value::Unsigned(1), Ghost(fields), Ghost(enums));
    supply(&mut values, Value::Single(0x3FC0_0000), Ghost(fields), Ghost(enums));
    supply(&mut values, Value::Single(0x4020_0000), Ghost(fields), Ghost(enums));
    supply(&mut values, Value::Double(0x400C_0000_0000_0000), Ghost(fields), Ghost(enums));
    supply(&mut values, Value::Signed(-1), Ghost(fields), Ghost(enums));
    supply(&mut values, Value::Signed(-2), Ghost(fields), Ghost(enums));
    supply(&mut values, Value::Signed(-3), Ghost(fields), Ghost(enums));
    supply(&mut values, Value::Unsigned(0xFFFF_FFFF_FFFF_FFFF), Ghost(fields), Ghost(enums));
    supply(&mut values, Value::Unsigned(1), Ghost(fields), Ghost(enums));
    supply(&mut values, Value::Signed(-4), Ghost(fields), Ghost(enums));
    supply(&mut values, Value::Unsigned(2), Ghost(fields), Ghost(enums));
    supply(&mut values, Value::Single(0x4090_0000), Ghost(fields), Ghost(enums));
    supply(&mut values, Value::Single(0x40B0_0000), Ghost(fields), Ghost(enums));
    supply(&mut values, Value::Double(0x401A_0000_0000_0000), Ghost(fields), Ghost(enums));
    supply(&mut values, Value::Signed(-5), Ghost(fields), Ghost(enums));
    supply(&mut values, Value::Signed(-6), Ghost(fields), Ghost(enums));
    supply(&mut values, Value::Signed(-7), Ghost(fields), Ghost(enums));
    supply(&mut values, Value::Unsigned(9), Ghost(fields), Ghost(enums));
    supply(&mut values, Value::Signed(-8), Ghost(fields), Ghost(enums));
    supply(&mut values, Value::Unsigned(1), Ghost(fields), Ghost(enums));
    values
}

/// Encodes a `NumericEdges` packet, giving how many bytes were written.
pub fn encode_numeric_edges(out: &mut [u8]) -> (written: usize)
    ensures
        sent(
            numeric_edges(),
            Seq::empty(),
            numeric_edges_values(),
            old(out)@,
            final(out)@,
            written as int,
        ),
{
    let made = numeric_edges_container();
    let enums: Vec<EnumType> = Vec::new();
    assert(enum_models(enums@) =~= Seq::empty());
    let values = numeric_edges_packet();
    transmit(&made, &enums, values.as_slice(), out)
}

/// Whether a buffer decodes as a `NumericEdges` packet: numbers leave nothing to refuse, so it
/// does wherever there are enough bytes.
pub fn decode_numeric_edges(data: &[u8]) -> (decoded: bool)
    ensures
        decoded == (data@.len() >= 80),
{
    let made = numeric_edges_container();
    let enums: Vec<EnumType> = Vec::new();
    assert(enum_models(enums@) =~= Seq::empty());
    proof {
        lemma_numbers_decode(made@, Seq::empty(), data@.take(80));
    }
    decode(&made, &enums, data).is_ok()
}

} // verus!
