//! Arrays, expanded into one field per element. Nothing tells the encoder that they were one.

use vstd::arithmetic::power2::*;
use vstd::prelude::*;

use crate::codec::{datums, Datum, Value};
use crate::layout::{
    enum_models, Container, ContainerModel, EnumModel, EnumType, FieldModel, Kind, KindModel,
};
use crate::missions::parts::{
    carried, comes_back, container, no_values, place, placed, plain, sent, supply,
};
use crate::plan::IntegerCoding;

verus! {

/// The fields of the definition's one container.
pub open spec fn arrays_fields() -> Seq<FieldModel> {
    seq![
        plain("LEAD"@, "lead"@, 0, 8, KindModel::Unsigned),
        plain("TEMPS[0]"@, "temps_0"@, 8, 16, KindModel::Signed(IntegerCoding::TwosComplement)),
        plain("TEMPS[1]"@, "temps_1"@, 24, 16, KindModel::Signed(IntegerCoding::TwosComplement)),
        plain("TEMPS[2]"@, "temps_2"@, 40, 16, KindModel::Signed(IntegerCoding::TwosComplement)),
        plain("TEMPS[3]"@, "temps_3"@, 56, 16, KindModel::Signed(IntegerCoding::TwosComplement)),
        plain("TEMPS[4]"@, "temps_4"@, 72, 16, KindModel::Signed(IntegerCoding::TwosComplement)),
        plain("TEMPS[5]"@, "temps_5"@, 88, 16, KindModel::Signed(IntegerCoding::TwosComplement)),
        plain("MIDDLE"@, "middle"@, 104, 8, KindModel::Unsigned),
        plain("GRID[0][0]"@, "grid_0_0"@, 112, 8, KindModel::Unsigned),
        plain("GRID[0][1]"@, "grid_0_1"@, 120, 8, KindModel::Unsigned),
        plain("GRID[0][2]"@, "grid_0_2"@, 128, 8, KindModel::Unsigned),
        plain("GRID[1][0]"@, "grid_1_0"@, 136, 8, KindModel::Unsigned),
        plain("GRID[1][1]"@, "grid_1_1"@, 144, 8, KindModel::Unsigned),
        plain("GRID[1][2]"@, "grid_1_2"@, 152, 8, KindModel::Unsigned),
        plain("WINDOW[3]"@, "window_3"@, 160, 8, KindModel::Unsigned),
        plain("WINDOW[4]"@, "window_4"@, 168, 8, KindModel::Unsigned),
        plain("WINDOW[5]"@, "window_5"@, 176, 8, KindModel::Unsigned),
        plain("BITS[0]"@, "bits_0"@, 184, 4, KindModel::Unsigned),
        plain("BITS[1]"@, "bits_1"@, 188, 4, KindModel::Unsigned),
        plain("BITS[2]"@, "bits_2"@, 192, 4, KindModel::Unsigned),
        plain("BITS[3]"@, "bits_3"@, 196, 4, KindModel::Unsigned),
        plain("BITS[4]"@, "bits_4"@, 200, 4, KindModel::Unsigned),
        plain("BITS[5]"@, "bits_5"@, 204, 4, KindModel::Unsigned),
        plain("FLOATS[0]"@, "floats_0"@, 208, 32, KindModel::Float32),
        plain("FLOATS[1]"@, "floats_1"@, 240, 32, KindModel::Float32),
        plain("FLOATS[2]"@, "floats_2"@, 272, 32, KindModel::Float32),
        plain("TAIL"@, "tail"@, 304, 8, KindModel::Unsigned),
    ]
}

/// The container of the definition.
pub open spec fn arrays() -> ContainerModel {
    ContainerModel {
        xtce_name: "Telemetry"@,
        type_ident: "Telemetry"@,
        len_bytes: 39,
        fields: arrays_fields(),
        constants: Seq::empty(),
        fixed: Seq::empty(),
        borrows: false,
    }
}

/// The values that [`round_trip_arrays`] sends.
pub open spec fn arrays_values() -> Seq<Datum> {
    seq![
        Datum::Unsigned(1),
        Datum::Signed((-1) as i64),
        Datum::Signed((-2) as i64),
        Datum::Signed((-3) as i64),
        Datum::Signed(4),
        Datum::Signed(5),
        Datum::Signed(6),
        Datum::Unsigned(2),
        Datum::Unsigned(10),
        Datum::Unsigned(11),
        Datum::Unsigned(12),
        Datum::Unsigned(13),
        Datum::Unsigned(14),
        Datum::Unsigned(15),
        Datum::Unsigned(20),
        Datum::Unsigned(21),
        Datum::Unsigned(22),
        Datum::Unsigned(1),
        Datum::Unsigned(2),
        Datum::Unsigned(3),
        Datum::Unsigned(4),
        Datum::Unsigned(5),
        Datum::Unsigned(6),
        Datum::Single(0x3FC0_0000),
        Datum::Single(0x4020_0000),
        Datum::Single(0x4060_0000),
        Datum::Unsigned(9),
    ]
}

/// The container of the definition.
pub fn arrays_container() -> (made: Container)
    ensures
        made@ == arrays(),
        placed(made@, Seq::empty(), 312),
{
    let ghost enums = Seq::<EnumModel>::empty();
    let mut made = container("Telemetry", "Telemetry", 39, Vec::new(), Vec::new(), false);
    assert(made@.constants =~= Seq::empty());
    assert(made@.fixed =~= Seq::empty());
    place(&mut made, "LEAD", "lead", 0, 8, Kind::Unsigned, false, Ghost(enums));
    place(
        &mut made,
        "TEMPS[0]",
        "temps_0",
        8,
        16,
        Kind::Signed(IntegerCoding::TwosComplement),
        false,
        Ghost(enums),
    );
    place(
        &mut made,
        "TEMPS[1]",
        "temps_1",
        24,
        16,
        Kind::Signed(IntegerCoding::TwosComplement),
        false,
        Ghost(enums),
    );
    place(
        &mut made,
        "TEMPS[2]",
        "temps_2",
        40,
        16,
        Kind::Signed(IntegerCoding::TwosComplement),
        false,
        Ghost(enums),
    );
    place(
        &mut made,
        "TEMPS[3]",
        "temps_3",
        56,
        16,
        Kind::Signed(IntegerCoding::TwosComplement),
        false,
        Ghost(enums),
    );
    place(
        &mut made,
        "TEMPS[4]",
        "temps_4",
        72,
        16,
        Kind::Signed(IntegerCoding::TwosComplement),
        false,
        Ghost(enums),
    );
    place(
        &mut made,
        "TEMPS[5]",
        "temps_5",
        88,
        16,
        Kind::Signed(IntegerCoding::TwosComplement),
        false,
        Ghost(enums),
    );
    place(&mut made, "MIDDLE", "middle", 104, 8, Kind::Unsigned, false, Ghost(enums));
    place(&mut made, "GRID[0][0]", "grid_0_0", 112, 8, Kind::Unsigned, false, Ghost(enums));
    place(&mut made, "GRID[0][1]", "grid_0_1", 120, 8, Kind::Unsigned, false, Ghost(enums));
    place(&mut made, "GRID[0][2]", "grid_0_2", 128, 8, Kind::Unsigned, false, Ghost(enums));
    place(&mut made, "GRID[1][0]", "grid_1_0", 136, 8, Kind::Unsigned, false, Ghost(enums));
    place(&mut made, "GRID[1][1]", "grid_1_1", 144, 8, Kind::Unsigned, false, Ghost(enums));
    place(&mut made, "GRID[1][2]", "grid_1_2", 152, 8, Kind::Unsigned, false, Ghost(enums));
    place(&mut made, "WINDOW[3]", "window_3", 160, 8, Kind::Unsigned, false, Ghost(enums));
    place(&mut made, "WINDOW[4]", "window_4", 168, 8, Kind::Unsigned, false, Ghost(enums));
    place(&mut made, "WINDOW[5]", "window_5", 176, 8, Kind::Unsigned, false, Ghost(enums));
    place(&mut made, "BITS[0]", "bits_0", 184, 4, Kind::Unsigned, false, Ghost(enums));
    place(&mut made, "BITS[1]", "bits_1", 188, 4, Kind::Unsigned, false, Ghost(enums));
    place(&mut made, "BITS[2]", "bits_2", 192, 4, Kind::Unsigned, false, Ghost(enums));
    place(&mut made, "BITS[3]", "bits_3", 196, 4, Kind::Unsigned, false, Ghost(enums));
    place(&mut made, "BITS[4]", "bits_4", 200, 4, Kind::Unsigned, false, Ghost(enums));
    place(&mut made, "BITS[5]", "bits_5", 204, 4, Kind::Unsigned, false, Ghost(enums));
    place(&mut made, "FLOATS[0]", "floats_0", 208, 32, Kind::Float32, false, Ghost(enums));
    place(&mut made, "FLOATS[1]", "floats_1", 240, 32, Kind::Float32, false, Ghost(enums));
    place(&mut made, "FLOATS[2]", "floats_2", 272, 32, Kind::Float32, false, Ghost(enums));
    place(&mut made, "TAIL", "tail", 304, 8, Kind::Unsigned, false, Ghost(enums));
    assert(made@.fields =~= arrays_fields());
    made
}

/// The values that [`round_trip_arrays`] sends.
fn arrays_packet() -> (values: Vec<Value<'static>>)
    ensures
        datums(values@) == arrays_values(),
        carried(arrays_fields(), Seq::empty(), datums(values@)),
        values@.len() == arrays_fields().len(),
{
    let ghost fields = arrays_fields();
    let ghost enums = Seq::<EnumModel>::empty();
    proof {
        lemma2_to64();
        lemma2_to64_rest();
    }
    let mut values = no_values(Ghost(fields), Ghost(enums));
    supply(&mut values, Value::Unsigned(1), Ghost(fields), Ghost(enums));
    supply(&mut values, Value::Signed(-1), Ghost(fields), Ghost(enums));
    supply(&mut values, Value::Signed(-2), Ghost(fields), Ghost(enums));
    supply(&mut values, Value::Signed(-3), Ghost(fields), Ghost(enums));
    supply(&mut values, Value::Signed(4), Ghost(fields), Ghost(enums));
    supply(&mut values, Value::Signed(5), Ghost(fields), Ghost(enums));
    supply(&mut values, Value::Signed(6), Ghost(fields), Ghost(enums));
    supply(&mut values, Value::Unsigned(2), Ghost(fields), Ghost(enums));
    supply(&mut values, Value::Unsigned(10), Ghost(fields), Ghost(enums));
    supply(&mut values, Value::Unsigned(11), Ghost(fields), Ghost(enums));
    supply(&mut values, Value::Unsigned(12), Ghost(fields), Ghost(enums));
    supply(&mut values, Value::Unsigned(13), Ghost(fields), Ghost(enums));
    supply(&mut values, Value::Unsigned(14), Ghost(fields), Ghost(enums));
    supply(&mut values, Value::Unsigned(15), Ghost(fields), Ghost(enums));
    supply(&mut values, Value::Unsigned(20), Ghost(fields), Ghost(enums));
    supply(&mut values, Value::Unsigned(21), Ghost(fields), Ghost(enums));
    supply(&mut values, Value::Unsigned(22), Ghost(fields), Ghost(enums));
    supply(&mut values, Value::Unsigned(1), Ghost(fields), Ghost(enums));
    supply(&mut values, Value::Unsigned(2), Ghost(fields), Ghost(enums));
    supply(&mut values, Value::Unsigned(3), Ghost(fields), Ghost(enums));
    supply(&mut values, Value::Unsigned(4), Ghost(fields), Ghost(enums));
    supply(&mut values, Value::Unsigned(5), Ghost(fields), Ghost(enums));
    supply(&mut values, Value::Unsigned(6), Ghost(fields), Ghost(enums));
    supply(&mut values, Value::Single(0x3FC0_0000), Ghost(fields), Ghost(enums));
    supply(&mut values, Value::Single(0x4020_0000), Ghost(fields), Ghost(enums));
    supply(&mut values, Value::Single(0x4060_0000), Ghost(fields), Ghost(enums));
    supply(&mut values, Value::Unsigned(9), Ghost(fields), Ghost(enums));
    values
}

/// Encodes a packet of arrays, decodes it, and says whether the same values came back.
///
/// Twenty-seven fields, six of them four bits wide.
pub fn round_trip_arrays(out: &mut [u8]) -> (same: bool)
    ensures
        same == (old(out)@.len() >= 39),
        sent(
            arrays(),
            Seq::empty(),
            arrays_values(),
            old(out)@,
            final(out)@,
            if same {
                39
            } else {
                0
            },
        ),
{
    let made = arrays_container();
    let enums: Vec<EnumType> = Vec::new();
    assert(enum_models(enums@) =~= Seq::empty());
    let values = arrays_packet();
    comes_back(&made, &enums, values.as_slice(), out, Ghost(312))
}

} // verus!
