//! Aggregates, arrays of them, and an array inside one, expanded into one field per member.

use vstd::arithmetic::power2::*;
use vstd::prelude::*;

use crate::codec::{datums, Datum, Value};
use crate::layout::{
    enum_models, Container, ContainerModel, EnumModel, EnumType, FieldModel, Kind, KindModel,
};
use crate::missions::parts::{
    carried, comes_back, container, no_values, place, placed, plain, sent, supply,
};
use crate::plan::IntegerCoding;

verus! {

/// The fields of the definition's one container.
pub open spec fn aggregates_fields() -> Seq<FieldModel> {
    seq![
        plain("LEAD"@, "lead"@, 0, 8, KindModel::Unsigned),
        plain("RAIL.voltage"@, "rail_voltage"@, 8, 32, KindModel::Float32),
        plain("RAIL.current"@, "rail_current"@, 40, 32, KindModel::Float32),
        plain("RAIL.ok"@, "rail_ok"@, 72, 8, KindModel::Unsigned),
        plain("RAILS[0].voltage"@, "rails_0_voltage"@, 80, 32, KindModel::Float32),
        plain("RAILS[0].current"@, "rails_0_current"@, 112, 32, KindModel::Float32),
        plain("RAILS[0].ok"@, "rails_0_ok"@, 144, 8, KindModel::Unsigned),
        plain("RAILS[1].voltage"@, "rails_1_voltage"@, 152, 32, KindModel::Float32),
        plain("RAILS[1].current"@, "rails_1_current"@, 184, 32, KindModel::Float32),
        plain("RAILS[1].ok"@, "rails_1_ok"@, 216, 8, KindModel::Unsigned),
        plain("STATE.mode"@, "state_mode"@, 224, 8, KindModel::Unsigned),
        plain(
            "STATE.samples[0]"@,
            "state_samples_0"@,
            232,
            16,
            KindModel::Signed(IntegerCoding::TwosComplement),
        ),
        plain(
            "STATE.samples[1]"@,
            "state_samples_1"@,
            248,
            16,
            KindModel::Signed(IntegerCoding::TwosComplement),
        ),
        plain(
            "STATE.samples[2]"@,
            "state_samples_2"@,
            264,
            16,
            KindModel::Signed(IntegerCoding::TwosComplement),
        ),
        plain("STATE.flags"@, "state_flags"@, 280, 4, KindModel::Unsigned),
        plain("PAD_4"@, "pad_4"@, 284, 4, KindModel::Unsigned),
        plain("TAIL"@, "tail"@, 288, 8, KindModel::Unsigned),
    ]
}

/// The container of the definition.
pub open spec fn aggregates() -> ContainerModel {
    ContainerModel {
        xtce_name: "Telemetry"@,
        type_ident: "Telemetry"@,
        len_bytes: 37,
        fields: aggregates_fields(),
        constants: Seq::empty(),
        fixed: Seq::empty(),
        borrows: false,
    }
}

/// The values that [`round_trip_aggregates`] sends.
pub open spec fn aggregates_values() -> Seq<Datum> {
    seq![
        Datum::Unsigned(1),
        Datum::Single(0x4053_3333),
        Datum::Single(0x3F00_0000),
        Datum::Unsigned(1),
        Datum::Single(0x40A0_0000),
        Datum::Single(0x3FA0_0000),
        Datum::Unsigned(1),
        Datum::Single(0x4140_0000),
        Datum::Single(0x4020_0000),
        Datum::Unsigned(0),
        Datum::Unsigned(2),
        Datum::Signed((-1) as i64),
        Datum::Signed(0),
        Datum::Signed(1),
        Datum::Unsigned(9),
        Datum::Unsigned(0),
        Datum::Unsigned(7),
    ]
}

/// The container of the definition.
pub fn aggregates_container() -> (made: Container)
    ensures
        made@ == aggregates(),
        placed(made@, Seq::empty(), 296),
{
    let ghost enums = Seq::<EnumModel>::empty();
    let mut made = container("Telemetry", "Telemetry", 37, Vec::new(), Vec::new(), false);
    assert(made@.constants =~= Seq::empty());
    assert(made@.fixed =~= Seq::empty());
    place(&mut made, "LEAD", "lead", 0, 8, Kind::Unsigned, false, Ghost(enums));
    place(&mut made, "RAIL.voltage", "rail_voltage", 8, 32, Kind::Float32, false, Ghost(enums));
    place(&mut made, "RAIL.current", "rail_current", 40, 32, Kind::Float32, false, Ghost(enums));
    place(&mut made, "RAIL.ok", "rail_ok", 72, 8, Kind::Unsigned, false, Ghost(enums));
    place(
        &mut made,
        "RAILS[0].voltage",
        "rails_0_voltage",
        80,
        32,
        Kind::Float32,
        false,
        Ghost(enums),
    );
    place(
        &mut made,
        "RAILS[0].current",
        "rails_0_current",
        112,
        32,
        Kind::Float32,
        false,
        Ghost(enums),
    );
    place(&mut made, "RAILS[0].ok", "rails_0_ok", 144, 8, Kind::Unsigned, false, Ghost(enums));
    place(
        &mut made,
        "RAILS[1].voltage",
        "rails_1_voltage",
        152,
        32,
        Kind::Float32,
        false,
        Ghost(enums),
    );
    place(
        &mut made,
        "RAILS[1].current",
        "rails_1_current",
        184,
        32,
        Kind::Float32,
        false,
        Ghost(enums),
    );
    place(&mut made, "RAILS[1].ok", "rails_1_ok", 216, 8, Kind::Unsigned, false, Ghost(enums));
    place(&mut made, "STATE.mode", "state_mode", 224, 8, Kind::Unsigned, false, Ghost(enums));
    place(
        &mut made,
        "STATE.samples[0]",
        "state_samples_0",
        232,
        16,
        Kind::Signed(IntegerCoding::TwosComplement),
        false,
        Ghost(enums),
    );
    place(
        &mut made,
        "STATE.samples[1]",
        "state_samples_1",
        248,
        16,
        Kind::Signed(IntegerCoding::TwosComplement),
        false,
        Ghost(enums),
    );
    place(
        &mut made,
        "STATE.samples[2]",
        "state_samples_2",
        264,
        16,
        Kind::Signed(IntegerCoding::TwosComplement),
        false,
        Ghost(enums),
    );
    place(&mut made, "STATE.flags", "state_flags", 280, 4, Kind::Unsigned, false, Ghost(enums));
    place(&mut made, "PAD_4", "pad_4", 284, 4, Kind::Unsigned, false, Ghost(enums));
    place(&mut made, "TAIL", "tail", 288, 8, Kind::Unsigned, false, Ghost(enums));
    assert(made@.fields =~= aggregates_fields());
    made
}

/// The values that [`round_trip_aggregates`] sends.
fn aggregates_packet() -> (values: Vec<Value<'static>>)
    ensures
        datums(values@) == aggregates_values(),
        carried(aggregates_fields(), Seq::empty(), datums(values@)),
        values@.len() == aggregates_fields().len(),
{
    let ghost fields = aggregates_fields();
    let ghost enums = Seq::<EnumModel>::empty();
    proof {
        lemma2_to64();
        lemma2_to64_rest();
    }
    let mut values = no_values(Ghost(fields), Ghost(enums));
    supply(&mut values, Value::Unsigned(1), Ghost(fields), Ghost(enums));
    supply(&mut values, Value::Single(0x4053_3333), Ghost(fields), Ghost(enums));
    supply(&mut values, Value::Single(0x3F00_0000), Ghost(fields), Ghost(enums));
    supply(&mut values, Value::Unsigned(1), Ghost(fields), Ghost(enums));
    supply(&mut values, Value::Single(0x40A0_0000), Ghost(fields), Ghost(enums));
    supply(&mut values, Value::Single(0x3FA0_0000), Ghost(fields), Ghost(enums));
    supply(&mut values, Value::Unsigned(1), Ghost(fields), Ghost(enums));
    supply(&mut values, Value::Single(0x4140_0000), Ghost(fields), Ghost(enums));
    supply(&mut values, Value::Single(0x4020_0000), Ghost(fields), Ghost(enums));
    supply(&mut values, Value::Unsigned(0), Ghost(fields), Ghost(enums));
    supply(&mut values, Value::Unsigned(2), Ghost(fields), Ghost(enums));
    supply(&mut values, Value::Signed(-1), Ghost(fields), Ghost(enums));
    supply(&mut values, Value::Signed(0), Ghost(fields), Ghost(enums));
    supply(&mut values, Value::Signed(1), Ghost(fields), Ghost(enums));
    supply(&mut values, Value::Unsigned(9), Ghost(fields), Ghost(enums));
    supply(&mut values, Value::Unsigned(0), Ghost(fields), Ghost(enums));
    supply(&mut values, Value::Unsigned(7), Ghost(fields), Ghost(enums));
    values
}

/// Encodes a packet of aggregates, decodes it, and says whether the same values came back.
pub fn round_trip_aggregates(out: &mut [u8]) -> (same: bool)
    ensures
        same == (old(out)@.len() >= 37),
        sent(
            aggregates(),
            Seq::empty(),
            aggregates_values(),
            old(out)@,
            final(out)@,
            if same {
                37
            } else {
                0
            },
        ),
{
    let made = aggregates_container();
    let enums: Vec<EnumType> = Vec::new();
    assert(enum_models(enums@) =~= Seq::empty());
    let values = aggregates_packet();
    comes_back(&made, &enums, values.as_slice(), out, Ghost(296))
}

} // verus!
