//! Telecommands: two containers behind one header, with bits that no caller supplies and no
//! decoder reads back.

use vstd::arithmetic::power2::*;
use vstd::prelude::*;
use vstd::slice::*;

use crate::bits::{bit, lemma_number_same, number};
use crate::builder::{constant_models, fixed_models};
use crate::codec::{
    criterion_holds, datums, dispatch, encode, encoded, is_match, variant_from, Datum, Value,
};
use crate::layout::{
    enum_models, Constant, Container, ContainerModel, EnumModel, EnumType, FieldModel, FixedValue,
    Kind, KindModel, Layout, LayoutModel,
};
use crate::missions::parts::{
    carried, carries, constant, container, criterion, define, enumeration, label, labelled,
    lemma_carried, lemma_placed_apart, mark, marker, no_values, lemma_stay, place, placed, plain,
    require, same_values, sent, skip, spare, supply,
};
use crate::plan::IntegerCoding;
use crate::roundtrip::{
    apart_from_fields, apart_from_fixed, constant_apart, lemma_criterion_round_trip,
    lemma_dispatch_round_trip, lemma_filled_len, returned, survives,
};
use crate::scalar::{bytes_value, lemma_bytes_value_bound};

verus! {

/// The enumeration of the definition.
pub open spec fn command_enums() -> Seq<EnumModel> {
    seq![
        EnumModel {
            type_ident: "Power"@,
            variants: seq![labelled("Off"@, 0, "OFF"@), labelled("On"@, 1, "ON"@)],
        },
    ]
}

/// The fields of a `SetGain` command.
pub open spec fn set_gain_fields() -> Seq<FieldModel> {
    seq![
        plain("SEQ_COUNT"@, "seq_count"@, 40, 16, KindModel::Unsigned),
        plain("POWER"@, "power"@, 56, 4, KindModel::Enumerated(0)),
        plain("CHANNEL"@, "channel"@, 64, 8, KindModel::Unsigned),
        plain("GAIN"@, "gain"@, 72, 32, KindModel::Float32),
        plain("TRIM"@, "trim"@, 104, 16, KindModel::Signed(IntegerCoding::TwosComplement)),
    ]
}

/// A command that sets the gain of a channel.
pub open spec fn set_gain() -> ContainerModel {
    ContainerModel {
        xtce_name: "SetGainContainer"@,
        type_ident: "SetGainContainer"@,
        len_bytes: 17,
        fields: set_gain_fields(),
        constants: seq![criterion("OPCODE"@, "opcode"@, 32, 8, 1)],
        fixed: seq![
            marker("SYNC"@, "sync"@, 0, 32, seq![0x1Au8, 0xCFu8, 0xFCu8, 0x1Du8]),
            spare(60, 4, seq![0u8]),
            marker("TRAILER"@, "trailer"@, 120, 16, seq![0xBEu8, 0xEFu8]),
        ],
        borrows: false,
    }
}

/// The values of the `SetGain` command that [`round_trip_command`] sends.
pub open spec fn set_gain_values() -> Seq<Datum> {
    seq![
        Datum::Unsigned(4660),
        Datum::Enumerated(1),
        Datum::Unsigned(3),
        Datum::Single(0x3FC0_0000),
        Datum::Signed((-7) as i64),
    ]
}

/// The fields of a `PowerOn` command.
pub open spec fn power_on_fields() -> Seq<FieldModel> {
    seq![
        plain("SEQ_COUNT"@, "seq_count"@, 40, 16, KindModel::Unsigned),
        plain("DURATION"@, "duration"@, 64, 16, KindModel::Unsigned),
    ]
}

/// A command that switches the power on. Its criteria pin the enumeration, so that it is not the
/// caller's to set.
pub open spec fn power_on() -> ContainerModel {
    ContainerModel {
        xtce_name: "PowerOnContainer"@,
        type_ident: "PowerOnContainer"@,
        len_bytes: 12,
        fields: power_on_fields(),
        constants: seq![
            criterion("OPCODE"@, "opcode"@, 32, 8, 2),
            criterion("POWER"@, "power"@, 56, 4, 1),
        ],
        fixed: seq![
            marker("SYNC"@, "sync"@, 0, 32, seq![0x1Au8, 0xCFu8, 0xFCu8, 0x1Du8]),
            spare(60, 4, seq![0u8]),
            marker("TRAILER"@, "trailer"@, 80, 16, seq![0xBEu8, 0xEFu8]),
        ],
        borrows: false,
    }
}

/// The values of the `PowerOn` command that [`round_trip_command`] sends.
pub open spec fn power_on_values() -> Seq<Datum> {
    seq![
        Datum::Unsigned(22136),
        Datum::Unsigned(30),
    ]
}

/// The layout of the definition.
pub open spec fn commands() -> LayoutModel {
    LayoutModel {
        containers: seq![set_gain(), power_on()],
        enums: command_enums(),
        root_name: "Command"@,
    }
}

/// The bytes of the fixed values, as numbers.
proof fn lemma_fixed_values()
    ensures
        bytes_value(seq![0x1Au8, 0xCFu8, 0xFCu8, 0x1Du8]) < pow2(32),
        bytes_value(seq![0xBEu8, 0xEFu8]) < pow2(16),
        bytes_value(seq![0u8]) == 0,
{
    lemma_bytes_value_bound(seq![0x1Au8, 0xCFu8, 0xFCu8, 0x1Du8]);
    lemma_bytes_value_bound(seq![0xBEu8, 0xEFu8]);
    reveal_with_fuel(bytes_value, 2);
}

/// The `SetGain` container.
fn set_gain_container() -> (made: Container)
    ensures
        made@ == set_gain(),
        placed(made@, command_enums(), 120),
{
    let ghost enums = command_enums();
    let mut constants: Vec<Constant> = Vec::new();
    assert(constant_models(constants@) =~= Seq::empty());
    require(&mut constants, constant("OPCODE", "opcode", 32, 8, 1));
    let mut fixed: Vec<FixedValue> = Vec::new();
    assert(fixed_models(fixed@) =~= Seq::empty());
    mark(&mut fixed, "SYNC", "sync", 0, 32, vec![0x1A, 0xCF, 0xFC, 0x1D]);
    skip(&mut fixed, 60, 4, vec![0]);
    mark(&mut fixed, "TRAILER", "trailer", 120, 16, vec![0xBE, 0xEF]);
    let mut made = container("SetGainContainer", "SetGainContainer", 17, constants, fixed, false);
    proof {
        lemma2_to64();
        lemma_fixed_values();
        assert(made@.constants =~= set_gain().constants);
        assert(made@.fixed[0].value =~= seq![0x1Au8, 0xCFu8, 0xFCu8, 0x1Du8]);
        assert(made@.fixed[1].value =~= seq![0u8]);
        assert(made@.fixed[2].value =~= seq![0xBEu8, 0xEFu8]);
        assert(made@.fixed =~= set_gain().fixed);
    }
    place(&mut made, "SEQ_COUNT", "seq_count", 40, 16, Kind::Unsigned, false, Ghost(enums));
    place(&mut made, "POWER", "power", 56, 4, Kind::Enumerated(0), false, Ghost(enums));
    place(&mut made, "CHANNEL", "channel", 64, 8, Kind::Unsigned, false, Ghost(enums));
    place(&mut made, "GAIN", "gain", 72, 32, Kind::Float32, false, Ghost(enums));
    place(
        &mut made,
        "TRIM",
        "trim",
        104,
        16,
        Kind::Signed(IntegerCoding::TwosComplement),
        false,
        Ghost(enums),
    );
    assert(made@.fields =~= set_gain_fields());
    made
}

/// The `PowerOn` container.
fn power_on_container() -> (made: Container)
    ensures
        made@ == power_on(),
        placed(made@, command_enums(), 80),
{
    let ghost enums = command_enums();
    let mut constants: Vec<Constant> = Vec::new();
    assert(constant_models(constants@) =~= Seq::empty());
    require(&mut constants, constant("OPCODE", "opcode", 32, 8, 2));
    require(&mut constants, constant("POWER", "power", 56, 4, 1));
    let mut fixed: Vec<FixedValue> = Vec::new();
    assert(fixed_models(fixed@) =~= Seq::empty());
    mark(&mut fixed, "SYNC", "sync", 0, 32, vec![0x1A, 0xCF, 0xFC, 0x1D]);
    skip(&mut fixed, 60, 4, vec![0]);
    mark(&mut fixed, "TRAILER", "trailer", 80, 16, vec![0xBE, 0xEF]);
    let mut made = container("PowerOnContainer", "PowerOnContainer", 12, constants, fixed, false);
    proof {
        lemma2_to64();
        lemma_fixed_values();
        assert(made@.constants =~= power_on().constants);
        assert(made@.fixed[0].value =~= seq![0x1Au8, 0xCFu8, 0xFCu8, 0x1Du8]);
        assert(made@.fixed[1].value =~= seq![0u8]);
        assert(made@.fixed[2].value =~= seq![0xBEu8, 0xEFu8]);
        assert(made@.fixed =~= power_on().fixed);
    }
    place(&mut made, "SEQ_COUNT", "seq_count", 40, 16, Kind::Unsigned, false, Ghost(enums));
    place(&mut made, "DURATION", "duration", 64, 16, Kind::Unsigned, false, Ghost(enums));
    assert(made@.fields =~= power_on_fields());
    made
}

/// The layout of the definition.
pub fn command_layout() -> (made: Layout)
    ensures
        made@ == commands(),
        made@.valid(),
        placed(made@.containers[0], command_enums(), 120),
        placed(made@.containers[1], command_enums(), 80),
{
    let mut power = enumeration("Power");
    label(&mut power, "Off", 0, "OFF");
    label(&mut power, "On", 1, "ON");
    assert(power@.variants =~= command_enums()[0].variants);
    let mut enums: Vec<EnumType> = Vec::new();
    assert(enum_models(enums@) =~= Seq::empty());
    define(&mut enums, power);
    let gain = set_gain_container();
    let on = power_on_container();
    let made = Layout { containers: vec![gain, on], enums, root_name: "Command".to_owned() };
    assert(made@.enums =~= command_enums());
    assert(made@.containers =~= seq![set_gain(), power_on()]);
    made
}

/// The values of a `SetGain` command.
fn set_gain_packet() -> (values: Vec<Value<'static>>)
    ensures
        datums(values@) == set_gain_values(),
        carried(set_gain_fields(), command_enums(), datums(values@)),
        values@.len() == set_gain_fields().len(),
{
    let ghost fields = set_gain_fields();
    let ghost enums = command_enums();
    proof {
        lemma2_to64();
        lemma2_to64_rest();
        reveal_with_fuel(variant_from, 3);
    }
    let mut values = no_values(Ghost(fields), Ghost(enums));
    supply(&mut values, Value::Unsigned(4660), Ghost(fields), Ghost(enums));
    supply(&mut values, Value::Enumerated(1), Ghost(fields), Ghost(enums));
    supply(&mut values, Value::Unsigned(3), Ghost(fields), Ghost(enums));
    supply(&mut values, Value::Single(0x3FC0_0000), Ghost(fields), Ghost(enums));
    supply(&mut values, Value::Signed(-7), Ghost(fields), Ghost(enums));
    values
}

/// The values of a `PowerOn` command.
fn power_on_packet() -> (values: Vec<Value<'static>>)
    ensures
        datums(values@) == power_on_values(),
        carried(power_on_fields(), command_enums(), datums(values@)),
        values@.len() == power_on_fields().len(),
{
    let ghost fields = power_on_fields();
    let ghost enums = command_enums();
    proof {
        lemma2_to64();
    }
    let mut values = no_values(Ghost(fields), Ghost(enums));
    supply(&mut values, Value::Unsigned(22136), Ghost(fields), Ghost(enums));
    supply(&mut values, Value::Unsigned(30), Ghost(fields), Ghost(enums));
    values
}

/// No criterion of a command shares a bit with anything else.
proof fn lemma_criteria_apart()
    ensures
        constant_apart(set_gain(), 0),
        constant_apart(power_on(), 0),
        constant_apart(power_on(), 1),
{
    let gain = set_gain();
    let on = power_on();
    assert(apart_from_fixed(gain.fixed, gain.fixed.len(), 32, 8));
    assert(apart_from_fields(gain.fields, 0, gain.fields.len() as int, 32, 8));
    assert(apart_from_fixed(on.fixed, on.fixed.len(), 32, 8));
    assert(apart_from_fields(on.fields, 0, on.fields.len() as int, 32, 8));
    assert(apart_from_fixed(on.fixed, on.fixed.len(), 56, 4));
    assert(apart_from_fields(on.fields, 0, on.fields.len() as int, 56, 4));
}

/// A `SetGain` command is not taken for a `PowerOn` one, nor the other way round.
proof fn lemma_told_apart()
    requires
        placed(set_gain(), command_enums(), 120),
        placed(power_on(), command_enums(), 80),
        carried(set_gain_fields(), command_enums(), set_gain_values()),
        carried(power_on_fields(), command_enums(), power_on_values()),
    ensures
        !is_match(power_on(), encoded(set_gain(), command_enums(), set_gain_values())),
        !is_match(set_gain(), encoded(power_on(), command_enums(), power_on_values())),
{
    let gain = set_gain();
    let on = power_on();
    let data = encoded(gain, command_enums(), set_gain_values());
    lemma_filled_len(gain, command_enums(), set_gain_values(), gain.fields.len());
    lemma_filled_len(on, command_enums(), power_on_values(), on.fields.len());
    lemma_carried(gain, command_enums(), set_gain_values());
    lemma_criteria_apart();
    lemma_stay(gain, command_enums(), set_gain_values());
    lemma_criterion_round_trip(gain, command_enums(), set_gain_values(), 0);
    assert(number(data, 32, 8) == 1);
    let head = data.take(12);
    assert forall|i: int| 32 <= i < 32 + 8 implies bit(head, i) == bit(data, i) by {
        assert(head[i / 8] == data[i / 8]);
    }
    lemma_number_same(head, data, 32, 8);
    assert(!criterion_holds(on.constants[0], head));
}

/// Sends a command and says whether the dispatcher gives back the same one.
fn command_comes_back(
    layout: &Layout,
    chosen: usize,
    values: &[Value],
    out: &mut [u8],
    Ghost(end): Ghost<int>,
) -> (same: bool)
    requires
        layout@.valid(),
        chosen < layout@.containers.len(),
        placed(layout@.containers[chosen as int], layout@.enums, end),
        carried(layout@.containers[chosen as int].fields, layout@.enums, datums(values@)),
        values@.len() == layout@.containers[chosen as int].fields.len(),
        forall|i: int|
            0 <= i < values@.len() ==> returned(
                layout@.containers[chosen as int].fields[i],
                #[trigger] datums(values@)[i],
            ) == datums(values@)[i],
        forall|k: int|
            0 <= k < layout@.containers[chosen as int].constants.len()
                ==> #[trigger] constant_apart(layout@.containers[chosen as int], k),
        forall|j: int|
            0 <= j < layout@.containers.len() && j != chosen ==> !is_match(
                #[trigger] layout@.containers[j],
                encoded(layout@.containers[chosen as int], layout@.enums, datums(values@)),
            ),
    ensures
        same == (old(out)@.len() >= layout@.containers[chosen as int].len_bytes),
        sent(
            layout@.containers[chosen as int],
            layout@.enums,
            datums(values@),
            old(out)@,
            final(out)@,
            if same {
                layout@.containers[chosen as int].len_bytes
            } else {
                0
            },
        ),
{
    let container = &layout.containers[chosen];
    let ghost model = container@;
    let ghost inputs = datums(values@);
    assert(model == layout@.containers[chosen as int]);
    proof {
        lemma_carried(model, layout@.enums, inputs);
        lemma_placed_apart(model, layout@.enums, end);
        assert forall|i: int| 0 <= i < model.fields.len() implies survives(
            #[trigger] model.fields[i],
            layout@.enums,
            inputs[i],
        ) by {
            assert(carries(model.fields[i], layout@.enums, inputs[i]));
        }
        lemma_dispatch_round_trip(layout@, chosen as int, inputs);
        assert(Seq::new(model.fields.len(), |i: int| returned(model.fields[i], inputs[i]))
            =~= inputs);
        lemma_filled_len(model, layout@.enums, inputs, model.fields.len());
    }
    let written = match encode(container, &layout.enums, values, out) {
        Ok(written) => written,
        Err(_) => {
            return false;
        },
    };
    let bytes = slice_subrange(out, 0, written);
    assert(bytes@ =~= encoded(model, layout@.enums, inputs));
    match dispatch(layout, bytes) {
        Ok((at, found)) => at == chosen && same_values(found.as_slice(), values),
        Err(_) => false,
    }
}

/// What the buffer of [`round_trip_command`] holds afterwards: the second command, and behind it
/// what the first one left.
pub open spec fn commands_sent(before: Seq<u8>) -> Seq<u8> {
    if before.len() < 17 {
        before
    } else {
        let first = encoded(set_gain(), command_enums(), set_gain_values()) + before.skip(17);
        encoded(power_on(), command_enums(), power_on_values()) + first.skip(12)
    }
}

/// Encodes two telecommands and says whether the dispatcher gives both back.
///
/// One carries a `<FixedValueEntry>`: bits `encode` writes that no caller supplies. The other is
/// selected by the value of an enumeration, which the encoder writes too.
pub fn round_trip_command(out: &mut [u8]) -> (same: bool)
    ensures
        same == (old(out)@.len() >= 17),
        final(out)@ == commands_sent(old(out)@),
{
    let layout = command_layout();
    let gain = set_gain_packet();
    let on = power_on_packet();
    proof {
        lemma_criteria_apart();
        lemma_told_apart();
        lemma_filled_len(
            set_gain(),
            command_enums(),
            set_gain_values(),
            set_gain_fields().len(),
        );
    }
    if !command_comes_back(&layout, 0, gain.as_slice(), out, Ghost(120)) {
        return false;
    }
    command_comes_back(&layout, 1, on.as_slice(), out, Ghost(80))
}

} // verus!
