//! What the mission definitions are put together from.
//!
//! A container is built by placing one field behind another. Each placement keeps what encoding,
//! decoding and the round trip between them ask of the whole, so the proofs stay as small as one
//! field.

use vstd::arithmetic::power2::*;
use vstd::prelude::*;
use vstd::string::*;
use vstd::utf8::*;

use crate::builder::{constant_models, fixed_models};
use crate::codec::{
    accepted_from, datums, decode, decoded, encode, encode_refusal, encoded, field_refusal,
    is_packet, lemma_accepted, lemma_readable, well_typed, Datum, Value,
};
use crate::layout::{
    enum_models, Constant, ConstantModel, Container, ContainerModel, EnumModel, EnumType,
    FieldModel, FixedModel, FixedValue, FlightField, Kind, KindModel, VariantModel,
};
use crate::roundtrip::{
    all_stay_inside, apart_from_constants, apart_from_fields, apart_from_fixed, field_apart,
    lemma_round_trip, returned, stays_inside, survives,
};

verus! {

// ---------------------------------------------------------------------------------------
// Containers
// ---------------------------------------------------------------------------------------

/// A field without a calibrator, its bytes most significant first.
pub open spec fn plain(
    xtce_name: Seq<char>,
    ident: Seq<char>,
    bit_offset: int,
    bit_width: int,
    kind: KindModel,
) -> FieldModel {
    FieldModel {
        xtce_name,
        ident,
        bit_offset,
        bit_width,
        kind,
        swap_bytes: false,
        calibration: None,
        contexts: Seq::empty(),
    }
}

/// The same field with its bytes least significant first.
pub open spec fn reversed(field: FieldModel) -> FieldModel {
    FieldModel { swap_bytes: true, ..field }
}

/// A restriction criterion on big-endian bits.
pub open spec fn criterion(
    xtce_name: Seq<char>,
    ident: Seq<char>,
    bit_offset: int,
    bit_width: int,
    value: u64,
) -> ConstantModel {
    ConstantModel { xtce_name, ident, bit_offset, bit_width, reported: value, raw: value }
}

/// Whether a container holds together: its fields follow one another up to `end`, clear of the
/// bits the encoder writes itself.
pub open spec fn placed(container: ContainerModel, enums: Seq<EnumModel>, end: int) -> bool {
    &&& container.valid(enums)
    &&& forall|i: int|
        0 <= i < container.fields.len() ==> {
            let field = #[trigger] container.fields[i];
            &&& field.bit_offset + field.bit_width <= end
            &&& apart_from_constants(
                container.constants,
                container.constants.len(),
                field.bit_offset,
                field.bit_width,
            )
            &&& apart_from_fixed(
                container.fixed,
                container.fixed.len(),
                field.bit_offset,
                field.bit_width,
            )
        }
    &&& forall|i: int, j: int|
        0 <= i < j < container.fields.len() ==> (#[trigger] container.fields[i]).bit_offset
            + container.fields[i].bit_width <= (#[trigger] container.fields[j]).bit_offset
}

/// The fields of such a container share no bit with anything.
pub proof fn lemma_placed_apart(container: ContainerModel, enums: Seq<EnumModel>, end: int)
    requires
        placed(container, enums, end),
    ensures
        forall|i: int| 0 <= i < container.fields.len() ==> #[trigger] field_apart(container, i),
{
    assert forall|i: int| 0 <= i < container.fields.len() implies #[trigger] field_apart(
        container,
        i,
    ) by {
        let field = container.fields[i];
        assert(apart_from_fields(container.fields, 0, i, field.bit_offset, field.bit_width));
        assert(apart_from_fields(
            container.fields,
            i + 1,
            container.fields.len() as int,
            field.bit_offset,
            field.bit_width,
        ));
    }
}

/// A container without fields.
pub(crate) fn container(
    name: &str,
    type_ident: &str,
    len_bytes: usize,
    constants: Vec<Constant>,
    fixed: Vec<FixedValue>,
    borrows: bool,
) -> (made: Container)
    ensures
        made@ == (ContainerModel {
            xtce_name: name@,
            type_ident: type_ident@,
            len_bytes: len_bytes as int,
            fields: Seq::empty(),
            constants: constant_models(constants@),
            fixed: fixed_models(fixed@),
            borrows,
        }),
{
    let made = Container {
        xtce_name: name.to_owned(),
        type_ident: type_ident.to_owned(),
        len_bytes,
        fields: Vec::new(),
        constants,
        fixed,
        borrows,
    };
    assert(made@.fields =~= Seq::<FieldModel>::empty());
    made
}

/// Places one more field at the end of a container.
pub(crate) fn place(
    container: &mut Container,
    name: &str,
    ident: &str,
    bit_offset: usize,
    bit_width: u32,
    kind: Kind,
    swap_bytes: bool,
    Ghost(enums): Ghost<Seq<EnumModel>>,
)
    requires
        placed(old(container)@, enums, bit_offset as int),
        (FieldModel {
            swap_bytes,
            ..plain(name@, ident@, bit_offset as int, bit_width as int, kind@)
        }).valid(enums, old(container)@.len_bytes),
        apart_from_constants(
            old(container)@.constants,
            old(container)@.constants.len(),
            bit_offset as int,
            bit_width as int,
        ),
        apart_from_fixed(
            old(container)@.fixed,
            old(container)@.fixed.len(),
            bit_offset as int,
            bit_width as int,
        ),
    ensures
        final(container)@ == (ContainerModel {
            fields: old(container)@.fields.push(
                FieldModel {
                    swap_bytes,
                    ..plain(name@, ident@, bit_offset as int, bit_width as int, kind@)
                },
            ),
            ..old(container)@
        }),
        placed(final(container)@, enums, bit_offset + bit_width),
{
    let ghost before = container@;
    let field = FlightField {
        xtce_name: name.to_owned(),
        ident: ident.to_owned(),
        bit_offset,
        bit_width,
        kind,
        swap_bytes,
        calibration: None,
        contexts: Vec::new(),
    };
    assert(field@.contexts =~= Seq::empty());
    assert(field@ == FieldModel {
        swap_bytes,
        ..plain(name@, ident@, bit_offset as int, bit_width as int, kind@)
    });
    let ghost model = field@;
    container.fields.push(field);
    proof {
        assert(container@.fields =~= before.fields.push(model));
        assert(container@ == ContainerModel { fields: before.fields.push(model), ..before });
    }
}

/// A restriction criterion on big-endian bits.
pub(crate) fn constant(
    name: &str,
    ident: &str,
    bit_offset: usize,
    bit_width: u32,
    value: u64,
) -> (made: Constant)
    ensures
        made@ == criterion(name@, ident@, bit_offset as int, bit_width as int, value),
{
    Constant {
        xtce_name: name.to_owned(),
        ident: ident.to_owned(),
        bit_offset,
        bit_width,
        reported: value,
        raw: value,
    }
}

/// One more criterion.
pub(crate) fn require(constants: &mut Vec<Constant>, constant: Constant)
    ensures
        constant_models(final(constants)@) == constant_models(old(constants)@).push(constant@),
{
    let ghost before = constant_models(constants@);
    let ghost model = constant@;
    constants.push(constant);
    assert(constant_models(constants@) =~= before.push(model));
}

/// Fixed bits with a name.
pub open spec fn marker(
    xtce_name: Seq<char>,
    ident: Seq<char>,
    bit_offset: int,
    bit_width: int,
    value: Seq<u8>,
) -> FixedModel {
    FixedModel {
        xtce_name: Some(xtce_name),
        ident: Some(ident),
        bit_offset,
        bit_width,
        value,
    }
}

/// Fixed bits without a name.
pub open spec fn spare(bit_offset: int, bit_width: int, value: Seq<u8>) -> FixedModel {
    FixedModel { xtce_name: None, ident: None, bit_offset, bit_width, value }
}

/// One more run of fixed bits, with a name.
pub(crate) fn mark(
    fixed: &mut Vec<FixedValue>,
    name: &str,
    ident: &str,
    bit_offset: usize,
    bit_width: u32,
    value: Vec<u8>,
)
    ensures
        fixed_models(final(fixed)@) == fixed_models(old(fixed)@).push(
            marker(name@, ident@, bit_offset as int, bit_width as int, value@),
        ),
{
    let ghost before = fixed_models(fixed@);
    let ghost bytes = value@;
    let made = FixedValue {
        xtce_name: Some(name.to_owned()),
        ident: Some(ident.to_owned()),
        bit_offset,
        bit_width,
        value,
    };
    assert(made@ == marker(name@, ident@, bit_offset as int, bit_width as int, bytes));
    fixed.push(made);
    assert(fixed_models(fixed@) =~= before.push(
        marker(name@, ident@, bit_offset as int, bit_width as int, bytes),
    ));
}

/// One more run of fixed bits, without a name.
pub(crate) fn skip(fixed: &mut Vec<FixedValue>, bit_offset: usize, bit_width: u32, value: Vec<u8>)
    ensures
        fixed_models(final(fixed)@) == fixed_models(old(fixed)@).push(
            spare(bit_offset as int, bit_width as int, value@),
        ),
{
    let ghost before = fixed_models(fixed@);
    let ghost bytes = value@;
    let made = FixedValue { xtce_name: None, ident: None, bit_offset, bit_width, value };
    assert(made@ == spare(bit_offset as int, bit_width as int, bytes));
    fixed.push(made);
    assert(fixed_models(fixed@) =~= before.push(
        spare(bit_offset as int, bit_width as int, bytes),
    ));
}

/// A variant of an enumeration.
pub open spec fn labelled(ident: Seq<char>, raw: u64, label: Seq<char>) -> VariantModel {
    VariantModel { ident, raw, label }
}

/// An enumeration without variants.
pub(crate) fn enumeration(type_ident: &str) -> (made: EnumType)
    ensures
        made@ == (EnumModel { type_ident: type_ident@, variants: Seq::empty() }),
{
    let made = EnumType { type_ident: type_ident.to_owned(), variants: Vec::new() };
    assert(made@.variants =~= Seq::empty());
    made
}

/// One more variant of an enumeration.
pub(crate) fn label(definition: &mut EnumType, ident: &str, raw: u64, label: &str)
    ensures
        final(definition)@ == (EnumModel {
            variants: old(definition)@.variants.push(labelled(ident@, raw, label@)),
            ..old(definition)@
        }),
{
    let ghost before = definition@;
    definition.variants.push((ident.to_owned(), raw, label.to_owned()));
    assert(definition@.variants =~= before.variants.push(labelled(ident@, raw, label@)));
}

/// One more enumeration.
pub(crate) fn define(enums: &mut Vec<EnumType>, definition: EnumType)
    ensures
        enum_models(final(enums)@) == enum_models(old(enums)@).push(definition@),
{
    let ghost before = enum_models(enums@);
    let ghost model = definition@;
    enums.push(definition);
    assert(enum_models(enums@) =~= before.push(model));
}

// ---------------------------------------------------------------------------------------
// Packets
// ---------------------------------------------------------------------------------------

/// Whether a value goes through a field: it is of the field's type, it fits, and its bits stand
/// for it alone.
pub open spec fn carries(field: FieldModel, enums: Seq<EnumModel>, value: Datum) -> bool {
    &&& well_typed(field, enums, value)
    &&& field_refusal(field, value) is None
    &&& survives(field, enums, value)
}

/// Whether the first fields carry the values.
pub open spec fn carried(
    fields: Seq<FieldModel>,
    enums: Seq<EnumModel>,
    values: Seq<Datum>,
) -> bool {
    &&& values.len() <= fields.len()
    &&& forall|i: int| 0 <= i < values.len() ==> carries(fields[i], enums, #[trigger] values[i])
}

/// One more value, for the next field.
pub(crate) fn supply<'a>(
    values: &mut Vec<Value<'a>>,
    value: Value<'a>,
    Ghost(fields): Ghost<Seq<FieldModel>>,
    Ghost(enums): Ghost<Seq<EnumModel>>,
)
    requires
        carried(fields, enums, datums(old(values)@)),
        old(values)@.len() < fields.len(),
        carries(fields[old(values)@.len() as int], enums, value@),
    ensures
        datums(final(values)@) == datums(old(values)@).push(value@),
        carried(fields, enums, datums(final(values)@)),
        final(values)@.len() == old(values)@.len() + 1,
{
    let ghost before = datums(values@);
    values.push(value);
    assert(datums(values@) =~= before.push(value@));
}

/// Whether the values are of the types of the first fields.
pub open spec fn typed(
    fields: Seq<FieldModel>,
    enums: Seq<EnumModel>,
    values: Seq<Datum>,
) -> bool {
    &&& values.len() <= fields.len()
    &&& forall|i: int| 0 <= i < values.len() ==> well_typed(fields[i], enums, #[trigger] values[i])
}

/// One more value, for the next field, that may not fit it.
pub(crate) fn offer<'a>(
    values: &mut Vec<Value<'a>>,
    value: Value<'a>,
    Ghost(fields): Ghost<Seq<FieldModel>>,
    Ghost(enums): Ghost<Seq<EnumModel>>,
)
    requires
        typed(fields, enums, datums(old(values)@)),
        old(values)@.len() < fields.len(),
        well_typed(fields[old(values)@.len() as int], enums, value@),
    ensures
        datums(final(values)@) == datums(old(values)@).push(value@),
        typed(fields, enums, datums(final(values)@)),
        final(values)@.len() == old(values)@.len() + 1,
{
    let ghost before = datums(values@);
    values.push(value);
    assert(datums(values@) =~= before.push(value@));
}

/// No values yet.
pub(crate) fn no_values<'a>(Ghost(fields): Ghost<Seq<FieldModel>>, Ghost(enums): Ghost<
    Seq<EnumModel>,
>) -> (values: Vec<Value<'a>>)
    ensures
        datums(values@) == Seq::<Datum>::empty(),
        carried(fields, enums, datums(values@)),
        typed(fields, enums, datums(values@)),
        values@.len() == 0,
{
    let values: Vec<Value<'a>> = Vec::new();
    assert(datums(values@) =~= Seq::<Datum>::empty());
    values
}

/// A value for each field makes a packet that is not refused.
pub proof fn lemma_carried(
    container: ContainerModel,
    enums: Seq<EnumModel>,
    values: Seq<Datum>,
)
    requires
        carried(container.fields, enums, values),
        values.len() == container.fields.len(),
    ensures
        is_packet(container, enums, values),
        encode_refusal(container, values) is None,
        accepted_from(container.fields, values, 0) == container.fields.len(),
{
    lemma_accepted(container.fields, values, 0, container.fields.len());
}

/// A value that goes through its field stays inside it.
pub proof fn lemma_stay(container: ContainerModel, enums: Seq<EnumModel>, values: Seq<Datum>)
    requires
        carried(container.fields, enums, values),
        values.len() == container.fields.len(),
    ensures
        all_stay_inside(container, enums, values),
{
    assert forall|i: int| 0 <= i < container.fields.len() implies stays_inside(
        #[trigger] container.fields[i],
        enums,
        values[i],
    ) by {
        assert(carries(container.fields[i], enums, values[i]));
    }
}

/// Encodes a packet that fits, giving how many bytes were written, and none where the buffer is
/// too short.
pub(crate) fn transmit(
    container: &Container,
    enums: &Vec<EnumType>,
    values: &[Value],
    out: &mut [u8],
) -> (written: usize)
    requires
        container@.valid(enum_models(enums@)),
        carried(container@.fields, enum_models(enums@), datums(values@)),
        values@.len() == container@.fields.len(),
    ensures
        sent(
            container@,
            enum_models(enums@),
            datums(values@),
            old(out)@,
            final(out)@,
            written as int,
        ),
{
    proof {
        lemma_carried(container@, enum_models(enums@), datums(values@));
    }
    match encode(container, enums, values, out) {
        Ok(written) => written,
        Err(_) => 0,
    }
}

/// What sending a packet into a buffer does to it, and how many bytes it reports.
pub open spec fn sent(
    container: ContainerModel,
    enums: Seq<EnumModel>,
    values: Seq<Datum>,
    before: Seq<u8>,
    after: Seq<u8>,
    written: int,
) -> bool {
    if before.len() < container.len_bytes {
        written == 0 && after == before
    } else {
        written == container.len_bytes && after == encoded(container, enums, values) + before.skip(
            container.len_bytes,
        )
    }
}

/// Whether two values are the same.
fn same_value(a: &Value, b: &Value) -> (same: bool)
    ensures
        same == (a@ == b@),
{
    match (a, b) {
        (Value::Unsigned(left), Value::Unsigned(right)) => *left == *right,
        (Value::Signed(left), Value::Signed(right)) => *left == *right,
        (Value::Single(left), Value::Single(right)) => *left == *right,
        (Value::Double(left), Value::Double(right)) => *left == *right,
        (Value::Bool(left), Value::Bool(right)) => *left == *right,
        (Value::Enumerated(left), Value::Enumerated(right)) => *left == *right,
        (Value::Text(left), Value::Text(right)) => {
            proof {
                encode_utf8_decode_utf8(left@);
                encode_utf8_decode_utf8(right@);
            }
            same_bytes(left.as_bytes(), right.as_bytes())
        },
        (Value::Binary(left), Value::Binary(right)) => same_bytes(*left, *right),
        _ => false,
    }
}

/// Whether two runs of bytes are the same.
fn same_bytes(a: &[u8], b: &[u8]) -> (same: bool)
    ensures
        same == (a@ == b@),
{
    if a.len() != b.len() {
        return false;
    }
    let mut at: usize = 0;
    while at < a.len()
        invariant
            at <= a@.len() == b@.len(),
            forall|i: int| 0 <= i < at ==> a@[i] == b@[i],
        decreases a@.len() - at,
    {
        if a[at] != b[at] {
            return false;
        }
        at = at + 1;
    }
    assert(a@ =~= b@);
    true
}

/// Whether two packets hold the same values.
pub(crate) fn same_values(a: &[Value], b: &[Value]) -> (same: bool)
    ensures
        same == (datums(a@) == datums(b@)),
{
    if a.len() != b.len() {
        assert(datums(a@).len() != datums(b@).len());
        return false;
    }
    let mut at: usize = 0;
    while at < a.len()
        invariant
            at <= a@.len() == b@.len(),
            forall|i: int| 0 <= i < at ==> datums(a@)[i] == datums(b@)[i],
        decreases a@.len() - at,
    {
        assert(datums(a@)[at as int] == a@[at as int]@);
        assert(datums(b@)[at as int] == b@[at as int]@);
        if !same_value(&a[at], &b[at]) {
            return false;
        }
        at = at + 1;
    }
    assert(datums(a@) =~= datums(b@));
    true
}

/// Encodes a packet, decodes what was written, and says whether the same values came back.
pub(crate) fn comes_back(
    container: &Container,
    enums: &Vec<EnumType>,
    values: &[Value],
    out: &mut [u8],
    Ghost(end): Ghost<int>,
) -> (same: bool)
    requires
        placed(container@, enum_models(enums@), end),
        carried(container@.fields, enum_models(enums@), datums(values@)),
        values@.len() == container@.fields.len(),
        forall|i: int|
            0 <= i < values@.len() ==> returned(
                container@.fields[i],
                #[trigger] datums(values@)[i],
            ) == datums(values@)[i],
    ensures
        same == (old(out)@.len() >= container@.len_bytes),
        sent(
            container@,
            enum_models(enums@),
            datums(values@),
            old(out)@,
            final(out)@,
            if same {
                container@.len_bytes
            } else {
                0
            },
        ),
{
    let ghost models = enum_models(enums@);
    let ghost inputs = datums(values@);
    proof {
        lemma_carried(container@, models, inputs);
        lemma_placed_apart(container@, models, end);
        assert forall|i: int| 0 <= i < container@.fields.len() implies survives(
            #[trigger] container@.fields[i],
            models,
            inputs[i],
        ) by {
            assert(carries(container@.fields[i], models, inputs[i]));
        }
        lemma_round_trip(container@, models, inputs);
        assert(Seq::new(
            container@.fields.len(),
            |i: int| returned(container@.fields[i], inputs[i]),
        ) =~= inputs);
    }
    match encode(container, enums, values, out) {
        Ok(_) => {},
        Err(_) => {
            return false;
        },
    }
    assert(out@.take(container@.len_bytes) =~= encoded(container@, models, inputs)) by {
        crate::roundtrip::lemma_filled_len(
            container@,
            models,
            inputs,
            container@.fields.len(),
        );
    }
    match decode(container, enums, out) {
        Ok(found) => same_values(found.as_slice(), values),
        Err(_) => false,
    }
}

/// Numbers leave a decoder nothing to refuse.
pub proof fn lemma_numbers_decode(
    container: ContainerModel,
    enums: Seq<EnumModel>,
    data: Seq<u8>,
)
    requires
        forall|i: int|
            0 <= i < container.fields.len() ==> is_number((#[trigger] container.fields[i]).kind),
    ensures
        decoded(container, enums, data) is Ok,
{
    lemma_readable(container.fields, enums, data, 0, container.fields.len());
}

/// Whether every run of bits is a value of the kind.
pub open spec fn is_number(kind: KindModel) -> bool {
    match kind {
        KindModel::Enumerated(_) | KindModel::Text(_, _) => false,
        _ => true,
    }
}

} // verus!
