//! What holds of an encoder and a decoder together.
//!
//! * A packet gives back the values that were put into it.
//! * A packet satisfies the criteria of the container it was written as.
//! * What a calibrator says does not reach the packet.
//! * Bits the definition fixes are written, and never read.

use vstd::arithmetic::power2::*;
use vstd::bits::*;
use vstd::prelude::*;
use vstd::utf8::*;

use crate::bits::{
    bit, lemma_number_byte, lemma_number_same, lemma_read_after_write, lemma_written_bit, number,
    value_bit, written,
};
use crate::builder::layout_of;
use crate::codec::{
    accepted_from, ascii_bytes, blank, constants_written, criterion_holds, decoded, dispatched,
    encode_refusal, encoded, field_bytes, field_decoded, field_refusal, field_written, filled,
    fixed_written, in_order, is_match, is_packet, last_match,
    lemma_first_from, lemma_readable, match_count, occurs_at,
    one_fixed_written, readable_from, scalar_bits, spliced, text_bytes, text_refusal, text_written,
    variant_from, well_typed, Datum, Fault,
};
use crate::half::{half_magnitude, lemma_half_round_trip, narrowed, widened};
use crate::layout::{
    fixed_as_u64, ConstantModel, ContainerModel, EnumModel, FieldModel, FixedModel, KindModel,
    LayoutModel,
};
use crate::plan::{DelimiterModel, Plan, TextCharset};
use crate::scalar::{
    bytes_value, lemma_signed_inverse, lemma_signed_raw_bound, lemma_swapped, lemma_width_powers,
};
use crate::structure::{labels_inside, lemma_labels_stay_inside, lemma_layout_valid, plan_fits};

verus! {

// ---------------------------------------------------------------------------------------
// Runs of bits
// ---------------------------------------------------------------------------------------

/// Whether two runs of bits share none.
pub open spec fn apart(offset: int, width: int, other: int, other_width: int) -> bool {
    ||| width == 0
    ||| other_width == 0
    ||| offset + width <= other
    ||| other + other_width <= offset
}

/// Whether two packets carry the same bits in a run.
pub open spec fn same_run(a: Seq<u8>, b: Seq<u8>, offset: int, width: int) -> bool {
    &&& a.len() == b.len()
    &&& forall|i: int| offset <= i < offset + width ==> bit(a, i) == bit(b, i)
}

/// Whether a packet carries no bit in a run.
pub open spec fn clear(data: Seq<u8>, offset: int, width: int) -> bool {
    forall|i: int| offset <= i < offset + width ==> !bit(data, i)
}

/// Whether two packets differ in a run at most.
pub open spec fn same_elsewhere(a: Seq<u8>, b: Seq<u8>, offset: int, width: int) -> bool {
    &&& a.len() == b.len()
    &&& forall|i: int|
        0 <= i < 8 * a.len() && !(offset <= i < offset + width) ==> bit(a, i) == bit(b, i)
}

/// A write of bits leaves the rest alone.
proof fn lemma_written_elsewhere(data: Seq<u8>, offset: int, width: int, value: u64)
    requires
        1 <= width <= 64,
        0 <= offset,
        offset + width <= 8 * data.len(),
        value < pow2(width as nat),
    ensures
        same_elsewhere(written(data, offset, width, value), data, offset, width),
{
    let after = written(data, offset, width, value);
    assert forall|i: int|
        0 <= i < 8 * after.len() && !(offset <= i < offset + width) implies bit(after, i) == bit(
        data,
        i,
    ) by {
        lemma_written_bit(data, offset, width, value, i);
    }
}

/// A copy of bytes leaves the rest alone.
proof fn lemma_spliced_elsewhere(data: Seq<u8>, at: int, bytes: Seq<u8>)
    requires
        0 <= at,
        at + bytes.len() <= data.len(),
    ensures
        same_elsewhere(spliced(data, at, bytes), data, 8 * at, 8 * bytes.len() as int),
{
}

/// A change inside a part of a run is a change inside the run.
proof fn lemma_elsewhere_widens(
    a: Seq<u8>,
    b: Seq<u8>,
    offset: int,
    width: int,
    outer: int,
    outer_width: int,
)
    requires
        same_elsewhere(a, b, offset, width),
        width == 0 || (outer <= offset && offset + width <= outer + outer_width),
    ensures
        same_elsewhere(a, b, outer, outer_width),
{
}

/// Bytes whose bits are the same are the same.
proof fn lemma_same_bytes(a: Seq<u8>, b: Seq<u8>, from: int, to: int)
    requires
        0 <= from <= to <= a.len(),
        same_run(a, b, 8 * from, 8 * (to - from)),
    ensures
        a.subrange(from, to) == b.subrange(from, to),
{
    assert forall|j: int| from <= j < to implies a[j] == b[j] by {
        lemma_number_byte(a, j);
        lemma_number_byte(b, j);
        lemma_number_same(a, b, 8 * j, 8);
    }
    assert(a.subrange(from, to) =~= b.subrange(from, to));
}

// ---------------------------------------------------------------------------------------
// One field
// ---------------------------------------------------------------------------------------

/// Whether the bits a value becomes stay inside its field. Only a label can have more, and in a
/// layout that was built from a plan none has.
pub open spec fn stays_inside(field: FieldModel, enums: Seq<EnumModel>, value: Datum) -> bool {
    match (field.kind, value) {
        (KindModel::Enumerated(index), Datum::Enumerated(variant)) =>
            enums[index].variants[variant].raw < pow2(field.bit_width as nat),
        _ => true,
    }
}

/// Whether a label is the first of its enumeration with its bits. Of labels that share their bits
/// the first one is read.
pub open spec fn reads_back(field: FieldModel, enums: Seq<EnumModel>, value: Datum) -> bool {
    match (field.kind, value) {
        (KindModel::Enumerated(index), Datum::Enumerated(variant)) => variant_from(
            enums[index],
            enums[index].variants[variant].raw as int,
            0,
        ) == Some(variant),
        _ => true,
    }
}

/// Whether a value comes back from its own bits. Every value that is accepted does, except that a
/// label comes back as the first one with the same bits.
pub open spec fn survives(field: FieldModel, enums: Seq<EnumModel>, value: Datum) -> bool {
    stays_inside(field, enums, value) && reads_back(field, enums, value)
}

/// What comes back of a value: the value, or in a binary16 field the value rounded to it.
pub open spec fn returned(field: FieldModel, value: Datum) -> Datum {
    match (field.kind, value) {
        (KindModel::Float16, Datum::Single(bits)) => Datum::Single(widened(narrowed(bits))),
        _ => value,
    }
}

/// The bits of an accepted number stay inside its field.
pub proof fn lemma_scalar_bits_bound(field: FieldModel, enums: Seq<EnumModel>, value: Datum, len: int)
    requires
        field.valid(enums, len),
        !field.kind.borrows(),
        well_typed(field, enums, value),
        field_refusal(field, value) is None,
        stays_inside(field, enums, value),
    ensures
        0 <= scalar_bits(field, enums, value) < pow2(field.bit_width as nat),
        0 <= in_order(field, scalar_bits(field, enums, value)) < pow2(field.bit_width as nat),
        in_order(field, in_order(field, scalar_bits(field, enums, value))) == scalar_bits(
            field,
            enums,
            value,
        ),
        pow2(field.bit_width as nat) <= 0x1_0000_0000_0000_0000,
{
    lemma_width_powers(field.bit_width);
    lemma2_to64();
    lemma2_to64_rest();
    match (field.kind, value) {
        (KindModel::Signed(coding), Datum::Signed(number)) => {
            lemma_signed_raw_bound(coding, field.bit_width, number as int);
        },
        _ => {},
    }
    if field.swap_bytes && field.bit_width > 8 {
        lemma_swapped(scalar_bits(field, enums, value), field.bit_width);
    }
}

/// Writing a string leaves the bits outside its field alone.
proof fn lemma_text_elsewhere(
    field: FieldModel,
    enums: Seq<EnumModel>,
    charset: TextCharset,
    delimiter: DelimiterModel,
    text: Seq<char>,
    data: Seq<u8>,
)
    requires
        field.valid(enums, data.len() as int),
        field.kind == KindModel::Text(charset, delimiter),
        text_refusal(field, charset, delimiter, text) is None,
    ensures
        same_elsewhere(
            text_written(field, delimiter, text, data),
            data,
            field.bit_offset,
            field.bit_width,
        ),
{
    let bytes = encode_utf8(text);
    let start = field.bit_offset / 8;
    let after = text_written(field, delimiter, text, data);
    match delimiter {
        DelimiterModel::WholeBuffer => {
            lemma_spliced_elsewhere(data, start, bytes);
        },
        DelimiterModel::TerminationChar(terminator) => {
            let middle = spliced(data, start, bytes);
            lemma_spliced_elsewhere(data, start, bytes);
            lemma_elsewhere_widens(
                middle,
                data,
                8 * start,
                8 * bytes.len() as int,
                field.bit_offset,
                field.bit_width,
            );
            lemma_spliced_elsewhere(middle, start + bytes.len(), terminator);
            lemma_elsewhere_widens(
                after,
                middle,
                8 * (start + bytes.len()),
                8 * terminator.len() as int,
                field.bit_offset,
                field.bit_width,
            );
        },
        DelimiterModel::LeadingSize(size) => {
            let length_bits = (8 * bytes.len()) as u64;
            lemma_width_powers(size as int);
            let middle = written(data, field.bit_offset, size as int, length_bits);
            lemma_written_elsewhere(data, field.bit_offset, size as int, length_bits);
            lemma_elsewhere_widens(
                middle,
                data,
                field.bit_offset,
                size as int,
                field.bit_offset,
                field.bit_width,
            );
            lemma_spliced_elsewhere(middle, start + size / 8, bytes);
            lemma_elsewhere_widens(
                after,
                middle,
                8 * (start + size as int / 8),
                8 * bytes.len() as int,
                field.bit_offset,
                field.bit_width,
            );
        },
    }
}

/// Writing a value leaves the bits outside its field alone.
pub proof fn lemma_field_elsewhere(
    field: FieldModel,
    enums: Seq<EnumModel>,
    value: Datum,
    data: Seq<u8>,
)
    requires
        field.valid(enums, data.len() as int),
        well_typed(field, enums, value),
        field_refusal(field, value) is None,
        stays_inside(field, enums, value),
    ensures
        same_elsewhere(
            field_written(field, enums, value, data),
            data,
            field.bit_offset,
            field.bit_width,
        ),
{
    match (field.kind, value) {
        (KindModel::Text(charset, delimiter), Datum::Text(text)) => {
            lemma_text_elsewhere(field, enums, charset, delimiter, text, data);
        },
        (KindModel::Binary, Datum::Binary(bytes)) => {
            lemma_spliced_elsewhere(data, field.bit_offset / 8, bytes);
        },
        _ => {
            lemma_scalar_bits_bound(field, enums, value, data.len() as int);
            lemma_written_elsewhere(
                data,
                field.bit_offset,
                field.bit_width,
                in_order(field, scalar_bits(field, enums, value)) as u64,
            );
        },
    }
}

/// What a decoder makes of a field depends on the field's own bits alone.
pub proof fn lemma_field_locality(
    field: FieldModel,
    enums: Seq<EnumModel>,
    a: Seq<u8>,
    b: Seq<u8>,
)
    requires
        field.valid(enums, a.len() as int),
        same_run(a, b, field.bit_offset, field.bit_width),
    ensures
        field_decoded(field, enums, a) == field_decoded(field, enums, b),
{
    if field.kind.borrows() {
        let from = field.bit_offset / 8;
        let to = (field.bit_offset + field.bit_width) / 8;
        assert(8 * from == field.bit_offset);
        assert(8 * (to - from) == field.bit_width);
        lemma_same_bytes(a, b, from, to);
        match field.kind {
            KindModel::Text(_, DelimiterModel::LeadingSize(size)) => {
                lemma_number_same(a, b, field.bit_offset, size as nat);
            },
            _ => {},
        }
    } else {
        lemma_number_same(a, b, field.bit_offset, field.bit_width as nat);
    }
}

/// Bytes of a packet carry the bits that were copied there.
proof fn lemma_subrange_of_splice(data: Seq<u8>, at: int, bytes: Seq<u8>)
    requires
        0 <= at,
        at + bytes.len() <= data.len(),
    ensures
        spliced(data, at, bytes).subrange(at, at + bytes.len()) == bytes,
{
    assert(spliced(data, at, bytes).subrange(at, at + bytes.len()) =~= bytes);
}

/// A string that was written is found again where it was put.
proof fn lemma_text_bytes_return(
    field: FieldModel,
    enums: Seq<EnumModel>,
    charset: TextCharset,
    delimiter: DelimiterModel,
    text: Seq<char>,
    data: Seq<u8>,
)
    requires
        field.valid(enums, data.len() as int),
        field.kind == KindModel::Text(charset, delimiter),
        text_refusal(field, charset, delimiter, text) is None,
        clear(data, field.bit_offset, field.bit_width),
    ensures
        text_bytes(field, delimiter, text_written(field, delimiter, text, data)) == Ok::<
            Seq<u8>,
            Fault,
        >(encode_utf8(text)),
{
    let bytes = encode_utf8(text);
    let start = field.bit_offset / 8;
    let room = field.bit_width / 8;
    let after = text_written(field, delimiter, text, data);
    let buffer = field_bytes(field, after);
    assert((field.bit_offset + field.bit_width) / 8 == start + room);
    match delimiter {
        DelimiterModel::WholeBuffer => {
            assert(buffer =~= bytes);
        },
        DelimiterModel::TerminationChar(terminator) => {
            let joined = bytes + terminator;
            assert(buffer.take(bytes.len() as int) =~= bytes);
            assert(occurs_at(buffer, terminator, bytes.len() as int)) by {
                assert(buffer.subrange(
                    bytes.len() as int,
                    bytes.len() + terminator.len() as int,
                ) =~= terminator);
            }
            lemma_first_from(joined, terminator, 0);
            assert forall|i: int| 0 <= i < bytes.len() implies !occurs_at(buffer, terminator, i) by {
                assert(!occurs_at(joined, terminator, i));
                assert(joined.subrange(i, i + terminator.len()) =~= buffer.subrange(
                    i,
                    i + terminator.len(),
                ));
            }
            lemma_first_from(buffer, terminator, 0);
        },
        DelimiterModel::LeadingSize(size) => {
            let prefix = size as int / 8;
            let length_bits = (8 * bytes.len()) as u64;
            lemma_width_powers(size as int);
            let middle = written(data, field.bit_offset, size as int, length_bits);
            lemma_read_after_write(data, field.bit_offset, size as int, length_bits);
            lemma_spliced_elsewhere(middle, start + prefix, bytes);
            lemma_number_same(after, middle, field.bit_offset, size as nat);
            assert(buffer.subrange(prefix, prefix + bytes.len()) =~= bytes);
        },
    }
}

/// Only seven-bit characters become seven-bit bytes.
proof fn lemma_ascii_text(text: Seq<char>)
    requires
        is_ascii_chars(text),
    ensures
        ascii_bytes(encode_utf8(text)),
{
    is_ascii_chars_encode_utf8(text);
}

/// A value written into clear bits is what a decoder reads out of them.
pub proof fn lemma_field_returns(
    field: FieldModel,
    enums: Seq<EnumModel>,
    value: Datum,
    data: Seq<u8>,
)
    requires
        field.valid(enums, data.len() as int),
        well_typed(field, enums, value),
        field_refusal(field, value) is None,
        survives(field, enums, value),
        clear(data, field.bit_offset, field.bit_width),
    ensures
        field_decoded(field, enums, field_written(field, enums, value, data)) == Ok::<Datum, Fault>(
            returned(field, value),
        ),
{
    let after = field_written(field, enums, value, data);
    match (field.kind, value) {
        (KindModel::Text(charset, delimiter), Datum::Text(text)) => {
            lemma_text_bytes_return(field, enums, charset, delimiter, text, data);
            encode_utf8_valid_utf8(text);
            encode_utf8_decode_utf8(text);
            if charset == TextCharset::UsAscii {
                lemma_ascii_text(text);
            }
        },
        (KindModel::Binary, Datum::Binary(bytes)) => {
            assert((field.bit_offset + field.bit_width) / 8 == field.bit_offset / 8 + bytes.len());
            lemma_subrange_of_splice(data, field.bit_offset / 8, bytes);
        },
        _ => {
            lemma_scalar_bits_bound(field, enums, value, data.len() as int);
            let raw = in_order(field, scalar_bits(field, enums, value)) as u64;
            lemma_read_after_write(data, field.bit_offset, field.bit_width, raw);
            match (field.kind, value) {
                (KindModel::Signed(coding), Datum::Signed(number)) => {
                    lemma_signed_inverse(coding, field.bit_width, number as int);
                },
                _ => {},
            }
        },
    }
}

// ---------------------------------------------------------------------------------------
// One packet
// ---------------------------------------------------------------------------------------

/// Whether a run shares no bit with the first `count` criteria.
pub open spec fn apart_from_constants(
    constants: Seq<ConstantModel>,
    count: nat,
    offset: int,
    width: int,
) -> bool {
    forall|k: int|
        0 <= k < count ==> apart(
            offset,
            width,
            (#[trigger] constants[k]).bit_offset,
            constants[k].bit_width,
        )
}

/// Whether a run shares no bit with the first `count` fixed values.
pub open spec fn apart_from_fixed(
    fixed: Seq<FixedModel>,
    count: nat,
    offset: int,
    width: int,
) -> bool {
    forall|k: int|
        0 <= k < count ==> apart(
            offset,
            width,
            (#[trigger] fixed[k]).bit_offset,
            fixed[k].bit_width,
        )
}

/// Whether a run shares no bit with the fields from `from` up to `to`.
pub open spec fn apart_from_fields(
    fields: Seq<FieldModel>,
    from: int,
    to: int,
    offset: int,
    width: int,
) -> bool {
    forall|k: int|
        from <= k < to ==> apart(
            offset,
            width,
            (#[trigger] fields[k]).bit_offset,
            fields[k].bit_width,
        )
}

/// Whether field `i` shares no bit with anything else in its container.
pub open spec fn field_apart(container: ContainerModel, i: int) -> bool {
    let offset = container.fields[i].bit_offset;
    let width = container.fields[i].bit_width;
    &&& apart_from_constants(container.constants, container.constants.len(), offset, width)
    &&& apart_from_fixed(container.fixed, container.fixed.len(), offset, width)
    &&& apart_from_fields(container.fields, 0, i, offset, width)
    &&& apart_from_fields(container.fields, i + 1, container.fields.len() as int, offset, width)
}

/// Whether criterion `k` shares no bit with anything else in its container, unless it is another
/// criterion that asks for the same.
pub open spec fn constant_apart(container: ContainerModel, k: int) -> bool {
    let own = container.constants[k];
    &&& forall|j: int|
        0 <= j < container.constants.len() && j != k ==> {
            let other = #[trigger] container.constants[j];
            ||| apart(own.bit_offset, own.bit_width, other.bit_offset, other.bit_width)
            ||| own.bit_offset == other.bit_offset && own.bit_width == other.bit_width && own.raw
                == other.raw
        }
    &&& apart_from_fixed(container.fixed, container.fixed.len(), own.bit_offset, own.bit_width)
    &&& apart_from_fields(
        container.fields,
        0,
        container.fields.len() as int,
        own.bit_offset,
        own.bit_width,
    )
}

/// Whether every value's bits stay inside its field.
pub open spec fn all_stay_inside(
    container: ContainerModel,
    enums: Seq<EnumModel>,
    values: Seq<Datum>,
) -> bool {
    forall|i: int|
        0 <= i < container.fields.len() ==> stays_inside(
            #[trigger] container.fields[i],
            enums,
            values[i],
        )
}

/// What was not touched is unchanged.
proof fn lemma_untouched(
    a: Seq<u8>,
    b: Seq<u8>,
    offset: int,
    width: int,
    own: int,
    own_width: int,
)
    requires
        same_elsewhere(a, b, offset, width),
        apart(own, own_width, offset, width),
        0 <= own,
        own + own_width <= 8 * a.len(),
    ensures
        same_run(a, b, own, own_width),
{
}

/// The criteria leave every run apart from them alone.
proof fn lemma_constants_keep(
    data: Seq<u8>,
    constants: Seq<ConstantModel>,
    count: nat,
    offset: int,
    width: int,
)
    requires
        count <= constants.len(),
        forall|k: int|
            0 <= k < constants.len() ==> (#[trigger] constants[k]).valid(data.len() as int),
        apart_from_constants(constants, count, offset, width),
        0 <= offset,
        offset + width <= 8 * data.len(),
    ensures
        same_run(constants_written(data, constants, count), data, offset, width),
    decreases count,
{
    if count > 0 {
        let before = constants_written(data, constants, (count - 1) as nat);
        let last = constants[count - 1];
        assert(last.valid(data.len() as int));
        lemma_constants_keep(data, constants, (count - 1) as nat, offset, width);
        lemma_written_elsewhere(before, last.bit_offset, last.bit_width, last.raw);
        lemma_untouched(
            written(before, last.bit_offset, last.bit_width, last.raw),
            before,
            last.bit_offset,
            last.bit_width,
            offset,
            width,
        );
    }
}

/// A fixed value leaves the bits outside it alone.
proof fn lemma_fixed_elsewhere(data: Seq<u8>, fixed: FixedModel)
    requires
        fixed.valid(data.len() as int),
    ensures
        same_elsewhere(one_fixed_written(data, fixed), data, fixed.bit_offset, fixed.bit_width),
{
    if fixed.bit_width <= 64 {
        lemma_width_powers(fixed.bit_width);
        lemma_written_elsewhere(
            data,
            fixed.bit_offset,
            fixed.bit_width,
            fixed_as_u64(fixed)->Some_0,
        );
    } else {
        lemma_spliced_elsewhere(data, fixed.bit_offset / 8, fixed.value);
    }
}

/// The fixed values leave every run apart from them alone.
proof fn lemma_fixed_keep(
    data: Seq<u8>,
    fixed: Seq<FixedModel>,
    count: nat,
    offset: int,
    width: int,
)
    requires
        count <= fixed.len(),
        forall|k: int| 0 <= k < fixed.len() ==> (#[trigger] fixed[k]).valid(data.len() as int),
        apart_from_fixed(fixed, count, offset, width),
        0 <= offset,
        offset + width <= 8 * data.len(),
    ensures
        same_run(fixed_written(data, fixed, count), data, offset, width),
    decreases count,
{
    if count > 0 {
        let before = fixed_written(data, fixed, (count - 1) as nat);
        let last = fixed[count - 1];
        assert(last.valid(data.len() as int));
        lemma_fixed_keep(data, fixed, (count - 1) as nat, offset, width);
        lemma_fixed_elsewhere(before, last);
        lemma_untouched(
            one_fixed_written(before, last),
            before,
            last.bit_offset,
            last.bit_width,
            offset,
            width,
        );
    }
}

/// The values leave every run apart from their fields alone.
proof fn lemma_fields_keep(
    container: ContainerModel,
    enums: Seq<EnumModel>,
    values: Seq<Datum>,
    from: nat,
    to: nat,
    offset: int,
    width: int,
)
    requires
        container.valid(enums),
        is_packet(container, enums, values),
        all_stay_inside(container, enums, values),
        forall|k: int|
            0 <= k < container.fields.len() ==> field_refusal(
                #[trigger] container.fields[k],
                values[k],
            ) is None,
        from <= to <= container.fields.len(),
        apart_from_fields(container.fields, from as int, to as int, offset, width),
        0 <= offset,
        offset + width <= 8 * container.len_bytes,
    ensures
        same_run(
            filled(container, enums, values, to),
            filled(container, enums, values, from),
            offset,
            width,
        ),
    decreases to - from,
{
    lemma_filled_len(container, enums, values, to);
    lemma_filled_len(container, enums, values, from);
    if from < to {
        let before = filled(container, enums, values, (to - 1) as nat);
        lemma_filled_len(container, enums, values, (to - 1) as nat);
        lemma_fields_keep(container, enums, values, from, (to - 1) as nat, offset, width);
        let field = container.fields[to - 1];
        assert(field.valid(enums, container.len_bytes));
        assert(well_typed(field, enums, values[to - 1]));
        assert(stays_inside(field, enums, values[to - 1]));
        lemma_field_elsewhere(field, enums, values[to - 1], before);
        lemma_untouched(
            field_written(field, enums, values[to - 1], before),
            before,
            field.bit_offset,
            field.bit_width,
            offset,
            width,
        );
    }
}

/// A packet has its container's length at every step.
pub proof fn lemma_filled_len(
    container: ContainerModel,
    enums: Seq<EnumModel>,
    values: Seq<Datum>,
    count: nat,
)
    requires
        0 <= container.len_bytes,
    ensures
        filled(container, enums, values, count).len() == container.len_bytes,
    decreases count,
{
    if count == 0 {
        let clean = Seq::new(container.len_bytes as nat, |j: int| 0u8);
        lemma_constants_len(clean, container.constants, container.constants.len());
        lemma_fixed_len(
            constants_written(clean, container.constants, container.constants.len()),
            container.fixed,
            container.fixed.len(),
        );
    } else {
        lemma_filled_len(container, enums, values, (count - 1) as nat);
    }
}

/// Writing criteria leaves the length of a packet.
pub proof fn lemma_constants_len(data: Seq<u8>, constants: Seq<ConstantModel>, count: nat)
    ensures
        constants_written(data, constants, count).len() == data.len(),
    decreases count,
{
    if count > 0 {
        lemma_constants_len(data, constants, (count - 1) as nat);
    }
}

/// Writing fixed values leaves the length of a packet.
pub proof fn lemma_fixed_len(data: Seq<u8>, fixed: Seq<FixedModel>, count: nat)
    ensures
        fixed_written(data, fixed, count).len() == data.len(),
    decreases count,
{
    if count > 0 {
        lemma_fixed_len(data, fixed, (count - 1) as nat);
    }
}

/// A packet starts out clear wherever nothing is written for the caller.
proof fn lemma_blank_clear(container: ContainerModel, enums: Seq<EnumModel>, offset: int, width: int)
    requires
        container.valid(enums),
        apart_from_constants(container.constants, container.constants.len(), offset, width),
        apart_from_fixed(container.fixed, container.fixed.len(), offset, width),
        0 <= offset,
        offset + width <= 8 * container.len_bytes,
    ensures
        clear(blank(container), offset, width),
{
    let clean = Seq::new(container.len_bytes as nat, |j: int| 0u8);
    let marked = constants_written(clean, container.constants, container.constants.len());
    lemma_constants_len(clean, container.constants, container.constants.len());
    lemma_constants_keep(
        clean,
        container.constants,
        container.constants.len(),
        offset,
        width,
    );
    lemma_fixed_keep(marked, container.fixed, container.fixed.len(), offset, width);
    lemma_clean_clear(container.len_bytes as nat, offset, width);
}

/// No field of an accepted packet is refused.
proof fn lemma_all_accepted(container: ContainerModel, values: Seq<Datum>)
    requires
        encode_refusal(container, values) is None,
    ensures
        forall|k: int|
            0 <= k < container.fields.len() ==> field_refusal(
                #[trigger] container.fields[k],
                values[k],
            ) is None,
{
    lemma_accepted_stop(container.fields, values, 0);
    assert forall|k: int| 0 <= k < container.fields.len() implies field_refusal(
        #[trigger] container.fields[k],
        values[k],
    ) is None by {
        lemma_accepted_up_to(container.fields, values, 0, k as nat);
    }
}

proof fn lemma_accepted_stop(fields: Seq<FieldModel>, values: Seq<Datum>, from: nat)
    ensures
        ({
            let stop = accepted_from(fields, values, from);
            stop < fields.len() ==> field_refusal(fields[stop as int], values[stop as int]) is Some
        }),
    decreases fields.len() - from,
{
    if from < fields.len() && field_refusal(fields[from as int], values[from as int]) is None {
        lemma_accepted_stop(fields, values, from + 1);
    }
}

proof fn lemma_accepted_up_to(fields: Seq<FieldModel>, values: Seq<Datum>, from: nat, at: nat)
    requires
        from <= at < fields.len(),
        at < accepted_from(fields, values, from),
    ensures
        field_refusal(fields[at as int], values[at as int]) is None,
    decreases at - from,
{
    if from < at {
        lemma_accepted_up_to(fields, values, from + 1, at);
    }
}

/// A field that shares no bit with anything else gives back what was put into it, whatever else
/// the packet holds.
pub proof fn lemma_field_round_trip(
    container: ContainerModel,
    enums: Seq<EnumModel>,
    values: Seq<Datum>,
    i: int,
)
    requires
        container.valid(enums),
        is_packet(container, enums, values),
        encode_refusal(container, values) is None,
        all_stay_inside(container, enums, values),
        0 <= i < container.fields.len(),
        field_apart(container, i),
        survives(container.fields[i], enums, values[i]),
    ensures
        field_decoded(container.fields[i], enums, encoded(container, enums, values)) == Ok::<
            Datum,
            Fault,
        >(returned(container.fields[i], values[i])),
{
    let field = container.fields[i];
    let offset = field.bit_offset;
    let width = field.bit_width;
    let at = i as nat;
    let len = container.fields.len();
    assert(field.valid(enums, container.len_bytes));
    assert(well_typed(field, enums, values[i]));
    lemma_all_accepted(container, values);
    lemma_filled_len(container, enums, values, at);
    lemma_filled_len(container, enums, values, at + 1);
    lemma_filled_len(container, enums, values, len);
    lemma_blank_clear(container, enums, offset, width);
    lemma_fields_keep(container, enums, values, 0, at, offset, width);
    assert(clear(filled(container, enums, values, at), offset, width));
    lemma_field_returns(field, enums, values[i], filled(container, enums, values, at));
    lemma_fields_keep(container, enums, values, at + 1, len, offset, width);
    lemma_field_locality(
        field,
        enums,
        encoded(container, enums, values),
        filled(container, enums, values, at + 1),
    );
}

/// A packet gives back every value that was put into it.
///
/// The fields must share no bit with one another, nor with what `encode` writes for itself, and
/// each value must be one that [`survives`]. A binary16 field gives back the rounded value.
pub proof fn lemma_round_trip(
    container: ContainerModel,
    enums: Seq<EnumModel>,
    values: Seq<Datum>,
)
    requires
        container.valid(enums),
        is_packet(container, enums, values),
        encode_refusal(container, values) is None,
        forall|i: int| 0 <= i < container.fields.len() ==> #[trigger] field_apart(container, i),
        forall|i: int|
            0 <= i < container.fields.len() ==> survives(
                #[trigger] container.fields[i],
                enums,
                values[i],
            ),
    ensures
        decoded(container, enums, encoded(container, enums, values)) == Ok::<Seq<Datum>, Fault>(
            Seq::new(
                container.fields.len(),
                |i: int| returned(container.fields[i], values[i]),
            ),
        ),
{
    let data = encoded(container, enums, values);
    let fields = container.fields;
    assert forall|i: int| 0 <= i < fields.len() implies field_decoded(
        #[trigger] fields[i],
        enums,
        data,
    ) == Ok::<Datum, Fault>(returned(fields[i], values[i])) by {
        assert(field_apart(container, i));
        lemma_field_round_trip(container, enums, values, i);
    }
    lemma_readable(fields, enums, data, 0, fields.len());
    assert(decoded(container, enums, data)->Ok_0 =~= Seq::new(
        fields.len(),
        |i: int| returned(fields[i], values[i]),
    ));
}

/// A packet without binary16 fields gives back exactly what was put into it.
pub proof fn lemma_exact_round_trip(
    container: ContainerModel,
    enums: Seq<EnumModel>,
    values: Seq<Datum>,
)
    requires
        container.valid(enums),
        is_packet(container, enums, values),
        encode_refusal(container, values) is None,
        forall|i: int| 0 <= i < container.fields.len() ==> #[trigger] field_apart(container, i),
        forall|i: int|
            0 <= i < container.fields.len() ==> survives(
                #[trigger] container.fields[i],
                enums,
                values[i],
            ),
        forall|i: int|
            0 <= i < container.fields.len() ==> (#[trigger] container.fields[i]).kind
                != KindModel::Float16,
    ensures
        decoded(container, enums, encoded(container, enums, values)) == Ok::<Seq<Datum>, Fault>(
            values,
        ),
{
    lemma_round_trip(container, enums, values);
    assert(Seq::new(
        container.fields.len(),
        |i: int| returned(container.fields[i], values[i]),
    ) =~= values);
}

/// What was encoded from a plan decodes to what went in: in a layout that was built from a plan
/// whose runs of bits lie inside their containers, a packet that is not refused gives back every
/// value, where its fields share no bits and each of its labels is the first with its bits. A
/// binary16 field gives back the rounded value.
pub proof fn lemma_planned_round_trip(plan: Plan, chosen: int, values: Seq<Datum>)
    requires
        plan_fits(plan),
        layout_of(plan) is Ok,
        0 <= chosen < layout_of(plan)->Ok_0.containers.len(),
        ({
            let layout = layout_of(plan)->Ok_0;
            let container = layout.containers[chosen];
            &&& is_packet(container, layout.enums, values)
            &&& encode_refusal(container, values) is None
            &&& forall|i: int|
                0 <= i < container.fields.len() ==> #[trigger] field_apart(container, i)
            &&& forall|i: int|
                0 <= i < container.fields.len() ==> reads_back(
                    #[trigger] container.fields[i],
                    layout.enums,
                    values[i],
                )
        }),
    ensures
        ({
            let layout = layout_of(plan)->Ok_0;
            let container = layout.containers[chosen];
            decoded(container, layout.enums, encoded(container, layout.enums, values)) == Ok::<
                Seq<Datum>,
                Fault,
            >(
                Seq::new(
                    container.fields.len(),
                    |i: int| returned(container.fields[i], values[i]),
                ),
            )
        }),
{
    let layout = layout_of(plan)->Ok_0;
    let container = layout.containers[chosen];
    lemma_layout_valid(plan);
    lemma_labels_stay_inside(plan);
    assert forall|i: int| 0 <= i < container.fields.len() implies survives(
        #[trigger] container.fields[i],
        layout.enums,
        values[i],
    ) by {
        assert(labels_inside(layout.containers[chosen].fields[i], layout.enums));
        assert(well_typed(container.fields[i], layout.enums, values[i]));
    }
    lemma_round_trip(container, layout.enums, values);
}

/// A value that a binary16 holds comes back from a binary16 field unchanged, unless it is a
/// signalling NaN.
pub proof fn lemma_binary16_value_returns(field: FieldModel, half: u16)
    requires
        field.kind == KindModel::Float16,
        half_magnitude(half) <= 0x7C00 || half_magnitude(half) >= 0x7E00,
    ensures
        returned(field, Datum::Single(widened(half))) == Datum::Single(widened(half)),
{
    lemma_half_round_trip(half);
}

// ---------------------------------------------------------------------------------------
// Criteria
// ---------------------------------------------------------------------------------------

/// The criteria are written where they are read.
proof fn lemma_criterion_written(
    container: ContainerModel,
    enums: Seq<EnumModel>,
    data: Seq<u8>,
    count: nat,
    k: int,
)
    requires
        container.valid(enums),
        data.len() == container.len_bytes,
        0 <= k < container.constants.len(),
        count <= container.constants.len(),
        constant_apart(container, k),
        clear(data, container.constants[k].bit_offset, container.constants[k].bit_width),
    ensures
        ({
            let own = container.constants[k];
            let after = constants_written(data, container.constants, count);
            &&& after.len() == data.len()
            &&& number(after, own.bit_offset, own.bit_width as nat) == own.raw || clear(
                after,
                own.bit_offset,
                own.bit_width,
            )
            &&& k < count ==> number(after, own.bit_offset, own.bit_width as nat) == own.raw
        }),
    decreases count,
{
    if count > 0 {
        let own = container.constants[k];
        let last = container.constants[count - 1];
        let before = constants_written(data, container.constants, (count - 1) as nat);
        let after = constants_written(data, container.constants, count);
        assert(own.valid(container.len_bytes));
        assert(last.valid(container.len_bytes));
        lemma_criterion_written(container, enums, data, (count - 1) as nat, k);
        if apart(own.bit_offset, own.bit_width, last.bit_offset, last.bit_width) {
            lemma_written_elsewhere(before, last.bit_offset, last.bit_width, last.raw);
            lemma_untouched(
                after,
                before,
                last.bit_offset,
                last.bit_width,
                own.bit_offset,
                own.bit_width,
            );
            lemma_number_same(after, before, own.bit_offset, own.bit_width as nat);
            assert(k != count - 1);
        } else {
            assert(own.bit_offset == last.bit_offset && own.bit_width == last.bit_width && own.raw
                == last.raw);
            lemma_rewrite(before, own.bit_offset, own.bit_width, own.raw);
        }
    }
}

/// Writing a value into bits that are clear, or that hold it already, leaves the value there.
proof fn lemma_rewrite(data: Seq<u8>, offset: int, width: int, value: u64)
    requires
        1 <= width <= 64,
        0 <= offset,
        offset + width <= 8 * data.len(),
        value < pow2(width as nat),
        number(data, offset, width as nat) == value || clear(data, offset, width),
    ensures
        number(written(data, offset, width, value), offset, width as nat) == value,
{
    if clear(data, offset, width) {
        lemma_read_after_write(data, offset, width, value);
    } else {
        let after = written(data, offset, width, value);
        lemma_bits_of_number(data, offset, width as nat, value);
        assert forall|i: int| offset <= i < offset + width implies bit(after, i) == bit(
            data,
            i,
        ) by {
            let k = offset + width - 1 - i;
            assert(value_bit(value, k) == bit(data, offset + width - 1 - k));
            lemma_written_bit(data, offset, width, value, i);
        }
        lemma_number_same(after, data, offset, width as nat);
    }
}

/// A run that spells a value carries its bits.
proof fn lemma_bits_of_number(data: Seq<u8>, offset: int, width: nat, value: u64)
    requires
        width <= 64,
        number(data, offset, width) == value,
    ensures
        forall|k: int|
            0 <= k < width ==> bit(data, offset + width - 1 - k) == #[trigger] value_bit(value, k),
    decreases width,
{
    if width > 0 {
        let half = value >> 1u64;
        lemma2_to64();
        lemma_u64_shr_is_div(value, 1);
        assert(half == value / 2);
        lemma_bits_of_number(data, offset, (width - 1) as nat, half);
        assert((value >> 0u64) & 1u64 == value % 2) by (bit_vector);
        assert forall|k: int| 0 <= k < width implies bit(data, offset + width - 1 - k)
            == #[trigger] value_bit(value, k) by {
            if k > 0 {
                assert(value_bit(half, k - 1) == bit(
                    data,
                    offset + (width - 1) - 1 - (k - 1),
                ));
                let k64 = (k - 1) as u64;
                assert((value >> 1u64) >> k64 == value >> ((k64 + 1) as u64)) by (bit_vector)
                    requires
                        k64 < 63,
                ;
            }
        }
    }
}

/// An encoded packet satisfies each criterion of its container that shares no bit with a field
/// or a fixed value, nor with a criterion that asks for something else.
pub proof fn lemma_criterion_round_trip(
    container: ContainerModel,
    enums: Seq<EnumModel>,
    values: Seq<Datum>,
    k: int,
)
    requires
        container.valid(enums),
        is_packet(container, enums, values),
        encode_refusal(container, values) is None,
        all_stay_inside(container, enums, values),
        0 <= k < container.constants.len(),
        constant_apart(container, k),
    ensures
        criterion_holds(container.constants[k], encoded(container, enums, values)),
{
    let own = container.constants[k];
    let offset = own.bit_offset;
    let width = own.bit_width;
    let len = container.fields.len();
    let clean = Seq::new(container.len_bytes as nat, |j: int| 0u8);
    let marked = constants_written(clean, container.constants, container.constants.len());
    assert(own.valid(container.len_bytes));
    lemma_clean_clear(container.len_bytes as nat, offset, width);
    lemma_criterion_written(container, enums, clean, container.constants.len(), k);
    lemma_fixed_keep(marked, container.fixed, container.fixed.len(), offset, width);
    lemma_all_accepted(container, values);
    lemma_fields_keep(container, enums, values, 0, len, offset, width);
    lemma_number_same(encoded(container, enums, values), blank(container), offset, width as nat);
    lemma_number_same(blank(container), marked, offset, width as nat);
}

/// An encoded packet satisfies the criteria of the container it was written as.
pub proof fn lemma_encoded_matches(
    container: ContainerModel,
    enums: Seq<EnumModel>,
    values: Seq<Datum>,
)
    requires
        container.valid(enums),
        is_packet(container, enums, values),
        encode_refusal(container, values) is None,
        all_stay_inside(container, enums, values),
        forall|k: int|
            0 <= k < container.constants.len() ==> #[trigger] constant_apart(container, k),
    ensures
        is_match(container, encoded(container, enums, values)),
{
    let data = encoded(container, enums, values);
    lemma_filled_len(container, enums, values, container.fields.len());
    assert(data.take(container.len_bytes) =~= data);
    assert forall|k: int| 0 <= k < container.constants.len() implies criterion_holds(
        #[trigger] container.constants[k],
        data,
    ) by {
        assert(constant_apart(container, k));
        lemma_criterion_round_trip(container, enums, values, k);
    }
}

/// Where one container alone claims a packet, it is the only match there is.
proof fn lemma_only_match(
    containers: Seq<ContainerModel>,
    data: Seq<u8>,
    count: nat,
    chosen: int,
)
    requires
        count <= containers.len(),
        0 <= chosen < containers.len(),
        is_match(containers[chosen], data),
        forall|j: int|
            0 <= j < containers.len() && j != chosen ==> !is_match(#[trigger] containers[j], data),
    ensures
        match_count(containers, data, count) == if chosen < count {
            1nat
        } else {
            0nat
        },
        chosen < count ==> last_match(containers, data, count) == chosen,
    decreases count,
{
    if count > 0 {
        lemma_only_match(containers, data, (count - 1) as nat, chosen);
        if count - 1 != chosen {
            assert(!is_match(containers[count - 1], data));
        }
    }
}

/// A packet that no other container claims is dispatched to the container it was written as, and
/// gives back every value that was put into it.
pub proof fn lemma_dispatch_round_trip(layout: LayoutModel, chosen: int, values: Seq<Datum>)
    requires
        layout.valid(),
        0 <= chosen < layout.containers.len(),
        is_packet(layout.containers[chosen], layout.enums, values),
        encode_refusal(layout.containers[chosen], values) is None,
        ({
            let container = layout.containers[chosen];
            let data = encoded(container, layout.enums, values);
            &&& forall|i: int|
                0 <= i < container.fields.len() ==> #[trigger] field_apart(container, i)
            &&& forall|k: int|
                0 <= k < container.constants.len() ==> #[trigger] constant_apart(container, k)
            &&& forall|i: int|
                0 <= i < container.fields.len() ==> survives(
                    #[trigger] container.fields[i],
                    layout.enums,
                    values[i],
                )
            &&& forall|j: int|
                0 <= j < layout.containers.len() && j != chosen ==> !is_match(
                    #[trigger] layout.containers[j],
                    data,
                )
        }),
    ensures
        ({
            let container = layout.containers[chosen];
            dispatched(layout, encoded(container, layout.enums, values)) == Ok::<
                (int, Seq<Datum>),
                Fault,
            >(
                (
                    chosen,
                    Seq::new(
                        container.fields.len(),
                        |i: int| returned(container.fields[i], values[i]),
                    ),
                ),
            )
        }),
{
    let container = layout.containers[chosen];
    let data = encoded(container, layout.enums, values);
    assert(container.valid(layout.enums));
    assert forall|i: int| 0 <= i < container.fields.len() implies stays_inside(
        #[trigger] container.fields[i],
        layout.enums,
        values[i],
    ) by {
        assert(survives(container.fields[i], layout.enums, values[i]));
    }
    lemma_encoded_matches(container, layout.enums, values);
    lemma_only_match(layout.containers, data, layout.containers.len(), chosen);
    lemma_filled_len(container, layout.enums, values, container.fields.len());
    assert(data.take(container.len_bytes) =~= data);
    lemma_round_trip(container, layout.enums, values);
}

// ---------------------------------------------------------------------------------------
// What is nobody's to set
// ---------------------------------------------------------------------------------------

/// Whether fixed value `k` shares no bit with anything else in its container.
pub open spec fn fixed_apart(container: ContainerModel, k: int) -> bool {
    let offset = container.fixed[k].bit_offset;
    let width = container.fixed[k].bit_width;
    &&& apart_from_constants(container.constants, container.constants.len(), offset, width)
    &&& forall|j: int|
        0 <= j < container.fixed.len() && j != k ==> apart(
            offset,
            width,
            (#[trigger] container.fixed[j]).bit_offset,
            container.fixed[j].bit_width,
        )
    &&& apart_from_fields(container.fields, 0, container.fields.len() as int, offset, width)
}

/// Whether a packet carries a fixed value: as the number its bits spell, or byte by byte where it
/// is wider than one.
pub open spec fn carries_fixed(fixed: FixedModel, data: Seq<u8>) -> bool {
    if fixed.bit_width <= 64 {
        number(data, fixed.bit_offset, fixed.bit_width as nat) == bytes_value(fixed.value)
    } else {
        data.subrange(fixed.bit_offset / 8, fixed.bit_offset / 8 + fixed.value.len()) == fixed.value
    }
}

/// A fixed value stays where its bits are not touched.
proof fn lemma_fixed_stays(fixed: FixedModel, a: Seq<u8>, b: Seq<u8>)
    requires
        fixed.valid(a.len() as int),
        same_run(a, b, fixed.bit_offset, fixed.bit_width),
        carries_fixed(fixed, b),
    ensures
        carries_fixed(fixed, a),
{
    if fixed.bit_width <= 64 {
        lemma_number_same(a, b, fixed.bit_offset, fixed.bit_width as nat);
    } else {
        let from = fixed.bit_offset / 8;
        lemma_same_bytes(a, b, from, from + fixed.value.len());
    }
}

/// A fixed value is there once it has been written, whatever fixed values are written behind it.
proof fn lemma_fixed_written(data: Seq<u8>, fixed: Seq<FixedModel>, count: nat, k: int)
    requires
        0 <= k < count <= fixed.len(),
        forall|j: int| 0 <= j < fixed.len() ==> (#[trigger] fixed[j]).valid(data.len() as int),
        forall|j: int|
            0 <= j < fixed.len() && j != k ==> apart(
                fixed[k].bit_offset,
                fixed[k].bit_width,
                (#[trigger] fixed[j]).bit_offset,
                fixed[j].bit_width,
            ),
        clear(data, fixed[k].bit_offset, fixed[k].bit_width),
    ensures
        carries_fixed(fixed[k], fixed_written(data, fixed, count)),
    decreases count,
{
    let own = fixed[k];
    let last = fixed[count - 1];
    let before = fixed_written(data, fixed, (count - 1) as nat);
    let after = fixed_written(data, fixed, count);
    lemma_fixed_len(data, fixed, (count - 1) as nat);
    assert(own.valid(data.len() as int));
    assert(last.valid(data.len() as int));
    if k == count - 1 {
        lemma_fixed_keep(data, fixed, k as nat, own.bit_offset, own.bit_width);
        assert(clear(before, own.bit_offset, own.bit_width));
        if own.bit_width <= 64 {
            lemma_width_powers(own.bit_width);
            lemma_read_after_write(
                before,
                own.bit_offset,
                own.bit_width,
                fixed_as_u64(own)->Some_0,
            );
        } else {
            lemma_subrange_of_splice(before, own.bit_offset / 8, own.value);
        }
    } else {
        lemma_fixed_written(data, fixed, (count - 1) as nat, k);
        lemma_fixed_elsewhere(before, last);
        lemma_untouched(
            after,
            before,
            last.bit_offset,
            last.bit_width,
            own.bit_offset,
            own.bit_width,
        );
        lemma_fixed_stays(own, after, before);
    }
}

/// An encoded packet carries each value that the definition fixes, where it shares no bits with
/// anything else.
pub proof fn lemma_fixed_values_are_written(
    container: ContainerModel,
    enums: Seq<EnumModel>,
    values: Seq<Datum>,
    k: int,
)
    requires
        container.valid(enums),
        is_packet(container, enums, values),
        encode_refusal(container, values) is None,
        all_stay_inside(container, enums, values),
        0 <= k < container.fixed.len(),
        fixed_apart(container, k),
    ensures
        carries_fixed(container.fixed[k], encoded(container, enums, values)),
{
    let own = container.fixed[k];
    let len = container.fields.len();
    let clean = Seq::new(container.len_bytes as nat, |j: int| 0u8);
    let marked = constants_written(clean, container.constants, container.constants.len());
    assert(own.valid(container.len_bytes));
    lemma_constants_len(clean, container.constants, container.constants.len());
    lemma_constants_keep(
        clean,
        container.constants,
        container.constants.len(),
        own.bit_offset,
        own.bit_width,
    );
    lemma_clean_clear(container.len_bytes as nat, own.bit_offset, own.bit_width);
    assert(clear(marked, own.bit_offset, own.bit_width));
    lemma_fixed_written(marked, container.fixed, container.fixed.len(), k);
    lemma_all_accepted(container, values);
    lemma_fields_keep(container, enums, values, 0, len, own.bit_offset, own.bit_width);
    lemma_filled_len(container, enums, values, len);
    lemma_fixed_stays(own, encoded(container, enums, values), blank(container));
}

/// Zeros have no bits.
proof fn lemma_clean_clear(len: nat, offset: int, width: int)
    requires
        0 <= offset,
        offset + width <= 8 * len,
    ensures
        clear(Seq::new(len, |j: int| 0u8), offset, width),
{
    let clean = Seq::new(len, |j: int| 0u8);
    assert forall|i: int| offset <= i < offset + width implies !bit(clean, i) by {
        let k = (7 - i % 8) as u8;
        assert((0u8 >> k) & 1u8 == 0u8) by (bit_vector)
            requires
                k < 8,
        ;
    }
}

/// Bits of an encoded packet that no field, no criterion and no fixed value claims are zero.
pub proof fn lemma_unclaimed_bits_are_zero(
    container: ContainerModel,
    enums: Seq<EnumModel>,
    values: Seq<Datum>,
    offset: int,
    width: int,
)
    requires
        container.valid(enums),
        is_packet(container, enums, values),
        encode_refusal(container, values) is None,
        all_stay_inside(container, enums, values),
        0 <= offset,
        offset + width <= 8 * container.len_bytes,
        apart_from_constants(container.constants, container.constants.len(), offset, width),
        apart_from_fixed(container.fixed, container.fixed.len(), offset, width),
        apart_from_fields(container.fields, 0, container.fields.len() as int, offset, width),
    ensures
        clear(encoded(container, enums, values), offset, width),
{
    lemma_blank_clear(container, enums, offset, width);
    lemma_all_accepted(container, values);
    lemma_fields_keep(container, enums, values, 0, container.fields.len(), offset, width);
}

// ---------------------------------------------------------------------------------------
// What is not read, and what is not written
// ---------------------------------------------------------------------------------------

/// What a packet decodes to depends on the bits of its fields alone.
pub proof fn lemma_decode_locality(
    container: ContainerModel,
    enums: Seq<EnumModel>,
    a: Seq<u8>,
    b: Seq<u8>,
)
    requires
        container.valid(enums),
        a.len() == container.len_bytes,
        forall|i: int|
            0 <= i < container.fields.len() ==> same_run(
                a,
                b,
                (#[trigger] container.fields[i]).bit_offset,
                container.fields[i].bit_width,
            ),
    ensures
        decoded(container, enums, a) == decoded(container, enums, b),
{
    let fields = container.fields;
    assert forall|i: int| 0 <= i < fields.len() implies field_decoded(#[trigger] fields[i], enums, a)
        == field_decoded(fields[i], enums, b) by {
        assert(fields[i].valid(enums, container.len_bytes));
        lemma_field_locality(fields[i], enums, a, b);
    }
    lemma_readable_same(fields, enums, a, b, 0);
    if readable_from(fields, enums, a, 0) >= fields.len() {
        assert(decoded(container, enums, a)->Ok_0 =~= decoded(container, enums, b)->Ok_0);
    }
}

proof fn lemma_readable_same(
    fields: Seq<FieldModel>,
    enums: Seq<EnumModel>,
    a: Seq<u8>,
    b: Seq<u8>,
    from: nat,
)
    requires
        forall|i: int|
            0 <= i < fields.len() ==> field_decoded(#[trigger] fields[i], enums, a)
                == field_decoded(fields[i], enums, b),
    ensures
        readable_from(fields, enums, a, from) == readable_from(fields, enums, b, from),
    decreases fields.len() - from,
{
    if from < fields.len() {
        assert(field_decoded(fields[from as int], enums, a) == field_decoded(
            fields[from as int],
            enums,
            b,
        ));
        lemma_readable_same(fields, enums, a, b, from + 1);
    }
}

/// Whether two packets of a container differ in the bits it fixes at most.
pub open spec fn differ_in_fixed(container: ContainerModel, a: Seq<u8>, b: Seq<u8>) -> bool {
    &&& a.len() == container.len_bytes
    &&& b.len() == container.len_bytes
    &&& forall|i: int|
        #![trigger bit(a, i)]
        0 <= i < 8 * a.len() && (forall|k: int|
            0 <= k < container.fixed.len() ==> !((#[trigger] container.fixed[k]).bit_offset <= i
                < container.fixed[k].bit_offset + container.fixed[k].bit_width)) ==> bit(a, i)
            == bit(b, i)
}

/// A run apart from the fixed values is the same in packets that differ in those alone.
proof fn lemma_outside_fixed(
    container: ContainerModel,
    a: Seq<u8>,
    b: Seq<u8>,
    offset: int,
    width: int,
)
    requires
        differ_in_fixed(container, a, b),
        apart_from_fixed(container.fixed, container.fixed.len(), offset, width),
        0 <= offset,
        offset + width <= 8 * a.len(),
        forall|k: int|
            0 <= k < container.fixed.len() ==> (#[trigger] container.fixed[k]).bit_width >= 1,
    ensures
        same_run(a, b, offset, width),
{
    assert forall|i: int| offset <= i < offset + width implies bit(a, i) == bit(b, i) by {
        assert forall|k: int| 0 <= k < container.fixed.len() implies !((
        #[trigger] container.fixed[k]).bit_offset <= i < container.fixed[k].bit_offset
            + container.fixed[k].bit_width) by {
            assert(apart(
                offset,
                width,
                container.fixed[k].bit_offset,
                container.fixed[k].bit_width,
            ));
        }
        assert(bit(a, i) == bit(b, i));
    }
}

/// Fixed values are written by an encoder and read by nothing: packets that differ in them alone
/// decode to the same, and match the same.
pub proof fn lemma_fixed_values_are_not_read(
    container: ContainerModel,
    enums: Seq<EnumModel>,
    a: Seq<u8>,
    b: Seq<u8>,
)
    requires
        container.valid(enums),
        differ_in_fixed(container, a, b),
        forall|i: int|
            0 <= i < container.fields.len() ==> apart_from_fixed(
                container.fixed,
                container.fixed.len(),
                (#[trigger] container.fields[i]).bit_offset,
                container.fields[i].bit_width,
            ),
        forall|i: int|
            0 <= i < container.constants.len() ==> apart_from_fixed(
                container.fixed,
                container.fixed.len(),
                (#[trigger] container.constants[i]).bit_offset,
                container.constants[i].bit_width,
            ),
    ensures
        decoded(container, enums, a) == decoded(container, enums, b),
        is_match(container, a) == is_match(container, b),
{
    assert forall|k: int| 0 <= k < container.fixed.len() implies (
    #[trigger] container.fixed[k]).bit_width >= 1 by {
        assert(container.fixed[k].valid(container.len_bytes));
    }
    assert forall|i: int| 0 <= i < container.fields.len() implies same_run(
        a,
        b,
        (#[trigger] container.fields[i]).bit_offset,
        container.fields[i].bit_width,
    ) by {
        let field = container.fields[i];
        assert(field.valid(enums, container.len_bytes));
        lemma_outside_fixed(container, a, b, field.bit_offset, field.bit_width);
    }
    lemma_decode_locality(container, enums, a, b);
    assert(a.take(container.len_bytes) =~= a);
    assert(b.take(container.len_bytes) =~= b);
    assert forall|i: int| 0 <= i < container.constants.len() implies criterion_holds(
        #[trigger] container.constants[i],
        a,
    ) == criterion_holds(container.constants[i], b) by {
        let constant = container.constants[i];
        assert(constant.valid(container.len_bytes));
        lemma_outside_fixed(container, a, b, constant.bit_offset, constant.bit_width);
        lemma_number_same(a, b, constant.bit_offset, constant.bit_width as nat);
    }
}

/// A field without its calibrators.
pub open spec fn field_uncalibrated(field: FieldModel) -> FieldModel {
    FieldModel { calibration: None, contexts: Seq::empty(), ..field }
}

/// A container without calibrators.
pub open spec fn uncalibrated(container: ContainerModel) -> ContainerModel {
    ContainerModel {
        fields: container.fields.map_values(|field: FieldModel| field_uncalibrated(field)),
        ..container
    }
}

/// A calibrator changes nothing of what is encoded, of what is refused, or of what is decoded.
pub proof fn lemma_calibration_is_not_encoded(
    container: ContainerModel,
    enums: Seq<EnumModel>,
    values: Seq<Datum>,
    data: Seq<u8>,
)
    ensures
        encoded(uncalibrated(container), enums, values) == encoded(container, enums, values),
        encode_refusal(uncalibrated(container), values) == encode_refusal(container, values),
        decoded(uncalibrated(container), enums, data) == decoded(container, enums, data),
{
    lemma_filled_uncalibrated(container, enums, values, container.fields.len());
    lemma_accepted_uncalibrated(container, values, 0);
    lemma_readable_uncalibrated(container, enums, data, 0);
    if readable_from(container.fields, enums, data, 0) >= container.fields.len() {
        assert(decoded(uncalibrated(container), enums, data)->Ok_0 =~= decoded(
            container,
            enums,
            data,
        )->Ok_0);
    }
}

proof fn lemma_filled_uncalibrated(
    container: ContainerModel,
    enums: Seq<EnumModel>,
    values: Seq<Datum>,
    count: nat,
)
    requires
        count <= container.fields.len(),
    ensures
        filled(uncalibrated(container), enums, values, count) == filled(
            container,
            enums,
            values,
            count,
        ),
    decreases count,
{
    if count > 0 {
        lemma_filled_uncalibrated(container, enums, values, (count - 1) as nat);
    }
}

proof fn lemma_accepted_uncalibrated(container: ContainerModel, values: Seq<Datum>, from: nat)
    ensures
        accepted_from(uncalibrated(container).fields, values, from) == accepted_from(
            container.fields,
            values,
            from,
        ),
    decreases container.fields.len() - from,
{
    if from < container.fields.len() {
        lemma_accepted_uncalibrated(container, values, from + 1);
    }
}

proof fn lemma_readable_uncalibrated(
    container: ContainerModel,
    enums: Seq<EnumModel>,
    data: Seq<u8>,
    from: nat,
)
    ensures
        readable_from(uncalibrated(container).fields, enums, data, from) == readable_from(
            container.fields,
            enums,
            data,
            from,
        ),
    decreases container.fields.len() - from,
{
    if from < container.fields.len() {
        lemma_readable_uncalibrated(container, enums, data, from + 1);
    }
}

} // verus!
