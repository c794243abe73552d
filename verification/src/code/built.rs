//! What the code of a layout that was built from a plan does.

use vstd::prelude::*;
use vstd::string::*;

use crate::builder::layout_of;
use crate::code::choices::{
    dispatch_arms, dispatch_tests, dispatches, lemma_dispatches_what_it_should,
};
use crate::code::conditions::is_self;
use crate::code::decoding::{
    decode_code, decoded_struct, given_by, lemma_decodes_what_it_should, names_are_free,
    reader_source,
};
use crate::code::encoding::{
    effect, encode_code, encoded_effect, field_code, lemma_encodes_what_it_should,
    lemma_writes_the_field, writer_source,
};
use crate::code::fields::{decoded_code, enum_is_named, held, lemma_decodes_the_field};
use crate::code::language::{enum_named, means, run, script, source, Outcome, Scope};
use crate::code::matching::{answer, filter_source, lemma_matches_what_it_should, matches_code};
use crate::codec::{
    dispatched, field_refusal, field_written, is_match, is_packet, well_typed, Datum, Fault,
};
use crate::emit::decode::{
    data_type_text, decode_method_text, decoded_text, matches_text, DECODE_HEAD, MATCHES_HEAD,
};
use crate::emit::encode::{encode_field_text, encode_text_of, ENCODE_HEAD};
use crate::layout::{EnumModel, FieldModel};
use crate::plan::Plan;
use crate::roundtrip::{clear, lemma_field_returns, returned, stays_inside, survives};
use crate::structure::{
    labels_inside, lemma_labels_stay_inside, lemma_layout_valid, lemma_type_names_are_distinct,
    plan_fits,
};

verus! {

proof fn lemma_enum_found(enums: Seq<EnumModel>, index: int, at: int)
    requires
        0 <= at <= index < enums.len(),
        forall|i: int, j: int|
            0 <= i < j < enums.len() ==> (#[trigger] enums[i]).type_ident != (
            #[trigger] enums[j]).type_ident,
    ensures
        enum_named(enums, enums[index].type_ident, at) == Some(index),
    decreases index - at,
{
    if at < index {
        assert(enums[at].type_ident != enums[index].type_ident);
        lemma_enum_found(enums, index, at + 1);
    }
}

/// Of every container of a layout that was built, and of every sequence of bytes, the source of
/// `decode` gives what decoding gives, and the source of `matches` answers whether the bytes can be
/// a packet of the container.
pub proof fn lemma_built_code_decodes(plan: Plan, c: int, data: Seq<u8>)
    requires
        plan_fits(plan),
        layout_of(plan) is Ok,
        0 <= c < layout_of(plan)->Ok_0.containers.len(),
        names_are_free(layout_of(plan)->Ok_0.containers[c]),
    ensures
        ({
            let layout = layout_of(plan)->Ok_0;
            let container = layout.containers[c];
            &&& decode_method_text(container, layout.enums) == DECODE_HEAD@ + data_type_text(
                container.borrows,
            ) + ") -> Result<Self, DecodeError> {\n"@ + reader_source(
                decode_code(container, layout.enums),
            )
            &&& given_by(decode_code(container, layout.enums), data, layout.enums)
                == decoded_struct(container, layout.enums, data)
            &&& matches_text(container) == MATCHES_HEAD@ + filter_source(matches_code(container))
            &&& answer(matches_code(container), data) == Some(is_match(container, data))
        }),
{
    let layout = layout_of(plan)->Ok_0;
    let container = layout.containers[c];
    lemma_layout_valid(plan);
    lemma_type_names_are_distinct(plan);
    assert(container.valid(layout.enums));
    assert forall|i: int| 0 <= i < container.fields.len() implies enum_is_named(
        #[trigger] container.fields[i],
        layout.enums,
    ) by {
        assert(container.fields[i].valid(layout.enums, container.len_bytes));
        if container.fields[i].kind is Enumerated {
            lemma_enum_found(layout.enums, container.fields[i].kind->Enumerated_0, 0);
        }
    }
    lemma_decodes_what_it_should(container, layout.enums, data);
    lemma_matches_what_it_should(container, data);
}

/// Of every container of a layout that was built, of every packet of it and of every buffer, the
/// source of `encode` does to the buffer what encoding does.
pub proof fn lemma_built_code_encodes(
    plan: Plan,
    c: int,
    scope: Scope,
    values: Seq<Datum>,
    buffer: Seq<u8>,
)
    requires
        plan_fits(plan),
        layout_of(plan) is Ok,
        0 <= c < layout_of(plan)->Ok_0.containers.len(),
        layout_of(plan)->Ok_0.containers[c].len_bytes <= usize::MAX,
        is_packet(layout_of(plan)->Ok_0.containers[c], layout_of(plan)->Ok_0.enums, values),
        is_self(
            scope,
            layout_of(plan)->Ok_0.containers[c],
            layout_of(plan)->Ok_0.enums,
            values,
        ),
    ensures
        ({
            let layout = layout_of(plan)->Ok_0;
            let container = layout.containers[c];
            &&& encode_text_of(container) == ENCODE_HEAD@ + writer_source(encode_code(container))
            &&& effect(encode_code(container), scope, buffer) == encoded_effect(
                container,
                layout.enums,
                values,
                buffer,
            )
        }),
{
    let layout = layout_of(plan)->Ok_0;
    let container = layout.containers[c];
    lemma_layout_valid(plan);
    lemma_labels_stay_inside(plan);
    assert(container.valid(layout.enums));
    assert forall|i: int| 0 <= i < values.len() implies stays_inside(
        container.fields[i],
        layout.enums,
        #[trigger] values[i],
    ) by {
        assert(well_typed(container.fields[i], layout.enums, values[i]));
        assert(labels_inside(layout.containers[c].fields[i], layout.enums));
    }
    lemma_encodes_what_it_should(container, scope, values, buffer);
}

/// Of every layout that was built, and of every sequence of bytes, the source of the dispatcher
/// takes the bytes for what they are taken for by decoding.
pub proof fn lemma_built_code_dispatches(plan: Plan, data: Seq<u8>)
    requires
        layout_of(plan) is Ok,
    ensures
        ({
            let layout = layout_of(plan)->Ok_0;
            dispatches(
                layout,
                dispatch_tests(layout.containers),
                dispatch_arms(layout.containers),
                data,
            ) == Some(
                match dispatched(layout, data) {
                    Ok((chosen, values)) => Ok::<(Seq<char>, Seq<Datum>), Fault>(
                        (layout.containers[chosen].type_ident, values),
                    ),
                    Err(fault) => Err(fault),
                },
            )
        }),
{
    lemma_type_names_are_distinct(plan);
    lemma_dispatches_what_it_should(layout_of(plan)->Ok_0, data);
}

/// What the source that writes a field leaves in a packet, the source that reads the field gives
/// back, for every value that is accepted: a string from the byte at which the writer started to
/// copy it, directly behind its length where it has one, and a number out of the bits that the
/// writer put it into, in their order. A binary16 field gives back the rounded value.
pub proof fn lemma_code_reads_what_it_wrote(
    writing: Scope,
    reading: Scope,
    field: FieldModel,
    value: Datum,
)
    requires
        writing.has_bytes("out"@),
        writing.bytes("out"@).len() <= usize::MAX,
        writing.enums == reading.enums,
        field.valid(writing.enums, writing.bytes("out"@).len() as int),
        enum_is_named(field, writing.enums),
        well_typed(field, writing.enums, value),
        survives(field, writing.enums, value),
        field_refusal(field, value) is None,
        writing.fields.contains_key(field.ident),
        writing.fields[field.ident] == held(field, value),
        clear(writing.bytes("out"@), field.bit_offset, field.bit_width),
        run(field_code(field), writing) is Goes,
        reading.has_bytes("data"@),
        reading.bytes("data"@) == run(field_code(field), writing)->Goes_0.bytes("out"@),
    ensures
        script(field_code(field)) == encode_field_text(field),
        source(decoded_code(field, reading.enums)) == decoded_text(field, reading.enums),
        means(decoded_code(field, reading.enums), reading) == Outcome::Is(
            held(field, returned(field, value)),
        ),
{
    let out = writing.bytes("out"@);
    lemma_writes_the_field(writing, field, value);
    let after = field_written(field, writing.enums, value, out);
    assert(reading.bytes("data"@) == after);
    lemma_field_returns(field, writing.enums, value, out);
    lemma_decodes_the_field(reading, field);
}

} // verus!
