//! What holds of the source of every container.

use vstd::prelude::*;

use crate::emit::decode::{
    decode_field_text, decode_fields_text, decode_method_text, matches_text, names_text,
};
use crate::emit::encode::{encode_field_text, encode_fields_text, encode_text_of};
use crate::layout::{ContainerModel, EnumModel, FieldModel, FixedModel};
use crate::roundtrip::{field_uncalibrated, uncalibrated};

verus! {

/// The code that writes and reads one field is the same whether it is calibrated or not.
proof fn lemma_field_ignores_its_calibrators(field: FieldModel, enums: Seq<EnumModel>)
    ensures
        encode_field_text(field_uncalibrated(field)) == encode_field_text(field),
        decode_field_text(field_uncalibrated(field), enums) == decode_field_text(field, enums),
{
}

/// The code that writes and reads the first `count` fields is the same whether they are
/// calibrated or not.
proof fn lemma_fields_ignore_their_calibrators(
    container: ContainerModel,
    enums: Seq<EnumModel>,
    count: nat,
)
    requires
        count <= container.fields.len(),
    ensures
        encode_fields_text(uncalibrated(container).fields, count) == encode_fields_text(
            container.fields,
            count,
        ),
        decode_fields_text(uncalibrated(container).fields, enums, count) == decode_fields_text(
            container.fields,
            enums,
            count,
        ),
        names_text(uncalibrated(container).fields, count) == names_text(container.fields, count),
    decreases count,
{
    if count > 0 {
        lemma_fields_ignore_their_calibrators(container, enums, (count - 1) as nat);
        lemma_field_ignores_its_calibrators(container.fields[count - 1], enums);
    }
}

/// A calibrator adds an accessor and nothing else: `encode`, `decode` and `matches` are the same
/// source whether a container's fields are calibrated or not.
pub proof fn lemma_calibrators_leave_the_code_alone(
    container: ContainerModel,
    enums: Seq<EnumModel>,
)
    ensures
        encode_text_of(uncalibrated(container)) == encode_text_of(container),
        decode_method_text(uncalibrated(container), enums) == decode_method_text(
            container,
            enums,
        ),
        matches_text(uncalibrated(container)) == matches_text(container),
{
    lemma_fields_ignore_their_calibrators(container, enums, container.fields.len());
}

/// Fixed values are written by `encode` alone: `decode` and `matches` are the same source whatever
/// a container's fixed values are.
pub proof fn lemma_fixed_values_leave_the_reading_alone(
    container: ContainerModel,
    enums: Seq<EnumModel>,
    fixed: Seq<FixedModel>,
)
    ensures
        decode_method_text(ContainerModel { fixed, ..container }, enums) == decode_method_text(
            container,
            enums,
        ),
        matches_text(ContainerModel { fixed, ..container }) == matches_text(container),
{
}

} // verus!
