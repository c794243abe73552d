//! What a module holds.

use vstd::arithmetic::power2::*;
use vstd::prelude::*;
use vstd::string::*;

use crate::code::bits::lemma_mask_bounds;
use crate::emit::calibrate::{accessor_body, accessor_doc, accessor_text};
use crate::emit::decode::{data_type_text, decode_method_text, matches_text};
use crate::emit::encode::encode_text_of;
use crate::emit::helpers::{
    contexts_need, field_needs, fields_need, helpers_text, layout_needs, ERRORS, FIND, HALF_HELPERS,
    INTEGER_POWER, POWI, SPLINE_HELPERS,
};
use crate::emit::items::{
    accessors_text, arms_text, container_doc, container_text, decodes_text, dispatcher_text,
    enum_doc, enumeration_text, field_doc, field_type_text, from_raw_text, labels_text,
    layout_borrows, lifetime_text, packet_doc, packets_text, selectors_text, struct_fields_text,
    to_raw_text, variant_doc, variants_text, CHOSEN_HEAD, DISPATCH_HEAD, DISPATCH_TAIL,
    FROM_RAW_HEAD, LABEL_HEAD, MATCHED_HEAD, PACKET_HEAD, RAW_HEAD, SELECTED_HEAD,
};
use crate::emit::text::{doc_attribute, string_literal, trimmed};
use crate::emit::{containers_text, enums_text, module_text};
use crate::harness::{
    all_cases_text, all_owned_text, calibrated_text, calls_text, case_doc, case_name, case_text,
    criteria_text, draw_text, expectations_text, expected_text, harness_text, initialisers_text,
    owned_text, raw_bits_text, salt, scalar_text, scalars_text, separator, CASES_HEAD, PRELUDE,
};
use crate::layout::{
    ConstantModel, ContainerModel, ContextModel, EnumModel, FieldModel, KindModel, LayoutModel,
    VariantModel,
};
use crate::names::decimal_text;
use crate::plan::CalibrationModel;
use crate::report::{container_line, container_lines, summary_text};

verus! {

// ---------------------------------------------------------------------------------------
// Texts inside texts
// ---------------------------------------------------------------------------------------

/// Whether a text stands in another.
pub open spec fn occurs(piece: Seq<char>, text: Seq<char>) -> bool {
    exists|at: int|
        0 <= at && at + piece.len() <= text.len() && #[trigger] text.subrange(
            at,
            at + piece.len(),
        ) == piece
}

/// A text stands in what is made of it and more on either side.
pub proof fn lemma_occurs_between(before: Seq<char>, piece: Seq<char>, after: Seq<char>)
    ensures
        occurs(piece, before + piece + after),
{
    let text = before + piece + after;
    let at = before.len() as int;
    assert(text.subrange(at, at + piece.len()) =~= piece);
}

/// What stands in a part stands in the whole.
pub proof fn lemma_occurs_through(piece: Seq<char>, part: Seq<char>, whole: Seq<char>)
    requires
        occurs(piece, part),
        occurs(part, whole),
    ensures
        occurs(piece, whole),
{
    let i = choose|i: int|
        0 <= i && i + piece.len() <= part.len() && #[trigger] part.subrange(i, i + piece.len())
            == piece;
    let j = choose|j: int|
        0 <= j && j + part.len() <= whole.len() && #[trigger] whole.subrange(j, j + part.len())
            == part;
    assert(whole.subrange(i + j, i + j + piece.len()) =~= part.subrange(i, i + piece.len()));
}

/// What stands in a text stands in it with more in front and behind.
pub proof fn lemma_occurs_wider(
    piece: Seq<char>,
    before: Seq<char>,
    text: Seq<char>,
    after: Seq<char>,
)
    requires
        occurs(piece, text),
    ensures
        occurs(piece, before + text + after),
        occurs(piece, before + text),
        occurs(piece, text + after),
{
    lemma_occurs_between(before, text, after);
    lemma_occurs_through(piece, text, before + text + after);
    let none = Seq::<char>::empty();
    lemma_occurs_between(before, text, none);
    assert(before + text + none =~= before + text);
    lemma_occurs_through(piece, text, before + text);
    lemma_occurs_between(none, text, after);
    assert(none + text + after =~= text + after);
    lemma_occurs_through(piece, text, text + after);
}

/// A text stands in itself.
pub proof fn lemma_occurs_itself(text: Seq<char>)
    ensures
        occurs(text, text),
{
    let none = Seq::<char>::empty();
    lemma_occurs_between(none, text, none);
    assert(none + text + none =~= text);
}

// ---------------------------------------------------------------------------------------
// The items of a module
// ---------------------------------------------------------------------------------------

proof fn lemma_enum_listed(enums: Seq<EnumModel>, i: int, count: nat)
    requires
        0 <= i < count <= enums.len(),
    ensures
        occurs(enumeration_text(enums[i]), enums_text(enums, count)),
    decreases count,
{
    let none = Seq::<char>::empty();
    let before = enums_text(enums, (count - 1) as nat);
    let last = enumeration_text(enums[count - 1]);
    if i == count - 1 {
        lemma_occurs_itself(last);
        lemma_occurs_wider(last, before, last, none);
    } else {
        lemma_enum_listed(enums, i, (count - 1) as nat);
        lemma_occurs_wider(enumeration_text(enums[i]), none, before, last);
    }
}

proof fn lemma_container_listed(layout: LayoutModel, i: int, count: nat)
    requires
        0 <= i < count <= layout.containers.len(),
    ensures
        occurs(
            container_text(layout.containers[i], layout.enums),
            containers_text(layout, count),
        ),
    decreases count,
{
    let none = Seq::<char>::empty();
    let before = containers_text(layout, (count - 1) as nat);
    let last = container_text(layout.containers[count - 1], layout.enums);
    if i == count - 1 {
        lemma_occurs_itself(last);
        lemma_occurs_wider(last, before, last, none);
    } else {
        lemma_container_listed(layout, i, (count - 1) as nat);
        lemma_occurs_wider(
            container_text(layout.containers[i], layout.enums),
            none,
            before,
            last,
        );
    }
}

/// A module holds every enumeration of its layout, and the struct of every container, and the
/// dispatcher between them, whatever these hold themselves.
pub proof fn lemma_module_holds_its_items(layout: LayoutModel)
    ensures
        forall|i: int|
            0 <= i < layout.enums.len() ==> occurs(
                enumeration_text(#[trigger] layout.enums[i]),
                module_text(layout),
            ),
        forall|i: int|
            0 <= i < layout.containers.len() ==> occurs(
                container_text(#[trigger] layout.containers[i], layout.enums),
                module_text(layout),
            ),
        occurs(dispatcher_text(layout), module_text(layout)),
        occurs(helpers_text(layout), module_text(layout)),
{
    let none = Seq::<char>::empty();
    let enums = enums_text(layout.enums, layout.enums.len());
    let containers = containers_text(layout, layout.containers.len());
    let dispatcher = dispatcher_text(layout);
    let helpers = helpers_text(layout);
    assert forall|i: int| 0 <= i < layout.enums.len() implies occurs(
        enumeration_text(#[trigger] layout.enums[i]),
        module_text(layout),
    ) by {
        let one = enumeration_text(layout.enums[i]);
        lemma_enum_listed(layout.enums, i, layout.enums.len());
        lemma_occurs_wider(one, none, enums, containers);
        lemma_occurs_wider(one, none, enums + containers, dispatcher);
        lemma_occurs_wider(one, none, enums + containers + dispatcher, helpers);
    }
    assert forall|i: int| 0 <= i < layout.containers.len() implies occurs(
        container_text(#[trigger] layout.containers[i], layout.enums),
        module_text(layout),
    ) by {
        let one = container_text(layout.containers[i], layout.enums);
        lemma_container_listed(layout, i, layout.containers.len());
        lemma_occurs_wider(one, enums, containers, none);
        lemma_occurs_wider(one, none, enums + containers, dispatcher);
        lemma_occurs_wider(one, none, enums + containers + dispatcher, helpers);
    }
    lemma_occurs_between(enums + containers, dispatcher, helpers);
    lemma_occurs_between(enums + containers + dispatcher, helpers, none);
    assert(enums + containers + dispatcher + helpers + none =~= module_text(layout));
}

proof fn lemma_accessor_listed(fields: Seq<FieldModel>, i: int, count: nat)
    requires
        0 <= i < count <= fields.len(),
    ensures
        occurs(accessor_text(fields[i]), accessors_text(fields, count)),
    decreases count,
{
    let none = Seq::<char>::empty();
    let before = accessors_text(fields, (count - 1) as nat);
    let last = accessor_text(fields[count - 1]);
    if i == count - 1 {
        lemma_occurs_itself(last);
        lemma_occurs_wider(last, before, last, none);
    } else {
        lemma_accessor_listed(fields, i, (count - 1) as nat);
        lemma_occurs_wider(accessor_text(fields[i]), none, before, last);
    }
}

/// The declaration of a field.
pub open spec fn declaration(field: FieldModel, enums: Seq<EnumModel>) -> Seq<char> {
    "pub "@ + field.ident + ": "@ + field_type_text(field, enums) + ",\n"@
}

proof fn lemma_field_listed(fields: Seq<FieldModel>, enums: Seq<EnumModel>, i: int, count: nat)
    requires
        0 <= i < count <= fields.len(),
    ensures
        occurs(declaration(fields[i], enums), struct_fields_text(fields, enums, count)),
    decreases count,
{
    let none = Seq::<char>::empty();
    let before = struct_fields_text(fields, enums, (count - 1) as nat);
    let field = fields[count - 1];
    let doc = doc_attribute(field_doc(field));
    let last = declaration(field, enums);
    assert(struct_fields_text(fields, enums, count) =~= before + doc + last);
    if i == count - 1 {
        lemma_occurs_between(before + doc, last, none);
        assert(before + doc + last + none =~= before + doc + last);
    } else {
        lemma_field_listed(fields, enums, i, (count - 1) as nat);
        lemma_occurs_wider(declaration(fields[i], enums), none, before, doc + last);
        assert(before + (doc + last) =~= before + doc + last);
    }
}

/// The struct of a container declares every field of it with its type, and has its `encode`, its
/// `decode`, its `matches` and the accessor of every field that has one.
pub proof fn lemma_struct_holds_its_members(container: ContainerModel, enums: Seq<EnumModel>)
    ensures
        occurs(encode_text_of(container), container_text(container, enums)),
        occurs(decode_method_text(container, enums), container_text(container, enums)),
        occurs(matches_text(container), container_text(container, enums)),
        forall|i: int|
            0 <= i < container.fields.len() ==> occurs(
                declaration(#[trigger] container.fields[i], enums),
                container_text(container, enums),
            ),
        forall|i: int|
            0 <= i < container.fields.len() ==> occurs(
                accessor_text(#[trigger] container.fields[i]),
                container_text(container, enums),
            ),
{
    reveal(container_text);
    let whole = container_text(container, enums);
    let fields = struct_fields_text(container.fields, enums, container.fields.len());
    let encode = encode_text_of(container);
    let decode = decode_method_text(container, enums);
    let tests = matches_text(container);
    let accessors = accessors_text(container.fields, container.fields.len());
    let lifetime = lifetime_text(container.borrows);
    let front = doc_attribute(container_doc(container))
        + "#[derive(Clone, Copy, PartialEq, Debug)]\npub struct "@ + container.type_ident + lifetime
        + " {\n"@;
    let behind = front + fields + "}\nimpl"@ + lifetime + " "@ + container.type_ident + lifetime
        + " {\n#[doc = r\" Encoded size, in bytes.\"]\npub const LEN: usize = "@ + decimal_text(
        container.len_bytes as nat,
    ) + ";\n"@;
    assert(whole == behind + encode + decode + tests + accessors + "}\n"@);
    lemma_occurs_last(front, fields);
    lemma_occurs_more(fields, front + fields, "}\nimpl"@, lifetime, " "@, container.type_ident);
    lemma_occurs_more(
        fields,
        front + fields + "}\nimpl"@ + lifetime + " "@ + container.type_ident,
        lifetime,
        " {\n#[doc = r\" Encoded size, in bytes.\"]\npub const LEN: usize = "@,
        decimal_text(container.len_bytes as nat),
        ";\n"@,
    );
    lemma_occurs_four(behind, encode, decode, tests, accessors, "}\n"@);
    lemma_occurs_more(fields, behind, encode, decode, tests, accessors);
    lemma_occurs_wider(
        fields,
        Seq::empty(),
        behind + encode + decode + tests + accessors,
        "}\n"@,
    );
    assert forall|i: int| 0 <= i < container.fields.len() implies occurs(
        declaration(#[trigger] container.fields[i], enums),
        whole,
    ) by {
        lemma_field_listed(container.fields, enums, i, container.fields.len());
        lemma_occurs_through(declaration(container.fields[i], enums), fields, whole);
    }
    assert forall|i: int| 0 <= i < container.fields.len() implies occurs(
        accessor_text(#[trigger] container.fields[i]),
        whole,
    ) by {
        lemma_accessor_listed(container.fields, i, container.fields.len());
        lemma_occurs_through(accessor_text(container.fields[i]), accessors, whole);
    }
}

/// A text stands at the end of what ends in it.
pub proof fn lemma_occurs_last(before: Seq<char>, text: Seq<char>)
    ensures
        occurs(text, before + text),
{
    lemma_occurs_itself(text);
    lemma_occurs_wider(text, before, text, Seq::empty());
}

proof fn lemma_occurs_more(
    piece: Seq<char>,
    text: Seq<char>,
    a: Seq<char>,
    b: Seq<char>,
    c: Seq<char>,
    d: Seq<char>,
)
    requires
        occurs(piece, text),
    ensures
        occurs(piece, text + a + b + c + d),
{
    let none = Seq::<char>::empty();
    lemma_occurs_wider(piece, none, text, a);
    lemma_occurs_wider(piece, none, text + a, b);
    lemma_occurs_wider(piece, none, text + a + b, c);
    lemma_occurs_wider(piece, none, text + a + b + c, d);
}

proof fn lemma_occurs_four(
    text: Seq<char>,
    a: Seq<char>,
    b: Seq<char>,
    c: Seq<char>,
    d: Seq<char>,
    e: Seq<char>,
)
    ensures
        occurs(a, text + a + b + c + d + e),
        occurs(b, text + a + b + c + d + e),
        occurs(c, text + a + b + c + d + e),
        occurs(d, text + a + b + c + d + e),
{
    let none = Seq::<char>::empty();
    lemma_occurs_last(text, a);
    lemma_occurs_more(a, text + a, b, c, d, e);
    lemma_occurs_last(text + a, b);
    lemma_occurs_wider(b, none, text + a + b, c);
    lemma_occurs_wider(b, none, text + a + b + c, d);
    lemma_occurs_wider(b, none, text + a + b + c + d, e);
    lemma_occurs_last(text + a + b, c);
    lemma_occurs_wider(c, none, text + a + b + c, d);
    lemma_occurs_wider(c, none, text + a + b + c + d, e);
    lemma_occurs_last(text + a + b + c, d);
    lemma_occurs_wider(d, none, text + a + b + c + d, e);
}

// ---------------------------------------------------------------------------------------
// The parts of an item
// ---------------------------------------------------------------------------------------

/// The first `count` members of an item, each behind its documentation: `#[doc = ".."] m,`.
pub open spec fn members_source(
    docs: Seq<Seq<char>>,
    members: Seq<Seq<char>>,
    count: nat,
) -> Seq<char>
    decreases count,
{
    if count == 0 {
        Seq::empty()
    } else {
        members_source(docs, members, (count - 1) as nat) + doc_attribute(docs[count - 1])
            + members[count - 1] + ",\n"@
    }
}

proof fn lemma_variants_declared(variants: Seq<VariantModel>, count: nat)
    requires
        count <= variants.len(),
    ensures
        variants_text(variants, count) == members_source(
            Seq::new(variants.len(), |k: int| variant_doc(variants[k].label)),
            Seq::new(variants.len(), |k: int| variants[k].ident),
            count,
        ),
    decreases count,
{
    if count > 0 {
        lemma_variants_declared(variants, (count - 1) as nat);
    }
}

/// An enum declares a variant for every label, in order, documents each by the label, and holds the
/// arms that give the variants their values and labels and find them by their values.
pub proof fn lemma_enum_holds_its_variants(definition: EnumModel)
    ensures
        ({
            let variants = definition.variants;
            let count = variants.len();
            &&& occurs(
                "pub enum "@ + definition.type_ident + " {\n"@ + members_source(
                    Seq::new(count, |k: int| variant_doc(variants[k].label)),
                    Seq::new(count, |k: int| variants[k].ident),
                    count,
                ) + "}\n"@,
                enumeration_text(definition),
            )
            &&& forall|k: int|
                0 <= k < count ==> occurs(
                    (#[trigger] variants[k]).label,
                    variant_doc(variants[k].label),
                )
            &&& occurs(
                RAW_HEAD@ + to_raw_text(variants, count) + FROM_RAW_HEAD@ + from_raw_text(
                    variants,
                    count,
                ) + LABEL_HEAD@ + labels_text(variants, count) + "        }\n    }\n}\n"@,
                enumeration_text(definition),
            )
        }),
{
    let none = Seq::<char>::empty();
    let variants = definition.variants;
    let count = variants.len();
    let name = definition.type_ident;
    lemma_variants_declared(variants, count);
    let doc = doc_attribute(enum_doc(count));
    let list = variants_text(variants, count);
    let raw = to_raw_text(variants, count);
    let from = from_raw_text(variants, count);
    let labels = labels_text(variants, count);
    let tail = "        }\n    }\n}\n"@;
    let declared = "pub enum "@ + name + " {\n"@ + list + "}\n"@;
    let arms = RAW_HEAD@ + raw + FROM_RAW_HEAD@ + from + LABEL_HEAD@ + labels + tail;
    let front = doc + "#[derive(Clone, Copy, PartialEq, Eq, Debug)]\n"@;
    let middle = "impl "@ + name + " {\n"@;
    lemma_enum_parts(doc, name, list, raw, from, labels);
    lemma_occurs_between(front, declared, middle + arms);
    assert(front + declared + (middle + arms) =~= front + declared + middle + arms);
    lemma_occurs_last(front + declared + middle, arms);
    assert forall|k: int| 0 <= k < count implies occurs(
        (#[trigger] variants[k]).label,
        variant_doc(variants[k].label),
    ) by {
        lemma_occurs_between("XTCE label `"@, variants[k].label, "`."@);
    }
}

proof fn lemma_enum_parts(
    doc: Seq<char>,
    name: Seq<char>,
    list: Seq<char>,
    raw: Seq<char>,
    from: Seq<char>,
    labels: Seq<char>,
)
    ensures
        doc + "#[derive(Clone, Copy, PartialEq, Eq, Debug)]\npub enum "@ + name + " {\n"@ + list
            + "}\nimpl "@ + name + " {\n"@ + RAW_HEAD@ + raw + FROM_RAW_HEAD@ + from + LABEL_HEAD@
            + labels + "        }\n    }\n}\n"@ == (doc
            + "#[derive(Clone, Copy, PartialEq, Eq, Debug)]\n"@) + ("pub enum "@ + name + " {\n"@
            + list + "}\n"@) + ("impl "@ + name + " {\n"@) + (RAW_HEAD@ + raw + FROM_RAW_HEAD@
            + from + LABEL_HEAD@ + labels + "        }\n    }\n}\n"@),
{
    reveal_strlit("#[derive(Clone, Copy, PartialEq, Eq, Debug)]\npub enum ");
    reveal_strlit("#[derive(Clone, Copy, PartialEq, Eq, Debug)]\n");
    reveal_strlit("pub enum ");
    reveal_strlit("}\nimpl ");
    reveal_strlit("}\n");
    reveal_strlit("impl ");
    assert("#[derive(Clone, Copy, PartialEq, Eq, Debug)]\npub enum "@
        =~= "#[derive(Clone, Copy, PartialEq, Eq, Debug)]\n"@ + "pub enum "@);
    assert("}\nimpl "@ =~= "}\n"@ + "impl "@);
    let derive = "#[derive(Clone, Copy, PartialEq, Eq, Debug)]\n"@;
    let tail = "        }\n    }\n}\n"@;
    assert(doc + (derive + "pub enum "@) + name + " {\n"@ + list + ("}\n"@ + "impl "@) + name
        + " {\n"@ + RAW_HEAD@ + raw + FROM_RAW_HEAD@ + from + LABEL_HEAD@ + labels + tail =~= (doc
        + derive) + ("pub enum "@ + name + " {\n"@ + list + "}\n"@) + ("impl "@ + name + " {\n"@)
        + (RAW_HEAD@ + raw + FROM_RAW_HEAD@ + from + LABEL_HEAD@ + labels + tail));
}

/// The accessor of a field that has a calibrator is named by the field, in the name by which a
/// harness calls it, and holds its computation; a field without one has no accessor.
pub proof fn lemma_accessor_holds_its_computation(field: FieldModel)
    ensures
        field.calibration matches Some(calibration) ==> occurs(
            trimmed(field.ident) + "_calibrated(&self) -> Result<f64, DecodeError> {\n"@
                + accessor_body(field, calibration) + "}\n"@,
            accessor_text(field),
        ),
        field.calibration is None ==> accessor_text(field).len() == 0,
{
    reveal_strlit("");
    if field.calibration is Some {
        let calibration = field.calibration->Some_0;
        let whole = accessor_text(field);
        let head = "_calibrated(&self) -> Result<f64, DecodeError> {\n"@;
        let body = accessor_body(field, calibration);
        let own = trimmed(field.ident) + head + body + "}\n"@;
        let front = doc_attribute(accessor_doc(field))
            + "#[doc = r\"\"]\n#[doc = r\" # Errors\"]\n#[doc = r\"\"]\n#[doc = r\" [`DecodeError::Calibration`] if a spline is asked for a value outside its points\"]\n#[doc = r\" and the definition does not allow extrapolation. A polynomial never fails.\"]\npub fn "@;
        assert(whole == front + trimmed(field.ident) + head + body + "}\n"@);
        lemma_occurs_last(front, own);
        lemma_regroup_four(front, trimmed(field.ident), head, body, "}\n"@);
    }
}

proof fn lemma_regroup_four(
    x: Seq<char>,
    a: Seq<char>,
    b: Seq<char>,
    c: Seq<char>,
    d: Seq<char>,
)
    ensures
        x + (a + b + c + d) == x + a + b + c + d,
{
    assert(x + (a + b + c + d) =~= x + a + b + c + d);
}

/// The first `count` variants: `V(T),`, each behind its documentation, or `V,`.
pub open spec fn packet_members(containers: Seq<ContainerModel>) -> Seq<Seq<char>> {
    Seq::new(
        containers.len(),
        |i: int|
            containers[i].type_ident + "("@ + containers[i].type_ident + lifetime_text(
                containers[i].borrows,
            ) + ")"@,
    )
}

proof fn lemma_packets_declared(containers: Seq<ContainerModel>, count: nat)
    requires
        count <= containers.len(),
    ensures
        packets_text(containers, count) == members_source(
            Seq::new(containers.len(), |i: int| packet_doc(containers[i].xtce_name)),
            packet_members(containers),
            count,
        ),
    decreases count,
{
    if count > 0 {
        lemma_packets_declared(containers, (count - 1) as nat);
        let one = containers[count - 1];
        let before = packets_text(containers, (count - 1) as nat);
        let doc = doc_attribute(packet_doc(one.xtce_name));
        let lifetime = lifetime_text(one.borrows);
        reveal_strlit(")");
        reveal_strlit(",\n");
        reveal_strlit("),\n");
        assert("),\n"@ =~= ")"@ + ",\n"@);
        assert(before + doc + one.type_ident + "("@ + one.type_ident + lifetime + (")"@ + ",\n"@)
            =~= before + doc + (one.type_ident + "("@ + one.type_ident + lifetime + ")"@)
            + ",\n"@);
    }
}

/// The dispatcher has a variant of `Packet` for every container, which holds the container's
/// struct, and its tests and its arms in their order, whatever the containers are.
pub proof fn lemma_dispatcher_holds_its_arms(layout: LayoutModel)
    ensures
        ({
            let containers = layout.containers;
            let count = containers.len();
            let lifetime = lifetime_text(layout_borrows(layout));
            dispatcher_text(layout) == PACKET_HEAD@ + lifetime + " {\n"@ + members_source(
                Seq::new(count, |i: int| packet_doc(containers[i].xtce_name)),
                packet_members(containers),
                count,
            ) + DISPATCH_HEAD@ + lifetime + "(data: "@ + data_type_text(layout_borrows(layout))
                + ") -> Result<Packet"@ + lifetime + SELECTED_HEAD@ + selectors_text(
                containers,
                count,
            ) + MATCHED_HEAD@ + arms_text(containers, count) + CHOSEN_HEAD@ + decodes_text(
                containers,
                count,
            ) + DISPATCH_TAIL@
        }),
        forall|i: int|
            0 <= i < layout.containers.len() ==> occurs(
                (#[trigger] layout.containers[i]).type_ident + ",\n"@,
                selectors_text(layout.containers, layout.containers.len()),
            ),
{
    let containers = layout.containers;
    lemma_packets_declared(containers, containers.len());
    assert forall|i: int| 0 <= i < containers.len() implies occurs(
        (#[trigger] layout.containers[i]).type_ident + ",\n"@,
        selectors_text(containers, containers.len()),
    ) by {
        lemma_selector_listed(containers, i, containers.len());
    }
}

proof fn lemma_selector_listed(containers: Seq<ContainerModel>, i: int, count: nat)
    requires
        0 <= i < count <= containers.len(),
    ensures
        occurs(containers[i].type_ident + ",\n"@, selectors_text(containers, count)),
    decreases count,
{
    let none = Seq::<char>::empty();
    let before = selectors_text(containers, (count - 1) as nat);
    let last = containers[count - 1].type_ident + ",\n"@;
    assert(selectors_text(containers, count) =~= before + last);
    if i == count - 1 {
        lemma_occurs_last(before, last);
    } else {
        lemma_selector_listed(containers, i, (count - 1) as nat);
        lemma_occurs_wider(containers[i].type_ident + ",\n"@, none, before, last);
    }
}

/// `Packet` has a lifetime exactly where the struct of some container has one.
pub proof fn lemma_packet_borrows_where_a_struct_does(layout: LayoutModel)
    ensures
        occurs("'a"@, lifetime_text(layout_borrows(layout))) <==> exists|i: int|
            0 <= i < layout.containers.len() && occurs(
                "'a"@,
                lifetime_text((#[trigger] layout.containers[i]).borrows),
            ),
{
    let none = Seq::<FieldModel>::empty();
    let one = FieldModel { kind: KindModel::Binary, ..arbitrary() };
    assert(seq![one][0].kind.borrows());
    lemma_lifetime_where_something_is_borrowed(seq![one], Seq::empty(), true);
    lemma_lifetime_where_something_is_borrowed(none, Seq::empty(), false);
    if layout_borrows(layout) {
        let i = choose|i: int|
            0 <= i < layout.containers.len() && (#[trigger] layout.containers[i]).borrows;
        assert(layout.containers[i].borrows);
    }
}

/// A type has a lifetime exactly where one of its fields has one: where the type of the field is
/// that of something borrowed.
pub proof fn lemma_lifetime_where_something_is_borrowed(
    fields: Seq<FieldModel>,
    enums: Seq<EnumModel>,
    borrows: bool,
)
    requires
        borrows <==> exists|i: int| 0 <= i < fields.len() && (#[trigger] fields[i]).kind.borrows(),
    ensures
        occurs("'a"@, lifetime_text(borrows)) <==> borrows,
        occurs("'a"@, data_type_text(borrows)) <==> borrows,
        forall|i: int|
            0 <= i < fields.len() && (#[trigger] fields[i]).kind.borrows() ==> occurs(
                "'a"@,
                field_type_text(fields[i], enums),
            ),
{
    reveal_strlit("'a");
    reveal_strlit("");
    reveal_strlit("< 'a> ");
    reveal_strlit("& 'a [u8]");
    reveal_strlit("& 'a str");
    reveal_strlit("&[u8]");
    let mark = "'a"@;
    assert(mark.len() == 2 && mark[0] == '\'');
    assert("< 'a> "@.subrange(2int, 2int + mark.len()) =~= mark);
    assert("& 'a [u8]"@.subrange(2int, 2int + mark.len()) =~= mark);
    assert("& 'a str"@.subrange(2int, 2int + mark.len()) =~= mark);
    let plain = "&[u8]"@;
    assert(plain.len() == 5);
    assert(plain[0] == '&' && plain[1] == '[' && plain[2] == 'u' && plain[3] == '8' && plain[4]
        == ']');
    assert forall|at: int| 0 <= at && at + mark.len() <= plain.len() implies #[trigger]
    plain.subrange(at, at + mark.len()) != mark by {
        assert(plain.subrange(at, at + mark.len())[0] == plain[at]);
    }
    assert(!occurs(mark, plain));
    assert(!occurs(mark, ""@));
    assert(occurs(mark, "< 'a> "@));
    assert(occurs(mark, "& 'a [u8]"@));
    assert(occurs(mark, "& 'a str"@));
}

// ---------------------------------------------------------------------------------------
// Shared parts
// ---------------------------------------------------------------------------------------

/// Whether a field can apply a calibrator.
pub open spec fn can_apply(field: FieldModel, calibration: CalibrationModel) -> bool {
    ||| field.calibration == Some(calibration)
    ||| exists|k: int|
        0 <= k < field.contexts.len() && (#[trigger] field.contexts[k]).calibration == calibration
}

/// Whether a field is coded as a binary16.
pub open spec fn is_half(field: FieldModel) -> bool {
    field.kind is Float16
}

/// Whether a field is a terminated string.
pub open spec fn is_terminated(field: FieldModel) -> bool {
    field.kind matches KindModel::Text(_, delimiter) && delimiter is TerminationChar
}

/// Whether a field can apply a polynomial.
pub open spec fn has_polynomial(field: FieldModel) -> bool {
    exists|calibration: CalibrationModel|
        calibration is Polynomial && #[trigger] can_apply(field, calibration)
}

/// Whether a field can apply a polynomial to a whole number.
pub open spec fn has_exact_polynomial(field: FieldModel) -> bool {
    has_polynomial(field) && (field.kind is Unsigned || field.kind is Signed)
}

/// Whether a field can apply a spline.
pub open spec fn has_spline(field: FieldModel) -> bool {
    exists|calibration: CalibrationModel|
        calibration is Spline && #[trigger] can_apply(field, calibration)
}

/// Whether something holds of a field of a layout.
pub open spec fn some_field(layout: LayoutModel, holds: spec_fn(FieldModel) -> bool) -> bool {
    exists|c: int, f: int|
        0 <= c < layout.containers.len() && 0 <= f < layout.containers[c].fields.len() && holds(
            #[trigger] layout.containers[c].fields[f],
        )
}

proof fn lemma_contexts_need(kind: KindModel, contexts: Seq<ContextModel>, count: nat)
    requires
        count <= contexts.len(),
    ensures
        ({
            let needs = contexts_need(kind, contexts, count);
            let whole = kind is Unsigned || kind is Signed;
            let polynomial = exists|k: int|
                0 <= k < count && (#[trigger] contexts[k]).calibration is Polynomial;
            let spline = exists|k: int|
                0 <= k < count && (#[trigger] contexts[k]).calibration is Spline;
            &&& !needs.half && !needs.find
            &&& needs.powi == polynomial
            &&& needs.power == (polynomial && whole)
            &&& needs.spline == spline
        }),
    decreases count,
{
    if count > 0 {
        lemma_contexts_need(kind, contexts, (count - 1) as nat);
        let needs = contexts_need(kind, contexts, (count - 1) as nat);
        let last = contexts[count - 1].calibration;
        if needs.powi {
            let k = choose|k: int|
                0 <= k < count - 1 && (#[trigger] contexts[k]).calibration is Polynomial;
            assert(contexts[k].calibration is Polynomial);
        }
        if needs.spline {
            let k = choose|k: int|
                0 <= k < count - 1 && (#[trigger] contexts[k]).calibration is Spline;
            assert(contexts[k].calibration is Spline);
        }
        if last is Polynomial {
            assert(contexts[count - 1].calibration is Polynomial);
        } else {
            assert(contexts[count - 1].calibration is Spline);
        }
    }
}

proof fn lemma_field_needs(field: FieldModel)
    ensures
        ({
            let needs = field_needs(field);
            &&& needs.half == is_half(field)
            &&& needs.find == is_terminated(field)
            &&& needs.powi == has_polynomial(field)
            &&& needs.power == has_exact_polynomial(field)
            &&& needs.spline == has_spline(field)
        }),
{
    lemma_contexts_need(field.kind, field.contexts, field.contexts.len());
    let needs = contexts_need(field.kind, field.contexts, field.contexts.len());
    if needs.powi {
        let k = choose|k: int|
            0 <= k < field.contexts.len() && (
            #[trigger] field.contexts[k]).calibration is Polynomial;
        assert(can_apply(field, field.contexts[k].calibration));
    }
    if needs.spline {
        let k = choose|k: int|
            0 <= k < field.contexts.len() && (#[trigger] field.contexts[k]).calibration is Spline;
        assert(can_apply(field, field.contexts[k].calibration));
    }
    if field.calibration is Some {
        assert(can_apply(field, field.calibration->Some_0));
    }
}

proof fn lemma_fields_need(fields: Seq<FieldModel>, count: nat)
    requires
        count <= fields.len(),
    ensures
        ({
            let needs = fields_need(fields, count);
            &&& needs.half == exists|f: int| 0 <= f < count && is_half(#[trigger] fields[f])
            &&& needs.find == exists|f: int| 0 <= f < count && is_terminated(#[trigger] fields[f])
            &&& needs.powi == exists|f: int| 0 <= f < count && has_polynomial(#[trigger] fields[f])
            &&& needs.power == exists|f: int|
                0 <= f < count && has_exact_polynomial(#[trigger] fields[f])
            &&& needs.spline == exists|f: int| 0 <= f < count && has_spline(#[trigger] fields[f])
        }),
    decreases count,
{
    if count > 0 {
        lemma_fields_need(fields, (count - 1) as nat);
        lemma_field_needs(fields[count - 1]);
        let before = fields_need(fields, (count - 1) as nat);
        if before.half {
            let f = choose|f: int| 0 <= f < count - 1 && is_half(#[trigger] fields[f]);
            assert(is_half(fields[f]));
        }
        if before.find {
            let f = choose|f: int| 0 <= f < count - 1 && is_terminated(#[trigger] fields[f]);
            assert(is_terminated(fields[f]));
        }
        if before.powi {
            let f = choose|f: int| 0 <= f < count - 1 && has_polynomial(#[trigger] fields[f]);
            assert(has_polynomial(fields[f]));
        }
        if before.power {
            let f = choose|f: int|
                0 <= f < count - 1 && has_exact_polynomial(#[trigger] fields[f]);
            assert(has_exact_polynomial(fields[f]));
        }
        if before.spline {
            let f = choose|f: int| 0 <= f < count - 1 && has_spline(#[trigger] fields[f]);
            assert(has_spline(fields[f]));
        }
    }
}

/// Whether something holds of a field of one of the first `count` containers.
spec fn some_field_before(
    layout: LayoutModel,
    count: nat,
    holds: spec_fn(FieldModel) -> bool,
) -> bool {
    exists|c: int, f: int|
        0 <= c < count && 0 <= f < layout.containers[c].fields.len() && holds(
            #[trigger] layout.containers[c].fields[f],
        )
}

proof fn lemma_one_more_container(
    layout: LayoutModel,
    count: nat,
    holds: spec_fn(FieldModel) -> bool,
)
    requires
        1 <= count <= layout.containers.len(),
    ensures
        some_field_before(layout, count, holds) == (some_field_before(
            layout,
            (count - 1) as nat,
            holds,
        ) || exists|f: int|
            0 <= f < layout.containers[count - 1].fields.len() && holds(
                #[trigger] layout.containers[count - 1].fields[f],
            )),
{
    if some_field_before(layout, (count - 1) as nat, holds) {
        let (c, f) = choose|c: int, f: int|
            0 <= c < count - 1 && 0 <= f < layout.containers[c].fields.len() && holds(
                #[trigger] layout.containers[c].fields[f],
            );
        assert(holds(layout.containers[c].fields[f]));
    }
    if exists|f: int|
        0 <= f < layout.containers[count - 1].fields.len() && holds(
            #[trigger] layout.containers[count - 1].fields[f],
        ) {
        let f = choose|f: int|
            0 <= f < layout.containers[count - 1].fields.len() && holds(
                #[trigger] layout.containers[count - 1].fields[f],
            );
        assert(holds(layout.containers[count - 1].fields[f]));
    }
}

proof fn lemma_layout_needs(layout: LayoutModel, count: nat)
    requires
        count <= layout.containers.len(),
    ensures
        ({
            let needs = layout_needs(layout, count);
            &&& needs.half == some_field_before(layout, count, |f: FieldModel| is_half(f))
            &&& needs.find == some_field_before(layout, count, |f: FieldModel| is_terminated(f))
            &&& needs.powi == some_field_before(layout, count, |f: FieldModel| has_polynomial(f))
            &&& needs.power == some_field_before(
                layout,
                count,
                |f: FieldModel| has_exact_polynomial(f),
            )
            &&& needs.spline == some_field_before(layout, count, |f: FieldModel| has_spline(f))
        }),
    decreases count,
{
    if count > 0 {
        let fields = layout.containers[count - 1].fields;
        lemma_layout_needs(layout, (count - 1) as nat);
        lemma_fields_need(fields, fields.len());
        lemma_one_more_container(layout, count, |f: FieldModel| is_half(f));
        lemma_one_more_container(layout, count, |f: FieldModel| is_terminated(f));
        lemma_one_more_container(layout, count, |f: FieldModel| has_polynomial(f));
        lemma_one_more_container(layout, count, |f: FieldModel| has_exact_polynomial(f));
        lemma_one_more_container(layout, count, |f: FieldModel| has_spline(f));
    }
}

/// A part, where it is called.
pub open spec fn where_called(called: bool, part: Seq<char>) -> Seq<char> {
    if called {
        part
    } else {
        Seq::empty()
    }
}

/// A module holds the error types, and of the shared functions exactly those that its code calls:
/// the conversions of a binary16 where a field is one, the search for a terminator where a string
/// has one, and a power, an exact power or a spline where a calibrator of some field, the default
/// or one of a context, computes with it.
pub proof fn lemma_module_holds_what_it_calls(layout: LayoutModel)
    ensures
        helpers_text(layout) == ERRORS@ + where_called(
            some_field(layout, |f: FieldModel| is_half(f)),
            HALF_HELPERS@,
        ) + where_called(some_field(layout, |f: FieldModel| is_terminated(f)), FIND@)
            + where_called(some_field(layout, |f: FieldModel| has_polynomial(f)), POWI@)
            + where_called(
            some_field(layout, |f: FieldModel| has_exact_polynomial(f)),
            INTEGER_POWER@,
        ) + where_called(some_field(layout, |f: FieldModel| has_spline(f)), SPLINE_HELPERS@),
{
    lemma_layout_needs(layout, layout.containers.len());
    reveal_strlit("");
    assert(""@ =~= Seq::<char>::empty());
}

// ---------------------------------------------------------------------------------------
// What is said of a layout
// ---------------------------------------------------------------------------------------

proof fn lemma_line_listed(containers: Seq<ContainerModel>, i: int, count: nat)
    requires
        0 <= i < count <= containers.len(),
    ensures
        occurs(container_line(containers[i]), container_lines(containers, count)),
    decreases count,
{
    let none = Seq::<char>::empty();
    let before = container_lines(containers, (count - 1) as nat);
    let last = container_line(containers[count - 1]);
    if i == count - 1 {
        lemma_occurs_itself(last);
        lemma_occurs_wider(last, before, last, none);
    } else {
        lemma_line_listed(containers, i, (count - 1) as nat);
        lemma_occurs_wider(container_line(containers[i]), none, before, last);
    }
}

/// The summary of a layout has a line for every container.
pub proof fn lemma_summary_lists_every_container(layout: LayoutModel, definition: Seq<char>)
    ensures
        forall|i: int|
            0 <= i < layout.containers.len() ==> occurs(
                container_line(#[trigger] layout.containers[i]),
                summary_text(layout, definition),
            ),
{
    let lines = container_lines(layout.containers, layout.containers.len());
    let front = definition + "\n"@ + "  rooted at "@ + layout.root_name + ": "@ + decimal_text(
        layout.containers.len(),
    ) + " container(s), "@ + decimal_text(layout.enums.len()) + " enumeration(s)\n"@;
    assert forall|i: int| 0 <= i < layout.containers.len() implies occurs(
        container_line(#[trigger] layout.containers[i]),
        summary_text(layout, definition),
    ) by {
        lemma_line_listed(layout.containers, i, layout.containers.len());
        lemma_occurs_wider(container_line(layout.containers[i]), front, lines, Seq::empty());
    }
}

// ---------------------------------------------------------------------------------------
// Harnesses
// ---------------------------------------------------------------------------------------

/// The statement that draws a number, a flag or a label for a field.
pub open spec fn drawing(field: FieldModel, enums: Seq<EnumModel>, path: Seq<char>) -> Seq<char> {
    "let "@ + field.ident + " = "@ + draw_text(field.bit_width, field.kind, enums, path) + ";\n"@
}

/// The initialiser of a field, by reference where the field borrows.
pub open spec fn initialiser(field: FieldModel) -> Seq<char> {
    field.ident + if field.kind.borrows() {
        ": &"@
    } else {
        ": "@
    } + field.ident + ",\n"@
}

proof fn lemma_drawn(
    fields: Seq<FieldModel>,
    enums: Seq<EnumModel>,
    path: Seq<char>,
    i: int,
    count: nat,
)
    requires
        0 <= i < count <= fields.len(),
    ensures
        fields[i].kind.borrows() ==> occurs(owned_text(fields[i]), all_owned_text(fields, count)),
        !fields[i].kind.borrows() ==> occurs(
            drawing(fields[i], enums, path),
            scalars_text(fields, enums, path, count),
        ),
        occurs(initialiser(fields[i]), initialisers_text(fields, count)),
    decreases count,
{
    let none = Seq::<char>::empty();
    let fewer = (count - 1) as nat;
    let last = fields[count - 1];
    let owned = all_owned_text(fields, fewer);
    let scalars = scalars_text(fields, enums, path, fewer);
    let given = initialisers_text(fields, fewer);
    assert(initialisers_text(fields, count) =~= given + initialiser(last));
    if i == count - 1 {
        lemma_occurs_last(owned, owned_text(last));
        lemma_occurs_last(scalars, scalar_text(last, enums, path));
        lemma_occurs_last(given, initialiser(last));
    } else {
        lemma_drawn(fields, enums, path, i, fewer);
        if fields[i].kind.borrows() {
            lemma_occurs_wider(owned_text(fields[i]), none, owned, owned_text(last));
        } else {
            lemma_occurs_wider(
                drawing(fields[i], enums, path),
                none,
                scalars,
                scalar_text(last, enums, path),
            );
        }
        lemma_occurs_wider(initialiser(fields[i]), none, given, initialiser(last));
    }
}

/// What is expected of a field without a calibrator.
pub open spec fn expectation(field: FieldModel) -> Seq<char> {
    "("@ + string_literal(field.xtce_name) + ", "@ + expected_text(field) + ")"@
}

/// What is expected of a field with a calibrator: its raw value, and what its accessor gives.
pub open spec fn calibrated_expectation(field: FieldModel) -> Seq<char> {
    "("@ + string_literal(field.xtce_name) + ", "@ + raw_bits_text(field) + ", packet."@ + trimmed(
        field.ident,
    ) + "_calibrated().ok())"@
}

/// What is expected of a criterion: the value that the ground compares, and all the bits of its
/// width.
pub open spec fn criterion_expectation(constant: ConstantModel) -> Seq<char> {
    "("@ + string_literal(constant.xtce_name) + ", "@ + decimal_text(constant.reported as nat)
        + ", "@ + decimal_text((pow2(constant.bit_width as nat) - 1) as nat) + ")"@
}

proof fn lemma_expected(fields: Seq<FieldModel>, i: int, count: nat)
    requires
        0 <= i < count <= fields.len(),
    ensures
        fields[i].calibration is None ==> occurs(
            expectation(fields[i]),
            expectations_text(fields, count),
        ),
        fields[i].calibration is Some ==> occurs(
            calibrated_expectation(fields[i]),
            calibrated_text(fields, count),
        ),
    decreases count,
{
    let none = Seq::<char>::empty();
    let fewer = (count - 1) as nat;
    let last = fields[count - 1];
    let plain = expectations_text(fields, fewer);
    let rest = calibrated_text(fields, fewer);
    let one = expectation(last);
    let other = calibrated_expectation(last);
    if last.calibration is None {
        assert(expectations_text(fields, count) =~= plain + separator(plain) + one);
        lemma_occurs_last(plain + separator(plain), one);
    } else {
        assert(calibrated_text(fields, count) =~= rest + separator(rest) + other);
        lemma_occurs_last(rest + separator(rest), other);
    }
    if i < count - 1 {
        lemma_expected(fields, i, fewer);
        if fields[i].calibration is None {
            if last.calibration is None {
                lemma_occurs_wider(expectation(fields[i]), none, plain, separator(plain));
                lemma_occurs_wider(expectation(fields[i]), none, plain + separator(plain), one);
            }
        } else {
            if last.calibration is Some {
                let piece = calibrated_expectation(fields[i]);
                lemma_occurs_wider(piece, none, rest, separator(rest));
                lemma_occurs_wider(piece, none, rest + separator(rest), other);
            }
        }
    }
}

proof fn lemma_criterion_expected(constants: Seq<ConstantModel>, i: int, count: nat)
    requires
        0 <= i < count <= constants.len(),
        forall|k: int|
            0 <= k < constants.len() ==> 1 <= (#[trigger] constants[k]).bit_width <= 64,
    ensures
        occurs(criterion_expectation(constants[i]), criteria_text(constants, count)),
    decreases count,
{
    let none = Seq::<char>::empty();
    let fewer = (count - 1) as nat;
    let last = constants[count - 1];
    let before = criteria_text(constants, fewer);
    let one = criterion_expectation(last);
    lemma_mask_bounds(last.bit_width);
    assert(criteria_text(constants, count) =~= before + separator(before) + one);
    if i == count - 1 {
        lemma_occurs_last(before + separator(before), one);
    } else {
        lemma_criterion_expected(constants, i, fewer);
        let piece = criterion_expectation(constants[i]);
        lemma_occurs_wider(piece, none, before, separator(before));
        lemma_occurs_wider(piece, none, before + separator(before), one);
    }
}

/// A case draws every field of its container and sets it, and expects every field back: a field
/// without a calibrator as the value that went in, one with a calibrator as its raw value and what
/// its accessor gives, and every criterion as the value that the ground compares.
pub proof fn lemma_case_holds_every_field(
    container: ContainerModel,
    enums: Seq<EnumModel>,
    path: Seq<char>,
)
    requires
        forall|k: int|
            0 <= k < container.constants.len() ==> 1 <= (
            #[trigger] container.constants[k]).bit_width <= 64,
    ensures
        forall|i: int|
            0 <= i < container.fields.len() ==> {
                let field = #[trigger] container.fields[i];
                &&& occurs(
                    if field.kind.borrows() {
                        owned_text(field)
                    } else {
                        drawing(field, enums, path)
                    },
                    case_text(container, enums, path),
                )
                &&& occurs(initialiser(field), case_text(container, enums, path))
                &&& occurs(
                    if field.calibration is None {
                        expectation(field)
                    } else {
                        calibrated_expectation(field)
                    },
                    case_text(container, enums, path),
                )
            },
        forall|k: int|
            0 <= k < container.constants.len() ==> occurs(
                criterion_expectation(#[trigger] container.constants[k]),
                case_text(container, enums, path),
            ),
{
    let whole = case_text(container, enums, path);
    let owned = all_owned_text(container.fields, container.fields.len());
    let scalars = scalars_text(container.fields, enums, path, container.fields.len());
    let given = initialisers_text(container.fields, container.fields.len());
    let plain = expectations_text(container.fields, container.fields.len());
    let criteria = criteria_text(container.constants, container.constants.len());
    let rest = calibrated_text(container.fields, container.fields.len());
    lemma_case_parts(container, enums, path);
    assert forall|i: int| 0 <= i < container.fields.len() implies {
        let field = #[trigger] container.fields[i];
        &&& occurs(
            if field.kind.borrows() {
                owned_text(field)
            } else {
                drawing(field, enums, path)
            },
            whole,
        )
        &&& occurs(initialiser(field), whole)
        &&& occurs(
            if field.calibration is None {
                expectation(field)
            } else {
                calibrated_expectation(field)
            },
            whole,
        )
    } by {
        let field = container.fields[i];
        lemma_drawn(container.fields, enums, path, i, container.fields.len());
        lemma_expected(container.fields, i, container.fields.len());
        if field.kind.borrows() {
            lemma_occurs_through(owned_text(field), owned, whole);
        } else {
            lemma_occurs_through(drawing(field, enums, path), scalars, whole);
        }
        lemma_occurs_through(initialiser(field), given, whole);
        if field.calibration is None {
            lemma_occurs_through(expectation(field), plain, whole);
        } else {
            lemma_occurs_through(calibrated_expectation(field), rest, whole);
        }
    }
    assert forall|k: int| 0 <= k < container.constants.len() implies occurs(
        criterion_expectation(#[trigger] container.constants[k]),
        whole,
    ) by {
        lemma_criterion_expected(container.constants, k, container.constants.len());
        lemma_occurs_through(criterion_expectation(container.constants[k]), criteria, whole);
    }
}

proof fn lemma_case_parts(container: ContainerModel, enums: Seq<EnumModel>, path: Seq<char>)
    ensures
        ({
            let whole = case_text(container, enums, path);
            &&& occurs(all_owned_text(container.fields, container.fields.len()), whole)
            &&& occurs(
                scalars_text(container.fields, enums, path, container.fields.len()),
                whole,
            )
            &&& occurs(initialisers_text(container.fields, container.fields.len()), whole)
            &&& occurs(expectations_text(container.fields, container.fields.len()), whole)
            &&& occurs(criteria_text(container.constants, container.constants.len()), whole)
            &&& occurs(calibrated_text(container.fields, container.fields.len()), whole)
        }),
{
    reveal(case_text);
    let owned = all_owned_text(container.fields, container.fields.len());
    let scalars = scalars_text(container.fields, enums, path, container.fields.len());
    let given = initialisers_text(container.fields, container.fields.len());
    let plain = expectations_text(container.fields, container.fields.len());
    let criteria = criteria_text(container.constants, container.constants.len());
    let rest = calibrated_text(container.fields, container.fields.len());
    let name = string_literal(container.xtce_name);
    let len = decimal_text(container.len_bytes as nat);
    let kind = container.type_ident;
    let none = Seq::<char>::empty();
    let p1 = doc_attribute(case_doc(container.xtce_name)) + "#[must_use]\npub fn "@ + case_name(kind)
        + "(seed: u64) -> Case {\nlet mut rng = Rng::new(seed);\n"@;
    let p2 = p1 + owned + scalars + "let packet = "@ + path + " ::"@ + kind + " {\n"@;
    let a1 = "};\nlet mut bytes = vec![0u8; "@;
    let a2 = "];\nlet written = packet\n.encode(&mut bytes)\n.unwrap_or_else(|error| panic!(\"{}: encode failed: {error}\", "@;
    let a3 = "));\nassert_eq!(written, "@;
    let a4 = ", \"{}: encode wrote the wrong length\", "@;
    let a5 = ");\nlet returned = "@;
    let a6 = "::decode(&bytes)\n.unwrap_or_else(|error| panic!(\"{}: decode failed: {error}\", "@;
    let a7 = "));\nassert_eq!(returned, packet, \"{}: does not survive its own round trip\", "@;
    let a8 = ");\nassert!(\n"@;
    let a9 = "::matches(&bytes),\n\"{}: encoded packet does not satisfy its own criteria\",\n"@;
    let b1 = "\n);\nCase {\ncontainer: "@;
    let b2 = ",\nbytes,\nexpected: vec!["@;
    let b3 = "],\ncriteria: vec!["@;
    let b4 = "],\ncalibrated: vec!["@;
    let b5 = "],\n}\n}\n"@;
    let q1 = p2 + given + a1 + len + a2;
    let q2 = q1 + name + a3 + len + a4;
    let q3 = q2 + name + a5 + path + " ::"@;
    let q4 = q3 + kind + a6 + name + a7;
    let q5 = q4 + name + a8 + path + " ::"@;
    let q6 = q5 + kind + a9 + name + b1;
    let q7 = q6 + name + b2;
    let q8 = q7 + plain + b3 + criteria + b4;
    let whole = q8 + rest + b5;
    assert(whole == case_text(container, enums, path));
    // What is drawn.
    lemma_occurs_last(p1, owned);
    lemma_occurs_wider(owned, none, p1 + owned, scalars);
    lemma_occurs_last(p1 + owned, scalars);
    lemma_occurs_more(owned, p1 + owned + scalars, "let packet = "@, path, " ::"@, kind);
    lemma_occurs_more(scalars, p1 + owned + scalars, "let packet = "@, path, " ::"@, kind);
    lemma_occurs_wider(
        owned,
        none,
        p1 + owned + scalars + "let packet = "@ + path + " ::"@ + kind,
        " {\n"@,
    );
    lemma_occurs_wider(
        scalars,
        none,
        p1 + owned + scalars + "let packet = "@ + path + " ::"@ + kind,
        " {\n"@,
    );
    lemma_occurs_last(p2, given);
    lemma_occurs_wider(given, none, p2 + given, a1);
    lemma_occurs_wider(given, none, p2 + given + a1, len);
    lemma_occurs_wider(given, none, p2 + given + a1 + len, a2);
    lemma_occurs_more(owned, p2, given, a1, len, a2);
    lemma_occurs_more(scalars, p2, given, a1, len, a2);
    lemma_three_more(owned, scalars, given, q1, name, a3, len, a4);
    lemma_three_more(owned, scalars, given, q2, name, a5, path, " ::"@);
    lemma_three_more(owned, scalars, given, q3, kind, a6, name, a7);
    lemma_three_more(owned, scalars, given, q4, name, a8, path, " ::"@);
    lemma_three_more(owned, scalars, given, q5, kind, a9, name, b1);
    lemma_three_more(owned, scalars, given, q6, name, b2, none, none);
    assert(q6 + name + b2 + none + none =~= q7);
    // What is expected.
    lemma_three_more(owned, scalars, given, q7, plain, b3, criteria, b4);
    lemma_occurs_last(q7, plain);
    lemma_occurs_wider(plain, none, q7 + plain, b3);
    lemma_occurs_wider(plain, none, q7 + plain + b3, criteria);
    lemma_occurs_wider(plain, none, q7 + plain + b3 + criteria, b4);
    lemma_occurs_last(q7 + plain + b3, criteria);
    lemma_occurs_wider(criteria, none, q7 + plain + b3 + criteria, b4);
    lemma_three_more(owned, scalars, given, q8, rest, b5, none, none);
    lemma_three_more(plain, criteria, plain, q8, rest, b5, none, none);
    assert(q8 + rest + b5 + none + none =~= whole);
    lemma_occurs_last(q8, rest);
    lemma_occurs_wider(rest, none, q8 + rest, b5);
}

proof fn lemma_three_more(
    first: Seq<char>,
    second: Seq<char>,
    third: Seq<char>,
    text: Seq<char>,
    a: Seq<char>,
    b: Seq<char>,
    c: Seq<char>,
    d: Seq<char>,
)
    requires
        occurs(first, text),
        occurs(second, text),
        occurs(third, text),
    ensures
        occurs(first, text + a + b + c + d),
        occurs(second, text + a + b + c + d),
        occurs(third, text + a + b + c + d),
{
    lemma_occurs_more(first, text, a, b, c, d);
    lemma_occurs_more(second, text, a, b, c, d);
    lemma_occurs_more(third, text, a, b, c, d);
}

/// The call that makes a container's case.
pub open spec fn case_call(layout: LayoutModel, i: int) -> Seq<char> {
    case_name(layout.containers[i].type_ident) + "(seed ^ "@ + decimal_text(salt(i) as nat) + ")"@
}

proof fn lemma_case_listed(layout: LayoutModel, path: Seq<char>, i: int, count: nat)
    requires
        0 <= i < count <= layout.containers.len(),
    ensures
        occurs(
            case_text(layout.containers[i], layout.enums, path),
            all_cases_text(layout, path, count),
        ),
        occurs(case_call(layout, i), calls_text(layout, count)),
    decreases count,
{
    let none = Seq::<char>::empty();
    let fewer = (count - 1) as nat;
    let before = all_cases_text(layout, path, fewer);
    let calls = calls_text(layout, fewer);
    let last = case_text(layout.containers[count - 1], layout.enums, path);
    let call = case_call(layout, count - 1);
    assert(calls_text(layout, count) =~= calls + separator(calls) + call);
    if i == count - 1 {
        lemma_occurs_last(before, last);
        lemma_occurs_last(calls + separator(calls), call);
    } else {
        lemma_case_listed(layout, path, i, fewer);
        lemma_occurs_wider(
            case_text(layout.containers[i], layout.enums, path),
            none,
            before,
            last,
        );
        lemma_occurs_wider(case_call(layout, i), none, calls, separator(calls));
        lemma_occurs_wider(case_call(layout, i), none, calls + separator(calls), call);
    }
}

/// A harness has a case for every container of its layout, and makes each of them.
pub proof fn lemma_harness_holds_every_case(layout: LayoutModel, path: Seq<char>)
    ensures
        forall|i: int|
            0 <= i < layout.containers.len() ==> occurs(
                case_text(#[trigger] layout.containers[i], layout.enums, path),
                harness_text(layout, path),
            ),
        forall|i: int|
            0 <= i < layout.containers.len() ==> occurs(
                #[trigger] case_call(layout, i),
                harness_text(layout, path),
            ),
{
    let none = Seq::<char>::empty();
    let cases = all_cases_text(layout, path, layout.containers.len());
    let calls = calls_text(layout, layout.containers.len());
    let whole = harness_text(layout, path);
    lemma_occurs_last(PRELUDE@, cases);
    lemma_occurs_wider(cases, none, PRELUDE@ + cases, CASES_HEAD@);
    lemma_occurs_wider(cases, none, PRELUDE@ + cases + CASES_HEAD@, calls);
    lemma_occurs_wider(cases, none, PRELUDE@ + cases + CASES_HEAD@ + calls, "]\n}\n"@);
    lemma_occurs_last(PRELUDE@ + cases + CASES_HEAD@, calls);
    lemma_occurs_wider(calls, none, PRELUDE@ + cases + CASES_HEAD@ + calls, "]\n}\n"@);
    assert forall|i: int| 0 <= i < layout.containers.len() implies occurs(
        case_text(#[trigger] layout.containers[i], layout.enums, path),
        whole,
    ) by {
        lemma_case_listed(layout, path, i, layout.containers.len());
        lemma_occurs_through(
            case_text(layout.containers[i], layout.enums, path),
            cases,
            whole,
        );
    }
    assert forall|i: int| 0 <= i < layout.containers.len() implies occurs(
        #[trigger] case_call(layout, i),
        whole,
    ) by {
        lemma_case_listed(layout, path, i, layout.containers.len());
        lemma_occurs_through(case_call(layout, i), calls, whole);
    }
}

} // verus!
