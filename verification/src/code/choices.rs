//! What enums and the dispatcher choose.

use vstd::prelude::*;
use vstd::string::*;

use crate::bits::natural_width;
use crate::code::bits::{
    lemma_mask_bounds, lemma_signed_type_holds_its_fields, lemma_type_powers,
    lemma_unsigned_type_holds_its_fields,
};
use crate::code::fields::held;
use crate::code::language::Thing;
use crate::codec::{
    decoded, dispatched, is_match, last_match, match_count, variant_from, well_typed, Datum, Fault,
};
use crate::emit::items::{
    arms_text, decodes_text, field_type_text, from_raw_text, labels_text, to_raw_text,
};
use crate::emit::text::string_literal;
use crate::layout::{ContainerModel, EnumModel, FieldModel, KindModel, LayoutModel, VariantModel};
use crate::names::decimal_text;

verus! {

// ---------------------------------------------------------------------------------------
// Enums
// ---------------------------------------------------------------------------------------

/// The first `count` arms that give variants a number: `Self::N => 1,`.
pub open spec fn numbers_source(arms: Seq<(Seq<char>, nat)>, count: nat) -> Seq<char>
    decreases count,
{
    if count == 0 {
        Seq::empty()
    } else {
        numbers_source(arms, (count - 1) as nat) + "Self::"@ + arms[count - 1].0 + " => "@
            + decimal_text(arms[count - 1].1) + ",\n"@
    }
}

/// The number of a variant: that of the first arm for it, from `at` on.
pub open spec fn number_of(arms: Seq<(Seq<char>, nat)>, name: Seq<char>, at: int) -> Option<nat>
    decreases arms.len() - at,
{
    if at < 0 || at >= arms.len() {
        None
    } else if arms[at].0 == name {
        Some(arms[at].1)
    } else {
        number_of(arms, name, at + 1)
    }
}

/// The first `count` arms that give numbers a variant: `1 => Some(Self::N),`.
pub open spec fn variants_source(arms: Seq<(nat, Seq<char>)>, count: nat) -> Seq<char>
    decreases count,
{
    if count == 0 {
        Seq::empty()
    } else {
        variants_source(arms, (count - 1) as nat) + decimal_text(arms[count - 1].0)
            + " => Some(Self::"@ + arms[count - 1].1 + "),\n"@
    }
}

/// The variant of a number: that of the first arm for it, from `at` on.
pub open spec fn variant_of(arms: Seq<(nat, Seq<char>)>, number: int, at: int) -> Option<Seq<char>>
    decreases arms.len() - at,
{
    if at < 0 || at >= arms.len() {
        None
    } else if arms[at].0 == number {
        Some(arms[at].1)
    } else {
        variant_of(arms, number, at + 1)
    }
}

/// The first `count` arms that give variants a text: `Self::N => "x",`.
pub open spec fn texts_source(arms: Seq<(Seq<char>, Seq<char>)>, count: nat) -> Seq<char>
    decreases count,
{
    if count == 0 {
        Seq::empty()
    } else {
        texts_source(arms, (count - 1) as nat) + "Self::"@ + arms[count - 1].0 + " => "@
            + string_literal(arms[count - 1].1) + ",\n"@
    }
}

/// The text of a variant: that of the first arm for it, from `at` on.
pub open spec fn text_of(arms: Seq<(Seq<char>, Seq<char>)>, name: Seq<char>, at: int) -> Option<
    Seq<char>,
>
    decreases arms.len() - at,
{
    if at < 0 || at >= arms.len() {
        None
    } else if arms[at].0 == name {
        Some(arms[at].1)
    } else {
        text_of(arms, name, at + 1)
    }
}

/// Whether no two variants have one name.
pub open spec fn variants_differ(variants: Seq<VariantModel>) -> bool {
    forall|i: int, j: int|
        0 <= i < j < variants.len() ==> (#[trigger] variants[i]).ident != (
        #[trigger] variants[j]).ident
}

/// The arms of `raw`.
pub open spec fn raw_arms(variants: Seq<VariantModel>) -> Seq<(Seq<char>, nat)> {
    Seq::new(variants.len(), |k: int| (variants[k].ident, variants[k].raw as nat))
}

/// The arms of `from_raw`.
pub open spec fn from_raw_arms(variants: Seq<VariantModel>) -> Seq<(nat, Seq<char>)> {
    Seq::new(variants.len(), |k: int| (variants[k].raw as nat, variants[k].ident))
}

/// The arms of `label`.
pub open spec fn label_arms(variants: Seq<VariantModel>) -> Seq<(Seq<char>, Seq<char>)> {
    Seq::new(variants.len(), |k: int| (variants[k].ident, variants[k].label))
}

proof fn lemma_arms_spelled(variants: Seq<VariantModel>, count: nat)
    requires
        count <= variants.len(),
    ensures
        numbers_source(raw_arms(variants), count) == to_raw_text(variants, count),
        variants_source(from_raw_arms(variants), count) == from_raw_text(variants, count),
        texts_source(label_arms(variants), count) == labels_text(variants, count),
    decreases count,
{
    if count > 0 {
        lemma_arms_spelled(variants, (count - 1) as nat);
    }
}

proof fn lemma_arm_found(variants: Seq<VariantModel>, k: int, at: int)
    requires
        variants_differ(variants),
        0 <= at <= k < variants.len(),
    ensures
        number_of(raw_arms(variants), variants[k].ident, at) == Some(variants[k].raw as nat),
        text_of(label_arms(variants), variants[k].ident, at) == Some(variants[k].label),
    decreases k - at,
{
    if at < k {
        assert(variants[at].ident != variants[k].ident);
        lemma_arm_found(variants, k, at + 1);
    }
}

/// The source of `raw` gives every variant its value, whatever the value is.
pub proof fn lemma_raw_gives_the_value(variants: Seq<VariantModel>, k: int)
    requires
        variants_differ(variants),
        0 <= k < variants.len(),
    ensures
        to_raw_text(variants, variants.len()) == numbers_source(
            raw_arms(variants),
            raw_arms(variants).len(),
        ),
        number_of(raw_arms(variants), variants[k].ident, 0) == Some(variants[k].raw as nat),
{
    lemma_arms_spelled(variants, variants.len());
    lemma_arm_found(variants, k, 0);
}

/// The source of `label` gives every variant its label.
pub proof fn lemma_label_gives_the_text(variants: Seq<VariantModel>, k: int)
    requires
        variants_differ(variants),
        0 <= k < variants.len(),
    ensures
        labels_text(variants, variants.len()) == texts_source(
            label_arms(variants),
            label_arms(variants).len(),
        ),
        text_of(label_arms(variants), variants[k].ident, 0) == Some(variants[k].label),
{
    lemma_arms_spelled(variants, variants.len());
    lemma_arm_found(variants, k, 0);
}

proof fn lemma_variant_found(definition: EnumModel, number: int, at: int)
    requires
        0 <= at,
    ensures
        variant_of(from_raw_arms(definition.variants), number, at) == match variant_from(
            definition,
            number,
            at,
        ) {
            Some(k) => Some(definition.variants[k].ident),
            None => None,
        },
    decreases definition.variants.len() - at,
{
    if at < definition.variants.len() && definition.variants[at].raw != number {
        lemma_variant_found(definition, number, at + 1);
    }
}

/// The source of `from_raw` gives every number the variant that decoding gives it: the first one
/// with this value, or none.
pub proof fn lemma_from_raw_finds_the_variant(definition: EnumModel, number: int)
    ensures
        from_raw_text(definition.variants, definition.variants.len()) == variants_source(
            from_raw_arms(definition.variants),
            from_raw_arms(definition.variants).len(),
        ),
        variant_of(from_raw_arms(definition.variants), number, 0) == match variant_from(
            definition,
            number,
            0,
        ) {
            Some(k) => Some(definition.variants[k].ident),
            None => None,
        },
{
    lemma_arms_spelled(definition.variants, definition.variants.len());
    lemma_variant_found(definition, number, 0);
}

// ---------------------------------------------------------------------------------------
// Structs
// ---------------------------------------------------------------------------------------

/// The Rust type of a value.
pub open spec fn type_of(thing: Thing, enums: Seq<EnumModel>) -> Seq<char> {
    match thing {
        Thing::Number(kind, _) => kind.name(),
        Thing::Flag(_) => "bool"@,
        Thing::Single(_) => "f32"@,
        Thing::Double(_) => "f64"@,
        Thing::Variant(index, _) => enums[index].type_ident,
        Thing::Text(_) => "& 'a str"@,
        Thing::Bytes(_) => "& 'a [u8]"@,
        _ => Seq::empty(),
    }
}

/// The type that the struct declares for a field is that of the values which the field holds, and
/// an integer type holds them all.
pub proof fn lemma_field_has_its_type(field: FieldModel, enums: Seq<EnumModel>, value: Datum)
    requires
        field.kind.borrows() || 1 <= field.bit_width <= 64,
        field.kind matches KindModel::Enumerated(index) ==> 0 <= index < enums.len(),
        well_typed(field, enums, value),
    ensures
        field_type_text(field, enums) == type_of(held(field, value), enums),
        held(field, value) matches Thing::Number(kind, n) ==> kind.holds(n),
{
    lemma_type_powers();
    if !field.kind.borrows() {
        lemma_signed_type_holds_its_fields(field.bit_width);
        lemma_unsigned_type_holds_its_fields(field.bit_width);
        lemma_mask_bounds(natural_width(field.bit_width));
    }
}

// ---------------------------------------------------------------------------------------
// The dispatcher
// ---------------------------------------------------------------------------------------

/// The first `count` tests: `if T::matches(data) { matched += 1; selected = Some(Selected::S); }`.
pub open spec fn selections_source(tests: Seq<(Seq<char>, Seq<char>)>, count: nat) -> Seq<char>
    decreases count,
{
    if count == 0 {
        Seq::empty()
    } else {
        selections_source(tests, (count - 1) as nat) + "if "@ + tests[count - 1].0
            + "::matches(data) {\nmatched += 1;\nselected = Some(Selected::"@ + tests[count - 1].1
            + ");\n}\n"@
    }
}

/// The first `count` arms: `Selected::S => Ok(Packet::P(T::decode(data)?)),`.
pub open spec fn decodings_source(
    arms: Seq<(Seq<char>, Seq<char>, Seq<char>)>,
    count: nat,
) -> Seq<char>
    decreases count,
{
    if count == 0 {
        Seq::empty()
    } else {
        decodings_source(arms, (count - 1) as nat) + "Selected::"@ + arms[count - 1].0
            + " => Ok(Packet::"@ + arms[count - 1].1 + "("@ + arms[count - 1].2
            + "::decode(data)?)),\n"@
    }
}

/// The container of a type, from `at` on.
pub open spec fn container_named(
    containers: Seq<ContainerModel>,
    name: Seq<char>,
    at: int,
) -> Option<int>
    decreases containers.len() - at,
{
    if at < 0 || at >= containers.len() {
        None
    } else if containers[at].type_ident == name {
        Some(at)
    } else {
        container_named(containers, name, at + 1)
    }
}

/// Whether the type of a name matches some bytes.
pub open spec fn type_matches(
    containers: Seq<ContainerModel>,
    name: Seq<char>,
    data: Seq<u8>,
) -> bool {
    container_named(containers, name, 0) matches Some(i) && is_match(containers[i], data)
}

/// How many of the first `count` tests hold, and what the last of them selects.
pub open spec fn selected(
    containers: Seq<ContainerModel>,
    tests: Seq<(Seq<char>, Seq<char>)>,
    data: Seq<u8>,
    count: nat,
) -> (nat, Option<Seq<char>>)
    decreases count,
{
    if count == 0 {
        (0, None)
    } else {
        let before = selected(containers, tests, data, (count - 1) as nat);
        if type_matches(containers, tests[count - 1].0, data) {
            (before.0 + 1, Some(tests[count - 1].1))
        } else {
            before
        }
    }
}

/// The first arm for what was selected, from `at` on.
pub open spec fn arm_for(
    arms: Seq<(Seq<char>, Seq<char>, Seq<char>)>,
    name: Seq<char>,
    at: int,
) -> Option<int>
    decreases arms.len() - at,
{
    if at < 0 || at >= arms.len() {
        None
    } else if arms[at].0 == name {
        Some(at)
    } else {
        arm_for(arms, name, at + 1)
    }
}

/// What the dispatcher makes of some bytes: the variant of `Packet`, and what the type whose
/// `decode` is called reads.
pub open spec fn dispatches(
    layout: LayoutModel,
    tests: Seq<(Seq<char>, Seq<char>)>,
    arms: Seq<(Seq<char>, Seq<char>, Seq<char>)>,
    data: Seq<u8>,
) -> Option<Result<(Seq<char>, Seq<Datum>), Fault>> {
    let (matched, chosen) = selected(layout.containers, tests, data, tests.len());
    if matched > 1 {
        Some(Err(Fault::Ambiguous))
    } else {
        match chosen {
            None => Some(Err(Fault::Unrecognized)),
            Some(name) => match arm_for(arms, name, 0) {
                None => None,
                Some(arm) => match container_named(layout.containers, arms[arm].2, 0) {
                    None => None,
                    Some(i) => {
                        let container = layout.containers[i];
                        if data.len() < container.len_bytes {
                            Some(Err(Fault::TooShort(container.len_bytes)))
                        } else {
                            match decoded(container, layout.enums, data.take(container.len_bytes)) {
                                Ok(values) => Some(Ok((arms[arm].1, values))),
                                Err(fault) => Some(Err(fault)),
                            }
                        }
                    },
                },
            },
        }
    }
}

/// The tests of the dispatcher: one for each container.
pub open spec fn dispatch_tests(containers: Seq<ContainerModel>) -> Seq<(Seq<char>, Seq<char>)> {
    Seq::new(containers.len(), |i: int| (containers[i].type_ident, containers[i].type_ident))
}

/// The arms of the dispatcher: one for each container.
pub open spec fn dispatch_arms(containers: Seq<ContainerModel>) -> Seq<
    (Seq<char>, Seq<char>, Seq<char>),
> {
    Seq::new(
        containers.len(),
        |i: int|
            (containers[i].type_ident, containers[i].type_ident, containers[i].type_ident),
    )
}

/// Whether no two containers have one type.
pub open spec fn types_differ(containers: Seq<ContainerModel>) -> bool {
    forall|i: int, j: int|
        0 <= i < j < containers.len() ==> (#[trigger] containers[i]).type_ident != (
        #[trigger] containers[j]).type_ident
}

proof fn lemma_dispatch_spelled(containers: Seq<ContainerModel>, count: nat)
    requires
        count <= containers.len(),
    ensures
        selections_source(dispatch_tests(containers), count) == arms_text(containers, count),
        decodings_source(dispatch_arms(containers), count) == decodes_text(containers, count),
    decreases count,
{
    if count > 0 {
        lemma_dispatch_spelled(containers, (count - 1) as nat);
    }
}

proof fn lemma_container_found(containers: Seq<ContainerModel>, k: int, at: int)
    requires
        types_differ(containers),
        0 <= at <= k < containers.len(),
    ensures
        container_named(containers, containers[k].type_ident, at) == Some(k),
        arm_for(dispatch_arms(containers), containers[k].type_ident, at) == Some(k),
    decreases k - at,
{
    if at < k {
        assert(containers[at].type_ident != containers[k].type_ident);
        lemma_container_found(containers, k, at + 1);
    }
}

proof fn lemma_selects(containers: Seq<ContainerModel>, data: Seq<u8>, count: nat)
    requires
        types_differ(containers),
        count <= containers.len(),
    ensures
        ({
            let last = last_match(containers, data, count);
            let (matched, chosen) = selected(containers, dispatch_tests(containers), data, count);
            &&& matched == match_count(containers, data, count)
            &&& -1 <= last < count
            &&& matched == 0 <==> last == -1
            &&& chosen == if last < 0 {
                None
            } else {
                Some(containers[last].type_ident)
            }
            &&& last >= 0 ==> is_match(containers[last], data)
        }),
    decreases count,
{
    if count > 0 {
        lemma_selects(containers, data, (count - 1) as nat);
        lemma_container_found(containers, count - 1, 0);
    }
}

/// The source of the dispatcher takes every sequence of bytes for what it is taken for by decoding:
/// the one container that claims it, named in `Packet` and with the same values, or the same error.
pub proof fn lemma_dispatches_what_it_should(layout: LayoutModel, data: Seq<u8>)
    requires
        types_differ(layout.containers),
    ensures
        arms_text(layout.containers, layout.containers.len()) == selections_source(
            dispatch_tests(layout.containers),
            dispatch_tests(layout.containers).len(),
        ),
        decodes_text(layout.containers, layout.containers.len()) == decodings_source(
            dispatch_arms(layout.containers),
            dispatch_arms(layout.containers).len(),
        ),
        dispatches(
            layout,
            dispatch_tests(layout.containers),
            dispatch_arms(layout.containers),
            data,
        ) == Some(
            match dispatched(layout, data) {
                Ok((chosen, values)) => Ok::<(Seq<char>, Seq<Datum>), Fault>(
                    (layout.containers[chosen].type_ident, values),
                ),
                Err(fault) => Err(fault),
            },
        ),
{
    let containers = layout.containers;
    lemma_dispatch_spelled(containers, containers.len());
    lemma_selects(containers, data, containers.len());
    let last = last_match(containers, data, containers.len());
    if last >= 0 {
        lemma_container_found(containers, last, 0);
    }
}

} // verus!
