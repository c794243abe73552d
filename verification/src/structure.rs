//! What holds of every layout that was built.
//!
//! * Fields of one container have different names, and none of them is a criterion.
//! * A plan whose runs lie inside their containers becomes a layout that can be encoded.
//! * One enumeration becomes one Rust type, and its labels different variants of it.
//! * The type names of containers and enumerations all differ.
//! * The bits of a label fit every field that may hold it.
//! * A criterion's bits read back as the value the definition compares.
//! * A fixed value is reduced to the width it declares.

use vstd::arithmetic::div_mod::*;
use vstd::arithmetic::power2::*;
use vstd::prelude::*;

use crate::builder::{
    all_fixed_of, byte_or_zero, bytes_for, constant_of, constants_of, container_of, contextual,
    enum_key, enumeration_of, field_of, fields_of, fitted, guard_refs, ident_from, is_covered,
    is_same_span, kind_of, layout_of, low_part, place_from, variant_bases, variants_of, visit_of,
    walk_all_of, walk_of, with_field, BuilderModel, EntryModel,
};
use crate::error::ErrorModel;
use crate::layout::{
    ConstantModel, ContainerModel, EnumModel, FieldModel, KindModel, VariantModel,
};
use crate::names::{
    fresh, handed_out, identifier, lemma_handed_out_once, lemma_some_free, letters_of,
};
use crate::plan::{ContainerPlan, Field, FixedEntry, Guard, Node, Plan, Repr};
use crate::scalar::{bytes_value, lemma_bytes_value_bound, lemma_swapped, swapped};

verus! {

// ---------------------------------------------------------------------------------------
// Criteria and fixed values
// ---------------------------------------------------------------------------------------

/// A criterion's bits read back, in the byte order of its parameter, as the value the definition
/// compares: the value given, reduced to the parameter's width.
pub proof fn lemma_criterion_reads_back(guard: Guard, container: Seq<char>)
    requires
        constant_of(guard, container) is Ok,
    ensures
        ({
            let constant = constant_of(guard, container)->Ok_0;
            let width = guard.bit_width as int;
            &&& constant.reported == guard.value as int % (pow2(width as nat) as int)
            &&& constant.raw < pow2(width as nat)
            &&& if guard.swap_bytes && width > 8 {
                swapped(constant.raw as int, width) == constant.reported
            } else {
                constant.raw == constant.reported
            }
        }),
{
    let width = guard.bit_width as int;
    lemma_pow2_pos(width as nat);
    lemma_mod_bound(guard.value as int, pow2(width as nat) as int);
    lemma2_to64();
    lemma2_to64_rest();
    if width < 64 {
        lemma_pow2_strictly_increases(width as nat, 64);
    }
    if guard.swap_bytes && width > 8 {
        lemma_swapped(low_part(guard.value as int, width) as int, width);
    }
}

/// The last `count` bytes of a value, with zeros in front where it is shorter.
spec fn last_bytes(value: Seq<u8>, count: nat) -> Seq<u8> {
    Seq::new(count, |j: int| byte_or_zero(value, value.len() - count + j))
}

proof fn lemma_last_bytes(value: Seq<u8>, count: nat)
    ensures
        bytes_value(last_bytes(value, count)) == bytes_value(value) % pow2((8 * count) as nat),
    decreases count,
{
    lemma2_to64();
    let tail = last_bytes(value, count);
    if count == 0 {
        assert(pow2(0) == 1);
    } else {
        let shorter = if value.len() == 0 {
            value
        } else {
            value.drop_last()
        };
        let rest = pow2((8 * (count - 1)) as nat) as int;
        lemma_last_bytes(shorter, (count - 1) as nat);
        assert(tail.drop_last() =~= last_bytes(shorter, (count - 1) as nat));
        lemma_pow2_adds((8 * (count - 1)) as nat, 8);
        lemma_pow2_pos((8 * (count - 1)) as nat);
        let whole = bytes_value(value) as int;
        lemma_mod_breakdown(whole, 256, rest);
        assert(pow2((8 * count) as nat) == 256 * rest);
        if value.len() > 0 {
            assert(whole / 256 == bytes_value(shorter));
            assert(whole % 256 == value.last());
        } else {
            lemma_small_mod(0, pow2((8 * (count - 1)) as nat));
            assert(whole == 0);
        }
    }
}

/// The first byte of a value counts for more than all the others.
proof fn lemma_bytes_value_head(bytes: Seq<u8>)
    requires
        bytes.len() > 0,
    ensures
        bytes_value(bytes) == bytes[0] * pow2((8 * (bytes.len() - 1)) as nat) + bytes_value(
            bytes.skip(1),
        ),
    decreases bytes.len(),
{
    lemma2_to64();
    let count = (bytes.len() - 1) as nat;
    if count == 0 {
        assert(bytes.drop_last() =~= Seq::empty());
        assert(bytes.skip(1) =~= Seq::empty());
        assert(bytes[0] * pow2(0) == bytes[0]) by (nonlinear_arith)
            requires
                pow2(0) == 1,
        ;
    } else {
        lemma_bytes_value_head(bytes.drop_last());
        assert(bytes.drop_last().skip(1) =~= bytes.skip(1).drop_last());
        lemma_pow2_adds((8 * (count - 1)) as nat, 8);
        let first = bytes[0] as int;
        let power = pow2((8 * (count - 1)) as nat) as int;
        assert(256 * (first * power) == first * (power * 256)) by (nonlinear_arith);
    }
}

/// A fixed value keeps exactly the low bits that its width has room for.
pub proof fn lemma_fixed_value_is_reduced(value: Seq<u8>, width: int)
    requires
        1 <= width,
    ensures
        fitted(value, width).len() == bytes_for(width),
        bytes_value(fitted(value, width)) == bytes_value(value) % pow2(width as nat),
{
    let count = bytes_for(width) as nat;
    let tail = last_bytes(value, count);
    let bytes = fitted(value, width);
    let spare = width % 8;
    lemma_last_bytes(value, count);
    lemma2_to64();
    if spare == 0 {
        assert(8 * count == width);
        assert(bytes =~= tail);
    } else {
        let power = pow2((8 * (count - 1)) as nat) as int;
        let room = pow2(spare as nat) as int;
        assert(width == 8 * (count - 1) + spare);
        lemma_bytes_value_head(tail);
        lemma_bytes_value_head(bytes);
        assert(bytes.skip(1) =~= tail.skip(1));
        lemma_bytes_value_bound(tail.skip(1));
        let rest = bytes_value(tail.skip(1)) as int;
        let first = tail[0] as int;
        let whole = bytes_value(tail) as int;
        lemma_pow2_pos((8 * (count - 1)) as nat);
        lemma_pow2_pos(spare as nat);
        lemma_fundamental_div_mod_converse(whole, power, first, rest);
        lemma_mod_breakdown(whole, power, room);
        lemma_pow2_adds((8 * (count - 1)) as nat, spare as nat);
        lemma_mod_bound(first, room);
        lemma_small_mod_of(first, room);
        assert(bytes[0] == first % room);
        assert(power * (first % room) == (first % room) * power) by (nonlinear_arith);
        lemma_pow2_adds(width as nat, (8 * count - width) as nat);
        lemma_pow2_pos(width as nat);
        lemma_pow2_pos((8 * count - width) as nat);
        lemma_mod_mod(
            bytes_value(value) as int,
            pow2(width as nat) as int,
            pow2((8 * count - width) as nat) as int,
        );
    }
}

proof fn lemma_small_mod_of(byte: int, room: int)
    requires
        0 <= byte < 256,
        0 < room <= 128,
    ensures
        0 <= byte % room < 128,
{
    lemma_mod_bound(byte, room);
}

// ---------------------------------------------------------------------------------------
// Names
// ---------------------------------------------------------------------------------------

/// Whether no two fields have the same name.
pub open spec fn distinct_idents(fields: Seq<FieldModel>) -> bool {
    forall|i: int, j: int|
        0 <= i < j < fields.len() ==> (#[trigger] fields[i]).ident != (#[trigger] fields[j]).ident
}

/// Whether no two fields have the same name.
spec fn distinct_sourced(fields: Seq<(FieldModel, int)>) -> bool {
    forall|i: int, j: int|
        0 <= i < j < fields.len() ==> (#[trigger] fields[i]).0.ident != (
        #[trigger] fields[j]).0.ident
}

proof fn lemma_ident_from(fields: Seq<(FieldModel, int)>, ident: Seq<char>, at: int)
    requires
        0 <= at,
    ensures
        match ident_from(fields, ident, at) {
            Some(place) => at <= place < fields.len() && fields[place].0.ident == ident,
            None => forall|i: int| at <= i < fields.len() ==> (#[trigger] fields[i]).0.ident != ident,
        },
    decreases fields.len() - at,
{
    if at < fields.len() && fields[at].0.ident != ident {
        lemma_ident_from(fields, ident, at + 1);
    }
}

proof fn lemma_with_field_distinct(fields: Seq<(FieldModel, int)>, field: FieldModel, source: int)
    requires
        distinct_sourced(fields),
    ensures
        distinct_sourced(with_field(fields, field, source)),
{
    lemma_ident_from(fields, field.ident, 0);
    let after = with_field(fields, field, source);
    match ident_from(fields, field.ident, 0) {
        Some(at) => {
            assert forall|i: int, j: int| 0 <= i < j < after.len() implies (
            #[trigger] after[i]).0.ident != (#[trigger] after[j]).0.ident by {
                assert(fields[i].0.ident != fields[j].0.ident);
            }
        },
        None => {},
    }
}

proof fn lemma_fields_distinct(
    state: BuilderModel,
    fields: Seq<Field>,
    constants: Seq<ConstantModel>,
    container: Seq<char>,
    count: nat,
)
    requires
        fields_of(state, fields, constants, container, count) is Ok,
    ensures
        distinct_sourced(fields_of(state, fields, constants, container, count)->Ok_0.1),
    decreases count,
{
    if count > 0 {
        lemma_fields_distinct(state, fields, constants, container, (count - 1) as nat);
        let (before_state, before) = fields_of(
            state,
            fields,
            constants,
            container,
            (count - 1) as nat,
        )->Ok_0;
        if !is_covered(constants, fields[count - 1]) {
            let field = field_of(before_state, fields[count - 1], container)->Ok_0.1;
            lemma_with_field_distinct(before, field, count - 1);
        }
    }
}

/// Resolving contexts changes nothing else of a field.
/// Resolving contexts leaves the rest of every field alone.
pub proof fn lemma_contextual(
    given: Seq<(FieldModel, int)>,
    entries: Seq<Field>,
    container: Seq<char>,
    count: nat,
)
    requires
        count <= given.len(),
        contextual(given, entries, container, count) is Ok,
    ensures
        ({
            let fields = contextual(given, entries, container, count)->Ok_0;
            &&& fields.len() == count
            &&& forall|i: int|
                0 <= i < count ==> (#[trigger] fields[i]) == (FieldModel {
                    contexts: fields[i].contexts,
                    ..given[i].0
                })
        }),
    decreases count,
{
    if count > 0 {
        lemma_contextual(given, entries, container, (count - 1) as nat);
        let before = contextual(given, entries, container, (count - 1) as nat)->Ok_0;
        let fields = contextual(given, entries, container, count)->Ok_0;
        assert forall|i: int| 0 <= i < count implies (#[trigger] fields[i]) == (FieldModel {
            contexts: fields[i].contexts,
            ..given[i].0
        }) by {
            if i < count - 1 {
                assert(fields[i] == before[i]);
            }
        }
    }
}

/// A struct never has a field twice.
pub proof fn lemma_fields_have_different_names(
    state: BuilderModel,
    plan: ContainerPlan,
    guards: Seq<&Guard>,
)
    requires
        container_of(state, plan, guards) is Ok,
    ensures
        distinct_idents(container_of(state, plan, guards)->Ok_0.1.fields),
{
    let name = plan.xtce_name@;
    let constants = constants_of(guards, name, guards.len())->Ok_0;
    lemma_fields_distinct(state, plan.fields@, constants, name, plan.fields@.len());
    let given = fields_of(state, plan.fields@, constants, name, plan.fields@.len())->Ok_0.1;
    lemma_contextual(given, plan.fields@, name, given.len());
    let fields = contextual(given, plan.fields@, name, given.len())->Ok_0;
    assert forall|i: int, j: int| 0 <= i < j < fields.len() implies (#[trigger] fields[i]).ident != (
    #[trigger] fields[j]).ident by {
        assert(given[i].0.ident != given[j].0.ident);
    }
}

// ---------------------------------------------------------------------------------------
// Criteria are not fields
// ---------------------------------------------------------------------------------------

/// Whether a field occupies exactly the bits of a criterion.
pub open spec fn is_criterion(constants: Seq<ConstantModel>, field: FieldModel) -> bool {
    exists|k: int|
        0 <= k < constants.len() && (#[trigger] constants[k]).bit_offset == field.bit_offset
            && constants[k].bit_width == field.bit_width
}

proof fn lemma_fields_uncovered(
    state: BuilderModel,
    fields: Seq<Field>,
    constants: Seq<ConstantModel>,
    container: Seq<char>,
    count: nat,
)
    requires
        fields_of(state, fields, constants, container, count) is Ok,
    ensures
        ({
            let given = fields_of(state, fields, constants, container, count)->Ok_0.1;
            forall|i: int| 0 <= i < given.len() ==> !is_criterion(constants, (#[trigger] given[i]).0)
        }),
    decreases count,
{
    if count > 0 {
        lemma_fields_uncovered(state, fields, constants, container, (count - 1) as nat);
        let (before_state, before) = fields_of(
            state,
            fields,
            constants,
            container,
            (count - 1) as nat,
        )->Ok_0;
        let entry = fields[count - 1];
        if !is_covered(constants, entry) {
            let field = field_of(before_state, entry, container)->Ok_0.1;
            if is_criterion(constants, field) {
                let k = choose|k: int|
                    0 <= k < constants.len() && (#[trigger] constants[k]).bit_offset
                        == field.bit_offset && constants[k].bit_width == field.bit_width;
                assert(is_same_span(constants[k], entry));
            }
            lemma_ident_from(before, field.ident, 0);
            let given = with_field(before, field, count - 1);
            assert forall|i: int| 0 <= i < given.len() implies !is_criterion(
                constants,
                (#[trigger] given[i]).0,
            ) by {
                if given[i].0 != field {
                    assert(given[i] == before[i]);
                }
            }
        }
    }
}

/// The bits of a criterion are never the caller's to set.
pub proof fn lemma_criteria_leave_the_struct(
    state: BuilderModel,
    plan: ContainerPlan,
    guards: Seq<&Guard>,
    i: int,
)
    requires
        container_of(state, plan, guards) is Ok,
        0 <= i < container_of(state, plan, guards)->Ok_0.1.fields.len(),
    ensures
        ({
            let container = container_of(state, plan, guards)->Ok_0.1;
            !is_criterion(container.constants, container.fields[i])
        }),
{
    let name = plan.xtce_name@;
    let constants = constants_of(guards, name, guards.len())->Ok_0;
    lemma_fields_uncovered(state, plan.fields@, constants, name, plan.fields@.len());
    let given = fields_of(state, plan.fields@, constants, name, plan.fields@.len())->Ok_0.1;
    lemma_contextual(given, plan.fields@, name, given.len());
    let fields = contextual(given, plan.fields@, name, given.len())->Ok_0;
    assert(fields[i].bit_offset == given[i].0.bit_offset);
    assert(fields[i].bit_width == given[i].0.bit_width);
}

// ---------------------------------------------------------------------------------------
// Enumerations
// ---------------------------------------------------------------------------------------

proof fn lemma_place_from(list: Seq<Seq<EntryModel>>, key: Seq<EntryModel>, at: int)
    requires
        0 <= at,
    ensures
        match place_from(list, key, at) {
            Some(place) => at <= place < list.len() && list[place] == key,
            None => forall|i: int| at <= i < list.len() ==> #[trigger] list[i] != key,
        },
        forall|place: int|
            at <= place < list.len() && list[place] == key && (forall|i: int|
                at <= i < place ==> #[trigger] list[i] != key) ==> place_from(list, key, at)
                == Some(place),
    decreases list.len() - at,
{
    if at < list.len() && list[at] != key {
        lemma_place_from(list, key, at + 1);
    }
}

/// An enumeration that was lifted once is found again: two parameters with the same labels and
/// values, which their widths carry in the same bits, share one Rust type, whatever their names
/// and containers.
pub proof fn lemma_identical_enumerations_are_shared(
    state: BuilderModel,
    variants: Seq<(i128, i128, String)>,
    first: Seq<char>,
    first_width: int,
    first_container: Seq<char>,
    second: Seq<char>,
    second_width: int,
    second_container: Seq<char>,
)
    requires
        state.keys.len() == state.enums.len(),
        variants.len() > 0,
        enum_key(variants, first_width) == enum_key(variants, second_width),
    ensures
        ({
            let (after, index) = enumeration_of(
                state,
                variants,
                first,
                first_width,
                first_container,
            )->Ok_0;
            enumeration_of(after, variants, second, second_width, second_container) == Ok::<
                (BuilderModel, int),
                ErrorModel,
            >((after, index))
        }),
{
    let key = enum_key(variants, first_width);
    let (after, index) = enumeration_of(
        state,
        variants,
        first,
        first_width,
        first_container,
    )->Ok_0;
    lemma_place_from(state.keys, key, 0);
    lemma_place_from(after.keys, key, 0);
    if place_from(state.keys, key, 0) is None {
        assert(after.keys[index] == key);
        assert forall|i: int| 0 <= i < index implies #[trigger] after.keys[i] != key by {
            assert(after.keys[i] == state.keys[i]);
        }
    }
}

/// Whether what a builder holds of each enumeration is what became of its entries.
pub open spec fn lifted(state: BuilderModel) -> bool {
    &&& state.keys.len() == state.enums.len()
    &&& forall|i: int|
        0 <= i < state.enums.len() ==> carries_entries(
            (#[trigger] state.enums[i]).variants,
            state.keys[i],
        )
}

/// Whether variants have the bits and the labels of entries.
pub open spec fn carries_entries(variants: Seq<VariantModel>, entries: Seq<EntryModel>) -> bool {
    &&& variants.len() == entries.len()
    &&& forall|k: int|
        0 <= k < variants.len() ==> (#[trigger] variants[k]).raw == entries[k].raw
            && variants[k].label == entries[k].label
}

/// Whether an enumeration was lifted anew or found again, its variants carry its labels, each with
/// the bits that a field of this width has for its value.
pub proof fn lemma_enumeration_is_carried(
    state: BuilderModel,
    variants: Seq<(i128, i128, String)>,
    ident: Seq<char>,
    bit_width: int,
    container: Seq<char>,
)
    requires
        lifted(state),
        variants.len() > 0,
    ensures
        ({
            let (after, index) = enumeration_of(state, variants, ident, bit_width, container)->Ok_0;
            &&& lifted(after)
            &&& 0 <= index < after.enums.len()
            &&& after.enums[index].variants.len() == variants.len()
            &&& forall|k: int|
                0 <= k < variants.len() ==> (#[trigger] after.enums[index].variants[k]).raw
                    == low_part(variants[k].0 as int, bit_width)
                    && after.enums[index].variants[k].label == variants[k].2@
        }),
{
    let key = enum_key(variants, bit_width);
    let (after, index) = enumeration_of(state, variants, ident, bit_width, container)->Ok_0;
    lemma_place_from(state.keys, key, 0);
    assert(after.keys[index] == key);
    assert forall|i: int| 0 <= i < after.enums.len() implies carries_entries(
        (#[trigger] after.enums[i]).variants,
        after.keys[i],
    ) by {
        if i < state.enums.len() {
            assert(after.enums[i] == state.enums[i]);
            assert(after.keys[i] == state.keys[i]);
        }
    }
    assert(carries_entries(after.enums[index].variants, key));
    assert forall|k: int| 0 <= k < variants.len() implies (
    #[trigger] after.enums[index].variants[k]).raw == low_part(variants[k].0 as int, bit_width)
        && after.enums[index].variants[k].label == variants[k].2@ by {
        assert(key[k].raw == low_part(variants[k].0 as int, bit_width));
    }
}

/// What is handed out stays handed out.
proof fn lemma_handed_out_prefix(bases: Seq<Seq<char>>, at: nat, count: nat)
    requires
        at < count,
    ensures
        handed_out(bases, count).len() == count,
        handed_out(bases, count)[at as int] == fresh(handed_out(bases, at), bases[at as int]),
    decreases count,
{
    lemma_handed_out_once(bases, (count - 1) as nat);
    if at + 1 < count {
        lemma_handed_out_prefix(bases, at, (count - 1) as nat);
    }
}

/// Two labels of an enumeration become different identifiers.
pub proof fn lemma_labels_do_not_collide(
    variants: Seq<(i128, i128, String)>,
    bit_width: int,
    i: int,
    j: int,
)
    requires
        0 <= i < j < variants.len(),
    ensures
        variants_of(variants, bit_width)[i].ident != variants_of(variants, bit_width)[j].ident,
{
    let bases = variant_bases(variants);
    lemma_handed_out_once(bases, variants.len());
    lemma_handed_out_prefix(bases, i as nat, variants.len());
    lemma_handed_out_prefix(bases, j as nat, variants.len());
}

// ---------------------------------------------------------------------------------------
// Labels inside their fields
// ---------------------------------------------------------------------------------------

/// Whether the bits of every label that a field may hold stay inside it.
pub open spec fn labels_inside(field: FieldModel, enums: Seq<EnumModel>) -> bool {
    match field.kind {
        KindModel::Enumerated(index) => 0 <= index < enums.len() && forall|v: int|
            0 <= v < enums[index].variants.len() ==> (#[trigger] enums[index].variants[v]).raw
                < pow2(field.bit_width as nat),
        _ => true,
    }
}

/// Whether that holds of every field of a list of containers.
pub open spec fn all_labels_inside(
    containers: Seq<ContainerModel>,
    enums: Seq<EnumModel>,
) -> bool {
    forall|i: int, k: int|
        0 <= i < containers.len() && 0 <= k < containers[i].fields.len() ==> labels_inside(
            #[trigger] containers[i].fields[k],
            enums,
        )
}

/// Whether enumerations were added behind others.
spec fn grown(enums: Seq<EnumModel>, more: Seq<EnumModel>) -> bool {
    &&& enums.len() <= more.len()
    &&& forall|i: int| 0 <= i < enums.len() ==> #[trigger] more[i] == enums[i]
}

proof fn lemma_labels_stay(field: FieldModel, enums: Seq<EnumModel>, more: Seq<EnumModel>)
    requires
        labels_inside(field, enums),
        grown(enums, more),
    ensures
        labels_inside(field, more),
{
    if let KindModel::Enumerated(index) = field.kind {
        assert(more[index] == enums[index]);
    }
}

proof fn lemma_all_labels_stay(
    containers: Seq<ContainerModel>,
    enums: Seq<EnumModel>,
    more: Seq<EnumModel>,
)
    requires
        all_labels_inside(containers, enums),
        grown(enums, more),
    ensures
        all_labels_inside(containers, more),
{
    assert forall|i: int, k: int|
        0 <= i < containers.len() && 0 <= k < containers[i].fields.len() implies labels_inside(
        #[trigger] containers[i].fields[k],
        more,
    ) by {
        lemma_labels_stay(containers[i].fields[k], enums, more);
    }
}

proof fn lemma_field_labels(state: BuilderModel, field: Field, container: Seq<char>)
    requires
        lifted(state),
        field_of(state, field, container) is Ok,
    ensures
        ({
            let (after, model) = field_of(state, field, container)->Ok_0;
            &&& lifted(after)
            &&& grown(state.enums, after.enums)
            &&& labels_inside(model, after.enums)
        }),
{
    let (after, model) = field_of(state, field, container)->Ok_0;
    if let Repr::Enumerated(given) = field.repr {
        let width = model.bit_width;
        lemma_enumeration_is_carried(state, given@, field.ident@, width, container);
        lemma2_to64();
        lemma2_to64_rest();
        lemma_pow2_pos(width as nat);
        if width < 64 {
            lemma_pow2_strictly_increases(width as nat, 64);
        }
        let index = model.kind->Enumerated_0;
        assert forall|v: int| 0 <= v < after.enums[index].variants.len() implies (
        #[trigger] after.enums[index].variants[v]).raw < pow2(width as nat) by {
            lemma_mod_bound(given@[v].0 as int, pow2(width as nat) as int);
        }
    }
}

proof fn lemma_fields_labels(
    state: BuilderModel,
    fields: Seq<Field>,
    constants: Seq<ConstantModel>,
    container: Seq<char>,
    count: nat,
)
    requires
        lifted(state),
        fields_of(state, fields, constants, container, count) is Ok,
    ensures
        ({
            let (after, given) = fields_of(state, fields, constants, container, count)->Ok_0;
            &&& lifted(after)
            &&& grown(state.enums, after.enums)
            &&& forall|i: int|
                0 <= i < given.len() ==> labels_inside((#[trigger] given[i]).0, after.enums)
        }),
    decreases count,
{
    if count > 0 {
        lemma_fields_labels(state, fields, constants, container, (count - 1) as nat);
        let (before_state, before) = fields_of(
            state,
            fields,
            constants,
            container,
            (count - 1) as nat,
        )->Ok_0;
        let entry = fields[count - 1];
        if !is_covered(constants, entry) {
            let (after, field) = field_of(before_state, entry, container)->Ok_0;
            lemma_field_labels(before_state, entry, container);
            lemma_ident_from(before, field.ident, 0);
            let given = with_field(before, field, count - 1);
            assert forall|i: int| 0 <= i < state.enums.len() implies #[trigger] after.enums[i]
                == state.enums[i] by {
                assert(after.enums[i] == before_state.enums[i]);
            }
            assert forall|i: int| 0 <= i < given.len() implies labels_inside(
                (#[trigger] given[i]).0,
                after.enums,
            ) by {
                if given[i].0 != field {
                    assert(given[i] == before[i]);
                    lemma_labels_stay(before[i].0, before_state.enums, after.enums);
                }
            }
        }
    }
}

proof fn lemma_container_labels(
    state: BuilderModel,
    plan: ContainerPlan,
    guards: Seq<&Guard>,
    out: Seq<ContainerModel>,
)
    requires
        lifted(state),
        all_labels_inside(out, state.enums),
        container_of(state, plan, guards) is Ok,
    ensures
        ({
            let (after, container) = container_of(state, plan, guards)->Ok_0;
            &&& lifted(after)
            &&& all_labels_inside(out.push(container), after.enums)
        }),
{
    let name = plan.xtce_name@;
    let constants = constants_of(guards, name, guards.len())->Ok_0;
    lemma_fields_labels(state, plan.fields@, constants, name, plan.fields@.len());
    let (middle, given) = fields_of(
        state,
        plan.fields@,
        constants,
        name,
        plan.fields@.len(),
    )->Ok_0;
    lemma_contextual(given, plan.fields@, name, given.len());
    lemma_all_labels_stay(out, state.enums, middle.enums);
    let (after, container) = container_of(state, plan, guards)->Ok_0;
    let more = out.push(container);
    assert forall|i: int, k: int|
        0 <= i < more.len() && 0 <= k < more[i].fields.len() implies labels_inside(
        #[trigger] more[i].fields[k],
        after.enums,
    ) by {
        if i < out.len() {
            assert(more[i] == out[i]);
            assert(labels_inside(out[i].fields[k], middle.enums));
        } else {
            assert(labels_inside(given[k].0, middle.enums));
        }
    }
}

proof fn lemma_walk_labels(
    state: BuilderModel,
    node: Node,
    guards: Seq<&Guard>,
    containers: Seq<ContainerPlan>,
    out: Seq<ContainerModel>,
)
    requires
        lifted(state),
        all_labels_inside(out, state.enums),
        walk_of(state, node, guards, containers, out) is Ok,
    ensures
        ({
            let (after, built) = walk_of(state, node, guards, containers, out)->Ok_0;
            lifted(after) && all_labels_inside(built, after.enums)
        }),
    decreases node,
{
    if let Some(index) = node.plan {
        if index < containers.len() {
            lemma_container_labels(state, containers[index as int], guards, out);
        }
    }
    let (visited, more) = visit_of(state, node.plan, guards, containers, out)->Ok_0;
    lemma_walk_all_labels(
        visited,
        node.children@,
        guards,
        containers,
        more,
        node.children@.len(),
    );
}

proof fn lemma_walk_all_labels(
    state: BuilderModel,
    children: Seq<(Vec<Guard>, Node)>,
    guards: Seq<&Guard>,
    containers: Seq<ContainerPlan>,
    out: Seq<ContainerModel>,
    count: nat,
)
    requires
        lifted(state),
        all_labels_inside(out, state.enums),
        walk_all_of(state, children, guards, containers, out, count) is Ok,
    ensures
        ({
            let (after, built) = walk_all_of(state, children, guards, containers, out, count)->Ok_0;
            lifted(after) && all_labels_inside(built, after.enums)
        }),
    decreases children, count,
{
    if 0 < count <= children.len() {
        lemma_walk_all_labels(state, children, guards, containers, out, (count - 1) as nat);
        let (before, some) = walk_all_of(
            state,
            children,
            guards,
            containers,
            out,
            (count - 1) as nat,
        )->Ok_0;
        lemma_walk_labels(
            before,
            children[count - 1].1,
            guards + guard_refs(children[count - 1].0@),
            containers,
            some,
        );
    }
}

/// A label never has bits outside its field: of every field of a layout that was built, the bits of
/// every label of its enumeration fit the field's width.
pub proof fn lemma_labels_stay_inside(plan: Plan)
    requires
        layout_of(plan) is Ok,
    ensures
        all_labels_inside(layout_of(plan)->Ok_0.containers, layout_of(plan)->Ok_0.enums),
{
    let empty = BuilderModel { enums: Seq::empty(), keys: Seq::empty(), taken: Seq::empty() };
    lemma_walk_labels(empty, plan.root, Seq::empty(), plan.containers@, Seq::empty());
}

// ---------------------------------------------------------------------------------------
// Type names
// ---------------------------------------------------------------------------------------

/// Whether the type names of containers and enumerations, taken together, all differ.
pub open spec fn distinct_types(containers: Seq<ContainerModel>, enums: Seq<EnumModel>) -> bool {
    &&& forall|i: int, j: int|
        0 <= i < j < containers.len() ==> (#[trigger] containers[i]).type_ident != (
        #[trigger] containers[j]).type_ident
    &&& forall|i: int, j: int|
        0 <= i < j < enums.len() ==> (#[trigger] enums[i]).type_ident != (
        #[trigger] enums[j]).type_ident
    &&& forall|i: int, j: int|
        0 <= i < containers.len() && 0 <= j < enums.len() ==> (
        #[trigger] containers[i]).type_ident != (#[trigger] enums[j]).type_ident
}

/// Whether type names all differ, and all have been recorded.
pub open spec fn all_named(state: BuilderModel, containers: Seq<ContainerModel>) -> bool {
    &&& distinct_types(containers, state.enums)
    &&& forall|i: int|
        0 <= i < containers.len() ==> state.taken.contains((#[trigger] containers[i]).type_ident)
    &&& forall|i: int|
        0 <= i < state.enums.len() ==> state.taken.contains((#[trigger] state.enums[i]).type_ident)
}

proof fn lemma_push_contains(names: Seq<Seq<char>>, name: Seq<char>)
    ensures
        names.push(name).contains(name),
        forall|other: Seq<char>|
            names.contains(other) ==> #[trigger] names.push(name).contains(other),
{
    let more = names.push(name);
    assert(more[names.len() as int] == name);
    assert forall|other: Seq<char>| names.contains(other) implies #[trigger] more.contains(
        other,
    ) by {
        let i = choose|i: int| 0 <= i < names.len() && names[i] == other;
        assert(more[i] == other);
    }
}

proof fn lemma_enumeration_named(
    state: BuilderModel,
    variants: Seq<(i128, i128, String)>,
    ident: Seq<char>,
    bit_width: int,
    container: Seq<char>,
    out: Seq<ContainerModel>,
)
    requires
        all_named(state, out),
        variants.len() > 0,
    ensures
        all_named(enumeration_of(state, variants, ident, bit_width, container)->Ok_0.0, out),
{
    let base = identifier(letters_of(ident));
    let name = fresh(state.taken, base);
    lemma_some_free(state.taken, base);
    lemma_push_contains(state.taken, name);
    let (after, index) = enumeration_of(state, variants, ident, bit_width, container)->Ok_0;
    if place_from(state.keys, enum_key(variants, bit_width), 0) is None {
        assert(after.enums.last().type_ident == name);
        assert forall|i: int| 0 <= i < after.enums.len() implies after.taken.contains(
            (#[trigger] after.enums[i]).type_ident,
        ) by {
            if i < state.enums.len() {
                assert(after.enums[i] == state.enums[i]);
            }
        }
        assert forall|i: int, j: int| 0 <= i < j < after.enums.len() implies (
        #[trigger] after.enums[i]).type_ident != (#[trigger] after.enums[j]).type_ident by {
            assert(after.enums[i] == state.enums[i]);
            if j < state.enums.len() {
                assert(after.enums[j] == state.enums[j]);
            }
        }
        assert forall|i: int, j: int| 0 <= i < out.len() && 0 <= j < after.enums.len() implies (
        #[trigger] out[i]).type_ident != (#[trigger] after.enums[j]).type_ident by {
            if j < state.enums.len() {
                assert(after.enums[j] == state.enums[j]);
            }
        }
    }
}

proof fn lemma_fields_named(
    state: BuilderModel,
    fields: Seq<Field>,
    constants: Seq<ConstantModel>,
    container: Seq<char>,
    count: nat,
    out: Seq<ContainerModel>,
)
    requires
        all_named(state, out),
        fields_of(state, fields, constants, container, count) is Ok,
    ensures
        all_named(fields_of(state, fields, constants, container, count)->Ok_0.0, out),
    decreases count,
{
    if count > 0 {
        lemma_fields_named(state, fields, constants, container, (count - 1) as nat, out);
        let before = fields_of(state, fields, constants, container, (count - 1) as nat)->Ok_0.0;
        let field = fields[count - 1];
        if let Repr::Enumerated(given) = field.repr {
            if given@.len() > 0 {
                if let Some((bit_offset, bit_width)) = field.span {
                    lemma_enumeration_named(
                        before,
                        given@,
                        field.ident@,
                        bit_width as int,
                        container,
                        out,
                    );
                }
            }
        }
    }
}

proof fn lemma_container_named(
    state: BuilderModel,
    plan: ContainerPlan,
    guards: Seq<&Guard>,
    out: Seq<ContainerModel>,
)
    requires
        all_named(state, out),
        container_of(state, plan, guards) is Ok,
    ensures
        ({
            let (after, container) = container_of(state, plan, guards)->Ok_0;
            all_named(after, out.push(container))
        }),
{
    let name = plan.xtce_name@;
    let constants = constants_of(guards, name, guards.len())->Ok_0;
    lemma_fields_named(state, plan.fields@, constants, name, plan.fields@.len(), out);
    let middle = fields_of(state, plan.fields@, constants, name, plan.fields@.len())->Ok_0.0;
    let base = identifier(letters_of(name));
    lemma_some_free(middle.taken, base);
    lemma_push_contains(middle.taken, fresh(middle.taken, base));
    let (after, container) = container_of(state, plan, guards)->Ok_0;
    let more = out.push(container);
    assert(after.enums == middle.enums);
    assert forall|i: int| 0 <= i < more.len() implies after.taken.contains(
        (#[trigger] more[i]).type_ident,
    ) by {
        if i < out.len() {
            assert(more[i] == out[i]);
        }
    }
    assert forall|i: int, j: int| 0 <= i < j < more.len() implies (#[trigger] more[i]).type_ident
        != (#[trigger] more[j]).type_ident by {
        assert(more[i] == out[i]);
        if j < out.len() {
            assert(more[j] == out[j]);
        }
    }
    assert forall|i: int, j: int| 0 <= i < more.len() && 0 <= j < after.enums.len() implies (
    #[trigger] more[i]).type_ident != (#[trigger] after.enums[j]).type_ident by {
        if i < out.len() {
            assert(more[i] == out[i]);
        }
    }
}

proof fn lemma_walk_named(
    state: BuilderModel,
    node: Node,
    guards: Seq<&Guard>,
    containers: Seq<ContainerPlan>,
    out: Seq<ContainerModel>,
)
    requires
        all_named(state, out),
        walk_of(state, node, guards, containers, out) is Ok,
    ensures
        ({
            let (after, all) = walk_of(state, node, guards, containers, out)->Ok_0;
            all_named(after, all)
        }),
    decreases node,
{
    if let Some(index) = node.plan {
        if index < containers.len() {
            lemma_container_named(state, containers[index as int], guards, out);
        }
    }
    let (visited, more) = visit_of(state, node.plan, guards, containers, out)->Ok_0;
    lemma_walk_all_named(
        visited,
        node.children@,
        guards,
        containers,
        more,
        node.children@.len(),
    );
}

proof fn lemma_walk_all_named(
    state: BuilderModel,
    children: Seq<(Vec<Guard>, Node)>,
    guards: Seq<&Guard>,
    containers: Seq<ContainerPlan>,
    out: Seq<ContainerModel>,
    count: nat,
)
    requires
        all_named(state, out),
        walk_all_of(state, children, guards, containers, out, count) is Ok,
    ensures
        ({
            let (after, all) = walk_all_of(state, children, guards, containers, out, count)->Ok_0;
            all_named(after, all)
        }),
    decreases children, count,
{
    if 0 < count <= children.len() {
        lemma_walk_all_named(state, children, guards, containers, out, (count - 1) as nat);
        let (before, some) = walk_all_of(
            state,
            children,
            guards,
            containers,
            out,
            (count - 1) as nat,
        )->Ok_0;
        lemma_walk_named(
            before,
            children[count - 1].1,
            guards + guard_refs(children[count - 1].0@),
            containers,
            some,
        );
    }
}

/// No two types of a layout have one name: the type names of its containers and of its
/// enumerations, taken together, all differ.
pub proof fn lemma_type_names_are_distinct(plan: Plan)
    requires
        layout_of(plan) is Ok,
    ensures
        distinct_types(layout_of(plan)->Ok_0.containers, layout_of(plan)->Ok_0.enums),
{
    let empty = BuilderModel { enums: Seq::empty(), keys: Seq::empty(), taken: Seq::empty() };
    lemma_walk_named(empty, plan.root, Seq::empty(), plan.containers@, Seq::empty());
}

// ---------------------------------------------------------------------------------------
// Validity
// ---------------------------------------------------------------------------------------

/// Whether every run of bits that a planned container names ends by `limit`, and none that it
/// must write is empty.
pub open spec fn ends_by(plan: ContainerPlan, guards: Seq<&Guard>, limit: int) -> bool {
    &&& forall|i: int|
        0 <= i < plan.fields@.len() ==> entry_fits(#[trigger] plan.fields@[i], limit)
    &&& forall|i: int|
        0 <= i < guards.len() ==> 1 <= (#[trigger] guards[i]).bit_width && guards[i].bit_offset
            + guards[i].bit_width <= limit
    &&& forall|i: int|
        0 <= i < plan.fixed@.len() ==> 1 <= (#[trigger] plan.fixed@[i]).bit_width
            && plan.fixed@[i].bit_offset + plan.fixed@[i].bit_width <= limit
}

/// Whether every run of bits that a planned container names can be counted or, where it has to
/// lie inside, lies inside the container. Nothing more is asked of a container whose length comes
/// from the packet.
pub open spec fn container_fits(plan: ContainerPlan, guards: Seq<&Guard>, inside: bool) -> bool {
    &&& ends_by(plan, guards, usize::MAX as int)
    &&& inside ==> match plan.bit_length {
        Some(bits) => ends_by(plan, guards, bits as int),
        None => true,
    }
}

/// Whether an entry ends by `limit`, if it has a place at all.
pub open spec fn entry_fits(field: Field, limit: int) -> bool {
    match field.span {
        Some((bit_offset, bit_width)) => bit_offset + bit_width <= limit,
        None => true,
    }
}

/// Whether that holds of the container of a node.
pub open spec fn node_fits(
    index: Option<usize>,
    guards: Seq<&Guard>,
    containers: Seq<ContainerPlan>,
    inside: bool,
) -> bool {
    match index {
        Some(index) => index < containers.len() ==> container_fits(
            containers[index as int],
            guards,
            inside,
        ),
        None => true,
    }
}

/// Whether that holds of every container of a tree.
pub open spec fn tree_fits(
    node: Node,
    guards: Seq<&Guard>,
    containers: Seq<ContainerPlan>,
    inside: bool,
) -> bool
    decreases node,
{
    node_fits(node.plan, guards, containers, inside) && trees_fit(
        node.children@,
        guards,
        containers,
        inside,
        node.children@.len(),
    )
}

/// Whether that holds of the first `count` children.
pub open spec fn trees_fit(
    children: Seq<(Vec<Guard>, Node)>,
    guards: Seq<&Guard>,
    containers: Seq<ContainerPlan>,
    inside: bool,
    count: nat,
) -> bool
    decreases children, count,
{
    count == 0 || count > children.len() || (trees_fit(
        children,
        guards,
        containers,
        inside,
        (count - 1) as nat,
    ) && tree_fits(
        children[count - 1].1,
        guards + guard_refs(children[count - 1].0@),
        containers,
        inside,
    ))
}

/// Whether every run of bits that a plan names lies inside its container.
pub open spec fn plan_fits(plan: Plan) -> bool {
    tree_fits(plan.root, Seq::empty(), plan.containers@, true)
}

/// Whether every run of bits that a plan names can be counted.
pub open spec fn plan_counts(plan: Plan) -> bool {
    tree_fits(plan.root, Seq::empty(), plan.containers@, false)
}

/// Whether a run of bits ends by `limit`.
fn run_ends_by(bit_offset: usize, bit_width: u32, limit: usize) -> (ends: bool)
    ensures
        ends == (bit_offset + bit_width <= limit),
{
    let width = bit_width as usize;
    width <= limit && bit_offset <= limit - width
}

/// Whether every run of bits that a planned container names ends by `limit`, and none that it
/// must write is empty.
fn all_end_by(plan: &ContainerPlan, guards: &Vec<&Guard>, limit: usize) -> (ends: bool)
    ensures
        ends == ends_by(*plan, guards@, limit as int),
{
    let mut at: usize = 0;
    while at < plan.fields.len()
        invariant
            at <= plan.fields@.len(),
            forall|i: int| 0 <= i < at ==> entry_fits(#[trigger] plan.fields@[i], limit as int),
        decreases plan.fields@.len() - at,
    {
        if let Some((bit_offset, bit_width)) = plan.fields[at].span {
            if !run_ends_by(bit_offset, bit_width, limit) {
                assert(!entry_fits(plan.fields@[at as int], limit as int));
                return false;
            }
        }
        at = at + 1;
    }
    let mut at: usize = 0;
    while at < guards.len()
        invariant
            at <= guards@.len(),
            forall|i: int|
                0 <= i < at ==> 1 <= (#[trigger] guards@[i]).bit_width && guards@[i].bit_offset
                    + guards@[i].bit_width <= limit,
        decreases guards@.len() - at,
    {
        let guard = guards[at];
        if guard.bit_width < 1 || !run_ends_by(guard.bit_offset, guard.bit_width, limit) {
            assert(*guard == *guards@[at as int]);
            return false;
        }
        at = at + 1;
    }
    let mut at: usize = 0;
    while at < plan.fixed.len()
        invariant
            at <= plan.fixed@.len(),
            forall|i: int|
                0 <= i < at ==> 1 <= (#[trigger] plan.fixed@[i]).bit_width
                    && plan.fixed@[i].bit_offset + plan.fixed@[i].bit_width <= limit,
        decreases plan.fixed@.len() - at,
    {
        let fixed = &plan.fixed[at];
        if fixed.bit_width < 1 || !run_ends_by(fixed.bit_offset, fixed.bit_width, limit) {
            assert(*fixed == plan.fixed@[at as int]);
            return false;
        }
        at = at + 1;
    }
    true
}

/// Whether the runs of bits of a tree can be counted or, where they have to lie inside their
/// containers, lie there.
fn tree_holds<'p>(
    node: &'p Node,
    guards: &mut Vec<&'p Guard>,
    containers: &'p Vec<ContainerPlan>,
    inside: bool,
) -> (holds: bool)
    ensures
        holds == tree_fits(*node, old(guards)@, containers@, inside),
        holds ==> final(guards)@ == old(guards)@,
    decreases node,
{
    let ghost path = guards@;
    if let Some(index) = node.plan {
        if index < containers.len() {
            let plan = &containers[index];
            if !all_end_by(plan, guards, usize::MAX) {
                return false;
            }
            if inside {
                if let Some(bits) = plan.bit_length {
                    if !all_end_by(plan, guards, bits) {
                        return false;
                    }
                }
            }
        }
    }
    let mut at: usize = 0;
    while at < node.children.len()
        invariant
            at <= node.children@.len(),
            guards@ == path,
            path == old(guards)@,
            node_fits(node.plan, path, containers@, inside),
            trees_fit(node.children@, path, containers@, inside, at as nat),
        decreases node.children@.len() - at,
    {
        let depth = guards.len();
        let criteria = &node.children[at].0;
        let mut next: usize = 0;
        assert(guard_refs(criteria@).take(0) =~= Seq::empty());
        while next < criteria.len()
            invariant
                next <= criteria@.len(),
                guards@ == path + guard_refs(criteria@).take(next as int),
            decreases criteria@.len() - next,
        {
            guards.push(&criteria[next]);
            assert(guard_refs(criteria@).take(next + 1) =~= guard_refs(criteria@).take(
                next as int,
            ).push(&criteria@[next as int]));
            assert(guards@ =~= path + guard_refs(criteria@).take(next + 1));
            next = next + 1;
        }
        assert(guard_refs(criteria@).take(next as int) =~= guard_refs(criteria@));
        if !tree_holds(&node.children[at].1, guards, containers, inside) {
            proof {
                lemma_trees_stop(
                    node.children@,
                    path,
                    containers@,
                    inside,
                    (at + 1) as nat,
                    node.children@.len(),
                );
            }
            return false;
        }
        guards.truncate(depth);
        assert(guards@ =~= path);
        at = at + 1;
    }
    true
}

/// Where some of the children do not fit, all of them do not.
proof fn lemma_trees_stop(
    children: Seq<(Vec<Guard>, Node)>,
    guards: Seq<&Guard>,
    containers: Seq<ContainerPlan>,
    inside: bool,
    at: nat,
    count: nat,
)
    requires
        at <= count <= children.len(),
        !trees_fit(children, guards, containers, inside, at),
    ensures
        !trees_fit(children, guards, containers, inside, count),
    decreases count - at,
{
    if at < count {
        lemma_trees_stop(children, guards, containers, inside, at, (count - 1) as nat);
    }
}

/// Whether every run of bits that a plan names lies inside its container.
pub fn fits(plan: &Plan) -> (fits: bool)
    ensures
        fits == plan_fits(*plan),
{
    let mut guards: Vec<&Guard> = Vec::new();
    tree_holds(&plan.root, &mut guards, &plan.containers, true)
}

/// Whether every run of bits that a plan names can be counted.
pub fn counts(plan: &Plan) -> (counts: bool)
    ensures
        counts == plan_counts(*plan),
{
    let mut guards: Vec<&Guard> = Vec::new();
    tree_holds(&plan.root, &mut guards, &plan.containers, false)
}

proof fn lemma_kind_of(
    state: BuilderModel,
    field: Field,
    bit_offset: int,
    bit_width: int,
    container: Seq<char>,
)
    requires
        state.keys.len() == state.enums.len(),
        kind_of(state, field, bit_offset, bit_width, container) is Ok,
    ensures
        ({
            let (after, kind) = kind_of(state, field, bit_offset, bit_width, container)->Ok_0;
            &&& after.keys.len() == after.enums.len()
            &&& state.enums.len() <= after.enums.len()
            &&& kind matches KindModel::Enumerated(index) ==> 0 <= index < after.enums.len()
            &&& kind.borrows() == field.repr.spec_borrows()
        }),
{
    match field.repr {
        Repr::Enumerated(given) => {
            lemma_place_from(state.keys, enum_key(given@, bit_width), 0);
        },
        _ => {},
    }
}

/// A field that was accepted has code, and can be written where it lies inside its container.
proof fn lemma_field_valid(state: BuilderModel, field: Field, container: Seq<char>, limit: int)
    requires
        state.keys.len() == state.enums.len(),
        field_of(state, field, container) is Ok,
        entry_fits(field, limit),
        limit <= usize::MAX,
    ensures
        ({
            let (after, model) = field_of(state, field, container)->Ok_0;
            &&& after.keys.len() == after.enums.len()
            &&& state.enums.len() <= after.enums.len()
            &&& model.emittable()
            &&& model.valid(after.enums, bytes_for(limit))
        }),
{
    let (bit_offset, bit_width) = field.span->Some_0;
    lemma_kind_of(state, field, bit_offset as int, bit_width as int, container);
}

/// A field stays valid when enumerations are added.
proof fn lemma_field_stays_valid(
    field: FieldModel,
    enums: Seq<EnumModel>,
    more: Seq<EnumModel>,
    len: int,
)
    requires
        field.valid(enums, len),
        enums.len() <= more.len(),
    ensures
        field.valid(more, len),
{
}

proof fn lemma_fields_valid(
    state: BuilderModel,
    fields: Seq<Field>,
    constants: Seq<ConstantModel>,
    container: Seq<char>,
    count: nat,
    limit: int,
)
    requires
        state.keys.len() == state.enums.len(),
        count <= fields.len(),
        limit <= usize::MAX,
        fields_of(state, fields, constants, container, count) is Ok,
        forall|i: int| 0 <= i < fields.len() ==> entry_fits(#[trigger] fields[i], limit),
    ensures
        ({
            let (after, given) = fields_of(state, fields, constants, container, count)->Ok_0;
            &&& after.keys.len() == after.enums.len()
            &&& state.enums.len() <= after.enums.len()
            &&& forall|i: int|
                0 <= i < given.len() ==> (#[trigger] given[i]).0.emittable() && given[i].0.valid(
                    after.enums,
                    bytes_for(limit),
                )
        }),
    decreases count,
{
    if count > 0 {
        lemma_fields_valid(state, fields, constants, container, (count - 1) as nat, limit);
        let (before_state, before) = fields_of(
            state,
            fields,
            constants,
            container,
            (count - 1) as nat,
        )->Ok_0;
        let entry = fields[count - 1];
        if !is_covered(constants, entry) {
            let (after, field) = field_of(before_state, entry, container)->Ok_0;
            lemma_field_valid(before_state, entry, container, limit);
            lemma_ident_from(before, field.ident, 0);
            let given = with_field(before, field, count - 1);
            assert forall|i: int| 0 <= i < given.len() implies (#[trigger] given[i]).0.emittable()
                && given[i].0.valid(after.enums, bytes_for(limit)) by {
                if given[i].0 != field {
                    assert(given[i] == before[i]);
                    lemma_field_stays_valid(
                        before[i].0,
                        before_state.enums,
                        after.enums,
                        bytes_for(limit),
                    );
                }
            }
        }
    }
}

proof fn lemma_constants_valid(
    guards: Seq<&Guard>,
    container: Seq<char>,
    count: nat,
    limit: int,
)
    requires
        count <= guards.len(),
        limit <= usize::MAX,
        constants_of(guards, container, count) is Ok,
        forall|i: int|
            0 <= i < guards.len() ==> 1 <= (#[trigger] guards[i]).bit_width && guards[i].bit_offset
                + guards[i].bit_width <= limit,
    ensures
        ({
            let constants = constants_of(guards, container, count)->Ok_0;
            &&& constants.len() == count
            &&& forall|i: int|
                0 <= i < count ==> (#[trigger] constants[i]).emittable() && constants[i].valid(
                    bytes_for(limit),
                )
        }),
    decreases count,
{
    if count > 0 {
        lemma_constants_valid(guards, container, (count - 1) as nat, limit);
        let before = constants_of(guards, container, (count - 1) as nat)->Ok_0;
        let constants = constants_of(guards, container, count)->Ok_0;
        let guard = guards[count - 1];
        lemma_criterion_reads_back(*guard, container);
        assert forall|i: int| 0 <= i < count implies (#[trigger] constants[i]).emittable()
            && constants[i].valid(bytes_for(limit)) by {
            if i < count - 1 {
                assert(constants[i] == before[i]);
            }
        }
    }
}

proof fn lemma_fixed_valid(
    entries: Seq<FixedEntry>,
    container: Seq<char>,
    count: nat,
    limit: int,
)
    requires
        count <= entries.len(),
        limit <= usize::MAX,
        all_fixed_of(entries, container, count) is Ok,
        forall|i: int|
            0 <= i < entries.len() ==> 1 <= (#[trigger] entries[i]).bit_width
                && entries[i].bit_offset + entries[i].bit_width <= limit,
    ensures
        ({
            let fixed = all_fixed_of(entries, container, count)->Ok_0;
            &&& fixed.len() == count
            &&& forall|i: int|
                0 <= i < count ==> (#[trigger] fixed[i]).emittable() && fixed[i].valid(
                    bytes_for(limit),
                )
        }),
    decreases count,
{
    if count > 0 {
        lemma_fixed_valid(entries, container, (count - 1) as nat, limit);
        let before = all_fixed_of(entries, container, (count - 1) as nat)->Ok_0;
        let fixed = all_fixed_of(entries, container, count)->Ok_0;
        let entry = entries[count - 1];
        let width = entry.bit_width as int;
        lemma_fixed_value_is_reduced(entry.value@, width);
        lemma_pow2_pos(width as nat);
        lemma_mod_bound(bytes_value(entry.value@) as int, pow2(width as nat) as int);
        assert forall|i: int| 0 <= i < count implies (#[trigger] fixed[i]).emittable()
            && fixed[i].valid(bytes_for(limit)) by {
            if i < count - 1 {
                assert(fixed[i] == before[i]);
            }
        }
    }
}

/// A container whose runs of bits can be counted has code, and where they lie inside it, it can be
/// encoded.
pub proof fn lemma_container_valid(
    state: BuilderModel,
    plan: ContainerPlan,
    guards: Seq<&Guard>,
    inside: bool,
)
    requires
        state.keys.len() == state.enums.len(),
        container_fits(plan, guards, inside),
        container_of(state, plan, guards) is Ok,
    ensures
        ({
            let (after, container) = container_of(state, plan, guards)->Ok_0;
            &&& after.keys.len() == after.enums.len()
            &&& state.enums.len() <= after.enums.len()
            &&& container.emittable()
            &&& inside ==> container.valid(after.enums)
        }),
{
    let name = plan.xtce_name@;
    let bits = plan.bit_length->Some_0;
    let limit = if inside {
        bits as int
    } else {
        usize::MAX as int
    };
    let constants = constants_of(guards, name, guards.len())->Ok_0;
    lemma_constants_valid(guards, name, guards.len(), limit);
    lemma_fields_valid(state, plan.fields@, constants, name, plan.fields@.len(), limit);
    let (after, given) = fields_of(
        state,
        plan.fields@,
        constants,
        name,
        plan.fields@.len(),
    )->Ok_0;
    lemma_contextual(given, plan.fields@, name, given.len());
    lemma_fixed_valid(plan.fixed@, name, plan.fixed@.len(), limit);
    let fields = contextual(given, plan.fields@, name, given.len())->Ok_0;
    assert forall|i: int| 0 <= i < fields.len() implies (#[trigger] fields[i]).emittable()
        && fields[i].valid(after.enums, bytes_for(limit)) by {
        assert(given[i].0.emittable() && given[i].0.valid(after.enums, bytes_for(limit)));
    }
}

/// Whether every container of a list has code and, where it has to, can be encoded.
spec fn all_valid(
    containers: Seq<ContainerModel>,
    enums: Seq<EnumModel>,
    inside: bool,
) -> bool {
    forall|i: int|
        0 <= i < containers.len() ==> (#[trigger] containers[i]).emittable() && (inside
            ==> containers[i].valid(enums))
}

proof fn lemma_all_stay_valid(
    containers: Seq<ContainerModel>,
    enums: Seq<EnumModel>,
    more: Seq<EnumModel>,
    inside: bool,
)
    requires
        all_valid(containers, enums, inside),
        enums.len() <= more.len(),
    ensures
        all_valid(containers, more, inside),
{
    assert forall|i: int| 0 <= i < containers.len() implies (#[trigger] containers[i]).emittable()
        && (inside ==> containers[i].valid(more)) by {
        let container = containers[i];
        if inside {
            assert forall|k: int| 0 <= k < container.fields.len() implies (
            #[trigger] container.fields[k]).valid(more, container.len_bytes) by {
                lemma_field_stays_valid(container.fields[k], enums, more, container.len_bytes);
            }
        }
    }
}

proof fn lemma_walk_valid(
    state: BuilderModel,
    node: Node,
    guards: Seq<&Guard>,
    containers: Seq<ContainerPlan>,
    out: Seq<ContainerModel>,
    inside: bool,
)
    requires
        state.keys.len() == state.enums.len(),
        tree_fits(node, guards, containers, inside),
        all_valid(out, state.enums, inside),
        walk_of(state, node, guards, containers, out) is Ok,
    ensures
        ({
            let (after, built) = walk_of(state, node, guards, containers, out)->Ok_0;
            &&& after.keys.len() == after.enums.len()
            &&& state.enums.len() <= after.enums.len()
            &&& all_valid(built, after.enums, inside)
        }),
    decreases node,
{
    let (visited_state, visited) = visit_of(state, node.plan, guards, containers, out)->Ok_0;
    match node.plan {
        Some(index) => {
            lemma_container_valid(state, containers[index as int], guards, inside);
            lemma_all_stay_valid(out, state.enums, visited_state.enums, inside);
        },
        None => {},
    }
    lemma_walk_all_valid(
        visited_state,
        node.children@,
        guards,
        containers,
        visited,
        node.children@.len(),
        inside,
    );
}

proof fn lemma_walk_all_valid(
    state: BuilderModel,
    children: Seq<(Vec<Guard>, Node)>,
    guards: Seq<&Guard>,
    containers: Seq<ContainerPlan>,
    out: Seq<ContainerModel>,
    count: nat,
    inside: bool,
)
    requires
        state.keys.len() == state.enums.len(),
        trees_fit(children, guards, containers, inside, count),
        count <= children.len(),
        all_valid(out, state.enums, inside),
        walk_all_of(state, children, guards, containers, out, count) is Ok,
    ensures
        ({
            let (after, built) = walk_all_of(
                state,
                children,
                guards,
                containers,
                out,
                count,
            )->Ok_0;
            &&& after.keys.len() == after.enums.len()
            &&& state.enums.len() <= after.enums.len()
            &&& all_valid(built, after.enums, inside)
        }),
    decreases children, count,
{
    if count > 0 {
        lemma_walk_all_valid(
            state,
            children,
            guards,
            containers,
            out,
            (count - 1) as nat,
            inside,
        );
        let (before_state, before) = walk_all_of(
            state,
            children,
            guards,
            containers,
            out,
            (count - 1) as nat,
        )->Ok_0;
        lemma_walk_valid(
            before_state,
            children[count - 1].1,
            guards + guard_refs(children[count - 1].0@),
            containers,
            before,
            inside,
        );
    }
}

/// A plan whose runs of bits lie inside their containers becomes a layout whose packets can be
/// encoded and decoded.
pub proof fn lemma_layout_valid(plan: Plan)
    requires
        plan_fits(plan),
        layout_of(plan) is Ok,
    ensures
        layout_of(plan)->Ok_0.valid(),
        layout_of(plan)->Ok_0.containers.len() > 0,
{
    let empty = BuilderModel { enums: Seq::empty(), keys: Seq::empty(), taken: Seq::empty() };
    lemma_walk_valid(empty, plan.root, Seq::empty(), plan.containers@, Seq::empty(), true);
}

/// A plan whose runs of bits can be counted becomes a layout that has code.
pub proof fn lemma_layout_emittable(plan: Plan)
    requires
        plan_counts(plan),
        layout_of(plan) is Ok,
    ensures
        layout_of(plan)->Ok_0.emittable(),
{
    let empty = BuilderModel { enums: Seq::empty(), keys: Seq::empty(), taken: Seq::empty() };
    lemma_walk_valid(empty, plan.root, Seq::empty(), plan.containers@, Seq::empty(), false);
}

} // verus!
