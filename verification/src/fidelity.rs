//! A layout says what its plan says.
//!
//! What a builder decides is stated where it decides it. Here is what holds of its decisions, seen
//! from the definition: nothing is lost, nothing is made up, and what is refused is what cannot be
//! written.

use vstd::prelude::*;

use crate::builder::{
    above_first_order, all_fixed_of, any_above_first_order, constant_of, constants_of, container_of,
    contexts_of, contextual, criteria_of, criterion_of, enumeration_of, field_of, fields_of,
    fixed_of, guard_refs, ident_from, is_covered, is_same_span, layout_of, occupant_from, test_of,
    text_objection, unsourced, visit_of, walk_all_of, walk_of, with_field, BuilderModel,
    DYNAMIC_WIDTH, EMPTY_TERMINATOR, FLOAT_WIDTH, HIGH_ORDER, LONG_PREFIX, LONG_TERMINATOR,
    MANY_TO_ONE, NOT_AN_EQUALITY, NOT_A_NUMBER, NOT_CARRIED, NO_LABELS, NUMBER_WIDTH, PREFIX_WIDTH,
    UNALIGNED_BINARY, UNALIGNED_FIXED, UNALIGNED_PREFIX, UNALIGNED_TEXT, UNINVERTIBLE_CRITERION,
    UNINVERTIBLE_FIELD, WIDE_BOOLEAN, WIDE_CRITERION,
};
use crate::code::conditions::{criteria_read, criterion_reads, field_named};
use crate::error::{refused, ErrorModel};
use crate::layout::{
    delimiter_fits, ConstantModel, ContainerModel, ContextModel, CriterionModel, FieldModel,
    FixedModel, KindModel, TestModel,
};
use crate::plan::{
    calibration_model, Calibration, CompareOp, ContainerPlan, DelimiterModel, Field, FixedEntry,
    Guard, Node, Plan, PlanContext, PlanCriterion, PlanTest, Repr,
};
use crate::structure::{distinct_idents, lemma_contextual, lemma_fields_have_different_names};

verus! {

// ---------------------------------------------------------------------------------------
// Entries
// ---------------------------------------------------------------------------------------

/// A string has code exactly where it has whole bytes and its delimiter fits them.
pub proof fn lemma_text_is_refused_where_it_does_not_fit(
    delimiter: DelimiterModel,
    bit_offset: int,
    bit_width: int,
)
    ensures
        text_objection(delimiter, bit_offset, bit_width) is None <==> bit_offset % 8 == 0
            && bit_width % 8 == 0 && delimiter_fits(delimiter, bit_width),
{
}

/// The order of a calibrator: that of a spline, and none of a polynomial.
pub open spec fn order_of(calibration: Calibration) -> int {
    match calibration {
        Calibration::Polynomial(_) => 0,
        Calibration::Spline(spline) => spline.order as int,
    }
}

/// Whether a representation can be written in a run of bits.
pub open spec fn fits_its_bits(field: Field, bit_offset: int, bit_width: int) -> bool {
    let aligned = bit_offset % 8 == 0 && bit_width % 8 == 0;
    match field.repr {
        Repr::Text { charset, delimiter } => aligned && delimiter_fits(delimiter@, bit_width),
        Repr::Binary => aligned,
        Repr::MilStd1750A => false,
        repr => {
            &&& 1 <= bit_width <= 64
            &&& field.swap_bytes ==> bit_width % 8 == 0
            &&& repr is Float16 ==> bit_width == 16
            &&& repr is Float32 ==> bit_width == 32
            &&& repr is Float64 ==> bit_width == 64
        },
    }
}

/// An entry becomes a field exactly where its place is known, its representation can be written
/// there, none of its calibrators is above first order, and its enumeration has an enum.
pub proof fn lemma_entry_is_refused_where_it_cannot_be_written(
    state: BuilderModel,
    field: Field,
    container: Seq<char>,
)
    ensures
        field_of(state, field, container) is Ok <==> {
            &&& field.span matches Some((bit_offset, bit_width)) && fits_its_bits(
                field,
                bit_offset as int,
                bit_width as int,
            ) && (field.repr matches Repr::Enumerated(given) ==> enumeration_of(
                state,
                given@,
                field.ident@,
                bit_width as int,
                container,
            ) is Ok)
            &&& field.calibration matches Some(calibration) ==> order_of(calibration) <= 1
            &&& forall|i: int|
                0 <= i < field.contexts@.len() ==> order_of(
                    (#[trigger] field.contexts@[i]).calibration,
                ) <= 1
        },
{
    if field.span is Some {
        let (bit_offset, bit_width) = field.span->Some_0;
        match field.repr {
            Repr::Text { charset, delimiter } => {
                lemma_text_is_refused_where_it_does_not_fit(
                    delimiter@,
                    bit_offset as int,
                    bit_width as int,
                );
            },
            _ => {},
        }
    }
    if forall|i: int|
        0 <= i < field.contexts@.len() ==> order_of((#[trigger] field.contexts@[i]).calibration)
            <= 1 {
        assert forall|i: int|
            0 <= i < field.contexts@.len() implies !above_first_order(
            (#[trigger] field.contexts@[i]).calibration,
        ) by {
            assert(order_of(field.contexts@[i].calibration) <= 1);
        }
    } else {
        let i = choose|i: int|
            0 <= i < field.contexts@.len() && order_of(
                (#[trigger] field.contexts@[i]).calibration,
            ) > 1;
        assert(above_first_order(field.contexts@[i].calibration));
    }
}

/// Whether the caller supplies for a field what its entry represents.
pub open spec fn represents(kind: KindModel, repr: Repr) -> bool {
    match (kind, repr) {
        (KindModel::Unsigned, Repr::Unsigned) => true,
        (KindModel::Signed(coding), Repr::Signed(given)) => coding == given,
        (KindModel::Float16, Repr::Float16) => true,
        (KindModel::Float32, Repr::Float32) => true,
        (KindModel::Float64, Repr::Float64) => true,
        (KindModel::Bool, Repr::Bool) => true,
        (KindModel::Enumerated(_), Repr::Enumerated(_)) => true,
        (KindModel::Text(charset, delimiter), Repr::Text { charset: set, delimiter: given }) =>
            charset == set && delimiter == given@,
        (KindModel::Binary, Repr::Binary) => true,
        _ => false,
    }
}

/// Whether a field is what an entry says: its names, its bits, its byte order, its representation
/// and its calibrator.
pub open spec fn is_of(built: FieldModel, entry: Field) -> bool {
    &&& built.xtce_name == entry.xtce_name@
    &&& built.ident == entry.ident@
    &&& entry.span matches Some((bit_offset, bit_width)) && built.bit_offset == bit_offset
        && built.bit_width == bit_width
    &&& built.swap_bytes == entry.swap_bytes
    &&& represents(built.kind, entry.repr)
    &&& built.calibration == calibration_model(entry.calibration)
}

/// A field is what its entry says.
pub proof fn lemma_field_is_of_its_entry(state: BuilderModel, entry: Field, container: Seq<char>)
    requires
        field_of(state, entry, container) is Ok,
    ensures
        is_of(field_of(state, entry, container)->Ok_0.1, entry),
{
}

/// Whether no criterion has exactly the bits of an entry.
pub open spec fn is_the_callers(constants: Seq<ConstantModel>, entry: Field) -> bool {
    entry.span matches Some((bit_offset, bit_width)) ==> forall|k: int|
        0 <= k < constants.len() ==> (#[trigger] constants[k]).bit_offset != bit_offset
            || constants[k].bit_width != bit_width
}

proof fn lemma_covered(constants: Seq<ConstantModel>, entry: Field)
    ensures
        is_covered(constants, entry) == !is_the_callers(constants, entry),
{
    if is_covered(constants, entry) {
        let k = choose|k: int|
            0 <= k < constants.len() && is_same_span(#[trigger] constants[k], entry);
        assert(is_same_span(constants[k], entry));
    } else if entry.span is Some {
        let (bit_offset, bit_width) = entry.span->Some_0;
        assert forall|k: int| 0 <= k < constants.len() implies (
        #[trigger] constants[k]).bit_offset != bit_offset || constants[k].bit_width
            != bit_width by {
            assert(!is_same_span(constants[k], entry));
        }
    }
}

proof fn lemma_ident_found(fields: Seq<(FieldModel, int)>, ident: Seq<char>, at: int)
    requires
        0 <= at,
    ensures
        ident_from(fields, ident, at) matches Some(i) ==> at <= i < fields.len()
            && fields[i].0.ident == ident,
        ident_from(fields, ident, at) is None ==> forall|i: int|
            at <= i < fields.len() ==> (#[trigger] fields[i]).0.ident != ident,
    decreases fields.len() - at,
{
    if at < fields.len() && fields[at].0.ident != ident {
        lemma_ident_found(fields, ident, at + 1);
    }
}

/// Whether there is a field of a name that comes from an entry at or behind a place.
pub open spec fn has_later(fields: Seq<(FieldModel, int)>, ident: Seq<char>, place: int) -> bool {
    exists|i: int|
        0 <= i < fields.len() && (#[trigger] fields[i]).0.ident == ident && fields[i].1 >= place
}

/// Every field comes from an entry that no criterion covers and is what that entry says; and every
/// such entry has a field of its name, which comes from it or from an entry behind it.
pub proof fn lemma_fields_are_those_of_the_entries(
    state: BuilderModel,
    entries: Seq<Field>,
    constants: Seq<ConstantModel>,
    container: Seq<char>,
    count: nat,
)
    requires
        count <= entries.len(),
        fields_of(state, entries, constants, container, count) is Ok,
    ensures
        ({
            let fields = fields_of(state, entries, constants, container, count)->Ok_0.1;
            &&& forall|i: int|
                0 <= i < fields.len() ==> {
                    let (built, from) = #[trigger] fields[i];
                    0 <= from < count && is_the_callers(constants, entries[from]) && is_of(
                        built,
                        entries[from],
                    )
                }
            &&& forall|j: int|
                0 <= j < count && is_the_callers(constants, entries[j]) ==> #[trigger] has_later(
                    fields,
                    entries[j].ident@,
                    j,
                )
        }),
    decreases count,
{
    if count > 0 {
        let fewer = (count - 1) as nat;
        let entry = entries[count - 1];
        lemma_fields_are_those_of_the_entries(state, entries, constants, container, fewer);
        lemma_covered(constants, entry);
        let (middle, before) = fields_of(state, entries, constants, container, fewer)->Ok_0;
        let fields = fields_of(state, entries, constants, container, count)->Ok_0.1;
        if !is_covered(constants, entry) {
            let built = field_of(middle, entry, container)->Ok_0.1;
            lemma_field_is_of_its_entry(middle, entry, container);
            lemma_ident_found(before, built.ident, 0);
            assert(fields == with_field(before, built, count - 1));
            let place = match ident_from(before, built.ident, 0) {
                Some(at) => at,
                None => before.len() as int,
            };
            assert(fields[place] == (built, count - 1));
            assert forall|j: int|
                0 <= j < count && is_the_callers(constants, entries[j]) implies #[trigger] has_later(
                fields,
                entries[j].ident@,
                j,
            ) by {
                if j == count - 1 {
                    assert(fields[place].0.ident == entries[j].ident@);
                } else {
                    assert(has_later(before, entries[j].ident@, j));
                    let i = choose|i: int|
                        0 <= i < before.len() && (#[trigger] before[i]).0.ident
                            == entries[j].ident@ && before[i].1 >= j;
                    if i == place {
                        assert(fields[place].0.ident == entries[j].ident@);
                    } else {
                        assert(fields[i] == before[i]);
                    }
                }
            }
            assert forall|i: int| 0 <= i < fields.len() implies {
                let (one, from) = #[trigger] fields[i];
                0 <= from < count && is_the_callers(constants, entries[from]) && is_of(
                    one,
                    entries[from],
                )
            } by {
                if i != place {
                    assert(fields[i] == before[i]);
                }
            }
        } else {
            assert(fields == before);
            assert forall|j: int|
                0 <= j < count && is_the_callers(constants, entries[j]) implies #[trigger] has_later(
                fields,
                entries[j].ident@,
                j,
            ) by {
                assert(has_later(before, entries[j].ident@, j));
            }
        }
    }
}

// ---------------------------------------------------------------------------------------
// Contexts
// ---------------------------------------------------------------------------------------

/// Whether a comparison that a field makes is the one of the definition: it reads a field that has
/// exactly the bits that the definition compares and holds a whole number, and asks the same of it.
pub open spec fn test_is_of(
    model: TestModel,
    test: PlanTest,
    fields: Seq<FieldModel>,
) -> bool {
    &&& model.test == test.comparison@
    &&& model.xtce_name == test.xtce_name@
    &&& exists|i: int|
        {
            &&& 0 <= i < fields.len()
            &&& (#[trigger] fields[i]).ident == model.ident
            &&& fields[i].bit_offset == test.bit_offset
            &&& fields[i].bit_width == test.bit_width
            &&& match fields[i].kind {
                KindModel::Unsigned | KindModel::Signed(_) => !model.enumerated,
                KindModel::Bool => !model.enumerated && fields[i].bit_width == 1,
                KindModel::Enumerated(_) => model.enumerated,
                _ => false,
            }
        }
}

/// Whether a criterion is that of the definition: its tests are, and they are put together alike.
pub open spec fn criterion_is_of(
    model: CriterionModel,
    criterion: PlanCriterion,
    fields: Seq<FieldModel>,
) -> bool
    decreases criterion,
{
    match (model, criterion) {
        (CriterionModel::Test(found), PlanCriterion::Test(test)) => test_is_of(
            found,
            test,
            fields,
        ),
        (CriterionModel::All(found), PlanCriterion::All(children)) => found.len()
            == children@.len() && criteria_are_of(found, children@, fields, children@.len()),
        (CriterionModel::Any(found), PlanCriterion::Any(children)) => found.len()
            == children@.len() && criteria_are_of(found, children@, fields, children@.len()),
        _ => false,
    }
}

/// Whether the first `count` criteria are those of the definition.
pub open spec fn criteria_are_of(
    models: Seq<CriterionModel>,
    criteria: Seq<PlanCriterion>,
    fields: Seq<FieldModel>,
    count: nat,
) -> bool
    decreases criteria, count,
{
    count == 0 || count > criteria.len() || (criteria_are_of(
        models,
        criteria,
        fields,
        (count - 1) as nat,
    ) && criterion_is_of(models[count - 1], criteria[count - 1], fields))
}

proof fn lemma_occupant(fields: Seq<FieldModel>, bit_offset: int, bit_width: int, at: int)
    requires
        0 <= at,
    ensures
        occupant_from(fields, bit_offset, bit_width, at) matches Some(i) ==> at <= i < fields.len()
            && fields[i].bit_offset == bit_offset && fields[i].bit_width == bit_width,
    decreases fields.len() - at,
{
    if at < fields.len() && !(fields[at].bit_offset == bit_offset && fields[at].bit_width
        == bit_width) {
        lemma_occupant(fields, bit_offset, bit_width, at + 1);
    }
}

/// The criteria of a context are those of the definition.
pub proof fn lemma_criterion_is_of_the_definition(
    criterion: PlanCriterion,
    fields: Seq<FieldModel>,
    container: Seq<char>,
)
    requires
        criterion_of(criterion, fields, container) is Ok,
    ensures
        criterion_is_of(criterion_of(criterion, fields, container)->Ok_0, criterion, fields),
    decreases criterion, 0nat,
{
    match criterion {
        PlanCriterion::Test(test) => {
            lemma_occupant(fields, test.bit_offset as int, test.bit_width as int, 0);
            let at = occupant_from(fields, test.bit_offset as int, test.bit_width as int, 0)->Some_0;
            let found = test_of(test, fields, container)->Ok_0;
            assert(fields[at].ident == found.ident);
        },
        PlanCriterion::All(children) => {
            lemma_criteria_are_of(children@, fields, container, children@.len());
        },
        PlanCriterion::Any(children) => {
            lemma_criteria_are_of(children@, fields, container, children@.len());
        },
    }
}

proof fn lemma_criteria_prefix(
    models: Seq<CriterionModel>,
    more: Seq<CriterionModel>,
    criteria: Seq<PlanCriterion>,
    fields: Seq<FieldModel>,
    count: nat,
)
    requires
        criteria_are_of(models, criteria, fields, count),
        count <= models.len() <= more.len(),
        forall|i: int| 0 <= i < count ==> models[i] == more[i],
    ensures
        criteria_are_of(more, criteria, fields, count),
    decreases count,
{
    if count > 0 && count <= criteria.len() {
        lemma_criteria_prefix(models, more, criteria, fields, (count - 1) as nat);
    }
}

proof fn lemma_criteria_are_of(
    criteria: Seq<PlanCriterion>,
    fields: Seq<FieldModel>,
    container: Seq<char>,
    count: nat,
)
    requires
        count <= criteria.len(),
        criteria_of(criteria, fields, container, count) is Ok,
    ensures
        criteria_of(criteria, fields, container, count)->Ok_0.len() == count,
        criteria_are_of(
            criteria_of(criteria, fields, container, count)->Ok_0,
            criteria,
            fields,
            count,
        ),
    decreases criteria, count,
{
    if count > 0 {
        let fewer = (count - 1) as nat;
        lemma_criteria_are_of(criteria, fields, container, fewer);
        lemma_criterion_is_of_the_definition(criteria[count - 1], fields, container);
        let before = criteria_of(criteria, fields, container, fewer)->Ok_0;
        let all = criteria_of(criteria, fields, container, count)->Ok_0;
        lemma_criteria_prefix(before, all, criteria, fields, fewer);
    }
}

/// A field has every context of its entry, in order, each with its own calibrator and with the
/// criteria of the definition.
pub proof fn lemma_contexts_are_those_of_the_entry(
    contexts: Seq<PlanContext>,
    fields: Seq<FieldModel>,
    container: Seq<char>,
    count: nat,
)
    requires
        count <= contexts.len(),
        contexts_of(contexts, fields, container, count) is Ok,
    ensures
        ({
            let found = contexts_of(contexts, fields, container, count)->Ok_0;
            &&& found.len() == count
            &&& forall|i: int|
                0 <= i < count ==> (#[trigger] found[i]).calibration == contexts[i].calibration@
                    && criterion_is_of(found[i].criteria, contexts[i].criteria, fields)
        }),
    decreases count,
{
    if count > 0 {
        lemma_contexts_are_those_of_the_entry(contexts, fields, container, (count - 1) as nat);
        lemma_criterion_is_of_the_definition(contexts[count - 1].criteria, fields, container);
    }
}

proof fn lemma_named(container: ContainerModel, i: int, at: int)
    requires
        distinct_idents(container.fields),
        0 <= at <= i < container.fields.len(),
    ensures
        field_named(container, container.fields[i].ident, at) == Some(i),
    decreases i - at,
{
    if at < i {
        assert(container.fields[at].ident != container.fields[i].ident);
        lemma_named(container, i, at + 1);
    }
}

/// The criteria of a definition read fields of their container, once they are resolved to them.
pub proof fn lemma_criterion_reads_its_container(
    model: CriterionModel,
    criterion: PlanCriterion,
    container: ContainerModel,
)
    requires
        distinct_idents(container.fields),
        criterion_is_of(model, criterion, container.fields),
    ensures
        criterion_reads(model, container),
    decreases criterion, 0nat,
{
    match (model, criterion) {
        (CriterionModel::Test(found), PlanCriterion::Test(test)) => {
            let i = choose|i: int|
                {
                    &&& 0 <= i < container.fields.len()
                    &&& (#[trigger] container.fields[i]).ident == found.ident
                    &&& container.fields[i].bit_offset == test.bit_offset
                    &&& container.fields[i].bit_width == test.bit_width
                    &&& match container.fields[i].kind {
                        KindModel::Unsigned | KindModel::Signed(_) => !found.enumerated,
                        KindModel::Bool => !found.enumerated && container.fields[i].bit_width == 1,
                        KindModel::Enumerated(_) => found.enumerated,
                        _ => false,
                    }
                };
            lemma_named(container, i, 0);
        },
        (CriterionModel::All(found), PlanCriterion::All(children)) => {
            lemma_criteria_read(found, children@, container, children@.len());
        },
        (CriterionModel::Any(found), PlanCriterion::Any(children)) => {
            lemma_criteria_read(found, children@, container, children@.len());
        },
        _ => {},
    }
}

proof fn lemma_criteria_read(
    models: Seq<CriterionModel>,
    criteria: Seq<PlanCriterion>,
    container: ContainerModel,
    count: nat,
)
    requires
        distinct_idents(container.fields),
        models.len() == criteria.len(),
        count <= criteria.len(),
        criteria_are_of(models, criteria, container.fields, count),
    ensures
        criteria_read(models, container, count),
    decreases criteria, count,
{
    if count > 0 {
        lemma_criteria_read(models, criteria, container, (count - 1) as nat);
        lemma_criterion_reads_its_container(models[count - 1], criteria[count - 1], container);
    }
}

// ---------------------------------------------------------------------------------------
// Containers
// ---------------------------------------------------------------------------------------

/// Whether two lists of fields differ in their contexts alone.
pub open spec fn alike(a: Seq<FieldModel>, b: Seq<FieldModel>) -> bool {
    a.len() == b.len() && forall|i: int|
        0 <= i < a.len() ==> (#[trigger] a[i]) == (FieldModel { contexts: a[i].contexts, ..b[i] })
}

proof fn lemma_criterion_of_alike(
    model: CriterionModel,
    criterion: PlanCriterion,
    a: Seq<FieldModel>,
    b: Seq<FieldModel>,
)
    requires
        alike(a, b),
        criterion_is_of(model, criterion, b),
    ensures
        criterion_is_of(model, criterion, a),
    decreases criterion, 0nat,
{
    match (model, criterion) {
        (CriterionModel::Test(found), PlanCriterion::Test(test)) => {
            let i = choose|i: int|
                {
                    &&& 0 <= i < b.len()
                    &&& (#[trigger] b[i]).ident == found.ident
                    &&& b[i].bit_offset == test.bit_offset
                    &&& b[i].bit_width == test.bit_width
                    &&& match b[i].kind {
                        KindModel::Unsigned | KindModel::Signed(_) => !found.enumerated,
                        KindModel::Bool => !found.enumerated && b[i].bit_width == 1,
                        KindModel::Enumerated(_) => found.enumerated,
                        _ => false,
                    }
                };
            assert(a[i].ident == found.ident);
        },
        (CriterionModel::All(found), PlanCriterion::All(children)) => {
            lemma_criteria_of_alike(found, children@, a, b, children@.len());
        },
        (CriterionModel::Any(found), PlanCriterion::Any(children)) => {
            lemma_criteria_of_alike(found, children@, a, b, children@.len());
        },
        _ => {},
    }
}

proof fn lemma_criteria_of_alike(
    models: Seq<CriterionModel>,
    criteria: Seq<PlanCriterion>,
    a: Seq<FieldModel>,
    b: Seq<FieldModel>,
    count: nat,
)
    requires
        alike(a, b),
        count <= criteria.len(),
        criteria_are_of(models, criteria, b, count),
    ensures
        criteria_are_of(models, criteria, a, count),
    decreases criteria, count,
{
    if count > 0 {
        lemma_criteria_of_alike(models, criteria, a, b, (count - 1) as nat);
        lemma_criterion_of_alike(models[count - 1], criteria[count - 1], a, b);
    }
}

proof fn lemma_contextual_contexts(
    given: Seq<(FieldModel, int)>,
    entries: Seq<Field>,
    container: Seq<char>,
    count: nat,
    i: int,
)
    requires
        0 <= i < count <= given.len(),
        contextual(given, entries, container, count) is Ok,
    ensures
        ({
            let contexts = entries[given[i].1].contexts@;
            let fields = contextual(given, entries, container, count)->Ok_0;
            &&& contexts_of(contexts, unsourced(given), container, contexts.len()) is Ok
            &&& fields.len() == count
            &&& fields[i].contexts == contexts_of(
                contexts,
                unsourced(given),
                container,
                contexts.len(),
            )->Ok_0
        }),
    decreases count,
{
    lemma_contextual(given, entries, container, count);
    if i < count - 1 {
        lemma_contextual_contexts(given, entries, container, (count - 1) as nat, i);
        let before = contextual(given, entries, container, (count - 1) as nat)->Ok_0;
        let fields = contextual(given, entries, container, count)->Ok_0;
        assert(fields[i] == before[i]);
    } else {
        lemma_contextual_before(given, entries, container, (count - 1) as nat);
    }
}

proof fn lemma_contextual_before(
    given: Seq<(FieldModel, int)>,
    entries: Seq<Field>,
    container: Seq<char>,
    count: nat,
)
    requires
        count <= given.len(),
        contextual(given, entries, container, count) is Ok,
    ensures
        contextual(given, entries, container, count)->Ok_0.len() == count,
{
    lemma_contextual(given, entries, container, count);
}

/// Whether a criterion that is written is the one of the definition: its names and its bits.
pub open spec fn constant_is_of(constant: ConstantModel, guard: Guard) -> bool {
    &&& guard.operator == CompareOp::Equal
    &&& constant.xtce_name == guard.xtce_name@
    &&& constant.ident == guard.ident@
    &&& constant.bit_offset == guard.bit_offset
    &&& constant.bit_width == guard.bit_width
}

proof fn lemma_constants_are_of(guards: Seq<&Guard>, container: Seq<char>, count: nat)
    requires
        count <= guards.len(),
        constants_of(guards, container, count) is Ok,
    ensures
        ({
            let constants = constants_of(guards, container, count)->Ok_0;
            constants.len() == count && forall|i: int|
                0 <= i < count ==> constant_is_of(#[trigger] constants[i], *guards[i])
        }),
    decreases count,
{
    if count > 0 {
        lemma_constants_are_of(guards, container, (count - 1) as nat);
    }
}

/// Whether a fixed value that is written is the one of the definition: its names and its bits.
pub open spec fn fixed_is_of(fixed: FixedModel, entry: FixedEntry) -> bool {
    &&& fixed.xtce_name == crate::layout::optional_text(entry.xtce_name)
    &&& fixed.ident == crate::layout::optional_text(entry.ident)
    &&& fixed.bit_offset == entry.bit_offset
    &&& fixed.bit_width == entry.bit_width
}

proof fn lemma_fixed_are_of(entries: Seq<FixedEntry>, container: Seq<char>, count: nat)
    requires
        count <= entries.len(),
        all_fixed_of(entries, container, count) is Ok,
    ensures
        ({
            let fixed = all_fixed_of(entries, container, count)->Ok_0;
            fixed.len() == count && forall|i: int|
                0 <= i < count ==> fixed_is_of(#[trigger] fixed[i], entries[i])
        }),
    decreases count,
{
    if count > 0 {
        lemma_fixed_are_of(entries, container, (count - 1) as nat);
    }
}

/// Whether a field has the contexts of its entry.
pub open spec fn contexts_are_of(
    found: Seq<ContextModel>,
    contexts: Seq<PlanContext>,
    fields: Seq<FieldModel>,
) -> bool {
    found.len() == contexts.len() && forall|k: int|
        0 <= k < found.len() ==> (#[trigger] found[k]).calibration == contexts[k].calibration@
            && criterion_is_of(found[k].criteria, contexts[k].criteria, fields)
}

/// A container is what the plan says: its name, as many bytes as its bits need and no more, every
/// criterion on the way to it and every fixed value, in order and in its own place. It borrows
/// exactly where a field does.
pub proof fn lemma_container_is_of_its_plan(
    state: BuilderModel,
    plan: ContainerPlan,
    guards: Seq<&Guard>,
)
    requires
        container_of(state, plan, guards) is Ok,
    ensures
        ({
            let container = container_of(state, plan, guards)->Ok_0.1;
            let fields = container.fields;
            &&& container.xtce_name == plan.xtce_name@
            &&& plan.bit_length matches Some(bits) && 8 * container.len_bytes - 8 < bits <= 8
                * container.len_bytes
            &&& container.constants.len() == guards.len()
            &&& forall|i: int|
                0 <= i < guards.len() ==> constant_is_of(
                    #[trigger] container.constants[i],
                    *guards[i],
                )
            &&& container.fixed.len() == plan.fixed@.len()
            &&& forall|i: int|
                0 <= i < container.fixed.len() ==> fixed_is_of(
                    #[trigger] container.fixed[i],
                    plan.fixed@[i],
                )
            &&& container.borrows <==> exists|i: int|
                0 <= i < fields.len() && (#[trigger] fields[i]).kind.borrows()
        }),
{
    let name = plan.xtce_name@;
    lemma_constants_are_of(guards, name, guards.len());
    lemma_fixed_are_of(plan.fixed@, name, plan.fixed@.len());
}

/// Whether a field is what an entry of a plan says, contexts and all, and the entry is the caller's
/// to set.
pub open spec fn is_wholly_of(
    field: FieldModel,
    entry: Field,
    constants: Seq<ConstantModel>,
    fields: Seq<FieldModel>,
) -> bool {
    &&& is_the_callers(constants, entry)
    &&& is_of(field, entry)
    &&& contexts_are_of(field.contexts, entry.contexts@, fields)
}

proof fn lemma_one_field(
    given: Seq<(FieldModel, int)>,
    entries: Seq<Field>,
    constants: Seq<ConstantModel>,
    name: Seq<char>,
    i: int,
)
    requires
        contextual(given, entries, name, given.len()) is Ok,
        0 <= i < given.len(),
        0 <= given[i].1 < entries.len(),
        is_the_callers(constants, entries[given[i].1]),
        is_of(given[i].0, entries[given[i].1]),
    ensures
        ({
            let fields = contextual(given, entries, name, given.len())->Ok_0;
            is_wholly_of(fields[i], entries[given[i].1], constants, fields)
        }),
{
    let fields = contextual(given, entries, name, given.len())->Ok_0;
    let contexts = entries[given[i].1].contexts@;
    lemma_contextual(given, entries, name, given.len());
    assert(alike(fields, unsourced(given)));
    lemma_contextual_contexts(given, entries, name, given.len(), i);
    lemma_contexts_are_those_of_the_entry(contexts, unsourced(given), name, contexts.len());
    assert forall|k: int| 0 <= k < contexts.len() implies criterion_is_of(
        (#[trigger] fields[i].contexts[k]).criteria,
        contexts[k].criteria,
        fields,
    ) by {
        lemma_criterion_of_alike(
            fields[i].contexts[k].criteria,
            contexts[k].criteria,
            fields,
            unsourced(given),
        );
    }
}

/// Whether a field is what some entry of a plan says.
pub open spec fn comes_from(
    field: FieldModel,
    entries: Seq<Field>,
    constants: Seq<ConstantModel>,
    fields: Seq<FieldModel>,
) -> bool {
    exists|j: int|
        0 <= j < entries.len() && is_wholly_of(field, #[trigger] entries[j], constants, fields)
}

/// Every field of a container is what an entry says that no criterion covers.
pub proof fn lemma_container_has_no_other_fields(
    state: BuilderModel,
    plan: ContainerPlan,
    guards: Seq<&Guard>,
    i: int,
)
    requires
        container_of(state, plan, guards) is Ok,
        0 <= i < container_of(state, plan, guards)->Ok_0.1.fields.len(),
    ensures
        ({
            let container = container_of(state, plan, guards)->Ok_0.1;
            comes_from(
                container.fields[i],
                plan.fields@,
                container.constants,
                container.fields,
            )
        }),
{
    let name = plan.xtce_name@;
    let entries = plan.fields@;
    let constants = constants_of(guards, name, guards.len())->Ok_0;
    let given = fields_of(state, entries, constants, name, entries.len())->Ok_0.1;
    let fields = contextual(given, entries, name, given.len())->Ok_0;
    lemma_fields_are_those_of_the_entries(state, entries, constants, name, entries.len());
    lemma_contextual(given, entries, name, given.len());
    let (built, from) = given[i];
    lemma_one_field(given, entries, constants, name, i);
    assert(is_wholly_of(fields[i], entries[from], constants, fields));
}

/// Every entry of a plan that no criterion covers has a field of its name.
pub proof fn lemma_container_has_every_field(
    state: BuilderModel,
    plan: ContainerPlan,
    guards: Seq<&Guard>,
    j: int,
)
    requires
        container_of(state, plan, guards) is Ok,
        0 <= j < plan.fields@.len(),
        is_the_callers(container_of(state, plan, guards)->Ok_0.1.constants, plan.fields@[j]),
    ensures
        ({
            let fields = container_of(state, plan, guards)->Ok_0.1.fields;
            exists|i: int|
                0 <= i < fields.len() && (#[trigger] fields[i]).ident == plan.fields@[j].ident@
        }),
{
    let name = plan.xtce_name@;
    let entries = plan.fields@;
    let constants = constants_of(guards, name, guards.len())->Ok_0;
    let given = fields_of(state, entries, constants, name, entries.len())->Ok_0.1;
    let fields = contextual(given, entries, name, given.len())->Ok_0;
    lemma_fields_are_those_of_the_entries(state, entries, constants, name, entries.len());
    lemma_contextual(given, entries, name, given.len());
    assert(has_later(given, entries[j].ident@, j));
    let i = choose|i: int|
        0 <= i < given.len() && (#[trigger] given[i]).0.ident == entries[j].ident@ && given[i].1
            >= j;
    assert(fields[i] == FieldModel { contexts: fields[i].contexts, ..given[i].0 });
    assert(container_of(state, plan, guards)->Ok_0.1.fields == fields);
}

/// The criteria of every context of a container read fields of it that hold whole numbers.
pub proof fn lemma_contexts_read_their_container(
    state: BuilderModel,
    plan: ContainerPlan,
    guards: Seq<&Guard>,
    i: int,
    k: int,
)
    requires
        container_of(state, plan, guards) is Ok,
        0 <= i < container_of(state, plan, guards)->Ok_0.1.fields.len(),
        0 <= k < container_of(state, plan, guards)->Ok_0.1.fields[i].contexts.len(),
    ensures
        ({
            let container = container_of(state, plan, guards)->Ok_0.1;
            criterion_reads(container.fields[i].contexts[k].criteria, container)
        }),
{
    let container = container_of(state, plan, guards)->Ok_0.1;
    let fields = container.fields;
    let entries = plan.fields@;
    lemma_fields_have_different_names(state, plan, guards);
    lemma_container_has_no_other_fields(state, plan, guards, i);
    let j = choose|j: int|
        0 <= j < entries.len() && is_wholly_of(
            fields[i],
            #[trigger] entries[j],
            container.constants,
            fields,
        );
    lemma_criterion_reads_its_container(
        fields[i].contexts[k].criteria,
        entries[j].contexts@[k].criteria,
        container,
    );
}

// ---------------------------------------------------------------------------------------
// The tree
// ---------------------------------------------------------------------------------------

/// A concrete container of a tree: its place in the plan, and the criteria on the way to it.
pub struct Reached<'p> {
    /// Its place in the plan.
    pub place: int,
    /// The criteria between the root and it.
    pub guards: Seq<&'p Guard>,
}

/// The concrete containers of a tree, a node before its children.
pub open spec fn reached<'p>(node: Node, guards: Seq<&'p Guard>) -> Seq<Reached<'p>>
    decreases node,
{
    let own = match node.plan {
        Some(index) => seq![Reached { place: index as int, guards }],
        None => Seq::empty(),
    };
    own + reached_below(node.children@, guards, node.children@.len())
}

/// The concrete containers of the first `count` children.
pub open spec fn reached_below<'p>(
    children: Seq<(Vec<Guard>, Node)>,
    guards: Seq<&'p Guard>,
    count: nat,
) -> Seq<Reached<'p>>
    decreases children, count,
{
    if count == 0 || count > children.len() {
        Seq::empty()
    } else {
        reached_below(children, guards, (count - 1) as nat) + reached(
            children[count - 1].1,
            guards + guard_refs(children[count - 1].0@),
        )
    }
}

/// Whether containers are those that are reached: one for each, with its name, and with the
/// criteria on the way to it.
pub open spec fn are_reached(
    containers: Seq<ContainerModel>,
    found: Seq<Reached>,
    plans: Seq<ContainerPlan>,
) -> bool {
    containers.len() == found.len() && forall|i: int|
        0 <= i < found.len() ==> {
            let one = #[trigger] found[i];
            &&& 0 <= one.place < plans.len()
            &&& containers[i].xtce_name == plans[one.place].xtce_name@
            &&& containers[i].constants.len() == one.guards.len()
            &&& forall|k: int|
                0 <= k < one.guards.len() ==> constant_is_of(
                    #[trigger] containers[i].constants[k],
                    *one.guards[k],
                )
        }
}

proof fn lemma_walk(
    state: BuilderModel,
    node: Node,
    guards: Seq<&Guard>,
    plans: Seq<ContainerPlan>,
    out: Seq<ContainerModel>,
    before: Seq<Reached>,
)
    requires
        are_reached(out, before, plans),
        walk_of(state, node, guards, plans, out) is Ok,
    ensures
        are_reached(
            walk_of(state, node, guards, plans, out)->Ok_0.1,
            before + reached(node, guards),
            plans,
        ),
    decreases node, 0nat,
{
    let (middle, with_own) = visit_of(state, node.plan, guards, plans, out)->Ok_0;
    let own: Seq<Reached> = match node.plan {
        Some(index) => seq![Reached { place: index as int, guards }],
        None => Seq::empty(),
    };
    let children = node.children@;
    if node.plan is Some {
        let index = node.plan->Some_0;
        lemma_container_is_of_its_plan(state, plans[index as int], guards);
    }
    assert(are_reached(with_own, before + own, plans)) by {
        assert forall|i: int| 0 <= i < (before + own).len() implies {
            let one = #[trigger] (before + own)[i];
            &&& 0 <= one.place < plans.len()
            &&& with_own[i].xtce_name == plans[one.place].xtce_name@
            &&& with_own[i].constants.len() == one.guards.len()
            &&& forall|k: int|
                0 <= k < one.guards.len() ==> constant_is_of(
                    #[trigger] with_own[i].constants[k],
                    *one.guards[k],
                )
        } by {
            if i < before.len() {
                assert((before + own)[i] == before[i]);
                assert(with_own[i] == out[i]);
            }
        }
    }
    lemma_walk_below(middle, children, guards, plans, with_own, before + own, children.len());
    assert(before + own + reached_below(children, guards, children.len()) =~= before + reached(
        node,
        guards,
    ));
}

proof fn lemma_walk_below(
    state: BuilderModel,
    children: Seq<(Vec<Guard>, Node)>,
    guards: Seq<&Guard>,
    plans: Seq<ContainerPlan>,
    out: Seq<ContainerModel>,
    before: Seq<Reached>,
    count: nat,
)
    requires
        are_reached(out, before, plans),
        count <= children.len(),
        walk_all_of(state, children, guards, plans, out, count) is Ok,
    ensures
        are_reached(
            walk_all_of(state, children, guards, plans, out, count)->Ok_0.1,
            before + reached_below(children, guards, count),
            plans,
        ),
    decreases children, count,
{
    if count == 0 {
        assert(before + reached_below(children, guards, 0) =~= before);
    } else {
        let fewer = (count - 1) as nat;
        lemma_walk_below(state, children, guards, plans, out, before, fewer);
        let (middle, so_far) = walk_all_of(state, children, guards, plans, out, fewer)->Ok_0;
        let below = guards + guard_refs(children[count - 1].0@);
        let found = before + reached_below(children, guards, fewer);
        lemma_walk(middle, children[count - 1].1, below, plans, so_far, found);
        assert(found + reached(children[count - 1].1, below) =~= before + reached_below(
            children,
            guards,
            count,
        ));
    }
}

/// A layout has a container for every concrete container of the tree, a node before its children,
/// and for no other; each is selected by all the criteria between the root and it.
pub proof fn lemma_layout_holds_the_tree(plan: Plan)
    requires
        layout_of(plan) is Ok,
    ensures
        are_reached(
            layout_of(plan)->Ok_0.containers,
            reached(plan.root, Seq::empty()),
            plan.containers@,
        ),
{
    let empty = BuilderModel { enums: Seq::empty(), keys: Seq::empty(), taken: Seq::empty() };
    let none: Seq<Reached> = Seq::empty();
    lemma_walk(empty, plan.root, Seq::empty(), plan.containers@, Seq::empty(), none);
    assert(none + reached(plan.root, Seq::empty()) =~= reached(plan.root, Seq::empty()));
}

// ---------------------------------------------------------------------------------------
// Refusals
// ---------------------------------------------------------------------------------------

/// Whether a calibrator of an entry is above first order.
pub open spec fn is_high_order(field: Field) -> bool {
    ||| field.calibration matches Some(calibration) && order_of(calibration) > 1
    ||| exists|i: int|
        0 <= i < field.contexts@.len() && order_of((#[trigger] field.contexts@[i]).calibration) > 1
}

proof fn lemma_high_order(field: Field)
    ensures
        is_high_order(field) == any_above_first_order(field),
{
    if is_high_order(field) && !(field.calibration matches Some(calibration) && order_of(
        calibration,
    ) > 1) {
        let i = choose|i: int|
            0 <= i < field.contexts@.len() && order_of((#[trigger] field.contexts@[i]).calibration)
                > 1;
        assert(above_first_order(field.contexts@[i].calibration));
    }
    if any_above_first_order(field) && !(
    field.calibration matches Some(calibration) && above_first_order(calibration)) {
        let i = choose|i: int|
            0 <= i < field.contexts@.len() && above_first_order(
                (#[trigger] field.contexts@[i]).calibration,
            );
        assert(order_of(field.contexts@[i].calibration) > 1);
    }
}

/// An entry that is refused is refused for what is wrong with it: a place that comes from the
/// packet, a width that no number has, bytes that cannot be put back in order, a spline above first
/// order, a float of no format, a format without an inverse, or bytes off their boundary.
pub proof fn lemma_entry_is_refused_for_what_is_wrong(
    state: BuilderModel,
    field: Field,
    container: Seq<char>,
)
    ensures
        ({
            let result = field_of(state, field, container);
            let slice = field.repr is Text || field.repr is Binary;
            match field.span {
                None => result == refusal("ParameterRefEntry", container, DYNAMIC_WIDTH),
                Some((bit_offset, bit_width)) => {
                    let number = !slice && 1 <= bit_width <= 64;
                    let uneven = field.swap_bytes && bit_width % 8 != 0;
                    let aligned = bit_offset % 8 == 0 && bit_width % 8 == 0;
                    let good = (slice || (number && !uneven)) && !is_high_order(field);
                    &&& !slice && !number ==> result == refusal(
                        "ParameterRefEntry",
                        container,
                        NUMBER_WIDTH,
                    )
                    &&& number && uneven ==> result == refusal(
                        "ParameterRefEntry",
                        container,
                        UNINVERTIBLE_FIELD,
                    )
                    &&& (slice || (number && !uneven)) && is_high_order(field) ==> result
                        == refusal("SplineCalibrator", container, HIGH_ORDER)
                    &&& good && field.repr is Float16 && bit_width != 16 ==> result == refusal(
                        "ParameterRefEntry",
                        container,
                        FLOAT_WIDTH,
                    )
                    &&& good && field.repr is Float32 && bit_width != 32 ==> result == refusal(
                        "ParameterRefEntry",
                        container,
                        FLOAT_WIDTH,
                    )
                    &&& good && field.repr is Float64 && bit_width != 64 ==> result == refusal(
                        "ParameterRefEntry",
                        container,
                        FLOAT_WIDTH,
                    )
                    &&& good && field.repr is MilStd1750A ==> result == refusal(
                        "ParameterRefEntry",
                        container,
                        MANY_TO_ONE,
                    )
                    &&& good && field.repr is Binary && !aligned ==> result == refusal(
                        "ParameterRefEntry",
                        container,
                        UNALIGNED_BINARY,
                    )
                    &&& good && field.repr is Text && !aligned ==> result == refusal(
                        "StringDataEncoding",
                        container,
                        UNALIGNED_TEXT,
                    )
                    &&& good && (field.repr matches Repr::Enumerated(given) && given@.len() == 0)
                        ==> result == refusal("EnumerationList", container, NO_LABELS)
                },
            }
        }),
{
    lemma_high_order(field);
}

/// A refusal of a field.
pub open spec fn refusal(
    element: &'static str,
    container: Seq<char>,
    reason: &'static str,
) -> Result<(BuilderModel, FieldModel), ErrorModel> {
    Err(refused(element, container, reason))
}

/// A string on whole bytes that is refused is refused for what is wrong with its delimiter: a
/// terminator of no bytes or of too many, or a length that is no whole number of bytes, is none or
/// more than four of them, or is longer than the field.
pub proof fn lemma_delimiter_is_refused_for_what_is_wrong(
    delimiter: DelimiterModel,
    bit_offset: int,
    bit_width: int,
)
    requires
        bit_offset % 8 == 0,
        bit_width % 8 == 0,
    ensures
        ({
            let result = text_objection(delimiter, bit_offset, bit_width);
            match delimiter {
                DelimiterModel::WholeBuffer => result is None,
                DelimiterModel::TerminationChar(terminator) => {
                    &&& terminator.len() == 0 ==> result == Some(EMPTY_TERMINATOR)
                    &&& terminator.len() > 0 && terminator.len() > bit_width / 8 ==> result == Some(
                        LONG_TERMINATOR,
                    )
                },
                DelimiterModel::LeadingSize(size) => {
                    let whole = size == 8 || size == 16 || size == 24 || size == 32;
                    &&& size % 8 != 0 ==> result == Some(UNALIGNED_PREFIX)
                    &&& size % 8 == 0 && !whole ==> result == Some(PREFIX_WIDTH)
                    &&& whole && size > bit_width ==> result == Some(LONG_PREFIX)
                },
            }
        }),
{
}

/// A criterion becomes bits exactly where it is an equality of at most 64 bits whose bytes can be
/// put in order, and is refused for what is wrong with it elsewhere.
pub proof fn lemma_criterion_is_refused_for_what_is_wrong(guard: Guard, container: Seq<char>)
    ensures
        ({
            let result = constant_of(guard, container);
            let equality = guard.operator == CompareOp::Equal;
            let uneven = guard.swap_bytes && guard.bit_width % 8 != 0;
            &&& result is Ok <==> equality && guard.bit_width <= 64 && !uneven
            &&& !equality ==> result == Err::<ConstantModel, ErrorModel>(
                refused("Comparison", container, NOT_AN_EQUALITY),
            )
            &&& equality && guard.bit_width > 64 ==> result == Err::<ConstantModel, ErrorModel>(
                refused("Comparison", container, WIDE_CRITERION),
            )
            &&& equality && guard.bit_width <= 64 && uneven ==> result == Err::<
                ConstantModel,
                ErrorModel,
            >(refused("Comparison", container, UNINVERTIBLE_CRITERION))
        }),
{
}

/// A fixed value is refused exactly where it is wider than a number and off its boundary.
pub proof fn lemma_fixed_is_refused_for_what_is_wrong(entry: FixedEntry, container: Seq<char>)
    ensures
        ({
            let result = fixed_of(entry, container);
            let aligned = entry.bit_offset % 8 == 0 && entry.bit_width % 8 == 0;
            &&& result is Ok <==> entry.bit_width <= 64 || aligned
            &&& result is Err ==> result == Err::<FixedModel, ErrorModel>(
                refused("FixedValueEntry", container, UNALIGNED_FIXED),
            )
        }),
{
}

/// A comparison of a context is resolved exactly where a field has its bits and holds a whole
/// number in them, and is refused for what is wrong with the first such field elsewhere.
pub proof fn lemma_comparison_is_refused_for_what_is_wrong(
    test: PlanTest,
    fields: Seq<FieldModel>,
    container: Seq<char>,
    i: int,
)
    requires
        0 <= i < fields.len(),
        fields[i].bit_offset == test.bit_offset && fields[i].bit_width == test.bit_width,
        forall|j: int|
            0 <= j < i ==> (#[trigger] fields[j]).bit_offset != test.bit_offset
                || fields[j].bit_width != test.bit_width,
    ensures
        ({
            let result = test_of(test, fields, container);
            let kind = fields[i].kind;
            let wide = kind is Bool && fields[i].bit_width != 1;
            let whole = kind is Unsigned || kind is Signed || kind is Bool || kind is Enumerated;
            &&& result is Ok <==> whole && !wide
            &&& wide ==> result == Err::<TestModel, ErrorModel>(
                refused("ContextCalibrator", container, WIDE_BOOLEAN),
            )
            &&& !whole ==> result == Err::<TestModel, ErrorModel>(
                refused("ContextCalibrator", container, NOT_A_NUMBER),
            )
        }),
{
    lemma_first_occupant(fields, test.bit_offset as int, test.bit_width as int, i, 0);
}

proof fn lemma_first_occupant(
    fields: Seq<FieldModel>,
    bit_offset: int,
    bit_width: int,
    i: int,
    at: int,
)
    requires
        0 <= at <= i < fields.len(),
        fields[i].bit_offset == bit_offset && fields[i].bit_width == bit_width,
        forall|j: int|
            0 <= j < i ==> (#[trigger] fields[j]).bit_offset != bit_offset || fields[j].bit_width
                != bit_width,
    ensures
        occupant_from(fields, bit_offset, bit_width, at) == Some(i),
    decreases i - at,
{
    if at < i {
        assert(fields[at].bit_offset != bit_offset || fields[at].bit_width != bit_width);
        lemma_first_occupant(fields, bit_offset, bit_width, i, at + 1);
    }
}

/// A comparison of bits that no field has is refused.
pub proof fn lemma_comparison_needs_a_field(
    test: PlanTest,
    fields: Seq<FieldModel>,
    container: Seq<char>,
)
    requires
        forall|j: int|
            0 <= j < fields.len() ==> (#[trigger] fields[j]).bit_offset != test.bit_offset
                || fields[j].bit_width != test.bit_width,
    ensures
        test_of(test, fields, container) == Err::<TestModel, ErrorModel>(
            refused("ContextCalibrator", container, NOT_CARRIED),
        ),
{
    lemma_occupant(fields, test.bit_offset as int, test.bit_width as int, 0);
}

} // verus!
