//! Which of its calibrators a packet chooses for a field.
//!
//! The flight code computes with floats, which no contract here speaks of. What it decides before
//! it computes is a matter of whole numbers: the first context whose criteria hold, and the
//! default behind them.

use vstd::prelude::*;

use crate::codec::{datums, is_packet, Datum, Value};
use crate::layout::{
    criterion_models, enum_models, lemma_criterion_models, Container, ContainerModel,
    ContextCriterion, ContextModel, ContextTest, CriterionModel, EnumModel, EnumType, FieldModel,
    FlightField, Kind, KindModel,
};
use crate::plan::{CompareOp, ComparisonModel, ContextComparison};

verus! {

/// The number that a criterion compares: an integer, a flag as zero or one, or the value of a
/// label.
pub open spec fn compared_value(field: FieldModel, enums: Seq<EnumModel>, value: Datum) -> Option<
    int,
> {
    match (field.kind, value) {
        (KindModel::Unsigned, Datum::Unsigned(number)) => Some(number as int),
        (KindModel::Signed(_), Datum::Signed(number)) => Some(number as int),
        (KindModel::Bool, Datum::Bool(flag)) => Some(
            if flag {
                1
            } else {
                0
            },
        ),
        (KindModel::Enumerated(index), Datum::Enumerated(variant)) => Some(
            enums[index].variants[variant].raw as int,
        ),
        _ => None,
    }
}

/// The number of the first field of a name, from `at` on.
pub open spec fn value_of(
    container: ContainerModel,
    enums: Seq<EnumModel>,
    values: Seq<Datum>,
    ident: Seq<char>,
    at: int,
) -> Option<int>
    decreases container.fields.len() - at,
{
    if at < 0 || at >= container.fields.len() {
        None
    } else if container.fields[at].ident == ident {
        compared_value(container.fields[at], enums, values[at])
    } else {
        value_of(container, enums, values, ident, at + 1)
    }
}

/// Whether a comparison between numbers holds.
pub open spec fn holds_between(operator: CompareOp, left: int, right: int) -> bool {
    match operator {
        CompareOp::Equal => left == right,
        CompareOp::NotEqual => left != right,
        CompareOp::Less => left < right,
        CompareOp::LessOrEqual => left <= right,
        CompareOp::Greater => left > right,
        CompareOp::GreaterOrEqual => left >= right,
    }
}

/// Whether a number lies in any of the inclusive ranges.
pub open spec fn covered(ranges: Seq<(i128, i128)>, value: int) -> bool {
    exists|i: int| 0 <= i < ranges.len() && (#[trigger] ranges[i]).0 <= value <= ranges[i].1
}

/// Whether a comparison holds of a number. A label holds of the numbers it stands for.
pub open spec fn comparison_holds(comparison: ComparisonModel, value: int) -> bool {
    match comparison {
        ComparisonModel::Value(operator, right) => holds_between(operator, value, right as int),
        ComparisonModel::Labels(ranges) => covered(ranges, value),
    }
}

/// Whether a criterion holds of a packet. An empty conjunction does and an empty disjunction does
/// not.
pub open spec fn criterion_holds(
    criterion: CriterionModel,
    container: ContainerModel,
    enums: Seq<EnumModel>,
    values: Seq<Datum>,
) -> bool
    decreases criterion,
{
    match criterion {
        CriterionModel::Test(test) => match value_of(container, enums, values, test.ident, 0) {
            Some(value) => comparison_holds(test.test, value),
            None => false,
        },
        CriterionModel::All(children) => all_hold(
            children,
            container,
            enums,
            values,
            children.len(),
        ),
        CriterionModel::Any(children) => any_holds(
            children,
            container,
            enums,
            values,
            children.len(),
        ),
    }
}

/// Whether the first `count` criteria all hold.
pub open spec fn all_hold(
    children: Seq<CriterionModel>,
    container: ContainerModel,
    enums: Seq<EnumModel>,
    values: Seq<Datum>,
    count: nat,
) -> bool
    decreases children, count,
{
    count == 0 || count > children.len() || (all_hold(
        children,
        container,
        enums,
        values,
        (count - 1) as nat,
    ) && criterion_holds(children[count - 1], container, enums, values))
}

/// Whether any of the first `count` criteria holds.
pub open spec fn any_holds(
    children: Seq<CriterionModel>,
    container: ContainerModel,
    enums: Seq<EnumModel>,
    values: Seq<Datum>,
    count: nat,
) -> bool
    decreases children, count,
{
    0 < count <= children.len() && (any_holds(
        children,
        container,
        enums,
        values,
        (count - 1) as nat,
    ) || criterion_holds(children[count - 1], container, enums, values))
}

/// The first context, from `at` on, whose criteria hold.
pub open spec fn context_from(
    contexts: Seq<ContextModel>,
    container: ContainerModel,
    enums: Seq<EnumModel>,
    values: Seq<Datum>,
    at: int,
) -> Option<int>
    decreases contexts.len() - at,
{
    if at < 0 || at >= contexts.len() {
        None
    } else if criterion_holds(contexts[at].criteria, container, enums, values) {
        Some(at)
    } else {
        context_from(contexts, container, enums, values, at + 1)
    }
}

/// The number that a criterion compares.
fn number_of(field: &FlightField, enums: &Vec<EnumType>, value: &Value) -> (number: Option<i128>)
    requires
        crate::codec::well_typed(field@, enum_models(enums@), value@),
        field@.kind matches KindModel::Enumerated(index) ==> 0 <= index < enums@.len(),
    ensures
        match compared_value(field@, enum_models(enums@), value@) {
            Some(found) => number matches Some(value) && value == found,
            None => number is None,
        },
{
    match (&field.kind, value) {
        (Kind::Unsigned, Value::Unsigned(number)) => Some(*number as i128),
        (Kind::Signed(_), Value::Signed(number)) => Some(*number as i128),
        (Kind::Bool, Value::Bool(flag)) => if *flag {
            Some(1)
        } else {
            Some(0)
        },
        (Kind::Enumerated(index), Value::Enumerated(variant)) => {
            let definition = &enums[*index];
            assert(definition@ == enum_models(enums@)[*index as int]);
            Some(definition.variants[*variant].1 as i128)
        },
        _ => None,
    }
}

/// Whether a comparison between numbers holds.
fn holds_of(operator: &CompareOp, left: i128, right: i128) -> (holds: bool)
    ensures
        holds == holds_between(*operator, left as int, right as int),
{
    match operator {
        CompareOp::Equal => left == right,
        CompareOp::NotEqual => left != right,
        CompareOp::Less => left < right,
        CompareOp::LessOrEqual => left <= right,
        CompareOp::Greater => left > right,
        CompareOp::GreaterOrEqual => left >= right,
    }
}

/// Whether a comparison holds of a number.
pub fn compare(comparison: &ContextComparison, number: i128) -> (holds: bool)
    ensures
        holds == comparison_holds(comparison@, number as int),
{
    match comparison {
        ContextComparison::Value { operator, value } => holds_of(operator, number, *value),
        ContextComparison::Labels(ranges) => in_ranges(ranges, number),
    }
}

/// Whether a number lies in any of the ranges.
fn in_ranges(ranges: &Vec<(i128, i128)>, value: i128) -> (found: bool)
    ensures
        found == covered(ranges@, value as int),
{
    let mut at: usize = 0;
    while at < ranges.len()
        invariant
            at <= ranges@.len(),
            forall|i: int|
                0 <= i < at ==> !((#[trigger] ranges@[i]).0 <= value <= ranges@[i].1),
        decreases ranges@.len() - at,
    {
        if ranges[at].0 <= value && value <= ranges[at].1 {
            assert(ranges@[at as int].0 <= value <= ranges@[at as int].1);
            return true;
        }
        at = at + 1;
    }
    false
}

/// Whether one comparison holds of a packet.
fn test_holds(test: &ContextTest, container: &Container, enums: &Vec<EnumType>, values: &[Value]) -> (
    holds: bool)
    requires
        container@.valid(enum_models(enums@)),
        is_packet(container@, enum_models(enums@), datums(values@)),
    ensures
        holds == criterion_holds(
            CriterionModel::Test(test@),
            container@,
            enum_models(enums@),
            datums(values@),
        ),
{
    let ghost models = enum_models(enums@);
    let ghost inputs = datums(values@);
    let mut at: usize = 0;
    while at < container.fields.len()
        invariant
            at <= container.fields@.len(),
            models == enum_models(enums@),
            inputs == datums(values@),
            container@.valid(models),
            is_packet(container@, models, inputs),
            value_of(container@, models, inputs, test@.ident, 0) == value_of(
                container@,
                models,
                inputs,
                test@.ident,
                at as int,
            ),
        decreases container.fields@.len() - at,
    {
        let field = &container.fields[at];
        assert(container@.fields[at as int] == field@);
        assert(inputs[at as int] == values@[at as int]@);
        if field.ident == test.ident {
            assert(field@.valid(models, container@.len_bytes));
            return match number_of(field, enums, &values[at]) {
                Some(value) => compare(&test.test, value),
                None => false,
            };
        }
        at = at + 1;
    }
    false
}

/// Whether a criterion holds of a packet.
pub fn holds(
    criterion: &ContextCriterion,
    container: &Container,
    enums: &Vec<EnumType>,
    values: &[Value],
) -> (holds: bool)
    requires
        container@.valid(enum_models(enums@)),
        is_packet(container@, enum_models(enums@), datums(values@)),
    ensures
        holds == criterion_holds(
            criterion@,
            container@,
            enum_models(enums@),
            datums(values@),
        ),
    decreases criterion,
{
    match criterion {
        ContextCriterion::Test(test) => test_holds(test, container, enums, values),
        ContextCriterion::All(children) => {
            proof {
                lemma_criterion_models(children@, children@.len());
            }
            count_holding(children, container, enums, values, true)
        },
        ContextCriterion::Any(children) => {
            proof {
                lemma_criterion_models(children@, children@.len());
            }
            count_holding(children, container, enums, values, false)
        },
    }
}

/// Whether all criteria of a list hold, or whether any of them does.
fn count_holding(
    children: &Vec<ContextCriterion>,
    container: &Container,
    enums: &Vec<EnumType>,
    values: &[Value],
    all: bool,
) -> (holds: bool)
    requires
        container@.valid(enum_models(enums@)),
        is_packet(container@, enum_models(enums@), datums(values@)),
    ensures
        ({
            let models = criterion_models(children@, children@.len());
            holds == if all {
                all_hold(
                    models,
                    container@,
                    enum_models(enums@),
                    datums(values@),
                    children@.len(),
                )
            } else {
                any_holds(
                    models,
                    container@,
                    enum_models(enums@),
                    datums(values@),
                    children@.len(),
                )
            }
        }),
    decreases children,
{
    let ghost models = criterion_models(children@, children@.len());
    proof {
        lemma_criterion_models(children@, children@.len());
    }
    let mut result = all;
    let mut at: usize = 0;
    while at < children.len()
        invariant
            at <= children@.len(),
            models.len() == children@.len(),
            container@.valid(enum_models(enums@)),
            is_packet(container@, enum_models(enums@), datums(values@)),
            forall|i: int| 0 <= i < models.len() ==> #[trigger] models[i] == children@[i]@,
            result == if all {
                all_hold(models, container@, enum_models(enums@), datums(values@), at as nat)
            } else {
                any_holds(models, container@, enum_models(enums@), datums(values@), at as nat)
            },
        decreases children@.len() - at,
    {
        let next = holds(&children[at], container, enums, values);
        assert(models[at as int] == children@[at as int]@);
        result = if all {
            result && next
        } else {
            result || next
        };
        at = at + 1;
    }
    result
}

/// The place of the context that applies to a field of a packet, or none where the default does.
///
/// Contexts are tried in order, against the values of the packet's own fields.
pub fn choose_context(
    field: &FlightField,
    container: &Container,
    enums: &Vec<EnumType>,
    values: &[Value],
) -> (chosen: Option<usize>)
    requires
        container@.valid(enum_models(enums@)),
        is_packet(container@, enum_models(enums@), datums(values@)),
    ensures
        match context_from(
            field@.contexts,
            container@,
            enum_models(enums@),
            datums(values@),
            0,
        ) {
            Some(at) => chosen matches Some(found) && found == at,
            None => chosen is None,
        },
{
    let ghost models = enum_models(enums@);
    let ghost inputs = datums(values@);
    let mut at: usize = 0;
    while at < field.contexts.len()
        invariant
            at <= field.contexts@.len(),
            models == enum_models(enums@),
            inputs == datums(values@),
            container@.valid(models),
            is_packet(container@, models, inputs),
            context_from(field@.contexts, container@, models, inputs, 0) == context_from(
                field@.contexts,
                container@,
                models,
                inputs,
                at as int,
            ),
        decreases field.contexts@.len() - at,
    {
        assert(field@.contexts[at as int] == field.contexts@[at as int]@);
        if holds(&field.contexts[at].criteria, container, enums, values) {
            return Some(at);
        }
        at = at + 1;
    }
    None
}

} // verus!
