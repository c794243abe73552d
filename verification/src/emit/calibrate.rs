//! The accessors that apply calibrators, as source.
//!
//! A calibrator is no part of encoding. Its accessor computes from the struct what the ground
//! reads, and where the packet chooses between calibrators it is a chain over the struct's own
//! fields.

use vstd::prelude::*;
use vstd::string::*;

use crate::emit::text::{doc_attribute, doc_line, literal, string_literal, trim, trimmed};
use crate::layout::{
    criterion_models, lemma_criterion_models, ContextCriterion, ContextModel, ContextTest,
    CriterionModel, FieldModel, FlightContext, FlightField, Kind, KindModel, TestModel,
};
use crate::names::{decimal, decimal_text, signed_decimal, signed_text};
use crate::plan::{
    Calibration, CalibrationModel, CompareOp, ComparisonModel, ContextComparison, PointModel,
    SplinePoint, Term, TermModel,
};

verus! {

/// A comparison operator as Rust spells it.
pub open spec fn operator_text(operator: CompareOp) -> Seq<char> {
    match operator {
        CompareOp::Equal => "=="@,
        CompareOp::NotEqual => "!="@,
        CompareOp::Less => "<"@,
        CompareOp::LessOrEqual => "<="@,
        CompareOp::Greater => ">"@,
        CompareOp::GreaterOrEqual => ">="@,
    }
}

/// A comparison operator as Rust spells it.
pub fn compare_op(operator: CompareOp) -> (source: &'static str)
    ensures
        source@ == operator_text(operator),
{
    match operator {
        CompareOp::Equal => "==",
        CompareOp::NotEqual => "!=",
        CompareOp::Less => "<",
        CompareOp::LessOrEqual => "<=",
        CompareOp::Greater => ">",
        CompareOp::GreaterOrEqual => ">=",
    }
}

// ---------------------------------------------------------------------------------------
// Contexts in prose
// ---------------------------------------------------------------------------------------

/// One range of values, with a text between its ends.
pub open spec fn range_text(low: i128, high: i128, between: Seq<char>) -> Seq<char> {
    if low == high {
        signed_text(low as int)
    } else {
        signed_text(low as int) + between + signed_text(high as int)
    }
}

/// The first `count` ranges, with a text between them and one between the ends of each.
pub open spec fn ranges_text(
    ranges: Seq<(i128, i128)>,
    separator: Seq<char>,
    between: Seq<char>,
    count: nat,
) -> Seq<char>
    decreases count,
{
    if count == 0 {
        Seq::empty()
    } else if count == 1 {
        range_text(ranges[0].0, ranges[0].1, between)
    } else {
        ranges_text(ranges, separator, between, (count - 1) as nat) + separator + range_text(
            ranges[count - 1].0,
            ranges[count - 1].1,
            between,
        )
    }
}

/// One range of values, with a text between its ends.
fn range(low: i128, high: i128, between: &str) -> (source: String)
    ensures
        source@ == range_text(low, high, between@),
{
    if low == high {
        signed_decimal(low)
    } else {
        let mut source = signed_decimal(low);
        source.append(between);
        source.append(signed_decimal(high).as_str());
        source
    }
}

/// Ranges, with a text between them and one between the ends of each.
fn ranges_listed(ranges: &Vec<(i128, i128)>, separator: &str, between: &str) -> (source: String)
    ensures
        source@ == ranges_text(ranges@, separator@, between@, ranges@.len()),
{
    let mut source = String::new();
    let mut at: usize = 0;
    while at < ranges.len()
        invariant
            at <= ranges@.len(),
            source@ == ranges_text(ranges@, separator@, between@, at as nat),
        decreases ranges@.len() - at,
    {
        let next = range(ranges[at].0, ranges[at].1, between);
        if at == 0 {
            source = next;
        } else {
            source.append(separator);
            source.append(next.as_str());
        }
        at = at + 1;
    }
    source
}

/// One comparison as prose, named by the parameter it reads.
pub open spec fn test_prose(test: TestModel) -> Seq<char> {
    match test.test {
        ComparisonModel::Value(operator, value) => test.xtce_name + " "@ + operator_text(operator)
            + " "@ + signed_text(value as int),
        ComparisonModel::Labels(ranges) => if ranges.len() == 0 {
            test.xtce_name + " matches no label"@
        } else {
            test.xtce_name + " is "@ + ranges_text(ranges, " or "@, "..="@, ranges.len())
        },
    }
}

/// A context's criteria as prose.
pub open spec fn criteria_prose_text(criterion: CriterionModel) -> Seq<char>
    decreases criterion,
{
    match criterion {
        CriterionModel::Test(test) => test_prose(test),
        CriterionModel::All(children) => if children.len() == 0 {
            "always"@
        } else {
            prose_list(children, " and "@, children.len())
        },
        CriterionModel::Any(children) => if children.len() == 0 {
            "never"@
        } else {
            "("@ + prose_list(children, " or "@, children.len()) + ")"@
        },
    }
}

/// The first `count` criteria as prose, with a text between them.
pub open spec fn prose_list(children: Seq<CriterionModel>, separator: Seq<char>, count: nat) -> Seq<
    char,
>
    decreases children, count,
{
    if count == 0 || count > children.len() {
        Seq::empty()
    } else if count == 1 {
        criteria_prose_text(children[0])
    } else {
        prose_list(children, separator, (count - 1) as nat) + separator + criteria_prose_text(
            children[count - 1],
        )
    }
}

/// One comparison as prose.
fn prose_of_test(test: &ContextTest) -> (text: String)
    ensures
        text@ == test_prose(test@),
{
    let mut text = test.xtce_name.as_str().to_owned();
    match &test.test {
        ContextComparison::Value { operator, value } => {
            text.append(" ");
            text.append(compare_op(*operator));
            text.append(" ");
            text.append(signed_decimal(*value).as_str());
        },
        ContextComparison::Labels(ranges) => {
            if ranges.len() == 0 {
                text.append(" matches no label");
            } else {
                text.append(" is ");
                text.append(ranges_listed(ranges, " or ", "..=").as_str());
            }
        },
    }
    text
}

/// A context's criteria as prose, for the accessor's documentation.
pub fn criteria_prose(criterion: &ContextCriterion) -> (text: String)
    ensures
        text@ == criteria_prose_text(criterion@),
    decreases criterion,
{
    match criterion {
        ContextCriterion::Test(test) => prose_of_test(test),
        ContextCriterion::All(children) => {
            proof {
                lemma_criterion_models(children@, children@.len());
            }
            if children.len() == 0 {
                return "always".to_owned();
            }
            prose_of_list(children, " and ")
        },
        ContextCriterion::Any(children) => {
            proof {
                lemma_criterion_models(children@, children@.len());
            }
            if children.len() == 0 {
                return "never".to_owned();
            }
            let mut text = "(".to_owned();
            text.append(prose_of_list(children, " or ").as_str());
            text.append(")");
            text
        },
    }
}

/// Criteria as prose, with a text between them.
fn prose_of_list(children: &Vec<ContextCriterion>, separator: &str) -> (text: String)
    ensures
        text@ == prose_list(
            criterion_models(children@, children@.len()),
            separator@,
            children@.len(),
        ),
    decreases children,
{
    let ghost models = criterion_models(children@, children@.len());
    proof {
        lemma_criterion_models(children@, children@.len());
    }
    let mut text = String::new();
    let mut at: usize = 0;
    while at < children.len()
        invariant
            at <= children@.len(),
            models.len() == children@.len(),
            forall|i: int| 0 <= i < models.len() ==> #[trigger] models[i] == children@[i]@,
            text@ == prose_list(models, separator@, at as nat),
        decreases children@.len() - at,
    {
        let next = criteria_prose(&children[at]);
        assert(models[at as int] == children@[at as int]@);
        if at == 0 {
            text = next;
        } else {
            text.append(separator);
            text.append(next.as_str());
        }
        at = at + 1;
    }
    text
}

// ---------------------------------------------------------------------------------------
// Contexts as conditions
// ---------------------------------------------------------------------------------------

/// One comparison, in `i128` so that the field's own width and sign cannot change the answer.
pub open spec fn test_condition(test: TestModel) -> Seq<char> {
    let value = if test.enumerated {
        "i128::from(self."@ + test.ident + ".raw())"@
    } else {
        "i128::from(self."@ + test.ident + ")"@
    };
    match test.test {
        ComparisonModel::Value(operator, literal) => value + " "@ + operator_text(operator) + " "@
            + signed_text(literal as int),
        ComparisonModel::Labels(ranges) => if ranges.len() == 0 {
            "false"@
        } else {
            "matches!("@ + value + ", "@ + ranges_text(ranges, " | "@, " ..= "@, ranges.len())
                + ")"@
        },
    }
}

/// Whether a context's criteria hold, as an expression. An empty conjunction is true and an empty
/// disjunction is false.
pub open spec fn condition_text(criterion: CriterionModel) -> Seq<char>
    decreases criterion,
{
    match criterion {
        CriterionModel::Test(test) => test_condition(test),
        CriterionModel::All(children) => if children.len() == 0 {
            "true"@
        } else {
            condition_list(children, " && "@, children.len())
        },
        CriterionModel::Any(children) => if children.len() == 0 {
            "false"@
        } else {
            "("@ + condition_list(children, " || "@, children.len()) + ")"@
        },
    }
}

/// The first `count` conditions, with an operator between them.
pub open spec fn condition_list(
    children: Seq<CriterionModel>,
    separator: Seq<char>,
    count: nat,
) -> Seq<char>
    decreases children, count,
{
    if count == 0 || count > children.len() {
        Seq::empty()
    } else if count == 1 {
        condition_text(children[0])
    } else {
        condition_list(children, separator, (count - 1) as nat) + separator + condition_text(
            children[count - 1],
        )
    }
}

/// One comparison as an expression.
pub fn context_test(test: &ContextTest) -> (source: String)
    ensures
        source@ == test_condition(test@),
{
    let mut value = "i128::from(self.".to_owned();
    value.append(test.ident.as_str());
    if test.enumerated {
        value.append(".raw())");
    } else {
        value.append(")");
    }
    match &test.test {
        ContextComparison::Value { operator, value: literal } => {
            let mut source = value;
            source.append(" ");
            source.append(compare_op(*operator));
            source.append(" ");
            source.append(signed_decimal(*literal).as_str());
            source
        },
        ContextComparison::Labels(ranges) => {
            if ranges.len() == 0 {
                return "false".to_owned();
            }
            let mut source = "matches!(".to_owned();
            source.append(value.as_str());
            source.append(", ");
            source.append(ranges_listed(ranges, " | ", " ..= ").as_str());
            source.append(")");
            source
        },
    }
}

/// Whether a context's criteria hold, as an expression.
pub fn context_condition(criterion: &ContextCriterion) -> (source: String)
    ensures
        source@ == condition_text(criterion@),
    decreases criterion,
{
    match criterion {
        ContextCriterion::Test(test) => context_test(test),
        ContextCriterion::All(children) => {
            proof {
                lemma_criterion_models(children@, children@.len());
            }
            if children.len() == 0 {
                return "true".to_owned();
            }
            conditions(children, " && ")
        },
        ContextCriterion::Any(children) => {
            proof {
                lemma_criterion_models(children@, children@.len());
            }
            if children.len() == 0 {
                return "false".to_owned();
            }
            let mut source = "(".to_owned();
            source.append(conditions(children, " || ").as_str());
            source.append(")");
            source
        },
    }
}

/// Conditions, with an operator between them.
fn conditions(children: &Vec<ContextCriterion>, separator: &str) -> (source: String)
    ensures
        source@ == condition_list(
            criterion_models(children@, children@.len()),
            separator@,
            children@.len(),
        ),
    decreases children,
{
    let ghost models = criterion_models(children@, children@.len());
    proof {
        lemma_criterion_models(children@, children@.len());
    }
    let mut source = String::new();
    let mut at: usize = 0;
    while at < children.len()
        invariant
            at <= children@.len(),
            models.len() == children@.len(),
            forall|i: int| 0 <= i < models.len() ==> #[trigger] models[i] == children@[i]@,
            source@ == condition_list(models, separator@, at as nat),
        decreases children@.len() - at,
    {
        let next = context_condition(&children[at]);
        assert(models[at as int] == children@[at as int]@);
        if at == 0 {
            source = next;
        } else {
            source.append(separator);
            source.append(next.as_str());
        }
        at = at + 1;
    }
    source
}

// ---------------------------------------------------------------------------------------
// Calibrators
// ---------------------------------------------------------------------------------------

/// Whether a field's raw value is a whole number, which is raised to powers exactly.
pub open spec fn is_integral(kind: KindModel) -> bool {
    kind is Unsigned || kind is Signed
}

/// The statements that add up the first `count` terms, in document order.
pub open spec fn terms_text(terms: Seq<TermModel>, integral: bool, count: nat) -> Seq<char>
    decreases count,
{
    if count == 0 {
        Seq::empty()
    } else {
        terms_text(terms, integral, (count - 1) as nat) + "sum += "@ + terms[count - 1].coefficient
            + if integral {
            " * integer_power(base, "@
        } else {
            " * powi(base, "@
        } + signed_text(terms[count - 1].exponent as int) + ");\n"@
    }
}

/// The first `count` points of a spline, with commas between them.
pub open spec fn points_text(points: Seq<PointModel>, count: nat) -> Seq<char>
    decreases count,
{
    if count == 0 {
        Seq::empty()
    } else {
        let point = points[count - 1];
        let one = "("@ + point.raw + ", "@ + point.calibrated + ")"@;
        if count == 1 {
            one
        } else {
            points_text(points, (count - 1) as nat) + ", "@ + one
        }
    }
}

/// One calibrator applied to a field's raw value.
pub open spec fn calibration_text(field: FieldModel, calibration: CalibrationModel) -> Seq<char> {
    let integral = is_integral(field.kind);
    match calibration {
        CalibrationModel::Polynomial(terms) => "let base = "@ + if integral {
            "i128"@
        } else {
            "f64"@
        } + "::from(self."@ + field.ident + ");\nlet mut sum = 0.0f64;\n"@ + terms_text(
            terms,
            integral,
            terms.len(),
        ) + "Ok(sum)\n"@,
        CalibrationModel::Spline { points, order, extrapolate } =>
            "const POINTS: &[(f64, f64)] = &["@ + points_text(points, points.len())
            + "];\nmatch spline_value(POINTS, "@ + decimal_text(order as nat) + if extrapolate {
            ", true, "@
        } else {
            ", false, "@
        } + if integral {
            "i128"@
        } else {
            "f64"@
        } + "::from(self."@ + field.ident + if integral {
            ") as f64"@
        } else {
            ")"@
        } + ") {\nSome(value) => Ok(value),\nNone => Err(DecodeError::Calibration { parameter: "@
            + string_literal(field.xtce_name) + " }),\n}\n"@,
    }
}

/// The statements that add up the terms of a polynomial.
fn add_terms(terms: &Vec<Term>, integral: bool) -> (source: String)
    ensures
        source@ == terms_text(
            terms@.map_values(|term: Term| term@),
            integral,
            terms@.len(),
        ),
{
    let ghost models = terms@.map_values(|term: Term| term@);
    let mut source = String::new();
    let mut at: usize = 0;
    while at < terms.len()
        invariant
            at <= terms@.len(),
            models == terms@.map_values(|term: Term| term@),
            source@ == terms_text(models, integral, at as nat),
        decreases terms@.len() - at,
    {
        assert(models[at as int] == terms@[at as int]@);
        source.append("sum += ");
        source.append(terms[at].coefficient.as_str());
        if integral {
            source.append(" * integer_power(base, ");
        } else {
            source.append(" * powi(base, ");
        }
        source.append(signed_decimal(terms[at].exponent as i128).as_str());
        source.append(");\n");
        at = at + 1;
    }
    source
}

/// The points of a spline, with commas between them.
fn list_points(points: &Vec<SplinePoint>) -> (source: String)
    ensures
        source@ == points_text(
            points@.map_values(|point: SplinePoint| point@),
            points@.len(),
        ),
{
    let ghost models = points@.map_values(|point: SplinePoint| point@);
    let mut source = String::new();
    let mut at: usize = 0;
    while at < points.len()
        invariant
            at <= points@.len(),
            models == points@.map_values(|point: SplinePoint| point@),
            source@ == points_text(models, at as nat),
        decreases points@.len() - at,
    {
        assert(models[at as int] == points@[at as int]@);
        let mut one = "(".to_owned();
        one.append(points[at].raw.as_str());
        one.append(", ");
        one.append(points[at].calibrated.as_str());
        one.append(")");
        if at == 0 {
            source = one;
        } else {
            source.append(", ");
            source.append(one.as_str());
        }
        at = at + 1;
    }
    source
}

/// One calibrator applied to a field's raw value.
pub fn apply_calibration(field: &FlightField, calibration: &Calibration) -> (source: String)
    ensures
        source@ == calibration_text(field@, calibration@),
{
    let integral = match &field.kind {
        Kind::Unsigned => true,
        Kind::Signed(_) => true,
        _ => false,
    };
    match calibration {
        Calibration::Polynomial(given) => {
            let mut source = "let base = ".to_owned();
            if integral {
                source.append("i128");
            } else {
                source.append("f64");
            }
            source.append("::from(self.");
            source.append(field.ident.as_str());
            source.append(");\nlet mut sum = 0.0f64;\n");
            source.append(add_terms(given, integral).as_str());
            source.append("Ok(sum)\n");
            source
        },
        Calibration::Spline(spline) => {
            let mut source = "const POINTS: &[(f64, f64)] = &[".to_owned();
            source.append(list_points(&spline.points).as_str());
            source.append("];\nmatch spline_value(POINTS, ");
            source.append(decimal(spline.order as u128).as_str());
            if spline.extrapolate {
                source.append(", true, ");
            } else {
                source.append(", false, ");
            }
            if integral {
                source.append("i128");
            } else {
                source.append("f64");
            }
            source.append("::from(self.");
            source.append(field.ident.as_str());
            if integral {
                source.append(") as f64");
            } else {
                source.append(")");
            }
            source.append(
                ") {\nSome(value) => Ok(value),\nNone => Err(DecodeError::Calibration { parameter: ",
            );
            source.append(literal(field.xtce_name.as_str()).as_str());
            source.append(" }),\n}\n");
            source
        },
    }
}

// ---------------------------------------------------------------------------------------
// The accessor
// ---------------------------------------------------------------------------------------

/// The contexts from `from` on as a chain of conditions, with the default behind them: the first
/// whose criteria hold is the one that applies.
pub open spec fn chain_text(
    field: FieldModel,
    contexts: Seq<ContextModel>,
    default: Seq<char>,
    from: int,
) -> Seq<char>
    decreases contexts.len() - from,
{
    if from < 0 || from >= contexts.len() {
        "{\n"@ + default + "}"@
    } else {
        "if "@ + condition_text(contexts[from].criteria) + " {\n"@ + calibration_text(
            field,
            contexts[from].calibration,
        ) + "} else "@ + chain_text(field, contexts, default, from + 1)
    }
}

/// What the accessor computes.
pub open spec fn accessor_body(field: FieldModel, calibration: CalibrationModel) -> Seq<char> {
    let default = calibration_text(field, calibration);
    if field.contexts.len() == 0 {
        default
    } else {
        chain_text(field, field.contexts, default, 0)
    }
}

/// The first `count` contexts as prose.
pub open spec fn contexts_listed(contexts: Seq<ContextModel>, count: nat) -> Seq<char>
    decreases count,
{
    if count == 0 {
        Seq::empty()
    } else {
        let one = "`"@ + criteria_prose_text(contexts[count - 1].criteria) + "`"@;
        if count == 1 {
            one
        } else {
            contexts_listed(contexts, (count - 1) as nat) + ", then "@ + one
        }
    }
}

/// The documentation of a context chain.
pub open spec fn contexts_doc(contexts: Seq<ContextModel>) -> Seq<char> {
    if contexts.len() == 0 {
        ""@
    } else {
        " The definition gives it "@ + decimal_text(contexts.len())
            + " context calibrator(s) as well as a default; they are tried against this packet's own fields in order — "@
            + contexts_listed(contexts, contexts.len())
            + " — and the first whose criteria hold is the one applied. Each is named by the parameter it reads, which is not always the one the definition wrote: a criterion is compared against what the container has decoded so far, so one naming a parameter it has not — the field being calibrated, or one that comes after it — reads the field being calibrated instead."@
    }
}

/// The documentation of an accessor.
pub open spec fn accessor_doc(field: FieldModel) -> Seq<char> {
    " `"@ + field.xtce_name
        + "` in engineering units, by the calibrator the definition gives it.\n\n          The struct field holds the raw value the packet carries; this is what the ground reads. Encoding is unaffected — the calibrator is not inverted, because a spacecraft produces counts."@
        + contexts_doc(field.contexts)
}

/// The accessor of a field that has a calibrator. A field without one has none.
pub open spec fn accessor_text(field: FieldModel) -> Seq<char> {
    match field.calibration {
        None => ""@,
        Some(calibration) => doc_attribute(accessor_doc(field))
            + "#[doc = r\"\"]\n#[doc = r\" # Errors\"]\n#[doc = r\"\"]\n#[doc = r\" [`DecodeError::Calibration`] if a spline is asked for a value outside its points\"]\n#[doc = r\" and the definition does not allow extrapolation. A polynomial never fails.\"]\npub fn "@
            + trimmed(field.ident) + "_calibrated(&self) -> Result<f64, DecodeError> {\n"@
            + accessor_body(field, calibration) + "}\n"@,
    }
}

/// The contexts of a field as a chain of conditions, built from the back.
fn chain(field: &FlightField, default: &str) -> (source: String)
    ensures
        source@ == chain_text(field@, field@.contexts, default@, 0),
{
    let mut source = "{\n".to_owned();
    source.append(default);
    source.append("}");
    let mut from = field.contexts.len();
    while from > 0
        invariant
            from <= field.contexts@.len(),
            source@ == chain_text(field@, field@.contexts, default@, from as int),
        decreases from,
    {
        from = from - 1;
        let context = &field.contexts[from];
        assert(field@.contexts[from as int] == context@);
        let mut front = "if ".to_owned();
        front.append(context_condition(&context.criteria).as_str());
        front.append(" {\n");
        front.append(apply_calibration(field, &context.calibration).as_str());
        front.append("} else ");
        front.append(source.as_str());
        source = front;
    }
    source
}

/// The contexts of a field as prose.
fn contexts_prose(contexts: &Vec<FlightContext>) -> (text: String)
    ensures
        text@ == contexts_listed(
            contexts@.map_values(|context: FlightContext| context@),
            contexts@.len(),
        ),
{
    let ghost models = contexts@.map_values(|context: FlightContext| context@);
    let mut text = String::new();
    let mut at: usize = 0;
    while at < contexts.len()
        invariant
            at <= contexts@.len(),
            models == contexts@.map_values(|context: FlightContext| context@),
            text@ == contexts_listed(models, at as nat),
        decreases contexts@.len() - at,
    {
        assert(models[at as int] == contexts@[at as int]@);
        let mut one = "`".to_owned();
        one.append(criteria_prose(&contexts[at].criteria).as_str());
        one.append("`");
        if at == 0 {
            text = one;
        } else {
            text.append(", then ");
            text.append(one.as_str());
        }
        at = at + 1;
    }
    text
}

/// The documentation of an accessor.
fn document_accessor(field: &FlightField) -> (text: String)
    ensures
        text@ == accessor_doc(field@),
{
    let contexts = if field.contexts.len() == 0 {
        "".to_owned()
    } else {
        let mut contexts = " The definition gives it ".to_owned();
        contexts.append(decimal(field.contexts.len() as u128).as_str());
        contexts.append(
            " context calibrator(s) as well as a default; they are tried against this packet's own fields in order — ",
        );
        contexts.append(contexts_prose(&field.contexts).as_str());
        contexts.append(
            " — and the first whose criteria hold is the one applied. Each is named by the parameter it reads, which is not always the one the definition wrote: a criterion is compared against what the container has decoded so far, so one naming a parameter it has not — the field being calibrated, or one that comes after it — reads the field being calibrated instead.",
        );
        contexts
    };
    let mut text = " `".to_owned();
    text.append(field.xtce_name.as_str());
    text.append(
        "` in engineering units, by the calibrator the definition gives it.\n\n          The struct field holds the raw value the packet carries; this is what the ground reads. Encoding is unaffected — the calibrator is not inverted, because a spacecraft produces counts.",
    );
    text.append(contexts.as_str());
    text
}

/// The accessor that applies a field's calibrator, for the fields that have one.
///
/// Deliberately not a struct field: storing the result would cost bytes of RAM per packet, to
/// hold a number the flight side usually never looks at.
pub fn calibrated_accessor(field: &FlightField) -> (source: String)
    ensures
        source@ == accessor_text(field@),
{
    match &field.calibration {
        None => "".to_owned(),
        Some(calibration) => {
            let default = apply_calibration(field, calibration);
            let body = if field.contexts.len() == 0 {
                default
            } else {
                chain(field, default.as_str())
            };
            let mut source = doc_line(document_accessor(field).as_str());
            source.append(
                "#[doc = r\"\"]\n#[doc = r\" # Errors\"]\n#[doc = r\"\"]\n#[doc = r\" [`DecodeError::Calibration`] if a spline is asked for a value outside its points\"]\n#[doc = r\" and the definition does not allow extrapolation. A polynomial never fails.\"]\npub fn ",
            );
            source.append(trim(field.ident.as_str()).as_str());
            source.append("_calibrated(&self) -> Result<f64, DecodeError> {\n");
            source.append(body.as_str());
            source.append("}\n");
            source
        },
    }
}

} // verus!
