//! Which calibrator an accessor applies, and to what.
//!
//! What comes out is a float, of which nothing is said here: what goes in is.

use vstd::prelude::*;
use vstd::string::*;

use crate::calibration::context_from;
use crate::code::conditions::{condition_code, criterion_reads, is_self, lemma_condition_holds};
use crate::code::fields::held;
use crate::code::language::{
    means, parses, source, step_field, step_from, strength, Expr, Int, Outcome, Scope, Thing,
};
use crate::codec::{is_packet, well_typed, Datum};
use crate::emit::calibrate::{
    accessor_body, calibration_text, chain_text, is_integral, points_text, terms_text,
};
use crate::emit::text::string_literal;
use crate::layout::{ContainerModel, EnumModel, FieldModel};
use crate::names::{decimal_text, signed_text};
use crate::plan::{CalibrationModel, PointModel, TermModel};

verus! {

// ---------------------------------------------------------------------------------------
// The choice
// ---------------------------------------------------------------------------------------

/// `if x { a } else if y { b } else { c }`: tests, what is done where one holds, and what is done
/// where none does.
pub struct Branches {
    /// The tests, in order.
    pub tests: Seq<Expr>,
    /// What is done where a test is the first that holds.
    pub bodies: Seq<Seq<char>>,
    /// What is done where none holds.
    pub otherwise: Seq<char>,
}

/// The branches from `from` on.
pub open spec fn branches_source(branches: Branches, from: int) -> Seq<char>
    decreases branches.tests.len() - from,
{
    if from < 0 || from >= branches.tests.len() {
        "{\n"@ + branches.otherwise + "}"@
    } else {
        "if "@ + source(branches.tests[from]) + " {\n"@ + branches.bodies[from] + "} else "@
            + branches_source(branches, from + 1)
    }
}

/// What is done, by the branches from `from` on; none where a test has no meaning.
pub open spec fn done(branches: Branches, scope: Scope, from: int) -> Option<Seq<char>>
    decreases branches.tests.len() - from,
{
    if from < 0 || from >= branches.tests.len() {
        Some(branches.otherwise)
    } else {
        match means(branches.tests[from], scope) {
            Outcome::Is(Thing::Flag(flag)) => if flag {
                Some(branches.bodies[from])
            } else {
                done(branches, scope, from + 1)
            },
            _ => None,
        }
    }
}

/// The branches of an accessor: one for each context.
pub open spec fn accessor_code(field: FieldModel, calibration: CalibrationModel) -> Branches {
    Branches {
        tests: Seq::new(
            field.contexts.len(),
            |i: int| condition_code(field.contexts[i].criteria),
        ),
        bodies: Seq::new(
            field.contexts.len(),
            |i: int| calibration_text(field, field.contexts[i].calibration),
        ),
        otherwise: calibration_text(field, calibration),
    }
}

/// The calibrator that a packet chooses for a field.
pub open spec fn chosen(
    field: FieldModel,
    calibration: CalibrationModel,
    container: ContainerModel,
    enums: Seq<EnumModel>,
    values: Seq<Datum>,
) -> CalibrationModel {
    match context_from(field.contexts, container, enums, values, 0) {
        Some(i) => field.contexts[i].calibration,
        None => calibration,
    }
}

proof fn lemma_chain(
    scope: Scope,
    field: FieldModel,
    calibration: CalibrationModel,
    container: ContainerModel,
    enums: Seq<EnumModel>,
    values: Seq<Datum>,
    from: int,
)
    requires
        is_self(scope, container, enums, values),
        is_packet(container, enums, values),
        forall|i: int|
            0 <= i < field.contexts.len() ==> criterion_reads(
                (#[trigger] field.contexts[i]).criteria,
                container,
            ),
        0 <= from <= field.contexts.len(),
    ensures
        branches_source(accessor_code(field, calibration), from) == chain_text(
            field,
            field.contexts,
            calibration_text(field, calibration),
            from,
        ),
        forall|i: int|
            from <= i < field.contexts.len() ==> parses(
                #[trigger] accessor_code(field, calibration).tests[i],
            ) && strength(accessor_code(field, calibration).tests[i]) >= 3,
        done(accessor_code(field, calibration), scope, from) == Some(
            calibration_text(
                field,
                match context_from(field.contexts, container, enums, values, from) {
                    Some(i) => field.contexts[i].calibration,
                    None => calibration,
                },
            ),
        ),
    decreases field.contexts.len() - from,
{
    if from < field.contexts.len() {
        let code = accessor_code(field, calibration);
        assert(code.tests[from] == condition_code(field.contexts[from].criteria));
        assert(criterion_reads(field.contexts[from].criteria, container));
        lemma_condition_holds(scope, field.contexts[from].criteria, container, enums, values);
        lemma_chain(scope, field, calibration, container, enums, values, from + 1);
    }
}

/// The source of an accessor applies to every packet the calibrator that the packet chooses: that of
/// the first context whose criteria hold, or the default where none does.
pub proof fn lemma_applies_the_chosen_calibrator(
    scope: Scope,
    field: FieldModel,
    calibration: CalibrationModel,
    container: ContainerModel,
    enums: Seq<EnumModel>,
    values: Seq<Datum>,
)
    requires
        is_self(scope, container, enums, values),
        is_packet(container, enums, values),
        forall|i: int|
            0 <= i < field.contexts.len() ==> criterion_reads(
                (#[trigger] field.contexts[i]).criteria,
                container,
            ),
    ensures
        accessor_body(field, calibration) == if field.contexts.len() == 0 {
            accessor_code(field, calibration).otherwise
        } else {
            branches_source(accessor_code(field, calibration), 0)
        },
        forall|i: int|
            0 <= i < field.contexts.len() ==> parses(
                #[trigger] accessor_code(field, calibration).tests[i],
            ) && strength(accessor_code(field, calibration).tests[i]) >= 3,
        done(accessor_code(field, calibration), scope, 0) == Some(
            calibration_text(field, chosen(field, calibration, container, enums, values)),
        ),
{
    lemma_chain(scope, field, calibration, container, enums, values, 0);
}

// ---------------------------------------------------------------------------------------
// The computation
// ---------------------------------------------------------------------------------------

/// What an accessor computes.
pub enum Computation {
    /// A sum of coefficients times powers of the field's value.
    Sum(Seq<(Seq<char>, int)>),
    /// A curve through points, of an order, that may go on beyond them.
    Curve(Seq<(Seq<char>, Seq<char>)>, nat, bool),
}

/// The field's value, exactly where it is a whole number.
pub open spec fn argument_source(field: FieldModel) -> Seq<char> {
    if is_integral(field.kind) {
        source(argument_code(field))
    } else {
        "f64"@ + "::from("@ + source(Expr::Field(field.ident)) + ")"@
    }
}

/// The code for a field's value that is a whole number.
pub open spec fn argument_code(field: FieldModel) -> Expr {
    Expr::From(Int::I128, Box::new(Expr::Field(field.ident)))
}

/// The first `count` addends.
pub open spec fn addends_source(
    addends: Seq<(Seq<char>, int)>,
    exact: bool,
    count: nat,
) -> Seq<char>
    decreases count,
{
    if count == 0 {
        Seq::empty()
    } else {
        addends_source(addends, exact, (count - 1) as nat) + "sum += "@ + addends[count - 1].0
            + " * "@ + if exact {
            "integer_power"@
        } else {
            "powi"@
        } + "("@ + "base"@ + ", "@ + signed_text(addends[count - 1].1) + ")"@ + ";\n"@
    }
}

/// The first `count` pairs.
pub open spec fn pairs_source(pairs: Seq<(Seq<char>, Seq<char>)>, count: nat) -> Seq<char>
    decreases count,
{
    if count == 0 {
        Seq::empty()
    } else {
        let one = "("@ + pairs[count - 1].0 + ", "@ + pairs[count - 1].1 + ")"@;
        if count == 1 {
            one
        } else {
            pairs_source(pairs, (count - 1) as nat) + ", "@ + one
        }
    }
}

/// How a computation on a field is spelled.
pub open spec fn computation_source(field: FieldModel, computation: Computation) -> Seq<char> {
    match computation {
        Computation::Sum(addends) => "let base = "@ + argument_source(field)
            + ";\nlet mut sum = 0.0f64;\n"@ + addends_source(
            addends,
            is_integral(field.kind),
            addends.len(),
        ) + "Ok(sum)\n"@,
        Computation::Curve(pairs, order, beyond) => "const POINTS: &[(f64, f64)] = &["@
            + pairs_source(pairs, pairs.len()) + "];\nmatch spline_value("@ + "POINTS"@ + ", "@
            + decimal_text(order) + ", "@ + if beyond {
            "true"@
        } else {
            "false"@
        } + ", "@ + argument_source(field) + if is_integral(field.kind) {
            " as f64"@
        } else {
            ""@
        } + ") {\nSome(value) => Ok(value),\nNone => Err(DecodeError::Calibration { parameter: "@
            + string_literal(field.xtce_name) + " }),\n}\n"@,
    }
}

/// The computation of a calibrator: an addend for each term, or a pair for each point.
pub open spec fn computation_of(calibration: CalibrationModel) -> Computation {
    match calibration {
        CalibrationModel::Polynomial(terms) => Computation::Sum(
            Seq::new(terms.len(), |k: int| (terms[k].coefficient, terms[k].exponent as int)),
        ),
        CalibrationModel::Spline { points, order, extrapolate } => Computation::Curve(
            Seq::new(points.len(), |k: int| (points[k].raw, points[k].calibrated)),
            order as nat,
            extrapolate,
        ),
    }
}

proof fn lemma_addends(terms: Seq<TermModel>, exact: bool, count: nat)
    requires
        count <= terms.len(),
    ensures
        addends_source(
            Seq::new(terms.len(), |k: int| (terms[k].coefficient, terms[k].exponent as int)),
            exact,
            count,
        ) == terms_text(terms, exact, count),
    decreases count,
{
    let addends = Seq::new(terms.len(), |k: int| (terms[k].coefficient, terms[k].exponent as int));
    if count > 0 {
        lemma_addends(terms, exact, (count - 1) as nat);
        reveal_strlit(" * ");
        reveal_strlit("integer_power");
        reveal_strlit("powi");
        reveal_strlit("(");
        reveal_strlit("base");
        reveal_strlit(", ");
        reveal_strlit(")");
        reveal_strlit(";\n");
        reveal_strlit(");\n");
        reveal_strlit(" * integer_power(base, ");
        reveal_strlit(" * powi(base, ");
        assert(addends_source(addends, exact, count) =~= terms_text(terms, exact, count));
    }
}

proof fn lemma_pairs(points: Seq<PointModel>, count: nat)
    requires
        count <= points.len(),
    ensures
        pairs_source(
            Seq::new(points.len(), |k: int| (points[k].raw, points[k].calibrated)),
            count,
        ) == points_text(points, count),
    decreases count,
{
    if count > 0 {
        lemma_pairs(points, (count - 1) as nat);
    }
}

/// The argument of a calibrator is the exact value of a field that holds a whole number.
pub proof fn lemma_argument_is_the_value(scope: Scope, field: FieldModel, value: Datum)
    requires
        is_integral(field.kind),
        well_typed(field, scope.enums, value),
        scope.fields.contains_key(field.ident),
        scope.fields[field.ident] == held(field, value),
    ensures
        source(argument_code(field)) == "i128::from(self."@ + field.ident + ")"@,
        parses(argument_code(field)),
        means(argument_code(field), scope) == Outcome::Is(
            Thing::Number(
                Int::I128,
                match value {
                    Datum::Unsigned(n) => n as int,
                    Datum::Signed(n) => n as int,
                    _ => 0,
                },
            ),
        ),
{
    step_field(field.ident, scope);
    step_from(Int::I128, Expr::Field(field.ident), scope);
    reveal_strlit("i128");
    reveal_strlit("::from(");
    reveal_strlit("self.");
    reveal_strlit("i128::from(self.");
    assert(source(argument_code(field)) =~= "i128::from(self."@ + field.ident + ")"@);
}

/// The source of a calibrator spells its computation: every term with its own coefficient and
/// exponent and every point with both of its values, in order, with the calibrator's own order and
/// leave to extrapolate.
pub proof fn lemma_spells_the_computation(field: FieldModel, calibration: CalibrationModel)
    ensures
        calibration_text(field, calibration) == computation_source(
            field,
            computation_of(calibration),
        ),
{
    let scope = arbitrary::<Scope>();
    step_field(field.ident, scope);
    step_from(Int::I128, Expr::Field(field.ident), scope);
    let integral = is_integral(field.kind);
    let kind = if integral {
        "i128"@
    } else {
        "f64"@
    };
    assert(argument_source(field) =~= kind + "::from(self."@ + field.ident + ")"@) by {
        reveal_strlit("::from(");
        reveal_strlit("self.");
        reveal_strlit("::from(self.");
    }
    match calibration {
        CalibrationModel::Polynomial(terms) => {
            lemma_addends(terms, integral, terms.len());
            let sum = terms_text(terms, integral, terms.len());
            assert("let base = "@ + (kind + "::from(self."@ + field.ident + ")"@)
                + ";\nlet mut sum = 0.0f64;\n"@ + sum + "Ok(sum)\n"@ =~= "let base = "@ + kind
                + "::from(self."@ + field.ident + ");\nlet mut sum = 0.0f64;\n"@ + sum
                + "Ok(sum)\n"@) by {
                reveal_strlit(")");
                reveal_strlit(";\nlet mut sum = 0.0f64;\n");
                reveal_strlit(");\nlet mut sum = 0.0f64;\n");
            }
        },
        CalibrationModel::Spline { points, order, extrapolate } => {
            lemma_pairs(points, points.len());
            lemma_curve_texts(
                points_text(points, points.len()),
                decimal_text(order as nat),
                extrapolate,
                integral,
                kind,
                field.ident,
                string_literal(field.xtce_name),
            );
        },
    }
}

proof fn lemma_curve_texts(
    points: Seq<char>,
    order: Seq<char>,
    beyond: bool,
    integral: bool,
    kind: Seq<char>,
    ident: Seq<char>,
    name: Seq<char>,
)
    ensures
        "const POINTS: &[(f64, f64)] = &["@ + points + "];\nmatch spline_value("@ + "POINTS"@
            + ", "@ + order + ", "@ + (if beyond {
            "true"@
        } else {
            "false"@
        }) + ", "@ + (kind + "::from(self."@ + ident + ")"@) + (if integral {
            " as f64"@
        } else {
            ""@
        }) + ") {\nSome(value) => Ok(value),\nNone => Err(DecodeError::Calibration { parameter: "@
            + name + " }),\n}\n"@ == "const POINTS: &[(f64, f64)] = &["@ + points
            + "];\nmatch spline_value(POINTS, "@ + order + (if beyond {
            ", true, "@
        } else {
            ", false, "@
        }) + kind + "::from(self."@ + ident + (if integral {
            ") as f64"@
        } else {
            ")"@
        }) + ") {\nSome(value) => Ok(value),\nNone => Err(DecodeError::Calibration { parameter: "@
            + name + " }),\n}\n"@,
{
    reveal_strlit("];\nmatch spline_value(");
    reveal_strlit("POINTS");
    reveal_strlit(", ");
    reveal_strlit("true");
    reveal_strlit("false");
    reveal_strlit(")");
    reveal_strlit("");
    reveal_strlit(" as f64");
    reveal_strlit("];\nmatch spline_value(POINTS, ");
    reveal_strlit(", true, ");
    reveal_strlit(", false, ");
    reveal_strlit(") as f64");
    let flag = if beyond {
        "true"@
    } else {
        "false"@
    };
    let wide = if integral {
        " as f64"@
    } else {
        ""@
    };
    let head = "const POINTS: &[(f64, f64)] = &["@ + points;
    let tail = ") {\nSome(value) => Ok(value),\nNone => Err(DecodeError::Calibration { parameter: "@;
    assert("];\nmatch spline_value("@ + "POINTS"@ + ", "@ =~= "];\nmatch spline_value(POINTS, "@);
    assert(", "@ + flag + ", "@ =~= if beyond {
        ", true, "@
    } else {
        ", false, "@
    });
    assert(")"@ + wide =~= if integral {
        ") as f64"@
    } else {
        ")"@
    });
    assert(head + "];\nmatch spline_value("@ + "POINTS"@ + ", "@ + order + ", "@ + flag + ", "@ + (
    kind + "::from(self."@ + ident + ")"@) + wide + tail + name + " }),\n}\n"@ =~= head + (
    "];\nmatch spline_value("@ + "POINTS"@ + ", "@) + order + (", "@ + flag + ", "@) + kind
        + "::from(self."@ + ident + (")"@ + wide) + tail + name + " }),\n}\n"@);
}

} // verus!
