//! When the conditions of a context hold.

use vstd::prelude::*;
use vstd::string::*;

use crate::calibration::{
    all_hold, any_holds, compared_value, covered, criterion_holds, holds_between, value_of,
};
use crate::code::bits::lemma_type_powers;
use crate::code::fields::held;
use crate::code::language::{
    binary, call, is_among, means, paren, parses, pattern, source, step_among, step_binary,
    step_call, step_field, step_flag, step_from, step_number, step_paren, strength, Expr, Int,
    Method, Operator, Outcome, Scope, Thing,
};
use crate::codec::{is_packet, Datum};
use crate::emit::calibrate::{
    condition_list, condition_text, operator_text, ranges_text, test_condition,
};
use crate::layout::{ContainerModel, CriterionModel, EnumModel, KindModel, TestModel};
use crate::plan::{CompareOp, ComparisonModel};

verus! {

// ---------------------------------------------------------------------------------------
// Operators
// ---------------------------------------------------------------------------------------

/// The operator that compares.
pub open spec fn comparing(operator: CompareOp) -> Operator {
    match operator {
        CompareOp::Equal => Operator::Equal,
        CompareOp::NotEqual => Operator::NotEqual,
        CompareOp::Less => Operator::Less,
        CompareOp::LessOrEqual => Operator::LessOrEqual,
        CompareOp::Greater => Operator::Greater,
        CompareOp::GreaterOrEqual => Operator::GreaterOrEqual,
    }
}

/// Each comparison is spelled as the Rust operator that holds between two numbers exactly where the
/// comparison does.
pub proof fn lemma_operators_compare(operator: CompareOp, left: int, right: int)
    requires
        Int::I128.holds(right),
    ensures
        comparing(operator).sign() == " "@ + operator_text(operator) + " "@,
        crate::code::language::operated(
            comparing(operator),
            Thing::Number(Int::I128, left),
            Thing::Literal(right),
        ) == Some(Thing::Flag(holds_between(operator, left, right))),
{
    reveal_strlit(" ");
    reveal_strlit("==");
    reveal_strlit("!=");
    reveal_strlit("<");
    reveal_strlit("<=");
    reveal_strlit(">");
    reveal_strlit(">=");
    reveal_strlit(" == ");
    reveal_strlit(" != ");
    reveal_strlit(" < ");
    reveal_strlit(" <= ");
    reveal_strlit(" > ");
    reveal_strlit(" >= ");
    assert(comparing(operator).sign() =~= " "@ + operator_text(operator) + " "@);
}

/// No two comparisons are spelled alike.
pub proof fn lemma_operators_differ(a: CompareOp, b: CompareOp)
    requires
        a != b,
    ensures
        operator_text(a) != operator_text(b),
{
    reveal_strlit("==");
    reveal_strlit("!=");
    reveal_strlit("<");
    reveal_strlit("<=");
    reveal_strlit(">");
    reveal_strlit(">=");
    assert("=="@.len() == 2 && "!="@.len() == 2 && "<="@.len() == 2 && ">="@.len() == 2);
    assert("<"@.len() == 1 && ">"@.len() == 1);
    assert("=="@[0] == '=' && "!="@[0] == '!' && "<="@[0] == '<' && ">="@[0] == '>');
    assert("<"@[0] == '<' && ">"@[0] == '>');
}

// ---------------------------------------------------------------------------------------
// Tests
// ---------------------------------------------------------------------------------------

/// Where `self` is a packet of a container.
pub open spec fn is_self(
    scope: Scope,
    container: ContainerModel,
    enums: Seq<EnumModel>,
    values: Seq<Datum>,
) -> bool {
    &&& scope.enums == enums
    &&& forall|i: int|
        #![trigger container.fields[i]]
        0 <= i < container.fields.len() ==> scope.fields.contains_key(container.fields[i].ident)
            && scope.fields[container.fields[i].ident] == held(container.fields[i], values[i])
}

/// The first field of a name, from `at` on.
pub open spec fn field_named(container: ContainerModel, ident: Seq<char>, at: int) -> Option<int>
    decreases container.fields.len() - at,
{
    if at < 0 || at >= container.fields.len() {
        None
    } else if container.fields[at].ident == ident {
        Some(at)
    } else {
        field_named(container, ident, at + 1)
    }
}

/// Whether a test reads a field of the container that holds a whole number, and knows whether that
/// is a label.
pub open spec fn test_reads(test: TestModel, container: ContainerModel) -> bool {
    field_named(container, test.ident, 0) matches Some(i) && match container.fields[i].kind {
        KindModel::Unsigned | KindModel::Signed(_) | KindModel::Bool => !test.enumerated,
        KindModel::Enumerated(_) => test.enumerated,
        _ => false,
    }
}

/// Whether every test of a criterion does.
pub open spec fn criterion_reads(criterion: CriterionModel, container: ContainerModel) -> bool
    decreases criterion,
{
    match criterion {
        CriterionModel::Test(test) => test_reads(test, container),
        CriterionModel::All(children) => criteria_read(children, container, children.len()),
        CriterionModel::Any(children) => criteria_read(children, container, children.len()),
    }
}

/// Whether every test of the first `count` criteria does.
pub open spec fn criteria_read(
    children: Seq<CriterionModel>,
    container: ContainerModel,
    count: nat,
) -> bool
    decreases children, count,
{
    count == 0 || count > children.len() || (criteria_read(children, container, (count - 1) as nat)
        && criterion_reads(children[count - 1], container))
}

/// The number that a test compares.
pub open spec fn compared_code(test: TestModel) -> Expr {
    let field = Expr::Field(test.ident);
    if test.enumerated {
        Expr::From(Int::I128, Box::new(call(Method::Raw, field)))
    } else {
        Expr::From(Int::I128, Box::new(field))
    }
}

/// The code for one comparison.
pub open spec fn test_code(test: TestModel) -> Expr {
    match test.test {
        ComparisonModel::Value(operator, literal) => binary(
            comparing(operator),
            compared_code(test),
            Expr::Number(literal as int),
        ),
        ComparisonModel::Labels(ranges) => if ranges.len() == 0 {
            Expr::Flag(false)
        } else {
            Expr::Among(Box::new(compared_code(test)), ranges)
        },
    }
}

proof fn lemma_field_named(
    container: ContainerModel,
    enums: Seq<EnumModel>,
    values: Seq<Datum>,
    ident: Seq<char>,
    at: int,
)
    requires
        0 <= at,
        field_named(container, ident, at) is Some,
    ensures
        ({
            let i = field_named(container, ident, at)->Some_0;
            &&& at <= i < container.fields.len()
            &&& container.fields[i].ident == ident
            &&& value_of(container, enums, values, ident, at) == compared_value(
                container.fields[i],
                enums,
                values[i],
            )
        }),
    decreases container.fields.len() - at,
{
    if at < container.fields.len() && container.fields[at].ident != ident {
        lemma_field_named(container, enums, values, ident, at + 1);
    }
}

/// The source for the number that a test compares gives that number, whatever the width and the
/// sign of the field are.
pub proof fn lemma_compares_the_number(
    scope: Scope,
    test: TestModel,
    container: ContainerModel,
    enums: Seq<EnumModel>,
    values: Seq<Datum>,
)
    requires
        is_self(scope, container, enums, values),
        is_packet(container, enums, values),
        test_reads(test, container),
    ensures
        source(compared_code(test)) == if test.enumerated {
            "i128::from(self."@ + test.ident + ".raw())"@
        } else {
            "i128::from(self."@ + test.ident + ")"@
        },
        parses(compared_code(test)),
        value_of(container, enums, values, test.ident, 0) is Some,
        means(compared_code(test), scope) == Outcome::Is(
            Thing::Number(
                Int::I128,
                value_of(container, enums, values, test.ident, 0)->Some_0,
            ),
        ),
{
    let field = Expr::Field(test.ident);
    lemma_field_named(container, enums, values, test.ident, 0);
    let i = field_named(container, test.ident, 0)->Some_0;
    assert(crate::codec::well_typed(container.fields[i], enums, values[i]));
    step_field(test.ident, scope);
    step_call(Method::Raw, field, scope);
    step_from(Int::I128, call(Method::Raw, field), scope);
    step_from(Int::I128, field, scope);
    reveal_strlit("i128");
    reveal_strlit("::from(");
    reveal_strlit("self.");
    reveal_strlit("i128::from(self.");
    reveal_strlit(".raw()");
    reveal_strlit(".raw())");
    reveal_strlit(")");
    if test.enumerated {
        assert(source(compared_code(test)) =~= "i128::from(self."@ + test.ident + ".raw())"@);
    } else {
        assert(source(compared_code(test)) =~= "i128::from(self."@ + test.ident + ")"@);
    }
}

proof fn lemma_pattern(ranges: Seq<(i128, i128)>, count: nat)
    requires
        count <= ranges.len(),
    ensures
        pattern(ranges.take(count as int)) == ranges_text(ranges, " | "@, " ..= "@, count),
    decreases count,
{
    if count > 0 {
        let some = ranges.take(count as int);
        lemma_pattern(ranges, (count - 1) as nat);
        assert(some.drop_last() =~= ranges.take(count - 1));
        assert(some.last() == ranges[count - 1]);
    }
}

/// The source for one comparison holds of a packet exactly where the comparison does.
pub proof fn lemma_test_holds(
    scope: Scope,
    test: TestModel,
    container: ContainerModel,
    enums: Seq<EnumModel>,
    values: Seq<Datum>,
)
    requires
        is_self(scope, container, enums, values),
        is_packet(container, enums, values),
        test_reads(test, container),
    ensures
        source(test_code(test)) == test_condition(test),
        parses(test_code(test)),
        strength(test_code(test)) > 4,
        means(test_code(test), scope) == Outcome::Is(
            Thing::Flag(
                criterion_holds(CriterionModel::Test(test), container, enums, values),
            ),
        ),
{
    let value = compared_code(test);
    lemma_compares_the_number(scope, test, container, enums, values);
    let n = value_of(container, enums, values, test.ident, 0)->Some_0;
    match test.test {
        ComparisonModel::Value(operator, literal) => {
            lemma_type_powers();
            lemma_operators_compare(operator, n, literal as int);
            step_number(literal as int, scope);
            step_binary(comparing(operator), value, Expr::Number(literal as int), scope);
            assert(source(test_code(test)) =~= test_condition(test));
        },
        ComparisonModel::Labels(ranges) => {
            if ranges.len() == 0 {
                step_flag(false, scope);
                assert(!covered(ranges, n));
            } else {
                step_among(value, ranges, scope);
                assert(ranges.take(ranges.len() as int) =~= ranges);
                lemma_pattern(ranges, ranges.len());
                assert(is_among(n, ranges) == covered(ranges, n));
            }
        },
    }
}

// ---------------------------------------------------------------------------------------
// Criteria
// ---------------------------------------------------------------------------------------

/// The code for the criteria of a context.
pub open spec fn condition_code(criterion: CriterionModel) -> Expr
    decreases criterion,
{
    match criterion {
        CriterionModel::Test(test) => test_code(test),
        CriterionModel::All(children) => if children.len() == 0 {
            Expr::Flag(true)
        } else {
            conditions_code(children, Operator::And, children.len())
        },
        CriterionModel::Any(children) => if children.len() == 0 {
            Expr::Flag(false)
        } else {
            paren(conditions_code(children, Operator::Or, children.len()))
        },
    }
}

/// The code for the first `count` criteria, with an operator between them.
pub open spec fn conditions_code(
    children: Seq<CriterionModel>,
    operator: Operator,
    count: nat,
) -> Expr
    decreases children, count,
{
    if count == 0 || count > children.len() {
        Expr::Flag(true)
    } else if count == 1 {
        condition_code(children[0])
    } else {
        binary(
            operator,
            conditions_code(children, operator, (count - 1) as nat),
            condition_code(children[count - 1]),
        )
    }
}

/// The source for the criteria of a context holds of a packet exactly where the criteria do.
pub proof fn lemma_condition_holds(
    scope: Scope,
    criterion: CriterionModel,
    container: ContainerModel,
    enums: Seq<EnumModel>,
    values: Seq<Datum>,
)
    requires
        is_self(scope, container, enums, values),
        is_packet(container, enums, values),
        criterion_reads(criterion, container),
    ensures
        source(condition_code(criterion)) == condition_text(criterion),
        parses(condition_code(criterion)),
        strength(condition_code(criterion)) >= 4,
        means(condition_code(criterion), scope) == Outcome::Is(
            Thing::Flag(criterion_holds(criterion, container, enums, values)),
        ),
    decreases criterion, 0nat,
{
    match criterion {
        CriterionModel::Test(test) => lemma_test_holds(scope, test, container, enums, values),
        CriterionModel::All(children) => {
            if children.len() == 0 {
                step_flag(true, scope);
            } else {
                lemma_conditions_hold(scope, children, true, container, enums, values, children.len());
            }
        },
        CriterionModel::Any(children) => {
            if children.len() == 0 {
                step_flag(false, scope);
            } else {
                lemma_conditions_hold(scope, children, false, container, enums, values, children.len());
                step_paren(conditions_code(children, Operator::Or, children.len()), scope);
            }
        },
    }
}

proof fn lemma_conditions_hold(
    scope: Scope,
    children: Seq<CriterionModel>,
    every: bool,
    container: ContainerModel,
    enums: Seq<EnumModel>,
    values: Seq<Datum>,
    count: nat,
)
    requires
        is_self(scope, container, enums, values),
        is_packet(container, enums, values),
        criteria_read(children, container, count),
        1 <= count <= children.len(),
    ensures
        ({
            let operator = if every {
                Operator::And
            } else {
                Operator::Or
            };
            let code = conditions_code(children, operator, count);
            &&& source(code) == condition_list(children, operator.sign(), count)
            &&& parses(code)
            &&& strength(code) >= operator.strength()
            &&& means(code, scope) == Outcome::Is(
                Thing::Flag(
                    if every {
                        all_hold(children, container, enums, values, count)
                    } else {
                        any_holds(children, container, enums, values, count)
                    },
                ),
            )
        }),
    decreases children, count,
{
    let operator = if every {
        Operator::And
    } else {
        Operator::Or
    };
    lemma_condition_holds(scope, children[count - 1], container, enums, values);
    if count == 1 {
        assert(all_hold(children, container, enums, values, 0));
        assert(!any_holds(children, container, enums, values, 0));
    } else {
        lemma_conditions_hold(
            scope,
            children,
            every,
            container,
            enums,
            values,
            (count - 1) as nat,
        );
        step_binary(
            operator,
            conditions_code(children, operator, (count - 1) as nat),
            condition_code(children[count - 1]),
            scope,
        );
    }
}

} // verus!
