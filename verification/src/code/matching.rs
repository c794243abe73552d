//! What `matches` answers.

use vstd::prelude::*;
use vstd::string::*;

use crate::code::bits::{lemma_reads_the_run, lemma_type_powers, read_code};
use crate::code::language::{
    binary, means, paren, parses, source, step_binary, step_number, step_paren, strength, Expr,
    Operator, Outcome, Scope, Thing,
};
use crate::codec::{criterion_holds, is_match};
use crate::emit::bits::read_text;
use crate::emit::decode::{matches_text, tests_text, MATCHES_HEAD};
use crate::layout::{ConstantModel, ContainerModel, EnumModel};
use crate::names::decimal_text;

verus! {

/// A function that answers `false` where there are too few bytes, or where one of its tests of the
/// others holds, and `true` elsewhere.
pub struct Filter {
    /// How many bytes are looked at.
    pub len: nat,
    /// The tests, in order.
    pub tests: Seq<Expr>,
}

/// The first `count` tests: `if x { return false; }`.
pub open spec fn tests_source(tests: Seq<Expr>, count: nat) -> Seq<char>
    decreases count,
{
    if count == 0 {
        Seq::empty()
    } else {
        tests_source(tests, (count - 1) as nat) + "if "@ + source(tests[count - 1])
            + " {\nreturn false;\n}\n"@
    }
}

/// The body of the function.
pub open spec fn filter_source(filter: Filter) -> Seq<char> {
    let len = decimal_text(filter.len);
    "let data: &[u8; "@ + len + "] = match data.get(.."@ + len
        + ") {\nSome(slice) => match < &[u8; "@ + len
        + "]> ::try_from(slice) {\nOk(array) => array,\nErr(_) => return false,\n},\nNone => return false,\n};\nlet _ = data;\n"@
        + tests_source(filter.tests, filter.tests.len()) + "true\n}\n"@
}

/// Whether none of the first `count` tests holds; none where one of them has no meaning.
pub open spec fn passes(tests: Seq<Expr>, count: nat, scope: Scope) -> Option<bool>
    decreases count,
{
    if count == 0 {
        Some(true)
    } else {
        match passes(tests, (count - 1) as nat, scope) {
            Some(true) => match means(tests[count - 1], scope) {
                Outcome::Is(Thing::Flag(flag)) => Some(!flag),
                _ => None,
            },
            other => other,
        }
    }
}

/// Where names stand for nothing but the bytes of a packet.
pub open spec fn packet_scope(data: Seq<u8>, enums: Seq<EnumModel>) -> Scope {
    Scope {
        names: Map::<Seq<char>, Thing>::empty().insert("data"@, Thing::Bytes(data)),
        fields: Map::empty(),
        enums,
    }
}

/// What the function answers; none where it has no meaning.
pub open spec fn answer(filter: Filter, data: Seq<u8>) -> Option<bool> {
    if data.len() < filter.len {
        Some(false)
    } else {
        passes(
            filter.tests,
            filter.tests.len(),
            packet_scope(data.take(filter.len as int), Seq::empty()),
        )
    }
}

/// The test of one criterion.
pub open spec fn criterion_code(constant: ConstantModel) -> Expr {
    binary(
        Operator::NotEqual,
        paren(read_code(constant.bit_offset, constant.bit_width)),
        Expr::Number(constant.raw as int),
    )
}

/// The function that tests the criteria of a container: one test for each of them.
pub open spec fn matches_code(container: ContainerModel) -> Filter {
    Filter {
        len: container.len_bytes as nat,
        tests: Seq::new(
            container.constants.len(),
            |i: int| criterion_code(container.constants[i]),
        ),
    }
}

/// The test of a criterion holds of a packet exactly where the criterion does not.
pub proof fn lemma_tests_criterion(scope: Scope, constant: ConstantModel)
    requires
        scope.has_bytes("data"@),
        constant.valid(scope.bytes("data"@).len() as int),
    ensures
        source(criterion_code(constant)) == "("@ + read_text(
            constant.bit_offset,
            constant.bit_width,
        ) + ") != "@ + decimal_text(constant.raw as nat),
        parses(criterion_code(constant)),
        strength(criterion_code(constant)) >= 3,
        means(criterion_code(constant), scope) == Outcome::Is(
            Thing::Flag(!criterion_holds(constant, scope.bytes("data"@))),
        ),
{
    let read = read_code(constant.bit_offset, constant.bit_width);
    lemma_reads_the_run(scope, constant.bit_offset, constant.bit_width);
    lemma_type_powers();
    step_paren(read, scope);
    step_number(constant.raw as int, scope);
    step_binary(Operator::NotEqual, paren(read), Expr::Number(constant.raw as int), scope);
    reveal_strlit(")");
    reveal_strlit(" != ");
    reveal_strlit(") != ");
    assert(source(criterion_code(constant)) =~= "("@ + read_text(
        constant.bit_offset,
        constant.bit_width,
    ) + ") != "@ + decimal_text(constant.raw as nat));
}

proof fn lemma_tests(container: ContainerModel, scope: Scope, count: nat)
    requires
        scope.has_bytes("data"@),
        scope.bytes("data"@).len() == container.len_bytes,
        forall|i: int|
            0 <= i < container.constants.len() ==> (#[trigger] container.constants[i]).valid(
                container.len_bytes,
            ),
        count <= container.constants.len(),
    ensures
        tests_source(matches_code(container).tests, count) == tests_text(
            container.constants,
            count,
        ),
        forall|i: int|
            0 <= i < count ==> parses(#[trigger] matches_code(container).tests[i]) && strength(
                matches_code(container).tests[i],
            ) >= 3,
        passes(matches_code(container).tests, count, scope) == Some(
            forall|i: int|
                0 <= i < count ==> criterion_holds(
                    #[trigger] container.constants[i],
                    scope.bytes("data"@),
                ),
        ),
    decreases count,
{
    let tests = matches_code(container).tests;
    if count > 0 {
        let last = container.constants[count - 1];
        lemma_tests(container, scope, (count - 1) as nat);
        lemma_tests_criterion(scope, last);
        assert(tests[count - 1] == criterion_code(last));
        reveal_strlit("if ");
        reveal_strlit("(");
        reveal_strlit("if (");
        assert(tests_source(tests, count) =~= tests_text(container.constants, count));
        let data = scope.bytes("data"@);
        if passes(tests, (count - 1) as nat, scope) == Some(true) && criterion_holds(last, data) {
            assert forall|i: int| 0 <= i < count implies criterion_holds(
                #[trigger] container.constants[i],
                data,
            ) by {}
        } else if passes(tests, (count - 1) as nat, scope) == Some(true) {
            assert(!criterion_holds(container.constants[count - 1], data));
        } else {
            let i = choose|i: int|
                0 <= i < count - 1 && !criterion_holds(#[trigger] container.constants[i], data);
            assert(!criterion_holds(container.constants[i], data));
        }
    }
}

/// The source of `matches` answers `true` of exactly the bytes that are long enough and hold the
/// value that each criterion asks for, whatever value that is. It never panics.
pub proof fn lemma_matches_what_it_should(container: ContainerModel, data: Seq<u8>)
    requires
        0 <= container.len_bytes,
        forall|i: int|
            0 <= i < container.constants.len() ==> (#[trigger] container.constants[i]).valid(
                container.len_bytes,
            ),
    ensures
        MATCHES_HEAD@ + filter_source(matches_code(container)) == matches_text(container),
        matches_code(container).tests.len() == container.constants.len(),
        forall|i: int|
            0 <= i < matches_code(container).tests.len() ==> parses(
                #[trigger] matches_code(container).tests[i],
            ) && strength(matches_code(container).tests[i]) >= 3,
        answer(matches_code(container), data) == Some(is_match(container, data)),
{
    let filter = matches_code(container);
    let blank = Seq::new(container.len_bytes as nat, |i: int| 0u8);
    lemma_tests(container, packet_scope(blank, Seq::empty()), container.constants.len());
    if data.len() >= container.len_bytes {
        let taken = data.take(container.len_bytes);
        let scope = packet_scope(taken, Seq::empty());
        lemma_tests(container, scope, container.constants.len());
    }
    assert(MATCHES_HEAD@ + filter_source(filter) =~= matches_text(container));
}

} // verus!
