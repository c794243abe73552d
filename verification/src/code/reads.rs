//! What the code for one field reads.

use vstd::arithmetic::div_mod::*;
use vstd::arithmetic::power2::*;
use vstd::prelude::*;
use vstd::string::*;

use crate::bits::{mask_value, natural_width};
use crate::code::bits::{
    lemma_cut_keeps, lemma_mask_bounds, lemma_mask_is_rest, lemma_type_powers, lemma_zero_text,
    signed_int,
};
use crate::code::language::{
    binary, binding, both, braces, cast, means, paren, parses, source, step_binary, step_binding,
    step_braces, step_cast, step_choice, step_either, step_flip, step_minus, step_name, step_number,
    step_paren, strength, Expr, Int, Operator, Outcome, Scope, Thing,
};
use crate::emit::decode::signed_from_raw_text;
use crate::names::decimal_text;
use crate::plan::IntegerCoding;
use crate::scalar::{lemma_width_powers, signed_value};

verus! {

// ---------------------------------------------------------------------------------------
// Signed numbers
// ---------------------------------------------------------------------------------------

/// A mask of no bits leaves nothing.
pub proof fn lemma_rest_of_mask(n: int, width: int)
    requires
        0 <= n < 0x1_0000_0000_0000_0000,
        0 <= width <= 64,
    ensures
        both(n, mask_value(width)) == n % (pow2(width as nat) as int),
        0 <= mask_value(width) < 0x1_0000_0000_0000_0000,
        mask_value(width) == pow2(width as nat) - 1,
{
    if width == 0 {
        lemma2_to64();
        let x = n as u128;
        assert(x & 0u128 == 0u128) by (bit_vector);
    } else {
        lemma_mask_is_rest(n, width);
        lemma_mask_bounds(width);
    }
}

/// The bit that a sign is spelled in is set from half of the range on.
pub proof fn lemma_sign_bit(n: int, width: int)
    requires
        1 <= width <= 64,
        0 <= n < pow2(width as nat),
    ensures
        both(n, pow2((width - 1) as nat) as int) == if n < pow2((width - 1) as nat) {
            0
        } else {
            pow2((width - 1) as nat) as int
        },
{
    lemma_width_powers(width);
    let half = pow2((width - 1) as nat) as int;
    let upper = mask_value(width) as u128;
    let lower = mask_value(width - 1) as u128;
    let x = n as u128;
    lemma_rest_of_mask(n, width);
    lemma_rest_of_mask(n, width - 1);
    lemma_rest_of_mask(mask_value(width - 1), width);
    lemma_small_mod(mask_value(width - 1) as nat, pow2(width as nat));
    lemma_small_mod(n as nat, pow2(width as nat));
    let bit = (upper - lower) as u128;
    assert(bit == half);
    assert(x & bit == (x & upper) - (x & lower)) by (bit_vector)
        requires
            lower & upper == lower,
            bit == upper - lower,
            lower <= upper,
    ;
    if n < half {
        lemma_small_mod(n as nat, half as nat);
    } else {
        lemma_fundamental_div_mod_converse(n, half, 1, n - half);
    }
}

/// The code for the number that bits mean under one of the signed codings.
pub open spec fn signed_code(raw: Expr, width: int, coding: IntegerCoding) -> Expr {
    let local = Expr::Name("raw"@);
    let sign = Expr::Number(pow2((width - 1) as nat) as int);
    let positive = binary(
        Operator::Equal,
        binary(Operator::BitAnd, local, sign),
        Expr::Number(0),
    );
    match coding {
        IntegerCoding::Unsigned => cast(paren(raw), Int::I64),
        IntegerCoding::TwosComplement => {
            let by = Expr::Number(64 - width);
            let up = binary(Operator::Up, paren(raw), by);
            paren(binary(Operator::Down, paren(cast(paren(up), Int::I64)), by))
        },
        IntegerCoding::SignMagnitude => {
            let largest = Expr::Number(mask_value(width - 1));
            let magnitude = cast(paren(binary(Operator::BitAnd, local, largest)), Int::I64);
            let absolute = Expr::Name("magnitude"@);
            let choice = Expr::Either(
                Box::new(positive),
                Box::new(absolute),
                Box::new(Expr::Minus(Box::new(absolute))),
            );
            braces(binding("raw"@, raw, binding("magnitude"@, magnitude, choice)))
        },
        IntegerCoding::OnesComplement => braces(binding("raw"@, raw, ones_code(width))),
    }
}

/// What the source for a signed number has to give: an `i64` that is the number which the bits
/// mean, once it is in the type of the field.
pub open spec fn reads_signed(
    scope: Scope,
    raw: Expr,
    width: int,
    coding: IntegerCoding,
    n: int,
) -> bool {
    let code = signed_code(raw, width, coding);
    &&& source(code) == signed_from_raw_text(source(raw), width, coding)
    &&& parses(code)
    &&& strength(code) >= 12
    &&& means(code, scope) matches Outcome::Is(Thing::Number(Int::I64, found)) && signed_int(
        natural_width(width),
    ).cut(found) == signed_value(coding, width, n)
}

proof fn lemma_reads_plain(scope: Scope, raw: Expr, width: int, n: int)
    requires
        1 <= width <= 64,
        parses(raw),
        strength(raw) >= 2,
        means(raw, scope) == Outcome::Is(Thing::Number(Int::U64, n)),
        0 <= n < pow2(width as nat),
    ensures
        reads_signed(scope, raw, width, IntegerCoding::Unsigned, n),
{
    let natural = natural_width(width);
    let kind = signed_int(natural);
    lemma_type_powers();
    lemma_width_powers(width);
    step_paren(raw, scope);
    step_cast(paren(raw), Int::I64, scope);
    reveal_strlit("i64");
    reveal_strlit(")");
    reveal_strlit(" as ");
    reveal_strlit(") as i64");
    assert(source(signed_code(raw, width, IntegerCoding::Unsigned)) =~= signed_from_raw_text(
        source(raw),
        width,
        IntegerCoding::Unsigned,
    ));
    lemma_small_mod(n as nat, pow2(64));
    let found = Int::I64.cut(n);
    if width < natural {
        lemma_pow2_strictly_increases(width as nat, natural as nat);
        if width < natural - 1 {
            lemma_pow2_strictly_increases(width as nat, (natural - 1) as nat);
        }
        assert(found == n);
        lemma_cut_keeps(kind, n);
    } else if width == 64 {
        lemma_cut_keeps(kind, found);
    } else {
        assert(found == n);
        lemma_small_mod(n as nat, pow2(natural as nat));
    }
}

proof fn lemma_reads_twos(scope: Scope, raw: Expr, width: int, n: int)
    requires
        1 <= width <= 64,
        parses(raw),
        strength(raw) >= 2,
        means(raw, scope) == Outcome::Is(Thing::Number(Int::U64, n)),
        0 <= n < pow2(width as nat),
    ensures
        reads_signed(scope, raw, width, IntegerCoding::TwosComplement, n),
{
    let by = Expr::Number(64 - width);
    let up = binary(Operator::Up, paren(raw), by);
    let narrow = cast(paren(up), Int::I64);
    let down = binary(Operator::Down, paren(narrow), by);
    step_paren(raw, scope);
    step_number(64 - width, scope);
    step_binary(Operator::Up, paren(raw), by, scope);
    step_paren(up, scope);
    step_cast(paren(up), Int::I64, scope);
    step_paren(narrow, scope);
    step_binary(Operator::Down, paren(narrow), by, scope);
    step_paren(down, scope);
    lemma_extends_sign(n, width);
    let kind = signed_int(natural_width(width));
    let value = signed_value(IntegerCoding::TwosComplement, width, n);
    assert(means(down, scope) == Outcome::Is(Thing::Number(Int::I64, value)));
    lemma_signed_value_fits(IntegerCoding::TwosComplement, width, n);
    lemma_cut_keeps(kind, value);
    reveal_strlit("((((");
    reveal_strlit("(");
    reveal_strlit(")");
    reveal_strlit(" as ");
    reveal_strlit("i64");
    reveal_strlit(" << ");
    reveal_strlit(") << ");
    reveal_strlit(" >> ");
    reveal_strlit(") as i64) >> ");
    assert(source(signed_code(raw, width, IntegerCoding::TwosComplement)) =~= signed_from_raw_text(
        source(raw),
        width,
        IntegerCoding::TwosComplement,
    ));
}

/// Moving bits to the top of an integer and down again spreads their sign.
pub proof fn lemma_extends_sign(n: int, width: int)
    requires
        1 <= width <= 64,
        0 <= n < pow2(width as nat),
    ensures
        ({
            let by = pow2((64 - width) as nat) as int;
            Int::I64.cut(Int::U64.cut(n * by)) / by == signed_value(
                IntegerCoding::TwosComplement,
                width,
                n,
            )
        }),
{
    let by = pow2((64 - width) as nat) as int;
    let half = pow2((width - 1) as nat) as int;
    lemma_type_powers();
    lemma_width_powers(width);
    lemma_pow2_pos((64 - width) as nat);
    lemma_pow2_adds(width as nat, (64 - width) as nat);
    lemma_pow2_adds((width - 1) as nat, (64 - width) as nat);
    let all = pow2(width as nat) as int;
    assert(all * by == 0x1_0000_0000_0000_0000);
    assert(half * by == 0x8000_0000_0000_0000);
    assert(0 <= n * by < all * by) by (nonlinear_arith)
        requires
            0 <= n < all,
            by > 0,
    ;
    assert(n < half ==> n * by < half * by) by (nonlinear_arith)
        requires
            by > 0,
    ;
    assert(n >= half ==> n * by >= half * by) by (nonlinear_arith)
        requires
            by > 0,
    ;
    lemma_small_mod((n * by) as nat, pow2(64));
    if n < half {
        lemma_div_multiples_vanish(n, by);
        assert(n * by == by * n) by (nonlinear_arith);
    } else {
        assert(n * by - all * by == by * (n - all)) by (nonlinear_arith);
        lemma_div_multiples_vanish(n - all, by);
    }
}

/// What bits mean under a coding is a value of the type of their natural width.
pub proof fn lemma_signed_value_fits(coding: IntegerCoding, width: int, n: int)
    requires
        1 <= width <= 64,
        0 <= n < pow2(width as nat),
    ensures
        signed_int(natural_width(width)).holds(signed_value(coding, width, n)),
        Int::I64.holds(signed_value(coding, width, n)),
{
    let natural = natural_width(width);
    lemma_type_powers();
    lemma_width_powers(width);
    if width < natural {
        lemma_pow2_strictly_increases((width - 1) as nat, (natural - 1) as nat);
        if width < natural - 1 {
            lemma_pow2_strictly_increases(width as nat, (natural - 1) as nat);
        }
    }
}

/// The test whether the sign of a number is not set.
proof fn lemma_tests_sign(scope: Scope, width: int, n: int)
    requires
        1 <= width <= 64,
        0 <= n < pow2(width as nat),
        scope.names.contains_key("raw"@),
        scope.names["raw"@] == Thing::Number(Int::U64, n),
    ensures
        ({
            let sign = Expr::Number(pow2((width - 1) as nat) as int);
            let masked = binary(Operator::BitAnd, Expr::Name("raw"@), sign);
            let test = binary(Operator::Equal, masked, Expr::Number(0));
            &&& source(test) == "raw & "@ + decimal_text(pow2((width - 1) as nat)) + " == 0"@
            &&& parses(test)
            &&& strength(test) == 5
            &&& means(test, scope) == Outcome::Is(Thing::Flag(n < pow2((width - 1) as nat)))
        }),
{
    let half = pow2((width - 1) as nat) as int;
    let sign = Expr::Number(half);
    let masked = binary(Operator::BitAnd, Expr::Name("raw"@), sign);
    let test = binary(Operator::Equal, masked, Expr::Number(0));
    lemma_type_powers();
    lemma_width_powers(width);
    lemma_sign_bit(n, width);
    step_name("raw"@, scope);
    step_number(half, scope);
    step_number(0, scope);
    step_binary(Operator::BitAnd, Expr::Name("raw"@), sign, scope);
    step_binary(Operator::Equal, masked, Expr::Number(0), scope);
    lemma_zero_text();
    reveal_strlit("raw");
    reveal_strlit(" & ");
    reveal_strlit("raw & ");
    reveal_strlit(" == ");
    reveal_strlit("0");
    reveal_strlit(" == 0");
    assert(source(test) =~= "raw & "@ + decimal_text(pow2((width - 1) as nat)) + " == 0"@);
}

proof fn lemma_reads_magnitude(scope: Scope, raw: Expr, width: int, n: int)
    requires
        1 <= width <= 64,
        parses(raw),
        strength(raw) >= 2,
        means(raw, scope) == Outcome::Is(Thing::Number(Int::U64, n)),
        0 <= n < pow2(width as nat),
    ensures
        reads_signed(scope, raw, width, IntegerCoding::SignMagnitude, n),
{
    let half = pow2((width - 1) as nat) as int;
    let local = Expr::Name("raw"@);
    let largest = Expr::Number(mask_value(width - 1));
    let masked = binary(Operator::BitAnd, local, largest);
    let magnitude = cast(paren(masked), Int::I64);
    let absolute = Expr::Name("magnitude"@);
    let negative = Expr::Minus(Box::new(absolute));
    let sign = Expr::Number(half);
    let test = binary(
        Operator::Equal,
        binary(Operator::BitAnd, local, sign),
        Expr::Number(0),
    );
    let choice = Expr::Either(Box::new(test), Box::new(absolute), Box::new(negative));
    let rest = binding("magnitude"@, magnitude, choice);
    let all = binding("raw"@, raw, rest);
    let inside = scope.with("raw"@, Thing::Number(Int::U64, n));
    let low = n % half;
    lemma_type_powers();
    lemma_width_powers(width);
    lemma_rest_of_mask(n, width - 1);
    lemma_mod_pos_bound(n, half);
    if n < half {
        lemma_small_mod(n as nat, half as nat);
    } else {
        lemma_fundamental_div_mod_converse(n, half, 1, n - half);
    }
    lemma_cut_keeps(Int::I64, low);
    step_name("raw"@, inside);
    step_number(mask_value(width - 1), inside);
    step_binary(Operator::BitAnd, local, largest, inside);
    step_paren(masked, inside);
    step_cast(paren(masked), Int::I64, inside);
    assert(means(magnitude, inside) == Outcome::Is(Thing::Number(Int::I64, low)));
    let last = inside.with("magnitude"@, Thing::Number(Int::I64, low));
    assert("raw"@ != "magnitude"@) by {
        reveal_strlit("raw");
        reveal_strlit("magnitude");
        assert("raw"@.len() == 3);
    }
    lemma_tests_sign(last, width, n);
    step_name("magnitude"@, last);
    step_minus(absolute, last);
    step_either(test, absolute, negative, last);
    step_binding("magnitude"@, magnitude, choice, inside);
    step_binding("raw"@, raw, rest, scope);
    step_braces(all, scope);
    lemma_signed_value_fits(IntegerCoding::SignMagnitude, width, n);
    lemma_cut_keeps(
        signed_int(natural_width(width)),
        signed_value(IntegerCoding::SignMagnitude, width, n),
    );
    assert(parses(choice));
    lemma_magnitude_texts(
        source(raw),
        decimal_text(mask_value(width - 1) as nat),
        source(test),
        decimal_text(half as nat),
    );
}

proof fn lemma_magnitude_texts(
    raw: Seq<char>,
    largest: Seq<char>,
    test: Seq<char>,
    sign: Seq<char>,
)
    requires
        test == "raw & "@ + sign + " == 0"@,
    ensures
        "{\n"@ + ("let "@ + "raw"@ + " = "@ + raw + ";\n"@ + ("let "@ + "magnitude"@ + " = "@ + ((
        "("@ + ("raw"@ + " & "@ + largest) + ")"@) + " as "@ + "i64"@) + ";\n"@ + ("if "@ + test
            + " { "@ + "magnitude"@ + " } else { "@ + ("-"@ + "magnitude"@) + " }"@))) + "\n}"@
            == "{\nlet raw = "@ + raw + ";\nlet magnitude = (raw & "@ + largest
            + ") as i64;\nif raw & "@ + sign + " == 0 { magnitude } else { -magnitude }\n}"@,
{
    reveal_strlit("raw & ");
    reveal_strlit("if ");
    reveal_strlit(" == 0");
    reveal_strlit(" { ");
    reveal_strlit(" } else { ");
    reveal_strlit("magnitude");
    reveal_strlit("-");
    reveal_strlit(" }");
    reveal_strlit("{\n");
    reveal_strlit("let ");
    reveal_strlit("raw");
    reveal_strlit(" = ");
    reveal_strlit(";\n");
    reveal_strlit("(");
    reveal_strlit(")");
    reveal_strlit(" & ");
    reveal_strlit(" as ");
    reveal_strlit("i64");
    reveal_strlit("\n}");
    reveal_strlit("{\nlet raw = ");
    reveal_strlit(";\nlet magnitude = (raw & ");
    reveal_strlit(") as i64;\nif raw & ");
    reveal_strlit(" == 0 { magnitude } else { -magnitude }\n}");
    assert("{\n"@ + ("let "@ + "raw"@ + " = "@ + raw + ";\n"@ + ("let "@ + "magnitude"@ + " = "@
        + (("("@ + ("raw"@ + " & "@ + largest) + ")"@) + " as "@ + "i64"@) + ";\n"@ + ("if "@
        + test + " { "@ + "magnitude"@ + " } else { "@ + ("-"@ + "magnitude"@) + " }"@))) + "\n}"@
        =~= "{\nlet raw = "@ + raw + ";\nlet magnitude = (raw & "@ + largest
        + ") as i64;\nif raw & "@ + sign + " == 0 { magnitude } else { -magnitude }\n}"@);
}

/// The choice between a number and what is left of it once all of its bits are the other way.
pub open spec fn ones_code(width: int) -> Expr {
    let local = Expr::Name("raw"@);
    let sign = Expr::Number(pow2((width - 1) as nat) as int);
    let test = binary(
        Operator::Equal,
        binary(Operator::BitAnd, local, sign),
        Expr::Number(0),
    );
    let mask = Expr::Number(mask_value(width));
    let flipped = paren(Expr::Flip(Box::new(local)));
    let magnitude = paren(cast(paren(binary(Operator::BitAnd, flipped, mask)), Int::I64));
    Expr::Choice(
        Box::new(test),
        Box::new(cast(local, Int::I64)),
        Box::new(Expr::Minus(Box::new(magnitude))),
    )
}

proof fn lemma_ones_choice(inside: Scope, width: int, n: int)
    requires
        1 <= width <= 64,
        0 <= n < pow2(width as nat),
        inside.names.contains_key("raw"@),
        inside.names["raw"@] == Thing::Number(Int::U64, n),
    ensures
        source(ones_code(width)) == "if raw & "@ + decimal_text(pow2((width - 1) as nat))
            + " == 0 {\nraw as i64\n} else {\n-(((!raw) & "@ + decimal_text(
            mask_value(width) as nat,
        ) + ") as i64)\n}"@,
        parses(ones_code(width)),
        means(ones_code(width), inside) == Outcome::Is(
            Thing::Number(Int::I64, signed_value(IntegerCoding::OnesComplement, width, n)),
        ),
{
    let half = pow2((width - 1) as nat) as int;
    let local = Expr::Name("raw"@);
    let mask = Expr::Number(mask_value(width));
    let flip = Expr::Flip(Box::new(local));
    let masked = binary(Operator::BitAnd, paren(flip), mask);
    let narrow = cast(paren(masked), Int::I64);
    let negative = Expr::Minus(Box::new(paren(narrow)));
    let positive = cast(local, Int::I64);
    let sign = Expr::Number(half);
    let test = binary(
        Operator::Equal,
        binary(Operator::BitAnd, local, sign),
        Expr::Number(0),
    );
    let value = signed_value(IntegerCoding::OnesComplement, width, n);
    lemma_flipped(n, width);
    lemma_type_powers();
    lemma_width_powers(width);
    lemma_signed_value_fits(IntegerCoding::OnesComplement, width, n);
    step_name("raw"@, inside);
    step_flip(local, inside);
    step_paren(flip, inside);
    step_number(mask_value(width), inside);
    step_binary(Operator::BitAnd, paren(flip), mask, inside);
    step_paren(masked, inside);
    step_cast(paren(masked), Int::I64, inside);
    step_paren(narrow, inside);
    step_minus(paren(narrow), inside);
    step_cast(local, Int::I64, inside);
    if n < half {
        lemma_cut_keeps(Int::I64, n);
    } else {
        lemma_cut_keeps(Int::I64, -value);
    }
    lemma_tests_sign(inside, width, n);
    step_choice(test, positive, negative, inside);
    lemma_ones_texts(
        source(test),
        decimal_text(half as nat),
        decimal_text(mask_value(width) as nat),
    );
}

proof fn lemma_ones_texts(test: Seq<char>, sign: Seq<char>, mask: Seq<char>)
    requires
        test == "raw & "@ + sign + " == 0"@,
    ensures
        "if "@ + test + " {\n"@ + ("raw"@ + " as "@ + "i64"@) + "\n} else {\n"@ + ("-"@ + ("("@ + ((
        "("@ + (("("@ + ("!"@ + "raw"@) + ")"@) + " & "@ + mask) + ")"@) + " as "@ + "i64"@)
            + ")"@)) + "\n}"@ == "if raw & "@ + sign
            + " == 0 {\nraw as i64\n} else {\n-(((!raw) & "@ + mask + ") as i64)\n}"@,
{
    reveal_strlit("if raw & ");
    reveal_strlit("if ");
    reveal_strlit("raw & ");
    reveal_strlit(" == 0");
    reveal_strlit(" {\n");
    reveal_strlit("raw");
    reveal_strlit(" as ");
    reveal_strlit("i64");
    reveal_strlit("\n} else {\n");
    reveal_strlit("-");
    reveal_strlit("(");
    reveal_strlit(")");
    reveal_strlit("!");
    reveal_strlit(" & ");
    reveal_strlit("\n}");
    reveal_strlit(" == 0 {\nraw as i64\n} else {\n-(((!raw) & ");
    reveal_strlit(") as i64)\n}");
    assert("if "@ + test + " {\n"@ + ("raw"@ + " as "@ + "i64"@) + "\n} else {\n"@ + ("-"@ + ("("@
        + (("("@ + (("("@ + ("!"@ + "raw"@) + ")"@) + " & "@ + mask) + ")"@) + " as "@ + "i64"@)
        + ")"@)) + "\n}"@ =~= "if raw & "@ + sign
        + " == 0 {\nraw as i64\n} else {\n-(((!raw) & "@ + mask + ") as i64)\n}"@);
}

proof fn lemma_reads_ones(scope: Scope, raw: Expr, width: int, n: int)
    requires
        1 <= width <= 64,
        parses(raw),
        strength(raw) >= 2,
        means(raw, scope) == Outcome::Is(Thing::Number(Int::U64, n)),
        0 <= n < pow2(width as nat),
    ensures
        reads_signed(scope, raw, width, IntegerCoding::OnesComplement, n),
{
    let choice = ones_code(width);
    let all = binding("raw"@, raw, choice);
    let inside = scope.with("raw"@, Thing::Number(Int::U64, n));
    lemma_signed_value_fits(IntegerCoding::OnesComplement, width, n);
    lemma_cut_keeps(
        signed_int(natural_width(width)),
        signed_value(IntegerCoding::OnesComplement, width, n),
    );
    lemma_ones_choice(inside, width, n);
    step_binding("raw"@, raw, choice, scope);
    step_braces(all, scope);
    assert(signed_code(raw, width, IntegerCoding::OnesComplement) == braces(all));
    reveal_strlit("{\n");
    reveal_strlit("let ");
    reveal_strlit("raw");
    reveal_strlit(" = ");
    reveal_strlit(";\n");
    reveal_strlit("if raw & ");
    reveal_strlit("\n}");
    reveal_strlit(") as i64)\n}");
    reveal_strlit("{\nlet raw = ");
    reveal_strlit(";\nif raw & ");
    reveal_strlit(") as i64)\n}\n}");
    assert(source(braces(all)) =~= signed_from_raw_text(
        source(raw),
        width,
        IntegerCoding::OnesComplement,
    ));
}

/// The low bits of a number with all of its bits the other way.
proof fn lemma_flipped(n: int, width: int)
    requires
        1 <= width <= 64,
        0 <= n < pow2(width as nat),
    ensures
        both(pow2(64) - 1 - n, mask_value(width)) == mask_value(width) - n,
{
    let all = pow2(width as nat) as int;
    let above = pow2((64 - width) as nat) as int;
    let flipped = pow2(64) - 1 - n;
    lemma_type_powers();
    lemma_width_powers(width);
    lemma_mask_is_rest(flipped, width);
    lemma_pow2_adds(width as nat, (64 - width) as nat);
    lemma_pow2_pos((64 - width) as nat);
    assert(flipped == (above - 1) * all + (all - 1 - n)) by (nonlinear_arith)
        requires
            flipped == all * above - 1 - n,
    ;
    lemma_fundamental_div_mod_converse(flipped, all, above - 1, all - 1 - n);
}

/// The source for a signed number gives what its bits mean under the coding, for every width and
/// every value of the bits.
pub proof fn lemma_reads_signed(
    scope: Scope,
    raw: Expr,
    width: int,
    coding: IntegerCoding,
    n: int,
)
    requires
        1 <= width <= 64,
        parses(raw),
        strength(raw) >= 2,
        means(raw, scope) == Outcome::Is(Thing::Number(Int::U64, n)),
        0 <= n < pow2(width as nat),
    ensures
        reads_signed(scope, raw, width, coding, n),
{
    match coding {
        IntegerCoding::Unsigned => lemma_reads_plain(scope, raw, width, n),
        IntegerCoding::TwosComplement => lemma_reads_twos(scope, raw, width, n),
        IntegerCoding::SignMagnitude => lemma_reads_magnitude(scope, raw, width, n),
        IntegerCoding::OnesComplement => lemma_reads_ones(scope, raw, width, n),
    }
}

} // verus!
