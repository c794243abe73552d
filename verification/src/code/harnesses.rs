//! What a harness draws, and what it expects back.

use vstd::arithmetic::div_mod::*;
use vstd::arithmetic::power2::*;
use vstd::prelude::*;
use vstd::string::*;
use vstd::utf8::*;

use crate::bits::{mask_value, natural_width};
use crate::code::bits::{
    lemma_cut_keeps, lemma_mask_bounds, lemma_mask_is_rest, lemma_signed_type_holds_its_fields,
    lemma_type_powers, lemma_unsigned_type_holds_its_fields, lemma_zero_text, signed_int,
    unsigned_int,
};
use crate::code::fields::held;
use crate::code::language::{
    binary, binding, braces, cast, means, numbers, paren, parses, source, step_binary, step_binding,
    step_braces, step_cast, step_draw, step_either, step_from, step_minus, step_name, step_number,
    step_paren, Expr, Int, Operator, Outcome, Scope, Thing,
};
use crate::code::reads::{lemma_extends_sign, lemma_rest_of_mask};
use crate::code::strings::lemma_numbers_listed;
use crate::codec::{field_refusal, first_from, occurs_at, text_refusal, well_typed, Datum};
use crate::emit::bits::signed_name;
use crate::emit::text::byte_list;
use crate::harness::{
    bool_text, draw_arms_text, draw_enum_text, draw_text, expected_text, owned_text, raw_bits_text,
};
use crate::layout::{delimiter_fits, EnumModel, FieldModel, KindModel, VariantModel};
use crate::names::decimal_text;
use crate::plan::{DelimiterModel, IntegerCoding, TextCharset};
use crate::scalar::{lemma_width_powers, signed_fits};

verus! {

// ---------------------------------------------------------------------------------------
// Numbers
// ---------------------------------------------------------------------------------------

/// Where two draws have been made.
pub open spec fn drawn(scope: Scope, first: u64, second: u64) -> bool {
    &&& scope.names.contains_key("first"@)
    &&& scope.names["first"@] == Thing::Number(Int::U64, first as int)
    &&& scope.names.contains_key("second"@)
    &&& scope.names["second"@] == Thing::Number(Int::U64, second as int)
}

/// A draw of so many bits.
pub open spec fn some_bits(width: int) -> Expr {
    paren(binary(Operator::BitAnd, Expr::Draw("first"@), Expr::Number(mask_value(width))))
}

proof fn lemma_draws_bits(scope: Scope, first: u64, second: u64, width: int)
    requires
        drawn(scope, first, second),
        0 <= width <= 64,
    ensures
        source(some_bits(width)) == "(rng.next() & "@ + decimal_text(mask_value(width) as nat)
            + ")"@,
        parses(some_bits(width)),
        means(some_bits(width), scope) == Outcome::Is(
            Thing::Number(Int::U64, first as int % (pow2(width as nat) as int)),
        ),
        0 <= first as int % (pow2(width as nat) as int) < pow2(width as nat),
{
    let mask = Expr::Number(mask_value(width));
    let masked = binary(Operator::BitAnd, Expr::Draw("first"@), mask);
    lemma_type_powers();
    lemma_pow2_pos(width as nat);
    lemma_mod_pos_bound(first as int, pow2(width as nat) as int);
    lemma_rest_of_mask(first as int, width);
    step_draw("first"@, scope);
    step_number(mask_value(width), scope);
    step_binary(Operator::BitAnd, Expr::Draw("first"@), mask, scope);
    step_paren(masked, scope);
    reveal_strlit("(");
    reveal_strlit("rng.next()");
    reveal_strlit(" & ");
    reveal_strlit("(rng.next() & ");
    assert(source(some_bits(width)) =~= "(rng.next() & "@ + decimal_text(mask_value(width) as nat)
        + ")"@);
}

/// The code that draws an unsigned number.
pub open spec fn draw_unsigned_code(width: int) -> Expr {
    cast(some_bits(width), unsigned_int(natural_width(width)))
}

/// The source that draws a number for an unsigned field gives one that the field accepts, whatever
/// is drawn, and gives every one that it accepts for some draw.
pub proof fn lemma_draws_unsigned(
    scope: Scope,
    first: u64,
    second: u64,
    field: FieldModel,
    enums: Seq<EnumModel>,
    path: Seq<char>,
)
    requires
        drawn(scope, first, second),
        1 <= field.bit_width <= 64,
        field.kind is Unsigned,
    ensures
        source(draw_unsigned_code(field.bit_width)) == draw_text(
            field.bit_width,
            field.kind,
            enums,
            path,
        ),
        parses(draw_unsigned_code(field.bit_width)),
        ({
            let n = (first as int % (pow2(field.bit_width as nat) as int)) as u64;
            &&& means(draw_unsigned_code(field.bit_width), scope) == Outcome::Is(
                held(field, Datum::Unsigned(n)),
            )
            &&& well_typed(field, enums, Datum::Unsigned(n))
            &&& field_refusal(field, Datum::Unsigned(n)) is None
            &&& field_refusal(field, Datum::Unsigned(first)) is None ==> n == first
        }),
{
    let width = field.bit_width;
    let natural = natural_width(width);
    let kind = unsigned_int(natural);
    let n = first as int % (pow2(width as nat) as int);
    lemma_draws_bits(scope, first, second, width);
    lemma_type_powers();
    lemma_mask_bounds(width);
    lemma_mask_bounds(natural);
    lemma_unsigned_type_holds_its_fields(width);
    if width < natural {
        lemma_pow2_strictly_increases(width as nat, natural as nat);
    }
    if first < pow2(width as nat) {
        lemma_small_mod(first as nat, pow2(width as nat));
    }
    lemma_cut_keeps(kind, n);
    step_cast(some_bits(width), kind, scope);
    reveal_strlit(")");
    reveal_strlit(" as ");
    reveal_strlit(") as ");
    assert(source(draw_unsigned_code(width)) =~= draw_text(width, field.kind, enums, path));
}

/// The code that draws a number for a signed field.
pub open spec fn draw_signed_code(width: int, coding: IntegerCoding) -> Expr {
    let kind = signed_int(natural_width(width));
    if coding == IntegerCoding::Unsigned && width < natural_width(width) {
        cast(some_bits(width - 1), kind)
    } else if coding == IntegerCoding::TwosComplement || coding == IntegerCoding::Unsigned {
        let by = Expr::Number(64 - width);
        let up = binary(Operator::Up, some_bits(width), by);
        let down = binary(Operator::Down, paren(cast(paren(up), Int::I64)), by);
        cast(paren(down), kind)
    } else {
        let magnitude = Expr::Name("magnitude"@);
        let coin = binary(
            Operator::Equal,
            binary(Operator::BitAnd, Expr::Draw("second"@), Expr::Number(1)),
            Expr::Number(0),
        );
        let choice = Expr::Either(
            Box::new(coin),
            Box::new(magnitude),
            Box::new(Expr::Minus(Box::new(magnitude))),
        );
        braces(
            binding(
                "magnitude"@,
                cast(some_bits(width - 1), Int::I64),
                cast(paren(choice), kind),
            ),
        )
    }
}

/// The number that two draws make.
pub open spec fn signed_draw(width: int, coding: IntegerCoding, first: u64, second: u64) -> int {
    let all = pow2(width as nat) as int;
    let half = pow2((width - 1) as nat) as int;
    if coding == IntegerCoding::Unsigned && width < natural_width(width) {
        first as int % half
    } else if coding == IntegerCoding::TwosComplement || coding == IntegerCoding::Unsigned {
        if first as int % all < half {
            first as int % all
        } else {
            first as int % all - all
        }
    } else if second % 2 == 0 {
        first as int % half
    } else {
        -(first as int % half)
    }
}

proof fn lemma_signed_draw_fits(width: int, coding: IntegerCoding, first: u64, second: u64)
    requires
        1 <= width <= 64,
    ensures
        signed_fits(coding, width, signed_draw(width, coding, first, second)),
        signed_int(natural_width(width)).holds(signed_draw(width, coding, first, second)),
        Int::I64.holds(signed_draw(width, coding, first, second)),
{
    let natural = natural_width(width);
    lemma_type_powers();
    lemma_width_powers(width);
    lemma_mod_pos_bound(first as int, pow2(width as nat) as int);
    lemma_mod_pos_bound(first as int, pow2((width - 1) as nat) as int);
    if width < natural {
        lemma_pow2_strictly_increases((width - 1) as nat, (natural - 1) as nat);
    }
}

proof fn lemma_draws_plain(scope: Scope, first: u64, second: u64, width: int)
    requires
        drawn(scope, first, second),
        1 <= width < natural_width(width),
    ensures
        ({
            let coding = IntegerCoding::Unsigned;
            let code = draw_signed_code(width, coding);
            let kind = signed_int(natural_width(width));
            &&& source(code) == "(rng.next() & "@ + decimal_text(mask_value(width - 1) as nat)
                + ") as "@ + signed_name(natural_width(width))
            &&& parses(code)
            &&& means(code, scope) == Outcome::Is(
                Thing::Number(kind, signed_draw(width, coding, first, second)),
            )
        }),
{
    let coding = IntegerCoding::Unsigned;
    let kind = signed_int(natural_width(width));
    lemma_draws_bits(scope, first, second, width - 1);
    lemma_signed_type_holds_its_fields(width);
    lemma_signed_draw_fits(width, coding, first, second);
    lemma_cut_keeps(kind, signed_draw(width, coding, first, second));
    step_cast(some_bits(width - 1), kind, scope);
    reveal_strlit(")");
    reveal_strlit(" as ");
    reveal_strlit(") as ");
    assert(source(draw_signed_code(width, coding)) =~= "(rng.next() & "@ + decimal_text(
        mask_value(width - 1) as nat,
    ) + ") as "@ + signed_name(natural_width(width)));
}

proof fn lemma_draws_twos(
    scope: Scope,
    first: u64,
    second: u64,
    width: int,
    coding: IntegerCoding,
)
    requires
        drawn(scope, first, second),
        1 <= width <= 64,
        coding == IntegerCoding::TwosComplement || coding == IntegerCoding::Unsigned,
        coding == IntegerCoding::Unsigned ==> width == natural_width(width),
    ensures
        ({
            let code = draw_signed_code(width, coding);
            let kind = signed_int(natural_width(width));
            &&& source(code) == "((((rng.next() & "@ + decimal_text(mask_value(width) as nat)
                + ") << "@ + decimal_text((64 - width) as nat) + ") as i64) >> "@ + decimal_text(
                (64 - width) as nat,
            ) + ") as "@ + signed_name(natural_width(width))
            &&& parses(code)
            &&& means(code, scope) == Outcome::Is(
                Thing::Number(kind, signed_draw(width, coding, first, second)),
            )
        }),
{
    let kind = signed_int(natural_width(width));
    let n = first as int % (pow2(width as nat) as int);
    let by = Expr::Number(64 - width);
    let bits = some_bits(width);
    let up = binary(Operator::Up, bits, by);
    let narrow = cast(paren(up), Int::I64);
    let down = binary(Operator::Down, paren(narrow), by);
    lemma_draws_bits(scope, first, second, width);
    lemma_signed_type_holds_its_fields(width);
    lemma_signed_draw_fits(width, coding, first, second);
    lemma_extends_sign(n, width);
    lemma_cut_keeps(kind, signed_draw(width, coding, first, second));
    step_number(64 - width, scope);
    step_binary(Operator::Up, bits, by, scope);
    step_paren(up, scope);
    step_cast(paren(up), Int::I64, scope);
    step_paren(narrow, scope);
    step_binary(Operator::Down, paren(narrow), by, scope);
    step_paren(down, scope);
    step_cast(paren(down), kind, scope);
    lemma_twos_texts(
        decimal_text(mask_value(width) as nat),
        decimal_text((64 - width) as nat),
        signed_name(natural_width(width)),
    );
}

proof fn lemma_twos_texts(mask: Seq<char>, by: Seq<char>, name: Seq<char>)
    ensures
        ("("@ + (("("@ + (("("@ + (("(rng.next() & "@ + mask + ")"@) + " << "@ + by) + ")"@)
            + " as "@ + "i64"@) + ")"@) + " >> "@ + by) + ")"@) + " as "@ + name
            == "((((rng.next() & "@ + mask + ") << "@ + by + ") as i64) >> "@ + by + ") as "@
            + name,
{
    reveal_strlit("(");
    reveal_strlit(")");
    reveal_strlit("(rng.next() & ");
    reveal_strlit(" << ");
    reveal_strlit(" as ");
    reveal_strlit("i64");
    reveal_strlit(" >> ");
    reveal_strlit("((((rng.next() & ");
    reveal_strlit(") << ");
    reveal_strlit(") as i64) >> ");
    reveal_strlit(") as ");
    assert(("("@ + (("("@ + (("("@ + (("(rng.next() & "@ + mask + ")"@) + " << "@ + by) + ")"@)
        + " as "@ + "i64"@) + ")"@) + " >> "@ + by) + ")"@) + " as "@ + name
        =~= "((((rng.next() & "@ + mask + ") << "@ + by + ") as i64) >> "@ + by + ") as "@ + name);
}

proof fn lemma_draws_magnitude(
    scope: Scope,
    first: u64,
    second: u64,
    width: int,
    coding: IntegerCoding,
)
    requires
        drawn(scope, first, second),
        1 <= width <= 64,
        coding == IntegerCoding::SignMagnitude || coding == IntegerCoding::OnesComplement,
    ensures
        ({
            let code = draw_signed_code(width, coding);
            let kind = signed_int(natural_width(width));
            &&& source(code) == "{\nlet magnitude = (rng.next() & "@ + decimal_text(
                mask_value(width - 1) as nat,
            ) + ") as i64;\n(if rng.next() & 1 == 0 { magnitude } else { -magnitude }) as "@
                + signed_name(natural_width(width)) + "\n}"@
            &&& parses(code)
            &&& means(code, scope) == Outcome::Is(
                Thing::Number(kind, signed_draw(width, coding, first, second)),
            )
        }),
{
    let kind = signed_int(natural_width(width));
    let low = first as int % (pow2((width - 1) as nat) as int);
    let bits = some_bits(width - 1);
    let local = Expr::Name("magnitude"@);
    let negative = Expr::Minus(Box::new(local));
    let odd = binary(Operator::BitAnd, Expr::Draw("second"@), Expr::Number(1));
    let coin = binary(Operator::Equal, odd, Expr::Number(0));
    let choice = Expr::Either(Box::new(coin), Box::new(local), Box::new(negative));
    let rest = cast(paren(choice), kind);
    let all = binding("magnitude"@, cast(bits, Int::I64), rest);
    let inside = scope.with("magnitude"@, Thing::Number(Int::I64, low));
    lemma_type_powers();
    lemma_width_powers(width);
    lemma_draws_bits(scope, first, second, width - 1);
    lemma_signed_type_holds_its_fields(width);
    lemma_signed_draw_fits(width, coding, first, second);
    lemma_cut_keeps(Int::I64, low);
    lemma_cut_keeps(kind, signed_draw(width, coding, first, second));
    lemma_mask_is_rest(second as int, 1);
    lemma2_to64();
    assert(mask_value(1) == 1);
    assert("magnitude"@ != "second"@) by {
        reveal_strlit("magnitude");
        reveal_strlit("second");
        assert("magnitude"@.len() == 9 && "second"@.len() == 6);
    }
    step_cast(bits, Int::I64, scope);
    step_draw("second"@, inside);
    step_number(1, inside);
    step_number(0, inside);
    step_binary(Operator::BitAnd, Expr::Draw("second"@), Expr::Number(1), inside);
    step_binary(Operator::Equal, odd, Expr::Number(0), inside);
    step_name("magnitude"@, inside);
    step_minus(local, inside);
    step_either(coin, local, negative, inside);
    step_paren(choice, inside);
    step_cast(paren(choice), kind, inside);
    step_binding("magnitude"@, cast(bits, Int::I64), rest, scope);
    step_braces(all, scope);
    lemma_zero_text();
    assert(decimal_text(1) == "1"@) by {
        reveal_strlit("1");
        reveal_with_fuel(decimal_text, 2);
        assert(decimal_text(1) =~= "1"@);
    }
    lemma_coin_texts(
        decimal_text(mask_value(width - 1) as nat),
        signed_name(natural_width(width)),
    );
}

proof fn lemma_coin_texts(mask: Seq<char>, name: Seq<char>)
    ensures
        "{\n"@ + ("let "@ + "magnitude"@ + " = "@ + (("(rng.next() & "@ + mask + ")"@) + " as "@
            + "i64"@) + ";\n"@ + (("("@ + ("if "@ + (("rng.next()"@ + " & "@ + "1"@) + " == "@
            + "0"@) + " { "@ + "magnitude"@ + " } else { "@ + ("-"@ + "magnitude"@) + " }"@) + ")"@)
            + " as "@ + name)) + "\n}"@ == "{\nlet magnitude = (rng.next() & "@ + mask
            + ") as i64;\n(if rng.next() & 1 == 0 { magnitude } else { -magnitude }) as "@ + name
            + "\n}"@,
{
    reveal_strlit("{\n");
    reveal_strlit("let ");
    reveal_strlit("magnitude");
    reveal_strlit(" = ");
    reveal_strlit("(rng.next() & ");
    reveal_strlit(")");
    reveal_strlit(" as ");
    reveal_strlit("i64");
    reveal_strlit(";\n");
    reveal_strlit("(");
    reveal_strlit("if ");
    reveal_strlit("rng.next()");
    reveal_strlit(" & ");
    reveal_strlit("1");
    reveal_strlit(" == ");
    reveal_strlit("0");
    reveal_strlit(" { ");
    reveal_strlit(" } else { ");
    reveal_strlit("-");
    reveal_strlit(" }");
    reveal_strlit("{\nlet magnitude = (rng.next() & ");
    reveal_strlit(") as i64;\n(if rng.next() & 1 == 0 { magnitude } else { -magnitude }) as ");
    assert("{\n"@ + ("let "@ + "magnitude"@ + " = "@ + (("(rng.next() & "@ + mask + ")"@) + " as "@
        + "i64"@) + ";\n"@ + (("("@ + ("if "@ + (("rng.next()"@ + " & "@ + "1"@) + " == "@ + "0"@)
        + " { "@ + "magnitude"@ + " } else { "@ + ("-"@ + "magnitude"@) + " }"@) + ")"@) + " as "@
        + name)) + "\n}"@ =~= "{\nlet magnitude = (rng.next() & "@ + mask
        + ") as i64;\n(if rng.next() & 1 == 0 { magnitude } else { -magnitude }) as "@ + name
        + "\n}"@);
}

/// The source that draws a number for a signed field gives one that the field accepts, whatever is
/// drawn.
pub proof fn lemma_draws_signed(
    scope: Scope,
    first: u64,
    second: u64,
    field: FieldModel,
    coding: IntegerCoding,
    enums: Seq<EnumModel>,
    path: Seq<char>,
)
    requires
        drawn(scope, first, second),
        1 <= field.bit_width <= 64,
        field.kind == KindModel::Signed(coding),
    ensures
        source(draw_signed_code(field.bit_width, coding)) == draw_text(
            field.bit_width,
            field.kind,
            enums,
            path,
        ),
        parses(draw_signed_code(field.bit_width, coding)),
        ({
            let n = signed_draw(field.bit_width, coding, first, second) as i64;
            &&& means(draw_signed_code(field.bit_width, coding), scope) == Outcome::Is(
                held(field, Datum::Signed(n)),
            )
            &&& well_typed(field, enums, Datum::Signed(n))
            &&& field_refusal(field, Datum::Signed(n)) is None
        }),
{
    let width = field.bit_width;
    lemma_type_powers();
    lemma_signed_draw_fits(width, coding, first, second);
    if coding == IntegerCoding::Unsigned && width < natural_width(width) {
        lemma_draws_plain(scope, first, second, width);
    } else if coding == IntegerCoding::TwosComplement || coding == IntegerCoding::Unsigned {
        lemma_draws_twos(scope, first, second, width, coding);
    } else {
        lemma_draws_magnitude(scope, first, second, width, coding);
    }
}

/// Every number that a signed field accepts is drawn for some draws: those that are its own bits,
/// or its magnitude and its sign.
pub proof fn lemma_draws_every_signed_number(width: int, coding: IntegerCoding, n: int)
    requires
        1 <= width <= 64,
        signed_fits(coding, width, n),
    ensures
        exists|first: u64, second: u64| #[trigger]
            signed_draw(width, coding, first, second) == n,
{
    lemma_type_powers();
    lemma_width_powers(width);
    let all = pow2(width as nat) as int;
    let half = pow2((width - 1) as nat) as int;
    if coding == IntegerCoding::Unsigned && width < natural_width(width) {
        lemma_small_mod(n as nat, half as nat);
        assert(signed_draw(width, coding, n as u64, 0) == n);
    } else if coding == IntegerCoding::TwosComplement || coding == IntegerCoding::Unsigned {
        let bits = if n < 0 {
            n + all
        } else {
            n
        };
        lemma_small_mod(bits as nat, all as nat);
        assert(signed_draw(width, coding, bits as u64, 0) == n);
    } else if n < 0 {
        lemma_small_mod((-n) as nat, half as nat);
        assert(signed_draw(width, coding, (-n) as u64, 1) == n);
    } else {
        lemma_small_mod(n as nat, half as nat);
        assert(signed_draw(width, coding, n as u64, 0) == n);
    }
}

/// The code that draws a flag.
pub open spec fn draw_flag_code() -> Expr {
    binary(
        Operator::Equal,
        binary(Operator::BitAnd, Expr::Draw("first"@), Expr::Number(1)),
        Expr::Number(1),
    )
}

/// The source that draws a flag gives either of them, as the draw is odd or even.
pub proof fn lemma_draws_flag(
    scope: Scope,
    first: u64,
    second: u64,
    field: FieldModel,
    enums: Seq<EnumModel>,
    path: Seq<char>,
)
    requires
        drawn(scope, first, second),
        field.kind is Bool,
    ensures
        source(draw_flag_code()) == draw_text(field.bit_width, field.kind, enums, path),
        parses(draw_flag_code()),
        means(draw_flag_code(), scope) == Outcome::Is(
            held(field, Datum::Bool(first % 2 == 1)),
        ),
{
    let odd = binary(Operator::BitAnd, Expr::Draw("first"@), Expr::Number(1));
    lemma_type_powers();
    lemma_mask_is_rest(first as int, 1);
    lemma2_to64();
    assert(mask_value(1) == 1);
    step_draw("first"@, scope);
    step_number(1, scope);
    step_binary(Operator::BitAnd, Expr::Draw("first"@), Expr::Number(1), scope);
    step_binary(Operator::Equal, odd, Expr::Number(1), scope);
    assert(decimal_text(1) == "1"@) by {
        reveal_strlit("1");
        reveal_with_fuel(decimal_text, 2);
        assert(decimal_text(1) =~= "1"@);
    }
    reveal_strlit("rng.next()");
    reveal_strlit(" & ");
    reveal_strlit("1");
    reveal_strlit(" == ");
    reveal_strlit("rng.next() & 1 == 1");
    assert(source(draw_flag_code()) =~= draw_text(field.bit_width, field.kind, enums, path));
}

// ---------------------------------------------------------------------------------------
// Labels
// ---------------------------------------------------------------------------------------

/// The first `count` arms that give numbers a path: `1 => p ::T::V,`.
pub open spec fn paths_source(
    arms: Seq<(nat, Seq<char>)>,
    name: Seq<char>,
    path: Seq<char>,
    count: nat,
) -> Seq<char>
    decreases count,
{
    if count == 0 {
        Seq::empty()
    } else {
        paths_source(arms, name, path, (count - 1) as nat) + decimal_text(arms[count - 1].0)
            + " => "@ + path + " ::"@ + name + "::"@ + arms[count - 1].1 + ",\n"@
    }
}

/// The variant that a number draws: that of the first arm for it, from `at` on.
pub open spec fn path_of(arms: Seq<(nat, Seq<char>)>, number: int, at: int) -> Option<Seq<char>>
    decreases arms.len() - at,
{
    if at < 0 || at >= arms.len() {
        None
    } else if arms[at].0 == number {
        Some(arms[at].1)
    } else {
        path_of(arms, number, at + 1)
    }
}

/// The arms that draw a variant.
pub open spec fn draw_arms(variants: Seq<VariantModel>) -> Seq<(nat, Seq<char>)> {
    Seq::new(variants.len(), |k: int| (k as nat, variants[k].ident))
}

proof fn lemma_arms_draw(
    variants: Seq<VariantModel>,
    name: Seq<char>,
    path: Seq<char>,
    count: nat,
)
    requires
        count <= variants.len(),
    ensures
        paths_source(draw_arms(variants), name, path, count) == draw_arms_text(
            variants,
            name,
            path,
            count,
        ),
    decreases count,
{
    if count > 0 {
        lemma_arms_draw(variants, name, path, (count - 1) as nat);
    }
}

proof fn lemma_path_found(variants: Seq<VariantModel>, k: int, at: int)
    requires
        0 <= at <= k < variants.len(),
    ensures
        path_of(draw_arms(variants), k, at) == Some(variants[k].ident),
    decreases k - at,
{
    if at < k {
        lemma_path_found(variants, k, at + 1);
    }
}

/// The source that draws a label draws a number below the number of its arms, so that the arm
/// behind them is never come to.
pub proof fn lemma_draws_below_the_arms(index: int, enums: Seq<EnumModel>, path: Seq<char>)
    requires
        0 <= index < enums.len(),
    ensures
        ({
            let definition = enums[index];
            let arms = draw_arms(definition.variants);
            draw_enum_text(index, enums, path) == "match rng.below("@ + decimal_text(arms.len())
                + ") {\n"@ + paths_source(arms, definition.type_ident, path, arms.len())
                + "_ => unreachable!(\"below({}) is in range\", "@ + decimal_text(arms.len())
                + "),\n}"@
        }),
{
    let definition = enums[index];
    lemma_arms_draw(
        definition.variants,
        definition.type_ident,
        path,
        definition.variants.len(),
    );
}

/// The source that draws a label has an arm for every number below the number of labels, and so
/// never comes to the one behind them; each gives a label of its own, so every label is drawn.
pub proof fn lemma_draws_every_label(
    definition: EnumModel,
    path: Seq<char>,
    k: int,
)
    requires
        0 <= k < definition.variants.len(),
    ensures
        draw_arms_text(
            definition.variants,
            definition.type_ident,
            path,
            definition.variants.len(),
        ) == paths_source(
            draw_arms(definition.variants),
            definition.type_ident,
            path,
            draw_arms(definition.variants).len(),
        ),
        path_of(draw_arms(definition.variants), k, 0) == Some(definition.variants[k].ident),
{
    lemma_arms_draw(
        definition.variants,
        definition.type_ident,
        path,
        definition.variants.len(),
    );
    lemma_path_found(definition.variants, k, 0);
}

// ---------------------------------------------------------------------------------------
// Strings and bytes
// ---------------------------------------------------------------------------------------

/// A call that draws a text: of exactly so many bytes, or of at most so many.
pub struct TextDraw {
    /// Whether the text has exactly as many bytes as the limit.
    pub exact: bool,
    /// The limit.
    pub limit: nat,
    /// Whether characters of two bytes are drawn too.
    pub wide: bool,
    /// Bytes that are not drawn.
    pub forbidden: Seq<u8>,
}

/// How the statement is spelled.
pub open spec fn text_draw_source(name: Seq<char>, draw: TextDraw) -> Seq<char> {
    "let "@ + name + ": String = rng."@ + if draw.exact {
        "text_of_exactly("@
    } else {
        "text_up_to("@
    } + decimal_text(draw.limit) + ", "@ + if draw.wide {
        "true"@
    } else {
        "false"@
    } + ", &["@ + numbers(draw.forbidden) + "]"@ + ");\n"@
}

/// Whether a text may be drawn.
pub open spec fn may_draw(draw: TextDraw, text: Seq<char>) -> bool {
    let bytes = encode_utf8(text);
    &&& draw.exact ==> bytes.len() == draw.limit
    &&& bytes.len() <= draw.limit
    &&& !draw.wide ==> is_ascii_chars(text)
    &&& forall|i: int| 0 <= i < bytes.len() ==> !draw.forbidden.contains(#[trigger] bytes[i])
}

/// The call that draws a text for a field.
pub open spec fn text_draw(
    field: FieldModel,
    charset: TextCharset,
    delimiter: DelimiterModel,
) -> TextDraw {
    let room = field.bit_width / 8;
    let wide = charset == TextCharset::Utf8;
    match delimiter {
        DelimiterModel::WholeBuffer => TextDraw {
            exact: true,
            limit: room as nat,
            wide,
            forbidden: Seq::empty(),
        },
        DelimiterModel::TerminationChar(terminator) => TextDraw {
            exact: false,
            limit: (room - terminator.len()) as nat,
            wide,
            forbidden: terminator,
        },
        DelimiterModel::LeadingSize(size) => TextDraw {
            exact: false,
            limit: (room - size / 8) as nat,
            wide,
            forbidden: Seq::empty(),
        },
    }
}

proof fn lemma_not_early(text: Seq<u8>, terminator: Seq<u8>, from: int)
    requires
        terminator.len() > 0,
        forall|i: int| 0 <= i < text.len() ==> !terminator.contains(#[trigger] text[i]),
        0 <= from <= text.len(),
    ensures
        first_from(text + terminator, terminator, from) == Some(text.len() as int),
    decreases text.len() - from,
{
    let whole = text + terminator;
    if from < text.len() {
        assert(!occurs_at(whole, terminator, from)) by {
            if occurs_at(whole, terminator, from) {
                assert(whole.subrange(from, from + terminator.len())[0] == terminator[0]);
                assert(whole[from] == text[from]);
                assert(terminator.contains(text[from]));
            }
        }
        lemma_not_early(text, terminator, from + 1);
    } else {
        assert(whole.subrange(from, from + terminator.len()) =~= terminator);
    }
}

/// The source that draws a text for a field draws none that the field refuses, as long as a length
/// in front of it can count what there is room for; and the field refuses what is longer than the
/// limit.
pub proof fn lemma_draws_text(
    field: FieldModel,
    charset: TextCharset,
    delimiter: DelimiterModel,
    text: Seq<char>,
)
    requires
        field.kind == KindModel::Text(charset, delimiter),
        0 <= field.bit_width,
        field.bit_width % 8 == 0,
        delimiter_fits(delimiter, field.bit_width),
    ensures
        owned_text(field) == text_draw_source(
            field.ident,
            text_draw(field, charset, delimiter),
        ),
        may_draw(text_draw(field, charset, delimiter), text) && (
        delimiter matches DelimiterModel::LeadingSize(size) ==> 8 * text_draw(
            field,
            charset,
            delimiter,
        ).limit <= mask_value(size as int)) ==> text_refusal(field, charset, delimiter, text)
            is None,
        encode_utf8(text).len() > text_draw(field, charset, delimiter).limit ==> text_refusal(
            field,
            charset,
            delimiter,
            text,
        ) is Some,
        text_draw(field, charset, delimiter).wide == (charset == TextCharset::Utf8),
{
    let draw = text_draw(field, charset, delimiter);
    let bytes = encode_utf8(text);
    match delimiter {
        DelimiterModel::TerminationChar(terminator) => {
            if may_draw(draw, text) {
                lemma_not_early(bytes, terminator, 0);
            }
            lemma_numbers_listed(terminator);
        },
        _ => {},
    }
    lemma_draw_texts(
        field.ident,
        decimal_text(draw.limit),
        bool_text(draw.wide),
        byte_list(draw.forbidden),
        draw.exact,
    );
    assert(numbers(Seq::empty()) =~= Seq::<char>::empty());
    assert(byte_list(Seq::empty()) =~= Seq::<char>::empty());
    let list = byte_list(draw.forbidden);
    if draw.exact {
        assert("let "@ + field.ident + ": String = rng.text_of_exactly("@ + decimal_text(draw.limit)
            + ", "@ + bool_text(draw.wide) + ", &[]);\n"@ =~= "let "@ + field.ident
            + ": String = rng.text_of_exactly("@ + decimal_text(draw.limit) + ", "@ + bool_text(
            draw.wide,
        ) + ", &["@ + list + "]);\n"@) by {
            reveal_strlit(", &[]);\n");
            reveal_strlit(", &[");
            reveal_strlit("]);\n");
        }
    }
}

proof fn lemma_draw_texts(
    name: Seq<char>,
    limit: Seq<char>,
    wide: Seq<char>,
    list: Seq<char>,
    exact: bool,
)
    ensures
        "let "@ + name + ": String = rng."@ + (if exact {
            "text_of_exactly("@
        } else {
            "text_up_to("@
        }) + limit + ", "@ + wide + ", &["@ + list + "]"@ + ");\n"@ == "let "@ + name + (if exact {
            ": String = rng.text_of_exactly("@
        } else {
            ": String = rng.text_up_to("@
        }) + limit + ", "@ + wide + ", &["@ + list + "]);\n"@,
{
    reveal_strlit(": String = rng.");
    reveal_strlit("text_of_exactly(");
    reveal_strlit("text_up_to(");
    reveal_strlit(": String = rng.text_of_exactly(");
    reveal_strlit(": String = rng.text_up_to(");
    reveal_strlit("]");
    reveal_strlit(");\n");
    reveal_strlit("]);\n");
    if exact {
        assert("let "@ + name + ": String = rng."@ + "text_of_exactly("@ + limit + ", "@ + wide
            + ", &["@ + list + "]"@ + ");\n"@ =~= "let "@ + name
            + ": String = rng.text_of_exactly("@ + limit + ", "@ + wide + ", &["@ + list
            + "]);\n"@);
    } else {
        assert("let "@ + name + ": String = rng."@ + "text_up_to("@ + limit + ", "@ + wide
            + ", &["@ + list + "]"@ + ");\n"@ =~= "let "@ + name + ": String = rng.text_up_to("@
            + limit + ", "@ + wide + ", &["@ + list + "]);\n"@);
    }
}

/// The source that draws bytes for a field draws exactly as many as the field accepts.
pub proof fn lemma_draws_bytes(field: FieldModel, bytes: Seq<u8>)
    requires
        field.kind is Binary,
        field.bit_width % 8 == 0,
        field_refusal(field, Datum::Binary(bytes)) is None,
    ensures
        owned_text(field) == "let "@ + field.ident + ": Vec<u8> = rng.bytes("@ + decimal_text(
            bytes.len(),
        ) + ");\n"@,
{
}

// ---------------------------------------------------------------------------------------
// What is expected
// ---------------------------------------------------------------------------------------

/// The number that is expected back, as the widest of its sign.
pub open spec fn expected_code(field: FieldModel) -> Expr {
    let local = Expr::Name(field.ident);
    if field.kind is Signed {
        Expr::From(Int::I64, Box::new(local))
    } else {
        Expr::From(Int::U64, Box::new(local))
    }
}

/// The source for what is expected of a number is the number itself, whatever its width is.
pub proof fn lemma_expects_the_number(scope: Scope, field: FieldModel, value: Datum)
    requires
        field.kind is Unsigned || field.kind is Signed,
        1 <= field.bit_width <= 64,
        well_typed(field, scope.enums, value),
        scope.names.contains_key(field.ident),
        scope.names[field.ident] == held(field, value),
    ensures
        expected_text(field) == "Expected::"@ + if field.kind is Signed {
            "Signed"@
        } else {
            "Unsigned"@
        } + "("@ + source(expected_code(field)) + ")"@,
        parses(expected_code(field)),
        means(expected_code(field), scope) == Outcome::Is(
            match value {
                Datum::Unsigned(n) => Thing::Number(Int::U64, n as int),
                Datum::Signed(n) => Thing::Number(Int::I64, n as int),
                _ => Thing::Flag(false),
            },
        ),
{
    step_name(field.ident, scope);
    step_from(Int::I64, Expr::Name(field.ident), scope);
    step_from(Int::U64, Expr::Name(field.ident), scope);
    reveal_strlit("Expected::");
    reveal_strlit("Signed");
    reveal_strlit("Unsigned");
    reveal_strlit("(");
    reveal_strlit(")");
    reveal_strlit("u64");
    reveal_strlit("i64");
    reveal_strlit("::from(");
    reveal_strlit("))");
    reveal_strlit("Expected::Unsigned(u64::from(");
    reveal_strlit("Expected::Signed(i64::from(");
    assert(expected_text(field) =~= "Expected::"@ + if field.kind is Signed {
        "Signed"@
    } else {
        "Unsigned"@
    } + "("@ + source(expected_code(field)) + ")"@);
}

/// The bits that a raw value is compared by.
pub open spec fn raw_bits_code(field: FieldModel) -> Expr {
    let local = Expr::Name(field.ident);
    if field.kind is Signed {
        cast(cast(local, Int::I64), Int::U64)
    } else {
        Expr::From(Int::U64, Box::new(local))
    }
}

/// The source for the bits of a raw value gives the number, in two's complement where it is
/// negative, and a flag as zero or one.
pub proof fn lemma_gives_raw_bits(scope: Scope, field: FieldModel, value: Datum)
    requires
        field.kind is Unsigned || field.kind is Signed || field.kind is Bool,
        1 <= field.bit_width <= 64,
        well_typed(field, scope.enums, value),
        scope.names.contains_key(field.ident),
        scope.names[field.ident] == held(field, value),
    ensures
        raw_bits_text(field) == source(raw_bits_code(field)),
        parses(raw_bits_code(field)),
        means(raw_bits_code(field), scope) == Outcome::Is(
            Thing::Number(
                Int::U64,
                match value {
                    Datum::Unsigned(n) => n as int,
                    Datum::Signed(n) => if n < 0 {
                        n + pow2(64)
                    } else {
                        n as int
                    },
                    Datum::Bool(flag) => if flag {
                        1
                    } else {
                        0
                    },
                    _ => 0,
                },
            ),
        ),
{
    let local = Expr::Name(field.ident);
    lemma_type_powers();
    step_name(field.ident, scope);
    step_from(Int::U64, local, scope);
    step_cast(local, Int::I64, scope);
    step_cast(cast(local, Int::I64), Int::U64, scope);
    if field.kind is Signed {
        let n = value->Signed_0 as int;
        lemma_cut_keeps(Int::I64, n);
        if n < 0 {
            lemma_fundamental_div_mod_converse(n, pow2(64) as int, -1, n + pow2(64));
        } else {
            lemma_cut_keeps(Int::U64, n);
        }
    }
    reveal_strlit(" as ");
    reveal_strlit("i64");
    reveal_strlit("u64");
    reveal_strlit(" as i64 as u64");
    reveal_strlit("::from(");
    reveal_strlit("u64::from(");
    assert(raw_bits_text(field) =~= source(raw_bits_code(field)));
}

} // verus!
