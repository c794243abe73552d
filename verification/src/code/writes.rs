//! What the code for one number writes.

use vstd::arithmetic::div_mod::*;
use vstd::arithmetic::power2::*;
use vstd::prelude::*;
use vstd::string::*;

use crate::bits::{mask_value, natural_width};
use crate::code::bits::{
    lemma_cut_keeps, lemma_mask_bounds, lemma_mask_is_rest, lemma_type_powers, lemma_zero_text,
    signed_int,
};
use crate::code::fields::held;
use crate::code::language::{
    apply, binary, both, call, cast, either, means, one_of, paren, parses, run, script, source,
    step_apply, step_binary, step_call, step_cast, step_choice, step_either, step_field,
    step_nothing, step_number, step_paren, step_refuse, strength, Command, Expr, Function, Int,
    Method, Operator, Outcome, Scope, Step, Thing,
};
use crate::code::reads::{lemma_rest_of_mask, lemma_sign_bit};
use crate::codec::{field_refusal, scalar_bits, well_typed, Datum, Refusal};
use crate::emit::encode::{check_text, raw_text, refusal_text, value_text};
use crate::emit::text::string_literal;
use crate::layout::{FieldModel, KindModel};
use crate::names::{decimal_text, signed_text};
use crate::plan::IntegerCoding;
use crate::scalar::{lemma_width_powers, signed_fits};

verus! {

// ---------------------------------------------------------------------------------------
// Bits of signed numbers
// ---------------------------------------------------------------------------------------

/// A sign and a magnitude below it, put together.
pub proof fn lemma_sign_and_magnitude(magnitude: int, width: int)
    requires
        1 <= width <= 64,
        0 <= magnitude < pow2((width - 1) as nat),
    ensures
        either(pow2((width - 1) as nat) as int, magnitude) == pow2((width - 1) as nat) + magnitude,
{
    lemma_width_powers(width);
    lemma_sign_bit(magnitude, width);
    let a = pow2((width - 1) as nat) as u128;
    let m = magnitude as u128;
    assert(a | m == a + m) by (bit_vector)
        requires
            m & a == 0,
            a <= 0x1_0000_0000_0000_0000u128,
            m <= 0x1_0000_0000_0000_0000u128,
    ;
}

/// A magnitude with all of its bits the other way.
pub proof fn lemma_mask_without(magnitude: int, width: int)
    requires
        1 <= width <= 64,
        0 <= magnitude < pow2(width as nat),
    ensures
        one_of(mask_value(width), magnitude) == mask_value(width) - magnitude,
{
    lemma_width_powers(width);
    lemma_type_powers();
    lemma_mask_is_rest(magnitude, width);
    lemma_small_mod(magnitude as nat, pow2(width as nat));
    let a = mask_value(width) as u128;
    let m = magnitude as u128;
    assert(a ^ m == a - m) by (bit_vector)
        requires
            m & a == m,
    ;
}

/// The low bits of a number that is taken for an unsigned one of 64 bits.
pub proof fn lemma_low_bits(n: int, width: int)
    requires
        1 <= width <= 64,
        -pow2(width as nat) <= n < pow2(width as nat),
        Int::I64.holds(n) || n >= 0,
    ensures
        Int::U64.cut(n) == if n < 0 {
            n + pow2(64)
        } else {
            n
        },
        both(Int::U64.cut(n), mask_value(width)) == if n < 0 {
            n + pow2(width as nat)
        } else {
            n
        },
{
    lemma_type_powers();
    lemma_width_powers(width);
    let all = pow2(width as nat) as int;
    let above = pow2((64 - width) as nat) as int;
    lemma_pow2_adds(width as nat, (64 - width) as nat);
    lemma_pow2_pos((64 - width) as nat);
    if n < 0 {
        let low = n + pow2(64);
        lemma_fundamental_div_mod_converse(n, pow2(64) as int, -1, low);
        lemma_mask_is_rest(low, width);
        assert(low == (above - 1) * all + (n + all)) by (nonlinear_arith)
            requires
                low == n + all * above,
        ;
        if n + all < all {
            lemma_fundamental_div_mod_converse(low, all, above - 1, n + all);
        }
    } else {
        lemma_small_mod(n as nat, pow2(64));
        lemma_mask_is_rest(n, width);
        lemma_small_mod(n as nat, all as nat);
    }
}

// ---------------------------------------------------------------------------------------
// The bits of a value
// ---------------------------------------------------------------------------------------

/// The code that gives the magnitude of a number.
pub open spec fn magnitude_code(value: Expr) -> Expr {
    call(Method::UnsignedAbs, paren(cast(value, Int::I64)))
}

/// The code that turns a field's value into the bits that go into the packet.
pub open spec fn raw_code(field: FieldModel, value: Expr) -> Expr {
    let mask = Expr::Number(mask_value(field.bit_width));
    let negative = binary(Operator::Less, value, Expr::Number(0));
    match field.kind {
        KindModel::Unsigned => binary(Operator::BitAnd, cast(value, Int::U64), mask),
        KindModel::Signed(IntegerCoding::Unsigned) => binary(
            Operator::BitAnd,
            cast(value, Int::U64),
            mask,
        ),
        KindModel::Signed(IntegerCoding::TwosComplement) => binary(
            Operator::BitAnd,
            cast(cast(value, Int::I64), Int::U64),
            mask,
        ),
        KindModel::Signed(IntegerCoding::SignMagnitude) => {
            let sign = Expr::Number(pow2((field.bit_width - 1) as nat) as int);
            Expr::Choice(
                Box::new(negative),
                Box::new(binary(Operator::BitOr, sign, magnitude_code(value))),
                Box::new(cast(value, Int::U64)),
            )
        },
        KindModel::Signed(IntegerCoding::OnesComplement) => Expr::Choice(
            Box::new(negative),
            Box::new(binary(Operator::BitXor, mask, magnitude_code(value))),
            Box::new(cast(value, Int::U64)),
        ),
        KindModel::Float16 => cast(apply(Function::Narrow, value), Int::U64),
        KindModel::Float32 => cast(call(Method::ToBits, value), Int::U64),
        KindModel::Float64 => call(Method::ToBits, value),
        KindModel::Bool => Expr::Either(
            Box::new(value),
            Box::new(Expr::Number(1)),
            Box::new(Expr::Number(0)),
        ),
        KindModel::Enumerated(_) => call(Method::Raw, value),
        _ => Expr::Number(0),
    }
}

/// What the source for the bits of a value has to give.
pub open spec fn gives_bits(scope: Scope, field: FieldModel, value: Datum) -> bool {
    let code = raw_code(field, Expr::Field(field.ident));
    let bits = scalar_bits(field, scope.enums, value);
    &&& source(code) == raw_text(field, value_text(field.ident))
    &&& parses(code)
    &&& strength(code) >= 2
    &&& means(code, scope) == Outcome::Is(Thing::Number(Int::U64, bits)) || means(code, scope)
        == Outcome::Is(Thing::Literal(bits))
}

proof fn lemma_gives_bits_of_unsigned(scope: Scope, field: FieldModel, n: u64)
    requires
        1 <= field.bit_width <= 64,
        field.kind is Unsigned,
        scope.fields.contains_key(field.ident),
        scope.fields[field.ident] == held(field, Datum::Unsigned(n)),
        n <= mask_value(field.bit_width),
    ensures
        gives_bits(scope, field, Datum::Unsigned(n)),
{
    let value = Expr::Field(field.ident);
    let mask = mask_value(field.bit_width);
    lemma_type_powers();
    lemma_mask_bounds(field.bit_width);
    lemma_low_bits(n as int, field.bit_width);
    step_field(field.ident, scope);
    step_cast(value, Int::U64, scope);
    step_number(mask, scope);
    step_binary(Operator::BitAnd, cast(value, Int::U64), Expr::Number(mask), scope);
    reveal_strlit(" as ");
    reveal_strlit("u64");
    reveal_strlit(" & ");
    reveal_strlit(" as u64 & ");
    assert(source(raw_code(field, value)) =~= raw_text(field, value_text(field.ident)));
}

/// What holds of a number that fits a field.
proof fn lemma_fits(coding: IntegerCoding, width: int, n: int)
    requires
        1 <= width <= 64,
        signed_fits(coding, width, n),
    ensures
        Int::I64.holds(n),
        signed_int(natural_width(width)).holds(n),
        -pow2((width - 1) as nat) <= n < pow2((width - 1) as nat),
        pow2(width as nat) == 2 * pow2((width - 1) as nat),
{
    lemma_type_powers();
    lemma_width_powers(width);
    let natural = natural_width(width);
    if width < natural {
        lemma_pow2_strictly_increases((width - 1) as nat, (natural - 1) as nat);
    }
}

proof fn lemma_gives_bits_of_signed(
    scope: Scope,
    field: FieldModel,
    coding: IntegerCoding,
    n: i64,
)
    requires
        1 <= field.bit_width <= 64,
        field.kind == KindModel::Signed(coding),
        coding == IntegerCoding::Unsigned || coding == IntegerCoding::TwosComplement,
        scope.fields.contains_key(field.ident),
        scope.fields[field.ident] == held(field, Datum::Signed(n)),
        signed_fits(coding, field.bit_width, n as int),
    ensures
        gives_bits(scope, field, Datum::Signed(n)),
{
    let value = Expr::Field(field.ident);
    let mask = mask_value(field.bit_width);
    lemma_type_powers();
    lemma_mask_bounds(field.bit_width);
    lemma_fits(coding, field.bit_width, n as int);
    lemma_low_bits(n as int, field.bit_width);
    lemma_cut_keeps(Int::I64, n as int);
    step_field(field.ident, scope);
    step_number(mask, scope);
    step_cast(value, Int::U64, scope);
    step_binary(Operator::BitAnd, cast(value, Int::U64), Expr::Number(mask), scope);
    step_cast(value, Int::I64, scope);
    step_cast(cast(value, Int::I64), Int::U64, scope);
    step_binary(
        Operator::BitAnd,
        cast(cast(value, Int::I64), Int::U64),
        Expr::Number(mask),
        scope,
    );
    reveal_strlit(" as ");
    reveal_strlit("u64");
    reveal_strlit("i64");
    reveal_strlit(" & ");
    reveal_strlit(" as u64 & ");
    reveal_strlit(" as i64 as u64 & ");
    assert(source(raw_code(field, value)) =~= raw_text(field, value_text(field.ident)));
}

proof fn lemma_gives_bits_of_magnitude(
    scope: Scope,
    field: FieldModel,
    coding: IntegerCoding,
    n: i64,
)
    requires
        1 <= field.bit_width <= 64,
        field.kind == KindModel::Signed(coding),
        coding == IntegerCoding::SignMagnitude || coding == IntegerCoding::OnesComplement,
        scope.fields.contains_key(field.ident),
        scope.fields[field.ident] == held(field, Datum::Signed(n)),
        signed_fits(coding, field.bit_width, n as int),
    ensures
        gives_bits(scope, field, Datum::Signed(n)),
{
    let width = field.bit_width;
    let value = Expr::Field(field.ident);
    let half = pow2((width - 1) as nat) as int;
    let ones = coding == IntegerCoding::OnesComplement;
    let number = if ones {
        mask_value(width)
    } else {
        half
    };
    let operator = if ones {
        Operator::BitXor
    } else {
        Operator::BitOr
    };
    let first = Expr::Number(number);
    let negative = binary(Operator::Less, value, Expr::Number(0));
    let wide = cast(value, Int::I64);
    let magnitude = magnitude_code(value);
    let below = binary(operator, first, magnitude);
    let plain = cast(value, Int::U64);
    lemma_type_powers();
    lemma_mask_bounds(width);
    lemma_width_powers(width);
    lemma_fits(coding, width, n as int);
    lemma_cut_keeps(Int::I64, n as int);
    if n < 0 {
        lemma_sign_and_magnitude(-n, width);
        lemma_mask_without(-n, width);
    } else {
        lemma_cut_keeps(Int::U64, n as int);
    }
    step_field(field.ident, scope);
    step_number(0, scope);
    step_binary(Operator::Less, value, Expr::Number(0), scope);
    step_number(number, scope);
    step_cast(value, Int::I64, scope);
    step_paren(wide, scope);
    step_call(Method::UnsignedAbs, paren(wide), scope);
    step_binary(operator, first, magnitude, scope);
    step_cast(value, Int::U64, scope);
    step_choice(negative, below, plain, scope);
    lemma_zero_text();
    lemma_magnitude_spelled(
        source(value),
        decimal_text(number as nat),
        if ones {
            " ^ "@
        } else {
            " | "@
        },
        ones,
    );
}

proof fn lemma_magnitude_spelled(
    value: Seq<char>,
    number: Seq<char>,
    sign: Seq<char>,
    ones: bool,
)
    requires
        sign == if ones {
            " ^ "@
        } else {
            " | "@
        },
    ensures
        "if "@ + (value + " < "@ + "0"@) + " {\n"@ + (number + sign + (("("@ + (value + " as "@
            + "i64"@) + ")"@) + ".unsigned_abs()"@)) + "\n} else {\n"@ + (value + " as "@ + "u64"@)
            + "\n}"@ == "if "@ + value + " < 0 {\n"@ + number + if ones {
            " ^ ("@
        } else {
            " | ("@
        } + value + " as i64).unsigned_abs()\n} else {\n"@ + value + " as u64\n}"@,
{
    reveal_strlit("if ");
    reveal_strlit(" < ");
    reveal_strlit("0");
    reveal_strlit(" {\n");
    reveal_strlit("(");
    reveal_strlit(")");
    reveal_strlit(" as ");
    reveal_strlit("i64");
    reveal_strlit(".unsigned_abs()");
    reveal_strlit("\n} else {\n");
    reveal_strlit("u64");
    reveal_strlit("\n}");
    reveal_strlit(" < 0 {\n");
    reveal_strlit(" ^ ");
    reveal_strlit(" | ");
    reveal_strlit(" ^ (");
    reveal_strlit(" | (");
    reveal_strlit(" as i64).unsigned_abs()\n} else {\n");
    reveal_strlit(" as u64\n}");
    assert(sign + "("@ =~= if ones {
        " ^ ("@
    } else {
        " | ("@
    });
    assert("if "@ + (value + " < "@ + "0"@) + " {\n"@ + (number + sign + (("("@ + (value + " as "@
        + "i64"@) + ")"@) + ".unsigned_abs()"@)) + "\n} else {\n"@ + (value + " as "@ + "u64"@)
        + "\n}"@ =~= "if "@ + value + " < 0 {\n"@ + number + (sign + "("@) + value
        + " as i64).unsigned_abs()\n} else {\n"@ + value + " as u64\n}"@);
}

proof fn lemma_gives_bits_of_others(scope: Scope, field: FieldModel, value: Datum)
    requires
        field.kind is Float16 || field.kind is Float32 || field.kind is Float64
            || field.kind is Bool || field.kind is Enumerated,
        well_typed(field, scope.enums, value),
        scope.fields.contains_key(field.ident),
        scope.fields[field.ident] == held(field, value),
    ensures
        gives_bits(scope, field, value),
{
    let one = Expr::Field(field.ident);
    lemma_type_powers();
    step_field(field.ident, scope);
    step_call(Method::ToBits, one, scope);
    step_call(Method::Raw, one, scope);
    step_apply(Function::Narrow, one, scope);
    step_cast(call(Method::ToBits, one), Int::U64, scope);
    step_cast(apply(Function::Narrow, one), Int::U64, scope);
    step_number(1, scope);
    step_number(0, scope);
    step_either(one, Expr::Number(1), Expr::Number(0), scope);
    let bits = scalar_bits(field, scope.enums, value);
    lemma_cut_keeps(Int::U64, bits);
    reveal_strlit(" as ");
    reveal_strlit("u64");
    reveal_strlit("(");
    reveal_strlit(")");
    reveal_strlit("f32_to_half");
    reveal_strlit("f32_to_half(");
    reveal_strlit(") as u64");
    reveal_strlit(".to_bits()");
    reveal_strlit(".to_bits() as u64");
    if field.kind is Bool {
        lemma_zero_text();
        assert(decimal_text(1) == "1"@) by {
            reveal_strlit("1");
            reveal_with_fuel(decimal_text, 2);
            assert(decimal_text(1) =~= "1"@);
        }
        reveal_strlit("1");
        reveal_strlit("0");
        reveal_strlit(" { ");
        reveal_strlit(" } else { ");
        reveal_strlit(" }");
        reveal_strlit(" { 1 } else { 0 }");
    }
    assert(source(raw_code(field, one)) =~= raw_text(field, value_text(field.ident)));
}

/// The source for the bits of a value gives the number that stands for it in a packet, for every
/// value that the field can hold.
pub proof fn lemma_gives_bits(scope: Scope, field: FieldModel, value: Datum)
    requires
        1 <= field.bit_width <= 64,
        !field.kind.borrows(),
        well_typed(field, scope.enums, value),
        field_refusal(field, value) is None,
        scope.fields.contains_key(field.ident),
        scope.fields[field.ident] == held(field, value),
    ensures
        gives_bits(scope, field, value),
{
    match field.kind {
        KindModel::Unsigned => lemma_gives_bits_of_unsigned(scope, field, value->Unsigned_0),
        KindModel::Signed(coding) => {
            if coding == IntegerCoding::Unsigned || coding == IntegerCoding::TwosComplement {
                lemma_gives_bits_of_signed(scope, field, coding, value->Signed_0);
            } else {
                lemma_gives_bits_of_magnitude(scope, field, coding, value->Signed_0);
            }
        },
        _ => lemma_gives_bits_of_others(scope, field, value),
    }
}

// ---------------------------------------------------------------------------------------
// The range of a value
// ---------------------------------------------------------------------------------------

/// The code that rejects a value the field cannot hold.
pub open spec fn check_code(field: FieldModel, value: Expr) -> Command {
    let width = field.bit_width;
    let refusal = Refusal::OutOfRange(field.xtce_name);
    let wide = paren(cast(value, Int::I64));
    let largest = Expr::Number(mask_value(width - 1));
    match field.kind {
        KindModel::Unsigned => if width >= natural_width(width) {
            Command::Nothing
        } else {
            Command::Refuse(
                binary(
                    Operator::Greater,
                    cast(value, Int::U64),
                    Expr::Number(mask_value(width)),
                ),
                refusal,
            )
        },
        KindModel::Signed(coding) => if coding == IntegerCoding::SignMagnitude || coding
            == IntegerCoding::OnesComplement {
            Command::Refuse(
                binary(Operator::Greater, magnitude_code(value), largest),
                refusal,
            )
        } else if width >= natural_width(width) {
            Command::Nothing
        } else {
            let smallest = if coding == IntegerCoding::Unsigned {
                0
            } else {
                -(pow2((width - 1) as nat) as int)
            };
            Command::Refuse(
                binary(
                    Operator::Or,
                    binary(Operator::Less, wide, Expr::Number(smallest)),
                    binary(Operator::Greater, wide, largest),
                ),
                refusal,
            )
        },
        _ => Command::Nothing,
    }
}

/// What the source that checks a value has to do.
pub open spec fn checks(scope: Scope, field: FieldModel, value: Datum) -> bool {
    let code = check_code(field, Expr::Field(field.ident));
    &&& script(code) == check_text(field, value_text(field.ident))
    &&& run(code, scope) == match field_refusal(field, value) {
        Some(refusal) => Step::Stops(refusal, scope.bytes("out"@)),
        None => Step::Goes(scope),
    }
}

proof fn lemma_checks_unsigned(scope: Scope, field: FieldModel, n: u64)
    requires
        1 <= field.bit_width <= 64,
        field.kind is Unsigned,
        well_typed(field, scope.enums, Datum::Unsigned(n)),
        scope.fields.contains_key(field.ident),
        scope.fields[field.ident] == held(field, Datum::Unsigned(n)),
    ensures
        checks(scope, field, Datum::Unsigned(n)),
{
    let width = field.bit_width;
    let value = Expr::Field(field.ident);
    let mask = mask_value(width);
    let test = binary(Operator::Greater, cast(value, Int::U64), Expr::Number(mask));
    let refusal = Refusal::OutOfRange(field.xtce_name);
    lemma_type_powers();
    lemma_mask_bounds(width);
    lemma_cut_keeps(Int::U64, n as int);
    step_nothing(scope);
    step_field(field.ident, scope);
    step_cast(value, Int::U64, scope);
    step_number(mask, scope);
    step_binary(Operator::Greater, cast(value, Int::U64), Expr::Number(mask), scope);
    step_refuse(test, refusal, scope);
    reveal_strlit("");
    reveal_strlit(" as ");
    reveal_strlit("u64");
    reveal_strlit(" > ");
    reveal_strlit(" as u64 > ");
    reveal_strlit(" })");
    reveal_strlit(";\n}\n");
    reveal_strlit(" });\n");
    reveal_strlit("}\n");
    assert(script(check_code(field, value)) =~= check_text(field, value_text(field.ident)));
}

proof fn lemma_checks_magnitude(scope: Scope, field: FieldModel, coding: IntegerCoding, n: i64)
    requires
        1 <= field.bit_width <= 64,
        field.kind == KindModel::Signed(coding),
        coding == IntegerCoding::SignMagnitude || coding == IntegerCoding::OnesComplement,
        scope.fields.contains_key(field.ident),
        scope.fields[field.ident] == held(field, Datum::Signed(n)),
    ensures
        checks(scope, field, Datum::Signed(n)),
{
    let width = field.bit_width;
    let value = Expr::Field(field.ident);
    let largest = mask_value(width - 1);
    let wide = cast(value, Int::I64);
    let magnitude = magnitude_code(value);
    let test = binary(Operator::Greater, magnitude, Expr::Number(largest));
    let refusal = Refusal::OutOfRange(field.xtce_name);
    lemma_type_powers();
    lemma_width_powers(width);
    lemma_rest_of_mask(0, width - 1);
    lemma_cut_keeps(Int::I64, n as int);
    step_field(field.ident, scope);
    step_cast(value, Int::I64, scope);
    step_paren(wide, scope);
    step_call(Method::UnsignedAbs, paren(wide), scope);
    step_number(largest, scope);
    step_binary(Operator::Greater, magnitude, Expr::Number(largest), scope);
    step_refuse(test, refusal, scope);
    reveal_strlit("if ");
    reveal_strlit("(");
    reveal_strlit("if (");
    reveal_strlit(" as ");
    reveal_strlit("i64");
    reveal_strlit(")");
    reveal_strlit(".unsigned_abs()");
    reveal_strlit(" > ");
    reveal_strlit(" as i64).unsigned_abs() > ");
    reveal_strlit(" })");
    reveal_strlit(";\n}\n");
    reveal_strlit(" });\n");
    reveal_strlit("}\n");
    assert(script(check_code(field, value)) =~= check_text(field, value_text(field.ident)));
}

proof fn lemma_checks_signed(scope: Scope, field: FieldModel, coding: IntegerCoding, n: i64)
    requires
        1 <= field.bit_width <= 64,
        field.kind == KindModel::Signed(coding),
        coding == IntegerCoding::Unsigned || coding == IntegerCoding::TwosComplement,
        well_typed(field, scope.enums, Datum::Signed(n)),
        scope.fields.contains_key(field.ident),
        scope.fields[field.ident] == held(field, Datum::Signed(n)),
    ensures
        checks(scope, field, Datum::Signed(n)),
{
    let width = field.bit_width;
    let value = Expr::Field(field.ident);
    let largest = mask_value(width - 1);
    let smallest = if coding == IntegerCoding::Unsigned {
        0
    } else {
        -(pow2((width - 1) as nat) as int)
    };
    let narrow = cast(value, Int::I64);
    let wide = paren(narrow);
    let below = binary(Operator::Less, wide, Expr::Number(smallest));
    let above = binary(Operator::Greater, wide, Expr::Number(largest));
    let test = binary(Operator::Or, below, above);
    let refusal = Refusal::OutOfRange(field.xtce_name);
    lemma_type_powers();
    lemma_width_powers(width);
    lemma_rest_of_mask(0, width - 1);
    lemma_cut_keeps(Int::I64, n as int);
    step_nothing(scope);
    step_field(field.ident, scope);
    step_cast(value, Int::I64, scope);
    step_paren(narrow, scope);
    step_number(smallest, scope);
    step_number(largest, scope);
    step_binary(Operator::Less, wide, Expr::Number(smallest), scope);
    step_binary(Operator::Greater, wide, Expr::Number(largest), scope);
    step_binary(Operator::Or, below, above, scope);
    step_refuse(test, refusal, scope);
    reveal_strlit("");
    if width < natural_width(width) {
        lemma_range_spelled(
            value_text(field.ident),
            signed_text(smallest),
            decimal_text(largest as nat),
            "return Err(EncodeError::"@ + "OutOfRange"@ + " { parameter: "@ + string_literal(
                field.xtce_name,
            ),
        );
        assert(refusal_text("OutOfRange"@, field.xtce_name) == "return Err(EncodeError::"@
            + "OutOfRange"@ + " { parameter: "@ + string_literal(field.xtce_name) + " });\n"@);
    } else {
        assert(script(check_code(field, value)) =~= check_text(field, value_text(field.ident)));
    }
}

proof fn lemma_range_spelled(
    value: Seq<char>,
    smallest: Seq<char>,
    largest: Seq<char>,
    refusal: Seq<char>,
)
    ensures
        "if "@ + ((("("@ + (value + " as "@ + "i64"@) + ")"@) + " < "@ + smallest) + " || "@ + ((
        "("@ + (value + " as "@ + "i64"@) + ")"@) + " > "@ + largest)) + " {\n"@ + (refusal
            + " })"@) + ";\n}\n"@ == "if ("@ + value + " as i64) < "@ + smallest + " || ("@ + value
            + " as i64) > "@ + largest + " {\n"@ + (refusal + " });\n"@) + "}\n"@,
{
    reveal_strlit("if ");
    reveal_strlit("(");
    reveal_strlit(")");
    reveal_strlit(" as ");
    reveal_strlit("i64");
    reveal_strlit(" < ");
    reveal_strlit(" || ");
    reveal_strlit(" > ");
    reveal_strlit(" })");
    reveal_strlit(";\n}\n");
    reveal_strlit("if (");
    reveal_strlit(" as i64) < ");
    reveal_strlit(" || (");
    reveal_strlit(" as i64) > ");
    reveal_strlit(" });\n");
    reveal_strlit("}\n");
    assert("if "@ + ((("("@ + (value + " as "@ + "i64"@) + ")"@) + " < "@ + smallest) + " || "@ + ((
    "("@ + (value + " as "@ + "i64"@) + ")"@) + " > "@ + largest)) + " {\n"@ + (refusal + " })"@)
        + ";\n}\n"@ =~= "if ("@ + value + " as i64) < "@ + smallest + " || ("@ + value
        + " as i64) > "@ + largest + " {\n"@ + (refusal + " });\n"@) + "}\n"@);
}

/// The source that checks a number refuses exactly those that encoding refuses, with the same error,
/// and does nothing else.
pub proof fn lemma_checks(scope: Scope, field: FieldModel, value: Datum)
    requires
        1 <= field.bit_width <= 64,
        !field.kind.borrows(),
        well_typed(field, scope.enums, value),
        scope.fields.contains_key(field.ident),
        scope.fields[field.ident] == held(field, value),
    ensures
        checks(scope, field, value),
{
    match field.kind {
        KindModel::Unsigned => lemma_checks_unsigned(scope, field, value->Unsigned_0),
        KindModel::Signed(coding) => {
            if coding == IntegerCoding::Unsigned || coding == IntegerCoding::TwosComplement {
                lemma_checks_signed(scope, field, coding, value->Signed_0);
            } else {
                lemma_checks_magnitude(scope, field, coding, value->Signed_0);
            }
        },
        _ => {
            step_nothing(scope);
            reveal_strlit("");
            assert(""@ =~= Seq::<char>::empty());
        },
    }
}

} // verus!
