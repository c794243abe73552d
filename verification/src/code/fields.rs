//! What the code for one field reads.

use vstd::prelude::*;
use vstd::string::*;

use crate::bits::{lemma_number_bound, natural_width, number};
use crate::code::bits::{
    lemma_cut_keeps, lemma_reads_in_order, lemma_signed_type_holds_its_fields, lemma_type_powers,
    lemma_unsigned_type_holds_its_fields, lemma_zero_text, read_in_order_code, signed_int,
    unsigned_int,
};
use crate::code::language::{
    apply, binary, cast, enum_named, means, paren, parses, source, step_apply, step_binary,
    step_cast, step_from_raw, step_name, step_number, step_or_fail, step_paren, strength, Expr,
    Failure, Function, Int, Operator, Outcome, Scope, Thing,
};
use crate::code::reads::{lemma_reads_signed, lemma_signed_value_fits, signed_code};
use crate::code::strings::{lemma_reads_text, lemma_slices_field, slice_code, text_code};
use crate::codec::{bits_in_order, field_decoded, variant_from, Datum, Fault};
use crate::emit::decode::decoded_text;
use crate::layout::{EnumModel, FieldModel, KindModel};
use crate::scalar::lemma_swapped;

verus! {

/// A value, in the field of the struct that holds it: of the type that the struct declares.
pub open spec fn held(field: FieldModel, value: Datum) -> Thing {
    let natural = natural_width(field.bit_width);
    match value {
        Datum::Unsigned(n) => Thing::Number(unsigned_int(natural), n as int),
        Datum::Signed(n) => Thing::Number(signed_int(natural), n as int),
        Datum::Single(bits) => Thing::Single(bits),
        Datum::Double(bits) => Thing::Double(bits),
        Datum::Bool(flag) => Thing::Flag(flag),
        Datum::Enumerated(variant) => match field.kind {
            KindModel::Enumerated(index) => Thing::Variant(index, variant),
            _ => Thing::Flag(false),
        },
        Datum::Text(text) => Thing::Text(text),
        Datum::Binary(bytes) => Thing::Bytes(bytes),
    }
}

/// What reading a field has to come to.
pub open spec fn field_outcome(field: FieldModel, result: Result<Datum, Fault>) -> Outcome {
    match result {
        Ok(value) => Outcome::Is(held(field, value)),
        Err(fault) => Outcome::Fails(Failure::Decode(fault)),
    }
}

/// The code that reads one field.
pub open spec fn decoded_code(field: FieldModel, enums: Seq<EnumModel>) -> Expr {
    let raw = read_in_order_code(field);
    let natural = natural_width(field.bit_width);
    match field.kind {
        KindModel::Text(charset, delimiter) => text_code(field, charset, delimiter),
        KindModel::Binary => slice_code(field),
        KindModel::Bool => binary(Operator::NotEqual, paren(raw), Expr::Number(0)),
        KindModel::Enumerated(index) => Expr::OrFail(
            Box::new(Expr::FromRaw(enums[index].type_ident, Box::new(raw))),
            "value"@,
            Box::new(Expr::Name("value"@)),
            Failure::Decode(Fault::UnknownLabel(field.xtce_name)),
        ),
        KindModel::Float16 => apply(Function::Widen, cast(paren(raw), Int::U16)),
        KindModel::Float32 => apply(Function::Single, cast(paren(raw), Int::U32)),
        KindModel::Float64 => apply(Function::Double, raw),
        KindModel::Unsigned => cast(paren(raw), unsigned_int(natural)),
        KindModel::Signed(coding) => cast(
            signed_code(raw, field.bit_width, coding),
            signed_int(natural),
        ),
    }
}

/// Whether the name of an enumerated field's enum is that of no enum before it.
pub open spec fn enum_is_named(field: FieldModel, enums: Seq<EnumModel>) -> bool {
    field.kind matches KindModel::Enumerated(index) ==> enum_named(
        enums,
        enums[index].type_ident,
        0,
    ) == Some(index)
}

/// The bits of a field in order are a number of its width.
pub proof fn lemma_bits_in_order_bound(field: FieldModel, data: Seq<u8>)
    requires
        1 <= field.bit_width <= 64,
        field.swap_bytes ==> field.bit_width % 8 == 0,
    ensures
        0 <= bits_in_order(field, data) < vstd::arithmetic::power2::pow2(field.bit_width as nat),
{
    lemma_number_bound(data, field.bit_offset, field.bit_width as nat);
    if field.swap_bytes && field.bit_width > 8 {
        lemma_swapped(
            number(data, field.bit_offset, field.bit_width as nat) as int,
            field.bit_width,
        );
    }
}

/// The source that reads a field gives what decoding gives of it: the same value, in the type that
/// the struct declares for it, or the same fault.
pub proof fn lemma_decodes_the_field(scope: Scope, field: FieldModel)
    requires
        scope.has_bytes("data"@),
        field.valid(scope.enums, scope.bytes("data"@).len() as int),
        enum_is_named(field, scope.enums),
    ensures
        source(decoded_code(field, scope.enums)) == decoded_text(field, scope.enums),
        parses(decoded_code(field, scope.enums)),
        strength(decoded_code(field, scope.enums)) >= 2,
        means(decoded_code(field, scope.enums), scope) == field_outcome(
            field,
            field_decoded(field, scope.enums, scope.bytes("data"@)),
        ),
{
    let data = scope.bytes("data"@);
    if field.kind.borrows() {
        match field.kind {
            KindModel::Text(charset, delimiter) => lemma_reads_text(
                scope,
                field,
                charset,
                delimiter,
            ),
            _ => lemma_slices_field(scope, field),
        }
    } else {
        lemma_reads_in_order(scope, field);
        lemma_bits_in_order_bound(field, data);
        match field.kind {
            KindModel::Signed(_) => lemma_decodes_signed(scope, field),
            KindModel::Unsigned => lemma_decodes_unsigned(scope, field),
            KindModel::Bool => lemma_decodes_flag(scope, field),
            KindModel::Enumerated(_) => lemma_decodes_label(scope, field),
            _ => lemma_decodes_float(scope, field),
        }
    }
}

proof fn lemma_decodes_signed(scope: Scope, field: FieldModel)
    requires
        scope.has_bytes("data"@),
        field.valid(scope.enums, scope.bytes("data"@).len() as int),
        field.kind is Signed,
    ensures
        source(decoded_code(field, scope.enums)) == decoded_text(field, scope.enums),
        parses(decoded_code(field, scope.enums)),
        means(decoded_code(field, scope.enums), scope) == field_outcome(
            field,
            field_decoded(field, scope.enums, scope.bytes("data"@)),
        ),
{
    let data = scope.bytes("data"@);
    let width = field.bit_width;
    let coding = field.kind->Signed_0;
    let raw = read_in_order_code(field);
    let n = bits_in_order(field, data);
    let code = signed_code(raw, width, coding);
    lemma_reads_in_order(scope, field);
    lemma_bits_in_order_bound(field, data);
    lemma_reads_signed(scope, raw, width, coding, n);
    lemma_signed_type_holds_its_fields(width);
    lemma_signed_value_fits(coding, width, n);
    lemma_type_powers();
    step_cast(code, signed_int(natural_width(width)), scope);
}

proof fn lemma_decodes_unsigned(scope: Scope, field: FieldModel)
    requires
        scope.has_bytes("data"@),
        field.valid(scope.enums, scope.bytes("data"@).len() as int),
        field.kind is Unsigned,
    ensures
        source(decoded_code(field, scope.enums)) == decoded_text(field, scope.enums),
        parses(decoded_code(field, scope.enums)),
        means(decoded_code(field, scope.enums), scope) == field_outcome(
            field,
            field_decoded(field, scope.enums, scope.bytes("data"@)),
        ),
{
    let data = scope.bytes("data"@);
    let width = field.bit_width;
    let natural = natural_width(width);
    let kind = unsigned_int(natural);
    let raw = read_in_order_code(field);
    let n = bits_in_order(field, data);
    lemma_reads_in_order(scope, field);
    lemma_bits_in_order_bound(field, data);
    lemma_unsigned_type_holds_its_fields(width);
    lemma_type_powers();
    if width < natural {
        vstd::arithmetic::power2::lemma_pow2_strictly_increases(width as nat, natural as nat);
    }
    lemma_cut_keeps(kind, n);
    step_paren(raw, scope);
    step_cast(paren(raw), kind, scope);
    reveal_strlit(")");
    reveal_strlit(" as ");
    reveal_strlit(") as ");
    assert(source(decoded_code(field, scope.enums)) =~= decoded_text(field, scope.enums));
}

proof fn lemma_decodes_flag(scope: Scope, field: FieldModel)
    requires
        scope.has_bytes("data"@),
        field.valid(scope.enums, scope.bytes("data"@).len() as int),
        field.kind is Bool,
    ensures
        source(decoded_code(field, scope.enums)) == decoded_text(field, scope.enums),
        parses(decoded_code(field, scope.enums)),
        means(decoded_code(field, scope.enums), scope) == field_outcome(
            field,
            field_decoded(field, scope.enums, scope.bytes("data"@)),
        ),
{
    let raw = read_in_order_code(field);
    lemma_reads_in_order(scope, field);
    lemma_type_powers();
    step_paren(raw, scope);
    step_number(0, scope);
    step_binary(Operator::NotEqual, paren(raw), Expr::Number(0), scope);
    lemma_zero_text();
    reveal_strlit(")");
    reveal_strlit(" != ");
    reveal_strlit("0");
    reveal_strlit(") != 0");
    assert(source(decoded_code(field, scope.enums)) =~= decoded_text(field, scope.enums));
}

proof fn lemma_decodes_label(scope: Scope, field: FieldModel)
    requires
        scope.has_bytes("data"@),
        field.valid(scope.enums, scope.bytes("data"@).len() as int),
        field.kind is Enumerated,
        enum_is_named(field, scope.enums),
    ensures
        source(decoded_code(field, scope.enums)) == decoded_text(field, scope.enums),
        parses(decoded_code(field, scope.enums)),
        means(decoded_code(field, scope.enums), scope) == field_outcome(
            field,
            field_decoded(field, scope.enums, scope.bytes("data"@)),
        ),
{
    let index = field.kind->Enumerated_0;
    let name = scope.enums[index].type_ident;
    let raw = read_in_order_code(field);
    let n = bits_in_order(field, scope.bytes("data"@));
    let failure = Failure::Decode(Fault::UnknownLabel(field.xtce_name));
    let found = Expr::FromRaw(name, Box::new(raw));
    let local = Expr::Name("value"@);
    lemma_reads_in_order(scope, field);
    step_from_raw(name, raw, scope);
    if variant_from(scope.enums[index], n, 0) is Some {
        let variant = variant_from(scope.enums[index], n, 0)->Some_0;
        step_name("value"@, scope.with("value"@, Thing::Variant(index, variant)));
    }
    step_name("value"@, scope);
    step_or_fail(found, "value"@, local, failure, scope);
    reveal_strlit(")");
    reveal_strlit(" {\nSome(");
    reveal_strlit("value");
    reveal_strlit(") => ");
    reveal_strlit(",\nNone => ");
    reveal_strlit(") {\nSome(value) => value,\nNone => ");
    assert(source(decoded_code(field, scope.enums)) =~= decoded_text(field, scope.enums));
}

proof fn lemma_decodes_float(scope: Scope, field: FieldModel)
    requires
        scope.has_bytes("data"@),
        field.valid(scope.enums, scope.bytes("data"@).len() as int),
        field.kind is Float16 || field.kind is Float32 || field.kind is Float64,
    ensures
        source(decoded_code(field, scope.enums)) == decoded_text(field, scope.enums),
        parses(decoded_code(field, scope.enums)),
        means(decoded_code(field, scope.enums), scope) == field_outcome(
            field,
            field_decoded(field, scope.enums, scope.bytes("data"@)),
        ),
{
    let raw = read_in_order_code(field);
    let n = bits_in_order(field, scope.bytes("data"@));
    lemma_reads_in_order(scope, field);
    lemma_bits_in_order_bound(field, scope.bytes("data"@));
    lemma_type_powers();
    step_paren(raw, scope);
    reveal_strlit("(");
    reveal_strlit(")");
    if field.kind is Float16 {
        lemma_cut_keeps(Int::U16, n);
        step_cast(paren(raw), Int::U16, scope);
        step_apply(Function::Widen, cast(paren(raw), Int::U16), scope);
        reveal_strlit(" as ");
        reveal_strlit("u16");
        reveal_strlit("half_to_f32");
        reveal_strlit("half_to_f32((");
        reveal_strlit(") as u16)");
        assert(source(decoded_code(field, scope.enums)) =~= decoded_text(field, scope.enums));
    } else if field.kind is Float32 {
        lemma_cut_keeps(Int::U32, n);
        step_cast(paren(raw), Int::U32, scope);
        step_apply(Function::Single, cast(paren(raw), Int::U32), scope);
        reveal_strlit(" as ");
        reveal_strlit("u32");
        reveal_strlit("f32::from_bits");
        reveal_strlit("f32::from_bits((");
        reveal_strlit(") as u32)");
        assert(source(decoded_code(field, scope.enums)) =~= decoded_text(field, scope.enums));
    } else {
        step_apply(Function::Double, raw, scope);
        reveal_strlit("f64::from_bits");
        reveal_strlit("f64::from_bits(");
        assert(source(decoded_code(field, scope.enums)) =~= decoded_text(field, scope.enums));
    }
}

} // verus!
