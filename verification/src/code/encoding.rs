//! What `encode` does to a buffer.

use vstd::arithmetic::power2::*;
use vstd::prelude::*;
use vstd::string::*;

use crate::bits::written;
use crate::code::bits::{
    lemma_orders_the_bytes, lemma_type_powers, lemma_writes_the_run, ordered_code, write_code,
};
use crate::code::conditions::is_self;
use crate::code::fields::held;
use crate::code::language::{
    parses, run, script, source, step_block, step_chain, step_let_as, step_name, step_nothing,
    step_number, step_store, strength, Command, Expr, Int, Scope, Step, Thing,
};
use crate::code::texts::{
    binary_code, chain, lemma_writes_binary, lemma_writes_text, text_write_code, wrote,
};
use crate::code::writes::{check_code, lemma_checks, lemma_gives_bits, raw_code};
use crate::codec::{
    accepted_from, blank, constants_written, encode_refusal, field_refusal, field_written, filled,
    fixed_written, in_order, is_packet, scalar_bits, spliced, well_typed, Datum, Refusal,
};
use crate::emit::bits::{ordered_text, write_text};
use crate::emit::encode::{
    byte_stores_text, check_text, encode_constants_text, encode_field_text, encode_fields_text,
    encode_fixed_text, encode_text_of, fixed_name, named_write_text, raw_text, value_text,
    ENCODE_HEAD,
};
use crate::emit::text::trimmed;
use crate::layout::{
    fixed_as_u64, ConstantModel, ContainerModel, EnumModel, FieldModel, FixedModel, KindModel,
};
use crate::names::decimal_text;
use crate::roundtrip::{
    lemma_constants_len, lemma_filled_len, lemma_fixed_len, lemma_scalar_bits_bound, stays_inside,
};
use crate::scalar::lemma_width_powers;

verus! {

// ---------------------------------------------------------------------------------------
// Fields
// ---------------------------------------------------------------------------------------

/// The name that the bits of a field go by.
pub open spec fn bits_name(field: FieldModel) -> Seq<char> {
    trimmed(field.ident) + "_bits"@
}

/// The code that writes a field which holds a number.
pub open spec fn number_code(field: FieldModel) -> Command {
    let value = Expr::Field(field.ident);
    let bits = ordered_code(field, raw_code(field, value));
    let name = bits_name(field);
    Command::Block(
        Box::new(
            chain(
                check_code(field, value),
                chain(
                    Command::LetAs(name, Int::U64, bits),
                    write_code(field.bit_offset, field.bit_width, Expr::Name(name)),
                ),
            ),
        ),
    )
}

/// The code that writes one field.
pub open spec fn field_code(field: FieldModel) -> Command {
    match field.kind {
        KindModel::Text(charset, delimiter) => text_write_code(field, charset, delimiter),
        KindModel::Binary => binary_code(field),
        _ => number_code(field),
    }
}

/// A value that every field of numbers accepts.
pub open spec fn harmless(field: FieldModel, value: Datum) -> Datum {
    match field.kind {
        KindModel::Unsigned => Datum::Unsigned(0),
        KindModel::Signed(_) => Datum::Signed(0),
        _ => value,
    }
}

proof fn lemma_bits_spelled(scope: Scope, field: FieldModel, value: Datum)
    requires
        1 <= field.bit_width <= 64,
        !field.kind.borrows(),
        well_typed(field, scope.enums, value),
    ensures
        ({
            let bits = ordered_code(field, raw_code(field, Expr::Field(field.ident)));
            &&& source(bits) == ordered_text(field, raw_text(field, value_text(field.ident)))
            &&& parses(bits)
            &&& strength(bits) >= 2
        }),
{
    let zero = harmless(field, value);
    let with_zero = Scope {
        fields: scope.fields.insert(field.ident, held(field, zero)),
        ..scope
    };
    lemma_width_powers(field.bit_width);
    lemma_type_powers();
    lemma_gives_bits(with_zero, field, zero);
    crate::code::bits::lemma_ordered_source(field, raw_code(field, Expr::Field(field.ident)));
}

proof fn lemma_name_is_not_out(field: FieldModel)
    ensures
        bits_name(field) != "out"@,
{
    reveal_strlit("out");
    reveal_strlit("_bits");
    assert("out"@.len() == 3 && "_bits"@.len() == 5);
}

proof fn lemma_number_spelled(scope: Scope, field: FieldModel, value: Datum)
    requires
        scope.has_bytes("out"@),
        field.valid(scope.enums, scope.bytes("out"@).len() as int),
        !field.kind.borrows(),
        well_typed(field, scope.enums, value),
        script(check_code(field, Expr::Field(field.ident))) == check_text(
            field,
            value_text(field.ident),
        ),
    ensures
        script(number_code(field)) == encode_field_text(field),
{
    let name = bits_name(field);
    let checks = check_code(field, Expr::Field(field.ident));
    let bits = ordered_code(field, raw_code(field, Expr::Field(field.ident)));
    let bind = Command::LetAs(name, Int::U64, bits);
    let write = write_code(field.bit_offset, field.bit_width, Expr::Name(name));
    lemma_bits_spelled(scope, field, value);
    lemma_name_is_not_out(field);
    let local = scope.with(name, Thing::Number(Int::U64, 0));
    step_name(name, local);
    lemma_pow2_pos(field.bit_width as nat);
    lemma_writes_the_run(local, field.bit_offset, field.bit_width, Expr::Name(name), 0);
    step_let_as(name, Int::U64, bits, scope);
    step_chain(bind, write, scope);
    step_chain(checks, chain(bind, write), scope);
    step_block(chain(checks, chain(bind, write)), scope);
    let check = check_text(field, value_text(field.ident));
    let short = trimmed(field.ident);
    let ordered = source(bits);
    let put = write_text(field.bit_offset, field.bit_width, name);
    lemma_number_texts(check, short, ordered, put);
}

proof fn lemma_number_texts(
    check: Seq<char>,
    short: Seq<char>,
    ordered: Seq<char>,
    put: Seq<char>,
)
    ensures
        "{\n"@ + (check + (("let "@ + (short + "_bits"@) + ": "@ + "u64"@ + " = "@ + ordered
            + ";\n"@) + put)) + "}\n"@ == "{\n"@ + check + "let "@ + short + "_bits: u64 = "@
            + ordered + ";\n"@ + put + "}\n"@,
{
    reveal_strlit("_bits");
    reveal_strlit(": ");
    reveal_strlit("u64");
    reveal_strlit(" = ");
    reveal_strlit("_bits: u64 = ");
    assert("{\n"@ + (check + (("let "@ + (short + "_bits"@) + ": "@ + "u64"@ + " = "@ + ordered
        + ";\n"@) + put)) + "}\n"@ =~= "{\n"@ + check + "let "@ + short + "_bits: u64 = "@ + ordered
        + ";\n"@ + put + "}\n"@);
}

/// The source that writes a number refuses exactly the numbers that encoding refuses, and leaves of
/// the others the bits that encoding leaves.
pub proof fn lemma_writes_number(scope: Scope, field: FieldModel, value: Datum)
    requires
        scope.has_bytes("out"@),
        field.valid(scope.enums, scope.bytes("out"@).len() as int),
        !field.kind.borrows(),
        well_typed(field, scope.enums, value),
        stays_inside(field, scope.enums, value),
        scope.fields.contains_key(field.ident),
        scope.fields[field.ident] == held(field, value),
    ensures
        script(number_code(field)) == encode_field_text(field),
        run(number_code(field), scope) == wrote(
            scope,
            field_refusal(field, value),
            field_written(field, scope.enums, value, scope.bytes("out"@)),
        ),
{
    let out = scope.bytes("out"@);
    let name = bits_name(field);
    let raw = raw_code(field, Expr::Field(field.ident));
    let checks = check_code(field, Expr::Field(field.ident));
    let bits = ordered_code(field, raw);
    let bind = Command::LetAs(name, Int::U64, bits);
    let write = write_code(field.bit_offset, field.bit_width, Expr::Name(name));
    lemma_checks(scope, field, value);
    lemma_number_spelled(scope, field, value);
    step_chain(bind, write, scope);
    step_chain(checks, chain(bind, write), scope);
    step_block(chain(checks, chain(bind, write)), scope);
    if field_refusal(field, value) is None {
        let n = scalar_bits(field, scope.enums, value);
        let placed = in_order(field, n);
        lemma_scalar_bits_bound(field, scope.enums, value, out.len() as int);
        lemma_gives_bits(scope, field, value);
        lemma_orders_the_bytes(scope, field, raw, n);
        lemma_type_powers();
        step_let_as(name, Int::U64, bits, scope);
        let inside = scope.with(name, Thing::Number(Int::U64, placed));
        assert(run(bind, scope) == Step::Goes(inside));
        lemma_name_is_not_out(field);
        step_name(name, inside);
        lemma_writes_the_run(
            inside,
            field.bit_offset,
            field.bit_width,
            Expr::Name(name),
            placed as u64,
        );
    }
}

/// The source that writes a field refuses exactly the values that encoding refuses, with the same
/// error and before it has touched the packet, and leaves of the others the packet that encoding
/// leaves.
pub proof fn lemma_writes_the_field(scope: Scope, field: FieldModel, value: Datum)
    requires
        scope.has_bytes("out"@),
        scope.bytes("out"@).len() <= usize::MAX,
        field.valid(scope.enums, scope.bytes("out"@).len() as int),
        well_typed(field, scope.enums, value),
        stays_inside(field, scope.enums, value),
        scope.fields.contains_key(field.ident),
        scope.fields[field.ident] == held(field, value),
    ensures
        script(field_code(field)) == encode_field_text(field),
        run(field_code(field), scope) == wrote(
            scope,
            field_refusal(field, value),
            field_written(field, scope.enums, value, scope.bytes("out"@)),
        ),
{
    match (field.kind, value) {
        (KindModel::Text(charset, delimiter), Datum::Text(text)) => lemma_writes_text(
            scope,
            field,
            charset,
            delimiter,
            text,
        ),
        (KindModel::Binary, Datum::Binary(bytes)) => lemma_writes_binary(scope, field, bytes),
        _ => lemma_writes_number(scope, field, value),
    }
}

// ---------------------------------------------------------------------------------------
// What the caller does not supply
// ---------------------------------------------------------------------------------------

/// The code that writes a number under a name.
pub open spec fn named_code(name: Seq<char>, raw: u64, offset: int, width: int) -> Command {
    Command::Block(
        Box::new(
            chain(
                Command::LetAs(name, Int::U64, Expr::Number(raw as int)),
                write_code(offset, width, Expr::Name(name)),
            ),
        ),
    )
}

/// The source that writes a number under a name writes that number.
pub proof fn lemma_writes_named(
    scope: Scope,
    name: Seq<char>,
    raw: u64,
    offset: int,
    width: int,
)
    requires
        scope.has_bytes("out"@),
        name != "out"@,
        0 <= offset,
        1 <= width <= 64,
        offset + width <= 8 * scope.bytes("out"@).len(),
        raw < pow2(width as nat),
    ensures
        script(named_code(name, raw, offset, width)) == named_write_text(name, raw, offset, width),
        run(named_code(name, raw, offset, width), scope) == Step::Goes(
            scope.with("out"@, Thing::Bytes(written(scope.bytes("out"@), offset, width, raw))),
        ),
{
    let bind = Command::LetAs(name, Int::U64, Expr::Number(raw as int));
    let write = write_code(offset, width, Expr::Name(name));
    let inside = scope.with(name, Thing::Number(Int::U64, raw as int));
    lemma_type_powers();
    step_number(raw as int, scope);
    step_let_as(name, Int::U64, Expr::Number(raw as int), scope);
    step_name(name, inside);
    lemma_writes_the_run(inside, offset, width, Expr::Name(name), raw);
    step_chain(bind, write, scope);
    step_block(chain(bind, write), scope);
    let number = decimal_text(raw as nat);
    let put = write_text(offset, width, name);
    lemma_named_texts(name, number, put);
}

proof fn lemma_named_texts(name: Seq<char>, number: Seq<char>, put: Seq<char>)
    ensures
        "{\n"@ + (("let "@ + name + ": "@ + "u64"@ + " = "@ + number + ";\n"@) + put) + "}\n"@
            == "{\nlet "@ + name + ": u64 = "@ + number + ";\n"@ + put + "}\n"@,
{
    reveal_strlit("{\n");
    reveal_strlit("let ");
    reveal_strlit("{\nlet ");
    reveal_strlit(": ");
    reveal_strlit("u64");
    reveal_strlit(" = ");
    reveal_strlit(": u64 = ");
    assert("{\n"@ + (("let "@ + name + ": "@ + "u64"@ + " = "@ + number + ";\n"@) + put) + "}\n"@
        =~= "{\nlet "@ + name + ": u64 = "@ + number + ";\n"@ + put + "}\n"@);
}

/// The code that writes the first `count` criteria: each of them.
pub open spec fn constants_code(constants: Seq<ConstantModel>, count: nat) -> Command
    decreases count,
{
    if count == 0 {
        Command::Nothing
    } else {
        let constant = constants[count - 1];
        chain(
            constants_code(constants, (count - 1) as nat),
            named_code(
                "criterion_"@ + constant.ident,
                constant.raw,
                constant.bit_offset,
                constant.bit_width,
            ),
        )
    }
}

/// The source that writes the criteria writes the value of each of them.
pub proof fn lemma_writes_constants(scope: Scope, constants: Seq<ConstantModel>, count: nat)
    requires
        scope.has_bytes("out"@),
        count <= constants.len(),
        forall|i: int|
            0 <= i < constants.len() ==> (#[trigger] constants[i]).valid(
                scope.bytes("out"@).len() as int,
            ),
    ensures
        script(constants_code(constants, count)) == encode_constants_text(constants, count),
        run(constants_code(constants, count), scope) == Step::Goes(
            scope.with(
                "out"@,
                Thing::Bytes(constants_written(scope.bytes("out"@), constants, count)),
            ),
        ),
    decreases count,
{
    let out = scope.bytes("out"@);
    step_nothing(scope);
    if count == 0 {
        assert(scope.with("out"@, Thing::Bytes(out)).names =~= scope.names);
    } else {
        let fewer = (count - 1) as nat;
        let constant = constants[fewer as int];
        let name = "criterion_"@ + constant.ident;
        lemma_writes_constants(scope, constants, fewer);
        lemma_constants_len(out, constants, fewer);
        let before = constants_written(out, constants, fewer);
        let inside = scope.with("out"@, Thing::Bytes(before));
        assert(name != "out"@) by {
            reveal_strlit("out");
            reveal_strlit("criterion_");
            assert("out"@.len() == 3 && "criterion_"@.len() == 10);
        }
        lemma_writes_named(
            inside,
            name,
            constant.raw,
            constant.bit_offset,
            constant.bit_width,
        );
        let last = named_code(name, constant.raw, constant.bit_offset, constant.bit_width);
        step_chain(constants_code(constants, fewer), last, scope);
        let after = Thing::Bytes(constants_written(out, constants, count));
        assert(inside.with("out"@, after).names =~= scope.with("out"@, after).names);
    }
}

/// The first `count` stores of bytes.
pub open spec fn stores_code(first: int, bytes: Seq<u8>, count: nat) -> Command
    decreases count,
{
    if count == 0 {
        Command::Nothing
    } else {
        chain(
            stores_code(first, bytes, (count - 1) as nat),
            Command::Store(
                "out"@,
                (first + count - 1) as nat,
                Expr::Number(bytes[count - 1] as int),
            ),
        )
    }
}

proof fn lemma_stores_bytes(scope: Scope, first: int, bytes: Seq<u8>, count: nat)
    requires
        scope.has_bytes("out"@),
        0 <= first,
        count <= bytes.len(),
        first + bytes.len() <= scope.bytes("out"@).len(),
    ensures
        script(stores_code(first, bytes, count)) == byte_stores_text(first, bytes, count),
        run(stores_code(first, bytes, count), scope) == Step::Goes(
            scope.with(
                "out"@,
                Thing::Bytes(spliced(scope.bytes("out"@), first, bytes.take(count as int))),
            ),
        ),
    decreases count,
{
    let out = scope.bytes("out"@);
    let after = spliced(out, first, bytes.take(count as int));
    step_nothing(scope);
    if count == 0 {
        assert(after =~= out);
        assert(scope.with("out"@, Thing::Bytes(out)).names =~= scope.names);
    } else {
        let fewer = (count - 1) as nat;
        let byte = Expr::Number(bytes[fewer as int] as int);
        let at = (first + fewer) as nat;
        lemma_stores_bytes(scope, first, bytes, fewer);
        let before = spliced(out, first, bytes.take(fewer as int));
        let inside = scope.with("out"@, Thing::Bytes(before));
        step_number(bytes[fewer as int] as int, inside);
        step_store("out"@, at, byte, inside);
        step_chain(stores_code(first, bytes, fewer), Command::Store("out"@, at, byte), scope);
        assert(before.update(at as int, bytes[fewer as int]) =~= after);
        assert(inside.with("out"@, Thing::Bytes(after)).names =~= scope.with(
            "out"@,
            Thing::Bytes(after),
        ).names);
        reveal_strlit("out");
        reveal_strlit("[");
        reveal_strlit("out[");
        assert("out["@ =~= "out"@ + "["@);
        let earlier = byte_stores_text(first, bytes, fewer);
        let place = decimal_text(at);
        let number = decimal_text(bytes[fewer as int] as nat);
        assert(earlier + ("out"@ + "["@ + place + "] = "@ + number + ";\n"@) =~= earlier + "out["@
            + place + "] = "@ + number + ";\n"@);
    }
}

/// The code that writes one fixed value.
pub open spec fn one_fixed_code(fixed: FixedModel, index: int) -> Command {
    match fixed_as_u64(fixed) {
        Some(raw) => named_code(
            fixed_name(fixed, index),
            raw,
            fixed.bit_offset,
            fixed.bit_width,
        ),
        None => stores_code(fixed.bit_offset / 8, fixed.value, fixed.value.len()),
    }
}

/// The code that writes the first `count` fixed values: each of them.
pub open spec fn fixed_code(fixed: Seq<FixedModel>, count: nat) -> Command
    decreases count,
{
    if count == 0 {
        Command::Nothing
    } else {
        chain(
            fixed_code(fixed, (count - 1) as nat),
            one_fixed_code(fixed[count - 1], count - 1),
        )
    }
}

proof fn lemma_fixed_name(fixed: FixedModel, index: int)
    ensures
        fixed_name(fixed, index) != "out"@,
{
    reveal_strlit("out");
    reveal_strlit("fixed_");
    reveal_strlit("fixed_value_");
    assert("out"@.len() == 3 && "fixed_"@.len() == 6 && "fixed_value_"@.len() == 12);
}

/// The source that writes the fixed values writes each of them.
pub proof fn lemma_writes_fixed(scope: Scope, fixed: Seq<FixedModel>, count: nat)
    requires
        scope.has_bytes("out"@),
        count <= fixed.len(),
        forall|i: int|
            0 <= i < fixed.len() ==> (#[trigger] fixed[i]).valid(scope.bytes("out"@).len() as int),
    ensures
        script(fixed_code(fixed, count)) == encode_fixed_text(fixed, count),
        run(fixed_code(fixed, count), scope) == Step::Goes(
            scope.with("out"@, Thing::Bytes(fixed_written(scope.bytes("out"@), fixed, count))),
        ),
    decreases count,
{
    let out = scope.bytes("out"@);
    step_nothing(scope);
    if count == 0 {
        assert(scope.with("out"@, Thing::Bytes(out)).names =~= scope.names);
    } else {
        let fewer = (count - 1) as nat;
        let one = fixed[fewer as int];
        lemma_writes_fixed(scope, fixed, fewer);
        lemma_fixed_len(out, fixed, fewer);
        let before = fixed_written(out, fixed, fewer);
        let inside = scope.with("out"@, Thing::Bytes(before));
        match fixed_as_u64(one) {
            Some(raw) => {
                lemma_fixed_name(one, fewer as int);
                lemma_width_powers(one.bit_width);
                lemma_writes_named(
                    inside,
                    fixed_name(one, fewer as int),
                    raw,
                    one.bit_offset,
                    one.bit_width,
                );
            },
            None => {
                lemma_stores_bytes(inside, one.bit_offset / 8, one.value, one.value.len());
                assert(one.value.take(one.value.len() as int) =~= one.value);
            },
        }
        step_chain(fixed_code(fixed, fewer), one_fixed_code(one, fewer as int), scope);
        let after = Thing::Bytes(fixed_written(out, fixed, count));
        assert(inside.with("out"@, after).names =~= scope.with("out"@, after).names);
    }
}

// ---------------------------------------------------------------------------------------
// Packets
// ---------------------------------------------------------------------------------------

/// The code that writes the first `count` fields: each of them.
pub open spec fn fields_code(fields: Seq<FieldModel>, count: nat) -> Command
    decreases count,
{
    if count == 0 {
        Command::Nothing
    } else {
        chain(fields_code(fields, (count - 1) as nat), field_code(fields[count - 1]))
    }
}

/// A function that clears the front of a buffer, fills it, and gives its length; or fails, with
/// nothing written, where the buffer is too short.
pub struct Writer {
    /// How many bytes are written.
    pub len: nat,
    /// What fills them.
    pub body: Command,
}

/// The body of the function.
pub open spec fn writer_source(writer: Writer) -> Seq<char> {
    let len = decimal_text(writer.len);
    "let out: &mut [u8; "@ + len + "] = match out.get_mut(.."@ + len
        + ") {\nSome(slice) => match < &mut [u8; "@ + len
        + "]> ::try_from(slice) {\nOk(array) => array,\nErr(_) => return Err(EncodeError::TooShort { needed: "@
        + len + " }),\n},\nNone => return Err(EncodeError::TooShort { needed: "@ + len
        + " }),\n};\n*out = [0u8; "@ + len + "];\n"@ + script(writer.body) + "Ok("@ + len
        + ")\n}\n"@
}

/// What a function that writes does: what it returns, and the buffer that it leaves.
pub enum Effect {
    /// A length.
    Length(int, Seq<u8>),
    /// An error.
    Error(Refusal, Seq<u8>),
    /// The function has no meaning.
    Stuck,
}

/// What the function does to a buffer, of a packet whose fields are `scope.fields`.
pub open spec fn effect(writer: Writer, scope: Scope, buffer: Seq<u8>) -> Effect {
    if buffer.len() < writer.len {
        Effect::Error(Refusal::TooShort(writer.len as int), buffer)
    } else {
        let clean = Seq::new(writer.len, |j: int| 0u8);
        let rest = buffer.skip(writer.len as int);
        let start = Scope {
            names: Map::<Seq<char>, Thing>::empty().insert("out"@, Thing::Bytes(clean)),
            ..scope
        };
        match run(writer.body, start) {
            Step::Goes(after) => if after.has_bytes("out"@) {
                Effect::Length(writer.len as int, after.bytes("out"@) + rest)
            } else {
                Effect::Stuck
            },
            Step::Stops(refusal, written) => Effect::Error(refusal, written + rest),
            Step::Stuck => Effect::Stuck,
        }
    }
}

/// The function that encodes a packet of a container.
pub open spec fn encode_code(container: ContainerModel) -> Writer {
    Writer {
        len: container.len_bytes as nat,
        body: chain(
            constants_code(container.constants, container.constants.len()),
            chain(
                fixed_code(container.fixed, container.fixed.len()),
                fields_code(container.fields, container.fields.len()),
            ),
        ),
    }
}

proof fn lemma_accepted_before(fields: Seq<FieldModel>, values: Seq<Datum>, from: nat)
    requires
        from <= fields.len(),
    ensures
        from <= accepted_from(fields, values, from) <= fields.len(),
        forall|i: int|
            from <= i < accepted_from(fields, values, from) ==> field_refusal(
                fields[i],
                #[trigger] values[i],
            ) is None,
        accepted_from(fields, values, from) < fields.len() ==> field_refusal(
            fields[accepted_from(fields, values, from) as int],
            values[accepted_from(fields, values, from) as int],
        ) is Some,
    decreases fields.len() - from,
{
    if from < fields.len() && field_refusal(fields[from as int], values[from as int]) is None {
        lemma_accepted_before(fields, values, from + 1);
    }
}

/// What writing the first `count` fields has to come to.
pub open spec fn filled_step(
    scope: Scope,
    container: ContainerModel,
    values: Seq<Datum>,
    count: nat,
) -> Step {
    let accepted = accepted_from(container.fields, values, 0);
    if count <= accepted {
        Step::Goes(
            scope.with("out"@, Thing::Bytes(filled(container, scope.enums, values, count))),
        )
    } else {
        Step::Stops(
            field_refusal(container.fields[accepted as int], values[accepted as int])->Some_0,
            filled(container, scope.enums, values, accepted),
        )
    }
}

proof fn lemma_writes_fields(
    scope: Scope,
    container: ContainerModel,
    values: Seq<Datum>,
    count: nat,
)
    requires
        scope.has_bytes("out"@),
        scope.bytes("out"@) == blank(container),
        container.len_bytes <= usize::MAX,
        container.valid(scope.enums),
        is_packet(container, scope.enums, values),
        is_self(scope, container, scope.enums, values),
        forall|i: int|
            0 <= i < values.len() ==> stays_inside(
                container.fields[i],
                scope.enums,
                #[trigger] values[i],
            ),
        count <= container.fields.len(),
    ensures
        script(fields_code(container.fields, count)) == encode_fields_text(
            container.fields,
            count,
        ),
        run(fields_code(container.fields, count), scope) == filled_step(
            scope,
            container,
            values,
            count,
        ),
    decreases count,
{
    step_nothing(scope);
    let accepted = accepted_from(container.fields, values, 0);
    lemma_accepted_before(container.fields, values, 0);
    if count == 0 {
        assert(scope.with("out"@, Thing::Bytes(blank(container))).names =~= scope.names);
    } else {
        let fewer = (count - 1) as nat;
        let field = container.fields[fewer as int];
        let value = values[fewer as int];
        lemma_writes_fields(scope, container, values, fewer);
        lemma_filled_len(container, scope.enums, values, fewer);
        let before = filled(container, scope.enums, values, fewer);
        let inside = scope.with("out"@, Thing::Bytes(before));
        assert(field.valid(scope.enums, container.len_bytes));
        assert(well_typed(field, scope.enums, value));
        assert(stays_inside(field, scope.enums, value));
        lemma_writes_the_field(inside, field, value);
        step_chain(fields_code(container.fields, fewer), field_code(field), scope);
        if count <= accepted {
            let after = Thing::Bytes(filled(container, scope.enums, values, count));
            assert(inside.with("out"@, after).names =~= scope.with("out"@, after).names);
        }
    }
}

/// What encoding does to a buffer.
pub open spec fn encoded_effect(
    container: ContainerModel,
    enums: Seq<EnumModel>,
    values: Seq<Datum>,
    buffer: Seq<u8>,
) -> Effect {
    if buffer.len() < container.len_bytes {
        Effect::Error(Refusal::TooShort(container.len_bytes), buffer)
    } else {
        let accepted = accepted_from(container.fields, values, 0);
        let left = filled(container, enums, values, accepted) + buffer.skip(container.len_bytes);
        match encode_refusal(container, values) {
            Some(refusal) => Effect::Error(refusal, left),
            None => Effect::Length(container.len_bytes, left),
        }
    }
}

/// The source of `encode` does to every buffer what encoding does to it, for every packet: it
/// returns the same length or the same error, and leaves the same bytes. It never panics.
pub proof fn lemma_encodes_what_it_should(
    container: ContainerModel,
    scope: Scope,
    values: Seq<Datum>,
    buffer: Seq<u8>,
)
    requires
        container.len_bytes <= usize::MAX,
        container.valid(scope.enums),
        is_packet(container, scope.enums, values),
        is_self(scope, container, scope.enums, values),
        forall|i: int|
            0 <= i < values.len() ==> stays_inside(
                container.fields[i],
                scope.enums,
                #[trigger] values[i],
            ),
    ensures
        ENCODE_HEAD@ + writer_source(encode_code(container)) == encode_text_of(container),
        effect(encode_code(container), scope, buffer) == encoded_effect(
            container,
            scope.enums,
            values,
            buffer,
        ),
{
    let writer = encode_code(container);
    let clean = Seq::new(writer.len, |j: int| 0u8);
    let start = Scope {
        names: Map::<Seq<char>, Thing>::empty().insert("out"@, Thing::Bytes(clean)),
        ..scope
    };
    let marked = constants_written(clean, container.constants, container.constants.len());
    let one = start.with("out"@, Thing::Bytes(marked));
    let two = start.with("out"@, Thing::Bytes(blank(container)));
    let first = constants_code(container.constants, container.constants.len());
    let second = fixed_code(container.fixed, container.fixed.len());
    let third = fields_code(container.fields, container.fields.len());
    lemma_writes_constants(start, container.constants, container.constants.len());
    lemma_constants_len(clean, container.constants, container.constants.len());
    lemma_writes_fixed(one, container.fixed, container.fixed.len());
    assert(one.with("out"@, Thing::Bytes(blank(container))).names =~= two.names);
    lemma_writes_fields(two, container, values, container.fields.len());
    step_chain(second, third, one);
    step_chain(first, chain(second, third), start);
    lemma_accepted_before(container.fields, values, 0);
    let accepted = accepted_from(container.fields, values, 0);
    if accepted == container.fields.len() {
        let all = Thing::Bytes(filled(container, scope.enums, values, accepted));
        assert(two.with("out"@, all).bytes("out"@) == all->Bytes_0);
    }
    lemma_encode_texts(
        decimal_text(writer.len),
        script(first),
        script(second),
        script(third),
    );
    assert(encode_text_of(container) == encode_texts(
        decimal_text(writer.len),
        script(first),
        script(second),
        script(third),
    ));
}

/// The source of `encode`, in its parts.
pub open spec fn encode_texts(
    len: Seq<char>,
    first: Seq<char>,
    second: Seq<char>,
    third: Seq<char>,
) -> Seq<char> {
    ENCODE_HEAD@ + "let out: &mut [u8; "@ + len + "] = match out.get_mut(.."@ + len
        + ") {\nSome(slice) => match < &mut [u8; "@ + len
        + "]> ::try_from(slice) {\nOk(array) => array,\nErr(_) => return Err(EncodeError::TooShort { needed: "@
        + len + " }),\n},\nNone => return Err(EncodeError::TooShort { needed: "@ + len
        + " }),\n};\n*out = [0u8; "@ + len + "];\n"@ + first + second + third + "Ok("@ + len
        + ")\n}\n"@
}

proof fn lemma_encode_texts(
    len: Seq<char>,
    first: Seq<char>,
    second: Seq<char>,
    third: Seq<char>,
)
    ensures
        ENCODE_HEAD@ + ("let out: &mut [u8; "@ + len + "] = match out.get_mut(.."@ + len
            + ") {\nSome(slice) => match < &mut [u8; "@ + len
            + "]> ::try_from(slice) {\nOk(array) => array,\nErr(_) => return Err(EncodeError::TooShort { needed: "@
            + len + " }),\n},\nNone => return Err(EncodeError::TooShort { needed: "@ + len
            + " }),\n};\n*out = [0u8; "@ + len + "];\n"@ + (first + (second + third)) + "Ok("@
            + len + ")\n}\n"@) == encode_texts(len, first, second, third),
{
    assert(ENCODE_HEAD@ + ("let out: &mut [u8; "@ + len + "] = match out.get_mut(.."@ + len
        + ") {\nSome(slice) => match < &mut [u8; "@ + len
        + "]> ::try_from(slice) {\nOk(array) => array,\nErr(_) => return Err(EncodeError::TooShort { needed: "@
        + len + " }),\n},\nNone => return Err(EncodeError::TooShort { needed: "@ + len
        + " }),\n};\n*out = [0u8; "@ + len + "];\n"@ + (first + (second + third)) + "Ok("@ + len
        + ")\n}\n"@) =~= encode_texts(len, first, second, third));
}

} // verus!
