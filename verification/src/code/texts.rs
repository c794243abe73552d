//! What the code for a string, or for raw bytes, writes.

use vstd::prelude::*;
use vstd::string::*;
use vstd::utf8::*;

use crate::bits::{mask_value, written};
use crate::code::bits::{
    lemma_cut_keeps, lemma_mask_bounds, lemma_out_is_not_bytes, lemma_type_powers,
    lemma_writes_the_run, write_code,
};
use crate::code::language::{
    binary, call, cast, failure_source, means, parses, run, script, source, step_binary, step_block,
    step_call, step_cast, step_chain, step_const, step_copy, step_ends_early, step_field, step_let,
    step_let_bytes, step_move, step_name, step_not, step_nothing, step_number, step_refuse,
    step_within, strength, Command, Expr, Failure, Int, Method, Operator, Outcome, Scope, Step,
    Thing,
};
use crate::code::strings::{lemma_numbers_listed, lies_in};
use crate::codec::{is_early, spliced, text_refusal, text_written, Refusal};
use crate::emit::encode::{
    binary_block, copy_text, gave_up_text, prefixed_text, refusal_text, room_after, terminated_text,
    terminator_text, text_block, value_text, whole_text,
};
use crate::emit::text::{byte_list, string_literal};
use crate::layout::{delimiter_fits, FieldModel};
use crate::names::decimal_text;
use crate::plan::{DelimiterModel, TextCharset};

verus! {

/// One statement, and another behind it.
pub open spec fn chain(first: Command, second: Command) -> Command {
    Command::Chain(Box::new(first), Box::new(second))
}

/// What a statement that may refuse has to come to.
pub open spec fn wrote(scope: Scope, refusal: Option<Refusal>, after: Seq<u8>) -> Step {
    match refusal {
        Some(refusal) => Step::Stops(refusal, scope.bytes("out"@)),
        None => Step::Goes(scope.with("out"@, Thing::Bytes(after))),
    }
}

/// The length of the local bytes.
pub open spec fn length_code() -> Expr {
    call(Method::Len, Expr::Name("bytes"@))
}

/// The statement that copies the local bytes.
pub open spec fn copy_code(start: int, len: int) -> Command {
    Command::Copy("out"@, start as nat, (start + len) as nat, "bytes"@)
}

/// Where the field's bytes stand for a value that encodes to them.
pub open spec fn has_local(scope: Scope, bytes: Seq<u8>, out: Seq<u8>) -> bool {
    &&& scope.has_bytes("out"@)
    &&& scope.bytes("out"@) == out
    &&& scope.has_bytes("bytes"@)
    &&& scope.bytes("bytes"@) == bytes
}

/// The source of a comparison of the length of the local bytes.
proof fn lemma_length(scope: Scope, bytes: Seq<u8>, out: Seq<u8>, operator: Operator, n: int)
    requires
        has_local(scope, bytes, out),
        0 <= n <= usize::MAX,
        operator is NotEqual || operator is Greater,
    ensures
        ({
            let test = binary(operator, length_code(), Expr::Number(n));
            &&& source(length_code()) == "bytes.len()"@
            &&& parses(length_code())
            &&& means(length_code(), scope) == Outcome::Is(
                Thing::Number(Int::Usize, bytes.len() as int),
            )
            &&& source(test) == "bytes.len()"@ + operator.sign() + decimal_text(n as nat)
            &&& parses(test)
            &&& strength(test) >= 3
            &&& means(test, scope) == Outcome::Is(
                Thing::Flag(
                    if operator is NotEqual {
                        bytes.len() != n
                    } else {
                        bytes.len() > n
                    },
                ),
            )
        }),
{
    step_name("bytes"@, scope);
    step_call(Method::Len, Expr::Name("bytes"@), scope);
    step_number(n, scope);
    step_binary(operator, length_code(), Expr::Number(n), scope);
    reveal_strlit("bytes");
    reveal_strlit(".len()");
    reveal_strlit("bytes.len()");
    assert(source(length_code()) =~= "bytes.len()"@);
}

/// The source of the statement that copies the local bytes.
proof fn lemma_copies(scope: Scope, bytes: Seq<u8>, out: Seq<u8>, start: int, len: int)
    requires
        has_local(scope, bytes, out),
        0 <= start,
        0 <= len,
        start + len <= out.len(),
        bytes.len() <= len,
    ensures
        script(copy_code(start, len)) == copy_text(start, len),
        run(copy_code(start, len), scope) == Step::Goes(
            scope.with("out"@, Thing::Bytes(spliced(out, start, bytes))),
        ),
{
    step_copy("out"@, start as nat, (start + len) as nat, "bytes"@, scope);
    lemma_copy_source(start, len);
}

proof fn lemma_copy_source(start: int, len: int)
    ensures
        script(copy_code(start, len)) == copy_text(start, len),
{
    step_copy("out"@, start as nat, (start + len) as nat, "bytes"@, arbitrary());
    reveal_strlit("for (slot, byte) in ");
    reveal_strlit("out");
    reveal_strlit("[");
    reveal_strlit("for (slot, byte) in out[");
    reveal_strlit("].iter_mut().zip(");
    reveal_strlit("bytes");
    reveal_strlit(") {\n*slot = *byte;\n}\n");
    reveal_strlit("].iter_mut().zip(bytes) {\n*slot = *byte;\n}\n");
    assert(script(copy_code(start, len)) =~= copy_text(start, len));
}

/// The source of a refusal that names a parameter.
proof fn lemma_refuses(test: Expr, error: Seq<char>, name: Seq<char>, refusal: Refusal)
    requires
        failure_source(Failure::Encode(refusal)) == "return Err(EncodeError::"@ + error
            + " { parameter: "@ + string_literal(name) + " })"@,
    ensures
        script(Command::Refuse(test, refusal)) == "if "@ + source(test) + " {\n"@ + refusal_text(
            error,
            name,
        ) + "}\n"@,
{
    step_refuse(test, refusal, arbitrary());
    reveal_strlit(" })");
    reveal_strlit(";\n}\n");
    reveal_strlit(" });\n");
    reveal_strlit("}\n");
    assert(script(Command::Refuse(test, refusal)) =~= "if "@ + source(test) + " {\n"@
        + refusal_text(error, name) + "}\n"@);
}

// ---------------------------------------------------------------------------------------
// Raw bytes
// ---------------------------------------------------------------------------------------

/// The code that writes raw bytes.
pub open spec fn binary_code(field: FieldModel) -> Command {
    let len = field.bit_width / 8;
    let uneven = binary(Operator::NotEqual, length_code(), Expr::Number(len));
    Command::Block(
        Box::new(
            chain(
                Command::LetBytes("bytes"@, Expr::Field(field.ident)),
                chain(
                    Command::Refuse(uneven, Refusal::BinaryLength(field.xtce_name)),
                    copy_code(field.bit_offset / 8, len),
                ),
            ),
        ),
    )
}

/// The source that writes raw bytes copies them to where the field starts, and refuses those that
/// are not exactly as long as the field, as encoding does.
pub proof fn lemma_writes_binary(scope: Scope, field: FieldModel, bytes: Seq<u8>)
    requires
        scope.has_bytes("out"@),
        lies_in(field, scope.bytes("out"@)),
        scope.fields.contains_key(field.ident),
        scope.fields[field.ident] == Thing::Bytes(bytes),
    ensures
        script(binary_code(field)) == binary_block(field, value_text(field.ident)),
        run(binary_code(field), scope) == wrote(
            scope,
            if 8 * bytes.len() == field.bit_width {
                None
            } else {
                Some(Refusal::BinaryLength(field.xtce_name))
            },
            spliced(scope.bytes("out"@), field.bit_offset / 8, bytes),
        ),
{
    let out = scope.bytes("out"@);
    let len = field.bit_width / 8;
    let start = field.bit_offset / 8;
    let uneven = binary(Operator::NotEqual, length_code(), Expr::Number(len));
    let refusal = Refusal::BinaryLength(field.xtce_name);
    let first = Command::LetBytes("bytes"@, Expr::Field(field.ident));
    let second = Command::Refuse(uneven, refusal);
    let third = copy_code(start, len);
    let inside = scope.with("bytes"@, Thing::Bytes(bytes));
    lemma_out_is_not_bytes();
    step_field(field.ident, scope);
    step_let_bytes("bytes"@, Expr::Field(field.ident), scope);
    lemma_length(inside, bytes, out, Operator::NotEqual, len);
    lemma_refuses(uneven, "BinaryLength"@, field.xtce_name, refusal);
    step_refuse(uneven, refusal, inside);
    if bytes.len() == len {
        lemma_copies(inside, bytes, out, start, len);
    }
    lemma_copy_source(start, len);
    step_chain(second, third, inside);
    step_chain(first, chain(second, third), scope);
    step_block(chain(first, chain(second, third)), scope);
    reveal_strlit("{\n");
    reveal_strlit("let ");
    reveal_strlit("bytes");
    reveal_strlit(": &[u8] = ");
    reveal_strlit(";\n");
    reveal_strlit("if ");
    reveal_strlit("bytes.len()");
    reveal_strlit(" != ");
    reveal_strlit("{\nlet bytes: &[u8] = ");
    reveal_strlit(";\nif bytes.len() != ");
    assert(script(binary_code(field)) =~= binary_block(field, value_text(field.ident)));
}

// ---------------------------------------------------------------------------------------
// Strings
// ---------------------------------------------------------------------------------------

/// The code that writes a string which is its whole buffer.
pub open spec fn whole_code(start: int, len: int, value: Expr, name: Seq<char>) -> Command {
    let uneven = binary(Operator::NotEqual, length_code(), Expr::Number(len));
    chain(
        Command::Let("bytes"@, call(Method::AsBytes, value)),
        chain(Command::Refuse(uneven, Refusal::TextLength(name)), copy_code(start, len)),
    )
}

/// What the statements that write a string have to do: stop with a refusal, or leave these bytes.
pub open spec fn leaves(
    code: Command,
    scope: Scope,
    refusal: Option<Refusal>,
    after: Seq<u8>,
) -> bool {
    match refusal {
        Some(refusal) => run(code, scope) == Step::Stops(refusal, scope.bytes("out"@)),
        None => run(code, scope) matches Step::Goes(end) && end.has_bytes("out"@) && end.bytes(
            "out"@,
        ) == after,
    }
}

proof fn lemma_writes_whole(scope: Scope, field: FieldModel, text: Seq<char>)
    requires
        scope.has_bytes("out"@),
        lies_in(field, scope.bytes("out"@)),
        scope.fields.contains_key(field.ident),
        scope.fields[field.ident] == Thing::Text(text),
    ensures
        ({
            let start = field.bit_offset / 8;
            let len = field.bit_width / 8;
            let code = whole_code(start, len, Expr::Field(field.ident), field.xtce_name);
            &&& script(code) == whole_text(start, len, value_text(field.ident), field.xtce_name)
            &&& leaves(
                code,
                scope,
                text_refusal(field, TextCharset::Utf8, DelimiterModel::WholeBuffer, text),
                text_written(field, DelimiterModel::WholeBuffer, text, scope.bytes("out"@)),
            )
        }),
{
    let start = field.bit_offset / 8;
    let len = field.bit_width / 8;
    let name = field.xtce_name;
    let value = Expr::Field(field.ident);
    let out = scope.bytes("out"@);
    let bytes = encode_utf8(text);
    let uneven = binary(Operator::NotEqual, length_code(), Expr::Number(len));
    let refusal = Refusal::TextLength(name);
    let first = Command::Let("bytes"@, call(Method::AsBytes, value));
    let second = Command::Refuse(uneven, refusal);
    let third = copy_code(start, len);
    let inside = scope.with("bytes"@, Thing::Bytes(bytes));
    lemma_out_is_not_bytes();
    step_field(field.ident, scope);
    step_call(Method::AsBytes, value, scope);
    step_let("bytes"@, call(Method::AsBytes, value), scope);
    lemma_length(inside, bytes, out, Operator::NotEqual, len);
    lemma_refuses(uneven, "TextLength"@, name, refusal);
    step_refuse(uneven, refusal, inside);
    if bytes.len() == len {
        lemma_copies(inside, bytes, out, start, len);
    }
    lemma_copy_source(start, len);
    step_chain(second, third, inside);
    step_chain(first, chain(second, third), scope);
    reveal_strlit("let ");
    reveal_strlit("bytes");
    reveal_strlit(" = ");
    reveal_strlit("let bytes = ");
    reveal_strlit(".as_bytes()");
    reveal_strlit(";\n");
    reveal_strlit("if ");
    reveal_strlit("bytes.len()");
    reveal_strlit(" != ");
    reveal_strlit(".as_bytes();\nif bytes.len() != ");
    assert(script(whole_code(start, len, value, name)) =~= whole_text(
        start,
        len,
        value_text(field.ident),
        name,
    ));
}

/// The first `count` stores of a terminator.
pub open spec fn terminator_code(count: nat) -> Command
    decreases count,
{
    if count == 0 {
        Command::Nothing
    } else {
        chain(
            terminator_code((count - 1) as nat),
            Command::Move("slot"@, (count - 1) as nat, "TERMINATOR"@, (count - 1) as nat),
        )
    }
}

/// The code that writes a string and the terminator behind it.
pub open spec fn terminated_write_code(
    start: int,
    len: int,
    terminator: Seq<u8>,
    value: Expr,
    name: Seq<char>,
) -> Command {
    let room = room_after(len, terminator.len() as int);
    let long = binary(Operator::Greater, length_code(), Expr::Number(room));
    let early = Expr::EndsEarly("bytes"@, "TERMINATOR"@);
    let behind = binary(Operator::Plus, Expr::Number(start), length_code());
    chain(
        Command::Const("TERMINATOR"@, terminator),
        chain(
            Command::Let("bytes"@, call(Method::AsBytes, value)),
            chain(
                Command::Refuse(long, Refusal::TextLength(name)),
                chain(
                    Command::Refuse(early, Refusal::EmbeddedTerminator(name)),
                    chain(
                        copy_code(start, len),
                        chain(
                            Command::Let("at"@, behind),
                            Command::Within(
                                "out"@,
                                "at"@,
                                terminator.len(),
                                "slot"@,
                                Box::new(terminator_code(terminator.len())),
                                Refusal::TextLength(name),
                            ),
                        ),
                    ),
                ),
            ),
        ),
    )
}

/// The names that the code for a string uses are different.
pub proof fn lemma_locals_differ()
    ensures
        "out"@ != "bytes"@,
        "out"@ != "TERMINATOR"@,
        "bytes"@ != "TERMINATOR"@,
        "out"@ != "at"@,
        "bytes"@ != "at"@,
        "TERMINATOR"@ != "at"@,
        "slot"@ != "out"@,
        "slot"@ != "TERMINATOR"@,
        "out"@ != "length_bits"@,
        "bytes"@ != "length_bits"@,
{
    reveal_strlit("out");
    reveal_strlit("bytes");
    reveal_strlit("TERMINATOR");
    reveal_strlit("at");
    reveal_strlit("slot");
    reveal_strlit("length_bits");
    assert("out"@.len() == 3 && "bytes"@.len() == 5 && "TERMINATOR"@.len() == 10 && "at"@.len()
        == 2 && "slot"@.len() == 4 && "length_bits"@.len() == 11);
}

proof fn lemma_terminator_source(count: nat)
    ensures
        script(terminator_code(count)) == terminator_text(count),
    decreases count,
{
    let scope = arbitrary::<Scope>();
    step_nothing(scope);
    if count > 0 {
        let at = (count - 1) as nat;
        lemma_terminator_source(at);
        step_move("slot"@, at, "TERMINATOR"@, at, scope);
        step_chain(
            terminator_code(at),
            Command::Move("slot"@, at, "TERMINATOR"@, at),
            scope,
        );
        reveal_strlit("slot");
        reveal_strlit("[");
        reveal_strlit("slot[");
        reveal_strlit("] = ");
        reveal_strlit("TERMINATOR");
        reveal_strlit("] = TERMINATOR[");
        assert(script(terminator_code(count)) =~= terminator_text(count));
    }
}

proof fn lemma_stores_terminator(scope: Scope, terminator: Seq<u8>, count: nat)
    requires
        scope.has_bytes("slot"@),
        scope.has_bytes("TERMINATOR"@),
        scope.bytes("TERMINATOR"@) == terminator,
        scope.bytes("slot"@).len() == terminator.len(),
        count <= terminator.len(),
    ensures
        run(terminator_code(count), scope) is Goes,
        ({
            let after = run(terminator_code(count), scope)->Goes_0;
            &&& after.has_bytes("slot"@)
            &&& after.has_bytes("TERMINATOR"@)
            &&& after.bytes("TERMINATOR"@) == terminator
            &&& after.bytes("slot"@).len() == terminator.len()
            &&& forall|i: int| 0 <= i < count ==> after.bytes("slot"@)[i] == terminator[i]
        }),
    decreases count,
{
    lemma_locals_differ();
    step_nothing(scope);
    if count > 0 {
        let at = (count - 1) as nat;
        lemma_stores_terminator(scope, terminator, at);
        let before = run(terminator_code(at), scope)->Goes_0;
        step_move("slot"@, at, "TERMINATOR"@, at, before);
        step_chain(
            terminator_code(at),
            Command::Move("slot"@, at, "TERMINATOR"@, at),
            scope,
        );
    }
}

#[verifier::rlimit(30)]
proof fn lemma_writes_terminated(
    scope: Scope,
    field: FieldModel,
    terminator: Seq<u8>,
    text: Seq<char>,
)
    requires
        scope.has_bytes("out"@),
        scope.bytes("out"@).len() <= usize::MAX,
        lies_in(field, scope.bytes("out"@)),
        delimiter_fits(DelimiterModel::TerminationChar(terminator), field.bit_width),
        scope.fields.contains_key(field.ident),
        scope.fields[field.ident] == Thing::Text(text),
    ensures
        leaves(
            terminated_write_code(
                field.bit_offset / 8,
                field.bit_width / 8,
                terminator,
                Expr::Field(field.ident),
                field.xtce_name,
            ),
            scope,
            text_refusal(
                field,
                TextCharset::Utf8,
                DelimiterModel::TerminationChar(terminator),
                text,
            ),
            text_written(
                field,
                DelimiterModel::TerminationChar(terminator),
                text,
                scope.bytes("out"@),
            ),
        ),
{
    let start = field.bit_offset / 8;
    let len = field.bit_width / 8;
    let name = field.xtce_name;
    let value = Expr::Field(field.ident);
    let out = scope.bytes("out"@);
    let bytes = encode_utf8(text);
    let room = room_after(len, terminator.len() as int);
    let long = binary(Operator::Greater, length_code(), Expr::Number(room));
    let early = Expr::EndsEarly("bytes"@, "TERMINATOR"@);
    let behind = binary(Operator::Plus, Expr::Number(start), length_code());
    let c1 = Command::Const("TERMINATOR"@, terminator);
    let c2 = Command::Let("bytes"@, call(Method::AsBytes, value));
    let c3 = Command::Refuse(long, Refusal::TextLength(name));
    let c4 = Command::Refuse(early, Refusal::EmbeddedTerminator(name));
    let c5 = copy_code(start, len);
    let c6 = Command::Let("at"@, behind);
    let inner = terminator_code(terminator.len());
    let c7 = Command::Within(
        "out"@,
        "at"@,
        terminator.len(),
        "slot"@,
        Box::new(inner),
        Refusal::TextLength(name),
    );
    lemma_locals_differ();
    let s1 = scope.with("TERMINATOR"@, Thing::Bytes(terminator));
    let s2 = s1.with("bytes"@, Thing::Bytes(bytes));
    step_const("TERMINATOR"@, terminator, scope);
    step_field(field.ident, s1);
    step_call(Method::AsBytes, value, s1);
    step_let("bytes"@, call(Method::AsBytes, value), s1);
    lemma_length(s2, bytes, out, Operator::Greater, room);
    step_refuse(long, Refusal::TextLength(name), s2);
    step_ends_early("bytes"@, "TERMINATOR"@, s2);
    step_refuse(early, Refusal::EmbeddedTerminator(name), s2);
    step_chain(c1, chain(c2, chain(c3, chain(c4, chain(c5, chain(c6, c7))))), scope);
    step_chain(c2, chain(c3, chain(c4, chain(c5, chain(c6, c7)))), s1);
    step_chain(c3, chain(c4, chain(c5, chain(c6, c7))), s2);
    step_chain(c4, chain(c5, chain(c6, c7)), s2);
    if bytes.len() <= room && !is_early(bytes, terminator) {
        let copied = spliced(out, start, bytes);
        let s3 = s2.with("out"@, Thing::Bytes(copied));
        lemma_copies(s2, bytes, out, start, len);
        step_chain(c5, chain(c6, c7), s2);
        lemma_length(s3, bytes, copied, Operator::Greater, room);
        step_number(start, s3);
        step_binary(Operator::Plus, Expr::Number(start), length_code(), s3);
        let at = start + bytes.len();
        assert(Int::Usize.holds(at));
        assert(means(behind, s3) == Outcome::Is(Thing::Number(Int::Usize, at)));
        step_let("at"@, behind, s3);
        let s4 = s3.with("at"@, Thing::Number(Int::Usize, at));
        step_chain(c6, c7, s3);
        let n = terminator.len();
        let part = copied.subrange(at, at + n);
        let s5 = s4.with("slot"@, Thing::Bytes(part));
        assert(s4.bytes("out"@) == copied);
        lemma_stores_terminator(s5, terminator, n);
        step_within("out"@, "at"@, n, "slot"@, inner, Refusal::TextLength(name), s4);
        let s6 = run(inner, s5)->Goes_0;
        assert(s6.bytes("slot"@) =~= terminator);
    }
}

proof fn lemma_terminated_source(
    start: int,
    len: int,
    terminator: Seq<u8>,
    value: Expr,
    name: Seq<char>,
)
    requires
        0 <= start,
    ensures
        script(terminated_write_code(start, len, terminator, value, name)) == terminated_text(
            start,
            len,
            terminator,
            source(value),
            name,
        ),
{
    let scope = arbitrary::<Scope>();
    let room = room_after(len, terminator.len() as int);
    let long = binary(Operator::Greater, length_code(), Expr::Number(room));
    let early = Expr::EndsEarly("bytes"@, "TERMINATOR"@);
    let behind = binary(Operator::Plus, Expr::Number(start), length_code());
    let c1 = Command::Const("TERMINATOR"@, terminator);
    let c2 = Command::Let("bytes"@, call(Method::AsBytes, value));
    let c3 = Command::Refuse(long, Refusal::TextLength(name));
    let c4 = Command::Refuse(early, Refusal::EmbeddedTerminator(name));
    let c5 = copy_code(start, len);
    let c6 = Command::Let("at"@, behind);
    let inner = terminator_code(terminator.len());
    let c7 = Command::Within(
        "out"@,
        "at"@,
        terminator.len(),
        "slot"@,
        Box::new(inner),
        Refusal::TextLength(name),
    );
    step_const("TERMINATOR"@, terminator, scope);
    step_call(Method::AsBytes, value, scope);
    step_let("bytes"@, call(Method::AsBytes, value), scope);
    step_name("bytes"@, scope);
    step_call(Method::Len, Expr::Name("bytes"@), scope);
    step_number(room, scope);
    step_binary(Operator::Greater, length_code(), Expr::Number(room), scope);
    lemma_refuses(long, "TextLength"@, name, Refusal::TextLength(name));
    step_ends_early("bytes"@, "TERMINATOR"@, scope);
    lemma_refuses(early, "EmbeddedTerminator"@, name, Refusal::EmbeddedTerminator(name));
    lemma_copy_source(start, len);
    step_number(start, scope);
    step_binary(Operator::Plus, Expr::Number(start), length_code(), scope);
    step_let("at"@, behind, scope);
    lemma_terminator_source(terminator.len());
    step_within("out"@, "at"@, terminator.len(), "slot"@, inner, Refusal::TextLength(name), scope);
    step_chain(c6, c7, scope);
    step_chain(c5, chain(c6, c7), scope);
    step_chain(c4, chain(c5, chain(c6, c7)), scope);
    step_chain(c3, chain(c4, chain(c5, chain(c6, c7))), scope);
    step_chain(c2, chain(c3, chain(c4, chain(c5, chain(c6, c7)))), scope);
    step_chain(c1, chain(c2, chain(c3, chain(c4, chain(c5, chain(c6, c7))))), scope);
    lemma_numbers_listed(terminator);
    let list = byte_list(terminator);
    let text = source(value);
    let too_long = refusal_text("TextLength"@, name);
    let found = refusal_text("EmbeddedTerminator"@, name);
    let copy = copy_text(start, len);
    let number = decimal_text(start as nat);
    let count = decimal_text(terminator.len());
    let stores = terminator_text(terminator.len());
    let failure = failure_source(Failure::Encode(Refusal::TextLength(name)));
    let most = decimal_text(room as nat);
    lemma_terminated_front(list, text, most, too_long, found);
    lemma_terminated_back(number, count, stores, failure);
    assert(failure + ",\n"@ =~= gave_up_text(name)) by {
        reveal_strlit("return Err(EncodeError::");
        reveal_strlit("TextLength");
        reveal_strlit(" { parameter: ");
        reveal_strlit(" })");
        reveal_strlit(",\n");
        reveal_strlit("return Err(EncodeError::TextLength { parameter: ");
        reveal_strlit(" }),\n");
    }
    lemma_regroup_seven(
        script(c1),
        script(c2),
        script(c3),
        script(c4),
        script(c5),
        script(c6),
        script(c7),
    );
    let front = script(c1) + script(c2) + script(c3) + script(c4);
    lemma_regroup_nine(
        front + copy,
        "let at = "@,
        number,
        " + bytes.len();\nmatch out.get_mut(at..at + "@,
        count,
        ") {\nSome(slot) => {\n"@,
        stores,
        "}\nNone => "@,
        gave_up_text(name),
        "}\n"@,
    );
}

proof fn lemma_regroup_seven(
    a: Seq<char>,
    b: Seq<char>,
    c: Seq<char>,
    d: Seq<char>,
    e: Seq<char>,
    f: Seq<char>,
    g: Seq<char>,
)
    ensures
        a + (b + (c + (d + (e + (f + g))))) == (a + b + c + d) + e + (f + g),
{
    assert(a + (b + (c + (d + (e + (f + g))))) =~= (a + b + c + d) + e + (f + g));
}

proof fn lemma_regroup_nine(
    x: Seq<char>,
    a: Seq<char>,
    b: Seq<char>,
    c: Seq<char>,
    d: Seq<char>,
    e: Seq<char>,
    f: Seq<char>,
    g: Seq<char>,
    h: Seq<char>,
    i: Seq<char>,
)
    ensures
        x + (a + b + c + d + e + f + g + h + i) == x + a + b + c + d + e + f + g + h + i,
{
    assert(x + (a + b + c + d + e + f + g + h + i) =~= x + a + b + c + d + e + f + g + h + i);
}

proof fn lemma_terminated_front(
    list: Seq<char>,
    value: Seq<char>,
    most: Seq<char>,
    long: Seq<char>,
    early: Seq<char>,
)
    ensures
        ("const "@ + "TERMINATOR"@ + ": &[u8] = &["@ + list + "];\n"@) + ("let "@ + "bytes"@
            + " = "@ + (value + ".as_bytes()"@) + ";\n"@) + ("if "@ + (("bytes"@ + ".len()"@)
            + " > "@ + most) + " {\n"@ + long + "}\n"@) + ("if "@ + ("ends_early("@ + "bytes"@
            + ", "@ + "TERMINATOR"@ + ")"@) + " {\n"@ + early + "}\n"@)
            == "const TERMINATOR: &[u8] = &["@ + list + "];\nlet bytes = "@ + value
            + ".as_bytes();\nif bytes.len() > "@ + most + " {\n"@ + long
            + "}\nif ends_early(bytes, TERMINATOR) {\n"@ + early + "}\n"@,
{
    reveal_strlit("const ");
    reveal_strlit("TERMINATOR");
    reveal_strlit(": &[u8] = &[");
    reveal_strlit("];\n");
    reveal_strlit("let ");
    reveal_strlit("bytes");
    reveal_strlit(" = ");
    reveal_strlit(".as_bytes()");
    reveal_strlit(";\n");
    reveal_strlit("if ");
    reveal_strlit(".len()");
    reveal_strlit(" > ");
    reveal_strlit("}\n");
    reveal_strlit("ends_early(");
    reveal_strlit(", ");
    reveal_strlit(")");
    reveal_strlit(" {\n");
    reveal_strlit("const TERMINATOR: &[u8] = &[");
    reveal_strlit("];\nlet bytes = ");
    reveal_strlit(".as_bytes();\nif bytes.len() > ");
    reveal_strlit("}\nif ends_early(bytes, TERMINATOR) {\n");
    assert(("const "@ + "TERMINATOR"@ + ": &[u8] = &["@ + list + "];\n"@) + ("let "@ + "bytes"@
        + " = "@ + (value + ".as_bytes()"@) + ";\n"@) + ("if "@ + (("bytes"@ + ".len()"@) + " > "@
        + most) + " {\n"@ + long + "}\n"@) + ("if "@ + ("ends_early("@ + "bytes"@ + ", "@
        + "TERMINATOR"@ + ")"@) + " {\n"@ + early + "}\n"@) =~= "const TERMINATOR: &[u8] = &["@
        + list + "];\nlet bytes = "@ + value + ".as_bytes();\nif bytes.len() > "@ + most + " {\n"@
        + long + "}\nif ends_early(bytes, TERMINATOR) {\n"@ + early + "}\n"@);
}

proof fn lemma_terminated_back(
    start: Seq<char>,
    count: Seq<char>,
    stores: Seq<char>,
    failure: Seq<char>,
)
    ensures
        ("let "@ + "at"@ + " = "@ + (start + " + "@ + ("bytes"@ + ".len()"@)) + ";\n"@) + ("match "@
            + "out"@ + ".get_mut("@ + "at"@ + ".."@ + "at"@ + " + "@ + count + ") {\nSome("@
            + "slot"@ + ") => {\n"@ + stores + "}\nNone => "@ + failure + ",\n}\n"@)
            == "let at = "@ + start + " + bytes.len();\nmatch out.get_mut(at..at + "@ + count
            + ") {\nSome(slot) => {\n"@ + stores + "}\nNone => "@ + (failure + ",\n"@) + "}\n"@,
{
    reveal_strlit("let ");
    reveal_strlit("at");
    reveal_strlit(" = ");
    reveal_strlit(" + ");
    reveal_strlit("bytes");
    reveal_strlit(".len()");
    reveal_strlit(";\n");
    reveal_strlit("match ");
    reveal_strlit("out");
    reveal_strlit(".get_mut(");
    reveal_strlit("..");
    reveal_strlit(") {\nSome(");
    reveal_strlit("slot");
    reveal_strlit(") => {\n");
    reveal_strlit(",\n}\n");
    reveal_strlit(",\n");
    reveal_strlit("}\n");
    reveal_strlit("let at = ");
    reveal_strlit(" + bytes.len();\nmatch out.get_mut(at..at + ");
    reveal_strlit(") {\nSome(slot) => {\n");
    assert(("let "@ + "at"@ + " = "@ + (start + " + "@ + ("bytes"@ + ".len()"@)) + ";\n"@) + (
    "match "@ + "out"@ + ".get_mut("@ + "at"@ + ".."@ + "at"@ + " + "@ + count + ") {\nSome("@
        + "slot"@ + ") => {\n"@ + stores + "}\nNone => "@ + failure + ",\n}\n"@) =~= "let at = "@
        + start + " + bytes.len();\nmatch out.get_mut(at..at + "@ + count
        + ") {\nSome(slot) => {\n"@ + stores + "}\nNone => "@ + (failure + ",\n"@) + "}\n"@);
}

/// The code that writes a string and its length, in bits, in front of it.
pub open spec fn prefixed_code(
    offset: int,
    start: int,
    len: int,
    size: int,
    value: Expr,
    name: Seq<char>,
) -> Command {
    let room = len - size / 8;
    let long = binary(Operator::Greater, length_code(), Expr::Number(room));
    let local = Expr::Name("length_bits"@);
    let bits = binary(Operator::Times, cast(length_code(), Int::U64), Expr::Number(8));
    let many = binary(Operator::Greater, local, Expr::Number(mask_value(size)));
    chain(
        Command::Let("bytes"@, call(Method::AsBytes, value)),
        chain(
            Command::Refuse(long, Refusal::TextLength(name)),
            chain(
                Command::Let("length_bits"@, bits),
                chain(
                    Command::Refuse(many, Refusal::TextLength(name)),
                    chain(
                        write_code(offset, size, local),
                        copy_code(start + size / 8, room),
                    ),
                ),
            ),
        ),
    )
}

#[verifier::rlimit(30)]
proof fn lemma_writes_prefixed(scope: Scope, field: FieldModel, size: u32, text: Seq<char>)
    requires
        scope.has_bytes("out"@),
        lies_in(field, scope.bytes("out"@)),
        delimiter_fits(DelimiterModel::LeadingSize(size), field.bit_width),
        scope.fields.contains_key(field.ident),
        scope.fields[field.ident] == Thing::Text(text),
    ensures
        leaves(
            prefixed_code(
                field.bit_offset,
                field.bit_offset / 8,
                field.bit_width / 8,
                size as int,
                Expr::Field(field.ident),
                field.xtce_name,
            ),
            scope,
            text_refusal(field, TextCharset::Utf8, DelimiterModel::LeadingSize(size), text),
            text_written(
                field,
                DelimiterModel::LeadingSize(size),
                text,
                scope.bytes("out"@),
            ),
        ),
{
    let offset = field.bit_offset;
    let start = offset / 8;
    let len = field.bit_width / 8;
    let name = field.xtce_name;
    let value = Expr::Field(field.ident);
    let out = scope.bytes("out"@);
    let bytes = encode_utf8(text);
    let width = size as int;
    let room = len - width / 8;
    let long = binary(Operator::Greater, length_code(), Expr::Number(room));
    let local = Expr::Name("length_bits"@);
    let count = cast(length_code(), Int::U64);
    let bits = binary(Operator::Times, count, Expr::Number(8));
    let many = binary(Operator::Greater, local, Expr::Number(mask_value(width)));
    let c1 = Command::Let("bytes"@, call(Method::AsBytes, value));
    let c2 = Command::Refuse(long, Refusal::TextLength(name));
    let c3 = Command::Let("length_bits"@, bits);
    let c4 = Command::Refuse(many, Refusal::TextLength(name));
    let c5 = write_code(offset, width, local);
    let c6 = copy_code(start + width / 8, room);
    lemma_locals_differ();
    let s1 = scope.with("bytes"@, Thing::Bytes(bytes));
    step_field(field.ident, scope);
    step_call(Method::AsBytes, value, scope);
    step_let("bytes"@, call(Method::AsBytes, value), scope);
    lemma_length(s1, bytes, out, Operator::Greater, room);
    step_refuse(long, Refusal::TextLength(name), s1);
    step_chain(c1, chain(c2, chain(c3, chain(c4, chain(c5, c6)))), scope);
    step_chain(c2, chain(c3, chain(c4, chain(c5, c6))), s1);
    if bytes.len() <= room {
        let n = 8 * bytes.len();
        let s2 = s1.with("length_bits"@, Thing::Number(Int::U64, n as int));
        lemma_type_powers();
        lemma_mask_bounds(width);
        lemma_cut_keeps(Int::U64, bytes.len() as int);
        step_cast(length_code(), Int::U64, s1);
        step_number(8, s1);
        step_binary(Operator::Times, count, Expr::Number(8), s1);
        assert(means(bits, s1) == Outcome::Is(Thing::Number(Int::U64, n as int)));
        step_let("length_bits"@, bits, s1);
        step_name("length_bits"@, s2);
        step_number(mask_value(width), s2);
        step_binary(Operator::Greater, local, Expr::Number(mask_value(width)), s2);
        step_refuse(many, Refusal::TextLength(name), s2);
        step_chain(c3, chain(c4, chain(c5, c6)), s1);
        step_chain(c4, chain(c5, c6), s2);
        if n <= mask_value(width) {
            lemma_writes_the_run(s2, offset, width, local, n as u64);
            let marked = written(out, offset, width, n as u64);
            let s3 = s2.with("out"@, Thing::Bytes(marked));
            step_chain(c5, c6, s2);
            lemma_copies(s3, bytes, marked, start + width / 8, room);
        }
    }
}

proof fn lemma_prefixed_source(
    scope: Scope,
    offset: int,
    start: int,
    len: int,
    size: int,
    value: Expr,
    name: Seq<char>,
)
    requires
        0 <= offset,
        1 <= size <= 64,
        size / 8 <= len,
        scope.has_bytes("out"@),
        offset + size <= 8 * scope.bytes("out"@).len(),
    ensures
        script(prefixed_code(offset, start, len, size, value, name)) == prefixed_text(
            offset,
            start,
            len,
            size,
            source(value),
            name,
        ),
{
    let room = len - size / 8;
    let long = binary(Operator::Greater, length_code(), Expr::Number(room));
    let local = Expr::Name("length_bits"@);
    let count = cast(length_code(), Int::U64);
    let bits = binary(Operator::Times, count, Expr::Number(8));
    let many = binary(Operator::Greater, local, Expr::Number(mask_value(size)));
    let c1 = Command::Let("bytes"@, call(Method::AsBytes, value));
    let c2 = Command::Refuse(long, Refusal::TextLength(name));
    let c3 = Command::Let("length_bits"@, bits);
    let c4 = Command::Refuse(many, Refusal::TextLength(name));
    let c5 = write_code(offset, size, local);
    let c6 = copy_code(start + size / 8, room);
    step_call(Method::AsBytes, value, scope);
    step_let("bytes"@, call(Method::AsBytes, value), scope);
    step_name("bytes"@, scope);
    step_call(Method::Len, Expr::Name("bytes"@), scope);
    step_number(room, scope);
    step_binary(Operator::Greater, length_code(), Expr::Number(room), scope);
    lemma_refuses(long, "TextLength"@, name, Refusal::TextLength(name));
    step_cast(length_code(), Int::U64, scope);
    step_number(8, scope);
    step_binary(Operator::Times, count, Expr::Number(8), scope);
    step_let("length_bits"@, bits, scope);
    step_name("length_bits"@, scope);
    lemma_mask_bounds(size);
    step_number(mask_value(size), scope);
    step_binary(Operator::Greater, local, Expr::Number(mask_value(size)), scope);
    lemma_refuses(many, "TextLength"@, name, Refusal::TextLength(name));
    let filled = scope.with("length_bits"@, Thing::Number(Int::U64, 0));
    lemma_locals_differ();
    step_name("length_bits"@, filled);
    vstd::arithmetic::power2::lemma_pow2_pos(size as nat);
    lemma_writes_the_run(filled, offset, size, local, 0);
    lemma_copy_source(start + size / 8, room);
    step_chain(c5, c6, scope);
    step_chain(c4, chain(c5, c6), scope);
    step_chain(c3, chain(c4, chain(c5, c6)), scope);
    step_chain(c2, chain(c3, chain(c4, chain(c5, c6))), scope);
    step_chain(c1, chain(c2, chain(c3, chain(c4, chain(c5, c6)))), scope);
    assert(decimal_text(8) == "8"@) by {
        reveal_strlit("8");
        reveal_with_fuel(decimal_text, 2);
        assert(decimal_text(8) =~= "8"@);
    }
    let refusal = refusal_text("TextLength"@, name);
    lemma_prefixed_front(
        source(value),
        decimal_text(room as nat),
        refusal,
        decimal_text(mask_value(size) as nat),
    );
    lemma_regroup_six(script(c1), script(c2), script(c3), script(c4), script(c5), script(c6));
}

proof fn lemma_regroup_six(
    a: Seq<char>,
    b: Seq<char>,
    c: Seq<char>,
    d: Seq<char>,
    e: Seq<char>,
    f: Seq<char>,
)
    ensures
        a + (b + (c + (d + (e + f)))) == (a + b + c + d) + e + f,
{
    assert(a + (b + (c + (d + (e + f)))) =~= (a + b + c + d) + e + f);
}

proof fn lemma_prefixed_front(
    value: Seq<char>,
    room: Seq<char>,
    refusal: Seq<char>,
    mask: Seq<char>,
)
    ensures
        ("let "@ + "bytes"@ + " = "@ + (value + ".as_bytes()"@) + ";\n"@) + ("if "@ + (("bytes"@
            + ".len()"@) + " > "@ + room) + " {\n"@ + refusal + "}\n"@) + ("let "@ + "length_bits"@
            + " = "@ + ((("bytes"@ + ".len()"@) + " as "@ + "u64"@) + " * "@ + "8"@) + ";\n"@) + (
        "if "@ + ("length_bits"@ + " > "@ + mask) + " {\n"@ + refusal + "}\n"@)
            == "let bytes = "@ + value + ".as_bytes();\nif bytes.len() > "@ + room + " {\n"@
            + refusal + "}\nlet length_bits = bytes.len() as u64 * 8;\nif length_bits > "@ + mask
            + " {\n"@ + refusal + "}\n"@,
{
    reveal_strlit("let ");
    reveal_strlit("bytes");
    reveal_strlit(" = ");
    reveal_strlit(".as_bytes()");
    reveal_strlit(";\n");
    reveal_strlit("if ");
    reveal_strlit(".len()");
    reveal_strlit(" > ");
    reveal_strlit("}\n");
    reveal_strlit("length_bits");
    reveal_strlit(" as ");
    reveal_strlit("u64");
    reveal_strlit(" * ");
    reveal_strlit("8");
    reveal_strlit("let bytes = ");
    reveal_strlit(".as_bytes();\nif bytes.len() > ");
    reveal_strlit("}\nlet length_bits = bytes.len() as u64 * 8;\nif length_bits > ");
    assert(("let "@ + "bytes"@ + " = "@ + (value + ".as_bytes()"@) + ";\n"@) + ("if "@ + (("bytes"@
        + ".len()"@) + " > "@ + room) + " {\n"@ + refusal + "}\n"@) + ("let "@ + "length_bits"@
        + " = "@ + ((("bytes"@ + ".len()"@) + " as "@ + "u64"@) + " * "@ + "8"@) + ";\n"@) + ("if "@
        + ("length_bits"@ + " > "@ + mask) + " {\n"@ + refusal + "}\n"@) =~= "let bytes = "@ + value
        + ".as_bytes();\nif bytes.len() > "@ + room + " {\n"@ + refusal
        + "}\nlet length_bits = bytes.len() as u64 * 8;\nif length_bits > "@ + mask + " {\n"@
        + refusal + "}\n"@);
}

/// The code that writes a string, once its characters have been looked at.
pub open spec fn delimited_code(field: FieldModel, delimiter: DelimiterModel) -> Command {
    let start = field.bit_offset / 8;
    let len = field.bit_width / 8;
    let value = Expr::Field(field.ident);
    let name = field.xtce_name;
    match delimiter {
        DelimiterModel::WholeBuffer => whole_code(start, len, value, name),
        DelimiterModel::TerminationChar(terminator) => terminated_write_code(
            start,
            len,
            terminator,
            value,
            name,
        ),
        DelimiterModel::LeadingSize(size) => prefixed_code(
            field.bit_offset,
            start,
            len,
            size as int,
            value,
            name,
        ),
    }
}

/// The code that looks at the characters of a string.
pub open spec fn ascii_code(field: FieldModel, charset: TextCharset) -> Command {
    if charset == TextCharset::UsAscii {
        Command::Refuse(
            Expr::Not(Box::new(call(Method::IsAscii, Expr::Field(field.ident)))),
            Refusal::InvalidText(field.xtce_name),
        )
    } else {
        Command::Nothing
    }
}

/// The code that writes a string.
pub open spec fn text_write_code(
    field: FieldModel,
    charset: TextCharset,
    delimiter: DelimiterModel,
) -> Command {
    Command::Block(Box::new(chain(ascii_code(field, charset), delimited_code(field, delimiter))))
}

/// The source that writes a string refuses exactly the strings that encoding refuses, with the same
/// error, and leaves of the others the bytes that encoding leaves: the string where it starts, and
/// what delimits it. It never panics.
pub proof fn lemma_writes_text(
    scope: Scope,
    field: FieldModel,
    charset: TextCharset,
    delimiter: DelimiterModel,
    text: Seq<char>,
)
    requires
        scope.has_bytes("out"@),
        scope.bytes("out"@).len() <= usize::MAX,
        lies_in(field, scope.bytes("out"@)),
        delimiter_fits(delimiter, field.bit_width),
        scope.fields.contains_key(field.ident),
        scope.fields[field.ident] == Thing::Text(text),
    ensures
        script(text_write_code(field, charset, delimiter)) == text_block(
            field,
            charset,
            delimiter,
            value_text(field.ident),
        ),
        run(text_write_code(field, charset, delimiter), scope) == wrote(
            scope,
            text_refusal(field, charset, delimiter, text),
            text_written(field, delimiter, text, scope.bytes("out"@)),
        ),
{
    let start = field.bit_offset / 8;
    let len = field.bit_width / 8;
    let value = Expr::Field(field.ident);
    let name = field.xtce_name;
    let first = ascii_code(field, charset);
    let second = delimited_code(field, delimiter);
    let ascii = call(Method::IsAscii, value);
    let other = Expr::Not(Box::new(ascii));
    step_nothing(scope);
    step_field(field.ident, scope);
    step_call(Method::IsAscii, value, scope);
    step_not(ascii, scope);
    step_refuse(other, Refusal::InvalidText(name), scope);
    lemma_refuses(other, "InvalidText"@, name, Refusal::InvalidText(name));
    step_chain(first, second, scope);
    step_block(chain(first, second), scope);
    assert(source(value) == value_text(field.ident));
    match delimiter {
        DelimiterModel::WholeBuffer => {
            lemma_writes_whole(scope, field, text);
        },
        DelimiterModel::TerminationChar(terminator) => {
            lemma_writes_terminated(scope, field, terminator, text);
            lemma_terminated_source(start, len, terminator, value, name);
        },
        DelimiterModel::LeadingSize(size) => {
            lemma_writes_prefixed(scope, field, size, text);
            lemma_prefixed_source(scope, field.bit_offset, start, len, size as int, value, name);
        },
    }
    reveal_strlit("");
    reveal_strlit("if ");
    reveal_strlit("!");
    reveal_strlit(".is_ascii()");
    reveal_strlit(" {\n");
    reveal_strlit("if !");
    reveal_strlit(".is_ascii() {\n");
    let check = if charset == TextCharset::UsAscii {
        "if !"@ + value_text(field.ident) + ".is_ascii() {\n"@ + refusal_text("InvalidText"@, name)
            + "}\n"@
    } else {
        ""@
    };
    assert(script(first) =~= check);
    let body = script(second);
    assert("{\n"@ + (check + body) + "}\n"@ =~= "{\n"@ + check + body + "}\n"@);
}

} // verus!
