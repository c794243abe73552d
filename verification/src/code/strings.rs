//! What the code for a string reads.

use vstd::prelude::*;
use vstd::string::*;
use vstd::utf8::*;

use crate::bits::{lemma_number_bound, number};
use crate::code::bits::{lemma_reads_the_run, lemma_type_powers, lemma_zero_text, read_code};
use crate::code::language::{
    apply, binary, binding, braces, call, cast, failure_source, means, numbers, paren, parses,
    source, step_apply, step_binary, step_binding, step_braces, step_call, step_cast, step_constant,
    step_find, step_head, step_name, step_not, step_number, step_or_err, step_or_fail, step_paren,
    step_part, step_slice, step_unless, strength, Expr, Failure, Function, Int, Method, Operator,
    Outcome, Scope, Thing,
};
use crate::codec::{
    field_bytes, first_occurrence, lemma_first_from, text_bytes, text_decoded, Fault,
};
use crate::emit::bits::read_text;
use crate::emit::decode::{decode_text_of, found_text, slice_text};
use crate::emit::text::byte_list;
use crate::layout::{delimiter_fits, FieldModel};
use crate::names::decimal_text;
use crate::plan::{DelimiterModel, TextCharset};

verus! {

/// A field of whole bytes inside a packet.
pub open spec fn lies_in(field: FieldModel, data: Seq<u8>) -> bool {
    &&& 0 <= field.bit_offset
    &&& 0 <= field.bit_width
    &&& field.bit_offset % 8 == 0
    &&& field.bit_width % 8 == 0
    &&& field.bit_offset + field.bit_width <= 8 * data.len()
    &&& field.bit_offset + field.bit_width <= usize::MAX
}

/// The code for a field's bytes.
pub open spec fn slice_code(field: FieldModel) -> Expr {
    Expr::Slice(
        "data"@,
        (field.bit_offset / 8) as nat,
        ((field.bit_offset + field.bit_width) / 8) as nat,
    )
}

/// The source for a field's bytes gives those bytes.
pub proof fn lemma_slices_field(scope: Scope, field: FieldModel)
    requires
        scope.has_bytes("data"@),
        lies_in(field, scope.bytes("data"@)),
    ensures
        source(slice_code(field)) == slice_text(field),
        parses(slice_code(field)),
        means(slice_code(field), scope) == Outcome::Is(
            Thing::Bytes(field_bytes(field, scope.bytes("data"@))),
        ),
{
    step_slice(
        "data"@,
        (field.bit_offset / 8) as nat,
        ((field.bit_offset + field.bit_width) / 8) as nat,
        scope,
    );
    reveal_strlit("&");
    reveal_strlit("data");
    reveal_strlit("[");
    reveal_strlit("&data[");
    assert(source(slice_code(field)) =~= slice_text(field));
}

/// What an expression that may fail has to come to.
pub open spec fn bytes_outcome(result: Result<Seq<u8>, Fault>) -> Outcome {
    match result {
        Ok(bytes) => Outcome::Is(Thing::Bytes(bytes)),
        Err(fault) => Outcome::Fails(Failure::Decode(fault)),
    }
}

/// The code that looks for a terminator.
pub open spec fn terminated_code(field: FieldModel, terminator: Seq<u8>) -> Expr {
    let failure = Failure::Decode(Fault::UnterminatedString(field.xtce_name));
    let head = Expr::OrFail(
        Box::new(Expr::Head("buffer"@, "end"@)),
        "text"@,
        Box::new(Expr::Name("text"@)),
        failure,
    );
    let found = Expr::OrFail(
        Box::new(Expr::Find("buffer"@, "TERMINATOR"@)),
        "end"@,
        Box::new(head),
        failure,
    );
    braces(
        Expr::Const(
            "TERMINATOR"@,
            terminator,
            Box::new(binding("buffer"@, slice_code(field), found)),
        ),
    )
}

/// The code that takes as many bytes as stand in front of them, behind the length.
pub open spec fn counted_code(field: FieldModel, size: int) -> Expr {
    let failure = Failure::Decode(Fault::BadStringLength(field.xtce_name));
    let part = Expr::OrFail(
        Box::new(Expr::Part("buffer"@, (size / 8) as nat, "length"@)),
        "text"@,
        Box::new(Expr::Name("text"@)),
        failure,
    );
    let local = Expr::Name("length_bits"@);
    let count = cast(paren(binary(Operator::Over, local, Expr::Number(8))), Int::Usize);
    let uneven = binary(
        Operator::NotEqual,
        binary(Operator::Rest, local, Expr::Number(8)),
        Expr::Number(0),
    );
    let checked = Expr::Unless(
        Box::new(uneven),
        failure,
        Box::new(binding("length"@, count, part)),
    );
    braces(
        binding(
            "buffer"@,
            slice_code(field),
            binding("length_bits"@, read_code(field.bit_offset, size), checked),
        ),
    )
}

/// The code for the bytes of a string inside its field.
pub open spec fn found_code(field: FieldModel, delimiter: DelimiterModel) -> Expr {
    match delimiter {
        DelimiterModel::WholeBuffer => slice_code(field),
        DelimiterModel::TerminationChar(terminator) => terminated_code(field, terminator),
        DelimiterModel::LeadingSize(size) => counted_code(field, size as int),
    }
}

/// The names that the code for a string binds are different.
pub proof fn lemma_names_differ()
    ensures
        "buffer"@ != "TERMINATOR"@,
        "buffer"@ != "end"@,
        "data"@ != "TERMINATOR"@,
        "data"@ != "buffer"@,
        "buffer"@ != "length_bits"@,
        "buffer"@ != "length"@,
        "length"@ != "length_bits"@,
        "data"@ != "text"@,
{
    reveal_strlit("buffer");
    reveal_strlit("TERMINATOR");
    reveal_strlit("end");
    reveal_strlit("data");
    reveal_strlit("length_bits");
    reveal_strlit("length");
    reveal_strlit("text");
    assert("buffer"@.len() == 6 && "length"@.len() == 6 && "buffer"@[0] == 'b' && "length"@[0]
        == 'l');
    assert("TERMINATOR"@.len() == 10 && "end"@.len() == 3 && "data"@.len() == 4
        && "length_bits"@.len() == 11 && "text"@.len() == 4);
    assert("data"@[0] == 'd' && "text"@[0] == 't');
}

/// A list of bytes is spelled as the emitter spells it.
pub proof fn lemma_numbers_listed(bytes: Seq<u8>)
    ensures
        numbers(bytes) == byte_list(bytes),
    decreases bytes.len(),
{
    if bytes.len() > 1 {
        lemma_numbers_listed(bytes.drop_last());
    }
}

proof fn lemma_finds_terminated(scope: Scope, field: FieldModel, terminator: Seq<u8>)
    requires
        scope.has_bytes("data"@),
        lies_in(field, scope.bytes("data"@)),
    ensures
        source(terminated_code(field, terminator)) == found_text(
            field,
            DelimiterModel::TerminationChar(terminator),
        ),
        parses(terminated_code(field, terminator)),
        means(terminated_code(field, terminator), scope) == bytes_outcome(
            text_bytes(
                field,
                DelimiterModel::TerminationChar(terminator),
                scope.bytes("data"@),
            ),
        ),
{
    let failure = Failure::Decode(Fault::UnterminatedString(field.xtce_name));
    let slice = slice_code(field);
    let head = Expr::OrFail(
        Box::new(Expr::Head("buffer"@, "end"@)),
        "text"@,
        Box::new(Expr::Name("text"@)),
        failure,
    );
    let found = Expr::OrFail(
        Box::new(Expr::Find("buffer"@, "TERMINATOR"@)),
        "end"@,
        Box::new(head),
        failure,
    );
    let bound = binding("buffer"@, slice, found);
    let all = Expr::Const("TERMINATOR"@, terminator, Box::new(bound));
    let data = scope.bytes("data"@);
    let buffer = field_bytes(field, data);
    let one = scope.with("TERMINATOR"@, Thing::Bytes(terminator));
    let two = one.with("buffer"@, Thing::Bytes(buffer));
    lemma_names_differ();
    assert(one.bytes("data"@) == data);
    lemma_slices_field(one, field);
    lemma_first_from(buffer, terminator, 0);
    let place = match first_occurrence(buffer, terminator) {
        Some(at) => at,
        None => 0,
    };
    let three = two.with("end"@, Thing::Number(Int::Usize, place));
    let four = three.with("text"@, Thing::Bytes(buffer.take(place)));
    step_name("text"@, four);
    step_head("buffer"@, "end"@, three);
    step_or_fail(Expr::Head("buffer"@, "end"@), "text"@, Expr::Name("text"@), failure, three);
    step_find("buffer"@, "TERMINATOR"@, two);
    step_or_fail(Expr::Find("buffer"@, "TERMINATOR"@), "end"@, head, failure, two);
    step_binding("buffer"@, slice, found, one);
    step_constant("TERMINATOR"@, terminator, bound, scope);
    step_braces(all, scope);
    lemma_numbers_listed(terminator);
    lemma_terminated_texts(byte_list(terminator), slice_text(field), failure_source(failure));
}

proof fn lemma_terminated_texts(list: Seq<char>, slice: Seq<char>, fault: Seq<char>)
    ensures
        "{\n"@ + ("const "@ + "TERMINATOR"@ + ": &[u8] = &["@ + list + "];\n"@ + ("let "@
            + "buffer"@ + " = "@ + slice + ";\n"@ + ("match "@ + ("find("@ + "buffer"@ + ", "@
            + "TERMINATOR"@ + ")"@) + " {\nSome("@ + "end"@ + ") => "@ + ("match "@ + ("buffer"@
            + ".get(.."@ + "end"@ + ")"@) + " {\nSome("@ + "text"@ + ") => "@ + "text"@
            + ",\nNone => "@ + fault + ",\n}"@) + ",\nNone => "@ + fault + ",\n}"@))) + "\n}"@
            == "{\nconst TERMINATOR: &[u8] = &["@ + list + "];\nlet buffer = "@ + slice
            + ";\nmatch find(buffer, TERMINATOR) {\nSome(end) => match buffer.get(..end) {\nSome(text) => text,\nNone => "@
            + fault + ",\n},\nNone => "@ + fault + ",\n}\n}"@,
{
    reveal_strlit("{\n");
    reveal_strlit("const ");
    reveal_strlit("TERMINATOR");
    reveal_strlit(": &[u8] = &[");
    reveal_strlit("];\n");
    reveal_strlit("let ");
    reveal_strlit("buffer");
    reveal_strlit(" = ");
    reveal_strlit(";\n");
    reveal_strlit("match ");
    reveal_strlit("find(");
    reveal_strlit(", ");
    reveal_strlit(")");
    reveal_strlit(" {\nSome(");
    reveal_strlit("end");
    reveal_strlit(") => ");
    reveal_strlit(".get(..");
    reveal_strlit("text");
    reveal_strlit(",\nNone => ");
    reveal_strlit(",\n}");
    reveal_strlit("\n}");
    reveal_strlit("{\nconst TERMINATOR: &[u8] = &[");
    reveal_strlit("];\nlet buffer = ");
    reveal_strlit(
        ";\nmatch find(buffer, TERMINATOR) {\nSome(end) => match buffer.get(..end) {\nSome(text) => text,\nNone => ",
    );
    reveal_strlit(",\n},\nNone => ");
    reveal_strlit(",\n}\n}");
    assert("{\n"@ + ("const "@ + "TERMINATOR"@ + ": &[u8] = &["@ + list + "];\n"@ + ("let "@
        + "buffer"@ + " = "@ + slice + ";\n"@ + ("match "@ + ("find("@ + "buffer"@ + ", "@
        + "TERMINATOR"@ + ")"@) + " {\nSome("@ + "end"@ + ") => "@ + ("match "@ + ("buffer"@
        + ".get(.."@ + "end"@ + ")"@) + " {\nSome("@ + "text"@ + ") => "@ + "text"@
        + ",\nNone => "@ + fault + ",\n}"@) + ",\nNone => "@ + fault + ",\n}"@))) + "\n}"@
        =~= "{\nconst TERMINATOR: &[u8] = &["@ + list + "];\nlet buffer = "@ + slice
        + ";\nmatch find(buffer, TERMINATOR) {\nSome(end) => match buffer.get(..end) {\nSome(text) => text,\nNone => "@
        + fault + ",\n},\nNone => "@ + fault + ",\n}\n}"@);
}

proof fn lemma_finds_counted(scope: Scope, field: FieldModel, size: u32)
    requires
        scope.has_bytes("data"@),
        lies_in(field, scope.bytes("data"@)),
        delimiter_fits(DelimiterModel::LeadingSize(size), field.bit_width),
    ensures
        source(counted_code(field, size as int)) == found_text(
            field,
            DelimiterModel::LeadingSize(size),
        ),
        parses(counted_code(field, size as int)),
        means(counted_code(field, size as int), scope) == bytes_outcome(
            text_bytes(field, DelimiterModel::LeadingSize(size), scope.bytes("data"@)),
        ),
{
    let failure = Failure::Decode(Fault::BadStringLength(field.xtce_name));
    let slice = slice_code(field);
    let read = read_code(field.bit_offset, size as int);
    let prefix = (size / 8) as nat;
    let piece = Expr::Part("buffer"@, prefix, "length"@);
    let part = Expr::OrFail(
        Box::new(piece),
        "text"@,
        Box::new(Expr::Name("text"@)),
        failure,
    );
    let local = Expr::Name("length_bits"@);
    let eight = Expr::Number(8);
    let bytes = binary(Operator::Over, local, eight);
    let count = cast(paren(bytes), Int::Usize);
    let rest = binary(Operator::Rest, local, eight);
    let uneven = binary(Operator::NotEqual, rest, Expr::Number(0));
    let taken = binding("length"@, count, part);
    let checked = Expr::Unless(Box::new(uneven), failure, Box::new(taken));
    let counted = binding("length_bits"@, read, checked);
    let all = binding("buffer"@, slice, counted);
    let data = scope.bytes("data"@);
    let buffer = field_bytes(field, data);
    let bits = number(data, field.bit_offset, size as nat) as int;
    lemma_names_differ();
    lemma_number_bound(data, field.bit_offset, size as nat);
    lemma_type_powers();
    if size < 32 {
        vstd::arithmetic::power2::lemma_pow2_strictly_increases(size as nat, 32);
    }
    lemma_slices_field(scope, field);
    let one = scope.with("buffer"@, Thing::Bytes(buffer));
    assert(one.bytes("data"@) == data);
    lemma_reads_the_run(one, field.bit_offset, size as int);
    let two = one.with("length_bits"@, Thing::Number(Int::U64, bits));
    let length = bits / 8;
    let three = two.with("length"@, Thing::Number(Int::Usize, length));
    step_name("length_bits"@, two);
    step_number(8, two);
    step_number(0, two);
    step_binary(Operator::Rest, local, eight, two);
    step_binary(Operator::NotEqual, rest, Expr::Number(0), two);
    assert(means(uneven, two) == Outcome::Is(Thing::Flag(bits % 8 != 0)));
    step_binary(Operator::Over, local, eight, two);
    step_paren(bytes, two);
    step_cast(paren(bytes), Int::Usize, two);
    assert(means(count, two) == Outcome::Is(Thing::Number(Int::Usize, length)));
    step_part("buffer"@, prefix, "length"@, three);
    if prefix + length <= buffer.len() {
        let four = three.with(
            "text"@,
            Thing::Bytes(buffer.subrange(prefix as int, prefix + length)),
        );
        step_name("text"@, four);
    }
    step_name("text"@, three);
    step_or_fail(piece, "text"@, Expr::Name("text"@), failure, three);
    step_binding("length"@, count, part, two);
    step_unless(uneven, failure, taken, two);
    step_binding("length_bits"@, read, checked, one);
    step_binding("buffer"@, slice, counted, scope);
    step_braces(all, scope);
    assert(source(eight) == "8"@) by {
        reveal_strlit("8");
        reveal_with_fuel(decimal_text, 2);
        assert(decimal_text(8) =~= "8"@);
    }
    lemma_zero_text();
    lemma_counted_texts(
        slice_text(field),
        read_text(field.bit_offset, size as int),
        failure_source(failure),
        decimal_text(prefix),
    );
}

proof fn lemma_counted_texts(
    slice: Seq<char>,
    read: Seq<char>,
    fault: Seq<char>,
    prefix: Seq<char>,
)
    ensures
        "{\n"@ + ("let "@ + "buffer"@ + " = "@ + slice + ";\n"@ + ("let "@ + "length_bits"@ + " = "@
            + read + ";\n"@ + ("if "@ + (("length_bits"@ + " % "@ + "8"@) + " != "@ + "0"@)
            + " {\n"@ + fault + ";\n}\n"@ + ("let "@ + "length"@ + " = "@ + (("("@ + (
        "length_bits"@ + " / "@ + "8"@) + ")"@) + " as "@ + "usize"@) + ";\n"@ + ("match "@ + (
        "buffer"@ + ".get("@ + prefix + ".."@ + prefix + " + "@ + "length"@ + ")"@)
            + " {\nSome("@ + "text"@ + ") => "@ + "text"@ + ",\nNone => "@ + fault
            + ",\n}"@))))) + "\n}"@ == "{\nlet buffer = "@ + slice + ";\nlet length_bits = "@ + read
            + ";\nif length_bits % 8 != 0 {\n"@ + fault
            + ";\n}\nlet length = (length_bits / 8) as usize;\nmatch buffer.get("@ + prefix
            + ".."@ + prefix + " + length) {\nSome(text) => text,\nNone => "@ + fault
            + ",\n}\n}"@,
{
    reveal_strlit("{\n");
    reveal_strlit("let ");
    reveal_strlit("buffer");
    reveal_strlit(" = ");
    reveal_strlit(";\n");
    reveal_strlit("length_bits");
    reveal_strlit("if ");
    reveal_strlit(" % ");
    reveal_strlit("8");
    reveal_strlit(" != ");
    reveal_strlit("0");
    reveal_strlit(" {\n");
    reveal_strlit(";\n}\n");
    reveal_strlit("length");
    reveal_strlit("(");
    reveal_strlit(" / ");
    reveal_strlit(")");
    reveal_strlit(" as ");
    reveal_strlit("usize");
    reveal_strlit("match ");
    reveal_strlit(".get(");
    reveal_strlit("..");
    reveal_strlit(" + ");
    reveal_strlit(" {\nSome(");
    reveal_strlit("text");
    reveal_strlit(") => ");
    reveal_strlit(",\nNone => ");
    reveal_strlit(",\n}");
    reveal_strlit("\n}");
    reveal_strlit("{\nlet buffer = ");
    reveal_strlit(";\nlet length_bits = ");
    reveal_strlit(";\nif length_bits % 8 != 0 {\n");
    reveal_strlit(";\n}\nlet length = (length_bits / 8) as usize;\nmatch buffer.get(");
    reveal_strlit(" + length) {\nSome(text) => text,\nNone => ");
    reveal_strlit(",\n}\n}");
    let left = "{\n"@ + ("let "@ + "buffer"@ + " = "@ + slice + ";\n"@ + ("let "@ + "length_bits"@
        + " = "@ + read + ";\n"@ + ("if "@ + (("length_bits"@ + " % "@ + "8"@) + " != "@ + "0"@)
        + " {\n"@ + fault + ";\n}\n"@ + ("let "@ + "length"@ + " = "@ + (("("@ + ("length_bits"@
        + " / "@ + "8"@) + ")"@) + " as "@ + "usize"@) + ";\n"@ + ("match "@ + ("buffer"@ + ".get("@
        + prefix + ".."@ + prefix + " + "@ + "length"@ + ")"@) + " {\nSome("@ + "text"@ + ") => "@
        + "text"@ + ",\nNone => "@ + fault + ",\n}"@))))) + "\n}"@;
    let right = "{\nlet buffer = "@ + slice + ";\nlet length_bits = "@ + read
        + ";\nif length_bits % 8 != 0 {\n"@ + fault
        + ";\n}\nlet length = (length_bits / 8) as usize;\nmatch buffer.get("@ + prefix + ".."@
        + prefix + " + length) {\nSome(text) => text,\nNone => "@ + fault + ",\n}\n}"@;
    assert(left =~= right);
}

/// The source that finds a string inside its field gives the bytes of the string: those of the
/// whole field, those in front of the terminator, or as many as the length in front counts, from
/// the byte directly behind the length on. Where there are none it fails as decoding does.
pub proof fn lemma_finds_text(scope: Scope, field: FieldModel, delimiter: DelimiterModel)
    requires
        scope.has_bytes("data"@),
        lies_in(field, scope.bytes("data"@)),
        delimiter_fits(delimiter, field.bit_width),
    ensures
        source(found_code(field, delimiter)) == found_text(field, delimiter),
        parses(found_code(field, delimiter)),
        strength(found_code(field, delimiter)) >= 13,
        means(found_code(field, delimiter), scope) == bytes_outcome(
            text_bytes(field, delimiter, scope.bytes("data"@)),
        ),
{
    match delimiter {
        DelimiterModel::WholeBuffer => lemma_slices_field(scope, field),
        DelimiterModel::TerminationChar(terminator) => lemma_finds_terminated(
            scope,
            field,
            terminator,
        ),
        DelimiterModel::LeadingSize(size) => lemma_finds_counted(scope, field, size),
    }
}

/// The code that reads a string.
pub open spec fn text_code(
    field: FieldModel,
    charset: TextCharset,
    delimiter: DelimiterModel,
) -> Expr {
    let failure = Failure::Decode(Fault::InvalidText(field.xtce_name));
    let local = Expr::Name("text"@);
    let checked = Expr::OrErr(
        Box::new(apply(Function::Text, local)),
        "text"@,
        Box::new(local),
        failure,
    );
    let rest = if charset == TextCharset::UsAscii {
        Expr::Unless(
            Box::new(Expr::Not(Box::new(call(Method::IsAscii, local)))),
            failure,
            Box::new(checked),
        )
    } else {
        checked
    };
    braces(binding("text"@, found_code(field, delimiter), rest))
}

/// What reading a string has to come to.
pub open spec fn text_outcome(
    field: FieldModel,
    charset: TextCharset,
    delimiter: DelimiterModel,
    data: Seq<u8>,
) -> Outcome {
    match text_bytes(field, delimiter, data) {
        Ok(bytes) => match text_decoded(field, charset, bytes) {
            Ok(text) => Outcome::Is(Thing::Text(text)),
            Err(fault) => Outcome::Fails(Failure::Decode(fault)),
        },
        Err(fault) => Outcome::Fails(Failure::Decode(fault)),
    }
}

/// The source that reads a string gives what decoding gives of it: its text, or the same fault.
pub proof fn lemma_reads_text(
    scope: Scope,
    field: FieldModel,
    charset: TextCharset,
    delimiter: DelimiterModel,
)
    requires
        scope.has_bytes("data"@),
        lies_in(field, scope.bytes("data"@)),
        delimiter_fits(delimiter, field.bit_width),
    ensures
        source(text_code(field, charset, delimiter)) == decode_text_of(field, charset, delimiter),
        parses(text_code(field, charset, delimiter)),
        means(text_code(field, charset, delimiter), scope) == text_outcome(
            field,
            charset,
            delimiter,
            scope.bytes("data"@),
        ),
{
    let failure = Failure::Decode(Fault::InvalidText(field.xtce_name));
    let local = Expr::Name("text"@);
    let valid = apply(Function::Text, local);
    let checked = Expr::OrErr(Box::new(valid), "text"@, Box::new(local), failure);
    let ascii = call(Method::IsAscii, local);
    let other = Expr::Not(Box::new(ascii));
    let guarded = Expr::Unless(Box::new(other), failure, Box::new(checked));
    let rest = if charset == TextCharset::UsAscii {
        guarded
    } else {
        checked
    };
    let found = found_code(field, delimiter);
    let all = binding("text"@, found, rest);
    lemma_finds_text(scope, field, delimiter);
    let result = text_bytes(field, delimiter, scope.bytes("data"@));
    let bytes = match result {
        Ok(bytes) => bytes,
        Err(_) => Seq::empty(),
    };
    let inside = scope.with("text"@, Thing::Bytes(bytes));
    step_name("text"@, inside);
    step_apply(Function::Text, local, inside);
    if valid_utf8(bytes) {
        step_name("text"@, inside.with("text"@, Thing::Text(decode_utf8(bytes))));
    }
    step_or_err(valid, "text"@, local, failure, inside);
    step_call(Method::IsAscii, local, inside);
    step_not(ascii, inside);
    step_unless(other, failure, checked, inside);
    step_binding("text"@, found, rest, scope);
    step_braces(all, scope);
    let tail = source(checked);
    lemma_text_texts(
        charset == TextCharset::UsAscii,
        found_text(field, delimiter),
        failure_source(failure),
    );
}

proof fn lemma_text_texts(ascii: bool, found: Seq<char>, fault: Seq<char>)
    ensures
        ({
            let tail = "match "@ + ("core::str::from_utf8"@ + "("@ + "text"@ + ")"@) + " {\nOk("@
                + "text"@ + ") => "@ + "text"@ + ",\nErr(_) => "@ + fault + ",\n}"@;
            let guard = "if "@ + ("!"@ + ("text"@ + ".is_ascii()"@)) + " {\n"@ + fault
                + ";\n}\n"@;
            let check = if ascii {
                "if !text.is_ascii() {\n"@ + fault + ";\n}\n"@
            } else {
                ""@
            };
            "{\n"@ + ("let "@ + "text"@ + " = "@ + found + ";\n"@ + if ascii {
                guard + tail
            } else {
                tail
            }) + "\n}"@ == "{\nlet text = "@ + found + ";\n"@ + check
                + "match core::str::from_utf8(text) {\nOk(text) => text,\nErr(_) => "@ + fault
                + ",\n}\n}"@
        }),
{
    reveal_strlit("");
    reveal_strlit("match ");
    reveal_strlit("core::str::from_utf8");
    reveal_strlit("(");
    reveal_strlit("text");
    reveal_strlit(")");
    reveal_strlit(" {\nOk(");
    reveal_strlit(") => ");
    reveal_strlit(",\nErr(_) => ");
    reveal_strlit(",\n}");
    reveal_strlit("if ");
    reveal_strlit("!");
    reveal_strlit(".is_ascii()");
    reveal_strlit(" {\n");
    reveal_strlit("if !text.is_ascii() {\n");
    reveal_strlit("{\n");
    reveal_strlit("let ");
    reveal_strlit(" = ");
    reveal_strlit(";\n");
    reveal_strlit("\n}");
    reveal_strlit("{\nlet text = ");
    reveal_strlit("match core::str::from_utf8(text) {\nOk(text) => text,\nErr(_) => ");
    reveal_strlit(",\n}\n}");
    let tail = "match "@ + ("core::str::from_utf8"@ + "("@ + "text"@ + ")"@) + " {\nOk("@ + "text"@
        + ") => "@ + "text"@ + ",\nErr(_) => "@ + fault + ",\n}"@;
    let guard = "if "@ + ("!"@ + ("text"@ + ".is_ascii()"@)) + " {\n"@ + fault + ";\n}\n"@;
    let check = if ascii {
        "if !text.is_ascii() {\n"@ + fault + ";\n}\n"@
    } else {
        ""@
    };
    assert(guard =~= "if !text.is_ascii() {\n"@ + fault + ";\n}\n"@);
    assert("{\n"@ + ("let "@ + "text"@ + " = "@ + found + ";\n"@ + if ascii {
        guard + tail
    } else {
        tail
    }) + "\n}"@ =~= "{\nlet text = "@ + found + ";\n"@ + check
        + "match core::str::from_utf8(text) {\nOk(text) => text,\nErr(_) => "@ + fault
        + ",\n}\n}"@);
}

} // verus!
