//! What `decode` gives.

use vstd::prelude::*;
use vstd::string::*;

use crate::code::fields::{decoded_code, enum_is_named, held, lemma_decodes_the_field};
use crate::code::language::{means, parses, source, strength, Expr, Failure, Outcome, Scope, Thing};
use crate::code::matching::packet_scope;
use crate::codec::{decoded, field_decoded, readable_from, Datum, Fault};
use crate::emit::decode::{
    data_type_text, decode_fields_text, decode_method_text, names_text, DECODE_HEAD,
};
use crate::layout::{ContainerModel, EnumModel, FieldModel};
use crate::names::decimal_text;

verus! {

/// A function that binds a value to each of some names, in order, and gives them all back as a
/// struct; or fails where there are too few bytes, or where one of the values does.
pub struct Reader {
    /// How many bytes are looked at.
    pub len: nat,
    /// The names.
    pub names: Seq<Seq<char>>,
    /// Their values.
    pub values: Seq<Expr>,
}

/// The first `count` bindings: `let n = x;`.
pub open spec fn bindings_source(reader: Reader, count: nat) -> Seq<char>
    decreases count,
{
    if count == 0 {
        Seq::empty()
    } else {
        bindings_source(reader, (count - 1) as nat) + "let "@ + reader.names[count - 1] + " = "@
            + source(reader.values[count - 1]) + ";\n"@
    }
}

/// The first `count` fields of the struct: `n,`.
pub open spec fn names_source(reader: Reader, count: nat) -> Seq<char>
    decreases count,
{
    if count == 0 {
        Seq::empty()
    } else {
        names_source(reader, (count - 1) as nat) + reader.names[count - 1] + ",\n"@
    }
}

/// The body of the function.
pub open spec fn reader_source(reader: Reader) -> Seq<char> {
    let len = decimal_text(reader.len);
    "let data: &[u8; "@ + len + "] = match data.get(.."@ + len
        + ") {\nSome(slice) => match < &[u8; "@ + len
        + "]> ::try_from(slice) {\nOk(array) => array,\nErr(_) => return Err(DecodeError::TooShort { needed: "@
        + len + " }),\n},\nNone => return Err(DecodeError::TooShort { needed: "@ + len
        + " }),\n};\n"@ + bindings_source(reader, reader.names.len()) + "Ok(Self {\n"@
        + names_source(reader, reader.names.len()) + "})\n}\n"@
}

/// What becomes of bindings.
pub enum Bound {
    /// This is what names stand for behind them.
    Goes(Scope),
    /// The function returns an error.
    Fails(Fault),
    /// One of them has no meaning.
    Stuck,
}

/// What the first `count` bindings do.
pub open spec fn bound(reader: Reader, count: nat, scope: Scope) -> Bound
    decreases count,
{
    if count == 0 {
        Bound::Goes(scope)
    } else {
        match bound(reader, (count - 1) as nat, scope) {
            Bound::Goes(before) => match means(reader.values[count - 1], before) {
                Outcome::Is(thing) => Bound::Goes(before.with(reader.names[count - 1], thing)),
                Outcome::Fails(Failure::Decode(fault)) => Bound::Fails(fault),
                _ => Bound::Stuck,
            },
            other => other,
        }
    }
}

/// What a function gives back: the values of the fields of the struct, or why there is none.
pub enum Given {
    /// A struct.
    Struct(Seq<Thing>),
    /// An error.
    Error(Fault),
    /// The function has no meaning.
    Stuck,
}

/// What the function gives of some bytes.
pub open spec fn given_by(reader: Reader, data: Seq<u8>, enums: Seq<EnumModel>) -> Given {
    if data.len() < reader.len {
        Given::Error(Fault::TooShort(reader.len as int))
    } else {
        match bound(reader, reader.names.len(), packet_scope(data.take(reader.len as int), enums)) {
            Bound::Goes(scope) => Given::Struct(
                Seq::new(reader.names.len(), |i: int| scope.names[reader.names[i]]),
            ),
            Bound::Fails(fault) => Given::Error(fault),
            Bound::Stuck => Given::Stuck,
        }
    }
}

/// The function that decodes a packet of a container.
pub open spec fn decode_code(container: ContainerModel, enums: Seq<EnumModel>) -> Reader {
    Reader {
        len: container.len_bytes as nat,
        names: Seq::new(container.fields.len(), |i: int| container.fields[i].ident),
        values: Seq::new(
            container.fields.len(),
            |i: int| decoded_code(container.fields[i], enums),
        ),
    }
}

/// Whether the fields of a container can be local variables beside its packet: no two have one
/// name, and none hides the packet or a function that reads it.
pub open spec fn names_are_free(container: ContainerModel) -> bool {
    &&& forall|i: int, j: int|
        0 <= i < j < container.fields.len() ==> (#[trigger] container.fields[i]).ident != (
        #[trigger] container.fields[j]).ident
    &&& forall|i: int|
        0 <= i < container.fields.len() ==> {
            &&& (#[trigger] container.fields[i]).ident != "data"@
            &&& container.fields[i].ident != "find"@
            &&& container.fields[i].ident != "half_to_f32"@
        }
}

/// What decoding gives, as the struct of the container holds it.
pub open spec fn decoded_struct(
    container: ContainerModel,
    enums: Seq<EnumModel>,
    data: Seq<u8>,
) -> Given {
    if data.len() < container.len_bytes {
        Given::Error(Fault::TooShort(container.len_bytes))
    } else {
        match decoded(container, enums, data.take(container.len_bytes)) {
            Ok(values) => Given::Struct(
                Seq::new(
                    container.fields.len(),
                    |i: int| held(container.fields[i], values[i]),
                ),
            ),
            Err(fault) => Given::Error(fault),
        }
    }
}

/// What names stand for behind the first `count` bindings.
pub open spec fn is_bound(
    scope: Scope,
    container: ContainerModel,
    enums: Seq<EnumModel>,
    data: Seq<u8>,
    count: nat,
) -> bool {
    &&& scope.enums == enums
    &&& scope.has_bytes("data"@)
    &&& scope.bytes("data"@) == data
    &&& forall|i: int|
        0 <= i < count ==> scope.names[(#[trigger] container.fields[i]).ident] == held(
            container.fields[i],
            field_decoded(container.fields[i], enums, data)->Ok_0,
        )
}

proof fn lemma_readable_before(
    fields: Seq<FieldModel>,
    enums: Seq<EnumModel>,
    data: Seq<u8>,
    from: nat,
)
    requires
        from <= fields.len(),
    ensures
        from <= readable_from(fields, enums, data, from) <= fields.len(),
        forall|i: int|
            from <= i < readable_from(fields, enums, data, from) ==> field_decoded(
                #[trigger] fields[i],
                enums,
                data,
            ) is Ok,
        readable_from(fields, enums, data, from) < fields.len() ==> field_decoded(
            fields[readable_from(fields, enums, data, from) as int],
            enums,
            data,
        ) is Err,
    decreases fields.len() - from,
{
    if from < fields.len() && field_decoded(fields[from as int], enums, data) is Ok {
        lemma_readable_before(fields, enums, data, from + 1);
    }
}

#[verifier::rlimit(60)]
proof fn lemma_binds(
    container: ContainerModel,
    enums: Seq<EnumModel>,
    data: Seq<u8>,
    count: nat,
)
    requires
        container.valid(enums),
        names_are_free(container),
        forall|i: int|
            0 <= i < container.fields.len() ==> enum_is_named(
                #[trigger] container.fields[i],
                enums,
            ),
        data.len() == container.len_bytes,
        count <= container.fields.len(),
    ensures
        ({
            let reader = decode_code(container, enums);
            let readable = readable_from(container.fields, enums, data, 0);
            let result = bound(reader, count, packet_scope(data, enums));
            &&& bindings_source(reader, count) == decode_fields_text(
                container.fields,
                enums,
                count,
            )
            &&& names_source(reader, count) == names_text(container.fields, count)
            &&& forall|i: int|
                0 <= i < count ==> parses(#[trigger] reader.values[i]) && strength(reader.values[i])
                    >= 2
            &&& count <= readable ==> (result matches Bound::Goes(scope) && is_bound(
                scope,
                container,
                enums,
                data,
                count,
            ))
            &&& count > readable ==> field_decoded(
                container.fields[readable as int],
                enums,
                data,
            ) == Err::<Datum, Fault>(result->Fails_0) && result is Fails
        }),
    decreases count,
{
    let reader = decode_code(container, enums);
    let readable = readable_from(container.fields, enums, data, 0);
    lemma_readable_before(container.fields, enums, data, 0);
    let start = packet_scope(data, enums);
    if count > 0 {
        let at = (count - 1) as nat;
        let field = container.fields[at as int];
        lemma_binds(container, enums, data, at);
        assert(reader.names[at as int] == field.ident);
        assert(reader.values[at as int] == decoded_code(field, enums));
        assert(enum_is_named(field, enums));
        assert(field.valid(enums, container.len_bytes));
        lemma_decodes_the_field(start, field);
        if at <= readable {
            let before = bound(reader, at, start)->Goes_0;
            lemma_decodes_the_field(before, field);
            if count <= readable {
                let value = field_decoded(field, enums, data)->Ok_0;
                let after = before.with(field.ident, held(field, value));
                assert(bound(reader, count, start) == Bound::Goes(after));
                assert forall|i: int| 0 <= i < count implies after.names[(
                #[trigger] container.fields[i]).ident] == held(
                    container.fields[i],
                    field_decoded(container.fields[i], enums, data)->Ok_0,
                ) by {
                    if i < at {
                        assert(container.fields[i].ident != container.fields[at as int].ident);
                    }
                }
            }
        }
        assert(bindings_source(reader, count) =~= decode_fields_text(
            container.fields,
            enums,
            count,
        ));
    }
}

/// The source of `decode` gives what decoding gives of every sequence of bytes: the struct with the
/// same values, or the same error. It never panics.
#[verifier::rlimit(60)]
pub proof fn lemma_decodes_what_it_should(
    container: ContainerModel,
    enums: Seq<EnumModel>,
    data: Seq<u8>,
)
    requires
        container.valid(enums),
        names_are_free(container),
        forall|i: int|
            0 <= i < container.fields.len() ==> enum_is_named(
                #[trigger] container.fields[i],
                enums,
            ),
    ensures
        DECODE_HEAD@ + data_type_text(container.borrows)
            + ") -> Result<Self, DecodeError> {\n"@ + reader_source(
            decode_code(container, enums),
        ) == decode_method_text(container, enums),
        forall|i: int|
            0 <= i < container.fields.len() ==> parses(
                #[trigger] decode_code(container, enums).values[i],
            ) && strength(decode_code(container, enums).values[i]) >= 2,
        given_by(decode_code(container, enums), data, enums) == decoded_struct(
            container,
            enums,
            data,
        ),
{
    let reader = decode_code(container, enums);
    let clear = Seq::new(container.len_bytes as nat, |i: int| 0u8);
    lemma_binds(container, enums, clear, container.fields.len());
    reveal_strlit(") -> Result<Self, DecodeError> {\n");
    reveal_strlit("let data: &[u8; ");
    reveal_strlit(") -> Result<Self, DecodeError> {\nlet data: &[u8; ");
    assert(DECODE_HEAD@ + data_type_text(container.borrows)
        + ") -> Result<Self, DecodeError> {\n"@ + reader_source(reader) =~= decode_method_text(
        container,
        enums,
    ));
    if data.len() >= container.len_bytes {
        let taken = data.take(container.len_bytes);
        lemma_binds(container, enums, taken, container.fields.len());
        lemma_readable_before(container.fields, enums, taken, 0);
        if readable_from(container.fields, enums, taken, 0) == container.fields.len() {
            assert(given_by(reader, data, enums)->Struct_0 =~= decoded_struct(
                container,
                enums,
                data,
            )->Struct_0);
        }
    }
}

} // verus!
