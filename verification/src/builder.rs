//! From a plan to something an encoder can be written from.
//!
//! The plan already says where every field sits and how its bits become a value. Three questions
//! are the encoder's:
//!
//! * What Rust type does the caller supply?
//! * Which fields are the caller's to set? A container is chosen by its restriction criteria, so
//!   those bits are constants and no fields.
//! * What cannot be encoded? It is refused by name, and never silently dropped.

use vstd::arithmetic::div_mod::*;
use vstd::arithmetic::power2::*;
use vstd::prelude::*;
use vstd::string::*;

use crate::bits::mask_for;
use crate::error::{refuse, refused, ErrorModel, FlightError};
use crate::layout::{
    enum_models, Constant, ConstantModel, Container, ContainerModel, ContextCriterion,
    ContextModel, ContextTest, CriterionModel, EnumModel, EnumType, FieldModel, FixedModel, FixedValue,
    FlightContext, FlightField, Kind, KindModel, Layout, LayoutModel, TestModel, VariantModel,
};
use crate::names::{
    any_alphanumeric, fresh, handed_out, has_alphanumeric, identifier, letters, letters_of,
    signed_decimal, signed_text, texts, type_ident, type_ident_of, unique,
};
use crate::plan::{
    calibration_model, Calibration, CompareOp, ContainerPlan, ContextComparison, DelimiterModel,
    Field, FixedEntry, Guard, Node, Plan, PlanContext, PlanCriterion, PlanTest, Repr, Spline,
    SplinePoint, Term, TextDelimiter,
};
use crate::scalar::{swap_field_bytes, swapped};
use crate::structure::{distinct_types, lemma_type_names_are_distinct};

verus! {

// ---------------------------------------------------------------------------------------
// Refusals
// ---------------------------------------------------------------------------------------

/// A container without a length of its own.
pub const DYNAMIC_LENGTH: &'static str =
    "a container whose length depends on packet content cannot be encoded from a fixed-size struct; only containers laid out entirely at generation time are";

/// A criterion that is not an equality.
pub const NOT_AN_EQUALITY: &'static str =
    "only an equality criterion has one value an encoder could write; an inequality names a set";

/// A criterion wider than a literal.
pub const WIDE_CRITERION: &'static str =
    "a criterion wider than 64 bits cannot be written as one literal";

/// A criterion whose bytes cannot be put back in order.
pub const UNINVERTIBLE_CRITERION: &'static str =
    "a little-endian criterion that is not a whole number of bytes has no inverse: reversing a value narrower than its byte count loses where it came from";

/// A field without a place of its own.
pub const DYNAMIC_WIDTH: &'static str =
    "a field whose width comes from the packet has no fixed place in a struct";

/// A number of a width no Rust type has.
pub const NUMBER_WIDTH: &'static str =
    "only fields of 1 to 64 bits become a Rust integer or float";

/// A field whose bytes cannot be put back in order.
pub const UNINVERTIBLE_FIELD: &'static str =
    "a little-endian field that is not a whole number of bytes has no inverse: reversing a value narrower than its byte count loses where it came from";

/// A float of a width no format has.
pub const FLOAT_WIDTH: &'static str =
    "a float must be 16, 32 or 64 bits wide; no other IEEE-754 format exists";

/// A float format that is many-to-one.
pub const MANY_TO_ONE: &'static str =
    "MIL-STD-1750A is many-to-one when it is read, so there is no inverse to write";

/// Bytes that do not lie on bytes.
pub const UNALIGNED_BINARY: &'static str =
    "binary is written as whole bytes, so it has to start on a byte and occupy a whole number of them";

/// Text that does not lie on bytes.
pub const UNALIGNED_TEXT: &'static str =
    "text is written as whole bytes, so it has to start on a byte and occupy a whole number of them";

/// A terminator of no bytes.
pub const EMPTY_TERMINATOR: &'static str =
    "an empty termination character terminates every string at its start";

/// A terminator longer than its field.
pub const LONG_TERMINATOR: &'static str = "the terminator does not fit inside the field";

/// A length prefix that is not whole bytes.
pub const UNALIGNED_PREFIX: &'static str =
    "a length prefix that is not a whole number of bytes leaves the text unaligned";

/// A length prefix of an odd size.
pub const PREFIX_WIDTH: &'static str = "a length prefix must be 8, 16, 24 or 32 bits";

/// A length prefix longer than its field.
pub const LONG_PREFIX: &'static str = "the length prefix does not fit inside the field";

/// An enumeration of nothing.
pub const NO_LABELS: &'static str =
    "an enumeration with no labels has no value an encoder could write";

/// A context that reads bits no field holds.
pub const NOT_CARRIED: &'static str =
    "its criterion tests bits the struct does not carry as a field of their own, so there is nothing to compare";

/// A context that reads a flag of several bits.
pub const WIDE_BOOLEAN: &'static str =
    "its criterion tests a boolean wider than one bit, and the struct keeps only whether its bits were nonzero";

/// A context that reads something that is no number.
pub const NOT_A_NUMBER: &'static str =
    "its criterion tests a field that is not an integer, a boolean or an enumeration";

/// A spline that is more than straight lines.
pub const HIGH_ORDER: &'static str =
    "only splines of order zero and one are applied; a higher order is more than a line between two points";

/// A fixed value that would have to be shifted.
pub const UNALIGNED_FIXED: &'static str =
    "a fixed value wider than 64 bits has to be whole bytes on a byte boundary; any other would be shifted across every byte it touches";

// ---------------------------------------------------------------------------------------
// Criteria
// ---------------------------------------------------------------------------------------

/// The low `width` bits of a number, as a number.
pub open spec fn low_part(value: int, width: int) -> u64 {
    (value % (pow2(width as nat) as int)) as u64
}

/// The low `width` bits of a number.
fn low_bits(value: i128, width: u32) -> (low: u64)
    requires
        width <= 64,
    ensures
        low == low_part(value as int, width as int),
        low == value as int % (pow2(width as nat) as int),
        low < pow2(width as nat),
{
    let mask: u64 = mask_for(width);
    let modulus: i128 = mask as i128 + 1;
    proof {
        lemma2_to64();
        lemma2_to64_rest();
        lemma_pow2_pos(width as nat);
        if width < 64 {
            lemma_pow2_strictly_increases(width as nat, 64);
        }
        assert(modulus == pow2(width as nat));
        lemma_mod_bound(value as int, modulus as int);
    }
    if value >= 0 {
        (value % modulus) as u64
    } else {
        let above: i128 = -(value + 1);
        let rest: i128 = above % modulus;
        proof {
            let m = modulus as int;
            let quotient = above as int / m;
            lemma_fundamental_div_mod(above as int, m);
            lemma_mod_pos_bound(above as int, m);
            assert(value == (-quotient - 1) * m + (m - 1 - rest)) by (nonlinear_arith)
                requires
                    above == m * quotient + rest,
                    above == -(value + 1),
            ;
            lemma_fundamental_div_mod_converse(value as int, m, -quotient - 1, m - 1 - rest);
        }
        (modulus - 1 - rest) as u64
    }
}

/// A criterion as bits to write.
///
/// The criterion's number was read as a signed one, because the parameter it tests may be signed.
/// What goes into the packet is its bits, reduced to the width of the parameter, and with their
/// bytes the other way round where the parameter is little-endian.
pub open spec fn constant_of(guard: Guard, container: Seq<char>) -> Result<
    ConstantModel,
    ErrorModel,
> {
    if guard.operator != CompareOp::Equal {
        Err(refused("Comparison", container, NOT_AN_EQUALITY))
    } else if guard.bit_width > 64 {
        Err(refused("Comparison", container, WIDE_CRITERION))
    } else if guard.swap_bytes && guard.bit_width % 8 != 0 {
        Err(refused("Comparison", container, UNINVERTIBLE_CRITERION))
    } else {
        let reported = low_part(guard.value as int, guard.bit_width as int);
        Ok(
            ConstantModel {
                xtce_name: guard.xtce_name@,
                ident: guard.ident@,
                bit_offset: guard.bit_offset as int,
                bit_width: guard.bit_width as int,
                reported,
                raw: if guard.swap_bytes && guard.bit_width > 8 {
                    swapped(reported as int, guard.bit_width as int) as u64
                } else {
                    reported
                },
            },
        )
    }
}

/// Turns a criterion into bits to write.
fn constant(guard: &Guard, container: &String) -> (result: Result<Constant, FlightError>)
    ensures
        match constant_of(*guard, container@) {
            Ok(model) => result matches Ok(constant) && constant@ == model,
            Err(error) => result matches Err(found) && found@ == error,
        },
{
    if guard.operator != CompareOp::Equal {
        return Err(refuse("Comparison", container, NOT_AN_EQUALITY));
    }
    if guard.bit_width > 64 {
        return Err(refuse("Comparison", container, WIDE_CRITERION));
    }
    if guard.swap_bytes && guard.bit_width % 8 != 0 {
        return Err(refuse("Comparison", container, UNINVERTIBLE_CRITERION));
    }
    let reported = low_bits(guard.value, guard.bit_width);
    let raw = if guard.swap_bytes && guard.bit_width > 8 {
        swap_field_bytes(reported, guard.bit_width)
    } else {
        reported
    };
    Ok(
        Constant {
            xtce_name: guard.xtce_name.clone(),
            ident: guard.ident.clone(),
            bit_offset: guard.bit_offset,
            bit_width: guard.bit_width,
            reported,
            raw,
        },
    )
}

/// The first `count` criteria as bits to write, or why the first one that cannot be is refused.
pub open spec fn constants_of(guards: Seq<&Guard>, container: Seq<char>, count: nat) -> Result<
    Seq<ConstantModel>,
    ErrorModel,
>
    decreases count,
{
    if count == 0 {
        Ok(Seq::empty())
    } else {
        match constants_of(guards, container, (count - 1) as nat) {
            Ok(before) => match constant_of(*guards[count - 1], container) {
                Ok(last) => Ok(before.push(last)),
                Err(error) => Err(error),
            },
            Err(error) => Err(error),
        }
    }
}

/// The contents of a list of criteria.
pub open spec fn constant_models(constants: Seq<Constant>) -> Seq<ConstantModel> {
    constants.map_values(|constant: Constant| constant@)
}

proof fn lemma_constants_stop(guards: Seq<&Guard>, container: Seq<char>, at: nat, count: nat)
    requires
        at <= count,
        constants_of(guards, container, at) is Err,
    ensures
        constants_of(guards, container, count) == constants_of(guards, container, at),
    decreases count - at,
{
    if at < count {
        lemma_constants_stop(guards, container, at, (count - 1) as nat);
    }
}

/// Turns the criteria that select a container into bits to write.
fn constants(guards: &Vec<&Guard>, container: &String) -> (result: Result<
    Vec<Constant>,
    FlightError,
>)
    ensures
        match constants_of(guards@, container@, guards@.len()) {
            Ok(models) => result matches Ok(built) && constant_models(built@) == models,
            Err(error) => result matches Err(found) && found@ == error,
        },
{
    let mut built: Vec<Constant> = Vec::new();
    assert(constant_models(built@) =~= Seq::empty());
    while built.len() < guards.len()
        invariant
            built@.len() <= guards@.len(),
            constants_of(guards@, container@, built@.len()) == Ok::<Seq<ConstantModel>, ErrorModel>(
                constant_models(built@),
            ),
        decreases guards@.len() - built@.len(),
    {
        let ghost before = built@;
        match constant(guards[built.len()], container) {
            Ok(next) => {
                let ghost model = next@;
                built.push(next);
                assert(constant_models(built@) =~= constant_models(before).push(model));
            },
            Err(error) => {
                proof {
                    lemma_constants_stop(
                        guards@,
                        container@,
                        (built@.len() + 1) as nat,
                        guards@.len(),
                    );
                }
                return Err(error);
            },
        }
    }
    Ok(built)
}

// ---------------------------------------------------------------------------------------
// Enumerations
// ---------------------------------------------------------------------------------------

/// What has been handed out while a layout is built.
struct Builder {
    /// The enumerations lifted so far.
    enums: Vec<EnumType>,
    /// The entries of each, so that two parameters of one enumeration share one Rust type.
    keys: Vec<Vec<(i128, u64, String)>>,
    /// Type names handed out so far, so that none is handed out twice.
    taken: Vec<String>,
}

/// The contents of a builder.
pub struct BuilderModel {
    /// The enumerations lifted so far.
    pub enums: Seq<EnumModel>,
    /// The entries of each.
    pub keys: Seq<Seq<EntryModel>>,
    /// Type names handed out so far.
    pub taken: Seq<Seq<char>>,
}

impl View for Builder {
    type V = BuilderModel;

    closed spec fn view(&self) -> BuilderModel {
        BuilderModel {
            enums: enum_models(self.enums@),
            keys: key_models(self.keys@),
            taken: texts(self.taken@),
        }
    }
}

/// What tells one entry of an enumeration from another.
pub struct EntryModel {
    /// The value the ground reads.
    pub value: int,
    /// The bits that a field of this width carries for it.
    pub raw: u64,
    /// What the value is called.
    pub label: Seq<char>,
}

/// The contents of an entry.
pub open spec fn entry_model(entry: (i128, u64, String)) -> EntryModel {
    EntryModel { value: entry.0 as int, raw: entry.1, label: entry.2@ }
}

/// The contents of a list of entries.
pub open spec fn entry_models(entries: Seq<(i128, u64, String)>) -> Seq<EntryModel> {
    entries.map_values(|entry: (i128, u64, String)| entry_model(entry))
}

/// The contents of lists of entries.
pub open spec fn key_models(keys: Seq<Vec<(i128, u64, String)>>) -> Seq<Seq<EntryModel>> {
    keys.map_values(|key: Vec<(i128, u64, String)>| entry_models(key@))
}

/// What tells one enumeration from another: the value, the bits and the label of each entry.
pub open spec fn enum_key(variants: Seq<(i128, i128, String)>, bit_width: int) -> Seq<EntryModel> {
    Seq::new(
        variants.len(),
        |k: int|
            EntryModel {
                value: variants[k].0 as int,
                raw: low_part(variants[k].0 as int, bit_width),
                label: variants[k].2@,
            },
    )
}

/// The first place of an enumeration in a list, from `at` on.
pub open spec fn place_from(list: Seq<Seq<EntryModel>>, key: Seq<EntryModel>, at: int) -> Option<
    int,
>
    decreases list.len() - at,
{
    if at < 0 || at >= list.len() {
        None
    } else if list[at] == key {
        Some(at)
    } else {
        place_from(list, key, at + 1)
    }
}

/// The identifier a label asks for: the label as a type name or, where it has nothing of an
/// identifier in it, its value.
pub open spec fn variant_base(value: int, label: Seq<char>) -> Seq<char> {
    if any_alphanumeric(letters_of(label)) {
        identifier(letters_of(label))
    } else {
        "Value"@ + signed_text(value)
    }
}

/// The identifiers that the labels of an enumeration ask for.
pub open spec fn variant_bases(variants: Seq<(i128, i128, String)>) -> Seq<Seq<char>> {
    variants.map_values(
        |variant: (i128, i128, String)| variant_base(variant.0 as int, variant.2@),
    )
}

/// The variants of the generated enum. Labels are free text, so a label whose identifier has been
/// handed out before gets a number behind it.
pub open spec fn variants_of(variants: Seq<(i128, i128, String)>, bit_width: int) -> Seq<
    VariantModel,
> {
    let bases = variant_bases(variants);
    Seq::new(
        variants.len(),
        |k: int|
            VariantModel {
                ident: fresh(handed_out(bases, k as nat), bases[k]),
                raw: low_part(variants[k].0 as int, bit_width),
                label: variants[k].2@,
            },
    )
}

/// An enumeration lifted into a named Rust type, or one that was lifted before.
pub open spec fn enumeration_of(
    state: BuilderModel,
    variants: Seq<(i128, i128, String)>,
    field_ident: Seq<char>,
    bit_width: int,
    container: Seq<char>,
) -> Result<(BuilderModel, int), ErrorModel> {
    let key = enum_key(variants, bit_width);
    if variants.len() == 0 {
        Err(refused("EnumerationList", container, NO_LABELS))
    } else {
        match place_from(state.keys, key, 0) {
            Some(index) => Ok((state, index)),
            None => {
                let base = identifier(letters_of(field_ident));
                Ok(
                    (
                        BuilderModel {
                            enums: state.enums.push(
                                EnumModel {
                                    type_ident: fresh(state.taken, base),
                                    variants: variants_of(variants, bit_width),
                                },
                            ),
                            keys: state.keys.push(key),
                            taken: state.taken.push(fresh(state.taken, base)),
                        },
                        state.enums.len() as int,
                    ),
                )
            },
        }
    }
}

/// The entries of an enumeration.
fn key_of(variants: &Vec<(i128, i128, String)>, bit_width: u32) -> (key: Vec<
    (i128, u64, String),
>)
    requires
        bit_width <= 64,
    ensures
        entry_models(key@) == enum_key(variants@, bit_width as int),
{
    let ghost expected = enum_key(variants@, bit_width as int);
    let mut key: Vec<(i128, u64, String)> = Vec::new();
    while key.len() < variants.len()
        invariant
            bit_width <= 64,
            expected == enum_key(variants@, bit_width as int),
            key@.len() <= variants@.len(),
            forall|k: int|
                0 <= k < key@.len() ==> #[trigger] entry_model(key@[k]) == expected[k],
        decreases variants@.len() - key@.len(),
    {
        let (value, _, label) = &variants[key.len()];
        key.push((*value, low_bits(*value, bit_width), label.clone()));
    }
    assert(entry_models(key@) =~= expected);
    key
}

/// Whether two lists of entries are the same.
fn same_entries(left: &Vec<(i128, u64, String)>, right: &Vec<(i128, u64, String)>) -> (same: bool)
    ensures
        same == (entry_models(left@) == entry_models(right@)),
{
    let ghost a = entry_models(left@);
    let ghost b = entry_models(right@);
    if left.len() != right.len() {
        assert(a.len() != b.len());
        return false;
    }
    let mut at: usize = 0;
    while at < left.len()
        invariant
            at <= left@.len(),
            left@.len() == right@.len(),
            a == entry_models(left@),
            b == entry_models(right@),
            forall|k: int| 0 <= k < at ==> #[trigger] a[k] == b[k],
        decreases left@.len() - at,
    {
        assert(a[at as int] == entry_model(left@[at as int]));
        assert(b[at as int] == entry_model(right@[at as int]));
        let one = &left[at];
        let other = &right[at];
        if one.0 != other.0 || one.1 != other.1 || one.2 != other.2 {
            return false;
        }
        at = at + 1;
    }
    assert(a =~= b);
    true
}

/// The first place of an enumeration in a list.
fn place_of(list: &Vec<Vec<(i128, u64, String)>>, key: &Vec<(i128, u64, String)>) -> (place:
    Option<usize>)
    ensures
        match place_from(key_models(list@), entry_models(key@), 0) {
            Some(at) => place matches Some(found) && found == at && found < list@.len(),
            None => place is None,
        },
{
    let ghost models = key_models(list@);
    let mut at: usize = 0;
    while at < list.len()
        invariant
            at <= list@.len(),
            models == key_models(list@),
            place_from(models, entry_models(key@), 0) == place_from(
                models,
                entry_models(key@),
                at as int,
            ),
        decreases list@.len() - at,
    {
        assert(models[at as int] == entry_models(list@[at as int]@));
        if same_entries(&list[at], key) {
            return Some(at);
        }
        at = at + 1;
    }
    None
}

/// The contents of a list of variants.
pub open spec fn variant_models(variants: Seq<(String, u64, String)>) -> Seq<VariantModel> {
    variants.map_values(|v: (String, u64, String)| crate::layout::variant_model(v))
}

/// Names the variants of an enumeration.
fn variants(given: &Vec<(i128, i128, String)>, bit_width: u32) -> (built: Vec<
    (String, u64, String),
>)
    requires
        bit_width <= 64,
    ensures
        variant_models(built@) == variants_of(given@, bit_width as int),
{
    let ghost bases = variant_bases(given@);
    let mut taken: Vec<String> = Vec::new();
    let mut built: Vec<(String, u64, String)> = Vec::new();
    assert(texts(taken@) =~= handed_out(bases, 0));
    while built.len() < given.len()
        invariant
            built@.len() <= given@.len(),
            bit_width <= 64,
            bases == variant_bases(given@),
            texts(taken@) == handed_out(bases, built@.len()),
            forall|k: int|
                0 <= k < built@.len() ==> #[trigger] crate::layout::variant_model(built@[k])
                    == variants_of(given@, bit_width as int)[k],
        decreases given@.len() - built@.len(),
    {
        let ghost at = built@.len() as int;
        let (value, _, label) = &given[built.len()];
        let found = letters(label.as_str());
        let base = if has_alphanumeric(&found) {
            type_ident_of(&found)
        } else {
            let mut base = "Value".to_owned();
            base.append(signed_decimal(*value).as_str());
            base
        };
        assert(base@ == bases[at]);
        let ident = unique(&mut taken, base);
        let raw = low_bits(*value, bit_width);
        built.push((ident, raw, label.clone()));
    }
    assert(variant_models(built@) =~= variants_of(given@, bit_width as int));
    built
}

impl Builder {
    /// Lifts an enumeration into a named Rust type, reusing one if the variants match.
    fn enumeration(
        &mut self,
        given: &Vec<(i128, i128, String)>,
        field_ident: &String,
        bit_width: u32,
        container: &String,
    ) -> (result: Result<usize, FlightError>)
        requires
            bit_width <= 64,
            old(self)@.keys.len() == old(self)@.enums.len(),
        ensures
            match enumeration_of(
                old(self)@,
                given@,
                field_ident@,
                bit_width as int,
                container@,
            ) {
                Ok((state, index)) => final(self)@ == state && (result matches Ok(found) && found
                    == index),
                Err(error) => final(self)@ == old(self)@ && (result matches Err(found) && found@
                    == error),
            },
            final(self)@.keys.len() == final(self)@.enums.len(),
    {
        if given.len() == 0 {
            return Err(refuse("EnumerationList", container, NO_LABELS));
        }
        let key = key_of(given, bit_width);
        if let Some(index) = place_of(&self.keys, &key) {
            return Ok(index);
        }
        let ghost before = *self;
        let built = variants(given, bit_width);
        let type_ident = unique(&mut self.taken, type_ident(field_ident.as_str()));
        let index = self.enums.len();
        let definition = EnumType { type_ident, variants: built };
        let ghost model = definition@;
        self.enums.push(definition);
        self.keys.push(key);
        proof {
            assert(enum_models(self.enums@) =~= enum_models(before.enums@).push(model));
            assert(key_models(self.keys@) =~= key_models(before.keys@).push(entry_models(key@)));
        }
        Ok(index)
    }
}

// ---------------------------------------------------------------------------------------
// Copies
// ---------------------------------------------------------------------------------------

/// A copy of bytes.
fn copy_bytes(bytes: &Vec<u8>) -> (copy: Vec<u8>)
    ensures
        copy@ == bytes@,
{
    let mut copy: Vec<u8> = Vec::new();
    while copy.len() < bytes.len()
        invariant
            copy@.len() <= bytes@.len(),
            copy@ == bytes@.take(copy@.len() as int),
        decreases bytes@.len() - copy@.len(),
    {
        let ghost at = copy@.len() as int;
        copy.push(bytes[copy.len()]);
        assert(bytes@.take(at + 1) =~= bytes@.take(at).push(bytes@[at]));
    }
    assert(bytes@.take(bytes@.len() as int) =~= bytes@);
    copy
}

/// A copy of a delimiter.
fn copy_delimiter(delimiter: &TextDelimiter) -> (copy: TextDelimiter)
    ensures
        copy@ == delimiter@,
{
    match delimiter {
        TextDelimiter::WholeBuffer => TextDelimiter::WholeBuffer,
        TextDelimiter::TerminationChar(bytes) => TextDelimiter::TerminationChar(copy_bytes(bytes)),
        TextDelimiter::LeadingSize { size_in_bits } => TextDelimiter::LeadingSize {
            size_in_bits: *size_in_bits,
        },
    }
}

/// A copy of an optional text.
fn copy_optional(text: &Option<String>) -> (copy: Option<String>)
    ensures
        crate::layout::optional_text(copy) == crate::layout::optional_text(*text),
{
    match text {
        Some(text) => Some(text.clone()),
        None => None,
    }
}

/// A copy of a calibrator.
fn copy_calibration(calibration: &Calibration) -> (copy: Calibration)
    ensures
        copy@ == calibration@,
{
    match calibration {
        Calibration::Polynomial(terms) => {
            let mut copies: Vec<Term> = Vec::new();
            while copies.len() < terms.len()
                invariant
                    copies@.len() <= terms@.len(),
                    forall|i: int| 0 <= i < copies@.len() ==> (#[trigger] copies@[i])@ == terms@[i]@,
                decreases terms@.len() - copies@.len(),
            {
                let term = &terms[copies.len()];
                copies.push(
                    Term { coefficient: term.coefficient.clone(), exponent: term.exponent },
                );
            }
            assert(copies@.map_values(|term: Term| term@) =~= terms@.map_values(
                |term: Term| term@,
            ));
            Calibration::Polynomial(copies)
        },
        Calibration::Spline(spline) => {
            let points = &spline.points;
            let mut copies: Vec<SplinePoint> = Vec::new();
            while copies.len() < points.len()
                invariant
                    copies@.len() <= points@.len(),
                    forall|i: int|
                        0 <= i < copies@.len() ==> (#[trigger] copies@[i])@ == points@[i]@,
                decreases points@.len() - copies@.len(),
            {
                let point = &points[copies.len()];
                copies.push(
                    SplinePoint { raw: point.raw.clone(), calibrated: point.calibrated.clone() },
                );
            }
            assert(copies@.map_values(|point: SplinePoint| point@) =~= points@.map_values(
                |point: SplinePoint| point@,
            ));
            Calibration::Spline(
                Spline { points: copies, order: spline.order, extrapolate: spline.extrapolate },
            )
        },
    }
}

/// A copy of a comparison.
fn copy_comparison(comparison: &ContextComparison) -> (copy: ContextComparison)
    ensures
        copy@ == comparison@,
{
    match comparison {
        ContextComparison::Value { operator, value } => ContextComparison::Value {
            operator: *operator,
            value: *value,
        },
        ContextComparison::Labels(ranges) => {
            let mut copies: Vec<(i128, i128)> = Vec::new();
            while copies.len() < ranges.len()
                invariant
                    copies@.len() <= ranges@.len(),
                    forall|i: int| 0 <= i < copies@.len() ==> #[trigger] copies@[i] == ranges@[i],
                decreases ranges@.len() - copies@.len(),
            {
                copies.push(ranges[copies.len()]);
            }
            assert(copies@ =~= ranges@);
            ContextComparison::Labels(copies)
        },
    }
}

// ---------------------------------------------------------------------------------------
// Fields
// ---------------------------------------------------------------------------------------

/// Why a text field cannot be filled.
pub open spec fn text_objection(
    delimiter: DelimiterModel,
    bit_offset: int,
    bit_width: int,
) -> Option<&'static str> {
    if bit_offset % 8 != 0 || bit_width % 8 != 0 {
        Some(UNALIGNED_TEXT)
    } else {
        match delimiter {
            DelimiterModel::WholeBuffer => None,
            DelimiterModel::TerminationChar(terminator) => if terminator.len() == 0 {
                Some(EMPTY_TERMINATOR)
            } else if 8 * terminator.len() > bit_width {
                Some(LONG_TERMINATOR)
            } else {
                None
            },
            DelimiterModel::LeadingSize(size) => if size % 8 != 0 {
                Some(UNALIGNED_PREFIX)
            } else if size == 0 || size > 32 {
                Some(PREFIX_WIDTH)
            } else if size > bit_width {
                Some(LONG_PREFIX)
            } else {
                None
            },
        }
    }
}

/// What a text field has to look like to be filled.
fn check_text(delimiter: &TextDelimiter, bit_offset: usize, bit_width: u32) -> (objection: Option<
    &'static str,
>)
    ensures
        match text_objection(delimiter@, bit_offset as int, bit_width as int) {
            Some(reason) => objection matches Some(found) && found@ == reason@,
            None => objection is None,
        },
{
    if bit_offset % 8 != 0 || bit_width % 8 != 0 {
        return Some(UNALIGNED_TEXT);
    }
    match delimiter {
        TextDelimiter::WholeBuffer => {},
        TextDelimiter::TerminationChar(terminator) => {
            if terminator.len() == 0 {
                return Some(EMPTY_TERMINATOR);
            }
            if terminator.len() > bit_width as usize / 8 {
                return Some(LONG_TERMINATOR);
            }
        },
        TextDelimiter::LeadingSize { size_in_bits } => {
            if *size_in_bits % 8 != 0 {
                return Some(UNALIGNED_PREFIX);
            }
            if *size_in_bits == 0 || *size_in_bits > 32 {
                return Some(PREFIX_WIDTH);
            }
            if *size_in_bits > bit_width {
                return Some(LONG_PREFIX);
            }
        },
    }
    None
}

/// What the caller supplies for a field, or why nothing can be.
pub open spec fn kind_of(
    state: BuilderModel,
    field: Field,
    bit_offset: int,
    bit_width: int,
    container: Seq<char>,
) -> Result<(BuilderModel, KindModel), ErrorModel> {
    match field.repr {
        Repr::Unsigned => Ok((state, KindModel::Unsigned)),
        Repr::Signed(coding) => Ok((state, KindModel::Signed(coding))),
        Repr::Float16 => if bit_width == 16 {
            Ok((state, KindModel::Float16))
        } else {
            Err(refused("ParameterRefEntry", container, FLOAT_WIDTH))
        },
        Repr::Float32 => if bit_width == 32 {
            Ok((state, KindModel::Float32))
        } else {
            Err(refused("ParameterRefEntry", container, FLOAT_WIDTH))
        },
        Repr::Float64 => if bit_width == 64 {
            Ok((state, KindModel::Float64))
        } else {
            Err(refused("ParameterRefEntry", container, FLOAT_WIDTH))
        },
        Repr::MilStd1750A => Err(refused("ParameterRefEntry", container, MANY_TO_ONE)),
        Repr::Bool => Ok((state, KindModel::Bool)),
        Repr::Enumerated(given) => match enumeration_of(
            state,
            given@,
            field.ident@,
            bit_width,
            container,
        ) {
            Ok((state, index)) => Ok((state, KindModel::Enumerated(index))),
            Err(error) => Err(error),
        },
        Repr::Text { charset, delimiter } => match text_objection(
            delimiter@,
            bit_offset,
            bit_width,
        ) {
            Some(reason) => Err(refused("StringDataEncoding", container, reason)),
            None => Ok((state, KindModel::Text(charset, delimiter@))),
        },
        Repr::Binary => if bit_offset % 8 != 0 || bit_width % 8 != 0 {
            Err(refused("ParameterRefEntry", container, UNALIGNED_BINARY))
        } else {
            Ok((state, KindModel::Binary))
        },
    }
}

/// Whether a calibrator is a spline above first order.
pub open spec fn above_first_order(calibration: Calibration) -> bool {
    calibration matches Calibration::Spline(spline) && spline.order > 1
}

/// Whether a calibrator of a field is a spline above first order.
pub open spec fn any_above_first_order(field: Field) -> bool {
    ||| field.calibration matches Some(calibration) && above_first_order(calibration)
    ||| exists|i: int|
        0 <= i < field.contexts@.len() && above_first_order(
            (#[trigger] field.contexts@[i]).calibration,
        )
}

/// Whether a calibrator is a spline above first order.
fn is_high_order(calibration: &Calibration) -> (high: bool)
    ensures
        high == above_first_order(*calibration),
{
    match calibration {
        Calibration::Polynomial(_) => false,
        Calibration::Spline(spline) => spline.order > 1,
    }
}

/// Whether a calibrator of a field is a spline above first order.
fn high_order(field: &Field) -> (high: bool)
    ensures
        high == any_above_first_order(*field),
{
    if let Some(calibration) = &field.calibration {
        if is_high_order(calibration) {
            return true;
        }
    }
    let mut at: usize = 0;
    while at < field.contexts.len()
        invariant
            at <= field.contexts@.len(),
            forall|i: int|
                0 <= i < at ==> !above_first_order((#[trigger] field.contexts@[i]).calibration),
        decreases field.contexts@.len() - at,
    {
        if is_high_order(&field.contexts[at].calibration) {
            assert(above_first_order(field.contexts@[at as int].calibration));
            return true;
        }
        at = at + 1;
    }
    false
}

/// A field the caller sets, before its contexts are looked at, or why it cannot be one.
pub open spec fn field_of(state: BuilderModel, field: Field, container: Seq<char>) -> Result<
    (BuilderModel, FieldModel),
    ErrorModel,
> {
    match field.span {
        None => Err(refused("ParameterRefEntry", container, DYNAMIC_WIDTH)),
        Some((bit_offset, bit_width)) => if !field.repr.spec_borrows() && !(1 <= bit_width <= 64) {
            Err(refused("ParameterRefEntry", container, NUMBER_WIDTH))
        } else if !field.repr.spec_borrows() && field.swap_bytes && bit_width % 8 != 0 {
            Err(refused("ParameterRefEntry", container, UNINVERTIBLE_FIELD))
        } else if any_above_first_order(field) {
            Err(refused("SplineCalibrator", container, HIGH_ORDER))
        } else {
            match kind_of(state, field, bit_offset as int, bit_width as int, container) {
                Ok((state, kind)) => Ok(
                    (
                        state,
                        FieldModel {
                            xtce_name: field.xtce_name@,
                            ident: field.ident@,
                            bit_offset: bit_offset as int,
                            bit_width: bit_width as int,
                            kind,
                            swap_bytes: field.swap_bytes,
                            calibration: calibration_model(field.calibration),
                            contexts: Seq::empty(),
                        },
                    ),
                ),
                Err(error) => Err(error),
            }
        },
    }
}

impl Builder {
    /// Decides what the caller supplies for a field.
    fn kind(
        &mut self,
        field: &Field,
        bit_offset: usize,
        bit_width: u32,
        container: &String,
    ) -> (result: Result<Kind, FlightError>)
        requires
            !field.repr.spec_borrows() ==> bit_width <= 64,
            old(self)@.keys.len() == old(self)@.enums.len(),
        ensures
            match kind_of(old(self)@, *field, bit_offset as int, bit_width as int, container@) {
                Ok((state, model)) => final(self)@ == state && (result matches Ok(kind) && kind@
                    == model),
                Err(error) => final(self)@ == old(self)@ && (result matches Err(found) && found@
                    == error),
            },
            final(self)@.keys.len() == final(self)@.enums.len(),
    {
        match &field.repr {
            Repr::Unsigned => Ok(Kind::Unsigned),
            Repr::Signed(coding) => Ok(Kind::Signed(*coding)),
            Repr::Float16 => if bit_width == 16 {
                Ok(Kind::Float16)
            } else {
                Err(refuse("ParameterRefEntry", container, FLOAT_WIDTH))
            },
            Repr::Float32 => if bit_width == 32 {
                Ok(Kind::Float32)
            } else {
                Err(refuse("ParameterRefEntry", container, FLOAT_WIDTH))
            },
            Repr::Float64 => if bit_width == 64 {
                Ok(Kind::Float64)
            } else {
                Err(refuse("ParameterRefEntry", container, FLOAT_WIDTH))
            },
            Repr::MilStd1750A => Err(refuse("ParameterRefEntry", container, MANY_TO_ONE)),
            Repr::Bool => Ok(Kind::Bool),
            Repr::Enumerated(given) => match self.enumeration(
                given,
                &field.ident,
                bit_width,
                container,
            ) {
                Ok(index) => Ok(Kind::Enumerated(index)),
                Err(error) => Err(error),
            },
            Repr::Text { charset, delimiter } => match check_text(
                delimiter,
                bit_offset,
                bit_width,
            ) {
                Some(reason) => Err(refuse("StringDataEncoding", container, reason)),
                None => Ok(
                    Kind::Text { charset: *charset, delimiter: copy_delimiter(delimiter) },
                ),
            },
            Repr::Binary => if bit_offset % 8 != 0 || bit_width % 8 != 0 {
                Err(refuse("ParameterRefEntry", container, UNALIGNED_BINARY))
            } else {
                Ok(Kind::Binary)
            },
        }
    }

    /// Turns an entry into a field the caller sets.
    fn field(&mut self, field: &Field, container: &String) -> (result: Result<
        FlightField,
        FlightError,
    >)
        requires
            old(self)@.keys.len() == old(self)@.enums.len(),
        ensures
            match field_of(old(self)@, *field, container@) {
                Ok((state, model)) => final(self)@ == state && (result matches Ok(built) && built@
                    == model),
                Err(error) => final(self)@ == old(self)@ && (result matches Err(found) && found@
                    == error),
            },
            final(self)@.keys.len() == final(self)@.enums.len(),
    {
        let (bit_offset, bit_width) = match field.span {
            Some(span) => span,
            None => {
                return Err(refuse("ParameterRefEntry", container, DYNAMIC_WIDTH));
            },
        };
        if !field.repr.borrows() && !(1 <= bit_width && bit_width <= 64) {
            return Err(refuse("ParameterRefEntry", container, NUMBER_WIDTH));
        }
        if !field.repr.borrows() && field.swap_bytes && bit_width % 8 != 0 {
            return Err(refuse("ParameterRefEntry", container, UNINVERTIBLE_FIELD));
        }
        if high_order(field) {
            return Err(refuse("SplineCalibrator", container, HIGH_ORDER));
        }
        let kind = match self.kind(field, bit_offset, bit_width, container) {
            Ok(kind) => kind,
            Err(error) => {
                return Err(error);
            },
        };
        let built = FlightField {
            xtce_name: field.xtce_name.clone(),
            ident: field.ident.clone(),
            bit_offset,
            bit_width,
            kind,
            swap_bytes: field.swap_bytes,
            calibration: match &field.calibration {
                Some(calibration) => Some(copy_calibration(calibration)),
                None => None,
            },
            contexts: Vec::new(),
        };
        assert(built@.contexts =~= Seq::empty());
        Ok(built)
    }
}

/// Whether a criterion covers exactly the bits of an entry.
pub open spec fn is_same_span(constant: ConstantModel, field: Field) -> bool {
    match field.span {
        Some((bit_offset, bit_width)) => constant.bit_offset == bit_offset && constant.bit_width
            == bit_width,
        None => false,
    }
}

/// Whether any criterion covers exactly the bits of an entry.
pub open spec fn is_covered(constants: Seq<ConstantModel>, field: Field) -> bool {
    exists|k: int| 0 <= k < constants.len() && is_same_span(#[trigger] constants[k], field)
}

/// Whether a criterion covers exactly the bits of an entry.
fn same_span(constant: &Constant, field: &Field) -> (same: bool)
    ensures
        same == is_same_span(constant@, *field),
{
    match field.span {
        Some((bit_offset, bit_width)) => constant.bit_offset == bit_offset && constant.bit_width
            == bit_width,
        None => false,
    }
}

/// Whether any criterion covers exactly the bits of an entry.
fn covered(constants: &Vec<Constant>, field: &Field) -> (found: bool)
    ensures
        found == is_covered(constant_models(constants@), *field),
{
    let ghost models = constant_models(constants@);
    let mut at: usize = 0;
    while at < constants.len()
        invariant
            at <= constants@.len(),
            models == constant_models(constants@),
            forall|k: int| 0 <= k < at ==> !is_same_span(#[trigger] models[k], *field),
        decreases constants@.len() - at,
    {
        assert(models[at as int] == constants@[at as int]@);
        if same_span(&constants[at], field) {
            return true;
        }
        at = at + 1;
    }
    false
}

/// The first field of a name, from `at` on.
pub open spec fn ident_from(fields: Seq<(FieldModel, int)>, ident: Seq<char>, at: int) -> Option<
    int,
>
    decreases fields.len() - at,
{
    if at < 0 || at >= fields.len() {
        None
    } else if fields[at].0.ident == ident {
        Some(at)
    } else {
        ident_from(fields, ident, at + 1)
    }
}

/// Fields with one more. A struct cannot have a field twice, so a repeated one takes the place of
/// the one before it: the last wins, as it does for a reader of the packet.
pub open spec fn with_field(
    fields: Seq<(FieldModel, int)>,
    field: FieldModel,
    source: int,
) -> Seq<(FieldModel, int)> {
    match ident_from(fields, field.ident, 0) {
        Some(at) => fields.update(at, (field, source)),
        None => fields.push((field, source)),
    }
}

/// The fields that the first `count` entries of a container give the caller to set, each with the
/// entry it comes from. An entry that a criterion covers gives none: the criterion and the entry
/// are the same bits, and they are not the caller's.
pub open spec fn fields_of(
    state: BuilderModel,
    fields: Seq<Field>,
    constants: Seq<ConstantModel>,
    container: Seq<char>,
    count: nat,
) -> Result<(BuilderModel, Seq<(FieldModel, int)>), ErrorModel>
    decreases count,
{
    if count == 0 {
        Ok((state, Seq::empty()))
    } else {
        match fields_of(state, fields, constants, container, (count - 1) as nat) {
            Ok((state, before)) => if is_covered(constants, fields[count - 1]) {
                Ok((state, before))
            } else {
                match field_of(state, fields[count - 1], container) {
                    Ok((state, field)) => Ok((state, with_field(before, field, count - 1))),
                    Err(error) => Err(error),
                }
            },
            Err(error) => Err(error),
        }
    }
}

/// The contents of fields and the entries they come from.
pub open spec fn sourced(fields: Seq<FlightField>, sources: Seq<usize>) -> Seq<(FieldModel, int)> {
    Seq::new(fields.len(), |i: int| (fields[i]@, sources[i] as int))
}

proof fn lemma_fields_stop(
    state: BuilderModel,
    fields: Seq<Field>,
    constants: Seq<ConstantModel>,
    container: Seq<char>,
    at: nat,
    count: nat,
)
    requires
        at <= count,
        fields_of(state, fields, constants, container, at) is Err,
    ensures
        fields_of(state, fields, constants, container, count) == fields_of(
            state,
            fields,
            constants,
            container,
            at,
        ),
    decreases count - at,
{
    if at < count {
        lemma_fields_stop(state, fields, constants, container, at, (count - 1) as nat);
    }
}

/// The first field of a name.
fn place_of_ident(fields: &Vec<FlightField>, ident: &String, Ghost(sources): Ghost<Seq<usize>>) -> (
    place: Option<usize>)
    requires
        sources.len() == fields@.len(),
    ensures
        match ident_from(sourced(fields@, sources), ident@, 0) {
            Some(at) => place matches Some(found) && found == at && found < fields@.len(),
            None => place is None,
        },
{
    let mut at: usize = 0;
    while at < fields.len()
        invariant
            at <= fields@.len(),
            sources.len() == fields@.len(),
            ident_from(sourced(fields@, sources), ident@, 0) == ident_from(
                sourced(fields@, sources),
                ident@,
                at as int,
            ),
        decreases fields@.len() - at,
    {
        assert(sourced(fields@, sources)[at as int].0.ident == fields@[at as int].ident@);
        if fields[at].ident == *ident {
            return Some(at);
        }
        at = at + 1;
    }
    None
}

impl Builder {
    /// Turns the entries of a container into fields the caller sets.
    fn fields(
        &mut self,
        entries: &Vec<Field>,
        constants: &Vec<Constant>,
        container: &String,
    ) -> (result: Result<(Vec<FlightField>, Vec<usize>), FlightError>)
        requires
            old(self)@.keys.len() == old(self)@.enums.len(),
        ensures
            match fields_of(
                old(self)@,
                entries@,
                constant_models(constants@),
                container@,
                entries@.len(),
            ) {
                Ok((state, models)) => final(self)@ == state && (result matches Ok((fields, sources))
                    && fields@.len() == sources@.len() && sourced(fields@, sources@) == models && (
                forall|i: int| 0 <= i < sources@.len() ==> #[trigger] sources@[i] < entries@.len())
                    && (forall|i: int|
                    0 <= i < fields@.len() ==> (#[trigger] fields@[i])@.contexts =~= Seq::empty())),
                Err(error) => result matches Err(found) && found@ == error,
            },
            final(self)@.keys.len() == final(self)@.enums.len(),
    {
        let ghost models = constant_models(constants@);
        let mut fields: Vec<FlightField> = Vec::new();
        let mut sources: Vec<usize> = Vec::new();
        let mut at: usize = 0;
        assert(sourced(fields@, sources@) =~= Seq::empty());
        while at < entries.len()
            invariant
                at <= entries@.len(),
                models == constant_models(constants@),
                fields@.len() == sources@.len(),
                self@.keys.len() == self@.enums.len(),
                forall|i: int| 0 <= i < sources@.len() ==> #[trigger] sources@[i] < entries@.len(),
                forall|i: int|
                    0 <= i < fields@.len() ==> (#[trigger] fields@[i])@.contexts =~= Seq::empty(),
                fields_of(old(self)@, entries@, models, container@, at as nat) == Ok::<
                    (BuilderModel, Seq<(FieldModel, int)>),
                    ErrorModel,
                >((self@, sourced(fields@, sources@))),
            decreases entries@.len() - at,
        {
            if !covered(constants, &entries[at]) {
                let ghost before = sourced(fields@, sources@);
                match self.field(&entries[at], container) {
                    Ok(field) => {
                        let ghost model = field@;
                        match place_of_ident(&fields, &field.ident, Ghost(sources@)) {
                            Some(place) => {
                                fields.set(place, field);
                                sources.set(place, at);
                            },
                            None => {
                                fields.push(field);
                                sources.push(at);
                            },
                        }
                        assert(sourced(fields@, sources@) =~= with_field(before, model, at as int));
                    },
                    Err(error) => {
                        proof {
                            lemma_fields_stop(
                                old(self)@,
                                entries@,
                                models,
                                container@,
                                (at + 1) as nat,
                                entries@.len(),
                            );
                        }
                        return Err(error);
                    },
                }
            }
            at = at + 1;
        }
        Ok((fields, sources))
    }
}

// ---------------------------------------------------------------------------------------
// Contexts
// ---------------------------------------------------------------------------------------

/// The contents of a list of fields.
pub open spec fn field_models(fields: Seq<FlightField>) -> Seq<FieldModel> {
    fields.map_values(|field: FlightField| field@)
}

/// A field before its contexts are resolved.
pub open spec fn bare(field: FieldModel) -> FieldModel {
    FieldModel { contexts: Seq::empty(), ..field }
}

/// Fields before their contexts are resolved.
pub open spec fn all_bare(fields: Seq<FieldModel>) -> Seq<FieldModel> {
    fields.map_values(|field: FieldModel| bare(field))
}

/// The first field, from `at` on, that occupies exactly a run of bits.
pub open spec fn occupant_from(
    fields: Seq<FieldModel>,
    bit_offset: int,
    bit_width: int,
    at: int,
) -> Option<int>
    decreases fields.len() - at,
{
    if at < 0 || at >= fields.len() {
        None
    } else if fields[at].bit_offset == bit_offset && fields[at].bit_width == bit_width {
        Some(at)
    } else {
        occupant_from(fields, bit_offset, bit_width, at + 1)
    }
}

/// A comparison resolved to the field that occupies exactly the bits it reads, or why there is
/// nothing to compare.
pub open spec fn test_of(test: PlanTest, fields: Seq<FieldModel>, container: Seq<char>) -> Result<
    TestModel,
    ErrorModel,
> {
    match occupant_from(fields, test.bit_offset as int, test.bit_width as int, 0) {
        None => Err(refused("ContextCalibrator", container, NOT_CARRIED)),
        Some(at) => {
            let field = fields[at];
            if field.kind is Bool && field.bit_width != 1 {
                Err(refused("ContextCalibrator", container, WIDE_BOOLEAN))
            } else if !(field.kind is Unsigned || field.kind is Signed || field.kind is Bool
                || field.kind is Enumerated) {
                Err(refused("ContextCalibrator", container, NOT_A_NUMBER))
            } else {
                Ok(
                    TestModel {
                        xtce_name: test.xtce_name@,
                        ident: field.ident,
                        enumerated: field.kind is Enumerated,
                        test: test.comparison@,
                    },
                )
            }
        },
    }
}

/// A condition resolved to the fields of the struct.
pub open spec fn criterion_of(
    criterion: PlanCriterion,
    fields: Seq<FieldModel>,
    container: Seq<char>,
) -> Result<CriterionModel, ErrorModel>
    decreases criterion,
{
    match criterion {
        PlanCriterion::Test(test) => match test_of(test, fields, container) {
            Ok(test) => Ok(CriterionModel::Test(test)),
            Err(error) => Err(error),
        },
        PlanCriterion::All(children) => match criteria_of(
            children@,
            fields,
            container,
            children@.len(),
        ) {
            Ok(children) => Ok(CriterionModel::All(children)),
            Err(error) => Err(error),
        },
        PlanCriterion::Any(children) => match criteria_of(
            children@,
            fields,
            container,
            children@.len(),
        ) {
            Ok(children) => Ok(CriterionModel::Any(children)),
            Err(error) => Err(error),
        },
    }
}

/// The first `count` conditions of a list, resolved to the fields of the struct.
pub open spec fn criteria_of(
    criteria: Seq<PlanCriterion>,
    fields: Seq<FieldModel>,
    container: Seq<char>,
    count: nat,
) -> Result<Seq<CriterionModel>, ErrorModel>
    decreases criteria, count,
{
    if count == 0 || count > criteria.len() {
        Ok(Seq::empty())
    } else {
        match criteria_of(criteria, fields, container, (count - 1) as nat) {
            Ok(before) => match criterion_of(criteria[count - 1], fields, container) {
                Ok(last) => Ok(before.push(last)),
                Err(error) => Err(error),
            },
            Err(error) => Err(error),
        }
    }
}

proof fn lemma_criteria_stop(
    criteria: Seq<PlanCriterion>,
    fields: Seq<FieldModel>,
    container: Seq<char>,
    at: nat,
    count: nat,
)
    requires
        at <= count <= criteria.len(),
        criteria_of(criteria, fields, container, at) is Err,
    ensures
        criteria_of(criteria, fields, container, count) == criteria_of(
            criteria,
            fields,
            container,
            at,
        ),
    decreases count - at,
{
    if at < count {
        lemma_criteria_stop(criteria, fields, container, at, (count - 1) as nat);
    }
}

/// Resolves a comparison to a field of the struct.
fn resolve_test(test: &PlanTest, fields: &Vec<FlightField>, container: &String) -> (result: Result<
    ContextTest,
    FlightError,
>)
    ensures
        match test_of(*test, all_bare(field_models(fields@)), container@) {
            Ok(model) => result matches Ok(found) && found@ == model,
            Err(error) => result matches Err(found) && found@ == error,
        },
{
    let ghost models = all_bare(field_models(fields@));
    let mut at: usize = 0;
    while at < fields.len()
        invariant
            at <= fields@.len(),
            models == all_bare(field_models(fields@)),
            occupant_from(models, test.bit_offset as int, test.bit_width as int, 0)
                == occupant_from(
                models,
                test.bit_offset as int,
                test.bit_width as int,
                at as int,
            ),
        decreases fields@.len() - at,
    {
        let field = &fields[at];
        assert(models[at as int] == bare(field@));
        if field.bit_offset == test.bit_offset && field.bit_width == test.bit_width {
            let enumerated = match &field.kind {
                Kind::Unsigned => false,
                Kind::Signed(_) => false,
                Kind::Bool => {
                    if field.bit_width != 1 {
                        return Err(refuse("ContextCalibrator", container, WIDE_BOOLEAN));
                    }
                    false
                },
                Kind::Enumerated(_) => true,
                _ => {
                    return Err(refuse("ContextCalibrator", container, NOT_A_NUMBER));
                },
            };
            return Ok(
                ContextTest {
                    xtce_name: test.xtce_name.clone(),
                    ident: field.ident.clone(),
                    enumerated,
                    test: copy_comparison(&test.comparison),
                },
            );
        }
        at = at + 1;
    }
    Err(refuse("ContextCalibrator", container, NOT_CARRIED))
}

/// Resolves a condition to the fields of the struct.
fn resolve(criterion: &PlanCriterion, fields: &Vec<FlightField>, container: &String) -> (result:
    Result<ContextCriterion, FlightError>)
    ensures
        match criterion_of(*criterion, all_bare(field_models(fields@)), container@) {
            Ok(model) => result matches Ok(found) && found@ == model,
            Err(error) => result matches Err(found) && found@ == error,
        },
    decreases criterion,
{
    match criterion {
        PlanCriterion::Test(test) => match resolve_test(test, fields, container) {
            Ok(test) => Ok(ContextCriterion::Test(test)),
            Err(error) => Err(error),
        },
        PlanCriterion::All(children) => match resolve_all(children, fields, container) {
            Ok(children) => Ok(ContextCriterion::All(children)),
            Err(error) => Err(error),
        },
        PlanCriterion::Any(children) => match resolve_all(children, fields, container) {
            Ok(children) => Ok(ContextCriterion::Any(children)),
            Err(error) => Err(error),
        },
    }
}

/// Resolves conditions to the fields of the struct.
fn resolve_all(
    criteria: &Vec<PlanCriterion>,
    fields: &Vec<FlightField>,
    container: &String,
) -> (result: Result<Vec<ContextCriterion>, FlightError>)
    ensures
        match criteria_of(
            criteria@,
            all_bare(field_models(fields@)),
            container@,
            criteria@.len(),
        ) {
            Ok(models) => result matches Ok(found) && crate::layout::criterion_models(
                found@,
                found@.len(),
            ) == models,
            Err(error) => result matches Err(found) && found@ == error,
        },
    decreases criteria,
{
    let ghost slots = all_bare(field_models(fields@));
    let mut found: Vec<ContextCriterion> = Vec::new();
    while found.len() < criteria.len()
        invariant
            found@.len() <= criteria@.len(),
            slots == all_bare(field_models(fields@)),
            criteria_of(criteria@, slots, container@, found@.len()) == Ok::<
                Seq<CriterionModel>,
                ErrorModel,
            >(crate::layout::criterion_models(found@, found@.len())),
        decreases criteria@.len() - found@.len(),
    {
        let ghost before = found@;
        match resolve(&criteria[found.len()], fields, container) {
            Ok(next) => {
                found.push(next);
                proof {
                    crate::layout::lemma_criterion_models_prefix(before, found@, before.len());
                }
            },
            Err(error) => {
                proof {
                    lemma_criteria_stop(
                        criteria@,
                        slots,
                        container@,
                        (found@.len() + 1) as nat,
                        criteria@.len(),
                    );
                }
                return Err(error);
            },
        }
    }
    Ok(found)
}

/// The first `count` contexts of a field, resolved to the fields of the struct.
pub open spec fn contexts_of(
    contexts: Seq<PlanContext>,
    fields: Seq<FieldModel>,
    container: Seq<char>,
    count: nat,
) -> Result<Seq<ContextModel>, ErrorModel>
    decreases count,
{
    if count == 0 {
        Ok(Seq::empty())
    } else {
        match contexts_of(contexts, fields, container, (count - 1) as nat) {
            Ok(before) => match criterion_of(contexts[count - 1].criteria, fields, container) {
                Ok(criteria) => Ok(
                    before.push(
                        ContextModel { criteria, calibration: contexts[count - 1].calibration@ },
                    ),
                ),
                Err(error) => Err(error),
            },
            Err(error) => Err(error),
        }
    }
}

proof fn lemma_contexts_stop(
    contexts: Seq<PlanContext>,
    fields: Seq<FieldModel>,
    container: Seq<char>,
    at: nat,
    count: nat,
)
    requires
        at <= count,
        contexts_of(contexts, fields, container, at) is Err,
    ensures
        contexts_of(contexts, fields, container, count) == contexts_of(
            contexts,
            fields,
            container,
            at,
        ),
    decreases count - at,
{
    if at < count {
        lemma_contexts_stop(contexts, fields, container, at, (count - 1) as nat);
    }
}

/// The contents of a list of contexts.
pub open spec fn context_models(contexts: Seq<FlightContext>) -> Seq<ContextModel> {
    contexts.map_values(|context: FlightContext| context@)
}

/// Resolves the contexts of a field.
fn resolve_contexts(
    contexts: &Vec<PlanContext>,
    fields: &Vec<FlightField>,
    container: &String,
) -> (result: Result<Vec<FlightContext>, FlightError>)
    ensures
        match contexts_of(
            contexts@,
            all_bare(field_models(fields@)),
            container@,
            contexts@.len(),
        ) {
            Ok(models) => result matches Ok(found) && context_models(found@) == models,
            Err(error) => result matches Err(found) && found@ == error,
        },
{
    let ghost slots = all_bare(field_models(fields@));
    let mut found: Vec<FlightContext> = Vec::new();
    assert(context_models(found@) =~= Seq::empty());
    while found.len() < contexts.len()
        invariant
            found@.len() <= contexts@.len(),
            slots == all_bare(field_models(fields@)),
            contexts_of(contexts@, slots, container@, found@.len()) == Ok::<
                Seq<ContextModel>,
                ErrorModel,
            >(context_models(found@)),
        decreases contexts@.len() - found@.len(),
    {
        let ghost before = found@;
        let context = &contexts[found.len()];
        match resolve(&context.criteria, fields, container) {
            Ok(criteria) => {
                let next = FlightContext {
                    criteria,
                    calibration: copy_calibration(&context.calibration),
                };
                let ghost model = next@;
                found.push(next);
                assert(context_models(found@) =~= context_models(before).push(model));
            },
            Err(error) => {
                proof {
                    lemma_contexts_stop(
                        contexts@,
                        slots,
                        container@,
                        (found@.len() + 1) as nat,
                        contexts@.len(),
                    );
                }
                return Err(error);
            },
        }
    }
    Ok(found)
}

/// The fields without the entries they come from.
pub open spec fn unsourced(fields: Seq<(FieldModel, int)>) -> Seq<FieldModel> {
    fields.map_values(|field: (FieldModel, int)| field.0)
}

/// The first `count` fields of a container, with their contexts resolved to its fields.
pub open spec fn contextual(
    fields: Seq<(FieldModel, int)>,
    entries: Seq<Field>,
    container: Seq<char>,
    count: nat,
) -> Result<Seq<FieldModel>, ErrorModel>
    decreases count,
{
    if count == 0 {
        Ok(Seq::empty())
    } else {
        match contextual(fields, entries, container, (count - 1) as nat) {
            Ok(before) => {
                let contexts = entries[fields[count - 1].1].contexts@;
                match contexts_of(contexts, unsourced(fields), container, contexts.len()) {
                    Ok(contexts) => Ok(
                        before.push(FieldModel { contexts, ..fields[count - 1].0 }),
                    ),
                    Err(error) => Err(error),
                }
            },
            Err(error) => Err(error),
        }
    }
}

proof fn lemma_contextual_stop(
    fields: Seq<(FieldModel, int)>,
    entries: Seq<Field>,
    container: Seq<char>,
    at: nat,
    count: nat,
)
    requires
        at <= count,
        contextual(fields, entries, container, at) is Err,
    ensures
        contextual(fields, entries, container, count) == contextual(
            fields,
            entries,
            container,
            at,
        ),
    decreases count - at,
{
    if at < count {
        lemma_contextual_stop(fields, entries, container, at, (count - 1) as nat);
    }
}

/// Resolves the contexts of the fields of a container.
fn with_contexts(
    built: Vec<FlightField>,
    sources: &Vec<usize>,
    entries: &Vec<Field>,
    container: &String,
) -> (result: Result<Vec<FlightField>, FlightError>)
    requires
        built@.len() == sources@.len(),
        forall|i: int| 0 <= i < sources@.len() ==> #[trigger] sources@[i] < entries@.len(),
        forall|i: int| 0 <= i < built@.len() ==> (#[trigger] built@[i])@.contexts =~= Seq::empty(),
    ensures
        match contextual(sourced(built@, sources@), entries@, container@, built@.len()) {
            Ok(models) => result matches Ok(fields) && field_models(fields@) == models,
            Err(error) => result matches Err(found) && found@ == error,
        },
{
    let ghost given = sourced(built@, sources@);
    let ghost slots = unsourced(given);
    let mut fields = built;
    let mut at: usize = 0;
    assert(all_bare(field_models(fields@)) =~= slots) by {
        assert forall|i: int| 0 <= i < fields@.len() implies bare(fields@[i]@)
            == #[trigger] slots[i] by {
            assert(built@[i]@.contexts =~= Seq::empty());
        }
    }
    assert(field_models(fields@).take(0) =~= Seq::empty());
    while at < fields.len()
        invariant
            at <= fields@.len(),
            fields@.len() == built@.len(),
            built@.len() == sources@.len(),
            given == sourced(built@, sources@),
            slots == unsourced(given),
            forall|i: int| 0 <= i < sources@.len() ==> #[trigger] sources@[i] < entries@.len(),
            all_bare(field_models(fields@)) == slots,
            forall|i: int| at <= i < fields@.len() ==> (#[trigger] fields@[i])@ == given[i].0,
            contextual(given, entries@, container@, at as nat) == Ok::<Seq<FieldModel>, ErrorModel>(
                field_models(fields@).take(at as int),
            ),
        decreases fields@.len() - at,
    {
        let ghost before = fields@;
        match resolve_contexts(&entries[sources[at]].contexts, &fields, container) {
            Ok(contexts) => {
                let ghost models = context_models(contexts@);
                let field = &mut fields[at];
                field.contexts = contexts;
                proof {
                    let next = FieldModel { contexts: models, ..given[at as int].0 };
                    assert(fields@[at as int]@ == next);
                    assert forall|i: int| 0 <= i < fields@.len() && i != at implies fields@[i]
                        == before[i] by {}
                    assert(field_models(fields@).take(at + 1) =~= field_models(before).take(
                        at as int,
                    ).push(next));
                    assert(all_bare(field_models(fields@)) =~= slots) by {
                        assert forall|i: int| 0 <= i < fields@.len() implies bare(fields@[i]@)
                            == #[trigger] slots[i] by {
                            assert(all_bare(field_models(before))[i] == slots[i]);
                        }
                    }
                }
            },
            Err(error) => {
                proof {
                    lemma_contextual_stop(
                        given,
                        entries@,
                        container@,
                        (at + 1) as nat,
                        built@.len(),
                    );
                }
                return Err(error);
            },
        }
        at = at + 1;
    }
    assert(field_models(fields@).take(at as int) =~= field_models(fields@));
    Ok(fields)
}

// ---------------------------------------------------------------------------------------
// Fixed values
// ---------------------------------------------------------------------------------------

/// A byte of a value that may be shorter than what is asked of it.
pub open spec fn byte_or_zero(value: Seq<u8>, at: int) -> u8 {
    if 0 <= at < value.len() {
        value[at]
    } else {
        0
    }
}

/// How many bytes hold a number of bits.
pub open spec fn bytes_for(bits: int) -> int {
    (bits + 7) / 8
}

/// A value reduced to its low `width` bits, most significant byte first.
pub open spec fn fitted(value: Seq<u8>, width: int) -> Seq<u8> {
    let count = bytes_for(width);
    Seq::new(
        count as nat,
        |j: int|
            {
                let byte = byte_or_zero(value, value.len() - count + j);
                if j == 0 && width % 8 != 0 {
                    (byte as int % (pow2((width % 8) as nat) as int)) as u8
                } else {
                    byte
                }
            },
    )
}

/// A fixed value as bits to write, or why it cannot be written.
pub open spec fn fixed_of(entry: FixedEntry, container: Seq<char>) -> Result<
    FixedModel,
    ErrorModel,
> {
    if entry.bit_width > 64 && (entry.bit_offset % 8 != 0 || entry.bit_width % 8 != 0) {
        Err(refused("FixedValueEntry", container, UNALIGNED_FIXED))
    } else {
        Ok(
            FixedModel {
                xtce_name: crate::layout::optional_text(entry.xtce_name),
                ident: crate::layout::optional_text(entry.ident),
                bit_offset: entry.bit_offset as int,
                bit_width: entry.bit_width as int,
                value: fitted(entry.value@, entry.bit_width as int),
            },
        )
    }
}

/// Reduces a value to its low `width` bits.
fn fit(value: &Vec<u8>, width: u32) -> (bytes: Vec<u8>)
    ensures
        bytes@ == fitted(value@, width as int),
{
    let count: usize = (width / 8) as usize + if width % 8 == 0 {
        0usize
    } else {
        1usize
    };
    assert(count == bytes_for(width as int));
    let mut bytes: Vec<u8> = Vec::new();
    while bytes.len() < count
        invariant
            bytes@.len() <= count,
            count == bytes_for(width as int),
            forall|j: int|
                0 <= j < bytes@.len() ==> #[trigger] bytes@[j] == fitted(value@, width as int)[j],
        decreases count - bytes@.len(),
    {
        let at = bytes.len();
        // Counted from the last byte, so that nothing goes below zero.
        let behind = count - at;
        let byte = if behind <= value.len() {
            value[value.len() - behind]
        } else {
            0
        };
        assert(byte == byte_or_zero(value@, value@.len() - count + at));
        if at == 0 && width % 8 != 0 {
            let spare = width % 8;
            proof {
                lemma2_to64();
            }
            let modulus: u8 = match spare {
                1 => 2,
                2 => 4,
                3 => 8,
                4 => 16,
                5 => 32,
                6 => 64,
                _ => 128,
            };
            assert(modulus == pow2(spare as nat));
            bytes.push(byte % modulus);
        } else {
            bytes.push(byte);
        }
    }
    assert(bytes@ =~= fitted(value@, width as int));
    bytes
}

/// The contents of a list of fixed values.
pub open spec fn fixed_models(fixed: Seq<FixedValue>) -> Seq<FixedModel> {
    fixed.map_values(|value: FixedValue| value@)
}

/// The first `count` fixed values as bits to write.
pub open spec fn all_fixed_of(entries: Seq<FixedEntry>, container: Seq<char>, count: nat) -> Result<
    Seq<FixedModel>,
    ErrorModel,
>
    decreases count,
{
    if count == 0 {
        Ok(Seq::empty())
    } else {
        match all_fixed_of(entries, container, (count - 1) as nat) {
            Ok(before) => match fixed_of(entries[count - 1], container) {
                Ok(last) => Ok(before.push(last)),
                Err(error) => Err(error),
            },
            Err(error) => Err(error),
        }
    }
}

proof fn lemma_fixed_stop(entries: Seq<FixedEntry>, container: Seq<char>, at: nat, count: nat)
    requires
        at <= count,
        all_fixed_of(entries, container, at) is Err,
    ensures
        all_fixed_of(entries, container, count) == all_fixed_of(entries, container, at),
    decreases count - at,
{
    if at < count {
        lemma_fixed_stop(entries, container, at, (count - 1) as nat);
    }
}

/// Turns the fixed values of a container into bits to write.
fn all_fixed(entries: &Vec<FixedEntry>, container: &String) -> (result: Result<
    Vec<FixedValue>,
    FlightError,
>)
    ensures
        match all_fixed_of(entries@, container@, entries@.len()) {
            Ok(models) => result matches Ok(built) && fixed_models(built@) == models,
            Err(error) => result matches Err(found) && found@ == error,
        },
{
    let mut built: Vec<FixedValue> = Vec::new();
    assert(fixed_models(built@) =~= Seq::empty());
    while built.len() < entries.len()
        invariant
            built@.len() <= entries@.len(),
            all_fixed_of(entries@, container@, built@.len()) == Ok::<Seq<FixedModel>, ErrorModel>(
                fixed_models(built@),
            ),
        decreases entries@.len() - built@.len(),
    {
        let ghost before = built@;
        let entry = &entries[built.len()];
        if entry.bit_width > 64 && (entry.bit_offset % 8 != 0 || entry.bit_width % 8 != 0) {
            proof {
                lemma_fixed_stop(entries@, container@, (built@.len() + 1) as nat, entries@.len());
            }
            return Err(refuse("FixedValueEntry", container, UNALIGNED_FIXED));
        }
        let next = FixedValue {
            xtce_name: copy_optional(&entry.xtce_name),
            ident: copy_optional(&entry.ident),
            bit_offset: entry.bit_offset,
            bit_width: entry.bit_width,
            value: fit(&entry.value, entry.bit_width),
        };
        let ghost model = next@;
        built.push(next);
        assert(fixed_models(built@) =~= fixed_models(before).push(model));
    }
    Ok(built)
}

// ---------------------------------------------------------------------------------------
// Containers
// ---------------------------------------------------------------------------------------

/// Whether any of the fields borrows from the packet.
pub open spec fn any_borrows(fields: Seq<FieldModel>) -> bool {
    exists|i: int| 0 <= i < fields.len() && (#[trigger] fields[i]).kind.borrows()
}

/// A container an encoder can be written from, or why there is none.
pub open spec fn container_of(
    state: BuilderModel,
    plan: ContainerPlan,
    guards: Seq<&Guard>,
) -> Result<(BuilderModel, ContainerModel), ErrorModel> {
    let name = plan.xtce_name@;
    match plan.bit_length {
        None => Err(refused("SizeInBits", name, DYNAMIC_LENGTH)),
        Some(bit_length) => match constants_of(guards, name, guards.len()) {
            Err(error) => Err(error),
            Ok(constants) => match fields_of(
                state,
                plan.fields@,
                constants,
                name,
                plan.fields@.len(),
            ) {
                Err(error) => Err(error),
                Ok((state, given)) => match contextual(given, plan.fields@, name, given.len()) {
                    Err(error) => Err(error),
                    Ok(fields) => match all_fixed_of(plan.fixed@, name, plan.fixed@.len()) {
                        Err(error) => Err(error),
                        Ok(fixed) => {
                            let base = identifier(letters_of(name));
                            Ok(
                                (
                                    BuilderModel {
                                        taken: state.taken.push(fresh(state.taken, base)),
                                        ..state
                                    },
                                    ContainerModel {
                                        xtce_name: name,
                                        type_ident: fresh(state.taken, base),
                                        len_bytes: bytes_for(bit_length as int),
                                        fields,
                                        constants,
                                        fixed,
                                        borrows: any_borrows(fields),
                                    },
                                ),
                            )
                        },
                    },
                },
            },
        },
    }
}

/// Whether any of the fields borrows from the packet.
fn some_borrows(fields: &Vec<FlightField>) -> (borrows: bool)
    ensures
        borrows == any_borrows(field_models(fields@)),
{
    let ghost models = field_models(fields@);
    let mut at: usize = 0;
    while at < fields.len()
        invariant
            at <= fields@.len(),
            models == field_models(fields@),
            forall|i: int| 0 <= i < at ==> !(#[trigger] models[i]).kind.borrows(),
        decreases fields@.len() - at,
    {
        assert(models[at as int] == fields@[at as int]@);
        if fields[at].kind.borrows() {
            return true;
        }
        at = at + 1;
    }
    false
}

impl Builder {
    /// Turns a planned container into one an encoder can be written from.
    fn container(&mut self, plan: &ContainerPlan, guards: &Vec<&Guard>) -> (result: Result<
        Container,
        FlightError,
    >)
        requires
            old(self)@.keys.len() == old(self)@.enums.len(),
        ensures
            match container_of(old(self)@, *plan, guards@) {
                Ok((state, model)) => final(self)@ == state && (result matches Ok(built) && built@
                    == model),
                Err(error) => result matches Err(found) && found@ == error,
            },
            plan.bit_length is None || constants_of(guards@, plan.xtce_name@, guards@.len()) is Err
                ==> final(self)@ == old(self)@,
            final(self)@.keys.len() == final(self)@.enums.len(),
    {
        let name = &plan.xtce_name;
        let bit_length = match plan.bit_length {
            Some(bit_length) => bit_length,
            None => {
                return Err(refuse("SizeInBits", name, DYNAMIC_LENGTH));
            },
        };
        let constants = match constants(guards, name) {
            Ok(constants) => constants,
            Err(error) => {
                return Err(error);
            },
        };
        let (given, sources) = match self.fields(&plan.fields, &constants, name) {
            Ok(fields) => fields,
            Err(error) => {
                return Err(error);
            },
        };
        let fields = match with_contexts(given, &sources, &plan.fields, name) {
            Ok(fields) => fields,
            Err(error) => {
                return Err(error);
            },
        };
        let fixed = match all_fixed(&plan.fixed, name) {
            Ok(fixed) => fixed,
            Err(error) => {
                return Err(error);
            },
        };
        let type_ident = unique(&mut self.taken, type_ident(name.as_str()));
        let len_bytes: usize = bit_length / 8 + if bit_length % 8 == 0 {
            0usize
        } else {
            1usize
        };
        assert(len_bytes == bytes_for(bit_length as int));
        let borrows = some_borrows(&fields);
        Ok(
            Container {
                xtce_name: name.clone(),
                type_ident,
                len_bytes,
                fields,
                constants,
                fixed,
                borrows,
            },
        )
    }
}

// ---------------------------------------------------------------------------------------
// The tree
// ---------------------------------------------------------------------------------------

/// Criteria, by reference.
pub open spec fn guard_refs<'p>(guards: Seq<Guard>) -> Seq<&'p Guard> {
    guards.map_values(|guard: Guard| &guard)
}

/// What one node of the tree contributes, in front of its children: its container, if it is
/// concrete, selected by the criteria on the way to it.
pub open spec fn visit_of(
    state: BuilderModel,
    index: Option<usize>,
    guards: Seq<&Guard>,
    containers: Seq<ContainerPlan>,
    out: Seq<ContainerModel>,
) -> Result<(BuilderModel, Seq<ContainerModel>), ErrorModel> {
    match index {
        None => Ok((state, out)),
        Some(index) => if index < containers.len() {
            match container_of(state, containers[index as int], guards) {
                Ok((state, container)) => Ok((state, out.push(container))),
                Err(error) => Err(error),
            }
        } else {
            Err(ErrorModel::DanglingIndex)
        },
    }
}

/// The containers of a tree, a node before its children and the children in order, each selected
/// by all the criteria between the root and it.
pub open spec fn walk_of(
    state: BuilderModel,
    node: Node,
    guards: Seq<&Guard>,
    containers: Seq<ContainerPlan>,
    out: Seq<ContainerModel>,
) -> Result<(BuilderModel, Seq<ContainerModel>), ErrorModel>
    decreases node,
{
    match visit_of(state, node.plan, guards, containers, out) {
        Ok((state, out)) => walk_all_of(
            state,
            node.children@,
            guards,
            containers,
            out,
            node.children@.len(),
        ),
        Err(error) => Err(error),
    }
}

/// The containers of the first `count` children.
pub open spec fn walk_all_of(
    state: BuilderModel,
    children: Seq<(Vec<Guard>, Node)>,
    guards: Seq<&Guard>,
    containers: Seq<ContainerPlan>,
    out: Seq<ContainerModel>,
    count: nat,
) -> Result<(BuilderModel, Seq<ContainerModel>), ErrorModel>
    decreases children, count,
{
    if count == 0 || count > children.len() {
        Ok((state, out))
    } else {
        match walk_all_of(state, children, guards, containers, out, (count - 1) as nat) {
            Ok((state, out)) => walk_of(
                state,
                children[count - 1].1,
                guards + guard_refs(children[count - 1].0@),
                containers,
                out,
            ),
            Err(error) => Err(error),
        }
    }
}

proof fn lemma_walk_stop(
    state: BuilderModel,
    children: Seq<(Vec<Guard>, Node)>,
    guards: Seq<&Guard>,
    containers: Seq<ContainerPlan>,
    out: Seq<ContainerModel>,
    at: nat,
    count: nat,
)
    requires
        at <= count <= children.len(),
        walk_all_of(state, children, guards, containers, out, at) is Err,
    ensures
        walk_all_of(state, children, guards, containers, out, count) == walk_all_of(
            state,
            children,
            guards,
            containers,
            out,
            at,
        ),
    decreases count - at,
{
    if at < count {
        lemma_walk_stop(state, children, guards, containers, out, at, (count - 1) as nat);
    }
}

/// What a plan is laid out as, or what stopped it.
pub open spec fn layout_of(plan: Plan) -> Result<LayoutModel, ErrorModel> {
    let empty = BuilderModel { enums: Seq::empty(), keys: Seq::empty(), taken: Seq::empty() };
    match walk_of(empty, plan.root, Seq::empty(), plan.containers@, Seq::empty()) {
        Ok((state, containers)) => if containers.len() == 0 {
            Err(ErrorModel::NothingToEncode(plan.root_name@))
        } else {
            Ok(LayoutModel { containers, enums: state.enums, root_name: plan.root_name@ })
        },
        Err(error) => Err(error),
    }
}

/// The contents of a list of containers.
pub open spec fn container_models(containers: Seq<Container>) -> Seq<ContainerModel> {
    containers.map_values(|container: Container| container@)
}

impl Builder {
    /// Walks the inheritance tree, carrying the criteria that select each branch.
    fn walk<'p>(
        &mut self,
        node: &'p Node,
        guards: &mut Vec<&'p Guard>,
        plan: &'p Plan,
        out: &mut Vec<Container>,
    ) -> (result: Result<(), FlightError>)
        requires
            old(self)@.keys.len() == old(self)@.enums.len(),
        ensures
            match walk_of(
                old(self)@,
                *node,
                old(guards)@,
                plan.containers@,
                container_models(old(out)@),
            ) {
                Ok((state, containers)) => result is Ok && final(self)@ == state
                    && container_models(final(out)@) == containers && final(guards)@ == old(guards)@,
                Err(error) => result matches Err(found) && found@ == error,
            },
            final(self)@.keys.len() == final(self)@.enums.len(),
        decreases node,
    {
        if let Some(index) = node.plan {
            if index >= plan.containers.len() {
                return Err(FlightError::DanglingIndex);
            }
            let ghost before = out@;
            match self.container(&plan.containers[index], guards) {
                Ok(container) => {
                    let ghost model = container@;
                    out.push(container);
                    assert(container_models(out@) =~= container_models(before).push(model));
                },
                Err(error) => {
                    return Err(error);
                },
            }
        }
        let ghost state = self@;
        let ghost visited = container_models(out@);
        let ghost path = guards@;
        let mut at: usize = 0;
        while at < node.children.len()
            invariant
                at <= node.children@.len(),
                self@.keys.len() == self@.enums.len(),
                guards@ == path,
                path == old(guards)@,
                visit_of(
                    old(self)@,
                    node.plan,
                    old(guards)@,
                    plan.containers@,
                    container_models(old(out)@),
                ) == Ok::<(BuilderModel, Seq<ContainerModel>), ErrorModel>((state, visited)),
                walk_all_of(
                    state,
                    node.children@,
                    path,
                    plan.containers@,
                    visited,
                    at as nat,
                ) == Ok::<(BuilderModel, Seq<ContainerModel>), ErrorModel>(
                    (self@, container_models(out@)),
                ),
            decreases node.children@.len() - at,
        {
            let depth = guards.len();
            let criteria = &node.children[at].0;
            let mut next: usize = 0;
            assert(guard_refs(criteria@).take(0) =~= Seq::empty());
            while next < criteria.len()
                invariant
                    next <= criteria@.len(),
                    guards@ == path + guard_refs(criteria@).take(next as int),
                decreases criteria@.len() - next,
            {
                guards.push(&criteria[next]);
                assert(guard_refs(criteria@).take(next + 1) =~= guard_refs(criteria@).take(
                    next as int,
                ).push(&criteria@[next as int]));
                assert(guards@ =~= path + guard_refs(criteria@).take(next + 1));
                next = next + 1;
            }
            assert(guard_refs(criteria@).take(next as int) =~= guard_refs(criteria@));
            match self.walk(&node.children[at].1, guards, plan, out) {
                Ok(()) => {},
                Err(error) => {
                    proof {
                        lemma_walk_stop(
                            state,
                            node.children@,
                            path,
                            plan.containers@,
                            visited,
                            (at + 1) as nat,
                            node.children@.len(),
                        );
                    }
                    return Err(error);
                },
            }
            guards.truncate(depth);
            assert(guards@ =~= path);
            at = at + 1;
        }
        Ok(())
    }
}

/// Turns a plan into a layout, or names what stopped it.
pub fn build(plan: &Plan) -> (result: Result<Layout, FlightError>)
    ensures
        match layout_of(*plan) {
            Ok(model) => result matches Ok(layout) && layout@ == model && distinct_types(
                model.containers,
                model.enums,
            ),
            Err(error) => result matches Err(found) && found@ == error,
        },
{
    let mut builder = Builder { enums: Vec::new(), keys: Vec::new(), taken: Vec::new() };
    let mut guards: Vec<&Guard> = Vec::new();
    let mut containers: Vec<Container> = Vec::new();
    proof {
        assert(builder@.enums =~= Seq::empty());
        assert(builder@.keys =~= Seq::empty());
        assert(builder@.taken =~= Seq::empty());
        assert(container_models(containers@) =~= Seq::empty());
        assert(guards@ =~= Seq::empty());
    }
    match builder.walk(&plan.root, &mut guards, plan, &mut containers) {
        Ok(()) => {},
        Err(error) => {
            return Err(error);
        },
    }
    if containers.len() == 0 {
        return Err(FlightError::NothingToEncode { root: plan.root_name.clone() });
    }
    proof {
        lemma_type_names_are_distinct(*plan);
    }
    Ok(Layout { containers, enums: builder.enums, root_name: plan.root_name.clone() })
}

} // verus!
