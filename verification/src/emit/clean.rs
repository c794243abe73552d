//! Whether what is spliced into source text is what it stands for: names are words, and numbers
//! are numbers.

use vstd::prelude::*;
use vstd::string::*;

use crate::layout::{
    criterion_models, lemma_criterion_models, Container, ContainerModel, ContextCriterion,
    CriterionModel, EnumModel, EnumType, FieldModel, FlightField, Layout, LayoutModel,
};
use crate::names::{characters, is_digit};
use crate::plan::{
    Calibration, CalibrationModel, PointModel, SplinePoint, Term, TermModel,
};

verus! {

/// Whether a character outside ASCII parts words: the spaces and line ends of Unicode, and the two
/// marks of writing direction that Rust takes for spaces.
pub open spec fn parts_words(character: char) -> bool {
    ||| character == '\u{85}'
    ||| character == '\u{a0}'
    ||| character == '\u{1680}'
    ||| '\u{2000}' <= character <= '\u{200a}'
    ||| character == '\u{200e}'
    ||| character == '\u{200f}'
    ||| character == '\u{2028}'
    ||| character == '\u{2029}'
    ||| character == '\u{202f}'
    ||| character == '\u{205f}'
    ||| character == '\u{3000}'
}

/// Whether a character may stand in a word: it is a letter, a digit, an underscore, or outside
/// ASCII and no space.
pub open spec fn word_char(character: char) -> bool {
    ||| 'a' <= character <= 'z'
    ||| 'A' <= character <= 'Z'
    ||| is_digit(character)
    ||| character == '_'
    ||| character as u32 >= 128 && !parts_words(character)
}

/// Whether a character may stand in a word.
pub fn in_word(character: char) -> (clean: bool)
    ensures
        clean == word_char(character),
{
    if (character as u32) < 128 {
        return ('a' <= character && character <= 'z') || ('A' <= character && character <= 'Z')
            || ('0' <= character && character <= '9') || character == '_';
    }
    !(character == '\u{85}' || character == '\u{a0}' || character == '\u{1680}' || ('\u{2000}'
        <= character && character <= '\u{200a}') || character == '\u{200e}' || character
        == '\u{200f}' || character == '\u{2028}' || character == '\u{2029}' || character
        == '\u{202f}' || character == '\u{205f}' || character == '\u{3000}')
}

/// Whether a text has no punctuation in it, and no space.
pub open spec fn is_word(text: Seq<char>) -> bool {
    forall|i: int| 0 <= i < text.len() ==> word_char(#[trigger] text[i])
}

/// Whether a text is made of what decimal fractions are made of.
pub open spec fn is_number(text: Seq<char>) -> bool {
    forall|i: int|
        0 <= i < text.len() ==> is_digit(#[trigger] text[i]) || text[i] == '.' || text[i] == '-'
}

/// Whether a text has no punctuation in it, and no space.
pub fn word(text: &str) -> (clean: bool)
    ensures
        clean == is_word(text@),
{
    let found = characters(text);
    let mut at: usize = 0;
    while at < found.len()
        invariant
            at <= found@.len(),
            found@ == text@,
            forall|i: int| 0 <= i < at ==> word_char(#[trigger] text@[i]),
        decreases found@.len() - at,
    {
        let character = found[at];
        if !in_word(character) {
            assert(!word_char(text@[at as int]));
            return false;
        }
        at = at + 1;
    }
    true
}

/// Whether a text is made of what decimal fractions are made of.
pub fn number(text: &str) -> (clean: bool)
    ensures
        clean == is_number(text@),
{
    let found = characters(text);
    let mut at: usize = 0;
    while at < found.len()
        invariant
            at <= found@.len(),
            found@ == text@,
            forall|i: int|
                0 <= i < at ==> is_digit(#[trigger] text@[i]) || text@[i] == '.' || text@[i] == '-',
        decreases found@.len() - at,
    {
        let character = found[at];
        if !(('0' <= character && character <= '9') || character == '.' || character == '-') {
            assert(!is_digit(text@[at as int]));
            return false;
        }
        at = at + 1;
    }
    true
}

// ---------------------------------------------------------------------------------------
// Calibrators
// ---------------------------------------------------------------------------------------

/// Whether a calibrator's numbers are numbers.
pub open spec fn calibration_clean(calibration: CalibrationModel) -> bool {
    match calibration {
        CalibrationModel::Polynomial(terms) => terms_clean(terms),
        CalibrationModel::Spline { points, .. } => points_clean(points),
    }
}

/// Whether the fields that a condition reads are named by words.
pub open spec fn criterion_clean(criterion: CriterionModel) -> bool
    decreases criterion,
{
    match criterion {
        CriterionModel::Test(test) => is_word(test.ident),
        CriterionModel::All(children) => criteria_clean(children, children.len()),
        CriterionModel::Any(children) => criteria_clean(children, children.len()),
    }
}

/// Whether that holds of the first `count` conditions.
pub open spec fn criteria_clean(children: Seq<CriterionModel>, count: nat) -> bool
    decreases children, count,
{
    count == 0 || count > children.len() || (criteria_clean(children, (count - 1) as nat)
        && criterion_clean(children[count - 1]))
}

/// Whether the terms of a polynomial are numbers.
pub open spec fn terms_clean(terms: Seq<TermModel>) -> bool {
    forall|i: int| 0 <= i < terms.len() ==> is_number((#[trigger] terms[i]).coefficient)
}

/// Whether the points of a spline are numbers.
pub open spec fn points_clean(points: Seq<PointModel>) -> bool {
    forall|i: int|
        0 <= i < points.len() ==> is_number((#[trigger] points[i]).raw) && is_number(
            points[i].calibrated,
        )
}

/// Whether the terms of a polynomial are numbers.
fn check_terms(terms: &Vec<Term>) -> (clean: bool)
    ensures
        clean == terms_clean(terms@.map_values(|term: Term| term@)),
{
    let ghost models = terms@.map_values(|term: Term| term@);
    let mut at: usize = 0;
    while at < terms.len()
        invariant
            at <= terms@.len(),
            models == terms@.map_values(|term: Term| term@),
            forall|i: int| 0 <= i < at ==> is_number((#[trigger] models[i]).coefficient),
        decreases terms@.len() - at,
    {
        assert(models[at as int] == terms@[at as int]@);
        if !number(terms[at].coefficient.as_str()) {
            return false;
        }
        at = at + 1;
    }
    true
}

/// Whether the points of a spline are numbers.
fn check_points(points: &Vec<SplinePoint>) -> (clean: bool)
    ensures
        clean == points_clean(points@.map_values(|point: SplinePoint| point@)),
{
    let ghost models = points@.map_values(|point: SplinePoint| point@);
    let mut at: usize = 0;
    while at < points.len()
        invariant
            at <= points@.len(),
            models == points@.map_values(|point: SplinePoint| point@),
            forall|i: int|
                0 <= i < at ==> is_number((#[trigger] models[i]).raw) && is_number(
                    models[i].calibrated,
                ),
        decreases points@.len() - at,
    {
        assert(models[at as int] == points@[at as int]@);
        if !number(points[at].raw.as_str()) || !number(points[at].calibrated.as_str()) {
            return false;
        }
        at = at + 1;
    }
    true
}

/// Whether a calibrator's numbers are numbers.
fn check_calibration(calibration: &Calibration) -> (clean: bool)
    ensures
        clean == calibration_clean(calibration@),
{
    match calibration {
        Calibration::Polynomial(terms) => check_terms(terms),
        Calibration::Spline(spline) => check_points(&spline.points),
    }
}

/// Whether the fields that a condition reads are named by words.
fn check_criterion(criterion: &ContextCriterion) -> (clean: bool)
    ensures
        clean == criterion_clean(criterion@),
    decreases criterion,
{
    match criterion {
        ContextCriterion::Test(test) => word(test.ident.as_str()),
        ContextCriterion::All(children) => {
            proof {
                lemma_criterion_models(children@, children@.len());
            }
            check_criteria(children)
        },
        ContextCriterion::Any(children) => {
            proof {
                lemma_criterion_models(children@, children@.len());
            }
            check_criteria(children)
        },
    }
}

/// Whether the fields that conditions read are named by words.
fn check_criteria(children: &Vec<ContextCriterion>) -> (clean: bool)
    ensures
        clean == criteria_clean(
            criterion_models(children@, children@.len()),
            children@.len(),
        ),
    decreases children,
{
    let ghost models = criterion_models(children@, children@.len());
    proof {
        lemma_criterion_models(children@, children@.len());
    }
    let mut clean = true;
    let mut at: usize = 0;
    while at < children.len()
        invariant
            at <= children@.len(),
            models.len() == children@.len(),
            forall|i: int| 0 <= i < models.len() ==> #[trigger] models[i] == children@[i]@,
            clean == criteria_clean(models, at as nat),
        decreases children@.len() - at,
    {
        assert(models[at as int] == children@[at as int]@);
        let next = check_criterion(&children[at]);
        clean = clean && next;
        at = at + 1;
    }
    clean
}

// ---------------------------------------------------------------------------------------
// Layouts
// ---------------------------------------------------------------------------------------

/// Whether what a field puts into source is what it stands for.
pub open spec fn field_clean(field: FieldModel) -> bool {
    &&& is_word(field.ident)
    &&& match field.calibration {
        Some(calibration) => calibration_clean(calibration),
        None => true,
    }
    &&& forall|i: int|
        0 <= i < field.contexts.len() ==> criterion_clean((#[trigger] field.contexts[i]).criteria)
            && calibration_clean(field.contexts[i].calibration)
}

/// Whether what a container puts into source is what it stands for.
pub open spec fn container_clean(container: ContainerModel) -> bool {
    &&& is_word(container.type_ident)
    &&& forall|i: int|
        0 <= i < container.fields.len() ==> field_clean(#[trigger] container.fields[i])
    &&& forall|i: int|
        0 <= i < container.constants.len() ==> is_word((#[trigger] container.constants[i]).ident)
    &&& forall|i: int|
        0 <= i < container.fixed.len() ==> match (#[trigger] container.fixed[i]).ident {
            Some(ident) => is_word(ident),
            None => true,
        }
}

/// Whether what an enumeration puts into source is what it stands for.
pub open spec fn enum_clean(definition: EnumModel) -> bool {
    &&& is_word(definition.type_ident)
    &&& forall|i: int|
        0 <= i < definition.variants.len() ==> is_word((#[trigger] definition.variants[i]).ident)
}

/// Whether what a layout puts into source is what it stands for.
pub open spec fn layout_clean(layout: LayoutModel) -> bool {
    &&& forall|i: int|
        0 <= i < layout.containers.len() ==> container_clean(#[trigger] layout.containers[i])
    &&& forall|i: int| 0 <= i < layout.enums.len() ==> enum_clean(#[trigger] layout.enums[i])
}

/// Whether what a field puts into source is what it stands for.
fn check_field(field: &FlightField) -> (clean: bool)
    ensures
        clean == field_clean(field@),
{
    if !word(field.ident.as_str()) {
        return false;
    }
    match &field.calibration {
        Some(calibration) => {
            if !check_calibration(calibration) {
                return false;
            }
        },
        None => {},
    }
    let mut at: usize = 0;
    while at < field.contexts.len()
        invariant
            at <= field.contexts@.len(),
            forall|i: int|
                0 <= i < at ==> criterion_clean((#[trigger] field@.contexts[i]).criteria)
                    && calibration_clean(field@.contexts[i].calibration),
        decreases field.contexts@.len() - at,
    {
        let context = &field.contexts[at];
        assert(field@.contexts[at as int] == context@);
        if !check_criterion(&context.criteria) || !check_calibration(&context.calibration) {
            return false;
        }
        at = at + 1;
    }
    true
}

/// Whether what a container puts into source is what it stands for.
fn check_container(container: &Container) -> (clean: bool)
    ensures
        clean == container_clean(container@),
{
    if !word(container.type_ident.as_str()) {
        return false;
    }
    let mut at: usize = 0;
    while at < container.fields.len()
        invariant
            at <= container.fields@.len(),
            forall|i: int| 0 <= i < at ==> field_clean(#[trigger] container@.fields[i]),
        decreases container.fields@.len() - at,
    {
        assert(container@.fields[at as int] == container.fields@[at as int]@);
        if !check_field(&container.fields[at]) {
            return false;
        }
        at = at + 1;
    }
    let mut at: usize = 0;
    while at < container.constants.len()
        invariant
            at <= container.constants@.len(),
            forall|i: int| 0 <= i < at ==> is_word((#[trigger] container@.constants[i]).ident),
        decreases container.constants@.len() - at,
    {
        assert(container@.constants[at as int] == container.constants@[at as int]@);
        if !word(container.constants[at].ident.as_str()) {
            return false;
        }
        at = at + 1;
    }
    let mut at: usize = 0;
    while at < container.fixed.len()
        invariant
            at <= container.fixed@.len(),
            forall|i: int|
                0 <= i < at ==> match (#[trigger] container@.fixed[i]).ident {
                    Some(ident) => is_word(ident),
                    None => true,
                },
        decreases container.fixed@.len() - at,
    {
        assert(container@.fixed[at as int] == container.fixed@[at as int]@);
        match &container.fixed[at].ident {
            Some(ident) => {
                if !word(ident.as_str()) {
                    return false;
                }
            },
            None => {},
        }
        at = at + 1;
    }
    true
}

/// Whether what an enumeration puts into source is what it stands for.
fn check_enum(definition: &EnumType) -> (clean: bool)
    ensures
        clean == enum_clean(definition@),
{
    if !word(definition.type_ident.as_str()) {
        return false;
    }
    let mut at: usize = 0;
    while at < definition.variants.len()
        invariant
            at <= definition.variants@.len(),
            forall|i: int| 0 <= i < at ==> is_word((#[trigger] definition@.variants[i]).ident),
        decreases definition.variants@.len() - at,
    {
        assert(definition@.variants[at as int] == crate::layout::variant_model(
            definition.variants@[at as int],
        ));
        if !word(definition.variants[at].0.as_str()) {
            return false;
        }
        at = at + 1;
    }
    true
}

/// Whether what a layout puts into source is what it stands for.
pub fn is_clean(layout: &Layout) -> (clean: bool)
    ensures
        clean == layout_clean(layout@),
{
    let mut at: usize = 0;
    while at < layout.containers.len()
        invariant
            at <= layout.containers@.len(),
            forall|i: int| 0 <= i < at ==> container_clean(#[trigger] layout@.containers[i]),
        decreases layout.containers@.len() - at,
    {
        assert(layout@.containers[at as int] == layout.containers@[at as int]@);
        if !check_container(&layout.containers[at]) {
            return false;
        }
        at = at + 1;
    }
    let mut at: usize = 0;
    while at < layout.enums.len()
        invariant
            at <= layout.enums@.len(),
            forall|i: int| 0 <= i < at ==> enum_clean(#[trigger] layout@.enums[i]),
        decreases layout.enums@.len() - at,
    {
        assert(layout@.enums[at as int] == layout.enums@[at as int]@);
        if !check_enum(&layout.enums[at]) {
            return false;
        }
        at = at + 1;
    }
    true
}

} // verus!
