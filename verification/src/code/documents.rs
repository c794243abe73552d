//! What the documentation of a module names, and of what its source is made.

use vstd::arithmetic::div_mod::*;
use vstd::prelude::*;
use vstd::string::*;

use crate::code::modules::{
    can_apply, lemma_occurs_between, lemma_occurs_itself, lemma_occurs_last, lemma_occurs_through,
    lemma_occurs_wider, occurs,
};
use crate::code::spelling::lemma_padding_keeps_the_text;
use crate::emit::calibrate::{
    contexts_doc, contexts_listed, criteria_prose_text, operator_text, prose_list, test_prose,
};
use crate::emit::clean::{
    calibration_clean, container_clean, criteria_clean, criterion_clean, enum_clean, field_clean,
    is_number, is_word, layout_clean, word_char,
};
use crate::emit::format::{joins, pieces};
use crate::emit::items::{
    all_fixed_listed, constants_doc, constants_listed, container_doc, field_doc, fixed_doc,
    fixed_listed,
};
use crate::emit::{header_lines, header_text, HEADER_BODY, HEADER_HEAD};
use crate::emit::text::{padded_left, padded_right, spaces};
use crate::harness::salt;
use crate::layout::{
    ConstantModel, ContainerModel, ContextModel, CriterionModel, FieldModel, FixedModel,
    LayoutModel, TestModel,
};
use crate::names::{decimal_text, signed_text};
use crate::plan::{CalibrationModel, ComparisonModel};
use crate::report::container_line;

verus! {

/// The documentation of a field names its parameter, its width and its place.
pub proof fn lemma_field_is_documented(field: FieldModel)
    ensures
        occurs("`"@ + field.xtce_name + "`"@, field_doc(field)),
        occurs(decimal_text(field.bit_width as nat) + " bit(s)"@, field_doc(field)),
        occurs(" at bit "@ + decimal_text(field.bit_offset as nat) + "."@, field_doc(field)),
{
    let none = Seq::<char>::empty();
    let doc = field_doc(field);
    let name = "`"@ + field.xtce_name + "`"@;
    let width = decimal_text(field.bit_width as nat) + " bit(s)"@;
    let place = " at bit "@ + decimal_text(field.bit_offset as nat) + "."@;
    reveal_strlit("`");
    reveal_strlit("`, ");
    reveal_strlit(", ");
    reveal_strlit(" bit(s)");
    reveal_strlit(" at bit ");
    reveal_strlit(" bit(s) at bit ");
    assert("`, "@ =~= "`"@ + ", "@);
    assert(" bit(s) at bit "@ =~= " bit(s)"@ + " at bit "@);
    assert(doc =~= name + ", "@ + width + place);
    lemma_occurs_between(none, name, ", "@ + width + place);
    assert(none + name + (", "@ + width + place) =~= doc);
    lemma_occurs_between(name + ", "@, width, place);
    lemma_occurs_last(name + ", "@ + width, place);
}

/// How a criterion is listed: its parameter, and the value that is written.
pub open spec fn constant_listed(constant: ConstantModel) -> Seq<char> {
    "`"@ + constant.xtce_name + "` = "@ + decimal_text(constant.raw as nat)
}

proof fn lemma_constant_listed(constants: Seq<ConstantModel>, i: int, count: nat)
    requires
        0 <= i < count <= constants.len(),
    ensures
        occurs(constant_listed(constants[i]), constants_listed(constants, count)),
    decreases count,
{
    let none = Seq::<char>::empty();
    let one = constant_listed(constants[count - 1]);
    let before = constants_listed(constants, (count - 1) as nat);
    if i == count - 1 {
        lemma_occurs_itself(one);
        if count > 1 {
            lemma_occurs_last(before + ", "@, one);
        }
    } else {
        let piece = constant_listed(constants[i]);
        lemma_constant_listed(constants, i, (count - 1) as nat);
        lemma_occurs_wider(piece, none, before, ", "@);
        lemma_occurs_wider(piece, none, before + ", "@, one);
    }
}

proof fn lemma_fixed_listed(fixed: Seq<FixedModel>, i: int, count: nat)
    requires
        0 <= i < count <= fixed.len(),
    ensures
        occurs(fixed_listed(fixed[i]), all_fixed_listed(fixed, count)),
    decreases count,
{
    let none = Seq::<char>::empty();
    let one = fixed_listed(fixed[count - 1]);
    let before = all_fixed_listed(fixed, (count - 1) as nat);
    if i == count - 1 {
        lemma_occurs_itself(one);
        if count > 1 {
            lemma_occurs_last(before + ", "@, one);
        }
    } else {
        let piece = fixed_listed(fixed[i]);
        lemma_fixed_listed(fixed, i, (count - 1) as nat);
        lemma_occurs_wider(piece, none, before, ", "@);
        lemma_occurs_wider(piece, none, before + ", "@, one);
    }
}

/// The documentation of a struct names its container and its length.
pub proof fn lemma_struct_is_documented(container: ContainerModel)
    ensures
        occurs("`"@ + container.xtce_name, container_doc(container)),
        occurs(decimal_text(container.len_bytes as nat), container_doc(container)),
{
    let none = Seq::<char>::empty();
    let name = "`"@ + container.xtce_name;
    let len = decimal_text(container.len_bytes as nat);
    let criteria = constants_doc(container.constants);
    let fixed = fixed_doc(container.fixed);
    let front = name + "`, "@ + len + " byte(s) on the wire."@;
    lemma_occurs_itself(name);
    lemma_occurs_wider(name, none, name, "`, "@);
    lemma_occurs_wider(name, none, name + "`, "@, len);
    lemma_occurs_wider(name, none, name + "`, "@ + len, " byte(s) on the wire."@);
    lemma_occurs_wider(name, none, front, criteria);
    lemma_occurs_wider(name, none, front + criteria, fixed);
    lemma_occurs_last(name + "`, "@, len);
    lemma_occurs_wider(len, none, name + "`, "@ + len, " byte(s) on the wire."@);
    lemma_occurs_wider(len, none, front, criteria);
    lemma_occurs_wider(len, none, front + criteria, fixed);
    assert(container_doc(container) == front + criteria + fixed);
}

proof fn lemma_struct_doc_parts(container: ContainerModel)
    ensures
        occurs(constants_doc(container.constants), container_doc(container)),
        occurs(fixed_doc(container.fixed), container_doc(container)),
{
    let criteria = constants_doc(container.constants);
    let fixed = fixed_doc(container.fixed);
    let front = "`"@ + container.xtce_name + "`, "@ + decimal_text(container.len_bytes as nat)
        + " byte(s) on the wire."@;
    assert(container_doc(container) == front + criteria + fixed);
    lemma_occurs_between(front, criteria, fixed);
    lemma_occurs_last(front + criteria, fixed);
}

/// The documentation of a struct names every criterion, with the value that is written.
pub proof fn lemma_criterion_is_documented(container: ContainerModel, i: int)
    requires
        0 <= i < container.constants.len(),
    ensures
        occurs(constant_listed(container.constants[i]), container_doc(container)),
{
    let piece = constant_listed(container.constants[i]);
    let list = constants_listed(container.constants, container.constants.len());
    let before =
        "\n\nEncoding also writes the restriction criteria that identify this container ("@;
    let after = "); they are not fields because they are not the caller's to choose."@;
    lemma_constant_listed(container.constants, i, container.constants.len());
    lemma_occurs_wider(piece, before, list, after);
    assert(constants_doc(container.constants) == before + list + after);
    lemma_struct_doc_parts(container);
    lemma_occurs_through(piece, constants_doc(container.constants), container_doc(container));
}

/// How a fixed value is named: by its name where it has one, and by its place where it has none.
pub open spec fn fixed_named(fixed: FixedModel) -> Seq<char> {
    match fixed.xtce_name {
        Some(name) => "`"@ + name + "`"@,
        None => "at bit "@ + decimal_text(fixed.bit_offset as nat),
    }
}

proof fn lemma_fixed_named(fixed: FixedModel)
    ensures
        occurs(fixed_named(fixed), fixed_listed(fixed)),
{
    let piece = fixed_named(fixed);
    let one = fixed_listed(fixed);
    if fixed.xtce_name is Some {
        lemma_occurs_itself(piece);
    } else {
        reveal_strlit("an unnamed value at bit ");
        reveal_strlit("an unnamed value ");
        reveal_strlit("at bit ");
        assert(one =~= "an unnamed value "@ + piece);
        lemma_occurs_last("an unnamed value "@, piece);
    }
}

/// The documentation of a struct names every fixed value.
pub proof fn lemma_fixed_is_documented(container: ContainerModel, i: int)
    requires
        0 <= i < container.fixed.len(),
    ensures
        occurs(fixed_named(container.fixed[i]), container_doc(container)),
{
    let one = fixed_listed(container.fixed[i]);
    let list = all_fixed_listed(container.fixed, container.fixed.len());
    let before = "\n\nIt also writes the values the definition fixes ("@;
    let after =
        "). `decode` steps over them without reading them: XTCE selects a container by its restriction criteria, and a fixed value is packaging rather than a discriminator."@;
    lemma_fixed_listed(container.fixed, i, container.fixed.len());
    lemma_occurs_wider(one, before, list, after);
    assert(fixed_doc(container.fixed) == before + list + after);
    lemma_struct_doc_parts(container);
    lemma_occurs_through(one, fixed_doc(container.fixed), container_doc(container));
    lemma_fixed_named(container.fixed[i]);
    lemma_occurs_through(fixed_named(container.fixed[i]), one, container_doc(container));
}

proof fn lemma_context_listed(contexts: Seq<ContextModel>, i: int, count: nat)
    requires
        0 <= i < count <= contexts.len(),
    ensures
        occurs(criteria_prose_text(contexts[i].criteria), contexts_listed(contexts, count)),
    decreases count,
{
    let none = Seq::<char>::empty();
    let last = criteria_prose_text(contexts[count - 1].criteria);
    let one = "`"@ + last + "`"@;
    let before = contexts_listed(contexts, (count - 1) as nat);
    lemma_occurs_between("`"@, last, "`"@);
    if i == count - 1 {
        if count > 1 {
            lemma_occurs_wider(last, before + ", then "@, one, none);
        }
    } else {
        let piece = criteria_prose_text(contexts[i].criteria);
        lemma_context_listed(contexts, i, (count - 1) as nat);
        lemma_occurs_wider(piece, none, before, ", then "@);
        lemma_occurs_wider(piece, none, before + ", then "@, one);
    }
}

/// The documentation of a context chain names the criteria of every context.
pub proof fn lemma_contexts_are_documented(contexts: Seq<ContextModel>, i: int)
    requires
        0 <= i < contexts.len(),
    ensures
        occurs(criteria_prose_text(contexts[i].criteria), contexts_doc(contexts)),
{
    let piece = criteria_prose_text(contexts[i].criteria);
    let list = contexts_listed(contexts, contexts.len());
    lemma_context_listed(contexts, i, contexts.len());
    lemma_occurs_wider(
        piece,
        " The definition gives it "@ + decimal_text(contexts.len())
            + " context calibrator(s) as well as a default; they are tried against this packet's own fields in order — "@,
        list,
        " — and the first whose criteria hold is the one applied. Each is named by the parameter it reads, which is not always the one the definition wrote: a criterion is compared against what the container has decoded so far, so one naming a parameter it has not — the field being calibrated, or one that comes after it — reads the field being calibrated instead."@,
    );
}

/// The prose for a comparison with a number names the parameter, the operator that is applied and
/// the number.
pub proof fn lemma_comparison_is_documented(test: TestModel)
    ensures
        test.test matches ComparisonModel::Value(operator, value) ==> test_prose(test)
            == test.xtce_name + (" "@ + operator_text(operator) + " "@) + signed_text(value as int),
{
    match test.test {
        ComparisonModel::Value(operator, value) => {
            assert(test_prose(test) =~= test.xtce_name + (" "@ + operator_text(operator) + " "@)
                + signed_text(value as int));
        },
        _ => {},
    }
}

/// The prose for a conjunction or a disjunction names every part of it.
pub proof fn lemma_parts_are_documented(
    children: Seq<CriterionModel>,
    separator: Seq<char>,
    i: int,
    count: nat,
)
    requires
        0 <= i < count <= children.len(),
    ensures
        occurs(criteria_prose_text(children[i]), prose_list(children, separator, count)),
    decreases count,
{
    let none = Seq::<char>::empty();
    let last = criteria_prose_text(children[count - 1]);
    let before = prose_list(children, separator, (count - 1) as nat);
    if count == 1 {
        lemma_occurs_itself(last);
    } else if i == count - 1 {
        lemma_occurs_last(before + separator, last);
    } else {
        let piece = criteria_prose_text(children[i]);
        lemma_parts_are_documented(children, separator, i, (count - 1) as nat);
        lemma_occurs_wider(piece, none, before, separator);
        lemma_occurs_wider(piece, none, before + separator, last);
    }
}

/// The line of a container at the top of a module: its name, its length, and how many fields and
/// criteria it has.
pub open spec fn header_line(container: ContainerModel) -> Seq<char> {
    "// "@ + padded_right(container.xtce_name, 28) + " "@ + padded_left(
        decimal_text(container.len_bytes as nat),
        5,
    ) + " byte(s), "@ + decimal_text(container.fields.len()) + " field(s), "@ + decimal_text(
        container.constants.len(),
    ) + " constant(s)\n"@
}

proof fn lemma_header_line_listed(containers: Seq<ContainerModel>, i: int, count: nat)
    requires
        0 <= i < count <= containers.len(),
    ensures
        occurs(header_line(containers[i]), header_lines(containers, count)),
    decreases count,
{
    let none = Seq::<char>::empty();
    let one = header_line(containers[count - 1]);
    let before = header_lines(containers, (count - 1) as nat);
    assert(header_lines(containers, count) =~= before + one);
    if i == count - 1 {
        lemma_occurs_last(before, one);
    } else {
        lemma_header_line_listed(containers, i, (count - 1) as nat);
        lemma_occurs_wider(header_line(containers[i]), none, before, one);
    }
}

/// The comment at the top of a module names the definition and the root, and has a line for every
/// container.
pub proof fn lemma_header_lists_every_container(layout: LayoutModel, label: Seq<char>)
    ensures
        occurs(label, header_text(layout, label)),
        forall|i: int|
            0 <= i < layout.containers.len() ==> occurs(
                header_line(#[trigger] layout.containers[i]),
                header_text(layout, label),
            ),
{
    let none = Seq::<char>::empty();
    let whole = header_text(layout, label);
    let lines = header_lines(layout.containers, layout.containers.len());
    let root = "` by `xtce-flight`, rooted at `"@;
    let next = "`.\n//\n// "@;
    let number = decimal_text(layout.containers.len());
    let front = HEADER_HEAD@ + label + root + layout.root_name + next + number + HEADER_BODY@;
    assert(whole == front + lines + "\n"@);
    lemma_occurs_last(HEADER_HEAD@, label);
    lemma_occurs_wider(label, none, HEADER_HEAD@ + label, root);
    lemma_occurs_wider(label, none, HEADER_HEAD@ + label + root, layout.root_name);
    lemma_occurs_wider(label, none, HEADER_HEAD@ + label + root + layout.root_name, next);
    lemma_occurs_wider(
        label,
        none,
        HEADER_HEAD@ + label + root + layout.root_name + next,
        number,
    );
    lemma_occurs_wider(
        label,
        none,
        HEADER_HEAD@ + label + root + layout.root_name + next + number,
        HEADER_BODY@,
    );
    lemma_occurs_wider(label, none, front, lines);
    lemma_occurs_wider(label, none, front + lines, "\n"@);
    assert forall|i: int| 0 <= i < layout.containers.len() implies occurs(
        header_line(#[trigger] layout.containers[i]),
        whole,
    ) by {
        lemma_header_line_listed(layout.containers, i, layout.containers.len());
        lemma_occurs_wider(header_line(layout.containers[i]), front, lines, "\n"@);
    }
}

/// The line of a container in a summary names it, and counts its bytes, its fields and its criteria.
pub proof fn lemma_line_counts(container: ContainerModel)
    ensures
        occurs(container.xtce_name, container_line(container)),
        occurs(
            decimal_text(container.len_bytes as nat) + " byte(s)"@,
            container_line(container),
        ),
        occurs(decimal_text(container.fields.len()) + " field(s)"@, container_line(container)),
        occurs(
            decimal_text(container.constants.len()) + " criterion(s)"@,
            container_line(container),
        ),
{
    let none = Seq::<char>::empty();
    let whole = container_line(container);
    let name = padded_right(container.xtce_name, 30);
    let len = padded_left(decimal_text(container.len_bytes as nat), 5);
    let fields = padded_left(decimal_text(container.fields.len()), 3);
    let criteria = padded_left(decimal_text(container.constants.len()), 2);
    reveal_strlit(" byte(s)");
    reveal_strlit(" byte(s)  ");
    reveal_strlit(" field(s)");
    reveal_strlit(" field(s)  ");
    reveal_strlit("  ");
    reveal_strlit(" criterion(s)");
    reveal_strlit("\n");
    reveal_strlit(" criterion(s)\n");
    assert(" byte(s)  "@ =~= " byte(s)"@ + "  "@);
    assert(" field(s)  "@ =~= " field(s)"@ + "  "@);
    assert(" criterion(s)\n"@ =~= " criterion(s)"@ + "\n"@);
    let bytes_part = len + " byte(s)"@;
    let fields_part = fields + " field(s)"@;
    let criteria_part = criteria + " criterion(s)"@;
    lemma_regroup_line(name, len, fields, criteria);
    assert(whole == "  "@ + name + " "@ + bytes_part + "  "@ + fields_part + "  "@ + criteria_part
        + "\n"@);
    lemma_padding_keeps_the_text(container.xtce_name, 30);
    assert(name.subrange(0int, 0int + container.xtce_name.len()) =~= container.xtce_name);
    assert(occurs(container.xtce_name, name));
    lemma_padded_number(decimal_text(container.len_bytes as nat), 5, " byte(s)"@);
    lemma_padded_number(decimal_text(container.fields.len()), 3, " field(s)"@);
    lemma_padded_number(decimal_text(container.constants.len()), 2, " criterion(s)"@);
    lemma_line_parts(name, bytes_part, fields_part, criteria_part);
    lemma_occurs_through(container.xtce_name, name, whole);
    lemma_occurs_through(
        decimal_text(container.len_bytes as nat) + " byte(s)"@,
        bytes_part,
        whole,
    );
    lemma_occurs_through(decimal_text(container.fields.len()) + " field(s)"@, fields_part, whole);
    lemma_occurs_through(
        decimal_text(container.constants.len()) + " criterion(s)"@,
        criteria_part,
        whole,
    );
}

proof fn lemma_regroup_line(
    name: Seq<char>,
    len: Seq<char>,
    fields: Seq<char>,
    criteria: Seq<char>,
)
    ensures
        "  "@ + name + " "@ + len + (" byte(s)"@ + "  "@) + fields + (" field(s)"@ + "  "@)
            + criteria + (" criterion(s)"@ + "\n"@) == "  "@ + name + " "@ + (len + " byte(s)"@)
            + "  "@ + (fields + " field(s)"@) + "  "@ + (criteria + " criterion(s)"@) + "\n"@,
{
    assert("  "@ + name + " "@ + len + (" byte(s)"@ + "  "@) + fields + (" field(s)"@ + "  "@)
        + criteria + (" criterion(s)"@ + "\n"@) =~= "  "@ + name + " "@ + (len + " byte(s)"@)
        + "  "@ + (fields + " field(s)"@) + "  "@ + (criteria + " criterion(s)"@) + "\n"@);
}

proof fn lemma_padded_number(number: Seq<char>, width: nat, unit: Seq<char>)
    ensures
        occurs(number + unit, padded_left(number, width) + unit),
{
    if number.len() < width {
        let front = spaces((width - number.len()) as nat);
        lemma_number_behind(front, number, unit);
        assert(padded_left(number, width) == front + number);
    } else {
        lemma_occurs_itself(number + unit);
        assert(padded_left(number, width) == number);
    }
}

proof fn lemma_number_behind(front: Seq<char>, number: Seq<char>, unit: Seq<char>)
    ensures
        occurs(number + unit, front + number + unit),
{
    let text = front + number + unit;
    let piece = number + unit;
    let at = front.len() as int;
    assert(at + piece.len() == text.len());
    assert(text.subrange(at, at + piece.len()) =~= piece);
}

proof fn lemma_line_parts(a: Seq<char>, b: Seq<char>, c: Seq<char>, d: Seq<char>)
    ensures
        ({
            let whole = "  "@ + a + " "@ + b + "  "@ + c + "  "@ + d + "\n"@;
            occurs(a, whole) && occurs(b, whole) && occurs(c, whole) && occurs(d, whole)
        }),
{
    let none = Seq::<char>::empty();
    let p1 = "  "@ + a;
    let p2 = p1 + " "@ + b;
    let p3 = p2 + "  "@ + c;
    let p4 = p3 + "  "@ + d;
    lemma_occurs_last("  "@, a);
    lemma_occurs_wider(a, none, p1, " "@);
    lemma_occurs_wider(a, none, p1 + " "@, b);
    lemma_occurs_last(p1 + " "@, b);
    lemma_occurs_wider(a, none, p2, "  "@);
    lemma_occurs_wider(b, none, p2, "  "@);
    lemma_occurs_wider(a, none, p2 + "  "@, c);
    lemma_occurs_wider(b, none, p2 + "  "@, c);
    lemma_occurs_last(p2 + "  "@, c);
    lemma_occurs_wider(a, none, p3, "  "@);
    lemma_occurs_wider(b, none, p3, "  "@);
    lemma_occurs_wider(c, none, p3, "  "@);
    lemma_occurs_wider(a, none, p3 + "  "@, d);
    lemma_occurs_wider(b, none, p3 + "  "@, d);
    lemma_occurs_wider(c, none, p3 + "  "@, d);
    lemma_occurs_last(p3 + "  "@, d);
    lemma_occurs_wider(a, none, p4, "\n"@);
    lemma_occurs_wider(b, none, p4, "\n"@);
    lemma_occurs_wider(c, none, p4, "\n"@);
    lemma_occurs_wider(d, none, p4, "\n"@);
}

// ---------------------------------------------------------------------------------------
// Words
// ---------------------------------------------------------------------------------------

/// Of the characters of ASCII a word holds letters, digits and underscores, and nothing else: no
/// quote, no bracket, no space and no end of a line.
pub proof fn lemma_words_hold_no_punctuation(text: Seq<char>, i: int)
    requires
        is_word(text),
        0 <= i < text.len(),
        text[i] as u32 <= 127,
    ensures
        ({
            let code = text[i] as u32;
            48 <= code <= 57 || 65 <= code <= 90 || 97 <= code <= 122 || code == 95
        }),
{
    assert(word_char(text[i]));
}

/// Every letter, digit and underscore may stand in a word.
pub proof fn lemma_words_hold_letters(character: char)
    requires
        ({
            let code = character as u32;
            48 <= code <= 57 || 65 <= code <= 90 || 97 <= code <= 122 || code == 95
        }),
    ensures
        word_char(character),
{
}

/// Whether a criterion reads the field of a name.
pub open spec fn reads_name(criterion: CriterionModel, ident: Seq<char>) -> bool
    decreases criterion,
{
    match criterion {
        CriterionModel::Test(test) => test.ident == ident,
        CriterionModel::All(children) => any_reads_name(children, ident, children.len()),
        CriterionModel::Any(children) => any_reads_name(children, ident, children.len()),
    }
}

/// Whether any of the first `count` criteria does.
pub open spec fn any_reads_name(children: Seq<CriterionModel>, ident: Seq<char>, count: nat) -> bool
    decreases children, count,
{
    0 < count <= children.len() && (any_reads_name(children, ident, (count - 1) as nat)
        || reads_name(children[count - 1], ident))
}

proof fn lemma_criterion_reads_words(criterion: CriterionModel, ident: Seq<char>)
    requires
        criterion_clean(criterion),
        reads_name(criterion, ident),
    ensures
        is_word(ident),
    decreases criterion, 0nat,
{
    match criterion {
        CriterionModel::Test(_) => {},
        CriterionModel::All(children) => lemma_criteria_read_words(
            children,
            ident,
            children.len(),
        ),
        CriterionModel::Any(children) => lemma_criteria_read_words(
            children,
            ident,
            children.len(),
        ),
    }
}

proof fn lemma_criteria_read_words(children: Seq<CriterionModel>, ident: Seq<char>, count: nat)
    requires
        criteria_clean(children, count),
        any_reads_name(children, ident, count),
    ensures
        is_word(ident),
    decreases children, count,
{
    if any_reads_name(children, ident, (count - 1) as nat) {
        lemma_criteria_read_words(children, ident, (count - 1) as nat);
    } else {
        lemma_criterion_reads_words(children[count - 1], ident);
    }
}

/// Whether the numbers of a calibrator are made of what decimal fractions are made of.
pub open spec fn has_numbers(calibration: CalibrationModel) -> bool {
    match calibration {
        CalibrationModel::Polynomial(terms) => forall|k: int|
            0 <= k < terms.len() ==> is_number((#[trigger] terms[k]).coefficient),
        CalibrationModel::Spline { points, .. } => forall|k: int|
            0 <= k < points.len() ==> is_number((#[trigger] points[k]).raw) && is_number(
                points[k].calibrated,
            ),
    }
}

/// Where a layout is clean, everything that a container puts into source is what it stands for: its
/// type, its fields, its criteria and its fixed values are words, so is what the criteria of every
/// context read, and the numbers of every calibrator that a field can apply are numbers.
pub proof fn lemma_clean_containers_are_words(layout: LayoutModel, c: int)
    requires
        layout_clean(layout),
        0 <= c < layout.containers.len(),
    ensures
        ({
            let container = layout.containers[c];
            &&& is_word(container.type_ident)
            &&& forall|i: int|
                0 <= i < container.fields.len() ==> is_word((#[trigger] container.fields[i]).ident)
            &&& forall|i: int|
                0 <= i < container.constants.len() ==> is_word(
                    (#[trigger] container.constants[i]).ident,
                )
            &&& forall|i: int|
                0 <= i < container.fixed.len() ==> ((
                #[trigger] container.fixed[i]).ident matches Some(ident) ==> is_word(ident))
        }),
{
    assert(container_clean(layout.containers[c]));
    let container = layout.containers[c];
    assert forall|i: int| 0 <= i < container.fields.len() implies is_word(
        (#[trigger] container.fields[i]).ident,
    ) by {
        assert(field_clean(container.fields[i]));
    }
}

/// Where a layout is clean, the calibrators of a field hold numbers, and its contexts read words.
pub proof fn lemma_clean_calibrators_are_numbers(
    layout: LayoutModel,
    c: int,
    f: int,
    calibration: CalibrationModel,
)
    requires
        layout_clean(layout),
        0 <= c < layout.containers.len(),
        0 <= f < layout.containers[c].fields.len(),
        can_apply(layout.containers[c].fields[f], calibration),
    ensures
        has_numbers(calibration),
        forall|k: int, ident: Seq<char>|
            0 <= k < layout.containers[c].fields[f].contexts.len() && #[trigger] reads_name(
                layout.containers[c].fields[f].contexts[k].criteria,
                ident,
            ) ==> is_word(ident),
{
    let field = layout.containers[c].fields[f];
    assert(container_clean(layout.containers[c]));
    assert(field_clean(field));
    if field.calibration != Some(calibration) {
        let k = choose|k: int|
            0 <= k < field.contexts.len() && (#[trigger] field.contexts[k]).calibration
                == calibration;
        assert(calibration_clean(field.contexts[k].calibration));
    }
    assert forall|k: int, ident: Seq<char>|
        0 <= k < field.contexts.len() && #[trigger] reads_name(
            field.contexts[k].criteria,
            ident,
        ) implies is_word(ident) by {
        assert(criterion_clean(field.contexts[k].criteria));
        lemma_criterion_reads_words(field.contexts[k].criteria, ident);
    }
}

/// Where a layout is clean, the types and the variants of its enumerations are words.
pub proof fn lemma_clean_enums_are_words(layout: LayoutModel, e: int)
    requires
        layout_clean(layout),
        0 <= e < layout.enums.len(),
    ensures
        is_word(layout.enums[e].type_ident),
        forall|k: int|
            0 <= k < layout.enums[e].variants.len() ==> is_word(
                (#[trigger] layout.enums[e].variants[k]).ident,
            ),
{
    assert(enum_clean(layout.enums[e]));
}

/// Pieces, one behind another.
pub open spec fn flat(list: Seq<Seq<char>>) -> Seq<char>
    decreases list.len(),
{
    if list.len() == 0 {
        Seq::empty()
    } else {
        flat(list.drop_last()) + list.last()
    }
}

/// A text without its spaces.
pub open spec fn without_spaces(text: Seq<char>) -> Seq<char>
    decreases text.len(),
{
    if text.len() == 0 {
        Seq::empty()
    } else if text.last() == ' ' {
        without_spaces(text.drop_last())
    } else {
        without_spaces(text.drop_last()).push(text.last())
    }
}

/// The pieces of a text are the text but for its spaces, in order; a piece of more than one
/// character is a word, and none is empty.
pub proof fn lemma_pieces_are_the_text(text: Seq<char>)
    ensures
        flat(pieces(text)) == without_spaces(text),
        forall|i: int| 0 <= i < pieces(text).len() ==> (#[trigger] pieces(text)[i]).len() > 0,
        forall|i: int, k: int|
            0 <= i < pieces(text).len() && pieces(text)[i].len() > 1 && 0 <= k
                < pieces(text)[i].len() ==> joins(#[trigger] pieces(text)[i][k]),
        text.len() > 0 && text.last() != ' ' ==> pieces(text).len() > 0
            && pieces(text).last().last() == text.last(),
        text.len() > 0 && joins(text.last()) ==> forall|k: int|
            0 <= k < pieces(text).last().len() ==> joins(#[trigger] pieces(text).last()[k]),
    decreases text.len(),
{
    if text.len() > 0 {
        let short = text.drop_last();
        let before = pieces(short);
        let last = text.last();
        lemma_pieces_are_the_text(short);
        let now = pieces(text);
        if joins(last) && text.len() > 1 && joins(text[text.len() - 2]) {
            assert(short.last() == text[text.len() - 2]);
            let grown = before.last().push(last);
            assert(now == before.drop_last().push(grown));
            assert(now.drop_last() =~= before.drop_last());
            assert(flat(now) =~= flat(before).push(last));
            assert forall|i: int, k: int|
                0 <= i < now.len() && now[i].len() > 1 && 0 <= k < now[i].len() implies joins(
                #[trigger] now[i][k],
            ) by {
                if i < now.len() - 1 {
                    assert(now[i] == before[i]);
                    assert(joins(before[i][k]));
                } else if k < grown.len() - 1 {
                    assert(grown[k] == before.last()[k]);
                }
            }
        } else if last != ' ' {
            assert(now == before.push(seq![last]));
            assert(now.drop_last() =~= before);
            assert(flat(now) =~= flat(before).push(last));
            assert forall|i: int, k: int|
                0 <= i < now.len() && now[i].len() > 1 && 0 <= k < now[i].len() implies joins(
                #[trigger] now[i][k],
            ) by {
                assert(now[i] == before[i]);
                assert(joins(before[i][k]));
            }
        }
    }
}

// ---------------------------------------------------------------------------------------
// Seeds
// ---------------------------------------------------------------------------------------

/// No two cases of a harness are drawn from one seed: what their seeds are mixed with differs.
pub proof fn lemma_cases_have_seeds_of_their_own(i: int, j: int)
    requires
        0 <= i < j < 0x1_0000_0000_0000_0000,
    ensures
        salt(i) != salt(j),
{
    let m = 0x1_0000_0000_0000_0000int;
    let c = 0x9E37_79B9_7F4A_7C15int;
    // The number that undoes the multiplication.
    let back = 0xF1DE83E19937733Dint;
    let rounds = 0x957BBF35006ED677int;
    assert(c * back == rounds * m + 1);
    if salt(i) == salt(j) {
        let d = j - i;
        lemma_mod_equivalence(c * (j + 1), c * (i + 1), m);
        assert((c * (j + 1) - c * (i + 1)) % m == 0);
        assert(c * (j + 1) - c * (i + 1) == c * d) by (nonlinear_arith)
            requires
                d == j - i,
        ;
        lemma_mul_mod_noop_right(back, c * d, m);
        assert((back * (c * d)) % m == 0);
        assert(back * (c * d) == m * (rounds * d) + d) by (nonlinear_arith)
            requires
                c * back == rounds * m + 1,
        ;
        lemma_mod_multiples_vanish(rounds * d, d, m);
        lemma_small_mod(d as nat, m as nat);
    }
}

} // verus!
