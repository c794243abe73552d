//! Enumerations, structs and the dispatcher, as source.

use vstd::prelude::*;
use vstd::string::*;

use crate::bits::{natural_bits, natural_width};
use crate::emit::bits::{signed_name, signed_type, unsigned_text, unsigned_type};
use crate::emit::calibrate::{accessor_text, calibrated_accessor};
use crate::emit::decode::{
    data_type, data_type_text, decode_body, decode_method_text, enum_name, enum_name_text,
    matches_body, matches_text,
};
use crate::emit::encode::{encode_body, encode_text_of};
use crate::emit::text::{doc_attribute, doc_line, literal, string_literal};
use crate::layout::{
    enum_models, Constant, ConstantModel, Container, ContainerModel, EnumModel, EnumType,
    FieldModel, FixedModel, FixedValue, FlightField, Kind, KindModel, Layout, LayoutModel,
    VariantModel,
};
use crate::names::{decimal, decimal_text};

verus! {

// ---------------------------------------------------------------------------------------
// Enumerations
// ---------------------------------------------------------------------------------------

/// The documentation of a variant.
pub open spec fn variant_doc(label: Seq<char>) -> Seq<char> {
    "XTCE label `"@ + label + "`."@
}

/// The first `count` variants of an enum.
pub open spec fn variants_text(variants: Seq<VariantModel>, count: nat) -> Seq<char>
    decreases count,
{
    if count == 0 {
        Seq::empty()
    } else {
        let variant = variants[count - 1];
        variants_text(variants, (count - 1) as nat) + doc_attribute(variant_doc(variant.label))
            + variant.ident + ",\n"@
    }
}

/// The arms that give the first `count` variants their values.
pub open spec fn to_raw_text(variants: Seq<VariantModel>, count: nat) -> Seq<char>
    decreases count,
{
    if count == 0 {
        Seq::empty()
    } else {
        let variant = variants[count - 1];
        to_raw_text(variants, (count - 1) as nat) + "Self::"@ + variant.ident + " => "@
            + decimal_text(variant.raw as nat) + ",\n"@
    }
}

/// The arms that find the first `count` variants by their values.
pub open spec fn from_raw_text(variants: Seq<VariantModel>, count: nat) -> Seq<char>
    decreases count,
{
    if count == 0 {
        Seq::empty()
    } else {
        let variant = variants[count - 1];
        from_raw_text(variants, (count - 1) as nat) + decimal_text(variant.raw as nat)
            + " => Some(Self::"@ + variant.ident + "),\n"@
    }
}

/// The arms that give the first `count` variants their labels.
pub open spec fn labels_text(variants: Seq<VariantModel>, count: nat) -> Seq<char>
    decreases count,
{
    if count == 0 {
        Seq::empty()
    } else {
        let variant = variants[count - 1];
        labels_text(variants, (count - 1) as nat) + "Self::"@ + variant.ident + " => "@
            + string_literal(variant.label) + ",\n"@
    }
}

/// What stands between the variants of an enum and the arms of `raw`.
pub const RAW_HEAD: &'static str = r#"    #[doc = r" The value written into the packet."]
    #[must_use]
    pub const fn raw(self) -> u64 {
        match self {
"#;

/// What stands between the arms of `raw` and those of `from_raw`.
pub const FROM_RAW_HEAD: &'static str = r#"        }
    }
    #[doc = r" The variant a raw value selects, or `None` if the definition has no label"]
    #[doc = r" for it."]
    #[must_use]
    pub const fn from_raw(raw: u64) -> Option<Self> {
        match raw {
"#;

/// What stands between the arms of `from_raw` and those of `label`.
pub const LABEL_HEAD: &'static str = r#"            _ => None,
        }
    }
    #[doc = r" The label exactly as the definition spells it, which is not always a Rust"]
    #[doc = r" identifier."]
    #[must_use]
    pub const fn label(self) -> & 'static str {
        match self {
"#;

/// The documentation of an enum.
pub open spec fn enum_doc(count: nat) -> Seq<char> {
    "An enumerated parameter, with "@ + decimal_text(count) + " label(s) from the definition."@
}

/// The variants of an enum.
fn list_variants(definition: &EnumType) -> (source: String)
    ensures
        source@ == variants_text(definition@.variants, definition@.variants.len()),
{
    let mut source = String::new();
    let mut at: usize = 0;
    while at < definition.variants.len()
        invariant
            at <= definition.variants@.len(),
            source@ == variants_text(definition@.variants, at as nat),
        decreases definition.variants@.len() - at,
    {
        let (ident, raw, label) = &definition.variants[at];
        assert(definition@.variants[at as int] == crate::layout::variant_model(
            definition.variants@[at as int],
        ));
        let mut doc = "XTCE label `".to_owned();
        doc.append(label.as_str());
        doc.append("`.");
        source.append(doc_line(doc.as_str()).as_str());
        source.append(ident.as_str());
        source.append(",\n");
        at = at + 1;
    }
    source
}

/// The arms that give variants their values.
fn to_raw(definition: &EnumType) -> (source: String)
    ensures
        source@ == to_raw_text(definition@.variants, definition@.variants.len()),
{
    let mut source = String::new();
    let mut at: usize = 0;
    while at < definition.variants.len()
        invariant
            at <= definition.variants@.len(),
            source@ == to_raw_text(definition@.variants, at as nat),
        decreases definition.variants@.len() - at,
    {
        let (ident, raw, label) = &definition.variants[at];
        assert(definition@.variants[at as int] == crate::layout::variant_model(
            definition.variants@[at as int],
        ));
        source.append("Self::");
        source.append(ident.as_str());
        source.append(" => ");
        source.append(decimal(*raw as u128).as_str());
        source.append(",\n");
        at = at + 1;
    }
    source
}

/// The arms that find variants by their values.
fn from_raw(definition: &EnumType) -> (source: String)
    ensures
        source@ == from_raw_text(definition@.variants, definition@.variants.len()),
{
    let mut source = String::new();
    let mut at: usize = 0;
    while at < definition.variants.len()
        invariant
            at <= definition.variants@.len(),
            source@ == from_raw_text(definition@.variants, at as nat),
        decreases definition.variants@.len() - at,
    {
        let (ident, raw, label) = &definition.variants[at];
        assert(definition@.variants[at as int] == crate::layout::variant_model(
            definition.variants@[at as int],
        ));
        source.append(decimal(*raw as u128).as_str());
        source.append(" => Some(Self::");
        source.append(ident.as_str());
        source.append("),\n");
        at = at + 1;
    }
    source
}

/// The arms that give variants their labels.
fn labels(definition: &EnumType) -> (source: String)
    ensures
        source@ == labels_text(definition@.variants, definition@.variants.len()),
{
    let mut source = String::new();
    let mut at: usize = 0;
    while at < definition.variants.len()
        invariant
            at <= definition.variants@.len(),
            source@ == labels_text(definition@.variants, at as nat),
        decreases definition.variants@.len() - at,
    {
        let (ident, raw, label) = &definition.variants[at];
        assert(definition@.variants[at as int] == crate::layout::variant_model(
            definition.variants@[at as int],
        ));
        source.append("Self::");
        source.append(ident.as_str());
        source.append(" => ");
        source.append(literal(label.as_str()).as_str());
        source.append(",\n");
        at = at + 1;
    }
    source
}

/// An enum, with its values and labels.
pub open spec fn enumeration_text(definition: EnumModel) -> Seq<char> {
    doc_attribute(enum_doc(definition.variants.len()))
        + "#[derive(Clone, Copy, PartialEq, Eq, Debug)]\npub enum "@ + definition.type_ident
        + " {\n"@ + variants_text(definition.variants, definition.variants.len()) + "}\nimpl "@
        + definition.type_ident + " {\n"@ + RAW_HEAD@
        + to_raw_text(definition.variants, definition.variants.len()) + FROM_RAW_HEAD@
        + from_raw_text(definition.variants, definition.variants.len()) + LABEL_HEAD@
        + labels_text(definition.variants, definition.variants.len()) + "        }\n    }\n}\n"@
}

/// An enum, with its values and labels.
pub fn enumeration(definition: &EnumType) -> (source: String)
    ensures
        source@ == enumeration_text(definition@),
{
    let mut doc = "An enumerated parameter, with ".to_owned();
    doc.append(decimal(definition.variants.len() as u128).as_str());
    doc.append(" label(s) from the definition.");
    let mut source = doc_line(doc.as_str()).as_str().to_owned();
    source.append("#[derive(Clone, Copy, PartialEq, Eq, Debug)]\npub enum ");
    source.append(definition.type_ident.as_str());
    source.append(" {\n");
    source.append(list_variants(definition).as_str());
    source.append("}\nimpl ");
    source.append(definition.type_ident.as_str());
    source.append(" {\n");
    source.append(RAW_HEAD);
    source.append(to_raw(definition).as_str());
    source.append(FROM_RAW_HEAD);
    source.append(from_raw(definition).as_str());
    source.append(LABEL_HEAD);
    source.append(labels(definition).as_str());
    source.append("        }\n    }\n}\n");
    source
}

// ---------------------------------------------------------------------------------------
// Structs
// ---------------------------------------------------------------------------------------

/// The Rust type a field's value has in the struct.
pub open spec fn field_type_text(field: FieldModel, enums: Seq<EnumModel>) -> Seq<char> {
    match field.kind {
        KindModel::Unsigned => unsigned_text(natural_width(field.bit_width)),
        KindModel::Signed(_) => signed_name(natural_width(field.bit_width)),
        KindModel::Float16 => "f32"@,
        KindModel::Float32 => "f32"@,
        KindModel::Float64 => "f64"@,
        KindModel::Bool => "bool"@,
        KindModel::Enumerated(index) => enum_name_text(index, enums),
        KindModel::Text(_, _) => "& 'a str"@,
        KindModel::Binary => "& 'a [u8]"@,
    }
}

/// The Rust type a field's value has in the struct.
pub fn field_type(field: &FlightField, enums: &Vec<EnumType>) -> (source: String)
    ensures
        source@ == field_type_text(field@, enum_models(enums@)),
{
    match &field.kind {
        Kind::Unsigned => unsigned_type(natural_bits(field.bit_width)).to_owned(),
        Kind::Signed(_) => signed_type(natural_bits(field.bit_width)).to_owned(),
        Kind::Float16 => "f32".to_owned(),
        Kind::Float32 => "f32".to_owned(),
        Kind::Float64 => "f64".to_owned(),
        Kind::Bool => "bool".to_owned(),
        Kind::Enumerated(index) => enum_name(*index, enums),
        Kind::Text { .. } => "& 'a str".to_owned(),
        Kind::Binary => "& 'a [u8]".to_owned(),
    }
}

/// The documentation of a field.
pub open spec fn field_doc(field: FieldModel) -> Seq<char> {
    "`"@ + field.xtce_name + "`, "@ + decimal_text(field.bit_width as nat) + " bit(s) at bit "@
        + decimal_text(field.bit_offset as nat) + "."@
}

/// The first `count` fields of a struct.
pub open spec fn struct_fields_text(
    fields: Seq<FieldModel>,
    enums: Seq<EnumModel>,
    count: nat,
) -> Seq<char>
    decreases count,
{
    if count == 0 {
        Seq::empty()
    } else {
        let field = fields[count - 1];
        struct_fields_text(fields, enums, (count - 1) as nat) + doc_attribute(field_doc(field))
            + "pub "@ + field.ident + ": "@ + field_type_text(field, enums) + ",\n"@
    }
}

/// The fields of a struct.
fn struct_fields(container: &Container, enums: &Vec<EnumType>) -> (source: String)
    ensures
        source@ == struct_fields_text(
            container@.fields,
            enum_models(enums@),
            container@.fields.len(),
        ),
{
    let mut source = String::new();
    let mut at: usize = 0;
    while at < container.fields.len()
        invariant
            at <= container.fields@.len(),
            source@ == struct_fields_text(container@.fields, enum_models(enums@), at as nat),
        decreases container.fields@.len() - at,
    {
        let field = &container.fields[at];
        assert(container@.fields[at as int] == field@);
        let mut doc = "`".to_owned();
        doc.append(field.xtce_name.as_str());
        doc.append("`, ");
        doc.append(decimal(field.bit_width as u128).as_str());
        doc.append(" bit(s) at bit ");
        doc.append(decimal(field.bit_offset as u128).as_str());
        doc.append(".");
        source.append(doc_line(doc.as_str()).as_str());
        source.append("pub ");
        source.append(field.ident.as_str());
        source.append(": ");
        source.append(field_type(field, enums).as_str());
        source.append(",\n");
        at = at + 1;
    }
    source
}

/// The first `count` accessors of a struct.
pub open spec fn accessors_text(fields: Seq<FieldModel>, count: nat) -> Seq<char>
    decreases count,
{
    if count == 0 {
        Seq::empty()
    } else {
        accessors_text(fields, (count - 1) as nat) + accessor_text(fields[count - 1])
    }
}

/// The accessors of a struct.
fn accessors(container: &Container) -> (source: String)
    ensures
        source@ == accessors_text(container@.fields, container@.fields.len()),
{
    let mut source = String::new();
    let mut at: usize = 0;
    while at < container.fields.len()
        invariant
            at <= container.fields@.len(),
            source@ == accessors_text(container@.fields, at as nat),
        decreases container.fields@.len() - at,
    {
        assert(container@.fields[at as int] == container.fields@[at as int]@);
        source.append(calibrated_accessor(&container.fields[at]).as_str());
        at = at + 1;
    }
    source
}

/// One fixed value, in a list of them.
pub open spec fn fixed_listed(fixed: FixedModel) -> Seq<char> {
    match fixed.xtce_name {
        Some(name) => "`"@ + name + "`"@,
        None => "an unnamed value at bit "@ + decimal_text(fixed.bit_offset as nat),
    }
}

/// The first `count` fixed values, with commas between them.
pub open spec fn all_fixed_listed(fixed: Seq<FixedModel>, count: nat) -> Seq<char>
    decreases count,
{
    if count == 0 {
        Seq::empty()
    } else if count == 1 {
        fixed_listed(fixed[0])
    } else {
        all_fixed_listed(fixed, (count - 1) as nat) + ", "@ + fixed_listed(fixed[count - 1])
    }
}

/// The first `count` criteria, with commas between them.
pub open spec fn constants_listed(constants: Seq<ConstantModel>, count: nat) -> Seq<char>
    decreases count,
{
    if count == 0 {
        Seq::empty()
    } else {
        let constant = constants[count - 1];
        let one = "`"@ + constant.xtce_name + "` = "@ + decimal_text(constant.raw as nat);
        if count == 1 {
            one
        } else {
            constants_listed(constants, (count - 1) as nat) + ", "@ + one
        }
    }
}

/// What the documentation says of the criteria.
pub open spec fn constants_doc(constants: Seq<ConstantModel>) -> Seq<char> {
    if constants.len() == 0 {
        ""@
    } else {
        "\n\nEncoding also writes the restriction criteria that identify this container ("@
            + constants_listed(constants, constants.len())
            + "); they are not fields because they are not the caller's to choose."@
    }
}

/// What the documentation says of the fixed values.
pub open spec fn fixed_doc(fixed: Seq<FixedModel>) -> Seq<char> {
    if fixed.len() == 0 {
        ""@
    } else {
        "\n\nIt also writes the values the definition fixes ("@ + all_fixed_listed(
            fixed,
            fixed.len(),
        )
            + "). `decode` steps over them without reading them: XTCE selects a container by its restriction criteria, and a fixed value is packaging rather than a discriminator."@
    }
}

/// The documentation of a struct.
pub open spec fn container_doc(container: ContainerModel) -> Seq<char> {
    "`"@ + container.xtce_name + "`, "@ + decimal_text(container.len_bytes as nat)
        + " byte(s) on the wire."@ + constants_doc(container.constants) + fixed_doc(
        container.fixed,
    )
}

/// The fixed values, with commas between them.
fn list_fixed(fixed: &Vec<FixedValue>) -> (text: String)
    ensures
        text@ == all_fixed_listed(
            fixed@.map_values(|value: FixedValue| value@),
            fixed@.len(),
        ),
{
    let ghost models = fixed@.map_values(|value: FixedValue| value@);
    let mut text = String::new();
    let mut at: usize = 0;
    while at < fixed.len()
        invariant
            at <= fixed@.len(),
            models == fixed@.map_values(|value: FixedValue| value@),
            text@ == all_fixed_listed(models, at as nat),
        decreases fixed@.len() - at,
    {
        assert(models[at as int] == fixed@[at as int]@);
        let one = match &fixed[at].xtce_name {
            Some(name) => {
                let mut one = "`".to_owned();
                one.append(name.as_str());
                one.append("`");
                one
            },
            None => {
                let mut one = "an unnamed value at bit ".to_owned();
                one.append(decimal(fixed[at].bit_offset as u128).as_str());
                one
            },
        };
        if at == 0 {
            text = one;
        } else {
            text.append(", ");
            text.append(one.as_str());
        }
        at = at + 1;
    }
    text
}

/// The criteria, with commas between them.
fn list_constants(constants: &Vec<Constant>) -> (text: String)
    ensures
        text@ == constants_listed(
            constants@.map_values(|constant: Constant| constant@),
            constants@.len(),
        ),
{
    let ghost models = constants@.map_values(|constant: Constant| constant@);
    let mut text = String::new();
    let mut at: usize = 0;
    while at < constants.len()
        invariant
            at <= constants@.len(),
            models == constants@.map_values(|constant: Constant| constant@),
            text@ == constants_listed(models, at as nat),
        decreases constants@.len() - at,
    {
        assert(models[at as int] == constants@[at as int]@);
        let mut one = "`".to_owned();
        one.append(constants[at].xtce_name.as_str());
        one.append("` = ");
        one.append(decimal(constants[at].raw as u128).as_str());
        if at == 0 {
            text = one;
        } else {
            text.append(", ");
            text.append(one.as_str());
        }
        at = at + 1;
    }
    text
}

/// The documentation of a struct.
fn document(container: &Container) -> (text: String)
    ensures
        text@ == container_doc(container@),
{
    let constants = if container.constants.len() == 0 {
        "".to_owned()
    } else {
        let mut constants =
            "\n\nEncoding also writes the restriction criteria that identify this container (".to_owned();
        constants.append(list_constants(&container.constants).as_str());
        constants.append("); they are not fields because they are not the caller's to choose.");
        constants
    };
    let fixed = if container.fixed.len() == 0 {
        "".to_owned()
    } else {
        let mut fixed = "\n\nIt also writes the values the definition fixes (".to_owned();
        fixed.append(list_fixed(&container.fixed).as_str());
        fixed.append(
            "). `decode` steps over them without reading them: XTCE selects a container by its restriction criteria, and a fixed value is packaging rather than a discriminator.",
        );
        fixed
    };
    let mut text = "`".to_owned();
    text.append(container.xtce_name.as_str());
    text.append("`, ");
    text.append(decimal(container.len_bytes as u128).as_str());
    text.append(" byte(s) on the wire.");
    text.append(constants.as_str());
    text.append(fixed.as_str());
    text
}

/// The lifetime of a type that borrows.
pub open spec fn lifetime_text(borrows: bool) -> Seq<char> {
    if borrows {
        "< 'a> "@
    } else {
        ""@
    }
}

/// The lifetime of a type that borrows.
fn lifetime(borrows: bool) -> (source: &'static str)
    ensures
        source@ == lifetime_text(borrows),
{
    if borrows {
        "< 'a> "
    } else {
        ""
    }
}

/// A struct with its methods.
#[verifier::opaque]
pub open spec fn container_text(container: ContainerModel, enums: Seq<EnumModel>) -> Seq<char> {
    doc_attribute(container_doc(container))
        + "#[derive(Clone, Copy, PartialEq, Debug)]\npub struct "@ + container.type_ident
        + lifetime_text(container.borrows) + " {\n"@
        + struct_fields_text(container.fields, enums, container.fields.len()) + "}\nimpl"@
        + lifetime_text(container.borrows) + " "@ + container.type_ident
        + lifetime_text(container.borrows)
        + " {\n#[doc = r\" Encoded size, in bytes.\"]\npub const LEN: usize = "@
        + decimal_text(container.len_bytes as nat) + ";\n"@ + encode_text_of(container)
        + decode_method_text(container, enums) + matches_text(container)
        + accessors_text(container.fields, container.fields.len()) + "}\n"@
}

/// A struct with its methods.
pub fn container_source(container: &Container, enums: &Vec<EnumType>) -> (source: String)
    requires
        container@.emittable(),
    ensures
        source@ == container_text(container@, enum_models(enums@)),
{
    reveal(container_text);
    let mut source = doc_line(document(container).as_str()).as_str().to_owned();
    source.append("#[derive(Clone, Copy, PartialEq, Debug)]\npub struct ");
    source.append(container.type_ident.as_str());
    source.append(lifetime(container.borrows));
    source.append(" {\n");
    source.append(struct_fields(container, enums).as_str());
    source.append("}\nimpl");
    source.append(lifetime(container.borrows));
    source.append(" ");
    source.append(container.type_ident.as_str());
    source.append(lifetime(container.borrows));
    source.append(" {\n#[doc = r\" Encoded size, in bytes.\"]\npub const LEN: usize = ");
    source.append(decimal(container.len_bytes as u128).as_str());
    source.append(";\n");
    source.append(encode_body(container).as_str());
    source.append(decode_body(container, enums).as_str());
    source.append(matches_body(container).as_str());
    source.append(accessors(container).as_str());
    source.append("}\n");
    source
}

// ---------------------------------------------------------------------------------------
// The dispatcher
// ---------------------------------------------------------------------------------------

/// Whether any container borrows from the packet.
pub open spec fn layout_borrows(layout: LayoutModel) -> bool {
    exists|i: int| 0 <= i < layout.containers.len() && (#[trigger] layout.containers[i]).borrows
}

/// Whether any container borrows from the packet.
fn any_borrows(layout: &Layout) -> (borrows: bool)
    ensures
        borrows == layout_borrows(layout@),
{
    let mut at: usize = 0;
    while at < layout.containers.len()
        invariant
            at <= layout.containers@.len(),
            forall|i: int| 0 <= i < at ==> !(#[trigger] layout@.containers[i]).borrows,
        decreases layout.containers@.len() - at,
    {
        assert(layout@.containers[at as int] == layout.containers@[at as int]@);
        if layout.containers[at].borrows {
            return true;
        }
        at = at + 1;
    }
    false
}

/// The documentation of a variant of `Packet`.
pub open spec fn packet_doc(name: Seq<char>) -> Seq<char> {
    "`"@ + name + "`."@
}

/// A variant of `Packet`, with its documentation.
fn document_packet(name: &str) -> (source: String)
    ensures
        source@ == doc_attribute(packet_doc(name@)),
{
    let mut doc = "`".to_owned();
    doc.append(name);
    doc.append("`.");
    doc_line(doc.as_str())
}

/// The first `count` variants of `Packet`.
pub open spec fn packets_text(containers: Seq<ContainerModel>, count: nat) -> Seq<char>
    decreases count,
{
    if count == 0 {
        Seq::empty()
    } else {
        let container = containers[count - 1];
        packets_text(containers, (count - 1) as nat)
            + doc_attribute(packet_doc(container.xtce_name)) + container.type_ident + "("@
                + container.type_ident + lifetime_text(container.borrows) + "),\n"@
    }
}

/// The variants of `Packet`.
fn packets(layout: &Layout) -> (source: String)
    ensures
        source@ == packets_text(layout@.containers, layout@.containers.len()),
{
    let mut source = String::new();
    let mut at: usize = 0;
    while at < layout.containers.len()
        invariant
            at <= layout.containers@.len(),
            source@ == packets_text(layout@.containers, at as nat),
        decreases layout.containers@.len() - at,
    {
        let container = &layout.containers[at];
        assert(layout@.containers[at as int] == container@);
        source.append(document_packet(container.xtce_name.as_str()).as_str());
        source.append(container.type_ident.as_str());
        source.append("(");
        source.append(container.type_ident.as_str());
        source.append(lifetime(container.borrows));
        source.append("),\n");
        at = at + 1;
    }
    source
}

/// The first `count` variants of the choice between containers.
pub open spec fn selectors_text(containers: Seq<ContainerModel>, count: nat) -> Seq<char>
    decreases count,
{
    if count == 0 {
        Seq::empty()
    } else {
        let container = containers[count - 1];
        selectors_text(containers, (count - 1) as nat)
            + container.type_ident + ",\n"@
    }
}

/// The variants of the choice between containers.
fn selectors(layout: &Layout) -> (source: String)
    ensures
        source@ == selectors_text(layout@.containers, layout@.containers.len()),
{
    let mut source = String::new();
    let mut at: usize = 0;
    while at < layout.containers.len()
        invariant
            at <= layout.containers@.len(),
            source@ == selectors_text(layout@.containers, at as nat),
        decreases layout.containers@.len() - at,
    {
        let container = &layout.containers[at];
        assert(layout@.containers[at as int] == container@);
        source.append(container.type_ident.as_str());
        source.append(",\n");
        at = at + 1;
    }
    source
}

/// The first `count` tests that choose a container.
pub open spec fn arms_text(containers: Seq<ContainerModel>, count: nat) -> Seq<char>
    decreases count,
{
    if count == 0 {
        Seq::empty()
    } else {
        let container = containers[count - 1];
        arms_text(containers, (count - 1) as nat)
            + "if "@ + container.type_ident
                + "::matches(data) {\nmatched += 1;\nselected = Some(Selected::"@
                + container.type_ident + ");\n}\n"@
    }
}

/// The tests that choose a container.
fn arms(layout: &Layout) -> (source: String)
    ensures
        source@ == arms_text(layout@.containers, layout@.containers.len()),
{
    let mut source = String::new();
    let mut at: usize = 0;
    while at < layout.containers.len()
        invariant
            at <= layout.containers@.len(),
            source@ == arms_text(layout@.containers, at as nat),
        decreases layout.containers@.len() - at,
    {
        let container = &layout.containers[at];
        assert(layout@.containers[at as int] == container@);
        source.append("if ");
        source.append(container.type_ident.as_str());
        source.append("::matches(data) {\nmatched += 1;\nselected = Some(Selected::");
        source.append(container.type_ident.as_str());
        source.append(");\n}\n");
        at = at + 1;
    }
    source
}

/// The first `count` arms that decode the chosen container.
pub open spec fn decodes_text(containers: Seq<ContainerModel>, count: nat) -> Seq<char>
    decreases count,
{
    if count == 0 {
        Seq::empty()
    } else {
        let container = containers[count - 1];
        decodes_text(containers, (count - 1) as nat)
            + "Selected::"@ + container.type_ident + " => Ok(Packet::"@ + container.type_ident
                + "("@ + container.type_ident + "::decode(data)?)),\n"@
    }
}

/// The arms that decode the chosen container.
fn decodes(layout: &Layout) -> (source: String)
    ensures
        source@ == decodes_text(layout@.containers, layout@.containers.len()),
{
    let mut source = String::new();
    let mut at: usize = 0;
    while at < layout.containers.len()
        invariant
            at <= layout.containers@.len(),
            source@ == decodes_text(layout@.containers, at as nat),
        decreases layout.containers@.len() - at,
    {
        let container = &layout.containers[at];
        assert(layout@.containers[at as int] == container@);
        source.append("Selected::");
        source.append(container.type_ident.as_str());
        source.append(" => Ok(Packet::");
        source.append(container.type_ident.as_str());
        source.append("(");
        source.append(container.type_ident.as_str());
        source.append("::decode(data)?)),\n");
        at = at + 1;
    }
    source
}

/// The documentation of `Packet` and the start of it.
pub const PACKET_HEAD: &'static str = r#"#[doc = r" Any packet this module can decode."]
#[derive(Clone, Copy, PartialEq, Debug)]
pub enum Packet"#;

/// The documentation of the module's `decode` and the start of its signature.
pub const DISPATCH_HEAD: &'static str = r#"}
#[doc = r" Chooses a container by its restriction criteria and decodes `data` as it."]
#[doc = r""]
#[doc = r" # Errors"]
#[doc = r""]
#[doc = r" [`DecodeError::Unrecognized`] when no container's criteria hold, and"]
#[doc = r" [`DecodeError::Ambiguous`] when more than one does — a definition that cannot"]
#[doc = r" say which container a packet is, is a defect worth reporting rather than"]
#[doc = r" resolving by declaration order."]
pub fn decode"#;

/// What stands between the signature of the module's `decode` and its choices.
pub const SELECTED_HEAD: &'static str = r#", DecodeError> {
    #[derive(Clone, Copy)]
    enum Selected {
"#;

/// What stands between the choices and their tests.
pub const MATCHED_HEAD: &'static str = r#"    }
    let mut matched = 0usize;
    let mut selected = None;
"#;

/// What stands between the tests and the arms.
pub const CHOSEN_HEAD: &'static str = r#"    if matched > 1 {
        return Err(DecodeError::Ambiguous);
    }
    match selected {
        Some(selected) => match selected {
"#;

/// The end of the module's `decode`.
pub const DISPATCH_TAIL: &'static str = r#"        },
        None => Err(DecodeError::Unrecognized),
    }
}
"#;

/// The module's `Packet` and `decode`.
pub open spec fn dispatcher_text(layout: LayoutModel) -> Seq<char> {
    PACKET_HEAD@ + lifetime_text(layout_borrows(layout)) + " {\n"@
        + packets_text(layout.containers, layout.containers.len()) + DISPATCH_HEAD@
        + lifetime_text(layout_borrows(layout)) + "(data: "@
        + data_type_text(layout_borrows(layout)) + ") -> Result<Packet"@
        + lifetime_text(layout_borrows(layout)) + SELECTED_HEAD@
        + selectors_text(layout.containers, layout.containers.len()) + MATCHED_HEAD@
        + arms_text(layout.containers, layout.containers.len()) + CHOSEN_HEAD@
        + decodes_text(layout.containers, layout.containers.len()) + DISPATCH_TAIL@
}

/// The module's `Packet` and `decode`.
pub fn dispatcher(layout: &Layout) -> (source: String)
    ensures
        source@ == dispatcher_text(layout@),
{
    let borrows = any_borrows(layout);
    let mut source = PACKET_HEAD.to_owned();
    source.append(lifetime(borrows));
    source.append(" {\n");
    source.append(packets(layout).as_str());
    source.append(DISPATCH_HEAD);
    source.append(lifetime(borrows));
    source.append("(data: ");
    source.append(data_type(borrows));
    source.append(") -> Result<Packet");
    source.append(lifetime(borrows));
    source.append(SELECTED_HEAD);
    source.append(selectors(layout).as_str());
    source.append(MATCHED_HEAD);
    source.append(arms(layout).as_str());
    source.append(CHOSEN_HEAD);
    source.append(decodes(layout).as_str());
    source.append(DISPATCH_TAIL);
    source
}

} // verus!
