//! What the layout decides, and what it refuses.

use xtce_flight::layout::type_ident;
use xtce_flight::plan::{
    Calibration, CompareOp, ContainerPlan, ContextComparison, Field, FixedEntry, Guard,
    IntegerCoding, Node, Plan, PlanContext, PlanCriterion, PlanError, PlanTest, Repr, Spline, Term,
    TextCharset, TextDelimiter,
};
use xtce_flight::{ContextCriterion, ContextTest, FlightError, Kind, Layout};

fn field(name: &str, offset: usize, width: u32, repr: Repr) -> Field {
    Field {
        xtce_name: name.to_owned(),
        ident: name.to_lowercase(),
        span: Some((offset, width)),
        repr,
        swap_bytes: false,
        calibration: None,
        contexts: Vec::new(),
    }
}

fn guard(name: &str, offset: usize, width: u32, value: i128) -> Guard {
    Guard {
        xtce_name: name.to_owned(),
        ident: name.to_lowercase(),
        bit_offset: offset,
        bit_width: width,
        operator: CompareOp::Equal,
        value,
        swap_bytes: false,
    }
}

/// One concrete container at the root.
fn only(bit_length: Option<usize>, fields: Vec<Field>) -> Plan {
    Plan {
        containers: vec![ContainerPlan {
            xtce_name: "Only".to_owned(),
            bit_length,
            fields,
            fixed: Vec::new(),
        }],
        root: Node { plan: Some(0), children: Vec::new() },
        root_name: "Only".to_owned(),
    }
}

/// One concrete container that extends an abstract one.
fn child(bits: usize, fields: Vec<Field>, guards: Vec<Guard>) -> Plan {
    Plan {
        containers: vec![ContainerPlan {
            xtce_name: "Child".to_owned(),
            bit_length: Some(bits),
            fields,
            fixed: Vec::new(),
        }],
        root: Node {
            plan: None,
            children: vec![(guards, Node { plan: Some(0), children: Vec::new() })],
        },
        root_name: "Base".to_owned(),
    }
}

fn layout_of(plan: Plan) -> Result<Layout, FlightError> {
    xtce_flight::layout(&Ok(plan))
}

fn refusal(result: Result<Layout, FlightError>) -> String {
    match result {
        Ok(_) => panic!("expected a refusal, got a layout"),
        Err(error) => error.message(),
    }
}

fn enumerated(labels: &[(i128, &str)]) -> Repr {
    Repr::Enumerated(
        labels.iter().map(|(value, label)| (*value, *value, (*label).to_owned())).collect(),
    )
}

fn polynomial(coefficient: &str) -> Calibration {
    Calibration::Polynomial(vec![Term { coefficient: coefficient.to_owned(), exponent: 1 }])
}

fn context(
    name: &str,
    offset: usize,
    width: u32,
    operator: CompareOp,
    value: i128,
    coefficient: &str,
) -> PlanContext {
    PlanContext {
        criteria: PlanCriterion::Test(PlanTest {
            xtce_name: name.to_owned(),
            bit_offset: offset,
            bit_width: width,
            comparison: ContextComparison::Value { operator, value },
        }),
        calibration: polynomial(coefficient),
    }
}

#[test]
fn a_plain_container_becomes_one_struct() {
    let layout = layout_of(only(
        Some(16),
        vec![field("FIELD", 0, 12, Repr::Unsigned), field("PAD", 12, 4, Repr::Unsigned)],
    ))
    .expect("compiles");

    assert_eq!(layout.containers.len(), 1);
    let container = &layout.containers[0];
    assert_eq!(container.xtce_name, "Only");
    assert_eq!(container.type_ident, "Only");
    assert_eq!(container.len_bytes, 2, "12 bits and 4 of pad is two bytes");
    assert_eq!(container.fields.len(), 2);
    assert_eq!(container.fields[0].kind, Kind::Unsigned);
    assert_eq!(container.fields[0].bit_width, 12);
    assert!(!container.borrows, "an integer does not borrow");
}

#[test]
fn a_float_that_is_not_16_32_or_64_bits_is_refused() {
    let message = refusal(layout_of(only(Some(24), vec![field("FIELD", 0, 24, Repr::Float32)])));
    assert!(message.contains("16, 32 or 64 bits"), "unexpected refusal: {message}");
}

#[test]
fn a_data_dependent_width_is_refused() {
    let blob = Field { span: None, ..field("BLOB", 0, 0, Repr::Binary) };
    let message =
        refusal(layout_of(only(None, vec![field("LEN", 0, 16, Repr::Unsigned), blob])));
    assert!(message.contains("depends on packet content"), "unexpected refusal: {message}");
}

#[test]
fn restriction_criteria_become_constants_and_leave_the_struct() {
    let layout = layout_of(child(
        16,
        vec![field("APID", 0, 8, Repr::Unsigned), field("DATA", 8, 8, Repr::Unsigned)],
        vec![guard("APID", 0, 8, 42)],
    ))
    .expect("compiles");
    assert_eq!(layout.containers.len(), 1, "only Child is concrete");
    let child = &layout.containers[0];

    assert_eq!(child.constants.len(), 1);
    assert_eq!(child.constants[0].xtce_name, "APID");
    assert_eq!(child.constants[0].raw, 42);

    let names: Vec<&str> = child.fields.iter().map(|field| field.xtce_name.as_str()).collect();
    assert_eq!(names, ["DATA"], "APID is written by encode, so it is not the caller's to set");
}

#[test]
fn a_non_equality_criterion_is_refused() {
    let above = Guard { operator: CompareOp::Greater, ..guard("APID", 0, 8, 42) };
    let message = refusal(layout_of(child(
        8,
        vec![field("APID", 0, 8, Repr::Unsigned)],
        vec![above],
    )));
    assert!(message.contains("equality criterion"), "unexpected refusal: {message}");
}

#[test]
fn identical_enumerations_are_generated_once() {
    let layout = layout_of(only(
        Some(16),
        vec![
            field("MODE_A", 0, 8, enumerated(&[(0, "OFF"), (1, "ON")])),
            field("MODE_B", 8, 8, enumerated(&[(0, "OFF"), (1, "ON")])),
        ],
    ))
    .expect("compiles");
    assert_eq!(layout.enums.len(), 1, "one XTCE type, one Rust type");
    assert_eq!(layout.containers[0].fields[0].kind, Kind::Enumerated(0));
    assert_eq!(layout.containers[0].fields[1].kind, Kind::Enumerated(0));
}

#[test]
fn labels_that_are_not_identifiers_are_sanitised_without_colliding() {
    let labels = [(0, "LOW-POWER"), (1, "low power"), (2, "9600"), (3, "")];
    let layout =
        layout_of(only(Some(8), vec![field("MODE", 0, 8, enumerated(&labels))])).expect("compiles");
    let variants: Vec<&str> =
        layout.enums[0].variants.iter().map(|(ident, _, _)| ident.as_str()).collect();
    assert_eq!(variants, ["LowPower", "LowPower2", "C9600", "Value3"]);

    // The label itself is kept verbatim, because that is what the ground sees.
    assert_eq!(layout.enums[0].variants[1].2, "low power");
}

#[test]
fn type_names_keep_mixed_case_and_fold_shouting() {
    assert_eq!(type_ident("StatusReport"), "StatusReport");
    assert_eq!(type_ident("JPSS_ATT_EPHEM"), "JpssAttEphem");
    assert_eq!(type_ident("Sci0TypeNonZero"), "Sci0TypeNonZero");
    assert_eq!(type_ident("LOW-POWER"), "LowPower");
    assert_eq!(type_ident("9600"), "C9600");
    assert_eq!(type_ident("---"), "Value");
}

#[test]
fn a_conjunction_of_conditions_becomes_constants() {
    let layout = layout_of(child(
        24,
        vec![
            field("A", 0, 8, Repr::Unsigned),
            field("B", 8, 8, Repr::Unsigned),
            field("BODY", 16, 8, Repr::Unsigned),
        ],
        vec![guard("A", 0, 8, 7), guard("B", 8, 8, 9)],
    ))
    .expect("compiles");
    let child = &layout.containers[0];
    let written: Vec<(&str, u64)> = child
        .constants
        .iter()
        .map(|constant| (constant.xtce_name.as_str(), constant.raw))
        .collect();
    assert_eq!(written, [("A", 7), ("B", 9)]);
    assert_eq!(
        child.fields.iter().map(|field| field.xtce_name.as_str()).collect::<Vec<_>>(),
        ["BODY"],
        "both criteria are written by encode, so neither is the caller's to set"
    );
}

#[test]
fn a_little_endian_field_that_is_not_whole_bytes_is_refused() {
    let narrow = Field { swap_bytes: true, ..field("FIELD", 0, 12, Repr::Unsigned) };
    let message = refusal(layout_of(only(
        Some(16),
        vec![narrow, field("PAD", 12, 4, Repr::Unsigned)],
    )));
    assert!(message.contains("no inverse"), "unexpected refusal: {message}");

    // Sixteen bits of the same thing is a whole number of bytes, and compiles.
    let wide = Field { swap_bytes: true, ..field("FIELD", 0, 16, Repr::Unsigned) };
    let layout = layout_of(only(Some(16), vec![wide])).expect("whole bytes compile");
    assert!(layout.containers[0].fields[0].swap_bytes);
}

#[test]
fn a_little_endian_criterion_is_inverted_when_it_is_planned() {
    let selector = Guard { swap_bytes: true, ..guard("SEL", 0, 16, 513) };
    let layout = layout_of(child(
        24,
        vec![
            Field { swap_bytes: true, ..field("SEL", 0, 16, Repr::Unsigned) },
            field("BODY", 16, 8, Repr::Unsigned),
        ],
        vec![selector],
    ))
    .expect("compiles");
    let constant = &layout.containers[0].constants[0];
    // 513 is 0x0201; the bytes that produce it are 0x01 0x02, which read big-endian are
    // 0x0102 — 258.
    assert_eq!(constant.reported, 513);
    assert_eq!(constant.raw, 258);
}

#[test]
fn a_mil_std_1750a_float_is_refused() {
    let message =
        refusal(layout_of(only(Some(32), vec![field("FIELD", 0, 32, Repr::MilStd1750A)])));
    assert!(message.contains("no inverse to write"), "unexpected refusal: {message}");

    // The control: an IEEE-754 word of the same width compiles.
    let layout = layout_of(only(Some(32), vec![field("FIELD", 0, 32, Repr::Float32)]))
        .expect("IEEE-754 compiles");
    assert_eq!(layout.containers[0].fields[0].kind, Kind::Float32);
}

#[test]
fn a_context_calibrator_resolves_to_the_fields_of_the_struct() {
    let sensor = Field {
        calibration: Some(polynomial("1.0")),
        contexts: vec![
            context("MODE", 0, 8, CompareOp::Equal, 1, "0.5"),
            context("SENSOR", 8, 8, CompareOp::Greater, 7, "2.0"),
        ],
        ..field("SENSOR", 8, 8, Repr::Unsigned)
    };
    let layout = layout_of(only(Some(16), vec![field("MODE", 0, 8, Repr::Unsigned), sensor]))
        .expect("compiles");

    let sensor = &layout.containers[0].fields[1];
    assert_eq!(sensor.ident, "sensor");
    assert!(sensor.calibration.is_some(), "the default calibrator is the fallback");
    assert_eq!(sensor.contexts.len(), 2, "tried in order, then the default");

    let tests: Vec<&ContextTest> = sensor
        .contexts
        .iter()
        .map(|context| match &context.criteria {
            ContextCriterion::Test(test) => test,
            other => panic!("expected one comparison, got {other:?}"),
        })
        .collect();

    assert_eq!(tests[0].ident, "mode", "a preceding field, by name and bits");
    assert!(matches!(&tests[0].test, ContextComparison::Value { value: 1, .. }));
    // The definition says SENSOR, and SENSOR is what it gets: the field being calibrated.
    assert_eq!(tests[1].ident, "sensor");
    assert_eq!(tests[1].xtce_name, "SENSOR");
    assert!(matches!(&tests[1].test, ContextComparison::Value { value: 7, .. }));
}

#[test]
fn a_context_criterion_on_a_restriction_criterion_is_refused() {
    let sensor = Field {
        calibration: Some(polynomial("1.0")),
        contexts: vec![context("APID", 0, 8, CompareOp::Equal, 9, "0.5")],
        ..field("SENSOR", 8, 8, Repr::Unsigned)
    };
    let error = refusal(layout_of(child(
        16,
        vec![field("APID", 0, 8, Repr::Unsigned), sensor],
        vec![guard("APID", 0, 8, 9)],
    )));
    assert!(
        error.contains("ContextCalibrator") && error.contains("does not carry"),
        "unexpected refusal: {error}"
    );
}

#[test]
fn a_context_criterion_on_a_wide_boolean_is_refused() {
    let sensor = Field {
        calibration: Some(polynomial("1.0")),
        contexts: vec![context("FLAG", 0, 8, CompareOp::Equal, 3, "0.5")],
        ..field("SENSOR", 8, 8, Repr::Unsigned)
    };
    let error = refusal(layout_of(only(Some(16), vec![field("FLAG", 0, 8, Repr::Bool), sensor])));
    assert!(error.contains("boolean wider than one bit"), "unexpected refusal: {error}");
}

fn fixed(name: &str, offset: usize, width: u32, value: &[u8]) -> FixedEntry {
    FixedEntry {
        xtce_name: Some(name.to_owned()),
        ident: Some(name.to_lowercase()),
        bit_offset: offset,
        bit_width: width,
        value: value.to_vec(),
    }
}

/// One command with a fixed value in front of its argument.
fn command(bits: usize, fixed: FixedEntry, argument: usize) -> Plan {
    let mut plan = only(Some(bits), vec![field("A", argument, 8, Repr::Unsigned)]);
    plan.containers[0].fixed.push(fixed);
    plan
}

#[test]
fn a_fixed_value_becomes_bits_the_encoder_writes() {
    let plain =
        layout_of(only(Some(8), vec![field("FIELD", 0, 8, Repr::Unsigned)])).expect("compiles");
    assert!(plain.containers[0].fixed.is_empty(), "a telemetry container has none");

    let sync = fixed("SYNC", 0, 16, &[0xDE, 0xAD, 0xBE, 0xEF]);
    let layout = layout_of(command(24, sync, 16)).expect("the command compiles");

    let fixed = &layout.containers[0].fixed;
    assert_eq!(fixed.len(), 1);
    assert_eq!(fixed[0].xtce_name.as_deref(), Some("SYNC"));
    assert_eq!(fixed[0].bit_offset, 0);
    assert_eq!(fixed[0].bit_width, 16);
    // Four bytes given for sixteen bits: the low half is what goes on the wire.
    assert_eq!(fixed[0].as_u64(), Some(0xBEEF));
    // The argument sits after it, and is the caller's to set.
    assert_eq!(layout.containers[0].fields.len(), 1);
    assert_eq!(layout.containers[0].fields[0].bit_offset, 16);
}

/// Wider than 64 bits, a fixed value is bytes; it cannot be shifted into place.
#[test]
fn a_wide_fixed_value_has_to_lie_on_bytes() {
    let fill: Vec<u8> = (0..16).collect();
    let layout = layout_of(command(136, fixed("FILL", 0, 128, &fill), 128)).expect("compiles");
    assert_eq!(layout.containers[0].fixed[0].value, fill);
    assert_eq!(layout.containers[0].fixed[0].as_u64(), None);

    let error = refusal(layout_of(command(144, fixed("FILL", 4, 128, &fill), 136)));
    assert!(
        error.contains("FixedValueEntry") && error.contains("64 bits"),
        "unexpected refusal: {error}"
    );
}

/// A value shorter than its bits is filled up in front, and one of an odd width is cut.
#[test]
fn a_fixed_value_is_fitted_to_its_width() {
    let layout = layout_of(command(32, fixed("SPARE", 0, 20, &[0xAB]), 24)).expect("compiles");
    assert_eq!(layout.containers[0].fixed[0].as_u64(), Some(0xAB));
    let layout = layout_of(command(32, fixed("SPARE", 0, 20, &[0xFF; 4]), 24)).expect("compiles");
    assert_eq!(layout.containers[0].fixed[0].as_u64(), Some(0xF_FFFF));
}

// -----------------------------------------------------------------------------------------
// The other refusals
// -----------------------------------------------------------------------------------------

fn text(delimiter: TextDelimiter) -> Repr {
    Repr::Text { charset: TextCharset::Utf8, delimiter }
}

fn refused_field(bits: usize, one: Field) -> String {
    refusal(layout_of(only(Some(bits), vec![one])))
}

#[test]
fn every_refusal_of_a_field_says_why() {
    let odd = text(TextDelimiter::WholeBuffer);
    assert!(refused_field(40, field("T", 4, 32, odd)).contains("text is written as whole bytes"));
    assert!(refused_field(40, field("B", 4, 32, Repr::Binary))
        .contains("binary is written as whole bytes"));
    assert!(refused_field(72, field("N", 0, 65, Repr::Unsigned)).contains("1 to 64 bits"));
    assert!(refused_field(8, field("N", 0, 0, Repr::Unsigned)).contains("1 to 64 bits"));

    let empty = text(TextDelimiter::TerminationChar(Vec::new()));
    assert!(refused_field(32, field("T", 0, 32, empty)).contains("empty termination character"));
    let long = text(TextDelimiter::TerminationChar(vec![0; 5]));
    assert!(refused_field(32, field("T", 0, 32, long)).contains("terminator does not fit"));
    let odd = text(TextDelimiter::LeadingSize { size_in_bits: 12 });
    assert!(refused_field(32, field("T", 0, 32, odd)).contains("not a whole number of bytes"));
    let wide = text(TextDelimiter::LeadingSize { size_in_bits: 40 });
    assert!(refused_field(64, field("T", 0, 64, wide)).contains("8, 16, 24 or 32 bits"));
    let long = text(TextDelimiter::LeadingSize { size_in_bits: 32 });
    assert!(refused_field(16, field("T", 0, 16, long)).contains("length prefix does not fit"));

    assert!(refused_field(8, field("E", 0, 8, enumerated(&[]))).contains("no labels"));
    let dynamic = Field { span: None, ..field("B", 0, 8, Repr::Binary) };
    assert!(refused_field(8, dynamic).contains("width comes from the packet"));
}

#[test]
fn every_refusal_of_a_criterion_says_why() {
    let body = || vec![field("BODY", 72, 8, Repr::Unsigned)];
    let wide = guard("WIDE", 0, 65, 1);
    assert!(refusal(layout_of(child(80, body(), vec![wide]))).contains("wider than 64 bits"));
    let odd = Guard { swap_bytes: true, ..guard("SEL", 0, 12, 1) };
    assert!(refusal(layout_of(child(80, body(), vec![odd]))).contains("no inverse"));
}

#[test]
fn a_context_on_something_that_is_no_number_is_refused() {
    let sensor = Field {
        calibration: Some(polynomial("1.0")),
        contexts: vec![context("GAIN", 0, 32, CompareOp::Equal, 3, "0.5")],
        ..field("SENSOR", 32, 8, Repr::Unsigned)
    };
    let plan = only(Some(40), vec![field("GAIN", 0, 32, Repr::Float32), sensor]);
    let error = refusal(layout_of(plan));
    assert!(error.contains("not an integer, a boolean or an enumeration"), "{error}");
}

#[test]
fn a_spline_above_first_order_is_refused() {
    let spline = |order| {
        Calibration::Spline(Spline { points: Vec::new(), order, extrapolate: true })
    };
    let with = |order| Field {
        calibration: Some(spline(order)),
        ..field("F", 0, 8, Repr::Unsigned)
    };
    assert!(layout_of(only(Some(8), vec![with(1)])).is_ok());
    let error = refused_field(8, with(2));
    assert!(error.contains("<SplineCalibrator>") && error.contains("order"), "{error}");
    let mut chosen = context("F", 0, 8, CompareOp::Equal, 1, "0.5");
    chosen.calibration = spline(3);
    let one = Field { contexts: vec![chosen], ..with(0) };
    assert!(refused_field(8, one).contains("<SplineCalibrator>"));
}

#[test]
fn a_refusal_names_the_element_and_the_container() {
    let message = refused_field(24, field("F", 0, 24, Repr::Float64));
    assert_eq!(
        message,
        "cannot compile <ParameterRefEntry> in Only: a float must be 16, 32 or 64 bits \
         wide; no other IEEE-754 format exists"
    );
}

#[test]
fn a_definition_without_a_plan_says_why() {
    let missing = PlanError::NoSuchContainer { name: "A \"b\"".to_owned() };
    assert_eq!(
        refusal(xtce_flight::layout(&Err(missing))),
        "no container named \"A \\\"b\\\"\""
    );
    assert_eq!(
        refusal(xtce_flight::layout(&Err(PlanError::AmbiguousRoot))),
        "no root container could be chosen automatically; name one explicitly"
    );
    let other = PlanError::Other("the tree has a loop".to_owned());
    assert!(refusal(xtce_flight::layout(&Err(other))).contains("the tree has a loop"));
    let empty = Plan {
        containers: Vec::new(),
        root: Node { plan: None, children: Vec::new() },
        root_name: "Base".to_owned(),
    };
    assert_eq!(
        refusal(layout_of(empty)),
        "nothing under Base is a container a packet can be encoded as"
    );
}

#[test]
fn a_criterion_is_masked_to_its_width() {
    let layout = layout_of(child(
        16,
        vec![field("S", 0, 4, Repr::Signed(IntegerCoding::TwosComplement))],
        vec![guard("S", 0, 4, -3)],
    ))
    .expect("compiles");
    assert_eq!(layout.containers[0].constants[0].raw, 13);
    assert_eq!(layout.containers[0].constants[0].reported, 13);
    assert!(layout.containers[0].fields.is_empty());
}

#[test]
fn a_repeated_name_keeps_the_last_place() {
    let layout = layout_of(only(
        Some(24),
        vec![
            field("X", 0, 8, Repr::Unsigned),
            field("Y", 8, 8, Repr::Unsigned),
            field("X", 16, 8, Repr::Unsigned),
        ],
    ))
    .expect("compiles");
    let places: Vec<(&str, usize)> = layout.containers[0]
        .fields
        .iter()
        .map(|field| (field.xtce_name.as_str(), field.bit_offset))
        .collect();
    assert_eq!(places.len(), 2);
    assert!(places.contains(&("X", 16)));
    assert!(places.contains(&("Y", 8)));
}
