//! Which calibrator a packet chooses, and what it makes of a raw value.
//!
//! The library decides; the arithmetic is done here, twice: once from the calibrator the library
//! chose, and once from the definition written out as code.

use xtce_flight::calibration::{choose_context, compare};
use xtce_flight::codec::{decode, encode, Value};
use xtce_flight::plan::{
    Calibration, CompareOp, ContainerPlan, ContextComparison, Field, Node, Plan, PlanContext,
    PlanCriterion, PlanTest, Repr, Spline, SplinePoint, Term,
};
use xtce_flight::{Container, Layout};

fn field(name: &str, ident: &str, offset: usize, width: u32, repr: Repr) -> Field {
    Field {
        xtce_name: name.to_owned(),
        ident: ident.to_owned(),
        span: Some((offset, width)),
        repr,
        swap_bytes: false,
        calibration: None,
        contexts: Vec::new(),
    }
}

fn polynomial(terms: &[(&str, i32)]) -> Calibration {
    Calibration::Polynomial(
        terms
            .iter()
            .map(|(coefficient, exponent)| Term {
                coefficient: (*coefficient).to_owned(),
                exponent: *exponent,
            })
            .collect(),
    )
}

fn same() -> Option<Calibration> {
    Some(polynomial(&[("1.0", 1)]))
}

fn asks(name: &str, offset: usize, width: u32, comparison: ContextComparison) -> PlanCriterion {
    PlanCriterion::Test(PlanTest {
        xtce_name: name.to_owned(),
        bit_offset: offset,
        bit_width: width,
        comparison,
    })
}

fn number(operator: CompareOp, value: i128) -> ContextComparison {
    ContextComparison::Value { operator, value }
}

fn when(criteria: PlanCriterion, calibration: Calibration) -> PlanContext {
    PlanContext { criteria, calibration }
}

fn context_calibrated() -> Layout {
    let mode = |value| asks("MODE", 0, 2, number(CompareOp::Equal, value));
    let valid = || asks("VALID", 4, 1, number(CompareOp::Equal, 1));
    let sensor = Field {
        calibration: same(),
        contexts: vec![
            when(PlanCriterion::All(vec![mode(1), valid()]), polynomial(&[("0.5", 1)])),
            when(mode(1), polynomial(&[("1.0", 0), ("0.25", 2)])),
            when(PlanCriterion::Any(vec![mode(2), mode(3)]), polynomial(&[("2.0", 1)])),
        ],
        ..field("SENSOR", "sensor", 8, 16, Repr::Unsigned)
    };
    let armed = Field {
        calibration: same(),
        contexts: vec![when(
            asks("FLAGS", 2, 2, ContextComparison::Labels(vec![(1, 2)])),
            polynomial(&[("-1.0", 1)]),
        )],
        ..field("ARMED", "armed", 24, 8, Repr::Unsigned)
    };
    let itself = Field {
        calibration: same(),
        contexts: vec![when(
            asks("SELF", 32, 12, number(CompareOp::Greater, 2048)),
            polynomial(&[("0.125", 1)]),
        )],
        ..field("SELF", "self_", 32, 12, Repr::Unsigned)
    };
    // The definition says LATER, which comes after LOOKAHEAD in the packet; what is compared then
    // is the field being calibrated.
    let lookahead = Field {
        calibration: same(),
        contexts: vec![when(
            asks("LATER", 44, 4, number(CompareOp::Equal, 5)),
            polynomial(&[("7.0", 0)]),
        )],
        ..field("LOOKAHEAD", "lookahead", 44, 4, Repr::Unsigned)
    };
    let spline = Field {
        calibration: same(),
        contexts: vec![when(
            mode(0),
            Calibration::Spline(Spline {
                points: vec![
                    SplinePoint { raw: "0.0".to_owned(), calibrated: "0.0".to_owned() },
                    SplinePoint { raw: "256.0".to_owned(), calibrated: "512.0".to_owned() },
                ],
                order: 1,
                extrapolate: false,
            }),
        )],
        ..field("SPLINE_CTX", "spline_ctx", 48, 8, Repr::Unsigned)
    };
    let labels = vec![
        (0, 0, "IDLE".to_owned()),
        (1, 1, "ARMED".to_owned()),
        (2, 2, "FIRING".to_owned()),
        (3, 3, "DONE".to_owned()),
    ];
    let plan = Plan {
        containers: vec![ContainerPlan {
            xtce_name: "Telemetry".to_owned(),
            bit_length: Some(72),
            fields: vec![
                field("MODE", "mode", 0, 2, Repr::Unsigned),
                field("FLAGS", "flags", 2, 2, Repr::Enumerated(labels)),
                field("VALID", "valid", 4, 1, Repr::Bool),
                field("SPARE_3", "spare_3", 5, 3, Repr::Unsigned),
                sensor,
                armed,
                itself,
                lookahead,
                spline,
                field("LATER", "later", 56, 8, Repr::Unsigned),
                field("PLAIN", "plain", 64, 8, Repr::Unsigned),
            ],
            fixed: Vec::new(),
        }],
        root: Node { plan: Some(0), children: Vec::new() },
        root_name: "Telemetry".to_owned(),
    };
    xtce_flight::layout(&Ok(plan)).expect("compiles")
}

/// A calibrator, applied to a raw value.
fn apply(calibration: &Calibration, raw: u64) -> f64 {
    let float = |text: &str| text.parse::<f64>().expect("a float");
    match calibration {
        Calibration::Polynomial(terms) => terms
            .iter()
            .map(|term| {
                let power = (raw as i128).checked_pow(term.exponent as u32).expect("small");
                float(&term.coefficient) * power as f64
            })
            .sum(),
        Calibration::Spline(spline) => {
            let (low, high) = (&spline.points[0], &spline.points[1]);
            let share = (raw as f64 - float(&low.raw)) / (float(&high.raw) - float(&low.raw));
            float(&low.calibrated) + share * (float(&high.calibrated) - float(&low.calibrated))
        }
    }
}

/// What the library makes of one field of a decoded packet.
fn calibrated(layout: &Layout, values: &[Value<'_>], ident: &str) -> f64 {
    let container: &Container = &layout.containers[0];
    let at = container.fields.iter().position(|field| field.ident == ident).expect("a field");
    let field = &container.fields[at];
    let Value::Unsigned(raw) = values[at] else { panic!("{ident} is no integer") };
    match choose_context(field, container, &layout.enums, values) {
        Some(context) => apply(&field.contexts[context].calibration, raw),
        None => apply(field.calibration.as_ref().expect("a default"), raw),
    }
}

fn next(state: &mut u64) -> u64 {
    *state ^= *state >> 12;
    *state ^= *state << 25;
    *state ^= *state >> 27;
    state.wrapping_mul(0x2545_F491_4F6C_DD1D)
}

#[test]
fn context_calibrators_match_the_interpreter() {
    let layout = context_calibrated();
    let container = &layout.containers[0];
    let mut checked = 0usize;
    let mut modes = [0usize; 4];
    let mut valid = 0usize;
    let mut self_above = 0usize;
    let mut lookahead_hit = 0usize;

    for round in 0..256u64 {
        let mut state = 0x2545_F491_4F6C_DD1Du64.wrapping_mul(round + 1) ^ (round << 32);
        let mut drawn = |width: u32| next(&mut state) & ((1 << width) - 1);
        let mode = drawn(2);
        let flags = drawn(2);
        let is_valid = drawn(1) == 1;
        let spare = drawn(3);
        let sensor = drawn(16);
        let armed = drawn(8);
        let itself = drawn(12);
        let lookahead = drawn(4);
        let spline = drawn(8);
        let later = drawn(8);
        let plain = drawn(8);
        let values = [
            Value::Unsigned(mode),
            Value::Enumerated(flags as usize),
            Value::Bool(is_valid),
            Value::Unsigned(spare),
            Value::Unsigned(sensor),
            Value::Unsigned(armed),
            Value::Unsigned(itself),
            Value::Unsigned(lookahead),
            Value::Unsigned(spline),
            Value::Unsigned(later),
            Value::Unsigned(plain),
        ];
        let mut bytes = vec![0u8; container.len_bytes];
        assert_eq!(encode(container, &layout.enums, &values, &mut bytes), Ok(9));
        let decoded = decode(container, &layout.enums, &bytes).expect("decodes");
        assert_eq!(decoded, values);
        checked += values.len();

        modes[mode as usize] += 1;
        valid += usize::from(is_valid);
        self_above += usize::from(itself > 2048);
        lookahead_hit += usize::from(lookahead == 5);

        let expected = [
            (
                "sensor",
                match (mode, is_valid) {
                    (1, true) => 0.5 * sensor as f64,
                    (1, false) => 1.0 + 0.25 * (sensor * sensor) as f64,
                    (2 | 3, _) => 2.0 * sensor as f64,
                    _ => sensor as f64,
                },
            ),
            ("armed", if flags == 1 || flags == 2 { -(armed as f64) } else { armed as f64 }),
            ("self_", if itself > 2048 { 0.125 * itself as f64 } else { itself as f64 }),
            ("lookahead", if lookahead == 5 { 7.0 } else { lookahead as f64 }),
            ("spline_ctx", if mode == 0 { 2.0 * spline as f64 } else { spline as f64 }),
        ];
        for (ident, value) in expected {
            let found = calibrated(&layout, &decoded, ident);
            assert_eq!(found.to_bits(), value.to_bits(), "round {round}: {ident}");
        }
    }
    assert!(checked > 2_000, "only {checked} field(s) compared");

    for (mode, count) in modes.iter().enumerate() {
        assert!(*count > 20, "MODE was {mode} in only {count} packet(s)");
    }
    assert!(valid > 20, "VALID was set in only {valid} packet(s)");
    assert!(self_above > 20, "SELF was above its threshold in only {self_above} packet(s)");
    assert!(lookahead_hit > 5, "LOOKAHEAD's criterion held in only {lookahead_hit} packet(s)");
}

#[test]
fn a_criterion_on_a_later_parameter_reads_the_field_being_calibrated() {
    let layout = context_calibrated();
    let container = &layout.containers[0];
    // `(LOOKAHEAD, LATER, what the context calibrator makes of it)`. The context applies 7.0; the
    // default is the raw value itself.
    let cases = [
        (5u64, 0u64, 7.0f64, "the criterion holds on LOOKAHEAD's own value"),
        (0, 5, 0.0, "LATER is 5, but LATER is not what is compared"),
    ];
    for (lookahead, later, expected, what) in cases {
        let mut values = vec![Value::Unsigned(0); 11];
        values[1] = Value::Enumerated(0);
        values[2] = Value::Bool(false);
        values[7] = Value::Unsigned(lookahead);
        values[9] = Value::Unsigned(later);
        let mut buffer = vec![0u8; container.len_bytes];
        encode(container, &layout.enums, &values, &mut buffer).expect("every value fits");
        let decoded = decode(container, &layout.enums, &buffer).expect("decodes");
        let value = calibrated(&layout, &decoded, "lookahead");
        assert_eq!(
            value.to_bits(),
            expected.to_bits(),
            "{what}: LOOKAHEAD {lookahead}, LATER {later} calibrated to {value}"
        );
    }
}

#[test]
fn every_operator_compares_as_it_says() {
    let cases = [
        (CompareOp::Equal, [false, true, false]),
        (CompareOp::NotEqual, [true, false, true]),
        (CompareOp::Less, [true, false, false]),
        (CompareOp::LessOrEqual, [true, true, false]),
        (CompareOp::Greater, [false, false, true]),
        (CompareOp::GreaterOrEqual, [false, true, true]),
    ];
    for (operator, answers) in cases {
        for (value, answer) in [-4i128, -3, -2].into_iter().zip(answers) {
            assert_eq!(compare(&number(operator, -3), value), answer);
        }
    }
}

#[test]
fn a_label_holds_of_the_values_it_stands_for() {
    let label = ContextComparison::Labels(vec![(3, 5), (9, 9)]);
    let held: Vec<i128> = (0..12).filter(|value| compare(&label, *value)).collect();
    assert_eq!(held, [3, 4, 5, 9]);
    assert!(!compare(&ContextComparison::Labels(Vec::new()), 0));
}
