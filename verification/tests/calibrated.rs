//! Calibration: the accessors generated for a definition, run against arithmetic written out here.
//!
//! The accessors stand here twice: as texts that the generated module has to hold, and as code.

use xtce_flight::plan::{
    Calibration, ContainerPlan, Field, IntegerCoding, Node, Plan, Repr, Spline, SplinePoint, Term,
};

fn field(name: &str, offset: usize, width: u32, repr: Repr, calibration: Calibration) -> Field {
    Field {
        xtce_name: name.to_owned(),
        ident: name.to_lowercase(),
        span: Some((offset, width)),
        repr,
        swap_bytes: false,
        calibration: Some(calibration),
        contexts: Vec::new(),
    }
}

fn polynomial(terms: &[(&str, i32)]) -> Calibration {
    Calibration::Polynomial(
        terms
            .iter()
            .map(|(coefficient, exponent)| Term {
                coefficient: (*coefficient).to_owned(),
                exponent: *exponent,
            })
            .collect(),
    )
}

fn spline(points: &[(&str, &str)], order: u8, extrapolate: bool) -> Calibration {
    Calibration::Spline(Spline {
        points: points
            .iter()
            .map(|(raw, calibrated)| SplinePoint {
                raw: (*raw).to_owned(),
                calibrated: (*calibrated).to_owned(),
            })
            .collect(),
        order,
        extrapolate,
    })
}

fn only(name: &str, bits: usize, fields: Vec<Field>) -> Plan {
    Plan {
        containers: vec![ContainerPlan {
            xtce_name: name.to_owned(),
            bit_length: Some(bits),
            fields,
            fixed: Vec::new(),
        }],
        root: Node { plan: Some(0), children: Vec::new() },
        root_name: name.to_owned(),
    }
}

fn generated(plan: Plan) -> String {
    xtce_flight::generate(&Ok(plan), &xtce_flight::Options::default(), &None).expect("compiles")
}

fn calibrated() -> Plan {
    let cubed = || polynomial(&[("1.0", 3)]);
    let twos = Repr::Signed(IntegerCoding::TwosComplement);
    only(
        "Telemetry",
        192,
        vec![
            field("POLY_U32", 0, 32, Repr::Unsigned, cubed()),
            field("POLY_F64", 32, 64, Repr::Float64, cubed()),
            field("POLY_BIG", 96, 64, Repr::Unsigned, polynomial(&[("0.5", 0), ("0.000001", 3)])),
            field("POLY_S16", 160, 16, twos, polynomial(&[("2.0", -1), ("-0.75", 2)])),
            field(
                "SPL0_U8",
                176,
                8,
                Repr::Unsigned,
                spline(&[("0.0", "1.0"), ("100.0", "2.5"), ("200.0", "-4.0")], 0, true),
            ),
            field(
                "SPL1_U8",
                184,
                8,
                Repr::Unsigned,
                spline(&[("10.0", "0.0"), ("60.0", "12.5"), ("250.0", "7.0")], 1, true),
            ),
        ],
    )
}

fn calibrated_bounded() -> Plan {
    let points = [("50.0", "-1.0"), ("125.0", "3.0"), ("200.0", "3.5")];
    only(
        "Bounded",
        8,
        vec![field("BOUNDED", 0, 8, Repr::Unsigned, spline(&points, 1, false))],
    )
}

fn has(source: &str, text: &str) {
    assert!(source.contains(text), "the module does not hold:\n{text}");
}

/// A module without its comments and without what only the compiler reads.
fn code_of(source: &str) -> String {
    let mut out = String::new();
    for line in source.lines() {
        let start = line.trim_start();
        if !start.starts_with("//") && !start.starts_with("#[must_use]") {
            out.push_str(line);
            out.push('\n');
        }
    }
    out
}

#[test]
fn the_accessors_are_the_ones_below() {
    let source = code_of(&generated(calibrated()));
    for text in ACCESSORS {
        has(&source, text);
    }
    has(&source, HELPERS);
    has(&code_of(&generated(calibrated_bounded())), BOUNDED_ACCESSOR);
}

fn next(state: &mut u64) -> u64 {
    *state ^= *state >> 12;
    *state ^= *state << 25;
    *state ^= *state >> 27;
    state.wrapping_mul(0x2545_F491_4F6C_DD1D)
}

/// A cube, exact where it fits and rounded step by step where it does not.
fn cube(raw: u64) -> f64 {
    let raw = i128::from(raw);
    match raw.checked_mul(raw).and_then(|square| square.checked_mul(raw)) {
        Some(exact) => exact as f64,
        None => raw as f64 * (raw as f64 * raw as f64),
    }
}

#[test]
fn calibration_matches_the_interpreter_bit_for_bit() {
    let mut checked = 0usize;
    for round in 0..256u64 {
        let mut state = 0x2545_F491_4F6C_DD1Du64.wrapping_mul(round + 1) ^ (round << 32);
        let real = f64::from_bits(next(&mut state) & 0xBFFF_FFFF_FFFF_FFFF);
        let packet = Telemetry {
            poly_u32: next(&mut state) as u32,
            poly_f64: real,
            poly_big: next(&mut state) >> (round % 50),
            poly_s16: next(&mut state) as i16,
            spl0_u8: next(&mut state) as u8,
            spl1_u8: next(&mut state) as u8,
        };
        let s16 = f64::from(packet.poly_s16);
        let (step, x) = (packet.spl0_u8, f64::from(packet.spl1_u8));
        let line = |x0: f64, y0: f64, x1: f64, y1: f64| (y1 - y0) / (x1 - x0) * (x - x0) + y0;
        let pairs = [
            (packet.poly_u32_calibrated(), cube(u64::from(packet.poly_u32))),
            (packet.poly_f64_calibrated(), 0.0 + real * (real * real)),
            (packet.poly_big_calibrated(), 0.5 + 0.000001 * cube(packet.poly_big)),
            (packet.poly_s16_calibrated(), 2.0 * (1.0 / s16) + -0.75 * (s16 * s16)),
            (
                packet.spl0_u8_calibrated(),
                if step < 100 {
                    1.0
                } else if step < 200 {
                    2.5
                } else {
                    -4.0
                },
            ),
            (
                packet.spl1_u8_calibrated(),
                if x < 60.0 { line(10.0, 0.0, 60.0, 12.5) } else { line(60.0, 12.5, 250.0, 7.0) },
            ),
        ];
        for (at, (found, expected)) in pairs.into_iter().enumerate() {
            let found = found.expect("nothing here refuses");
            assert_eq!(found.to_bits(), expected.to_bits(), "round {round}, field {at}");
            checked += 1;
        }
    }
    assert!(checked > 1_500, "only {checked} field(s) compared");
}

#[test]
fn the_integer_power_path_is_not_the_float_one() {
    // 2^27 + 1. Its cube needs 82 bits, so rounding it once is not the same as rounding the
    // square and then the product.
    const VALUE: u32 = (1 << 27) + 1;
    let packet = Telemetry {
        poly_u32: VALUE,
        poly_f64: f64::from(VALUE),
        poly_big: 0,
        poly_s16: 0,
        spl0_u8: 0,
        spl1_u8: 0,
    };
    let integral = packet.poly_u32_calibrated().expect("a polynomial never fails");
    let floating = packet.poly_f64_calibrated().expect("a polynomial never fails");
    assert_ne!(
        integral.to_bits(),
        floating.to_bits(),
        "the same value through the integral and floating-point paths came out identical, so the \
         emitter is using one path for both"
    );
    // A last-bit disagreement, not a wrong answer.
    assert!(
        (integral - floating).abs() / integral.abs() < 1e-15,
        "the two paths differ by more than rounding: {integral} against {floating}"
    );
}

#[test]
fn a_bounded_spline_refuses_outside_its_points() {
    let mut refused = 0usize;
    let mut answered = 0usize;
    for raw in 0..=u8::MAX {
        match (Bounded { bounded: raw }).bounded_calibrated() {
            Err(error) => {
                refused += 1;
                assert!(
                    !(50..=200).contains(&raw),
                    "raw {raw} is inside the spline's points but was refused"
                );
                assert_eq!(error, DecodeError::Calibration { parameter: "BOUNDED" });
            }
            Ok(value) => {
                answered += 1;
                assert!(
                    (50..=200).contains(&raw),
                    "raw {raw} is outside the spline's points but got an answer"
                );
                let x = f64::from(raw);
                let expected = if raw < 125 {
                    4.0 / 75.0 * (x - 50.0) + -1.0
                } else {
                    0.5 / 75.0 * (x - 125.0) + 3.0
                };
                assert_eq!(value.to_bits(), expected.to_bits(), "raw {raw}");
            }
        }
    }
    // 50 to 200 inclusive is 151 of the 256 values, and the rest have no answer.
    assert_eq!(answered, 151);
    assert_eq!(refused, 105);
}

// -----------------------------------------------------------------------------------------
// The accessors, as code
// -----------------------------------------------------------------------------------------

#[derive(Clone, Copy, PartialEq, Debug)]
pub enum DecodeError {
    Calibration { parameter: &'static str },
}

#[derive(Clone, Copy, PartialEq, Debug)]
pub struct Telemetry {
    pub poly_u32: u32,
    pub poly_f64: f64,
    pub poly_big: u64,
    pub poly_s16: i16,
    pub spl0_u8: u8,
    pub spl1_u8: u8,
}

#[derive(Clone, Copy, PartialEq, Debug)]
pub struct Bounded {
    pub bounded: u8,
}

const SPL0_POINTS: &[(f64, f64)] = &[(0.0, 1.0), (100.0, 2.5), (200.0, -4.0)];
const SPL1_POINTS: &[(f64, f64)] = &[(10.0, 0.0), (60.0, 12.5), (250.0, 7.0)];
const BOUNDED_POINTS: &[(f64, f64)] = &[(50.0, -1.0), (125.0, 3.0), (200.0, 3.5)];

impl Telemetry {
    pub fn poly_u32_calibrated(&self) -> Result<f64, DecodeError> {
        let base = i128::from(self.poly_u32);
        let mut sum = 0.0f64;
        sum += 1.0 * integer_power(base, 3);
        Ok(sum)
    }

    pub fn poly_f64_calibrated(&self) -> Result<f64, DecodeError> {
        let base = f64::from(self.poly_f64);
        let mut sum = 0.0f64;
        sum += 1.0 * powi(base, 3);
        Ok(sum)
    }

    pub fn poly_big_calibrated(&self) -> Result<f64, DecodeError> {
        let base = i128::from(self.poly_big);
        let mut sum = 0.0f64;
        sum += 0.5 * integer_power(base, 0);
        sum += 0.000001 * integer_power(base, 3);
        Ok(sum)
    }

    pub fn poly_s16_calibrated(&self) -> Result<f64, DecodeError> {
        let base = i128::from(self.poly_s16);
        let mut sum = 0.0f64;
        sum += 2.0 * integer_power(base, -1);
        sum += -0.75 * integer_power(base, 2);
        Ok(sum)
    }

    pub fn spl0_u8_calibrated(&self) -> Result<f64, DecodeError> {
        match spline_value(SPL0_POINTS, 0, true, i128::from(self.spl0_u8) as f64) {
            Some(value) => Ok(value),
            None => {
                Err(DecodeError::Calibration {
                    parameter: "SPL0_U8",
                })
            }
        }
    }

    pub fn spl1_u8_calibrated(&self) -> Result<f64, DecodeError> {
        match spline_value(SPL1_POINTS, 1, true, i128::from(self.spl1_u8) as f64) {
            Some(value) => Ok(value),
            None => {
                Err(DecodeError::Calibration {
                    parameter: "SPL1_U8",
                })
            }
        }
    }
}

impl Bounded {
    pub fn bounded_calibrated(&self) -> Result<f64, DecodeError> {
        match spline_value(BOUNDED_POINTS, 1, false, i128::from(self.bounded) as f64) {
            Some(value) => Ok(value),
            None => {
                Err(DecodeError::Calibration {
                    parameter: "BOUNDED",
                })
            }
        }
    }
}

fn powi(x: f64, exponent: i32) -> f64 {
    let mut remaining = exponent.unsigned_abs();
    let mut result = 1.0f64;
    let mut base = x;
    let mut started = false;
    while remaining > 0 {
        if remaining & 1 == 1 {
            result = if started { result * base } else { base };
            started = true;
        }
        remaining >>= 1;
        if remaining > 0 {
            base = base * base;
        }
    }
    let value = if started { result } else { 1.0 };
    if exponent < 0 { 1.0 / value } else { value }
}
fn integer_power(base: i128, exponent: i32) -> f64 {
    if exponent < 0 {
        return powi(base as f64, exponent);
    }
    match u32::try_from(exponent).ok().and_then(|exponent| base.checked_pow(exponent)) {
        Some(exact) => exact as f64,
        None => powi(base as f64, exponent),
    }
}
fn spline_line(x: f64, x0: f64, x1: f64, y0: f64, y1: f64) -> f64 {
    if (x1 - x0) == 0.0 {
        return y0;
    }
    let slope = (y1 - y0) / (x1 - x0);
    slope * (x - x0) + y0
}
fn spline_value(
    points: &[(f64, f64)],
    order: u8,
    extrapolate: bool,
    query: f64,
) -> Option<f64> {
    let first = *points.first()?;
    let last = *points.last()?;
    if query < first.0 {
        if !extrapolate {
            return None;
        }
        return Some(
            match order {
                0 => first.1,
                _ => {
                    match points.get(1) {
                        Some(second) => {
                            spline_line(query, first.0, second.0, first.1, second.1)
                        }
                        None => first.1,
                    }
                }
            },
        );
    }
    if query > last.0 {
        if !extrapolate {
            return None;
        }
        return Some(
            match order {
                0 => last.1,
                _ => {
                    match points.len().checked_sub(2).and_then(|at| points.get(at)) {
                        Some(previous) => {
                            spline_line(query, previous.0, last.0, previous.1, last.1)
                        }
                        None => last.1,
                    }
                }
            },
        );
    }
    let hi = points.partition_point(|point| point.0 <= query).max(1);
    Some(
        match order {
            0 => points.get(hi.saturating_sub(1)).map_or(first.1, |point| point.1),
            _ => {
                if points.len() < 2 {
                    return Some(first.1);
                }
                let upper = hi.min(points.len() - 1);
                match (points.get(upper.saturating_sub(1)), points.get(upper)) {
                    (Some(lower), Some(higher)) => {
                        spline_line(query, lower.0, higher.0, lower.1, higher.1)
                    }
                    _ => first.1,
                }
            }
        },
    )
}

// -----------------------------------------------------------------------------------------
// The accessors, as texts
// -----------------------------------------------------------------------------------------

const ACCESSORS: [&str; 6] = [
    r##"    pub fn poly_u32_calibrated(&self) -> Result<f64, DecodeError> {
        let base = i128::from(self.poly_u32);
        let mut sum = 0.0f64;
        sum += 1.0 * integer_power(base, 3);
        Ok(sum)
    }
"##,
    r##"    pub fn poly_f64_calibrated(&self) -> Result<f64, DecodeError> {
        let base = f64::from(self.poly_f64);
        let mut sum = 0.0f64;
        sum += 1.0 * powi(base, 3);
        Ok(sum)
    }
"##,
    r##"    pub fn poly_big_calibrated(&self) -> Result<f64, DecodeError> {
        let base = i128::from(self.poly_big);
        let mut sum = 0.0f64;
        sum += 0.5 * integer_power(base, 0);
        sum += 0.000001 * integer_power(base, 3);
        Ok(sum)
    }
"##,
    r##"    pub fn poly_s16_calibrated(&self) -> Result<f64, DecodeError> {
        let base = i128::from(self.poly_s16);
        let mut sum = 0.0f64;
        sum += 2.0 * integer_power(base, -1);
        sum += -0.75 * integer_power(base, 2);
        Ok(sum)
    }
"##,
    r##"    pub fn spl0_u8_calibrated(&self) -> Result<f64, DecodeError> {
        const POINTS: &[(f64, f64)] = &[(0.0, 1.0), (100.0, 2.5), (200.0, -4.0)];
        match spline_value(POINTS, 0, true, i128::from(self.spl0_u8) as f64) {
            Some(value) => Ok(value),
            None => {
                Err(DecodeError::Calibration {
                    parameter: "SPL0_U8",
                })
            }
        }
    }
"##,
    r##"    pub fn spl1_u8_calibrated(&self) -> Result<f64, DecodeError> {
        const POINTS: &[(f64, f64)] = &[(10.0, 0.0), (60.0, 12.5), (250.0, 7.0)];
        match spline_value(POINTS, 1, true, i128::from(self.spl1_u8) as f64) {
            Some(value) => Ok(value),
            None => {
                Err(DecodeError::Calibration {
                    parameter: "SPL1_U8",
                })
            }
        }
    }
"##,
];

const BOUNDED_ACCESSOR: &str = r##"    pub fn bounded_calibrated(&self) -> Result<f64, DecodeError> {
        const POINTS: &[(f64, f64)] = &[(50.0, -1.0), (125.0, 3.0), (200.0, 3.5)];
        match spline_value(POINTS, 1, false, i128::from(self.bounded) as f64) {
            Some(value) => Ok(value),
            None => {
                Err(DecodeError::Calibration {
                    parameter: "BOUNDED",
                })
            }
        }
    }
"##;

const HELPERS: &str = r##"fn powi(x: f64, exponent: i32) -> f64 {
    let mut remaining = exponent.unsigned_abs();
    let mut result = 1.0f64;
    let mut base = x;
    let mut started = false;
    while remaining > 0 {
        if remaining & 1 == 1 {
            result = if started { result * base } else { base };
            started = true;
        }
        remaining >>= 1;
        if remaining > 0 {
            base = base * base;
        }
    }
    let value = if started { result } else { 1.0 };
    if exponent < 0 { 1.0 / value } else { value }
}
fn integer_power(base: i128, exponent: i32) -> f64 {
    if exponent < 0 {
        return powi(base as f64, exponent);
    }
    match u32::try_from(exponent).ok().and_then(|exponent| base.checked_pow(exponent)) {
        Some(exact) => exact as f64,
        None => powi(base as f64, exponent),
    }
}
fn spline_line(x: f64, x0: f64, x1: f64, y0: f64, y1: f64) -> f64 {
    if (x1 - x0) == 0.0 {
        return y0;
    }
    let slope = (y1 - y0) / (x1 - x0);
    slope * (x - x0) + y0
}
fn spline_value(
    points: &[(f64, f64)],
    order: u8,
    extrapolate: bool,
    query: f64,
) -> Option<f64> {
    let first = *points.first()?;
    let last = *points.last()?;
    if query < first.0 {
        if !extrapolate {
            return None;
        }
        return Some(
            match order {
                0 => first.1,
                _ => {
                    match points.get(1) {
                        Some(second) => {
                            spline_line(query, first.0, second.0, first.1, second.1)
                        }
                        None => first.1,
                    }
                }
            },
        );
    }
    if query > last.0 {
        if !extrapolate {
            return None;
        }
        return Some(
            match order {
                0 => last.1,
                _ => {
                    match points.len().checked_sub(2).and_then(|at| points.get(at)) {
                        Some(previous) => {
                            spline_line(query, previous.0, last.0, previous.1, last.1)
                        }
                        None => last.1,
                    }
                }
            },
        );
    }
    let hi = points.partition_point(|point| point.0 <= query).max(1);
    Some(
        match order {
            0 => points.get(hi.saturating_sub(1)).map_or(first.1, |point| point.1),
            _ => {
                if points.len() < 2 {
                    return Some(first.1);
                }
                let upper = hi.min(points.len() - 1);
                match (points.get(upper.saturating_sub(1)), points.get(upper)) {
                    (Some(lower), Some(higher)) => {
                        spline_line(query, lower.0, higher.0, lower.1, higher.1)
                    }
                    _ => first.1,
                }
            }
        },
    )
}
"##;
