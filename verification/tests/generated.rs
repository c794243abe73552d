//! One definition with a field of every shape, the module generated from it, and that module run
//! beside the library.
//!
//! The module and its harness stand here twice: as texts, which the library's output is compared
//! with, and as code. Comments, and what only formats an error, are left out of both.

use xtce_flight::codec::{decode as read, dispatch, encode as write_packet, Value};
use xtce_flight::plan::{
    Calibration, CompareOp, ContainerPlan, ContextComparison, Field, FixedEntry, Guard,
    IntegerCoding, Node, Plan, PlanContext, PlanCriterion, PlanTest, Repr, Spline, SplinePoint,
    Term, TextCharset, TextDelimiter,
};
use xtce_flight::Layout;

fn field(name: &str, offset: usize, width: u32, repr: Repr) -> Field {
    Field {
        xtce_name: name.to_owned(),
        ident: name.to_lowercase(),
        span: Some((offset, width)),
        repr,
        swap_bytes: false,
        calibration: None,
        contexts: Vec::new(),
    }
}

fn little(name: &str, offset: usize, width: u32, repr: Repr) -> Field {
    Field { swap_bytes: true, ..field(name, offset, width, repr) }
}

fn guard(name: &str, offset: usize, width: u32, value: i128, swap_bytes: bool) -> Guard {
    Guard {
        xtce_name: name.to_owned(),
        ident: name.to_lowercase(),
        bit_offset: offset,
        bit_width: width,
        operator: CompareOp::Equal,
        value,
        swap_bytes,
    }
}

fn fixed(name: Option<&str>, offset: usize, width: u32, value: &[u8]) -> FixedEntry {
    FixedEntry {
        xtce_name: name.map(str::to_owned),
        ident: name.map(str::to_lowercase),
        bit_offset: offset,
        bit_width: width,
        value: value.to_vec(),
    }
}

fn text(charset: TextCharset, delimiter: TextDelimiter) -> Repr {
    Repr::Text { charset, delimiter }
}

fn term(coefficient: &str, exponent: i32) -> Term {
    Term { coefficient: coefficient.to_owned(), exponent }
}

fn point(raw: &str, calibrated: &str) -> SplinePoint {
    SplinePoint { raw: raw.to_owned(), calibrated: calibrated.to_owned() }
}

fn asks(name: &str, offset: usize, width: u32, comparison: ContextComparison) -> PlanCriterion {
    PlanCriterion::Test(PlanTest {
        xtce_name: name.to_owned(),
        bit_offset: offset,
        bit_width: width,
        comparison,
    })
}

/// A definition with a field of every shape.
fn sampler() -> Plan {
    let signed = |coding| Repr::Signed(coding);
    let labels = vec![
        (0, 0, "SAFE".to_owned()),
        (1, 3, "LOW-POWER".to_owned()),
        (5, 5, "9600".to_owned()),
    ];
    let linear = || Calibration::Polynomial(vec![term("-1.5", 0), term("0.25", 1)]);
    let cubic = || Calibration::Polynomial(vec![term("2.0", 3)]);
    let spline = |order, extrapolate| {
        Calibration::Spline(Spline {
            points: vec![point("10.0", "0.0"), point("20.0", "5.0"), point("40.0", "6.0")],
            order,
            extrapolate,
        })
    };
    let number = |operator, value| ContextComparison::Value { operator, value };
    let chosen = Field {
        calibration: Some(linear()),
        contexts: vec![
            PlanContext {
                criteria: PlanCriterion::All(vec![
                    asks("FLAG", 40, 1, number(CompareOp::Equal, 1)),
                    PlanCriterion::Any(vec![
                        asks("MODE", 41, 3, ContextComparison::Labels(vec![(1, 3), (5, 5)])),
                        asks("TWOS", 48, 13, number(CompareOp::Less, -7)),
                    ]),
                ]),
                calibration: cubic(),
            },
            PlanContext {
                criteria: asks("CHOSEN", 600, 8, number(CompareOp::GreaterOrEqual, 200)),
                calibration: spline(1, true),
            },
        ],
        ..field("CHOSEN", 600, 8, Repr::Unsigned)
    };
    Plan {
        containers: vec![
            ContainerPlan {
                xtce_name: "Probe".to_owned(),
                bit_length: Some(680),
                fields: vec![
                    field("KIND", 0, 8, Repr::Unsigned),
                    little("SEL", 8, 16, Repr::Unsigned),
                    field("FLAG", 40, 1, Repr::Bool),
                    field("MODE", 41, 3, Repr::Enumerated(labels)),
                    field("TWOS", 48, 13, signed(IntegerCoding::TwosComplement)),
                    field("ONES", 61, 16, signed(IntegerCoding::OnesComplement)),
                    field("SIGNMAG", 77, 12, signed(IntegerCoding::SignMagnitude)),
                    field("ODD", 89, 57, Repr::Unsigned),
                    field("S64", 146, 64, signed(IntegerCoding::TwosComplement)),
                    field("HALF", 210, 16, Repr::Float16),
                    field("DOUBLE", 226, 64, Repr::Float64),
                    field("PAD", 290, 6, Repr::Unsigned),
                    field(
                        "ID",
                        296,
                        32,
                        text(TextCharset::UsAscii, TextDelimiter::WholeBuffer),
                    ),
                    field(
                        "LABEL",
                        328,
                        64,
                        text(TextCharset::Utf8, TextDelimiter::TerminationChar(vec![13, 10])),
                    ),
                    field(
                        "NOTE",
                        392,
                        64,
                        text(TextCharset::Utf8, TextDelimiter::LeadingSize { size_in_bits: 16 }),
                    ),
                    field("BLOB", 456, 24, Repr::Binary),
                    little("LE24", 480, 24, Repr::Unsigned),
                    little("LE_SINGLE", 504, 32, Repr::Float32),
                    Field {
                        calibration: Some(spline(1, false)),
                        ..little("LE_S16", 536, 16, signed(IntegerCoding::TwosComplement))
                    },
                    Field {
                        calibration: Some(cubic()),
                        ..field("GAIN", 552, 32, Repr::Float32)
                    },
                    Field {
                        calibration: Some(spline(0, true)),
                        ..field("STEP", 584, 16, Repr::Unsigned)
                    },
                    chosen,
                ],
                fixed: vec![
                    fixed(Some("SYNC"), 24, 16, &[0x1A, 0xCF]),
                    fixed(None, 44, 4, &[0x0A]),
                    fixed(Some("FILL"), 608, 72, &[1, 2, 3, 4, 5, 6, 7, 8, 9]),
                ],
            },
            ContainerPlan {
                xtce_name: "PING_PACKET".to_owned(),
                bit_length: Some(12),
                fields: vec![
                    field("KIND", 0, 8, Repr::Unsigned),
                    field("SEQ", 8, 4, Repr::Unsigned),
                ],
                fixed: Vec::new(),
            },
        ],
        root: Node {
            plan: None,
            children: vec![
                (
                    vec![guard("KIND", 0, 8, 1, false), guard("SEL", 8, 16, 513, true)],
                    Node { plan: Some(0), children: Vec::new() },
                ),
                (
                    vec![guard("KIND", 0, 8, 2, false)],
                    Node { plan: Some(1), children: Vec::new() },
                ),
            ],
        },
        root_name: "Base".to_owned(),
    }
}

/// The code of a module: no comments, nothing that only the compiler reads, no formatting of
/// errors.
fn code_of(source: &str) -> String {
    let mut out = String::new();
    let mut skipping = false;
    let mut documenting = false;
    for line in source.lines() {
        let start = line.trim_start();
        if start.starts_with("/**") {
            documenting = true;
        }
        if start.starts_with("impl core::fmt::Display") {
            skipping = true;
        }
        let shown = !skipping
            && !documenting
            && !start.is_empty()
            && !start.starts_with("//")
            && !start.starts_with("#[must_use]")
            && !start.starts_with("#[doc")
            && !start.starts_with("#[allow");
        if shown {
            out.push_str(line);
            out.push('\n');
        }
        if skipping && line == "}" {
            skipping = false;
        }
        if documenting && line.ends_with("*/") {
            documenting = false;
        }
    }
    out
}

fn generated() -> String {
    let options = xtce_flight::Options::default();
    let origin = Some("sampler.xml".to_owned());
    xtce_flight::generate(&Ok(sampler()), &options, &origin).expect("compiles")
}

fn layout() -> Layout {
    xtce_flight::layout(&Ok(sampler())).expect("compiles")
}

#[test]
fn the_module_is_the_code_below() {
    let source = generated();
    assert!(source.starts_with(HEADER), "{source}");
    let code = code_of(&source);
    for (at, (found, expected)) in code.lines().zip(EXPECTED.lines()).enumerate() {
        assert_eq!(found, expected, "line {at}");
    }
    assert_eq!(code.lines().count(), EXPECTED.lines().count());
}

const IDS: [&str; 3] = ["v1.0", "A-Z9", "    "];
const LABELS: [&str; 4] = ["", "ping", "\u{105}\u{119}\r", "a\nb\r"];
const NOTES: [&str; 3] = ["", "note", "\u{3A9}\u{E9}xy"];
const BLOBS: [&[u8]; 2] = [&[1, 2, 3], &[0xFF, 0, 0x80]];

fn probe(rng: &mut Rng) -> Probe<'static> {
    let finite = |bits: u32| if bits >> 23 & 0xFF == 0xFF { bits & 0xFF7F_FFFF } else { bits };
    Probe {
        flag: rng.next() & 1 == 1,
        mode: [Mode::Safe, Mode::LowPower, Mode::C9600][(rng.next() % 3) as usize],
        twos: (rng.next() % 8192) as i16 - 4096,
        ones: (rng.next() % 65535) as i32 as u16 as i16,
        signmag: (rng.next() % 4095) as i16 - 2047,
        odd: rng.next() & 144115188075855871,
        s64: rng.next() as i64,
        half: half_to_f32((rng.next() & 0x7BFF) as u16),
        double: f64::from_bits(rng.next() & 0xBFFF_FFFF_FFFF_FFFF),
        pad: (rng.next() % 64) as u8,
        id: IDS[(rng.next() % 3) as usize],
        label: LABELS[(rng.next() % 4) as usize],
        note: NOTES[(rng.next() % 3) as usize],
        blob: BLOBS[(rng.next() % 2) as usize],
        le24: (rng.next() & 0xFF_FFFF) as u32,
        le_single: f32::from_bits(finite(rng.next() as u32)),
        le_s16: rng.next() as i16,
        gain: f32::from_bits(finite(rng.next() as u32)),
        step: rng.next() as u16,
        chosen: rng.next() as u8,
    }
}

/// The same packet, as the library takes it.
fn values<'a>(packet: &Probe<'a>) -> Vec<Value<'a>> {
    vec![
        Value::Bool(packet.flag),
        Value::Enumerated(packet.mode as usize),
        Value::Signed(i64::from(packet.twos)),
        Value::Signed(i64::from(packet.ones)),
        Value::Signed(i64::from(packet.signmag)),
        Value::Unsigned(packet.odd),
        Value::Signed(packet.s64),
        Value::Single(packet.half.to_bits()),
        Value::Double(packet.double.to_bits()),
        Value::Unsigned(u64::from(packet.pad)),
        Value::Text(packet.id),
        Value::Text(packet.label),
        Value::Text(packet.note),
        Value::Binary(packet.blob),
        Value::Unsigned(u64::from(packet.le24)),
        Value::Single(packet.le_single.to_bits()),
        Value::Signed(i64::from(packet.le_s16)),
        Value::Single(packet.gain.to_bits()),
        Value::Unsigned(u64::from(packet.step)),
        Value::Unsigned(u64::from(packet.chosen)),
    ]
}

#[test]
fn the_generated_code_does_what_the_library_does() {
    let layout = layout();
    let container = &layout.containers[0];
    let mut rng = Rng::new(0);
    for round in 0..2000 {
        let packet = probe(&mut rng);
        let given = values(&packet);
        let mut ours = vec![0xA5u8; 90];
        let mut theirs = vec![0xA5u8; 90];
        let written = write_packet(container, &layout.enums, &given, &mut ours);
        if packet.ones == i16::MIN {
            assert_eq!(packet.encode(&mut theirs), Err(EncodeError::OutOfRange { parameter: "ONES" }));
            assert!(written.is_err());
            assert_eq!(ours, theirs);
            continue;
        }
        assert_eq!(written, Ok(85), "round {round}");
        assert_eq!(packet.encode(&mut theirs), Ok(85), "round {round}");
        assert_eq!(ours, theirs, "round {round}");

        assert!(Probe::matches(&theirs) && !PingPacket::matches(&theirs));
        let read_back = read(container, &layout.enums, &ours).expect("decodes");
        let decoded = Probe::decode(&theirs).expect("decodes");
        assert_eq!(values(&decoded), read_back, "round {round}");
        assert_eq!(read_back, given, "round {round}");
        let (chosen, dispatched) = dispatch(&layout, &ours).expect("recognised");
        assert_eq!((chosen, dispatched), (0, read_back));
        assert_eq!(decode(&theirs), Ok(Packet::Probe(decoded)));
    }
}

/// A name for each refusal, so that the two sides can be compared.
fn said(error: EncodeError) -> (&'static str, &'static str) {
    match error {
        EncodeError::TooShort { .. } => ("TooShort", ""),
        EncodeError::OutOfRange { parameter } => ("OutOfRange", parameter),
        EncodeError::TextLength { parameter } => ("TextLength", parameter),
        EncodeError::EmbeddedTerminator { parameter } => ("EmbeddedTerminator", parameter),
        EncodeError::InvalidText { parameter } => ("InvalidText", parameter),
        EncodeError::BinaryLength { parameter } => ("BinaryLength", parameter),
    }
}

fn heard(error: xtce_flight::codec::EncodeError<'_>) -> (&'static str, &str) {
    match error {
        xtce_flight::codec::EncodeError::TooShort { .. } => ("TooShort", ""),
        xtce_flight::codec::EncodeError::OutOfRange { parameter } => ("OutOfRange", parameter),
        xtce_flight::codec::EncodeError::TextLength { parameter } => ("TextLength", parameter),
        xtce_flight::codec::EncodeError::EmbeddedTerminator { parameter } => {
            ("EmbeddedTerminator", parameter)
        }
        xtce_flight::codec::EncodeError::InvalidText { parameter } => ("InvalidText", parameter),
        xtce_flight::codec::EncodeError::BinaryLength { parameter } => ("BinaryLength", parameter),
    }
}

#[test]
fn the_generated_code_refuses_what_the_library_refuses() {
    let layout = layout();
    let container = &layout.containers[0];
    let base = probe(&mut Rng::new(7));
    let base = Probe { ones: 5, ..base };
    let refused = [
        (Probe { twos: 4096, ..base }, ("OutOfRange", "TWOS")),
        (Probe { twos: -4097, ..base }, ("OutOfRange", "TWOS")),
        (Probe { ones: i16::MIN, ..base }, ("OutOfRange", "ONES")),
        (Probe { signmag: 2048, ..base }, ("OutOfRange", "SIGNMAG")),
        (Probe { signmag: -2048, ..base }, ("OutOfRange", "SIGNMAG")),
        (Probe { odd: 1 << 57, ..base }, ("OutOfRange", "ODD")),
        (Probe { pad: 64, ..base }, ("OutOfRange", "PAD")),
        (Probe { id: "v1.00", ..base }, ("TextLength", "ID")),
        (Probe { id: "\u{105}\u{119}", ..base }, ("InvalidText", "ID")),
        (Probe { label: "seven77", ..base }, ("TextLength", "LABEL")),
        (Probe { label: "a\r\nb", ..base }, ("EmbeddedTerminator", "LABEL")),
        (Probe { note: "seven77", ..base }, ("TextLength", "NOTE")),
        (Probe { blob: &[1, 2], ..base }, ("BinaryLength", "BLOB")),
        (Probe { le24: 1 << 24, ..base }, ("OutOfRange", "LE24")),
    ];
    for (packet, expected) in refused {
        let mut ours = vec![0x5Au8; 85];
        let mut theirs = vec![0x5Au8; 85];
        assert_eq!(said(packet.encode(&mut theirs).expect_err("refused")), expected);
        let error = write_packet(container, &layout.enums, &values(&packet), &mut ours)
            .expect_err("refused");
        assert_eq!(heard(error), expected);
        assert_eq!(ours, theirs, "{expected:?}");
    }
    let mut short = vec![0u8; 84];
    assert_eq!(base.encode(&mut short), Err(EncodeError::TooShort { needed: 85 }));
    assert_eq!(
        write_packet(container, &layout.enums, &values(&base), &mut short),
        Err(xtce_flight::codec::EncodeError::TooShort { needed: 85 })
    );
}

#[test]
fn the_generated_code_reads_damage_as_the_library_does() {
    let layout = layout();
    let container = &layout.containers[0];
    let packet = Probe { ones: 5, label: "ping", ..probe(&mut Rng::new(11)) };
    let mut good = vec![0u8; 85];
    packet.encode(&mut good).expect("encodes");
    let damage: [(usize, u8, DecodeError, xtce_flight::codec::DecodeError<'_>); 5] = [
        (
            5,
            good[5] & 0x8F | 0x70,
            DecodeError::UnknownLabel { parameter: "MODE" },
            xtce_flight::codec::DecodeError::UnknownLabel { parameter: "MODE" },
        ),
        (
            37,
            0x80,
            DecodeError::InvalidText { parameter: "ID" },
            xtce_flight::codec::DecodeError::InvalidText { parameter: "ID" },
        ),
        (
            45,
            0,
            DecodeError::UnterminatedString { parameter: "LABEL" },
            xtce_flight::codec::DecodeError::UnterminatedString { parameter: "LABEL" },
        ),
        (
            50,
            9,
            DecodeError::BadStringLength { parameter: "NOTE" },
            xtce_flight::codec::DecodeError::BadStringLength { parameter: "NOTE" },
        ),
        (
            50,
            56,
            DecodeError::BadStringLength { parameter: "NOTE" },
            xtce_flight::codec::DecodeError::BadStringLength { parameter: "NOTE" },
        ),
    ];
    for (at, byte, theirs, ours) in damage {
        let mut bad = good.clone();
        bad[at] = byte;
        assert_eq!(Probe::decode(&bad), Err(theirs));
        assert_eq!(read(container, &layout.enums, &bad), Err(ours));
    }
    assert_eq!(Probe::decode(&good[..84]), Err(DecodeError::TooShort { needed: 85 }));
    assert_eq!(
        read(container, &layout.enums, &good[..84]),
        Err(xtce_flight::codec::DecodeError::TooShort { needed: 85 })
    );
    let mut stranger = good.clone();
    stranger[0] = 3;
    assert_eq!(decode(&stranger), Err(DecodeError::Unrecognized));
    assert_eq!(dispatch(&layout, &stranger), Err(xtce_flight::codec::DecodeError::Unrecognized));
}

#[test]
fn the_generated_helpers_do_what_the_library_does() {
    assert!(ends_early(b"a\0", b"\0\0") && ends_early(b"a;;b", b";;") && ends_early(b"ab", b"abab"));
    assert!(!ends_early(b"", b";") && !ends_early(b"ab\r", b"\r\n") && !ends_early(b"abc", b";;"));
    for bits in [0, 1, 0x32FF_FFFF, 0x3300_0000, 0x3300_0001, 0x3340_0000, 0x337F_FFFF, 0x3380_0000]
    {
        let half = xtce_flight::half::f32_bits_to_half(bits);
        assert_eq!(f32_to_half(f32::from_bits(bits)), half, "{bits:x}");
    }
    assert_eq!(f32_to_half(f32::from_bits(0x3340_0000)), 0x0001);
}

/// Whether punctuation stands together only where it is one operator.
fn is_spaced(tokens: proc_macro2::TokenStream) -> bool {
    let operators = [
        "&&", "&=", "^=", "/=", "..", "..=", "==", ">=", "<=", "|=", "||", "!=", "<<", ">>", "->",
        "=>", "::", "+=", "-=", "*=", "%=", "<<=", ">>=", "...",
    ];
    let mut run = String::new();
    for token in tokens {
        match token {
            proc_macro2::TokenTree::Punct(punct) if punct.as_char() != '\'' => {
                run.push(punct.as_char());
                if punct.spacing() == proc_macro2::Spacing::Alone {
                    if run.len() > 1 && !operators.contains(&run.as_str()) {
                        return false;
                    }
                    run.clear();
                }
            }
            proc_macro2::TokenTree::Group(group) => {
                if !run.is_empty() || !is_spaced(group.stream()) {
                    return false;
                }
            }
            _ => {
                if !run.is_empty() {
                    return false;
                }
            }
        }
    }
    run.is_empty()
}

#[test]
fn operators_are_spaced() {
    let missions = xtce_flight::missions::flight_shapes::flight_shapes_layout();
    for layout in [layout(), missions] {
        let source = xtce_flight::emit::unformatted(&layout);
        assert!(is_spaced(source.parse().expect("tokens")), "{source}");
        for path in ["super::flight", "a :: < u8 >", "& r#mod"] {
            let source = xtce_flight::harness::unformatted(&layout, path);
            assert!(is_spaced(source.parse().expect("tokens")), "{source}");
        }
    }
    assert!(!is_spaced("a<&b".parse().expect("tokens")));
}

#[test]
fn a_short_container_keeps_its_bits_at_the_top() {
    let layout = layout();
    let mut ours = [0u8; 3];
    let mut theirs = [0u8; 3];
    let packet = PingPacket { seq: 11 };
    assert_eq!(packet.encode(&mut theirs), Ok(2));
    assert_eq!(
        write_packet(&layout.containers[1], &layout.enums, &[Value::Unsigned(11)], &mut ours),
        Ok(2)
    );
    assert_eq!(ours, [2, 0xB0, 0]);
    assert_eq!(theirs, ours);
    assert_eq!(decode(&theirs), Ok(Packet::PingPacket(packet)));
    assert_eq!(Probe::LEN + PingPacket::LEN, 87);
    assert_eq!(Mode::LowPower.label(), "LOW-POWER");
}

#[test]
fn the_generated_code_chooses_the_calibrator_the_library_chooses() {
    let layout = layout();
    let container = &layout.containers[0];
    let field = &container.fields[19];
    assert_eq!(field.ident, "chosen");
    let mut rng = Rng::new(99);
    let mut seen = [0usize; 3];
    for _ in 0..2000 {
        let packet = Probe { ones: 5, ..probe(&mut rng) };
        let raw = f64::from(packet.chosen);
        let choice = xtce_flight::calibration::choose_context(
            field,
            container,
            &layout.enums,
            &values(&packet),
        );
        let expected = match choice {
            Some(0) => 2.0 * raw * raw * raw,
            Some(_) => (6.0 - 5.0) / (40.0 - 20.0) * (raw - 20.0) + 5.0,
            None => -1.5 + 0.25 * raw,
        };
        seen[choice.map_or(2, |at| at)] += 1;
        assert_eq!(packet.chosen_calibrated(), Ok(expected));
    }
    assert!(seen.iter().all(|count| *count > 100), "{seen:?}");
}

#[test]
fn a_spline_answers_between_its_points_and_where_it_may_beyond() {
    let base = Probe { ones: 5, ..probe(&mut Rng::new(3)) };
    let at = |raw: i16| Probe { le_s16: raw, ..base }.le_s16_calibrated();
    assert_eq!(at(9), Err(DecodeError::Calibration { parameter: "LE_S16" }));
    assert_eq!(at(10), Ok(0.0));
    assert_eq!(at(15), Ok(2.5));
    assert_eq!(at(30), Ok(5.5));
    assert_eq!(at(40), Ok(6.0));
    assert_eq!(at(41), Err(DecodeError::Calibration { parameter: "LE_S16" }));
    let step = |raw: u16| Probe { step: raw, ..base }.step_calibrated();
    assert_eq!(step(0), Ok(0.0));
    assert_eq!(step(19), Ok(0.0));
    assert_eq!(step(20), Ok(5.0));
    assert_eq!(step(500), Ok(6.0));
    let gain = Probe { gain: -1.5, ..base }.gain_calibrated();
    assert_eq!(gain, Ok(-6.75));
}

/// A text without its white space.
fn packed(text: &str) -> String {
    text.chars().filter(|character| !character.is_whitespace()).collect()
}

#[test]
fn the_harness_is_the_code_below() {
    let source = xtce_flight::harness::generate(&layout(), "self");
    assert_eq!(packed(&code_of(&source)), packed(HARNESS));
    // A path that is no Rust falls back to the usual one.
    let fallback = xtce_flight::harness::generate(&layout(), "a ) b");
    assert!(fallback.contains("super::flight::Probe"));
}

#[test]
fn the_harness_draws_packets_the_library_reads_back() {
    let layout = layout();
    for round in 0..500 {
        for (index, case) in cases(round).into_iter().enumerate() {
            let container = &layout.containers[index];
            assert_eq!(case.container, container.xtce_name);
            let (chosen, values) = dispatch(&layout, &case.bytes).expect("recognised");
            assert_eq!(chosen, index);
            let named = |name: &str| {
                let at = container.fields.iter().position(|field| field.xtce_name == name);
                values[at.expect("a field")]
            };
            for (name, expected) in &case.expected {
                let same = match (expected, named(name)) {
                    (Expected::Unsigned(a), Value::Unsigned(b)) => *a == b,
                    (Expected::Signed(a), Value::Signed(b)) => *a == b,
                    (Expected::Float(a), Value::Single(b)) => {
                        a.to_bits() == f64::from(f32::from_bits(b)).to_bits()
                    }
                    (Expected::Float(a), Value::Double(b)) => a.to_bits() == b,
                    (Expected::Bool(a), Value::Bool(b)) => *a == b,
                    (Expected::Label(a), Value::Enumerated(b)) => {
                        *a == layout.enums[0].variants[b].2
                    }
                    (Expected::Text(a), Value::Text(b)) => a == b,
                    (Expected::Bytes(a), Value::Binary(b)) => a == b,
                    _ => false,
                };
                assert!(same, "round {round}: {name}");
            }
            let written = case.expected.len() + case.calibrated.len();
            assert_eq!(written, container.fields.len());
            for ((name, value, mask), constant) in case.criteria.iter().zip(&container.constants) {
                assert_eq!(*name, constant.xtce_name);
                assert_eq!(*value, constant.reported);
                assert_eq!(*mask, if constant.bit_width == 8 { 0xFF } else { 0xFFFF });
            }
        }
    }
}

// -----------------------------------------------------------------------------------------
// The module, as code
// -----------------------------------------------------------------------------------------

const TERMINATOR: &[u8] = &[13, 10];
const POINTS: &[(f64, f64)] = &[(10.0, 0.0), (20.0, 5.0), (40.0, 6.0)];
#[derive(Clone, Copy, PartialEq, Eq, Debug)]
pub enum Mode {
    Safe,
    LowPower,
    C9600,
}
impl Mode {
    pub const fn raw(self) -> u64 {
        match self {
            Self::Safe => 0,
            Self::LowPower => 1,
            Self::C9600 => 5,
        }
    }
    pub const fn from_raw(raw: u64) -> Option<Self> {
        match raw {
            0 => Some(Self::Safe),
            1 => Some(Self::LowPower),
            5 => Some(Self::C9600),
            _ => None,
        }
    }
    pub const fn label(self) -> &'static str {
        match self {
            Self::Safe => "SAFE",
            Self::LowPower => "LOW-POWER",
            Self::C9600 => "9600",
        }
    }
}
#[derive(Clone, Copy, PartialEq, Debug)]
pub struct Probe<'a> {
    pub flag: bool,
    pub mode: Mode,
    pub twos: i16,
    pub ones: i16,
    pub signmag: i16,
    pub odd: u64,
    pub s64: i64,
    pub half: f32,
    pub double: f64,
    pub pad: u8,
    pub id: &'a str,
    pub label: &'a str,
    pub note: &'a str,
    pub blob: &'a [u8],
    pub le24: u32,
    pub le_single: f32,
    pub le_s16: i16,
    pub gain: f32,
    pub step: u16,
    pub chosen: u8,
}
impl<'a> Probe<'a> {
    pub const LEN: usize = 85;
    pub fn encode(&self, out: &mut [u8]) -> Result<usize, EncodeError> {
        let out: &mut [u8; 85] = match out.get_mut(..85) {
            Some(slice) => {
                match <&mut [u8; 85]>::try_from(slice) {
                    Ok(array) => array,
                    Err(_) => {
                        return Err(EncodeError::TooShort {
                            needed: 85,
                        });
                    }
                }
            }
            None => {
                return Err(EncodeError::TooShort {
                    needed: 85,
                });
            }
        };
        *out = [0u8; 85];
        {
            let criterion_kind: u64 = 1;
            out[0] = criterion_kind as u8;
        }
        {
            let criterion_sel: u64 = 258;
            {
                let bytes = (criterion_sel as u16).to_be_bytes();
                out[1] = bytes[0];
                out[2] = bytes[1];
            }
        }
        {
            let fixed_sync: u64 = 6863;
            {
                let bytes = (fixed_sync as u16).to_be_bytes();
                out[3] = bytes[0];
                out[4] = bytes[1];
            }
        }
        {
            let fixed_value_1: u64 = 10;
            out[5] |= fixed_value_1 as u8;
        }
        out[76] = 1;
        out[77] = 2;
        out[78] = 3;
        out[79] = 4;
        out[80] = 5;
        out[81] = 6;
        out[82] = 7;
        out[83] = 8;
        out[84] = 9;
        {
            let flag_bits: u64 = if self.flag { 1 } else { 0 };
            out[5] |= (flag_bits as u8) << 7;
        }
        {
            let mode_bits: u64 = self.mode.raw();
            out[5] |= (mode_bits as u8) << 4;
        }
        {
            if (self.twos as i64) < -4096 || (self.twos as i64) > 4095 {
                return Err(EncodeError::OutOfRange {
                    parameter: "TWOS",
                });
            }
            let twos_bits: u64 = self.twos as i64 as u64 & 8191;
            {
                let bytes = (u16::from_be_bytes([out[6], out[7]])
                    | (twos_bits as u16) << 3)
                    .to_be_bytes();
                out[6] = bytes[0];
                out[7] = bytes[1];
            }
        }
        {
            if (self.ones as i64).unsigned_abs() > 32767 {
                return Err(EncodeError::OutOfRange {
                    parameter: "ONES",
                });
            }
            let ones_bits: u64 = if self.ones < 0 {
                65535 ^ (self.ones as i64).unsigned_abs()
            } else {
                self.ones as u64
            };
            {
                let bytes = (u32::from_be_bytes([0, out[7], out[8], out[9]])
                    | (ones_bits as u32) << 3)
                    .to_be_bytes();
                out[7] = bytes[1];
                out[8] = bytes[2];
                out[9] = bytes[3];
            }
        }
        {
            if (self.signmag as i64).unsigned_abs() > 2047 {
                return Err(EncodeError::OutOfRange {
                    parameter: "SIGNMAG",
                });
            }
            let signmag_bits: u64 = if self.signmag < 0 {
                2048 | (self.signmag as i64).unsigned_abs()
            } else {
                self.signmag as u64
            };
            {
                let bytes = (u32::from_be_bytes([0, out[9], out[10], out[11]])
                    | (signmag_bits as u32) << 7)
                    .to_be_bytes();
                out[9] = bytes[1];
                out[10] = bytes[2];
                out[11] = bytes[3];
            }
        }
        {
            if self.odd as u64 > 144115188075855871 {
                return Err(EncodeError::OutOfRange {
                    parameter: "ODD",
                });
            }
            let odd_bits: u64 = self.odd as u64 & 144115188075855871;
            {
                let bytes = (u64::from_be_bytes([
                    out[11],
                    out[12],
                    out[13],
                    out[14],
                    out[15],
                    out[16],
                    out[17],
                    out[18],
                ]) | (odd_bits as u64) << 6)
                    .to_be_bytes();
                out[11] = bytes[0];
                out[12] = bytes[1];
                out[13] = bytes[2];
                out[14] = bytes[3];
                out[15] = bytes[4];
                out[16] = bytes[5];
                out[17] = bytes[6];
                out[18] = bytes[7];
            }
        }
        {
            let s64_bits: u64 = self.s64 as i64 as u64 & 18446744073709551615;
            {
                let bytes = (u128::from_be_bytes([
                    0,
                    0,
                    0,
                    0,
                    0,
                    0,
                    0,
                    out[18],
                    out[19],
                    out[20],
                    out[21],
                    out[22],
                    out[23],
                    out[24],
                    out[25],
                    out[26],
                ]) | (s64_bits as u128) << 6)
                    .to_be_bytes();
                out[18] = bytes[7];
                out[19] = bytes[8];
                out[20] = bytes[9];
                out[21] = bytes[10];
                out[22] = bytes[11];
                out[23] = bytes[12];
                out[24] = bytes[13];
                out[25] = bytes[14];
                out[26] = bytes[15];
            }
        }
        {
            let half_bits: u64 = f32_to_half(self.half) as u64;
            {
                let bytes = (u32::from_be_bytes([0, out[26], out[27], out[28]])
                    | (half_bits as u32) << 6)
                    .to_be_bytes();
                out[26] = bytes[1];
                out[27] = bytes[2];
                out[28] = bytes[3];
            }
        }
        {
            let double_bits: u64 = self.double.to_bits();
            {
                let bytes = (u128::from_be_bytes([
                    0,
                    0,
                    0,
                    0,
                    0,
                    0,
                    0,
                    out[28],
                    out[29],
                    out[30],
                    out[31],
                    out[32],
                    out[33],
                    out[34],
                    out[35],
                    out[36],
                ]) | (double_bits as u128) << 6)
                    .to_be_bytes();
                out[28] = bytes[7];
                out[29] = bytes[8];
                out[30] = bytes[9];
                out[31] = bytes[10];
                out[32] = bytes[11];
                out[33] = bytes[12];
                out[34] = bytes[13];
                out[35] = bytes[14];
                out[36] = bytes[15];
            }
        }
        {
            if self.pad as u64 > 63 {
                return Err(EncodeError::OutOfRange {
                    parameter: "PAD",
                });
            }
            let pad_bits: u64 = self.pad as u64 & 63;
            out[36] |= pad_bits as u8;
        }
        {
            if !self.id.is_ascii() {
                return Err(EncodeError::InvalidText {
                    parameter: "ID",
                });
            }
            let bytes = self.id.as_bytes();
            if bytes.len() != 4 {
                return Err(EncodeError::TextLength {
                    parameter: "ID",
                });
            }
            for (slot, byte) in out[37..41].iter_mut().zip(bytes) {
                *slot = *byte;
            }
        }
        {
            let bytes = self.label.as_bytes();
            if bytes.len() > 6 {
                return Err(EncodeError::TextLength {
                    parameter: "LABEL",
                });
            }
            if ends_early(bytes, TERMINATOR) {
                return Err(EncodeError::EmbeddedTerminator {
                    parameter: "LABEL",
                });
            }
            for (slot, byte) in out[41..49].iter_mut().zip(bytes) {
                *slot = *byte;
            }
            let at = 41 + bytes.len();
            match out.get_mut(at..at + 2) {
                Some(slot) => {
                    slot[0] = TERMINATOR[0];
                    slot[1] = TERMINATOR[1];
                }
                None => {
                    return Err(EncodeError::TextLength {
                        parameter: "LABEL",
                    });
                }
            }
        }
        {
            let bytes = self.note.as_bytes();
            if bytes.len() > 6 {
                return Err(EncodeError::TextLength {
                    parameter: "NOTE",
                });
            }
            let length_bits = bytes.len() as u64 * 8;
            if length_bits > 65535 {
                return Err(EncodeError::TextLength {
                    parameter: "NOTE",
                });
            }
            {
                let bytes = (length_bits as u16).to_be_bytes();
                out[49] = bytes[0];
                out[50] = bytes[1];
            }
            for (slot, byte) in out[51..57].iter_mut().zip(bytes) {
                *slot = *byte;
            }
        }
        {
            let bytes: &[u8] = self.blob;
            if bytes.len() != 3 {
                return Err(EncodeError::BinaryLength {
                    parameter: "BLOB",
                });
            }
            for (slot, byte) in out[57..60].iter_mut().zip(bytes) {
                *slot = *byte;
            }
        }
        {
            if self.le24 as u64 > 16777215 {
                return Err(EncodeError::OutOfRange {
                    parameter: "LE24",
                });
            }
            let le24_bits: u64 = (((self.le24 as u64 & 16777215) as u32).swap_bytes()
                >> 8) as u64;
            {
                let bytes = (le24_bits as u32).to_be_bytes();
                out[60] = bytes[1];
                out[61] = bytes[2];
                out[62] = bytes[3];
            }
        }
        {
            let le_single_bits: u64 = ((self.le_single.to_bits() as u64) as u32)
                .swap_bytes() as u64;
            {
                let bytes = (le_single_bits as u32).to_be_bytes();
                out[63] = bytes[0];
                out[64] = bytes[1];
                out[65] = bytes[2];
                out[66] = bytes[3];
            }
        }
        {
            let le_s16_bits: u64 = ((self.le_s16 as i64 as u64 & 65535) as u16)
                .swap_bytes() as u64;
            {
                let bytes = (le_s16_bits as u16).to_be_bytes();
                out[67] = bytes[0];
                out[68] = bytes[1];
            }
        }
        {
            let gain_bits: u64 = self.gain.to_bits() as u64;
            {
                let bytes = (gain_bits as u32).to_be_bytes();
                out[69] = bytes[0];
                out[70] = bytes[1];
                out[71] = bytes[2];
                out[72] = bytes[3];
            }
        }
        {
            let step_bits: u64 = self.step as u64 & 65535;
            {
                let bytes = (step_bits as u16).to_be_bytes();
                out[73] = bytes[0];
                out[74] = bytes[1];
            }
        }
        {
            let chosen_bits: u64 = self.chosen as u64 & 255;
            out[75] = chosen_bits as u8;
        }
        Ok(85)
    }
    pub fn decode(data: &'a [u8]) -> Result<Self, DecodeError> {
        let data: &[u8; 85] = match data.get(..85) {
            Some(slice) => {
                match <&[u8; 85]>::try_from(slice) {
                    Ok(array) => array,
                    Err(_) => {
                        return Err(DecodeError::TooShort {
                            needed: 85,
                        });
                    }
                }
            }
            None => {
                return Err(DecodeError::TooShort {
                    needed: 85,
                });
            }
        };
        let flag = (((data[5] as u64) >> 7) & 1) != 0;
        let mode = match Mode::from_raw(((data[5] as u64) >> 4) & 7) {
            Some(value) => value,
            None => {
                return Err(DecodeError::UnknownLabel {
                    parameter: "MODE",
                });
            }
        };
        let twos = ((((((u16::from_be_bytes([data[6], data[7]]) as u64) >> 3) & 8191)
            << 51) as i64) >> 51) as i16;
        let ones = {
            let raw = ((u32::from_be_bytes([0, data[7], data[8], data[9]]) as u64) >> 3)
                & 65535;
            if raw & 32768 == 0 { raw as i64 } else { -(((!raw) & 65535) as i64) }
        } as i16;
        let signmag = {
            let raw = ((u32::from_be_bytes([0, data[9], data[10], data[11]]) as u64)
                >> 7) & 4095;
            let magnitude = (raw & 2047) as i64;
            if raw & 2048 == 0 { magnitude } else { -magnitude }
        } as i16;
        let odd = (((u64::from_be_bytes([
            data[11],
            data[12],
            data[13],
            data[14],
            data[15],
            data[16],
            data[17],
            data[18],
        ]) as u64) >> 6) & 144115188075855871) as u64;
        let s64 = ((((((u128::from_be_bytes([
            0,
            0,
            0,
            0,
            0,
            0,
            0,
            data[18],
            data[19],
            data[20],
            data[21],
            data[22],
            data[23],
            data[24],
            data[25],
            data[26],
        ]) >> 6) as u64) & 18446744073709551615) << 0) as i64) >> 0) as i64;
        let half = half_to_f32(
            (((u32::from_be_bytes([0, data[26], data[27], data[28]]) as u64) >> 6)
                & 65535) as u16,
        );
        let double = f64::from_bits(
            ((u128::from_be_bytes([
                0,
                0,
                0,
                0,
                0,
                0,
                0,
                data[28],
                data[29],
                data[30],
                data[31],
                data[32],
                data[33],
                data[34],
                data[35],
                data[36],
            ]) >> 6) as u64) & 18446744073709551615,
        );
        let pad = (data[36] as u64 & 63) as u8;
        let id = {
            let text = &data[37..41];
            if !text.is_ascii() {
                return Err(DecodeError::InvalidText {
                    parameter: "ID",
                });
            }
            match core::str::from_utf8(text) {
                Ok(text) => text,
                Err(_) => {
                    return Err(DecodeError::InvalidText {
                        parameter: "ID",
                    });
                }
            }
        };
        let label = {
            let text = {
                let buffer = &data[41..49];
                match find(buffer, TERMINATOR) {
                    Some(end) => {
                        match buffer.get(..end) {
                            Some(text) => text,
                            None => {
                                return Err(DecodeError::UnterminatedString {
                                    parameter: "LABEL",
                                });
                            }
                        }
                    }
                    None => {
                        return Err(DecodeError::UnterminatedString {
                            parameter: "LABEL",
                        });
                    }
                }
            };
            match core::str::from_utf8(text) {
                Ok(text) => text,
                Err(_) => {
                    return Err(DecodeError::InvalidText {
                        parameter: "LABEL",
                    });
                }
            }
        };
        let note = {
            let text = {
                let buffer = &data[49..57];
                let length_bits = u16::from_be_bytes([data[49], data[50]]) as u64
                    & 65535;
                if length_bits % 8 != 0 {
                    return Err(DecodeError::BadStringLength {
                        parameter: "NOTE",
                    });
                }
                let length = (length_bits / 8) as usize;
                match buffer.get(2..2 + length) {
                    Some(text) => text,
                    None => {
                        return Err(DecodeError::BadStringLength {
                            parameter: "NOTE",
                        });
                    }
                }
            };
            match core::str::from_utf8(text) {
                Ok(text) => text,
                Err(_) => {
                    return Err(DecodeError::InvalidText {
                        parameter: "NOTE",
                    });
                }
            }
        };
        let blob = &data[57..60];
        let le24 = ((((u32::from_be_bytes([0, data[60], data[61], data[62]]) as u64
            & 16777215) as u32)
            .swap_bytes() >> 8) as u64) as u32;
        let le_single = f32::from_bits(
            (((u32::from_be_bytes([data[63], data[64], data[65], data[66]]) as u64
                & 4294967295) as u32)
                .swap_bytes() as u64) as u32,
        );
        let le_s16 = ((((((u16::from_be_bytes([data[67], data[68]]) as u64 & 65535)
            as u16)
            .swap_bytes() as u64) << 48) as i64) >> 48) as i16;
        let gain = f32::from_bits(
            (u32::from_be_bytes([data[69], data[70], data[71], data[72]]) as u64
                & 4294967295) as u32,
        );
        let step = (u16::from_be_bytes([data[73], data[74]]) as u64 & 65535) as u16;
        let chosen = (data[75] as u64 & 255) as u8;
        Ok(Self {
            flag,
            mode,
            twos,
            ones,
            signmag,
            odd,
            s64,
            half,
            double,
            pad,
            id,
            label,
            note,
            blob,
            le24,
            le_single,
            le_s16,
            gain,
            step,
            chosen,
        })
    }
    pub fn matches(data: &[u8]) -> bool {
        let data: &[u8; 85] = match data.get(..85) {
            Some(slice) => {
                match <&[u8; 85]>::try_from(slice) {
                    Ok(array) => array,
                    Err(_) => return false,
                }
            }
            None => return false,
        };
        let _ = data;
        if (data[0] as u64 & 255) != 1 {
            return false;
        }
        if (u16::from_be_bytes([data[1], data[2]]) as u64 & 65535) != 258 {
            return false;
        }
        true
    }
    pub fn le_s16_calibrated(&self) -> Result<f64, DecodeError> {
        match spline_value(POINTS, 1, false, i128::from(self.le_s16) as f64) {
            Some(value) => Ok(value),
            None => {
                Err(DecodeError::Calibration {
                    parameter: "LE_S16",
                })
            }
        }
    }
    pub fn gain_calibrated(&self) -> Result<f64, DecodeError> {
        let base = f64::from(self.gain);
        let mut sum = 0.0f64;
        sum += 2.0 * powi(base, 3);
        Ok(sum)
    }
    pub fn step_calibrated(&self) -> Result<f64, DecodeError> {
        match spline_value(POINTS, 0, true, i128::from(self.step) as f64) {
            Some(value) => Ok(value),
            None => {
                Err(DecodeError::Calibration {
                    parameter: "STEP",
                })
            }
        }
    }
    pub fn chosen_calibrated(&self) -> Result<f64, DecodeError> {
        if i128::from(self.flag) == 1
            && (matches!(i128::from(self.mode.raw()), 1..= 3 | 5)
                || i128::from(self.twos) < -7)
        {
            let base = i128::from(self.chosen);
            let mut sum = 0.0f64;
            sum += 2.0 * integer_power(base, 3);
            Ok(sum)
        } else if i128::from(self.chosen) >= 200 {
            match spline_value(POINTS, 1, true, i128::from(self.chosen) as f64) {
                Some(value) => Ok(value),
                None => {
                    Err(DecodeError::Calibration {
                        parameter: "CHOSEN",
                    })
                }
            }
        } else {
            let base = i128::from(self.chosen);
            let mut sum = 0.0f64;
            sum += -1.5 * integer_power(base, 0);
            sum += 0.25 * integer_power(base, 1);
            Ok(sum)
        }
    }
}
#[derive(Clone, Copy, PartialEq, Debug)]
pub struct PingPacket {
    pub seq: u8,
}
impl PingPacket {
    pub const LEN: usize = 2;
    pub fn encode(&self, out: &mut [u8]) -> Result<usize, EncodeError> {
        let out: &mut [u8; 2] = match out.get_mut(..2) {
            Some(slice) => {
                match <&mut [u8; 2]>::try_from(slice) {
                    Ok(array) => array,
                    Err(_) => return Err(EncodeError::TooShort { needed: 2 }),
                }
            }
            None => return Err(EncodeError::TooShort { needed: 2 }),
        };
        *out = [0u8; 2];
        {
            let criterion_kind: u64 = 2;
            out[0] = criterion_kind as u8;
        }
        {
            if self.seq as u64 > 15 {
                return Err(EncodeError::OutOfRange {
                    parameter: "SEQ",
                });
            }
            let seq_bits: u64 = self.seq as u64 & 15;
            out[1] |= (seq_bits as u8) << 4;
        }
        Ok(2)
    }
    pub fn decode(data: &[u8]) -> Result<Self, DecodeError> {
        let data: &[u8; 2] = match data.get(..2) {
            Some(slice) => {
                match <&[u8; 2]>::try_from(slice) {
                    Ok(array) => array,
                    Err(_) => return Err(DecodeError::TooShort { needed: 2 }),
                }
            }
            None => return Err(DecodeError::TooShort { needed: 2 }),
        };
        let seq = (((data[1] as u64) >> 4) & 15) as u8;
        Ok(Self { seq })
    }
    pub fn matches(data: &[u8]) -> bool {
        let data: &[u8; 2] = match data.get(..2) {
            Some(slice) => {
                match <&[u8; 2]>::try_from(slice) {
                    Ok(array) => array,
                    Err(_) => return false,
                }
            }
            None => return false,
        };
        let _ = data;
        if (data[0] as u64 & 255) != 2 {
            return false;
        }
        true
    }
}
#[derive(Clone, Copy)]
enum Selected {
    Probe,
    PingPacket,
}
#[derive(Clone, Copy, PartialEq, Debug)]
pub enum Packet<'a> {
    Probe(Probe<'a>),
    PingPacket(PingPacket),
}
pub fn decode<'a>(data: &'a [u8]) -> Result<Packet<'a>, DecodeError> {
    let mut matched = 0usize;
    let mut selected = None;
    if Probe::matches(data) {
        matched += 1;
        selected = Some(Selected::Probe);
    }
    if PingPacket::matches(data) {
        matched += 1;
        selected = Some(Selected::PingPacket);
    }
    if matched > 1 {
        return Err(DecodeError::Ambiguous);
    }
    match selected {
        Some(selected) => {
            match selected {
                Selected::Probe => Ok(Packet::Probe(Probe::decode(data)?)),
                Selected::PingPacket => Ok(Packet::PingPacket(PingPacket::decode(data)?)),
            }
        }
        None => Err(DecodeError::Unrecognized),
    }
}
#[derive(Clone, Copy, PartialEq, Eq, Debug)]
pub enum EncodeError {
    TooShort {
        needed: usize,
    },
    OutOfRange {
        parameter: &'static str,
    },
    TextLength {
        parameter: &'static str,
    },
    EmbeddedTerminator {
        parameter: &'static str,
    },
    InvalidText {
        parameter: &'static str,
    },
    BinaryLength {
        parameter: &'static str,
    },
}
#[derive(Clone, Copy, PartialEq, Eq, Debug)]
pub enum DecodeError {
    TooShort {
        needed: usize,
    },
    Unrecognized,
    Ambiguous,
    InvalidText {
        parameter: &'static str,
    },
    UnterminatedString {
        parameter: &'static str,
    },
    BadStringLength {
        parameter: &'static str,
    },
    UnknownLabel {
        parameter: &'static str,
    },
    Calibration {
        parameter: &'static str,
    },
}
pub fn half_to_f32(bits: u16) -> f32 {
    let sign = u32::from(bits & 0x8000) << 16;
    let exponent = u32::from((bits >> 10) & 0x1F);
    let fraction = u32::from(bits & 0x03FF);
    match exponent {
        0 if fraction == 0 => f32::from_bits(sign),
        0 => {
            let shift = fraction.leading_zeros() - 21;
            let fraction = (fraction << shift) & 0x03FF;
            let exponent = 113 - shift;
            f32::from_bits(sign | (exponent << 23) | (fraction << 13))
        }
        0x1F => f32::from_bits(sign | 0x7F80_0000 | (fraction << 13)),
        _ => f32::from_bits(sign | ((exponent + 127 - 15) << 23) | (fraction << 13)),
    }
}
pub fn f32_to_half(value: f32) -> u16 {
    let bits = value.to_bits();
    let sign = ((bits >> 16) & 0x8000) as u16;
    let exponent = ((bits >> 23) & 0xFF) as i32;
    let fraction = bits & 0x007F_FFFF;
    if exponent == 0xFF {
        let payload = if fraction == 0 { 0 } else { ((fraction >> 13) as u16) | 0x0200 };
        return sign | 0x7C00 | payload;
    }
    let unbiased = exponent - 127;
    if unbiased > 15 {
        return sign | 0x7C00;
    }
    if unbiased < -25 {
        return sign;
    }
    if unbiased < -14 {
        let shift = (-14 - unbiased) as u32;
        let significand = fraction | 0x0080_0000;
        let total = 13 + shift;
        let truncated = significand >> total;
        let remainder = significand & ((1u32 << total) - 1);
        let halfway = 1u32 << (total - 1);
        let round = u32::from(
            remainder > halfway || (remainder == halfway && truncated & 1 == 1),
        );
        return sign | ((truncated + round) as u16);
    }
    let truncated = (((unbiased + 15) as u32) << 10) | (fraction >> 13);
    let remainder = fraction & 0x1FFF;
    let round = u32::from(
        remainder > 0x1000 || (remainder == 0x1000 && truncated & 1 == 1),
    );
    sign | ((truncated + round) as u16)
}
fn find(haystack: &[u8], needle: &[u8]) -> Option<usize> {
    if needle.is_empty() || haystack.len() < needle.len() {
        return None;
    }
    let mut at = 0usize;
    while at + needle.len() <= haystack.len() {
        match haystack.get(at..at + needle.len()) {
            Some(window) if window == needle => return Some(at),
            _ => {}
        }
        at += 1;
    }
    None
}
fn ends_early(text: &[u8], terminator: &[u8]) -> bool {
    (0..text.len())
        .any(|at| {
            text.iter()
                .skip(at)
                .chain(terminator)
                .zip(terminator)
                .all(|(found, wanted)| found == wanted)
        })
}
fn powi(x: f64, exponent: i32) -> f64 {
    let mut remaining = exponent.unsigned_abs();
    let mut result = 1.0f64;
    let mut base = x;
    let mut started = false;
    while remaining > 0 {
        if remaining & 1 == 1 {
            result = if started { result * base } else { base };
            started = true;
        }
        remaining >>= 1;
        if remaining > 0 {
            base = base * base;
        }
    }
    let value = if started { result } else { 1.0 };
    if exponent < 0 { 1.0 / value } else { value }
}
fn integer_power(base: i128, exponent: i32) -> f64 {
    if exponent < 0 {
        return powi(base as f64, exponent);
    }
    match u32::try_from(exponent).ok().and_then(|exponent| base.checked_pow(exponent)) {
        Some(exact) => exact as f64,
        None => powi(base as f64, exponent),
    }
}
fn spline_line(x: f64, x0: f64, x1: f64, y0: f64, y1: f64) -> f64 {
    if (x1 - x0) == 0.0 {
        return y0;
    }
    let slope = (y1 - y0) / (x1 - x0);
    slope * (x - x0) + y0
}
fn spline_value(
    points: &[(f64, f64)],
    order: u8,
    extrapolate: bool,
    query: f64,
) -> Option<f64> {
    let first = *points.first()?;
    let last = *points.last()?;
    if query < first.0 {
        if !extrapolate {
            return None;
        }
        return Some(
            match order {
                0 => first.1,
                _ => {
                    match points.get(1) {
                        Some(second) => {
                            spline_line(query, first.0, second.0, first.1, second.1)
                        }
                        None => first.1,
                    }
                }
            },
        );
    }
    if query > last.0 {
        if !extrapolate {
            return None;
        }
        return Some(
            match order {
                0 => last.1,
                _ => {
                    match points.len().checked_sub(2).and_then(|at| points.get(at)) {
                        Some(previous) => {
                            spline_line(query, previous.0, last.0, previous.1, last.1)
                        }
                        None => last.1,
                    }
                }
            },
        );
    }
    let hi = points.partition_point(|point| point.0 <= query).max(1);
    Some(
        match order {
            0 => points.get(hi.saturating_sub(1)).map_or(first.1, |point| point.1),
            _ => {
                if points.len() < 2 {
                    return Some(first.1);
                }
                let upper = hi.min(points.len() - 1);
                match (points.get(upper.saturating_sub(1)), points.get(upper)) {
                    (Some(lower), Some(higher)) => {
                        spline_line(query, lower.0, higher.0, lower.1, higher.1)
                    }
                    _ => first.1,
                }
            }
        },
    )
}

// -----------------------------------------------------------------------------------------
// The harness, as code
// -----------------------------------------------------------------------------------------

#[derive(Clone, Debug)]
pub struct Case {
    pub container: &'static str,
    pub bytes: Vec<u8>,
    pub expected: Vec<(&'static str, Expected)>,
    pub criteria: Vec<(&'static str, u64, u64)>,
    pub calibrated: Vec<(&'static str, u64, Option<f64>)>,
}
#[derive(Clone, Debug, PartialEq)]
pub enum Expected {
    Unsigned(u64),
    Signed(i64),
    Float(f64),
    Bool(bool),
    Label(&'static str),
    Text(String),
    Bytes(Vec<u8>),
}
pub struct Rng(u64);
impl Rng {
    pub fn new(seed: u64) -> Self {
        Self(if seed == 0 { 0x2545_F491_4F6C_DD1D } else { seed })
    }
    pub fn next(&mut self) -> u64 {
        let mut state = self.0;
        state ^= state >> 12;
        state ^= state << 25;
        state ^= state >> 27;
        self.0 = state;
        state.wrapping_mul(0x2545_F491_4F6C_DD1D)
    }
    pub fn below(&mut self, limit: usize) -> usize {
        if limit == 0 { 0 } else { (self.next() % limit as u64) as usize }
    }
    pub fn bytes(&mut self, count: usize) -> Vec<u8> {
        (0..count).map(|_| (self.next() & 0xFF) as u8).collect()
    }
    pub fn finite_half(&mut self) -> u16 {
        let bits = (self.next() & 0xFFFF) as u16;
        if (bits >> 10) & 0x1F == 0x1F { bits & 0xF3FF } else { bits }
    }
    pub fn finite_f32_bits(&mut self) -> u32 {
        let bits = (self.next() & 0xFFFF_FFFF) as u32;
        if (bits >> 23) & 0xFF == 0xFF { bits & 0xFF7F_FFFF } else { bits }
    }
    pub fn finite_f64_bits(&mut self) -> u64 {
        let bits = self.next();
        if (bits >> 52) & 0x7FF == 0x7FF { bits & 0xFFEF_FFFF_FFFF_FFFF } else { bits }
    }
    pub fn text_of_exactly(
        &mut self,
        bytes: usize,
        utf8: bool,
        forbidden: &[u8],
    ) -> String {
        let mut out = String::new();
        let mut written = 0usize;
        while written < bytes {
            let wide = utf8 && bytes - written >= 2 && self.next() % 4 == 0;
            if wide {
                out.push(MULTIBYTE[self.below(MULTIBYTE.len())]);
                written += 2;
            } else {
                let candidate = PRINTABLE[self.below(PRINTABLE.len())];
                if forbidden.contains(&(candidate as u8)) {
                    continue;
                }
                out.push(candidate);
                written += 1;
            }
        }
        out
    }
    pub fn text_up_to(&mut self, bytes: usize, utf8: bool, forbidden: &[u8]) -> String {
        let length = self.below(bytes + 1);
        self.text_of_exactly(length, utf8, forbidden)
    }
}
const PRINTABLE: &[char] = &[
    'a', 'b', 'c', 'd', 'e', 'f', 'g', 'h', 'i', 'j', 'k', 'l', 'm', 'n', 'o', 'p', 'A',
    'B', 'C', 'D', 'E', 'F', 'G', 'H', 'I', 'J', 'K', 'L', 'M', 'N', 'O', 'P', '0', '1',
    '2', '3', '4', '5', '6', '7', '8', '9', ' ', '-', '_', '.', '/', '+',
];
const MULTIBYTE: &[char] = &['ą', 'ę', 'ó', 'ż', 'µ', '£', 'Ω', 'é'];
pub fn case_probe(seed: u64) -> Case {
    let mut rng = Rng::new(seed);
    let id: String = rng.text_of_exactly(4, false, &[]);
    let label: String = rng.text_up_to(6, true, &[13, 10]);
    let note: String = rng.text_up_to(6, true, &[]);
    let blob: Vec<u8> = rng.bytes(3);
    let flag = rng.next() & 1 == 1;
    let mode = match rng.below(3) {
        0 => self::Mode::Safe,
        1 => self::Mode::LowPower,
        2 => self::Mode::C9600,
        _ => unreachable!("below({}) is in range", 3),
    };
    let twos = ((((rng.next() & 8191) << 51) as i64) >> 51) as i16;
    let ones = {
        let magnitude = (rng.next() & 32767) as i64;
        (if rng.next() & 1 == 0 { magnitude } else { -magnitude }) as i16
    };
    let signmag = {
        let magnitude = (rng.next() & 2047) as i64;
        (if rng.next() & 1 == 0 { magnitude } else { -magnitude }) as i16
    };
    let odd = (rng.next() & 144115188075855871) as u64;
    let s64 = ((((rng.next() & 18446744073709551615) << 0) as i64) >> 0) as i64;
    let half = self::half_to_f32(rng.finite_half());
    let double = f64::from_bits(rng.finite_f64_bits());
    let pad = (rng.next() & 63) as u8;
    let le24 = (rng.next() & 16777215) as u32;
    let le_single = f32::from_bits(rng.finite_f32_bits());
    let le_s16 = ((((rng.next() & 65535) << 48) as i64) >> 48) as i16;
    let gain = f32::from_bits(rng.finite_f32_bits());
    let step = (rng.next() & 65535) as u16;
    let chosen = (rng.next() & 255) as u8;
    let packet = self::Probe {
        flag: flag,
        mode: mode,
        twos: twos,
        ones: ones,
        signmag: signmag,
        odd: odd,
        s64: s64,
        half: half,
        double: double,
        pad: pad,
        id: &id,
        label: &label,
        note: &note,
        blob: &blob,
        le24: le24,
        le_single: le_single,
        le_s16: le_s16,
        gain: gain,
        step: step,
        chosen: chosen,
    };
    let mut bytes = vec![0u8; 85];
    let written = packet
        .encode(&mut bytes)
        .unwrap_or_else(|error| panic!("{}: encode failed: {error:?}", "Probe"));
    assert_eq!(written, 85, "{}: encode wrote the wrong length", "Probe");
    let returned = self::Probe::decode(&bytes)
        .unwrap_or_else(|error| panic!("{}: decode failed: {error:?}", "Probe"));
    assert_eq!(returned, packet, "{}: does not survive its own round trip", "Probe");
    assert!(
        self::Probe::matches(& bytes),
        "{}: encoded packet does not satisfy its own criteria", "Probe"
    );
    Case {
        container: "Probe",
        bytes,
        expected: vec![
            ("FLAG", Expected::Bool(flag)), ("MODE", Expected::Label(mode.label())),
            ("TWOS", Expected::Signed(i64::from(twos))), ("ONES",
            Expected::Signed(i64::from(ones))), ("SIGNMAG",
            Expected::Signed(i64::from(signmag))), ("ODD",
            Expected::Unsigned(u64::from(odd))), ("S64",
            Expected::Signed(i64::from(s64))), ("HALF",
            Expected::Float(f64::from(half))), ("DOUBLE", Expected::Float(double)),
            ("PAD", Expected::Unsigned(u64::from(pad))), ("ID", Expected::Text(id
            .clone())), ("LABEL", Expected::Text(label.clone())), ("NOTE",
            Expected::Text(note.clone())), ("BLOB", Expected::Bytes(blob.clone())),
            ("LE24", Expected::Unsigned(u64::from(le24))), ("LE_SINGLE",
            Expected::Float(f64::from(le_single)))
        ],
        criteria: vec![("KIND", 1, 255), ("SEL", 513, 65535)],
        calibrated: vec![
            ("LE_S16", le_s16 as i64 as u64, packet.le_s16_calibrated().ok()), ("GAIN",
            f64::from(gain).to_bits(), packet.gain_calibrated().ok()), ("STEP",
            u64::from(step), packet.step_calibrated().ok()), ("CHOSEN",
            u64::from(chosen), packet.chosen_calibrated().ok())
        ],
    }
}
pub fn case_ping_packet(seed: u64) -> Case {
    let mut rng = Rng::new(seed);
    let seq = (rng.next() & 15) as u8;
    let packet = self::PingPacket { seq: seq };
    let mut bytes = vec![0u8; 2];
    let written = packet
        .encode(&mut bytes)
        .unwrap_or_else(|error| panic!("{}: encode failed: {error:?}", "PING_PACKET"));
    assert_eq!(written, 2, "{}: encode wrote the wrong length", "PING_PACKET");
    let returned = self::PingPacket::decode(&bytes)
        .unwrap_or_else(|error| panic!("{}: decode failed: {error:?}", "PING_PACKET"));
    assert_eq!(
        returned, packet, "{}: does not survive its own round trip", "PING_PACKET"
    );
    assert!(
        self::PingPacket::matches(& bytes),
        "{}: encoded packet does not satisfy its own criteria", "PING_PACKET"
    );
    Case {
        container: "PING_PACKET",
        bytes,
        expected: vec![("SEQ", Expected::Unsigned(u64::from(seq)))],
        criteria: vec![("KIND", 2, 255)],
        calibrated: vec![],
    }
}
pub fn cases(seed: u64) -> Vec<Case> {
    vec![
        case_probe(seed ^ 11400714819323198485), case_ping_packet(seed ^
        4354685564936845354)
    ]
}

// -----------------------------------------------------------------------------------------
// The module and the harness, as texts
// -----------------------------------------------------------------------------------------

const HEADER: &str = r##"// Flight encoder and decoder generated from `sampler.xml` by `xtce-flight`, rooted at `Base`.
//
// 2 container(s). Every bit offset, mask and length below was computed when this
// file was generated; nothing consults the XTCE definition at run time.
//
// The code is `no_std`: it names nothing outside `core`, allocates nothing, and
// contains no `unsafe`. `encode` and `decode` have no panicking branch.
"##;

const EXPECTED: &str = r##"#[derive(Clone, Copy, PartialEq, Eq, Debug)]
pub enum Mode {
    Safe,
    LowPower,
    C9600,
}
impl Mode {
    pub const fn raw(self) -> u64 {
        match self {
            Self::Safe => 0,
            Self::LowPower => 1,
            Self::C9600 => 5,
        }
    }
    pub const fn from_raw(raw: u64) -> Option<Self> {
        match raw {
            0 => Some(Self::Safe),
            1 => Some(Self::LowPower),
            5 => Some(Self::C9600),
            _ => None,
        }
    }
    pub const fn label(self) -> &'static str {
        match self {
            Self::Safe => "SAFE",
            Self::LowPower => "LOW-POWER",
            Self::C9600 => "9600",
        }
    }
}
#[derive(Clone, Copy, PartialEq, Debug)]
pub struct Probe<'a> {
    pub flag: bool,
    pub mode: Mode,
    pub twos: i16,
    pub ones: i16,
    pub signmag: i16,
    pub odd: u64,
    pub s64: i64,
    pub half: f32,
    pub double: f64,
    pub pad: u8,
    pub id: &'a str,
    pub label: &'a str,
    pub note: &'a str,
    pub blob: &'a [u8],
    pub le24: u32,
    pub le_single: f32,
    pub le_s16: i16,
    pub gain: f32,
    pub step: u16,
    pub chosen: u8,
}
impl<'a> Probe<'a> {
    pub const LEN: usize = 85;
    pub fn encode(&self, out: &mut [u8]) -> Result<usize, EncodeError> {
        let out: &mut [u8; 85] = match out.get_mut(..85) {
            Some(slice) => {
                match <&mut [u8; 85]>::try_from(slice) {
                    Ok(array) => array,
                    Err(_) => {
                        return Err(EncodeError::TooShort {
                            needed: 85,
                        });
                    }
                }
            }
            None => {
                return Err(EncodeError::TooShort {
                    needed: 85,
                });
            }
        };
        *out = [0u8; 85];
        {
            let criterion_kind: u64 = 1;
            out[0] = criterion_kind as u8;
        }
        {
            let criterion_sel: u64 = 258;
            {
                let bytes = (criterion_sel as u16).to_be_bytes();
                out[1] = bytes[0];
                out[2] = bytes[1];
            }
        }
        {
            let fixed_sync: u64 = 6863;
            {
                let bytes = (fixed_sync as u16).to_be_bytes();
                out[3] = bytes[0];
                out[4] = bytes[1];
            }
        }
        {
            let fixed_value_1: u64 = 10;
            out[5] |= fixed_value_1 as u8;
        }
        out[76] = 1;
        out[77] = 2;
        out[78] = 3;
        out[79] = 4;
        out[80] = 5;
        out[81] = 6;
        out[82] = 7;
        out[83] = 8;
        out[84] = 9;
        {
            let flag_bits: u64 = if self.flag { 1 } else { 0 };
            out[5] |= (flag_bits as u8) << 7;
        }
        {
            let mode_bits: u64 = self.mode.raw();
            out[5] |= (mode_bits as u8) << 4;
        }
        {
            if (self.twos as i64) < -4096 || (self.twos as i64) > 4095 {
                return Err(EncodeError::OutOfRange {
                    parameter: "TWOS",
                });
            }
            let twos_bits: u64 = self.twos as i64 as u64 & 8191;
            {
                let bytes = (u16::from_be_bytes([out[6], out[7]])
                    | (twos_bits as u16) << 3)
                    .to_be_bytes();
                out[6] = bytes[0];
                out[7] = bytes[1];
            }
        }
        {
            if (self.ones as i64).unsigned_abs() > 32767 {
                return Err(EncodeError::OutOfRange {
                    parameter: "ONES",
                });
            }
            let ones_bits: u64 = if self.ones < 0 {
                65535 ^ (self.ones as i64).unsigned_abs()
            } else {
                self.ones as u64
            };
            {
                let bytes = (u32::from_be_bytes([0, out[7], out[8], out[9]])
                    | (ones_bits as u32) << 3)
                    .to_be_bytes();
                out[7] = bytes[1];
                out[8] = bytes[2];
                out[9] = bytes[3];
            }
        }
        {
            if (self.signmag as i64).unsigned_abs() > 2047 {
                return Err(EncodeError::OutOfRange {
                    parameter: "SIGNMAG",
                });
            }
            let signmag_bits: u64 = if self.signmag < 0 {
                2048 | (self.signmag as i64).unsigned_abs()
            } else {
                self.signmag as u64
            };
            {
                let bytes = (u32::from_be_bytes([0, out[9], out[10], out[11]])
                    | (signmag_bits as u32) << 7)
                    .to_be_bytes();
                out[9] = bytes[1];
                out[10] = bytes[2];
                out[11] = bytes[3];
            }
        }
        {
            if self.odd as u64 > 144115188075855871 {
                return Err(EncodeError::OutOfRange {
                    parameter: "ODD",
                });
            }
            let odd_bits: u64 = self.odd as u64 & 144115188075855871;
            {
                let bytes = (u64::from_be_bytes([
                    out[11],
                    out[12],
                    out[13],
                    out[14],
                    out[15],
                    out[16],
                    out[17],
                    out[18],
                ]) | (odd_bits as u64) << 6)
                    .to_be_bytes();
                out[11] = bytes[0];
                out[12] = bytes[1];
                out[13] = bytes[2];
                out[14] = bytes[3];
                out[15] = bytes[4];
                out[16] = bytes[5];
                out[17] = bytes[6];
                out[18] = bytes[7];
            }
        }
        {
            let s64_bits: u64 = self.s64 as i64 as u64 & 18446744073709551615;
            {
                let bytes = (u128::from_be_bytes([
                    0,
                    0,
                    0,
                    0,
                    0,
                    0,
                    0,
                    out[18],
                    out[19],
                    out[20],
                    out[21],
                    out[22],
                    out[23],
                    out[24],
                    out[25],
                    out[26],
                ]) | (s64_bits as u128) << 6)
                    .to_be_bytes();
                out[18] = bytes[7];
                out[19] = bytes[8];
                out[20] = bytes[9];
                out[21] = bytes[10];
                out[22] = bytes[11];
                out[23] = bytes[12];
                out[24] = bytes[13];
                out[25] = bytes[14];
                out[26] = bytes[15];
            }
        }
        {
            let half_bits: u64 = f32_to_half(self.half) as u64;
            {
                let bytes = (u32::from_be_bytes([0, out[26], out[27], out[28]])
                    | (half_bits as u32) << 6)
                    .to_be_bytes();
                out[26] = bytes[1];
                out[27] = bytes[2];
                out[28] = bytes[3];
            }
        }
        {
            let double_bits: u64 = self.double.to_bits();
            {
                let bytes = (u128::from_be_bytes([
                    0,
                    0,
                    0,
                    0,
                    0,
                    0,
                    0,
                    out[28],
                    out[29],
                    out[30],
                    out[31],
                    out[32],
                    out[33],
                    out[34],
                    out[35],
                    out[36],
                ]) | (double_bits as u128) << 6)
                    .to_be_bytes();
                out[28] = bytes[7];
                out[29] = bytes[8];
                out[30] = bytes[9];
                out[31] = bytes[10];
                out[32] = bytes[11];
                out[33] = bytes[12];
                out[34] = bytes[13];
                out[35] = bytes[14];
                out[36] = bytes[15];
            }
        }
        {
            if self.pad as u64 > 63 {
                return Err(EncodeError::OutOfRange {
                    parameter: "PAD",
                });
            }
            let pad_bits: u64 = self.pad as u64 & 63;
            out[36] |= pad_bits as u8;
        }
        {
            if !self.id.is_ascii() {
                return Err(EncodeError::InvalidText {
                    parameter: "ID",
                });
            }
            let bytes = self.id.as_bytes();
            if bytes.len() != 4 {
                return Err(EncodeError::TextLength {
                    parameter: "ID",
                });
            }
            for (slot, byte) in out[37..41].iter_mut().zip(bytes) {
                *slot = *byte;
            }
        }
        {
            const TERMINATOR: &[u8] = &[13, 10];
            let bytes = self.label.as_bytes();
            if bytes.len() > 6 {
                return Err(EncodeError::TextLength {
                    parameter: "LABEL",
                });
            }
            if ends_early(bytes, TERMINATOR) {
                return Err(EncodeError::EmbeddedTerminator {
                    parameter: "LABEL",
                });
            }
            for (slot, byte) in out[41..49].iter_mut().zip(bytes) {
                *slot = *byte;
            }
            let at = 41 + bytes.len();
            match out.get_mut(at..at + 2) {
                Some(slot) => {
                    slot[0] = TERMINATOR[0];
                    slot[1] = TERMINATOR[1];
                }
                None => {
                    return Err(EncodeError::TextLength {
                        parameter: "LABEL",
                    });
                }
            }
        }
        {
            let bytes = self.note.as_bytes();
            if bytes.len() > 6 {
                return Err(EncodeError::TextLength {
                    parameter: "NOTE",
                });
            }
            let length_bits = bytes.len() as u64 * 8;
            if length_bits > 65535 {
                return Err(EncodeError::TextLength {
                    parameter: "NOTE",
                });
            }
            {
                let bytes = (length_bits as u16).to_be_bytes();
                out[49] = bytes[0];
                out[50] = bytes[1];
            }
            for (slot, byte) in out[51..57].iter_mut().zip(bytes) {
                *slot = *byte;
            }
        }
        {
            let bytes: &[u8] = self.blob;
            if bytes.len() != 3 {
                return Err(EncodeError::BinaryLength {
                    parameter: "BLOB",
                });
            }
            for (slot, byte) in out[57..60].iter_mut().zip(bytes) {
                *slot = *byte;
            }
        }
        {
            if self.le24 as u64 > 16777215 {
                return Err(EncodeError::OutOfRange {
                    parameter: "LE24",
                });
            }
            let le24_bits: u64 = (((self.le24 as u64 & 16777215) as u32).swap_bytes()
                >> 8) as u64;
            {
                let bytes = (le24_bits as u32).to_be_bytes();
                out[60] = bytes[1];
                out[61] = bytes[2];
                out[62] = bytes[3];
            }
        }
        {
            let le_single_bits: u64 = ((self.le_single.to_bits() as u64) as u32)
                .swap_bytes() as u64;
            {
                let bytes = (le_single_bits as u32).to_be_bytes();
                out[63] = bytes[0];
                out[64] = bytes[1];
                out[65] = bytes[2];
                out[66] = bytes[3];
            }
        }
        {
            let le_s16_bits: u64 = ((self.le_s16 as i64 as u64 & 65535) as u16)
                .swap_bytes() as u64;
            {
                let bytes = (le_s16_bits as u16).to_be_bytes();
                out[67] = bytes[0];
                out[68] = bytes[1];
            }
        }
        {
            let gain_bits: u64 = self.gain.to_bits() as u64;
            {
                let bytes = (gain_bits as u32).to_be_bytes();
                out[69] = bytes[0];
                out[70] = bytes[1];
                out[71] = bytes[2];
                out[72] = bytes[3];
            }
        }
        {
            let step_bits: u64 = self.step as u64 & 65535;
            {
                let bytes = (step_bits as u16).to_be_bytes();
                out[73] = bytes[0];
                out[74] = bytes[1];
            }
        }
        {
            let chosen_bits: u64 = self.chosen as u64 & 255;
            out[75] = chosen_bits as u8;
        }
        Ok(85)
    }
    pub fn decode(data: &'a [u8]) -> Result<Self, DecodeError> {
        let data: &[u8; 85] = match data.get(..85) {
            Some(slice) => {
                match <&[u8; 85]>::try_from(slice) {
                    Ok(array) => array,
                    Err(_) => {
                        return Err(DecodeError::TooShort {
                            needed: 85,
                        });
                    }
                }
            }
            None => {
                return Err(DecodeError::TooShort {
                    needed: 85,
                });
            }
        };
        let flag = (((data[5] as u64) >> 7) & 1) != 0;
        let mode = match Mode::from_raw(((data[5] as u64) >> 4) & 7) {
            Some(value) => value,
            None => {
                return Err(DecodeError::UnknownLabel {
                    parameter: "MODE",
                });
            }
        };
        let twos = ((((((u16::from_be_bytes([data[6], data[7]]) as u64) >> 3) & 8191)
            << 51) as i64) >> 51) as i16;
        let ones = {
            let raw = ((u32::from_be_bytes([0, data[7], data[8], data[9]]) as u64) >> 3)
                & 65535;
            if raw & 32768 == 0 { raw as i64 } else { -(((!raw) & 65535) as i64) }
        } as i16;
        let signmag = {
            let raw = ((u32::from_be_bytes([0, data[9], data[10], data[11]]) as u64)
                >> 7) & 4095;
            let magnitude = (raw & 2047) as i64;
            if raw & 2048 == 0 { magnitude } else { -magnitude }
        } as i16;
        let odd = (((u64::from_be_bytes([
            data[11],
            data[12],
            data[13],
            data[14],
            data[15],
            data[16],
            data[17],
            data[18],
        ]) as u64) >> 6) & 144115188075855871) as u64;
        let s64 = ((((((u128::from_be_bytes([
            0,
            0,
            0,
            0,
            0,
            0,
            0,
            data[18],
            data[19],
            data[20],
            data[21],
            data[22],
            data[23],
            data[24],
            data[25],
            data[26],
        ]) >> 6) as u64) & 18446744073709551615) << 0) as i64) >> 0) as i64;
        let half = half_to_f32(
            (((u32::from_be_bytes([0, data[26], data[27], data[28]]) as u64) >> 6)
                & 65535) as u16,
        );
        let double = f64::from_bits(
            ((u128::from_be_bytes([
                0,
                0,
                0,
                0,
                0,
                0,
                0,
                data[28],
                data[29],
                data[30],
                data[31],
                data[32],
                data[33],
                data[34],
                data[35],
                data[36],
            ]) >> 6) as u64) & 18446744073709551615,
        );
        let pad = (data[36] as u64 & 63) as u8;
        let id = {
            let text = &data[37..41];
            if !text.is_ascii() {
                return Err(DecodeError::InvalidText {
                    parameter: "ID",
                });
            }
            match core::str::from_utf8(text) {
                Ok(text) => text,
                Err(_) => {
                    return Err(DecodeError::InvalidText {
                        parameter: "ID",
                    });
                }
            }
        };
        let label = {
            let text = {
                const TERMINATOR: &[u8] = &[13, 10];
                let buffer = &data[41..49];
                match find(buffer, TERMINATOR) {
                    Some(end) => {
                        match buffer.get(..end) {
                            Some(text) => text,
                            None => {
                                return Err(DecodeError::UnterminatedString {
                                    parameter: "LABEL",
                                });
                            }
                        }
                    }
                    None => {
                        return Err(DecodeError::UnterminatedString {
                            parameter: "LABEL",
                        });
                    }
                }
            };
            match core::str::from_utf8(text) {
                Ok(text) => text,
                Err(_) => {
                    return Err(DecodeError::InvalidText {
                        parameter: "LABEL",
                    });
                }
            }
        };
        let note = {
            let text = {
                let buffer = &data[49..57];
                let length_bits = u16::from_be_bytes([data[49], data[50]]) as u64
                    & 65535;
                if length_bits % 8 != 0 {
                    return Err(DecodeError::BadStringLength {
                        parameter: "NOTE",
                    });
                }
                let length = (length_bits / 8) as usize;
                match buffer.get(2..2 + length) {
                    Some(text) => text,
                    None => {
                        return Err(DecodeError::BadStringLength {
                            parameter: "NOTE",
                        });
                    }
                }
            };
            match core::str::from_utf8(text) {
                Ok(text) => text,
                Err(_) => {
                    return Err(DecodeError::InvalidText {
                        parameter: "NOTE",
                    });
                }
            }
        };
        let blob = &data[57..60];
        let le24 = ((((u32::from_be_bytes([0, data[60], data[61], data[62]]) as u64
            & 16777215) as u32)
            .swap_bytes() >> 8) as u64) as u32;
        let le_single = f32::from_bits(
            (((u32::from_be_bytes([data[63], data[64], data[65], data[66]]) as u64
                & 4294967295) as u32)
                .swap_bytes() as u64) as u32,
        );
        let le_s16 = ((((((u16::from_be_bytes([data[67], data[68]]) as u64 & 65535)
            as u16)
            .swap_bytes() as u64) << 48) as i64) >> 48) as i16;
        let gain = f32::from_bits(
            (u32::from_be_bytes([data[69], data[70], data[71], data[72]]) as u64
                & 4294967295) as u32,
        );
        let step = (u16::from_be_bytes([data[73], data[74]]) as u64 & 65535) as u16;
        let chosen = (data[75] as u64 & 255) as u8;
        Ok(Self {
            flag,
            mode,
            twos,
            ones,
            signmag,
            odd,
            s64,
            half,
            double,
            pad,
            id,
            label,
            note,
            blob,
            le24,
            le_single,
            le_s16,
            gain,
            step,
            chosen,
        })
    }
    pub fn matches(data: &[u8]) -> bool {
        let data: &[u8; 85] = match data.get(..85) {
            Some(slice) => {
                match <&[u8; 85]>::try_from(slice) {
                    Ok(array) => array,
                    Err(_) => return false,
                }
            }
            None => return false,
        };
        let _ = data;
        if (data[0] as u64 & 255) != 1 {
            return false;
        }
        if (u16::from_be_bytes([data[1], data[2]]) as u64 & 65535) != 258 {
            return false;
        }
        true
    }
    pub fn le_s16_calibrated(&self) -> Result<f64, DecodeError> {
        const POINTS: &[(f64, f64)] = &[(10.0, 0.0), (20.0, 5.0), (40.0, 6.0)];
        match spline_value(POINTS, 1, false, i128::from(self.le_s16) as f64) {
            Some(value) => Ok(value),
            None => {
                Err(DecodeError::Calibration {
                    parameter: "LE_S16",
                })
            }
        }
    }
    pub fn gain_calibrated(&self) -> Result<f64, DecodeError> {
        let base = f64::from(self.gain);
        let mut sum = 0.0f64;
        sum += 2.0 * powi(base, 3);
        Ok(sum)
    }
    pub fn step_calibrated(&self) -> Result<f64, DecodeError> {
        const POINTS: &[(f64, f64)] = &[(10.0, 0.0), (20.0, 5.0), (40.0, 6.0)];
        match spline_value(POINTS, 0, true, i128::from(self.step) as f64) {
            Some(value) => Ok(value),
            None => {
                Err(DecodeError::Calibration {
                    parameter: "STEP",
                })
            }
        }
    }
    pub fn chosen_calibrated(&self) -> Result<f64, DecodeError> {
        if i128::from(self.flag) == 1
            && (matches!(i128::from(self.mode.raw()), 1..= 3 | 5)
                || i128::from(self.twos) < -7)
        {
            let base = i128::from(self.chosen);
            let mut sum = 0.0f64;
            sum += 2.0 * integer_power(base, 3);
            Ok(sum)
        } else if i128::from(self.chosen) >= 200 {
            const POINTS: &[(f64, f64)] = &[(10.0, 0.0), (20.0, 5.0), (40.0, 6.0)];
            match spline_value(POINTS, 1, true, i128::from(self.chosen) as f64) {
                Some(value) => Ok(value),
                None => {
                    Err(DecodeError::Calibration {
                        parameter: "CHOSEN",
                    })
                }
            }
        } else {
            let base = i128::from(self.chosen);
            let mut sum = 0.0f64;
            sum += -1.5 * integer_power(base, 0);
            sum += 0.25 * integer_power(base, 1);
            Ok(sum)
        }
    }
}
#[derive(Clone, Copy, PartialEq, Debug)]
pub struct PingPacket {
    pub seq: u8,
}
impl PingPacket {
    pub const LEN: usize = 2;
    pub fn encode(&self, out: &mut [u8]) -> Result<usize, EncodeError> {
        let out: &mut [u8; 2] = match out.get_mut(..2) {
            Some(slice) => {
                match <&mut [u8; 2]>::try_from(slice) {
                    Ok(array) => array,
                    Err(_) => return Err(EncodeError::TooShort { needed: 2 }),
                }
            }
            None => return Err(EncodeError::TooShort { needed: 2 }),
        };
        *out = [0u8; 2];
        {
            let criterion_kind: u64 = 2;
            out[0] = criterion_kind as u8;
        }
        {
            if self.seq as u64 > 15 {
                return Err(EncodeError::OutOfRange {
                    parameter: "SEQ",
                });
            }
            let seq_bits: u64 = self.seq as u64 & 15;
            out[1] |= (seq_bits as u8) << 4;
        }
        Ok(2)
    }
    pub fn decode(data: &[u8]) -> Result<Self, DecodeError> {
        let data: &[u8; 2] = match data.get(..2) {
            Some(slice) => {
                match <&[u8; 2]>::try_from(slice) {
                    Ok(array) => array,
                    Err(_) => return Err(DecodeError::TooShort { needed: 2 }),
                }
            }
            None => return Err(DecodeError::TooShort { needed: 2 }),
        };
        let seq = (((data[1] as u64) >> 4) & 15) as u8;
        Ok(Self { seq })
    }
    pub fn matches(data: &[u8]) -> bool {
        let data: &[u8; 2] = match data.get(..2) {
            Some(slice) => {
                match <&[u8; 2]>::try_from(slice) {
                    Ok(array) => array,
                    Err(_) => return false,
                }
            }
            None => return false,
        };
        let _ = data;
        if (data[0] as u64 & 255) != 2 {
            return false;
        }
        true
    }
}
#[derive(Clone, Copy, PartialEq, Debug)]
pub enum Packet<'a> {
    Probe(Probe<'a>),
    PingPacket(PingPacket),
}
pub fn decode<'a>(data: &'a [u8]) -> Result<Packet<'a>, DecodeError> {
    #[derive(Clone, Copy)]
    enum Selected {
        Probe,
        PingPacket,
    }
    let mut matched = 0usize;
    let mut selected = None;
    if Probe::matches(data) {
        matched += 1;
        selected = Some(Selected::Probe);
    }
    if PingPacket::matches(data) {
        matched += 1;
        selected = Some(Selected::PingPacket);
    }
    if matched > 1 {
        return Err(DecodeError::Ambiguous);
    }
    match selected {
        Some(selected) => {
            match selected {
                Selected::Probe => Ok(Packet::Probe(Probe::decode(data)?)),
                Selected::PingPacket => Ok(Packet::PingPacket(PingPacket::decode(data)?)),
            }
        }
        None => Err(DecodeError::Unrecognized),
    }
}
#[derive(Clone, Copy, PartialEq, Eq, Debug)]
pub enum EncodeError {
    TooShort {
        needed: usize,
    },
    OutOfRange {
        parameter: &'static str,
    },
    TextLength {
        parameter: &'static str,
    },
    EmbeddedTerminator {
        parameter: &'static str,
    },
    InvalidText {
        parameter: &'static str,
    },
    BinaryLength {
        parameter: &'static str,
    },
}
impl core::error::Error for EncodeError {}
#[derive(Clone, Copy, PartialEq, Eq, Debug)]
pub enum DecodeError {
    TooShort {
        needed: usize,
    },
    Unrecognized,
    Ambiguous,
    InvalidText {
        parameter: &'static str,
    },
    UnterminatedString {
        parameter: &'static str,
    },
    BadStringLength {
        parameter: &'static str,
    },
    UnknownLabel {
        parameter: &'static str,
    },
    Calibration {
        parameter: &'static str,
    },
}
impl core::error::Error for DecodeError {}
pub fn half_to_f32(bits: u16) -> f32 {
    let sign = u32::from(bits & 0x8000) << 16;
    let exponent = u32::from((bits >> 10) & 0x1F);
    let fraction = u32::from(bits & 0x03FF);
    match exponent {
        0 if fraction == 0 => f32::from_bits(sign),
        0 => {
            let shift = fraction.leading_zeros() - 21;
            let fraction = (fraction << shift) & 0x03FF;
            let exponent = 113 - shift;
            f32::from_bits(sign | (exponent << 23) | (fraction << 13))
        }
        0x1F => f32::from_bits(sign | 0x7F80_0000 | (fraction << 13)),
        _ => f32::from_bits(sign | ((exponent + 127 - 15) << 23) | (fraction << 13)),
    }
}
pub fn f32_to_half(value: f32) -> u16 {
    let bits = value.to_bits();
    let sign = ((bits >> 16) & 0x8000) as u16;
    let exponent = ((bits >> 23) & 0xFF) as i32;
    let fraction = bits & 0x007F_FFFF;
    if exponent == 0xFF {
        let payload = if fraction == 0 { 0 } else { ((fraction >> 13) as u16) | 0x0200 };
        return sign | 0x7C00 | payload;
    }
    let unbiased = exponent - 127;
    if unbiased > 15 {
        return sign | 0x7C00;
    }
    if unbiased < -25 {
        return sign;
    }
    if unbiased < -14 {
        let shift = (-14 - unbiased) as u32;
        let significand = fraction | 0x0080_0000;
        let total = 13 + shift;
        let truncated = significand >> total;
        let remainder = significand & ((1u32 << total) - 1);
        let halfway = 1u32 << (total - 1);
        let round = u32::from(
            remainder > halfway || (remainder == halfway && truncated & 1 == 1),
        );
        return sign | ((truncated + round) as u16);
    }
    let truncated = (((unbiased + 15) as u32) << 10) | (fraction >> 13);
    let remainder = fraction & 0x1FFF;
    let round = u32::from(
        remainder > 0x1000 || (remainder == 0x1000 && truncated & 1 == 1),
    );
    sign | ((truncated + round) as u16)
}
fn find(haystack: &[u8], needle: &[u8]) -> Option<usize> {
    if needle.is_empty() || haystack.len() < needle.len() {
        return None;
    }
    let mut at = 0usize;
    while at + needle.len() <= haystack.len() {
        match haystack.get(at..at + needle.len()) {
            Some(window) if window == needle => return Some(at),
            _ => {}
        }
        at += 1;
    }
    None
}
fn ends_early(text: &[u8], terminator: &[u8]) -> bool {
    (0..text.len())
        .any(|at| {
            text.iter()
                .skip(at)
                .chain(terminator)
                .zip(terminator)
                .all(|(found, wanted)| found == wanted)
        })
}
fn powi(x: f64, exponent: i32) -> f64 {
    let mut remaining = exponent.unsigned_abs();
    let mut result = 1.0f64;
    let mut base = x;
    let mut started = false;
    while remaining > 0 {
        if remaining & 1 == 1 {
            result = if started { result * base } else { base };
            started = true;
        }
        remaining >>= 1;
        if remaining > 0 {
            base = base * base;
        }
    }
    let value = if started { result } else { 1.0 };
    if exponent < 0 { 1.0 / value } else { value }
}
fn integer_power(base: i128, exponent: i32) -> f64 {
    if exponent < 0 {
        return powi(base as f64, exponent);
    }
    match u32::try_from(exponent).ok().and_then(|exponent| base.checked_pow(exponent)) {
        Some(exact) => exact as f64,
        None => powi(base as f64, exponent),
    }
}
fn spline_line(x: f64, x0: f64, x1: f64, y0: f64, y1: f64) -> f64 {
    if (x1 - x0) == 0.0 {
        return y0;
    }
    let slope = (y1 - y0) / (x1 - x0);
    slope * (x - x0) + y0
}
fn spline_value(
    points: &[(f64, f64)],
    order: u8,
    extrapolate: bool,
    query: f64,
) -> Option<f64> {
    let first = *points.first()?;
    let last = *points.last()?;
    if query < first.0 {
        if !extrapolate {
            return None;
        }
        return Some(
            match order {
                0 => first.1,
                _ => {
                    match points.get(1) {
                        Some(second) => {
                            spline_line(query, first.0, second.0, first.1, second.1)
                        }
                        None => first.1,
                    }
                }
            },
        );
    }
    if query > last.0 {
        if !extrapolate {
            return None;
        }
        return Some(
            match order {
                0 => last.1,
                _ => {
                    match points.len().checked_sub(2).and_then(|at| points.get(at)) {
                        Some(previous) => {
                            spline_line(query, previous.0, last.0, previous.1, last.1)
                        }
                        None => last.1,
                    }
                }
            },
        );
    }
    let hi = points.partition_point(|point| point.0 <= query).max(1);
    Some(
        match order {
            0 => points.get(hi.saturating_sub(1)).map_or(first.1, |point| point.1),
            _ => {
                if points.len() < 2 {
                    return Some(first.1);
                }
                let upper = hi.min(points.len() - 1);
                match (points.get(upper.saturating_sub(1)), points.get(upper)) {
                    (Some(lower), Some(higher)) => {
                        spline_line(query, lower.0, higher.0, lower.1, higher.1)
                    }
                    _ => first.1,
                }
            }
        },
    )
}
"##;

const HARNESS: &str = r##"#[derive(Clone, Debug)]
pub struct Case {
    pub container: &'static str,
    pub bytes: Vec<u8>,
    pub expected: Vec<(&'static str, Expected)>,
    pub criteria: Vec<(&'static str, u64, u64)>,
    pub calibrated: Vec<(&'static str, u64, Option<f64>)>,
}
#[derive(Clone, Debug, PartialEq)]
pub enum Expected {
    Unsigned(u64),
    Signed(i64),
    Float(f64),
    Bool(bool),
    Label(&'static str),
    Text(String),
    Bytes(Vec<u8>),
}
pub struct Rng(u64);
impl Rng {
    pub fn new(seed: u64) -> Self {
        Self(if seed == 0 { 0x2545_F491_4F6C_DD1D } else { seed })
    }
    pub fn next(&mut self) -> u64 {
        let mut state = self.0;
        state ^= state >> 12;
        state ^= state << 25;
        state ^= state >> 27;
        self.0 = state;
        state.wrapping_mul(0x2545_F491_4F6C_DD1D)
    }
    pub fn below(&mut self, limit: usize) -> usize {
        if limit == 0 { 0 } else { (self.next() % limit as u64) as usize }
    }
    pub fn bytes(&mut self, count: usize) -> Vec<u8> {
        (0..count).map(|_| (self.next() & 0xFF) as u8).collect()
    }
    pub fn finite_half(&mut self) -> u16 {
        let bits = (self.next() & 0xFFFF) as u16;
        if (bits >> 10) & 0x1F == 0x1F { bits & 0xF3FF } else { bits }
    }
    pub fn finite_f32_bits(&mut self) -> u32 {
        let bits = (self.next() & 0xFFFF_FFFF) as u32;
        if (bits >> 23) & 0xFF == 0xFF { bits & 0xFF7F_FFFF } else { bits }
    }
    pub fn finite_f64_bits(&mut self) -> u64 {
        let bits = self.next();
        if (bits >> 52) & 0x7FF == 0x7FF { bits & 0xFFEF_FFFF_FFFF_FFFF } else { bits }
    }
    pub fn text_of_exactly(
        &mut self,
        bytes: usize,
        utf8: bool,
        forbidden: &[u8],
    ) -> String {
        let mut out = String::new();
        let mut written = 0usize;
        while written < bytes {
            let wide = utf8 && bytes - written >= 2 && self.next() % 4 == 0;
            if wide {
                out.push(MULTIBYTE[self.below(MULTIBYTE.len())]);
                written += 2;
            } else {
                let candidate = PRINTABLE[self.below(PRINTABLE.len())];
                if forbidden.contains(&(candidate as u8)) {
                    continue;
                }
                out.push(candidate);
                written += 1;
            }
        }
        out
    }
    pub fn text_up_to(&mut self, bytes: usize, utf8: bool, forbidden: &[u8]) -> String {
        let length = self.below(bytes + 1);
        self.text_of_exactly(length, utf8, forbidden)
    }
}
const PRINTABLE: &[char] = &[
    'a', 'b', 'c', 'd', 'e', 'f', 'g', 'h', 'i', 'j', 'k', 'l', 'm', 'n', 'o', 'p', 'A',
    'B', 'C', 'D', 'E', 'F', 'G', 'H', 'I', 'J', 'K', 'L', 'M', 'N', 'O', 'P', '0', '1',
    '2', '3', '4', '5', '6', '7', '8', '9', ' ', '-', '_', '.', '/', '+',
];
const MULTIBYTE: &[char] = &['ą', 'ę', 'ó', 'ż', 'µ', '£', 'Ω', 'é'];
pub fn case_probe(seed: u64) -> Case {
    let mut rng = Rng::new(seed);
    let id: String = rng.text_of_exactly(4, false, &[]);
    let label: String = rng.text_up_to(6, true, &[13, 10]);
    let note: String = rng.text_up_to(6, true, &[]);
    let blob: Vec<u8> = rng.bytes(3);
    let flag = rng.next() & 1 == 1;
    let mode = match rng.below(3) {
        0 => self::Mode::Safe,
        1 => self::Mode::LowPower,
        2 => self::Mode::C9600,
        _ => unreachable!("below({}) is in range", 3),
    };
    let twos = ((((rng.next() & 8191) << 51) as i64) >> 51) as i16;
    let ones = {
        let magnitude = (rng.next() & 32767) as i64;
        (if rng.next() & 1 == 0 { magnitude } else { -magnitude }) as i16
    };
    let signmag = {
        let magnitude = (rng.next() & 2047) as i64;
        (if rng.next() & 1 == 0 { magnitude } else { -magnitude }) as i16
    };
    let odd = (rng.next() & 144115188075855871) as u64;
    let s64 = ((((rng.next() & 18446744073709551615) << 0) as i64) >> 0) as i64;
    let half = self::half_to_f32(rng.finite_half());
    let double = f64::from_bits(rng.finite_f64_bits());
    let pad = (rng.next() & 63) as u8;
    let le24 = (rng.next() & 16777215) as u32;
    let le_single = f32::from_bits(rng.finite_f32_bits());
    let le_s16 = ((((rng.next() & 65535) << 48) as i64) >> 48) as i16;
    let gain = f32::from_bits(rng.finite_f32_bits());
    let step = (rng.next() & 65535) as u16;
    let chosen = (rng.next() & 255) as u8;
    let packet = self::Probe {
        flag: flag,
        mode: mode,
        twos: twos,
        ones: ones,
        signmag: signmag,
        odd: odd,
        s64: s64,
        half: half,
        double: double,
        pad: pad,
        id: &id,
        label: &label,
        note: &note,
        blob: &blob,
        le24: le24,
        le_single: le_single,
        le_s16: le_s16,
        gain: gain,
        step: step,
        chosen: chosen,
    };
    let mut bytes = vec![0u8; 85];
    let written = packet
        .encode(&mut bytes)
        .unwrap_or_else(|error| panic!("{}: encode failed: {error}", "Probe"));
    assert_eq!(written, 85, "{}: encode wrote the wrong length", "Probe");
    let returned = self::Probe::decode(&bytes)
        .unwrap_or_else(|error| panic!("{}: decode failed: {error}", "Probe"));
    assert_eq!(returned, packet, "{}: does not survive its own round trip", "Probe");
    assert!(
        self::Probe::matches(& bytes),
        "{}: encoded packet does not satisfy its own criteria", "Probe"
    );
    Case {
        container: "Probe",
        bytes,
        expected: vec![
            ("FLAG", Expected::Bool(flag)), ("MODE", Expected::Label(mode.label())),
            ("TWOS", Expected::Signed(i64::from(twos))), ("ONES",
            Expected::Signed(i64::from(ones))), ("SIGNMAG",
            Expected::Signed(i64::from(signmag))), ("ODD",
            Expected::Unsigned(u64::from(odd))), ("S64",
            Expected::Signed(i64::from(s64))), ("HALF",
            Expected::Float(f64::from(half))), ("DOUBLE", Expected::Float(double)),
            ("PAD", Expected::Unsigned(u64::from(pad))), ("ID", Expected::Text(id
            .clone())), ("LABEL", Expected::Text(label.clone())), ("NOTE",
            Expected::Text(note.clone())), ("BLOB", Expected::Bytes(blob.clone())),
            ("LE24", Expected::Unsigned(u64::from(le24))), ("LE_SINGLE",
            Expected::Float(f64::from(le_single)))
        ],
        criteria: vec![("KIND", 1, 255), ("SEL", 513, 65535)],
        calibrated: vec![
            ("LE_S16", le_s16 as i64 as u64, packet.le_s16_calibrated().ok()), ("GAIN",
            f64::from(gain).to_bits(), packet.gain_calibrated().ok()), ("STEP",
            u64::from(step), packet.step_calibrated().ok()), ("CHOSEN",
            u64::from(chosen), packet.chosen_calibrated().ok())
        ],
    }
}
pub fn case_ping_packet(seed: u64) -> Case {
    let mut rng = Rng::new(seed);
    let seq = (rng.next() & 15) as u8;
    let packet = self::PingPacket { seq: seq };
    let mut bytes = vec![0u8; 2];
    let written = packet
        .encode(&mut bytes)
        .unwrap_or_else(|error| panic!("{}: encode failed: {error}", "PING_PACKET"));
    assert_eq!(written, 2, "{}: encode wrote the wrong length", "PING_PACKET");
    let returned = self::PingPacket::decode(&bytes)
        .unwrap_or_else(|error| panic!("{}: decode failed: {error}", "PING_PACKET"));
    assert_eq!(
        returned, packet, "{}: does not survive its own round trip", "PING_PACKET"
    );
    assert!(
        self::PingPacket::matches(& bytes),
        "{}: encoded packet does not satisfy its own criteria", "PING_PACKET"
    );
    Case {
        container: "PING_PACKET",
        bytes,
        expected: vec![("SEQ", Expected::Unsigned(u64::from(seq)))],
        criteria: vec![("KIND", 2, 255)],
        calibrated: vec![],
    }
}
pub fn cases(seed: u64) -> Vec<Case> {
    vec![
        case_probe(seed ^ 11400714819323198485), case_ping_packet(seed ^
        4354685564936845354)
    ]
}
"##;
