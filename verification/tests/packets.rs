//! The encoder, checked against a reader that shares no code with it.
//!
//! Encoding and decoding with the same code would show only that the code is consistent with
//! itself: a field written at the wrong offset and read back from the wrong offset round trips
//! perfectly. So packets go out through the library and come back through the reader below, which
//! walks a definition entry by entry and takes one bit at a time. What is compared is the value
//! that was drawn, never something derived from the encoder.

use xtce_flight::codec::{decode, dispatch, encode, DecodeError, EncodeError, Value};
use xtce_flight::half::{f32_bits_to_half, half_to_f32_bits};
use xtce_flight::layout::{Container, EnumType, Kind};
use xtce_flight::missions::aggregates::aggregates_container;
use xtce_flight::missions::arrays::arrays_container;
use xtce_flight::missions::byte_order::byte_order_container;
use xtce_flight::missions::commands::command_layout;
use xtce_flight::missions::flight_shapes::flight_shapes_layout;
use xtce_flight::missions::jpss::jpss_container;
use xtce_flight::missions::numeric_edges::numeric_edges_container;
use xtce_flight::plan::{
    CompareOp, ContainerPlan, Field, Guard, IntegerCoding, Node, Plan, Repr, TextCharset,
    TextDelimiter,
};
use xtce_flight::Layout;

// -----------------------------------------------------------------------------------------
// Definitions, as lists of entries
// -----------------------------------------------------------------------------------------

#[derive(Clone, Copy)]
enum Shape {
    Unsigned,
    Twos,
    SignMagnitude,
    Ones,
    Float,
    Flag,
    Labels(&'static [(u64, &'static str)]),
    Whole,
    Terminated,
    Counted(usize),
    Bytes,
    Criterion(u64),
    Fixed(u64),
}

#[derive(Clone, Copy)]
struct Entry {
    name: &'static str,
    width: usize,
    shape: Shape,
    reversed: bool,
}

struct Definition {
    container: &'static str,
    entries: Vec<Entry>,
}

fn entry(name: &'static str, width: usize, shape: Shape) -> Entry {
    Entry { name, width, shape, reversed: false }
}

fn little(name: &'static str, width: usize, shape: Shape) -> Entry {
    Entry { name, width, shape, reversed: true }
}

// -----------------------------------------------------------------------------------------
// The reader
// -----------------------------------------------------------------------------------------

#[derive(Debug, PartialEq)]
enum Seen {
    Unsigned(u64),
    Signed(i64),
    Float(f64),
    Bool(bool),
    Label(String),
    Text(String),
    Bytes(Vec<u8>),
    Criterion(u64),
}

fn bit(bytes: &[u8], at: usize) -> u64 {
    u64::from(bytes[at / 8] >> (7 - at % 8) & 1)
}

fn unsigned(bytes: &[u8], from: usize, width: usize) -> u64 {
    let mut value = 0u64;
    for at in from..from + width {
        value = value << 1 | bit(bytes, at);
    }
    value
}

fn octets(bytes: &[u8], from: usize, width: usize) -> Vec<u8> {
    (0..width / 8).map(|i| unsigned(bytes, from + 8 * i, 8) as u8).collect()
}

/// The number a binary16 denotes, from the definition of the format.
fn half_value(bits: u16) -> f64 {
    let sign = if bits & 0x8000 == 0 { 1.0 } else { -1.0 };
    let exponent = i32::from((bits >> 10) & 0x1F);
    let fraction = f64::from(bits & 0x03FF);
    match exponent {
        0 => sign * fraction * 2f64.powi(-24),
        _ => sign * (1.0 + fraction / 1024.0) * 2f64.powi(exponent - 15),
    }
}

fn read(entry: &Entry, bytes: &[u8], from: usize) -> Seen {
    let width = entry.width;
    match entry.shape {
        Shape::Whole => {
            return Seen::Text(String::from_utf8(octets(bytes, from, width)).expect("text"));
        }
        Shape::Terminated => {
            let buffer = octets(bytes, from, width);
            let end = buffer.iter().position(|byte| *byte == 0).expect("a terminator");
            return Seen::Text(String::from_utf8(buffer[..end].to_vec()).expect("text"));
        }
        Shape::Counted(size) => {
            let length = unsigned(bytes, from, size) as usize;
            return Seen::Text(
                String::from_utf8(octets(bytes, from + size, length)).expect("text"),
            );
        }
        Shape::Bytes => return Seen::Bytes(octets(bytes, from, width)),
        _ => {}
    }
    let mut raw = unsigned(bytes, from, width);
    if entry.reversed {
        let mut turned = 0u64;
        for i in 0..width / 8 {
            turned |= (raw >> (8 * i) & 0xFF) << (width - 8 - 8 * i);
        }
        raw = turned;
    }
    let top = 1u64 << (width - 1);
    match entry.shape {
        Shape::Unsigned => Seen::Unsigned(raw),
        Shape::Twos => Seen::Signed(if raw & top == 0 {
            raw as i64
        } else {
            (i128::from(raw) - (1i128 << width)) as i64
        }),
        Shape::SignMagnitude => Seen::Signed(if raw & top == 0 {
            raw as i64
        } else {
            -((raw ^ top) as i64)
        }),
        Shape::Ones => Seen::Signed(if raw & top == 0 {
            raw as i64
        } else {
            -(((1u64 << width) - 1 - raw) as i64)
        }),
        Shape::Float => Seen::Float(match width {
            16 => half_value(raw as u16),
            32 => f64::from(f32::from_bits(raw as u32)),
            _ => f64::from_bits(raw),
        }),
        Shape::Flag => Seen::Bool(raw != 0),
        Shape::Labels(labels) => Seen::Label(
            labels.iter().find(|(value, _)| *value == raw).expect("a label").1.to_owned(),
        ),
        Shape::Criterion(_) => Seen::Criterion(raw),
        Shape::Fixed(value) => {
            assert_eq!(raw, value, "{}: the fixed value was not written", entry.name);
            Seen::Criterion(raw)
        }
        _ => unreachable!(),
    }
}

/// Reads a packet as the one definition whose criteria hold.
fn interpret(definitions: &[Definition], bytes: &[u8]) -> (&'static str, Vec<(&'static str, Seen)>) {
    let mut found = Vec::new();
    for definition in definitions {
        let total: usize = definition.entries.iter().map(|entry| entry.width).sum();
        if total > 8 * bytes.len() {
            continue;
        }
        let mut seen = Vec::new();
        let mut at = 0;
        let mut held = true;
        for entry in &definition.entries {
            if let Shape::Criterion(wanted) = entry.shape {
                let got = read(entry, bytes, at);
                held = held && got == Seen::Criterion(wanted);
            }
            at += entry.width;
        }
        if !held {
            continue;
        }
        let mut at = 0;
        for entry in &definition.entries {
            let value = read(entry, bytes, at);
            if !matches!(entry.shape, Shape::Fixed(_)) {
                seen.push((entry.name, value));
            }
            at += entry.width;
        }
        found.push((definition.container, seen));
    }
    assert_eq!(found.len(), 1, "one definition recognises the packet");
    found.pop().expect("one")
}

// -----------------------------------------------------------------------------------------
// Drawing packets
// -----------------------------------------------------------------------------------------

struct Rng(u64);

impl Rng {
    fn new(seed: u64) -> Self {
        Self(if seed == 0 { 0x2545_F491_4F6C_DD1D } else { seed })
    }

    fn next(&mut self) -> u64 {
        let mut state = self.0;
        state ^= state >> 12;
        state ^= state << 25;
        state ^= state >> 27;
        self.0 = state;
        state.wrapping_mul(0x2545_F491_4F6C_DD1D)
    }

    fn below(&mut self, limit: usize) -> usize {
        (self.next() % limit as u64) as usize
    }

    fn text(&mut self, bytes: usize, utf8: bool) -> String {
        let plain: Vec<char> = "abcdefghijklmnopABCDEFGHIJKLMNOP0123456789 -_./+".chars().collect();
        let wide: Vec<char> = "ąęóżµ£Ωé".chars().collect();
        let mut out = String::new();
        while out.len() < bytes {
            if utf8 && bytes - out.len() >= 2 && self.next() % 4 == 0 {
                out.push(wide[self.below(wide.len())]);
            } else {
                out.push(plain[self.below(plain.len())]);
            }
        }
        out
    }
}

/// A value that owns what a packet borrows.
enum Drawn {
    Plain(Value<'static>),
    Text(String),
    Bytes(Vec<u8>),
}

impl Drawn {
    fn value(&self) -> Value<'_> {
        match self {
            Drawn::Plain(value) => *value,
            Drawn::Text(text) => Value::Text(text),
            Drawn::Bytes(bytes) => Value::Binary(bytes),
        }
    }
}

fn mask(width: u32) -> u64 {
    if width == 64 {
        u64::MAX
    } else {
        (1 << width) - 1
    }
}

fn draw(rng: &mut Rng, width: u32, kind: &Kind, enums: &[EnumType]) -> Drawn {
    let bytes = width as usize / 8;
    match kind {
        Kind::Unsigned => Drawn::Plain(Value::Unsigned(rng.next() & mask(width))),
        Kind::Signed(IntegerCoding::Unsigned) if ![8, 16, 32, 64].contains(&width) => {
            Drawn::Plain(Value::Signed((rng.next() & mask(width - 1)) as i64))
        }
        Kind::Signed(IntegerCoding::TwosComplement | IntegerCoding::Unsigned) => {
            let shift = 64 - width;
            let number = (((rng.next() & mask(width)) << shift) as i64) >> shift;
            Drawn::Plain(Value::Signed(number))
        }
        Kind::Signed(_) => {
            let magnitude = (rng.next() & mask(width - 1)) as i64;
            let negative = rng.next() & 1 == 1;
            Drawn::Plain(Value::Signed(if negative { -magnitude } else { magnitude }))
        }
        Kind::Float16 => {
            let bits = (rng.next() & 0xFFFF) as u16;
            let bits = if (bits >> 10) & 0x1F == 0x1F { bits & 0xF3FF } else { bits };
            Drawn::Plain(Value::Single((half_value(bits) as f32).to_bits()))
        }
        Kind::Float32 => {
            let bits = (rng.next() & 0xFFFF_FFFF) as u32;
            let bits = if (bits >> 23) & 0xFF == 0xFF { bits & 0xFF7F_FFFF } else { bits };
            Drawn::Plain(Value::Single(bits))
        }
        Kind::Float64 => {
            let bits = rng.next();
            let bits =
                if (bits >> 52) & 0x7FF == 0x7FF { bits & 0xFFEF_FFFF_FFFF_FFFF } else { bits };
            Drawn::Plain(Value::Double(bits))
        }
        Kind::Bool => Drawn::Plain(Value::Bool(rng.next() & 1 == 1)),
        Kind::Enumerated(index) => {
            Drawn::Plain(Value::Enumerated(rng.below(enums[*index].variants.len())))
        }
        Kind::Text { charset, delimiter } => {
            let utf8 = matches!(charset, TextCharset::Utf8);
            let length = match delimiter {
                TextDelimiter::WholeBuffer => bytes,
                TextDelimiter::TerminationChar(terminator) => {
                    rng.below(bytes - terminator.len() + 1)
                }
                TextDelimiter::LeadingSize { size_in_bits } => {
                    rng.below(bytes - *size_in_bits as usize / 8 + 1)
                }
            };
            Drawn::Text(rng.text(length, utf8))
        }
        Kind::Binary => Drawn::Bytes((0..bytes).map(|_| (rng.next() & 0xFF) as u8).collect()),
    }
}

/// What the reader should see for a value.
fn expected(kind: &Kind, value: Value<'_>, enums: &[EnumType]) -> Seen {
    match (kind, value) {
        (_, Value::Unsigned(number)) => Seen::Unsigned(number),
        (_, Value::Signed(number)) => Seen::Signed(number),
        (_, Value::Single(bits)) => Seen::Float(f64::from(f32::from_bits(bits))),
        (_, Value::Double(bits)) => Seen::Float(f64::from_bits(bits)),
        (_, Value::Bool(flag)) => Seen::Bool(flag),
        (Kind::Enumerated(index), Value::Enumerated(at)) => {
            Seen::Label(enums[*index].variants[at].2.clone())
        }
        (_, Value::Text(text)) => Seen::Text(text.to_owned()),
        (_, Value::Binary(bytes)) => Seen::Bytes(bytes.to_vec()),
        (_, Value::Enumerated(_)) => unreachable!(),
    }
}

/// A packet of a container, drawn from a seed.
fn case(container: &Container, enums: &Vec<EnumType>, seed: u64) -> (Vec<Drawn>, Vec<u8>) {
    let mut rng = Rng::new(seed);
    let drawn: Vec<Drawn> = container
        .fields
        .iter()
        .map(|field| draw(&mut rng, field.bit_width, &field.kind, enums))
        .collect();
    let values: Vec<Value<'_>> = drawn.iter().map(Drawn::value).collect();
    let mut bytes = vec![0u8; container.len_bytes];
    assert_eq!(encode(container, enums, &values, &mut bytes), Ok(container.len_bytes));
    // The library's own decoder is not the oracle, but a packet that does not survive its own
    // round trip is a fault worth catching next to the values.
    assert_eq!(decode(container, enums, &bytes).expect("decodes"), values);
    assert!(xtce_flight::codec::matches(container, &bytes));
    (drawn, bytes)
}

fn seed_of(round: u64) -> u64 {
    0x2545_F491_4F6C_DD1Du64.wrapping_mul(round + 1) ^ (round << 32)
}

/// Compares every field of every packet over so many rounds, and says how many there were.
fn check(definitions: &[Definition], layout: &Layout, rounds: u64) -> usize {
    let mut checked = 0usize;
    for round in 0..rounds {
        for (index, container) in layout.containers.iter().enumerate() {
            let salt = 0x9E37_79B9_7F4A_7C15u64.wrapping_mul(index as u64 + 1);
            let (drawn, bytes) = case(container, &layout.enums, seed_of(round) ^ salt);
            let (name, seen) = interpret(definitions, &bytes);
            assert_eq!(name, container.xtce_name, "round {round}: a different container");

            let mut claimed: Vec<&str> = container
                .fields
                .iter()
                .map(|field| field.xtce_name.as_str())
                .chain(container.constants.iter().map(|constant| constant.xtce_name.as_str()))
                .collect();
            claimed.sort_unstable();
            let mut reported: Vec<&str> = seen.iter().map(|(name, _)| *name).collect();
            reported.sort_unstable();
            assert_eq!(claimed, reported, "round {round}: {name}");

            for constant in &container.constants {
                let (_, value) =
                    seen.iter().find(|(name, _)| *name == constant.xtce_name).expect("reported");
                assert_eq!(*value, Seen::Criterion(constant.reported));
            }
            for (field, drawn) in container.fields.iter().zip(&drawn) {
                let (_, value) =
                    seen.iter().find(|(name, _)| *name == field.xtce_name).expect("reported");
                assert_eq!(
                    *value,
                    expected(&field.kind, drawn.value(), &layout.enums),
                    "round {round}: {name}: {}",
                    field.xtce_name
                );
                checked += 1;
            }
        }
    }
    checked
}

fn alone(container: Container) -> Layout {
    let root_name = container.xtce_name.clone();
    Layout { containers: vec![container], enums: Vec::new(), root_name }
}

// -----------------------------------------------------------------------------------------
// The definitions
// -----------------------------------------------------------------------------------------

fn numeric_edges() -> Vec<Definition> {
    vec![Definition {
        container: "NumericEdges",
        entries: vec![
            entry("PAD_4", 4, Shape::Unsigned),
            entry("F16_UNALIGNED", 16, Shape::Float),
            entry("F32_UNALIGNED", 32, Shape::Float),
            entry("F64_UNALIGNED", 64, Shape::Float),
            entry("S16_TWOS_UNALIGNED", 16, Shape::Twos),
            entry("S16_SIGNMAG_UNALIGNED", 16, Shape::SignMagnitude),
            entry("S16_ONES_UNALIGNED", 16, Shape::Ones),
            entry("U64_UNALIGNED", 64, Shape::Unsigned),
            entry("U57_UNALIGNED", 57, Shape::Unsigned),
            entry("S63_TWOS_UNALIGNED", 63, Shape::Twos),
            entry("PAD_4B", 4, Shape::Unsigned),
            entry("F16_ALIGNED", 16, Shape::Float),
            entry("F32_ALIGNED", 32, Shape::Float),
            entry("F64_ALIGNED", 64, Shape::Float),
            entry("S16_TWOS_ALIGNED", 16, Shape::Twos),
            entry("S16_SIGNMAG_ALIGNED", 16, Shape::SignMagnitude),
            entry("S16_ONES_ALIGNED", 16, Shape::Ones),
            entry("U64_ALIGNED", 64, Shape::Unsigned),
            entry("S63_TWOS_ALIGNED", 63, Shape::Twos),
            entry("PAD_1", 1, Shape::Unsigned),
        ],
    }]
}

fn header(apid: u64) -> Vec<Entry> {
    vec![
        entry("VERSION", 3, Shape::Criterion(0)),
        entry("TYPE", 1, Shape::Unsigned),
        entry("SEC_HDR_FLAG", 1, Shape::Unsigned),
        entry("PKT_APID", 11, Shape::Criterion(apid)),
        entry("SEQ_FLGS", 2, Shape::Unsigned),
        entry("SEQ_CTR", 14, Shape::Unsigned),
        entry("PKT_LEN", 16, Shape::Unsigned),
    ]
}

fn flight_shapes() -> Vec<Definition> {
    let mut report = header(100);
    report.extend([
        entry("MODE", 3, Shape::Labels(&[(0, "SAFE"), (1, "NOMINAL"), (2, "SCIENCE")])),
        entry("HEATER_ON", 1, Shape::Flag),
        entry("SPARE_4", 4, Shape::Unsigned),
        entry("BUILD_ID", 64, Shape::Whole),
        entry("LABEL", 128, Shape::Terminated),
        entry("NOTE", 128, Shape::Counted(16)),
        entry("BLOB", 64, Shape::Bytes),
        entry("TEMP", 16, Shape::Twos),
        entry("COUNT", 32, Shape::Unsigned),
    ]);
    let mut beacon = header(101);
    beacon.extend([
        entry("FLAG_A", 1, Shape::Unsigned),
        entry("SMALL", 7, Shape::Unsigned),
        entry("WIDE_ODD", 57, Shape::Unsigned),
        entry("ONES_ODD", 16, Shape::Ones),
        entry("SIGNMAG_ODD", 16, Shape::SignMagnitude),
        entry("F32_ODD", 32, Shape::Float),
        entry("F64_ODD", 64, Shape::Float),
        entry("F16_ODD", 16, Shape::Float),
        entry("BAUD", 2, Shape::Labels(&[(0, "9600"), (1, "19200"), (2, "57600"), (3, "115200")])),
        entry("TAIL_PAD", 16, Shape::Unsigned),
        entry("PAD_5", 5, Shape::Unsigned),
    ]);
    vec![
        Definition { container: "StatusReport", entries: report },
        Definition { container: "Beacon", entries: beacon },
    ]
}

fn jpss() -> Vec<Definition> {
    let mut entries = vec![
        entry("VERSION", 3, Shape::Criterion(0)),
        entry("TYPE", 1, Shape::Criterion(0)),
        entry("SEC_HDR_FLAG", 1, Shape::Unsigned),
        entry("PKT_APID", 11, Shape::Criterion(11)),
        entry("SEQ_FLGS", 2, Shape::Unsigned),
        entry("SRC_SEQ_CTR", 14, Shape::Unsigned),
        entry("PKT_LEN", 16, Shape::Unsigned),
        entry("DOY", 16, Shape::Unsigned),
        entry("MSEC", 32, Shape::Unsigned),
        entry("USEC", 16, Shape::Unsigned),
        entry("ADAESCID", 8, Shape::Unsigned),
        entry("ADAET1DAY", 16, Shape::Unsigned),
        entry("ADAET1MS", 32, Shape::Unsigned),
        entry("ADAET1US", 16, Shape::Unsigned),
    ];
    for name in
        ["ADGPSPOSX", "ADGPSPOSY", "ADGPSPOSZ", "ADGPSVELX", "ADGPSVELY", "ADGPSVELZ"]
    {
        entries.push(entry(name, 32, Shape::Float));
    }
    entries.extend([
        entry("ADAET2DAY", 16, Shape::Unsigned),
        entry("ADAET2MS", 32, Shape::Unsigned),
        entry("ADAET2US", 16, Shape::Unsigned),
    ]);
    for name in ["ADCFAQ1", "ADCFAQ2", "ADCFAQ3", "ADCFAQ4"] {
        entries.push(entry(name, 32, Shape::Float));
    }
    vec![Definition { container: "JPSS_ATT_EPHEM", entries }]
}

fn byte_order() -> Vec<Definition> {
    vec![Definition {
        container: "Telemetry",
        entries: vec![
            little("SEL", 16, Shape::Criterion(0x0102)),
            little("U16_LE", 16, Shape::Unsigned),
            little("U24_LE", 24, Shape::Unsigned),
            little("U32_LE", 32, Shape::Unsigned),
            little("U64_LE", 64, Shape::Unsigned),
            little("S16_LE", 16, Shape::Twos),
            little("S32_LE", 32, Shape::Twos),
            little("F16_LE", 16, Shape::Float),
            little("F32_LE", 32, Shape::Float),
            little("F64_LE", 64, Shape::Float),
            little("U8_LE", 8, Shape::Unsigned),
            entry("NIB", 4, Shape::Unsigned),
            little("U16_LE_ODD", 16, Shape::Unsigned),
            entry("PAD_4", 4, Shape::Unsigned),
            entry("U16_BE", 16, Shape::Unsigned),
            entry("F32_BE", 32, Shape::Float),
        ],
    }]
}

fn arrays() -> Vec<Definition> {
    let mut entries = vec![entry("LEAD", 8, Shape::Unsigned)];
    for name in ["TEMPS[0]", "TEMPS[1]", "TEMPS[2]", "TEMPS[3]", "TEMPS[4]", "TEMPS[5]"] {
        entries.push(entry(name, 16, Shape::Twos));
    }
    entries.push(entry("MIDDLE", 8, Shape::Unsigned));
    for name in
        ["GRID[0][0]", "GRID[0][1]", "GRID[0][2]", "GRID[1][0]", "GRID[1][1]", "GRID[1][2]"]
    {
        entries.push(entry(name, 8, Shape::Unsigned));
    }
    for name in ["WINDOW[3]", "WINDOW[4]", "WINDOW[5]"] {
        entries.push(entry(name, 8, Shape::Unsigned));
    }
    for name in ["BITS[0]", "BITS[1]", "BITS[2]", "BITS[3]", "BITS[4]", "BITS[5]"] {
        entries.push(entry(name, 4, Shape::Unsigned));
    }
    for name in ["FLOATS[0]", "FLOATS[1]", "FLOATS[2]"] {
        entries.push(entry(name, 32, Shape::Float));
    }
    entries.push(entry("TAIL", 8, Shape::Unsigned));
    vec![Definition { container: "Telemetry", entries }]
}

fn aggregates() -> Vec<Definition> {
    vec![Definition {
        container: "Telemetry",
        entries: vec![
            entry("LEAD", 8, Shape::Unsigned),
            entry("RAIL.voltage", 32, Shape::Float),
            entry("RAIL.current", 32, Shape::Float),
            entry("RAIL.ok", 8, Shape::Unsigned),
            entry("RAILS[0].voltage", 32, Shape::Float),
            entry("RAILS[0].current", 32, Shape::Float),
            entry("RAILS[0].ok", 8, Shape::Unsigned),
            entry("RAILS[1].voltage", 32, Shape::Float),
            entry("RAILS[1].current", 32, Shape::Float),
            entry("RAILS[1].ok", 8, Shape::Unsigned),
            entry("STATE.mode", 8, Shape::Unsigned),
            entry("STATE.samples[0]", 16, Shape::Twos),
            entry("STATE.samples[1]", 16, Shape::Twos),
            entry("STATE.samples[2]", 16, Shape::Twos),
            entry("STATE.flags", 4, Shape::Unsigned),
            entry("PAD_4", 4, Shape::Unsigned),
            entry("TAIL", 8, Shape::Unsigned),
        ],
    }]
}

fn commands() -> Vec<Definition> {
    vec![
        Definition {
            container: "SetGainContainer",
            entries: vec![
                entry("SYNC", 32, Shape::Fixed(0x1ACF_FC1D)),
                entry("OPCODE", 8, Shape::Criterion(1)),
                entry("SEQ_COUNT", 16, Shape::Unsigned),
                entry("POWER", 4, Shape::Labels(&[(0, "OFF"), (1, "ON")])),
                entry("", 4, Shape::Fixed(0)),
                entry("CHANNEL", 8, Shape::Unsigned),
                entry("GAIN", 32, Shape::Float),
                entry("TRIM", 16, Shape::Twos),
                entry("TRAILER", 16, Shape::Fixed(0xBEEF)),
            ],
        },
        Definition {
            container: "PowerOnContainer",
            entries: vec![
                entry("SYNC", 32, Shape::Fixed(0x1ACF_FC1D)),
                entry("OPCODE", 8, Shape::Criterion(2)),
                entry("SEQ_COUNT", 16, Shape::Unsigned),
                entry("POWER", 4, Shape::Criterion(1)),
                entry("", 4, Shape::Fixed(0)),
                entry("DURATION", 16, Shape::Unsigned),
                entry("TRAILER", 16, Shape::Fixed(0xBEEF)),
            ],
        },
    ]
}

// -----------------------------------------------------------------------------------------
// The tests
// -----------------------------------------------------------------------------------------

#[test]
fn every_numeric_shape_survives_the_interpreter() {
    let checked = check(&numeric_edges(), &alone(numeric_edges_container()), 256);
    assert!(checked > 5_000, "only {checked} field(s) compared");
}

#[test]
fn inheritance_enumerations_and_strings_survive_the_interpreter() {
    let checked = check(&flight_shapes(), &flight_shapes_layout(), 256);
    assert!(checked > 5_000, "only {checked} field(s) compared");
}

#[test]
fn a_real_mission_definition_survives_the_interpreter() {
    let checked = check(&jpss(), &alone(jpss_container()), 256);
    assert!(checked > 5_000, "only {checked} field(s) compared");
}

#[test]
fn little_endian_fields_survive_the_interpreter() {
    let checked = check(&byte_order(), &alone(byte_order_container()), 256);
    assert!(checked > 3_000, "only {checked} field(s) compared");
}

#[test]
fn arrays_survive_the_interpreter() {
    let checked = check(&arrays(), &alone(arrays_container()), 256);
    assert!(checked > 6_000, "only {checked} field(s) compared");
}

#[test]
fn aggregates_survive_the_interpreter() {
    let checked = check(&aggregates(), &alone(aggregates_container()), 256);
    assert!(checked > 4_000, "only {checked} field(s) compared");
}

#[test]
fn telecommands_survive_the_interpreter() {
    let checked = check(&commands(), &command_layout(), 256);
    assert_eq!(checked, 256 * 7);
}

// A tree of containers, each selected by a conjunction of conditions on the header and on what the
// containers above it add.

fn planned(name: &str, offset: usize, width: u32, repr: Repr) -> Field {
    Field {
        xtce_name: name.to_owned(),
        ident: name.to_lowercase(),
        span: Some((offset, width)),
        repr,
        swap_bytes: false,
        calibration: None,
        contexts: Vec::new(),
    }
}

fn condition(name: &str, offset: usize, width: u32, value: i128) -> Guard {
    Guard {
        xtce_name: name.to_owned(),
        ident: name.to_lowercase(),
        bit_offset: offset,
        bit_width: width,
        operator: CompareOp::Equal,
        value,
        swap_bytes: false,
    }
}

fn concrete(name: &str, bits: usize, own: Vec<Field>) -> ContainerPlan {
    let mut fields = vec![
        planned("VERSION", 0, 3, Repr::Unsigned),
        planned("TYPE", 3, 1, Repr::Unsigned),
        planned("SEC_HDR_FLAG", 4, 1, Repr::Unsigned),
        planned("PKT_APID", 5, 11, Repr::Unsigned),
        planned("SEQ_FLGS", 16, 2, Repr::Unsigned),
        planned("SEQ_CTR", 18, 14, Repr::Unsigned),
    ];
    fields.extend(own);
    ContainerPlan {
        xtce_name: name.to_owned(),
        bit_length: Some(bits),
        fields,
        fixed: Vec::new(),
    }
}

fn leaf(plan: usize) -> Node {
    Node { plan: Some(plan), children: Vec::new() }
}

fn contrived_plan() -> Plan {
    let twos = || Repr::Signed(IntegerCoding::TwosComplement);
    Plan {
        containers: vec![
            concrete(
                "Sci0TypeNonZero",
                80,
                vec![
                    planned("SCI_TYPE", 32, 8, Repr::Unsigned),
                    planned("SCI_A", 40, 16, twos()),
                    planned("SCI_B", 56, 24, Repr::Unsigned),
                ],
            ),
            concrete(
                "Sci0TypeZero",
                72,
                vec![
                    planned("SCI_TYPE", 32, 8, Repr::Unsigned),
                    planned("SCI_C", 40, 32, Repr::Float32),
                ],
            ),
            concrete("Housekeeping", 48, vec![planned("HK", 32, 16, Repr::Unsigned)]),
            concrete("Unsecured", 40, vec![planned("FLAGS", 32, 8, Repr::Unsigned)]),
        ],
        root: Node {
            plan: None,
            children: vec![
                (
                    vec![condition("VERSION", 0, 3, 0), condition("SEC_HDR_FLAG", 4, 1, 1)],
                    Node {
                        plan: None,
                        children: vec![
                            (
                                vec![condition("PKT_APID", 5, 11, 11)],
                                Node {
                                    plan: None,
                                    children: vec![
                                        (vec![condition("SCI_TYPE", 32, 8, 7)], leaf(0)),
                                        (vec![condition("SCI_TYPE", 32, 8, 0)], leaf(1)),
                                    ],
                                },
                            ),
                            (vec![condition("PKT_APID", 5, 11, 12)], leaf(2)),
                        ],
                    },
                ),
                (
                    vec![condition("VERSION", 0, 3, 0), condition("SEC_HDR_FLAG", 4, 1, 0)],
                    leaf(3),
                ),
            ],
        },
        root_name: "CCSDSPacket".to_owned(),
    }
}

fn contrived() -> Vec<Definition> {
    let head = |secondary: u64, apid: Shape| {
        vec![
            entry("VERSION", 3, Shape::Criterion(0)),
            entry("TYPE", 1, Shape::Unsigned),
            entry("SEC_HDR_FLAG", 1, Shape::Criterion(secondary)),
            entry("PKT_APID", 11, apid),
            entry("SEQ_FLGS", 2, Shape::Unsigned),
            entry("SEQ_CTR", 14, Shape::Unsigned),
        ]
    };
    let mut nonzero = head(1, Shape::Criterion(11));
    nonzero.extend([
        entry("SCI_TYPE", 8, Shape::Criterion(7)),
        entry("SCI_A", 16, Shape::Twos),
        entry("SCI_B", 24, Shape::Unsigned),
    ]);
    let mut zero = head(1, Shape::Criterion(11));
    zero.extend([
        entry("SCI_TYPE", 8, Shape::Criterion(0)),
        entry("SCI_C", 32, Shape::Float),
    ]);
    let mut housekeeping = head(1, Shape::Criterion(12));
    housekeeping.push(entry("HK", 16, Shape::Unsigned));
    let mut unsecured = head(0, Shape::Unsigned);
    unsecured.push(entry("FLAGS", 8, Shape::Unsigned));
    vec![
        Definition { container: "Sci0TypeNonZero", entries: nonzero },
        Definition { container: "Sci0TypeZero", entries: zero },
        Definition { container: "Housekeeping", entries: housekeeping },
        Definition { container: "Unsecured", entries: unsecured },
    ]
}

#[test]
fn a_container_selected_by_conditions_round_trips() {
    let layout = xtce_flight::layout(&Ok(contrived_plan())).expect("compiles");
    assert_eq!(layout.containers.len(), 4);
    assert_eq!(layout.containers[0].constants.len(), 4);
    let checked = check(&contrived(), &layout, 128);
    assert!(checked > 2_000, "only {checked} field(s) compared");
}

fn named(container: &Container, ident: &str) -> usize {
    container.fields.iter().position(|field| field.ident == ident).expect("a field")
}

/// A beacon of zeros.
fn blank_beacon(container: &Container) -> Vec<Value<'static>> {
    container
        .fields
        .iter()
        .map(|field| match field.kind {
            Kind::Signed(_) => Value::Signed(0),
            Kind::Float16 | Kind::Float32 => Value::Single(0),
            Kind::Float64 => Value::Double(0),
            Kind::Enumerated(_) => Value::Enumerated(0),
            _ => Value::Unsigned(0),
        })
        .collect()
}

#[test]
fn a_value_that_does_not_fit_is_refused() {
    let layout = flight_shapes_layout();
    let beacon = &layout.containers[1];
    let mut buffer = vec![0u8; beacon.len_bytes];
    let mut values = blank_beacon(beacon);
    assert!(
        encode(beacon, &layout.enums, &values, &mut buffer).is_ok(),
        "the control case encodes"
    );

    // SMALL is seven bits, so 127 is the largest value it can hold.
    let small = named(beacon, "small");
    values[small] = Value::Unsigned(127);
    assert!(encode(beacon, &layout.enums, &values, &mut buffer).is_ok());
    values[small] = Value::Unsigned(128);
    assert_eq!(
        encode(beacon, &layout.enums, &values, &mut buffer),
        Err(EncodeError::OutOfRange { parameter: "SMALL" })
    );

    // Ones' complement spends a bit on the sign and has two zeros, so it is one short of two's
    // complement at the bottom.
    values[small] = Value::Unsigned(0);
    let ones = named(beacon, "ones_odd");
    values[ones] = Value::Signed(i64::from(i16::MIN));
    assert_eq!(
        encode(beacon, &layout.enums, &values, &mut buffer),
        Err(EncodeError::OutOfRange { parameter: "ONES_ODD" })
    );
    values[ones] = Value::Signed(i64::from(i16::MIN + 1));
    assert!(encode(beacon, &layout.enums, &values, &mut buffer).is_ok());
}

#[test]
fn a_short_buffer_is_refused() {
    let layout = flight_shapes_layout();
    let beacon = &layout.containers[1];
    let values = blank_beacon(beacon);
    let mut buffer = vec![0u8; beacon.len_bytes - 1];
    assert_eq!(
        encode(beacon, &layout.enums, &values, &mut buffer),
        Err(EncodeError::TooShort { needed: beacon.len_bytes })
    );
}

/// A status report with the given strings and bytes.
fn report<'a>(build_id: &'a str, label: &'a str, note: &'a str, blob: &'a [u8]) -> Vec<Value<'a>> {
    vec![
        Value::Unsigned(0),
        Value::Unsigned(0),
        Value::Unsigned(0),
        Value::Unsigned(0),
        Value::Unsigned(0),
        Value::Enumerated(1),
        Value::Bool(true),
        Value::Unsigned(0),
        Value::Text(build_id),
        Value::Text(label),
        Value::Text(note),
        Value::Binary(blob),
        Value::Signed(-40),
        Value::Unsigned(7),
    ]
}

#[test]
fn string_fields_have_to_fit_exactly_or_be_terminated() {
    let layout = flight_shapes_layout();
    let container = &layout.containers[0];
    let mut buffer = vec![0u8; container.len_bytes];
    let blob = [1, 2, 3, 4, 5, 6, 7, 8];
    let mut try_with = |build_id: &str, label: &str, note: &str, blob: &[u8]| {
        encode(container, &layout.enums, &report(build_id, label, note, blob), &mut buffer)
    };
    assert!(
        try_with("v1.2.3xy", "hello", "note", &blob).is_ok(),
        "the control case encodes"
    );

    // BUILD_ID is the whole buffer, eight bytes of it, so it has to be filled exactly.
    assert_eq!(
        try_with("short", "hello", "note", &blob),
        Err(EncodeError::TextLength { parameter: "BUILD_ID" })
    );

    // LABEL is terminated by a NUL, which therefore cannot appear inside it.
    assert_eq!(
        try_with("v1.2.3xy", "he\0llo", "note", &blob),
        Err(EncodeError::EmbeddedTerminator { parameter: "LABEL" })
    );

    // NOTE is US-ASCII, so a character outside it is refused rather than mangled.
    assert_eq!(
        try_with("v1.2.3xy", "hello", "ąę", &blob),
        Err(EncodeError::InvalidText { parameter: "NOTE" })
    );

    assert_eq!(
        try_with("v1.2.3xy", "hello", "note", &[1, 2, 3]),
        Err(EncodeError::BinaryLength { parameter: "BLOB" })
    );
}

#[test]
fn decoded_text_borrows_from_the_packet() {
    let layout = flight_shapes_layout();
    let container = &layout.containers[0];
    let (_, bytes) = case(container, &layout.enums, 1);
    let decoded = decode(container, &layout.enums, &bytes).expect("decodes");

    let packet = bytes.as_ptr() as usize;
    let end = packet + bytes.len();
    let mut borrowed = 0;
    for value in &decoded {
        let pointer = match value {
            Value::Text(text) => text.as_ptr() as usize,
            Value::Binary(bytes) => bytes.as_ptr() as usize,
            _ => continue,
        };
        borrowed += 1;
        assert!(
            (packet..end).contains(&pointer),
            "a decoded value was copied instead of borrowed"
        );
    }
    assert_eq!(borrowed, 4);
}

#[test]
fn the_dispatcher_chooses_by_restriction_criteria() {
    let layout = flight_shapes_layout();
    let (_, report) = case(&layout.containers[0], &layout.enums, 7);
    let (_, beacon) = case(&layout.containers[1], &layout.enums, 7);

    assert_eq!(dispatch(&layout, &report).expect("a StatusReport decodes").0, 0);
    assert_eq!(dispatch(&layout, &beacon).expect("a Beacon decodes").0, 1);

    // APID 999 belongs to neither.
    let mut stranger = beacon.clone();
    stranger[0] = 0x03;
    stranger[1] = 0xE7;
    assert_eq!(dispatch(&layout, &stranger), Err(DecodeError::Unrecognized));
}

fn half_to_f32(bits: u16) -> f32 {
    f32::from_bits(half_to_f32_bits(bits))
}

fn f32_to_half(value: f32) -> u16 {
    f32_bits_to_half(value.to_bits())
}

#[test]
fn binary16_round_trips_through_every_encoding() {
    let mut subnormals = 0usize;
    for bits in 0..=u16::MAX {
        // Infinities and NaNs are left out: a NaN encodes to a NaN, but not always to the same
        // payload.
        if (bits >> 10) & 0x1F == 0x1F {
            continue;
        }
        if (bits >> 10) & 0x1F == 0 && bits & 0x03FF != 0 {
            subnormals += 1;
        }
        let widened = half_to_f32(bits);
        assert_eq!(
            f64::from(widened),
            half_value(bits),
            "half_to_f32({bits:#06x}) is not the value the format defines"
        );
        assert_eq!(
            f32_to_half(widened),
            bits,
            "f32_to_half did not return {bits:#06x} to where it came from"
        );
    }
    assert_eq!(subnormals, 2046, "every subnormal encoding should have been covered");
}

#[test]
fn binary16_narrowing_rounds_to_nearest_even() {
    // Halfway between the two smallest normals, 2^-14 and 2^-14 * (1 + 1/1024): the tie goes to
    // the even encoding, which is the lower one.
    let low = half_to_f32(0x0400);
    let high = half_to_f32(0x0401);
    assert_eq!(f32_to_half((low + high) / 2.0), 0x0400);

    // The same halfway step one encoding up, where the even neighbour is the higher one.
    let low = half_to_f32(0x0401);
    let high = half_to_f32(0x0402);
    assert_eq!(f32_to_half((low + high) / 2.0), 0x0402);

    // Above the largest finite binary16, 65504, narrowing saturates to infinity rather than
    // wrapping to something small.
    assert_eq!(f32_to_half(70000.0), 0x7C00);
    assert_eq!(f32_to_half(-70000.0), 0xFC00);

    // Far below the smallest subnormal, the nearest is a signed zero.
    assert_eq!(f32_to_half(1e-30), 0x0000);
    assert_eq!(f32_to_half(-1e-30), 0x8000);
}
