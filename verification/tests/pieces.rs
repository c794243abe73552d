//! The smaller pieces, on exact values.

use xtce_flight::bits::{mask_for, natural_bits, read_bits, write_bits};
use xtce_flight::builder::build;
use xtce_flight::codec::{decode, encode, find, DecodeError, EncodeError, Value};
use xtce_flight::emit::clean::{is_clean, word};
use xtce_flight::emit::decode::{decode_body, matches_body};
use xtce_flight::emit::encode::{encode_body, range_check};
use xtce_flight::emit::format::path_prints;
use xtce_flight::emit::{assemble, header, module, unformatted};
use xtce_flight::half::{f32_bits_to_half, half_to_f32_bits};
use xtce_flight::layout::{Container, EnumType, FlightField, Kind, Layout};
use xtce_flight::missions::commands::command_layout;
use xtce_flight::missions::flight_shapes::flight_shapes_layout;
use xtce_flight::names::{decimal, signed_decimal, snake, type_ident, unique};
use xtce_flight::plan::{
    Calibration, CompareOp, ContainerPlan, Field, Guard, IntegerCoding, Node, Plan, Repr,
    TextCharset, TextDelimiter,
};
use xtce_flight::report::summary;
use xtce_flight::scalar::{
    check_signed, raw_from_signed, reverse_bytes, signed_from_raw, swap_field_bytes,
};
use xtce_flight::structure::{counts, fits};

#[test]
fn bits_are_read_and_written_where_they_are() {
    let data = [0b1010_0101, 0b1100_0011, 0xFF, 0, 0x12, 0x34, 0x56, 0x78, 0x9A, 0xBC];
    assert_eq!(read_bits(&data, 0, 4), 0b1010);
    assert_eq!(read_bits(&data, 3, 7), 0b0_0101_11);
    assert_eq!(read_bits(&data, 4, 16), 0b0101_1100_0011_1111);
    assert_eq!(read_bits(&data, 7, 64), 0xE1FF_8009_1A2B_3C4D);
    let mut out = data;
    write_bits(&mut out, 12, 9, 0);
    assert_eq!(out[1..3], [0b1100_0011, 0xFF], "bits are laid over what is there");
    let mut out = [0u8; 9];
    write_bits(&mut out, 3, 64, u64::MAX);
    assert_eq!(out, [0x1F, 0xFF, 0xFF, 0xFF, 0xFF, 0xFF, 0xFF, 0xFF, 0xE0]);
    assert_eq!(read_bits(&out, 3, 64), u64::MAX);
    assert_eq!((mask_for(1), mask_for(12), mask_for(64)), (1, 0xFFF, u64::MAX));
    let widths = [1, 8, 9, 16, 17, 32, 33, 64].map(natural_bits);
    assert_eq!(widths, [8, 8, 16, 16, 32, 32, 64, 64]);
}

#[test]
fn each_coding_has_its_own_bits() {
    use_coding(IntegerCoding::TwosComplement, -5, 0xFFB);
    use_coding(IntegerCoding::SignMagnitude, -5, 0x805);
    use_coding(IntegerCoding::OnesComplement, -5, 0xFFA);
    use_coding(IntegerCoding::TwosComplement, -2048, 0x800);
    use_coding(IntegerCoding::SignMagnitude, 2047, 0x7FF);
    assert!(!check_signed(IntegerCoding::SignMagnitude, 12, -2048));
    assert!(!check_signed(IntegerCoding::OnesComplement, 12, -2048));
    assert!(!check_signed(IntegerCoding::TwosComplement, 12, 2048));
    // The other zero.
    assert_eq!(signed_from_raw(IntegerCoding::SignMagnitude, 12, 0x800), 0);
    assert_eq!(signed_from_raw(IntegerCoding::OnesComplement, 12, 0xFFF), 0);
    // A field without a sign bit has negatives only where its Rust type brings them.
    use_coding(IntegerCoding::Unsigned, 2047, 0x7FF);
    assert!(check_signed(IntegerCoding::Unsigned, 12, 0));
    assert!(!check_signed(IntegerCoding::Unsigned, 12, -1));
    assert!(!check_signed(IntegerCoding::Unsigned, 12, 2048));
    assert!(check_signed(IntegerCoding::Unsigned, 16, -1));
    assert_eq!(raw_from_signed(IntegerCoding::Unsigned, 16, -1), 0xFFFF);
    assert_eq!(signed_from_raw(IntegerCoding::Unsigned, 16, 0xFFFF), -1);
    assert!(check_signed(IntegerCoding::TwosComplement, 64, i64::MIN));
    assert_eq!(raw_from_signed(IntegerCoding::TwosComplement, 64, -1), u64::MAX);
}

fn use_coding(coding: IntegerCoding, value: i64, raw: u64) {
    assert!(check_signed(coding, 12, value));
    assert_eq!(raw_from_signed(coding, 12, value), raw);
    assert_eq!(signed_from_raw(coding, 12, raw), value);
}

#[test]
fn reversing_bytes_is_its_own_inverse() {
    assert_eq!(reverse_bytes(0x0102_03, 3), 0x0302_01);
    assert_eq!(swap_field_bytes(0x0201, 16), 0x0102);
    assert_eq!(swap_field_bytes(0x1122_3344_5566_7788, 64), 0x8877_6655_4433_2211);
    for width in [8, 16, 24, 32, 40, 48, 56, 64] {
        let value = 0x0123_4567_89AB_CDEF & mask_for(width);
        assert_eq!(swap_field_bytes(swap_field_bytes(value, width), width), value);
    }
}

#[test]
fn binary16_keeps_infinities_and_quiets_nans() {
    assert_eq!(half_to_f32_bits(0x7C00), f32::INFINITY.to_bits());
    assert_eq!(half_to_f32_bits(0xFC00), f32::NEG_INFINITY.to_bits());
    assert_eq!(half_to_f32_bits(0x7E01), 0x7FC0_2000);
    assert_eq!(f32_bits_to_half(f32::INFINITY.to_bits()), 0x7C00);
    assert_eq!(f32_bits_to_half(0x7F80_0001), 0x7E00);
    assert_eq!(f32_bits_to_half(65504f32.to_bits()), 0x7BFF);
    // Halfway to the next power of two, and just below it.
    assert_eq!(f32_bits_to_half(65520f32.to_bits()), 0x7C00);
    assert_eq!(f32_bits_to_half(65519f32.to_bits()), 0x7BFF);
    // The smallest subnormal, one and a half of it, and just less than it.
    assert_eq!(f32_bits_to_half(2f32.powi(-24).to_bits()), 0x0001);
    assert_eq!(f32_bits_to_half((1.5 * 2f32.powi(-24)).to_bits()), 0x0002);
    assert_eq!(f32_bits_to_half(2f32.powi(-24).to_bits() - 1), 0x0001);
    // Three quarters of it, half of it, which is a tie, and just more and just less than half.
    assert_eq!(f32_bits_to_half(0x3340_0000), 0x0001);
    assert_eq!(f32_bits_to_half(0xB340_0000), 0x8001);
    assert_eq!(f32_bits_to_half(0x3300_0000), 0x0000);
    assert_eq!(f32_bits_to_half(0x3300_0001), 0x0001);
    assert_eq!(f32_bits_to_half(0x32FF_FFFF), 0x0000);
    assert_eq!(f32_bits_to_half(1), 0x0000);
}

#[test]
fn names_become_identifiers() {
    assert_eq!(type_ident("straße_ÉTÉ"), "StraßeÉté");
    assert_eq!(type_ident("ßx"), "SSx");
    assert_eq!(type_ident("a b-c.d"), "ABCD");
    assert_eq!(type_ident("123abc"), "C123abc");
    assert_eq!(type_ident(""), "Value");
    assert_eq!(snake("StatusReport"), "status_report");
    assert_eq!(snake("C9600"), "c9600");
    assert_eq!(snake("ÉtéX"), "été_x");
    assert_eq!(decimal(u128::from(u64::MAX)), "18446744073709551615");
    assert_eq!(signed_decimal(-40), "-40");
    assert_eq!(signed_decimal(0), "0");
}

#[test]
fn a_name_is_handed_out_once() {
    let mut taken = Vec::new();
    let names = ["Mode", "Mode", "Other", "Mode"].map(|base| unique(&mut taken, base.to_owned()));
    assert_eq!(names, ["Mode", "Mode2", "Other", "Mode3"]);
    let names = ["A", "A", "A2", "A2", "A"].map(|base| unique(&mut taken, base.to_owned()));
    assert_eq!(names, ["A", "A2", "A22", "A23", "A3"]);
    assert_eq!(taken.len(), 9);
}

#[test]
fn the_first_occurrence_is_found() {
    assert_eq!(find(b"aabaab", b"ab"), Some(1));
    assert_eq!(find(b"aabaab", b"b"), Some(2));
    assert_eq!(find(b"ab", b"abc"), None);
    assert_eq!(find(b"ab", b""), None);
    assert_eq!(find(b"", b""), None);
}

fn one_text(terminator: &[u8]) -> Container {
    Container {
        xtce_name: "T".to_owned(),
        type_ident: "T".to_owned(),
        len_bytes: 8,
        fields: vec![FlightField {
            xtce_name: "TEXT".to_owned(),
            ident: "text".to_owned(),
            bit_offset: 0,
            bit_width: 64,
            kind: Kind::Text {
                charset: TextCharset::Utf8,
                delimiter: TextDelimiter::TerminationChar(terminator.to_vec()),
            },
            swap_bytes: false,
            calibration: None,
            contexts: Vec::new(),
        }],
        constants: Vec::new(),
        fixed: Vec::new(),
        borrows: true,
    }
}

/// A terminator that is found before the end of its text is refused, also where it only begins
/// inside the text.
#[test]
fn a_terminator_cannot_begin_inside_the_text() {
    let enums: Vec<EnumType> = Vec::new();
    let mut out = [0u8; 8];
    let narrow = one_text(b";");
    assert_eq!(encode(&narrow, &enums, &[Value::Text("abc")], &mut out), Ok(8));
    assert_eq!(decode(&narrow, &enums, &out), Ok(vec![Value::Text("abc")]));
    let wide = one_text(b";;");
    for text in ["abc;", "abc;;", ";;", ";"] {
        assert_eq!(
            encode(&wide, &enums, &[Value::Text(text)], &mut out),
            Err(EncodeError::EmbeddedTerminator { parameter: "TEXT" })
        );
    }
    let zeros = one_text(&[0, 0]);
    assert_eq!(
        encode(&zeros, &enums, &[Value::Text("a\0")], &mut out),
        Err(EncodeError::EmbeddedTerminator { parameter: "TEXT" })
    );
    // The start of a terminator that is not completed is text like any other.
    let mixed = one_text(b"\r\n");
    for text in ["", "a;b", "ab\r", "\r\r", "\n\r"] {
        assert_eq!(encode(&mixed, &enums, &[Value::Text(text)], &mut out), Ok(8));
        assert_eq!(decode(&mixed, &enums, &out), Ok(vec![Value::Text(text)]));
    }
}

#[test]
fn two_containers_that_both_match_are_ambiguous() {
    let mut layout = flight_shapes_layout();
    let mut again = flight_shapes_layout();
    layout.containers.push(again.containers.pop().expect("a beacon"));
    let mut out = [0u8; 35];
    xtce_flight::missions::encode_beacon(&mut out);
    assert_eq!(xtce_flight::codec::dispatch(&layout, &out), Err(DecodeError::Ambiguous));
}

/// Fixed values are written, and a decoder does not look at them.
#[test]
fn a_damaged_marker_does_not_matter_to_a_decoder() {
    let layout = command_layout();
    let container = &layout.containers[1];
    let mut out = [0u8; 12];
    let values = [Value::Unsigned(7), Value::Unsigned(9)];
    assert_eq!(encode(container, &layout.enums, &values, &mut out), Ok(12));
    assert_eq!(out[..4], [0x1A, 0xCF, 0xFC, 0x1D]);
    out[0] = 0;
    out[11] = 0;
    assert_eq!(xtce_flight::codec::dispatch(&layout, &out), Ok((1, values.to_vec())));
}

#[test]
fn a_summary_lines_up() {
    assert_eq!(
        summary(&flight_shapes_layout(), "flight_shapes.xml"),
        "flight_shapes.xml\n  rooted at CCSDSPacket: 2 container(s), 2 enumeration(s)\n  \
         StatusReport                      61 byte(s)   14 field(s)   2 criterion(s)\n  \
         Beacon                            35 byte(s)   16 field(s)   2 criterion(s)\n"
    );
}

fn plan_with(span: (usize, u32), guard_width: u32) -> Plan {
    Plan {
        containers: vec![ContainerPlan {
            xtce_name: "C".to_owned(),
            bit_length: Some(16),
            fields: vec![Field {
                xtce_name: "F".to_owned(),
                ident: "f".to_owned(),
                span: Some(span),
                repr: Repr::Unsigned,
                swap_bytes: false,
                calibration: None,
                contexts: Vec::new(),
            }],
            fixed: Vec::new(),
        }],
        root: Node {
            plan: None,
            children: vec![(
                vec![Guard {
                    xtce_name: "G".to_owned(),
                    ident: "g".to_owned(),
                    bit_offset: 0,
                    bit_width: guard_width,
                    operator: CompareOp::Equal,
                    value: 1,
                    swap_bytes: false,
                }],
                Node { plan: Some(0), children: Vec::new() },
            )],
        },
        root_name: "C".to_owned(),
    }
}

#[test]
fn a_plan_is_held_to_its_containers() {
    assert!(fits(&plan_with((8, 8), 8)) && counts(&plan_with((8, 8), 8)));
    assert!(!fits(&plan_with((9, 8), 8)) && counts(&plan_with((9, 8), 8)));
    assert!(!fits(&plan_with((8, 8), 17)) && counts(&plan_with((8, 8), 17)));
    assert!(!counts(&plan_with((8, 8), 0)));
    assert!(!counts(&plan_with((usize::MAX, 8), 8)));
}

#[test]
fn a_plan_that_points_nowhere_is_inconsistent() {
    let mut plan = plan_with((8, 8), 8);
    plan.containers.clear();
    let error = build(&plan).expect_err("nothing there");
    assert_eq!(error.message(), "internal: an index in the plan does not resolve");
}

/// What the parser does not take is given out as its tokens are printed.
#[test]
fn source_that_does_not_parse_is_printed_token_by_token() {
    let layout: Layout = command_layout();
    assert!(is_clean(&layout));
    let printed = |layout: &Layout| {
        let tokens: proc_macro2::TokenStream = unformatted(layout).parse().expect("tokens");
        tokens.to_string()
    };
    assert!(!module(&layout, "x").ends_with(&printed(&layout)));
    let mut odd = command_layout();
    odd.containers[0].type_ident = "Self".to_owned();
    assert!(is_clean(&odd));
    let source = module(&odd, "x");
    assert_eq!(source, format!("{}{}", header(&odd, "x"), printed(&odd)));
    assert!(source.contains("# [derive (Clone , Copy , PartialEq , Debug)] pub struct Self {"));
    assert!(source.contains("# [doc = r\" Encoded size, in bytes.\"] pub const LEN : usize ="));
    let harness = xtce_flight::harness::generate(&layout, "a b");
    assert!(harness.contains("let packet = a b :: SetGainContainer { "), "{harness}");
    // What is not made of tokens is left as it was rendered.
    odd.containers[0].fields[0].ident = "seq \"count".to_owned();
    assert!(!is_clean(&odd));
    assert!(module(&odd, "x").ends_with(&unformatted(&odd)));
}

#[test]
fn names_with_quotes_are_quoted_in_the_source() {
    let mut layout = command_layout();
    layout.containers[0].fields[1].xtce_name = "SEQ \"COUNT\" \\".to_owned();
    let source = unformatted(&layout);
    assert!(source.contains(r#"parameter: "SEQ \"COUNT\" \\""#), "{source}");
}

/// What the formatter gives stands behind the header, and the plain source where it gives nothing.
#[test]
fn a_module_is_a_header_and_a_body() {
    let layout = command_layout();
    let head = header(&layout, "x");
    let (given, other) = (Some("body".to_owned()), Some("tokens".to_owned()));
    assert_eq!(assemble(&layout, "x", &given, &other), format!("{head}body"));
    assert_eq!(assemble(&layout, "x", &None, &other), format!("{head}tokens"));
    let plain = unformatted(&layout);
    assert_eq!(assemble(&layout, "x", &None, &None), format!("{head}{plain}"));
    let harness = xtce_flight::harness::unformatted(&layout, "crate::flight");
    assert!(harness.contains("crate::flight ::SetGainContainer {"));
    let around = |formatted, printed| {
        xtce_flight::harness::assemble(&layout, "crate::flight", formatted, printed)
    };
    assert_eq!(around(&given, &other), "body");
    assert_eq!(around(&None, &other), "tokens");
    assert_eq!(around(&None, &None), harness);
}

/// Calibrators and fixed values do not reach the code that they are not about.
#[test]
fn the_code_of_a_container_is_about_its_bits() {
    let plain = command_layout();
    let mut changed = command_layout();
    changed.containers[0].fields[2].calibration = Some(Calibration::Polynomial(Vec::new()));
    let (a, b) = (&plain.containers[0], &changed.containers[0]);
    assert_eq!(encode_body(a), encode_body(b));
    assert_eq!(decode_body(a, &plain.enums), decode_body(b, &changed.enums));
    changed.containers[0].fixed.clear();
    let b = &changed.containers[0];
    assert_ne!(encode_body(a), encode_body(b));
    assert_eq!(decode_body(a, &plain.enums), decode_body(b, &changed.enums));
    assert_eq!(matches_body(a), matches_body(b));
}

fn variants(labels: &[&str]) -> Vec<String> {
    let entries = labels
        .iter()
        .enumerate()
        .map(|(value, label)| (value as i128, value as i128, (*label).to_owned()))
        .collect();
    let mut plan = plan_with((8, 8), 8);
    plan.containers[0].fields[0].repr = Repr::Enumerated(entries);
    let layout = build(&plan).expect("compiles");
    layout.enums[0].variants.iter().map(|(ident, _, _)| ident.clone()).collect()
}

/// Labels become different variants, also where one asks for another's name with a number behind
/// it.
#[test]
fn labels_do_not_collide() {
    assert_eq!(variants(&["a", "A", "b", "a"]), ["A", "A2", "B", "A3"]);
    assert_eq!(variants(&["a", "a", "a2"]), ["A", "A2", "A22"]);
    assert_eq!(variants(&["-", "?"]), ["Value0", "Value1"]);
}

fn enumerated(fields: &[(&str, u32, &[(i128, &str)])]) -> Layout {
    let mut plan = plan_with((8, 8), 8);
    plan.containers[0].bit_length = Some(128);
    plan.containers[0].fields.clear();
    let mut offset = 8;
    for (name, width, entries) in fields {
        let entries =
            entries.iter().map(|(value, label)| (*value, *value, (*label).to_owned())).collect();
        plan.containers[0].fields.push(Field {
            xtce_name: (*name).to_owned(),
            ident: (*name).to_owned(),
            span: Some((offset, *width)),
            repr: Repr::Enumerated(entries),
            swap_bytes: false,
            calibration: None,
            contexts: Vec::new(),
        });
        offset += *width as usize;
    }
    build(&plan).expect("compiles")
}

/// Two parameters share a type exactly where their labels, values and bits are the same.
#[test]
fn enumerations_are_told_apart_by_their_entries() {
    let one: &[(i128, &str)] = &[(1, "a"), (2, "b")];
    let layout = enumerated(&[("m", 8, one), ("n", 8, &[(1, "a;2=b")]), ("o", 16, one)]);
    assert_eq!(layout.enums.len(), 2);
    assert_eq!(layout.enums[1].variants, [("A2B".to_owned(), 1, "a;2=b".to_owned())]);
    let kinds: Vec<_> = layout.containers[0].fields.iter().map(|field| &field.kind).collect();
    assert!(matches!(
        kinds[..],
        [Kind::Enumerated(0), Kind::Enumerated(1), Kind::Enumerated(0)]
    ));
}

#[test]
fn a_label_has_the_bits_of_its_own_field() {
    let layout = enumerated(&[("a", 8, &[(-1, "ERR")]), ("b", 16, &[(-1, "ERR")])]);
    assert_eq!(layout.enums.len(), 2);
    assert_eq!(layout.enums[0].variants[0].1, 0xFF);
    assert_eq!(layout.enums[1].variants[0].1, 0xFFFF);
}

/// Containers and enumerations take their names from one list.
#[test]
fn type_names_are_all_different() {
    let mut plan = plan_with((8, 8), 8);
    plan.containers[0].fields[0].ident = "a2".to_owned();
    plan.containers[0].fields[0].repr = Repr::Enumerated(vec![(0, 0, "x".to_owned())]);
    let mut children = Vec::new();
    for (at, name) in ["A", "A", "A2"].into_iter().enumerate() {
        let mut other = plan_with((8, 8), 8).containers.remove(0);
        other.xtce_name = name.to_owned();
        plan.containers.push(other);
        children.push((Vec::new(), Node { plan: Some(at + 1), children: Vec::new() }));
    }
    plan.root.children.append(&mut children);
    let layout = build(&plan).expect("compiles");
    let names: Vec<_> = layout.containers.iter().map(|one| one.type_ident.as_str()).collect();
    assert_eq!(layout.enums[0].type_ident, "A2");
    assert_eq!(names, ["C", "A", "A3", "A22"]);
}

/// The path is spliced token by token.
#[test]
fn a_path_is_made_of_tokens() {
    let layout = command_layout();
    let expected = xtce_flight::harness::generate(&layout, "super::flight");
    assert!(expected.contains("super::flight::SetGainContainer {"), "{expected}");
    for path in ["super :: flight", "super::flight // here", " super::/* a */flight ", "(", "\""] {
        assert_eq!(xtce_flight::harness::generate(&layout, path), expected, "{path}");
    }
    let crate_path = xtce_flight::harness::generate(&layout, "crate ::telemetry");
    assert!(crate_path.contains("crate::telemetry::SetGainContainer {"));
    // Whatever is made of tokens is spliced, and formatted where the formatter takes it.
    for (path, shown) in [
        ("flight :: < u8 >", "flight::<u8>::SetGainContainer {"),
        ("flight::< [u8 ; 2], *const u8 >", "flight::<[u8; 2], *const u8>::SetGainContainer {"),
        ("r#become::flight", "r#become::flight::SetGainContainer {"),
        ("<T as Trait>", "<T as Trait>::SetGainContainer {"),
        ("flight::<fn(u8) -> u8>", "flight::<fn(u8) -> u8>::SetGainContainer {"),
    ] {
        let source = xtce_flight::harness::generate(&layout, path);
        assert!(source.contains(shown), "{source}");
    }
    // What the formatter would stop on is given out as its tokens are printed.
    for path in ["become", "become::flight", "\u{a0}become", "become \u{2009}::flight"] {
        let source = xtce_flight::harness::generate(&layout, path);
        assert!(source.contains("let packet = become :: "), "{source}");
    }
}

#[test]
fn the_formatter_is_handed_what_it_prints() {
    for path in ["super :: flight", "a :: < dyn B >", "r#become", "* const u8", "fn () -> u8", ""] {
        assert!(path_prints(path), "{path}");
    }
    for path in [
        "become", "(become a)", "box a", "builtin # f ()", "dyn * A", "fn (mut self)", "const",
        "~ const A", "{ use a ; b }", "1 ; static A : u8 ; b", "{ macro_rules ! a { b } }",
    ] {
        assert!(!path_prints(path), "{path}");
    }
    assert!(word("été_2") && !word("a\u{3000}b") && !word("a b") && !word("a\u{85}"));
}

/// The code refuses what the library refuses.
#[test]
fn a_field_without_a_sign_bit_refuses_negatives() {
    let mut layout = flight_shapes_layout();
    let mut field = layout.containers[1].fields.remove(6);
    field.kind = Kind::Signed(IntegerCoding::Unsigned);
    field.bit_width = 12;
    let check = range_check(&field, "v");
    assert!(check.starts_with("if (v as i64) < 0 || (v as i64) > 2047 {\n"), "{check}");
    field.bit_width = 16;
    assert_eq!(range_check(&field, "v"), "");
    field.kind = Kind::Signed(IntegerCoding::TwosComplement);
    field.bit_width = 12;
    let check = range_check(&field, "v");
    assert!(check.starts_with("if (v as i64) < -2048 || (v as i64) > 2047 {\n"), "{check}");
}

/// The harness draws only what the encoder takes.
#[test]
fn a_field_without_a_sign_bit_draws_no_negatives() {
    let unsigned = Kind::Signed(IntegerCoding::Unsigned);
    let drawn = |width, kind| xtce_flight::harness::draw(width, kind, &Vec::new(), "p");
    assert_eq!(drawn(12, &unsigned), "(rng.next() & 2047) as i16");
    let full = "((((rng.next() & 65535) << 48) as i64) >> 48) as i16";
    assert_eq!(drawn(16, &unsigned), full);
    assert_eq!(drawn(16, &Kind::Signed(IntegerCoding::TwosComplement)), full);
}

/// What a buffer held before does not reach the packet: fixed values are written over it, and bits
/// that nothing claims are cleared.
#[test]
fn what_nobody_sets_is_fixed_or_zero() {
    let mut layout = command_layout();
    let mut container = layout.containers.remove(1);
    let values = [Value::Unsigned(7), Value::Unsigned(9)];
    let (mut zeros, mut ones) = ([0u8; 12], [0xFFu8; 12]);
    assert_eq!(encode(&container, &layout.enums, &values, &mut zeros), Ok(12));
    assert_eq!(encode(&container, &layout.enums, &values, &mut ones), Ok(12));
    assert_eq!(ones, zeros);
    assert_eq!(ones[..4], [0x1A, 0xCF, 0xFC, 0x1D]);
    container.fixed.clear();
    ones = [0xFF; 12];
    assert_eq!(encode(&container, &layout.enums, &values, &mut ones), Ok(12));
    assert_eq!(ones[..4], [0; 4]);
}
