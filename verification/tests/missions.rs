//! The mission functions, on exact bytes.

use xtce_flight::missions::{
    decode_jpss, decode_numeric_edges, decode_status_report, dispatch_flight_shapes,
    encode_beacon, encode_numeric_edges, encode_status_report, round_trip_aggregates,
    round_trip_arrays, round_trip_command, round_trip_little_endian,
};

fn bytes(hex: &str) -> Vec<u8> {
    (0..hex.len() / 2)
        .map(|at| u8::from_str_radix(&hex[2 * at..2 * at + 2], 16).expect("hex"))
        .collect()
}

const NUMERIC_EDGES: &str = "13e0040200000400c000000000000ffff8002fffcffffffffffffffff\
    00000000000000fffffffffffffffc2448040b00000401a000000000000fffb8006fff8000000000000000\
    9fffffffffffffff1";

const BEACON: &str = "0065c002001ce40000016fee0e1afffb40051fd0000020030000000000001c00600000";

#[test]
fn numeric_edges_are_the_bytes_the_definition_gives() {
    let expected = bytes(NUMERIC_EDGES);
    let mut out = [0x77u8; 82];
    assert_eq!(encode_numeric_edges(&mut out), 80);
    assert_eq!(out[..80], expected[..]);
    assert_eq!(out[80..], [0x77, 0x77], "what is behind the packet is left alone");
    assert!(decode_numeric_edges(&out));
    assert!(decode_numeric_edges(&out[..80]));
    assert!(!decode_numeric_edges(&out[..79]));
    let mut short = [0x77u8; 79];
    assert_eq!(encode_numeric_edges(&mut short), 0);
    assert_eq!(short, [0x77u8; 79]);
}

#[test]
fn a_status_report_takes_its_label_and_its_blob() {
    let blob = [1, 2, 3, 4, 5, 6, 7, 8];
    let mut out = [0u8; 61];
    assert_eq!(encode_status_report(&mut out, "startup", &blob), 61);
    // Version 0, type 0, secondary header, APID 100; flags 3, count 1; length 54.
    assert_eq!(out[..6], [0x08, 0x64, 0xC0, 0x01, 0x00, 54]);
    // NOMINAL is 1 in three bits, then the heater and a spare nibble.
    assert_eq!(out[6], 0b0011_0000);
    assert_eq!(out[7..15], *b"v1.0.0-a");
    assert_eq!(out[15..31], *b"startup\0\0\0\0\0\0\0\0\0");
    // Sixteen bits of length in front of two characters.
    assert_eq!(out[31..35], [0, 16, b'o', b'k']);
    assert_eq!(out[47..55], blob);
    assert_eq!(out[55..57], [0xFF, 0xD8]);
    assert_eq!(out[57..61], [0, 0, 0, 1]);
    assert!(decode_status_report(&out));
    assert!(dispatch_flight_shapes(&out));
}

#[test]
fn a_status_report_that_does_not_fit_is_not_written() {
    let blob = [0u8; 8];
    let mut out = [0u8; 61];
    assert_eq!(encode_status_report(&mut out, "fifteen bytes..", &blob), 61);
    assert_eq!(encode_status_report(&mut out, "sixteen bytes...", &blob), 0);
    assert_eq!(encode_status_report(&mut out, "a\0b", &blob), 0);
    assert_eq!(encode_status_report(&mut out, "label", &blob[..7]), 0);
    assert_eq!(encode_status_report(&mut out[..60], "label", &blob), 0);
    assert!(!decode_status_report(&out[..60]));
}

#[test]
fn a_damaged_report_is_not_decoded() {
    let mut out = [0u8; 61];
    assert_eq!(encode_status_report(&mut out, "label", &[0; 8]), 61);
    let mut unknown_mode = out;
    unknown_mode[6] |= 0b1110_0000;
    assert!(!decode_status_report(&unknown_mode));
    assert!(!dispatch_flight_shapes(&unknown_mode));
    let mut not_text = out;
    not_text[7] = 0xFF;
    assert!(!decode_status_report(&not_text));
    let mut endless = out;
    endless[15..31].fill(b'x');
    assert!(!decode_status_report(&endless));
}

#[test]
fn a_beacon_is_the_bytes_the_definition_gives() {
    let expected = bytes(BEACON);
    let mut out = [0xFFu8; 36];
    assert_eq!(encode_beacon(&mut out), 35);
    assert_eq!(out[..35], expected[..]);
    assert_eq!(out[35], 0xFF);
    assert!(dispatch_flight_shapes(&out));
    assert!(!decode_status_report(&out));
    assert_eq!(encode_beacon(&mut out[..34]), 0);
}

#[test]
fn the_dispatcher_needs_an_identifier_it_knows() {
    let mut out = [0u8; 35];
    assert_eq!(encode_beacon(&mut out), 35);
    for apid in 0..2048u16 {
        out[0] = (apid >> 8) as u8;
        out[1] = apid as u8;
        // A report is longer than these bytes, so only a beacon is recognised.
        assert_eq!(dispatch_flight_shapes(&out), apid == 101, "APID {apid}");
    }
    out[1] = 101;
    out[0] = 0x20;
    assert!(!dispatch_flight_shapes(&out), "another version");
}

#[test]
fn a_mission_packet_decodes_where_it_is_long_enough() {
    assert!(decode_jpss(&[0xA5; 71]));
    assert!(decode_jpss(&[0; 80]));
    assert!(!decode_jpss(&[0; 70]));
    assert!(!decode_jpss(&[]));
}

#[test]
fn telecommands_come_back() {
    let mut out = [0x11u8; 20];
    assert!(round_trip_command(&mut out));
    // The second command, then what the first one left, then what was there before.
    assert_eq!(out[..12], bytes("1acffc1d02567810001ebeef")[..]);
    assert_eq!(out[12..17], bytes("00fff9beef")[..]);
    assert_eq!(out[17..], [0x11; 3]);
    let mut short = [0x11u8; 16];
    assert!(!round_trip_command(&mut short));
    assert_eq!(short, [0x11u8; 16]);
}

#[test]
fn little_endian_fields_come_back() {
    let mut out = [0u8; 50];
    assert!(round_trip_little_endian(&mut out));
    assert_eq!(
        out[..49],
        bytes(
            "0201341256341278563412f0debc9a785634122efbc01dfeff003e000020400000000000000c40075efbe0\
             cafec0900000"
        )[..]
    );
    assert!(!round_trip_little_endian(&mut out[..48]));
}

#[test]
fn arrays_and_aggregates_come_back() {
    let mut out = [0u8; 39];
    assert!(round_trip_arrays(&mut out));
    assert_eq!(out[..3], [1, 0xFF, 0xFF]);
    // Six nibbles, three bytes.
    assert_eq!(out[23..26], [0x12, 0x34, 0x56]);
    assert!(!round_trip_arrays(&mut out[..38]));
    let mut out = [0u8; 37];
    assert!(round_trip_aggregates(&mut out));
    assert_eq!(out[1..5], 3.3f32.to_be_bytes());
    assert_eq!(out[35..], [0x90, 7]);
    assert!(!round_trip_aggregates(&mut out[..36]));
}
