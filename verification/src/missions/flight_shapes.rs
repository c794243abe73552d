//! Inheritance, enumerations, strings and binaries: a status report and a beacon behind one
//! header, told apart by their application identifiers.

use vstd::arithmetic::power2::*;
use vstd::prelude::*;
use vstd::string::*;
use vstd::utf8::*;

use crate::bits::{
    bit, lemma_number_bound, lemma_number_byte, lemma_number_same, lemma_number_split, number,
};
use crate::builder::constant_models;
use crate::codec::{
    accepted_from, criterion_holds, datums, decode, decoded, dispatch, dispatched, encode,
    encode_refusal, encoded, field_refusal, filled, is_match, lemma_accepted, lemma_one_byte_early,
    match_count, variant_from, Datum, Fault, Value,
};
use crate::layout::{
    enum_models, Constant, ConstantModel, Container, ContainerModel, EnumModel, EnumType,
    FieldModel, Kind, KindModel, Layout, LayoutModel,
};
use crate::missions::parts::{
    carried, carries, constant, container, criterion, define, enumeration, label, labelled,
    lemma_carried, lemma_placed_apart, lemma_stay, no_values, offer, place, placed, plain, require,
    sent, supply, transmit, typed,
};
use crate::plan::{DelimiterModel, IntegerCoding, TextCharset, TextDelimiter};
use crate::roundtrip::{
    apart_from_fields, constant_apart, lemma_criterion_round_trip, lemma_dispatch_round_trip,
    lemma_filled_len, survives,
};

verus! {

/// The enumerations of the definition.
pub open spec fn shape_enums() -> Seq<EnumModel> {
    seq![
        EnumModel {
            type_ident: "Mode"@,
            variants: seq![
                labelled("Safe"@, 0, "SAFE"@),
                labelled("Nominal"@, 1, "NOMINAL"@),
                labelled("Science"@, 2, "SCIENCE"@),
            ],
        },
        EnumModel {
            type_ident: "Baud"@,
            variants: seq![
                labelled("C9600"@, 0, "9600"@),
                labelled("C19200"@, 1, "19200"@),
                labelled("C57600"@, 2, "57600"@),
                labelled("C115200"@, 3, "115200"@),
            ],
        },
    ]
}

/// The enumerations of the definition.
fn shape_enum_types() -> (enums: Vec<EnumType>)
    ensures
        enum_models(enums@) == shape_enums(),
{
    let mut mode = enumeration("Mode");
    label(&mut mode, "Safe", 0, "SAFE");
    label(&mut mode, "Nominal", 1, "NOMINAL");
    label(&mut mode, "Science", 2, "SCIENCE");
    assert(mode@.variants =~= shape_enums()[0].variants);
    let mut baud = enumeration("Baud");
    label(&mut baud, "C9600", 0, "9600");
    label(&mut baud, "C19200", 1, "19200");
    label(&mut baud, "C57600", 2, "57600");
    label(&mut baud, "C115200", 3, "115200");
    assert(baud@.variants =~= shape_enums()[1].variants);
    let mut enums: Vec<EnumType> = Vec::new();
    assert(enum_models(enums@) =~= Seq::empty());
    define(&mut enums, mode);
    define(&mut enums, baud);
    assert(enum_models(enums@) =~= shape_enums());
    enums
}

// ---------------------------------------------------------------------------------------
// The status report
// ---------------------------------------------------------------------------------------

/// The fields of a `StatusReport`.
pub open spec fn status_report_fields() -> Seq<FieldModel> {
    seq![
        plain("TYPE"@, "type_"@, 3, 1, KindModel::Unsigned),
        plain("SEC_HDR_FLAG"@, "sec_hdr_flag"@, 4, 1, KindModel::Unsigned),
        plain("SEQ_FLGS"@, "seq_flgs"@, 16, 2, KindModel::Unsigned),
        plain("SEQ_CTR"@, "seq_ctr"@, 18, 14, KindModel::Unsigned),
        plain("PKT_LEN"@, "pkt_len"@, 32, 16, KindModel::Unsigned),
        plain("MODE"@, "mode"@, 48, 3, KindModel::Enumerated(0)),
        plain("HEATER_ON"@, "heater_on"@, 51, 1, KindModel::Bool),
        plain("SPARE_4"@, "spare_4"@, 52, 4, KindModel::Unsigned),
        plain(
            "BUILD_ID"@,
            "build_id"@,
            56,
            64,
            KindModel::Text(TextCharset::Utf8, DelimiterModel::WholeBuffer),
        ),
        plain(
            "LABEL"@,
            "label"@,
            120,
            128,
            KindModel::Text(TextCharset::Utf8, DelimiterModel::TerminationChar(seq![0u8])),
        ),
        plain(
            "NOTE"@,
            "note"@,
            248,
            128,
            KindModel::Text(TextCharset::UsAscii, DelimiterModel::LeadingSize(16)),
        ),
        plain("BLOB"@, "blob"@, 376, 64, KindModel::Binary),
        plain("TEMP"@, "temp"@, 440, 16, KindModel::Signed(IntegerCoding::TwosComplement)),
        plain("COUNT"@, "count"@, 456, 32, KindModel::Unsigned),
    ]
}

/// What makes a packet a `StatusReport`.
pub open spec fn status_report_criteria() -> Seq<ConstantModel> {
    seq![
        criterion("VERSION"@, "version"@, 0, 3, 0),
        criterion("PKT_APID"@, "pkt_apid"@, 5, 11, 100),
    ]
}

/// The `StatusReport` container: the text and binary path.
pub open spec fn status_report() -> ContainerModel {
    ContainerModel {
        xtce_name: "StatusReport"@,
        type_ident: "StatusReport"@,
        len_bytes: 61,
        fields: status_report_fields(),
        constants: status_report_criteria(),
        fixed: Seq::empty(),
        borrows: true,
    }
}

/// The values of the report that [`encode_status_report`] sends.
pub open spec fn status_report_values(label: Seq<char>, blob: Seq<u8>) -> Seq<Datum> {
    seq![
        Datum::Unsigned(0),
        Datum::Unsigned(1),
        Datum::Unsigned(3),
        Datum::Unsigned(1),
        Datum::Unsigned(54),
        Datum::Enumerated(1),
        Datum::Bool(true),
        Datum::Unsigned(0),
        Datum::Text("v1.0.0-a"@),
        Datum::Text(label),
        Datum::Text("ok"@),
        Datum::Binary(blob),
        Datum::Signed((-40) as i64),
        Datum::Unsigned(1),
    ]
}

/// Whether a label fits its field: with its terminator inside sixteen bytes, and without one of
/// its own.
pub open spec fn label_fits(label: Seq<char>) -> bool {
    &&& encode_utf8(label).len() <= 15
    &&& !encode_utf8(label).contains(0u8)
}

/// The `StatusReport` container.
pub fn status_report_container() -> (made: Container)
    ensures
        made@ == status_report(),
        placed(made@, shape_enums(), 488),
{
    let ghost enums = shape_enums();
    let mut constants: Vec<Constant> = Vec::new();
    assert(constant_models(constants@) =~= Seq::empty());
    require(&mut constants, constant("VERSION", "version", 0, 3, 0));
    require(&mut constants, constant("PKT_APID", "pkt_apid", 5, 11, 100));
    let mut made = container("StatusReport", "StatusReport", 61, constants, Vec::new(), true);
    proof {
        lemma2_to64();
        assert(made@.fixed =~= Seq::empty());
        assert(made@.constants == status_report_criteria());
    }
    place(&mut made, "TYPE", "type_", 3, 1, Kind::Unsigned, false, Ghost(enums));
    place(&mut made, "SEC_HDR_FLAG", "sec_hdr_flag", 4, 1, Kind::Unsigned, false, Ghost(enums));
    place(&mut made, "SEQ_FLGS", "seq_flgs", 16, 2, Kind::Unsigned, false, Ghost(enums));
    place(&mut made, "SEQ_CTR", "seq_ctr", 18, 14, Kind::Unsigned, false, Ghost(enums));
    place(&mut made, "PKT_LEN", "pkt_len", 32, 16, Kind::Unsigned, false, Ghost(enums));
    place(&mut made, "MODE", "mode", 48, 3, Kind::Enumerated(0), false, Ghost(enums));
    place(&mut made, "HEATER_ON", "heater_on", 51, 1, Kind::Bool, false, Ghost(enums));
    place(&mut made, "SPARE_4", "spare_4", 52, 4, Kind::Unsigned, false, Ghost(enums));
    place(
        &mut made,
        "BUILD_ID",
        "build_id",
        56,
        64,
        Kind::Text { charset: TextCharset::Utf8, delimiter: TextDelimiter::WholeBuffer },
        false,
        Ghost(enums),
    );
    let terminator: Vec<u8> = vec![0];
    assert(terminator@ =~= seq![0u8]);
    place(
        &mut made,
        "LABEL",
        "label",
        120,
        128,
        Kind::Text {
            charset: TextCharset::Utf8,
            delimiter: TextDelimiter::TerminationChar(terminator),
        },
        false,
        Ghost(enums),
    );
    place(
        &mut made,
        "NOTE",
        "note",
        248,
        128,
        Kind::Text {
            charset: TextCharset::UsAscii,
            delimiter: TextDelimiter::LeadingSize { size_in_bits: 16 },
        },
        false,
        Ghost(enums),
    );
    place(&mut made, "BLOB", "blob", 376, 64, Kind::Binary, false, Ghost(enums));
    place(
        &mut made,
        "TEMP",
        "temp",
        440,
        16,
        Kind::Signed(IntegerCoding::TwosComplement),
        false,
        Ghost(enums),
    );
    place(&mut made, "COUNT", "count", 456, 32, Kind::Unsigned, false, Ghost(enums));
    assert(made@.fields =~= status_report_fields());
    made
}

/// The values of the report that [`encode_status_report`] sends.
fn status_report_packet<'a>(label: &'a str, blob: &'a [u8]) -> (values: Vec<Value<'a>>)
    ensures
        datums(values@) == status_report_values(label@, blob@),
        typed(status_report_fields(), shape_enums(), datums(values@)),
        values@.len() == status_report_fields().len(),
{
    let ghost fields = status_report_fields();
    let ghost enums = shape_enums();
    proof {
        lemma2_to64();
        lemma2_to64_rest();
    }
    let mut values = no_values(Ghost(fields), Ghost(enums));
    offer(&mut values, Value::Unsigned(0), Ghost(fields), Ghost(enums));
    offer(&mut values, Value::Unsigned(1), Ghost(fields), Ghost(enums));
    offer(&mut values, Value::Unsigned(3), Ghost(fields), Ghost(enums));
    offer(&mut values, Value::Unsigned(1), Ghost(fields), Ghost(enums));
    offer(&mut values, Value::Unsigned(54), Ghost(fields), Ghost(enums));
    offer(&mut values, Value::Enumerated(1), Ghost(fields), Ghost(enums));
    offer(&mut values, Value::Bool(true), Ghost(fields), Ghost(enums));
    offer(&mut values, Value::Unsigned(0), Ghost(fields), Ghost(enums));
    offer(&mut values, Value::Text("v1.0.0-a"), Ghost(fields), Ghost(enums));
    offer(&mut values, Value::Text(label), Ghost(fields), Ghost(enums));
    offer(&mut values, Value::Text("ok"), Ghost(fields), Ghost(enums));
    offer(&mut values, Value::Binary(blob), Ghost(fields), Ghost(enums));
    offer(&mut values, Value::Signed(-40), Ghost(fields), Ghost(enums));
    offer(&mut values, Value::Unsigned(1), Ghost(fields), Ghost(enums));
    values
}

/// The report is refused for its label or for its blob, and for nothing else.
proof fn lemma_status_report_refusal(label: Seq<char>, blob: Seq<u8>)
    ensures
        encode_refusal(status_report(), status_report_values(label, blob)) is None <==> label_fits(
            label,
        ) && blob.len() == 8,
{
    let fields = status_report_fields();
    let values = status_report_values(label, blob);
    lemma2_to64();
    lemma2_to64_rest();
    reveal_strlit("v1.0.0-a");
    reveal_strlit("ok");
    assert(is_ascii_chars("v1.0.0-a"@));
    assert(is_ascii_chars("ok"@));
    is_ascii_chars_encode_utf8("v1.0.0-a"@);
    is_ascii_chars_encode_utf8("ok"@);
    assert(field_refusal(fields[0], values[0]) is None);
    assert(field_refusal(fields[1], values[1]) is None);
    assert(field_refusal(fields[2], values[2]) is None);
    assert(field_refusal(fields[3], values[3]) is None);
    assert(field_refusal(fields[4], values[4]) is None);
    assert(field_refusal(fields[5], values[5]) is None);
    assert(field_refusal(fields[6], values[6]) is None);
    assert(field_refusal(fields[7], values[7]) is None);
    assert(field_refusal(fields[8], values[8]) is None);
    assert(field_refusal(fields[10], values[10]) is None);
    assert(field_refusal(fields[12], values[12]) is None);
    assert(field_refusal(fields[13], values[13]) is None);
    lemma_one_byte_early(encode_utf8(label), 0);
    assert(field_refusal(fields[9], values[9]) is None <==> label_fits(label));
    assert(field_refusal(fields[11], values[11]) is None <==> blob.len() == 8);
    assert forall|i: int| 0 <= i < fields.len() && i != 9 && i != 11 implies field_refusal(
        fields[i],
        #[trigger] values[i],
    ) is None by {
    }
    lemma_accepted(fields, values, 0, 9);
    if label_fits(label) {
        lemma_accepted(fields, values, 9, 11);
        if blob.len() == 8 {
            lemma_accepted(fields, values, 11, fields.len());
        }
    }
}

/// Encodes a `StatusReport`, giving how many bytes were written: none where the buffer is too
/// short, the label does not fit, or the blob is not eight bytes.
pub fn encode_status_report(out: &mut [u8], label: &str, blob: &[u8]) -> (written: usize)
    ensures
        written == if old(out)@.len() >= 61 && label_fits(label@) && blob@.len() == 8 {
            61int
        } else {
            0
        },
        final(out)@ == if old(out)@.len() < 61 {
            old(out)@
        } else {
            let values = status_report_values(label@, blob@);
            filled(
                status_report(),
                shape_enums(),
                values,
                accepted_from(status_report_fields(), values, 0),
            ) + old(out)@.skip(61)
        },
        written > 0 ==> (dispatched(flight_shapes(), final(out)@.take(written as int)) matches Ok(
            (found, _),
        ) && found == 0),
{
    let made = status_report_container();
    let enums = shape_enum_types();
    let values = status_report_packet(label, blob);
    proof {
        lemma_status_report_refusal(label@, blob@);
    }
    match encode(&made, &enums, values.as_slice(), out) {
        Ok(written) => {
            proof {
                let packet = encoded(
                    status_report(),
                    shape_enums(),
                    status_report_values(label@, blob@),
                );
                lemma_status_report_carried(label@, blob@);
                lemma_carried(
                    status_report(),
                    shape_enums(),
                    status_report_values(label@, blob@),
                );
                lemma_filled_len(
                    status_report(),
                    shape_enums(),
                    status_report_values(label@, blob@),
                    status_report_fields().len(),
                );
                assert(out@.take(61) =~= packet);
                lemma_status_reports_are_recognised(label@, blob@);
            }
            written
        },
        Err(_) => 0,
    }
}

/// Whether a buffer decodes as a `StatusReport`.
pub fn decode_status_report(data: &[u8]) -> (readable: bool)
    ensures
        readable == (data@.len() >= 61 && decoded(
            status_report(),
            shape_enums(),
            data@.take(61),
        ) is Ok),
{
    let made = status_report_container();
    let enums = shape_enum_types();
    decode(&made, &enums, data).is_ok()
}

// ---------------------------------------------------------------------------------------
// The beacon
// ---------------------------------------------------------------------------------------

/// The fields of a `Beacon`.
pub open spec fn beacon_fields() -> Seq<FieldModel> {
    seq![
        plain("TYPE"@, "type_"@, 3, 1, KindModel::Unsigned),
        plain("SEC_HDR_FLAG"@, "sec_hdr_flag"@, 4, 1, KindModel::Unsigned),
        plain("SEQ_FLGS"@, "seq_flgs"@, 16, 2, KindModel::Unsigned),
        plain("SEQ_CTR"@, "seq_ctr"@, 18, 14, KindModel::Unsigned),
        plain("PKT_LEN"@, "pkt_len"@, 32, 16, KindModel::Unsigned),
        plain("FLAG_A"@, "flag_a"@, 48, 1, KindModel::Unsigned),
        plain("SMALL"@, "small"@, 49, 7, KindModel::Unsigned),
        plain("WIDE_ODD"@, "wide_odd"@, 56, 57, KindModel::Unsigned),
        plain("ONES_ODD"@, "ones_odd"@, 113, 16, KindModel::Signed(IntegerCoding::OnesComplement)),
        plain(
            "SIGNMAG_ODD"@,
            "signmag_odd"@,
            129,
            16,
            KindModel::Signed(IntegerCoding::SignMagnitude),
        ),
        plain("F32_ODD"@, "f32_odd"@, 145, 32, KindModel::Float32),
        plain("F64_ODD"@, "f64_odd"@, 177, 64, KindModel::Float64),
        plain("F16_ODD"@, "f16_odd"@, 241, 16, KindModel::Float16),
        plain("BAUD"@, "baud"@, 257, 2, KindModel::Enumerated(1)),
        plain("TAIL_PAD"@, "tail_pad"@, 259, 16, KindModel::Unsigned),
        plain("PAD_5"@, "pad_5"@, 275, 5, KindModel::Unsigned),
    ]
}

/// What makes a packet a `Beacon`.
pub open spec fn beacon_criteria() -> Seq<ConstantModel> {
    seq![
        criterion("VERSION"@, "version"@, 0, 3, 0),
        criterion("PKT_APID"@, "pkt_apid"@, 5, 11, 101),
    ]
}

/// The `Beacon` container: the unaligned path.
pub open spec fn beacon() -> ContainerModel {
    ContainerModel {
        xtce_name: "Beacon"@,
        type_ident: "Beacon"@,
        len_bytes: 35,
        fields: beacon_fields(),
        constants: beacon_criteria(),
        fixed: Seq::empty(),
        borrows: false,
    }
}

/// The values of the beacon that [`encode_beacon`] sends.
pub open spec fn beacon_values() -> Seq<Datum> {
    seq![
        Datum::Unsigned(0),
        Datum::Unsigned(0),
        Datum::Unsigned(3),
        Datum::Unsigned(2),
        Datum::Unsigned(28),
        Datum::Unsigned(1),
        Datum::Unsigned(100),
        Datum::Unsigned(0x0000_0002_DFDC_1C35),
        Datum::Signed((-9) as i64),
        Datum::Signed((-10) as i64),
        Datum::Single(0x3FA0_0000),
        Datum::Double(0x4006_0000_0000_0000),
        Datum::Single(0x3F00_0000),
        Datum::Enumerated(3),
        Datum::Unsigned(0),
        Datum::Unsigned(0),
    ]
}

/// The `Beacon` container.
pub fn beacon_container() -> (made: Container)
    ensures
        made@ == beacon(),
        placed(made@, shape_enums(), 280),
{
    let ghost enums = shape_enums();
    let mut constants: Vec<Constant> = Vec::new();
    assert(constant_models(constants@) =~= Seq::empty());
    require(&mut constants, constant("VERSION", "version", 0, 3, 0));
    require(&mut constants, constant("PKT_APID", "pkt_apid", 5, 11, 101));
    let mut made = container("Beacon", "Beacon", 35, constants, Vec::new(), false);
    proof {
        lemma2_to64();
        assert(made@.fixed =~= Seq::empty());
        assert(made@.constants == beacon_criteria());
    }
    place(&mut made, "TYPE", "type_", 3, 1, Kind::Unsigned, false, Ghost(enums));
    place(&mut made, "SEC_HDR_FLAG", "sec_hdr_flag", 4, 1, Kind::Unsigned, false, Ghost(enums));
    place(&mut made, "SEQ_FLGS", "seq_flgs", 16, 2, Kind::Unsigned, false, Ghost(enums));
    place(&mut made, "SEQ_CTR", "seq_ctr", 18, 14, Kind::Unsigned, false, Ghost(enums));
    place(&mut made, "PKT_LEN", "pkt_len", 32, 16, Kind::Unsigned, false, Ghost(enums));
    place(&mut made, "FLAG_A", "flag_a", 48, 1, Kind::Unsigned, false, Ghost(enums));
    place(&mut made, "SMALL", "small", 49, 7, Kind::Unsigned, false, Ghost(enums));
    place(&mut made, "WIDE_ODD", "wide_odd", 56, 57, Kind::Unsigned, false, Ghost(enums));
    place(
        &mut made,
        "ONES_ODD",
        "ones_odd",
        113,
        16,
        Kind::Signed(IntegerCoding::OnesComplement),
        false,
        Ghost(enums),
    );
    place(
        &mut made,
        "SIGNMAG_ODD",
        "signmag_odd",
        129,
        16,
        Kind::Signed(IntegerCoding::SignMagnitude),
        false,
        Ghost(enums),
    );
    place(&mut made, "F32_ODD", "f32_odd", 145, 32, Kind::Float32, false, Ghost(enums));
    place(&mut made, "F64_ODD", "f64_odd", 177, 64, Kind::Float64, false, Ghost(enums));
    place(&mut made, "F16_ODD", "f16_odd", 241, 16, Kind::Float16, false, Ghost(enums));
    place(&mut made, "BAUD", "baud", 257, 2, Kind::Enumerated(1), false, Ghost(enums));
    place(&mut made, "TAIL_PAD", "tail_pad", 259, 16, Kind::Unsigned, false, Ghost(enums));
    place(&mut made, "PAD_5", "pad_5", 275, 5, Kind::Unsigned, false, Ghost(enums));
    assert(made@.fields =~= beacon_fields());
    made
}

/// The values of the beacon that [`encode_beacon`] sends.
fn beacon_packet() -> (values: Vec<Value<'static>>)
    ensures
        datums(values@) == beacon_values(),
        carried(beacon_fields(), shape_enums(), datums(values@)),
        values@.len() == beacon_fields().len(),
{
    let ghost fields = beacon_fields();
    let ghost enums = shape_enums();
    proof {
        lemma2_to64();
        lemma2_to64_rest();
        reveal_with_fuel(variant_from, 5);
    }
    let mut values = no_values(Ghost(fields), Ghost(enums));
    supply(&mut values, Value::Unsigned(0), Ghost(fields), Ghost(enums));
    supply(&mut values, Value::Unsigned(0), Ghost(fields), Ghost(enums));
    supply(&mut values, Value::Unsigned(3), Ghost(fields), Ghost(enums));
    supply(&mut values, Value::Unsigned(2), Ghost(fields), Ghost(enums));
    supply(&mut values, Value::Unsigned(28), Ghost(fields), Ghost(enums));
    supply(&mut values, Value::Unsigned(1), Ghost(fields), Ghost(enums));
    supply(&mut values, Value::Unsigned(100), Ghost(fields), Ghost(enums));
    supply(&mut values, Value::Unsigned(0x0000_0002_DFDC_1C35), Ghost(fields), Ghost(enums));
    supply(&mut values, Value::Signed(-9), Ghost(fields), Ghost(enums));
    supply(&mut values, Value::Signed(-10), Ghost(fields), Ghost(enums));
    supply(&mut values, Value::Single(0x3FA0_0000), Ghost(fields), Ghost(enums));
    supply(&mut values, Value::Double(0x4006_0000_0000_0000), Ghost(fields), Ghost(enums));
    supply(&mut values, Value::Single(0x3F00_0000), Ghost(fields), Ghost(enums));
    supply(&mut values, Value::Enumerated(3), Ghost(fields), Ghost(enums));
    supply(&mut values, Value::Unsigned(0), Ghost(fields), Ghost(enums));
    supply(&mut values, Value::Unsigned(0), Ghost(fields), Ghost(enums));
    values
}

/// Encodes a `Beacon`, giving how many bytes were written.
pub fn encode_beacon(out: &mut [u8]) -> (written: usize)
    ensures
        sent(
            beacon(),
            shape_enums(),
            beacon_values(),
            old(out)@,
            final(out)@,
            written as int,
        ),
        written > 0 ==> (dispatched(flight_shapes(), final(out)@.take(written as int)) matches Ok(
            (found, _),
        ) && found == 1),
{
    let made = beacon_container();
    let enums = shape_enum_types();
    let values = beacon_packet();
    let written = transmit(&made, &enums, values.as_slice(), out);
    proof {
        lemma_carried(beacon(), shape_enums(), beacon_values());
        lemma_filled_len(beacon(), shape_enums(), beacon_values(), beacon_fields().len());
        if written > 0 {
            assert(out@.take(35) =~= encoded(beacon(), shape_enums(), beacon_values()));
        }
        lemma_beacons_are_recognised();
    }
    written
}

// ---------------------------------------------------------------------------------------
// The dispatcher
// ---------------------------------------------------------------------------------------

/// The layout of the definition.
pub open spec fn flight_shapes() -> LayoutModel {
    LayoutModel {
        containers: seq![status_report(), beacon()],
        enums: shape_enums(),
        root_name: "CCSDSPacket"@,
    }
}

/// The layout of the definition.
pub fn flight_shapes_layout() -> (made: Layout)
    ensures
        made@ == flight_shapes(),
        made@.valid(),
{
    let enums = shape_enum_types();
    let report = status_report_container();
    let short = beacon_container();
    let made = Layout {
        containers: vec![report, short],
        enums,
        root_name: "CCSDSPacket".to_owned(),
    };
    assert(made@.containers =~= seq![status_report(), beacon()]);
    made
}

/// Whether one container of the definition recognises a buffer, and decodes it.
pub fn dispatch_flight_shapes(data: &[u8]) -> (readable: bool)
    ensures
        readable == (dispatched(flight_shapes(), data@) is Ok),
{
    let layout = flight_shapes_layout();
    dispatch(&layout, data).is_ok()
}

// ---------------------------------------------------------------------------------------
// What the dispatcher recognises
// ---------------------------------------------------------------------------------------

/// The fields of a `StatusReport` follow one another, clear of its criteria.
proof fn lemma_status_report_placed()
    ensures
        placed(status_report(), shape_enums(), 488),
        constant_apart(status_report(), 0),
        constant_apart(status_report(), 1),
{
    let report = status_report();
    lemma2_to64();
    assert(report.fields.len() == 14);
    assert(report.valid(shape_enums()));
    assert(apart_from_fields(report.fields, 0, report.fields.len() as int, 0, 3));
    assert(apart_from_fields(report.fields, 0, report.fields.len() as int, 5, 11));
}

/// The fields of a `Beacon` follow one another, clear of its criteria.
proof fn lemma_beacon_placed()
    ensures
        placed(beacon(), shape_enums(), 280),
        constant_apart(beacon(), 0),
        constant_apart(beacon(), 1),
{
    let short = beacon();
    lemma2_to64();
    assert(short.fields.len() == 16);
    assert(short.valid(shape_enums()));
    assert(apart_from_fields(short.fields, 0, short.fields.len() as int, 0, 3));
    assert(apart_from_fields(short.fields, 0, short.fields.len() as int, 5, 11));
}

/// The fields of a `StatusReport` carry the values that [`encode_status_report`] sends, wherever
/// the label and the blob fit.
proof fn lemma_status_report_carried(label: Seq<char>, blob: Seq<u8>)
    requires
        label_fits(label),
        blob.len() == 8,
    ensures
        carried(status_report_fields(), shape_enums(), status_report_values(label, blob)),
{
    let fields = status_report_fields();
    let values = status_report_values(label, blob);
    let enums = shape_enums();
    lemma2_to64();
    lemma2_to64_rest();
    reveal_strlit("v1.0.0-a");
    reveal_strlit("ok");
    assert(is_ascii_chars("v1.0.0-a"@));
    assert(is_ascii_chars("ok"@));
    is_ascii_chars_encode_utf8("v1.0.0-a"@);
    is_ascii_chars_encode_utf8("ok"@);
    lemma_one_byte_early(encode_utf8(label), 0);
    reveal_with_fuel(variant_from, 4);
    assert(carries(fields[0], enums, values[0]));
    assert(carries(fields[1], enums, values[1]));
    assert(carries(fields[2], enums, values[2]));
    assert(carries(fields[3], enums, values[3]));
    assert(carries(fields[4], enums, values[4]));
    assert(carries(fields[5], enums, values[5]));
    assert(carries(fields[6], enums, values[6]));
    assert(carries(fields[7], enums, values[7]));
    assert(carries(fields[8], enums, values[8]));
    assert(carries(fields[9], enums, values[9]));
    assert(carries(fields[10], enums, values[10]));
    assert(carries(fields[11], enums, values[11]));
    assert(carries(fields[12], enums, values[12]));
    assert(carries(fields[13], enums, values[13]));
}

/// The fields of a `Beacon` carry the values that [`encode_beacon`] sends.
proof fn lemma_beacon_carried()
    ensures
        carried(beacon_fields(), shape_enums(), beacon_values()),
{
    let fields = beacon_fields();
    let values = beacon_values();
    let enums = shape_enums();
    lemma2_to64();
    lemma2_to64_rest();
    reveal_with_fuel(variant_from, 5);
    assert(carries(fields[0], enums, values[0]));
    assert(carries(fields[1], enums, values[1]));
    assert(carries(fields[2], enums, values[2]));
    assert(carries(fields[3], enums, values[3]));
    assert(carries(fields[4], enums, values[4]));
    assert(carries(fields[5], enums, values[5]));
    assert(carries(fields[6], enums, values[6]));
    assert(carries(fields[7], enums, values[7]));
    assert(carries(fields[8], enums, values[8]));
    assert(carries(fields[9], enums, values[9]));
    assert(carries(fields[10], enums, values[10]));
    assert(carries(fields[11], enums, values[11]));
    assert(carries(fields[12], enums, values[12]));
    assert(carries(fields[13], enums, values[13]));
    assert(carries(fields[14], enums, values[14]));
    assert(carries(fields[15], enums, values[15]));
}

/// Whether a container is selected by its version and its application identifier.
pub open spec fn is_identified(container: ContainerModel) -> bool {
    &&& container.len_bytes >= 2
    &&& container.constants.len() == 2
    &&& container.constants[1].bit_offset == 5
    &&& container.constants[1].bit_width == 11
}

/// A packet is no packet of a container that asks for another application identifier.
proof fn lemma_other_identifier(container: ContainerModel, data: Seq<u8>)
    requires
        data.len() >= 2,
        is_identified(container),
        container.constants[1].raw != number(data, 5, 11),
    ensures
        !is_match(container, data),
{
    if data.len() >= container.len_bytes {
        let head = data.take(container.len_bytes);
        assert forall|i: int| 5 <= i < 5 + 11 implies bit(head, i) == bit(data, i) by {
            assert(head[i / 8] == data[i / 8]);
        }
        lemma_number_same(head, data, 5, 11);
        assert(!criterion_holds(container.constants[1], head));
    }
}

/// Of two containers with different application identifiers, what one wrote is dispatched to it.
proof fn lemma_recognised(layout: LayoutModel, chosen: int, values: Seq<Datum>, end: int)
    requires
        layout.valid(),
        layout.containers.len() == 2,
        0 <= chosen < 2,
        is_identified(layout.containers[0]),
        is_identified(layout.containers[1]),
        layout.containers[0].constants[1].raw != layout.containers[1].constants[1].raw,
        placed(layout.containers[chosen], layout.enums, end),
        constant_apart(layout.containers[chosen], 0),
        constant_apart(layout.containers[chosen], 1),
        carried(layout.containers[chosen].fields, layout.enums, values),
        values.len() == layout.containers[chosen].fields.len(),
    ensures
        dispatched(
            layout,
            encoded(layout.containers[chosen], layout.enums, values),
        ) matches Ok((found, _)) && found == chosen,
{
    let container = layout.containers[chosen];
    let other = layout.containers[1 - chosen];
    let data = encoded(container, layout.enums, values);
    lemma_carried(container, layout.enums, values);
    lemma_stay(container, layout.enums, values);
    lemma_placed_apart(container, layout.enums, end);
    lemma_filled_len(container, layout.enums, values, container.fields.len());
    lemma_criterion_round_trip(container, layout.enums, values, 1);
    assert(number(data, 5, 11) == container.constants[1].raw);
    lemma_other_identifier(other, data);
    assert forall|i: int| 0 <= i < container.fields.len() implies survives(
        #[trigger] container.fields[i],
        layout.enums,
        values[i],
    ) by {
        assert(carries(container.fields[i], layout.enums, values[i]));
    }
    assert forall|j: int| 0 <= j < layout.containers.len() && j != chosen implies !is_match(
        #[trigger] layout.containers[j],
        data,
    ) by {
        assert(j == 1 - chosen);
    }
    lemma_dispatch_round_trip(layout, chosen, values);
}

/// The definition is valid, and its containers are told apart by their identifiers.
proof fn lemma_identified()
    requires
        placed(status_report(), shape_enums(), 488),
        placed(beacon(), shape_enums(), 280),
    ensures
        flight_shapes().valid(),
        is_identified(status_report()),
        is_identified(beacon()),
        status_report().constants[1].raw == 100,
        beacon().constants[1].raw == 101,
{
    let layout = flight_shapes();
    assert forall|i: int| 0 <= i < 2 implies (#[trigger] layout.containers[i]).valid(
        layout.enums,
    ) by {
        assert(i == 0 || i == 1);
    }
}

/// The dispatcher recognises what [`encode_status_report`] wrote, whatever the label and the blob,
/// as a `StatusReport`.
pub proof fn lemma_status_reports_are_recognised(label: Seq<char>, blob: Seq<u8>)
    requires
        label_fits(label),
        blob.len() == 8,
    ensures
        dispatched(
            flight_shapes(),
            encoded(status_report(), shape_enums(), status_report_values(label, blob)),
        ) matches Ok((found, _)) && found == 0,
{
    lemma_status_report_placed();
    lemma_beacon_placed();
    lemma_identified();
    lemma_status_report_carried(label, blob);
    lemma_recognised(flight_shapes(), 0, status_report_values(label, blob), 488);
}

/// The dispatcher recognises what [`encode_beacon`] wrote as a `Beacon`.
pub proof fn lemma_beacons_are_recognised()
    ensures
        dispatched(
            flight_shapes(),
            encoded(beacon(), shape_enums(), beacon_values()),
        ) matches Ok((found, _)) && found == 1,
{
    lemma_status_report_placed();
    lemma_beacon_placed();
    lemma_identified();
    lemma_beacon_carried();
    lemma_recognised(flight_shapes(), 1, beacon_values(), 280);
}

/// The dispatcher recognises nothing whose application identifier is neither container's.
pub proof fn lemma_other_identifiers_are_not_recognised(data: Seq<u8>)
    requires
        data.len() >= 2,
        number(data, 5, 11) != 100,
        number(data, 5, 11) != 101,
    ensures
        dispatched(flight_shapes(), data) == Err::<(int, Seq<Datum>), Fault>(Fault::Unrecognized),
{
    let layout = flight_shapes();
    lemma_other_identifier(layout.containers[0], data);
    lemma_other_identifier(layout.containers[1], data);
    reveal_with_fuel(match_count, 3);
}

/// A packet that was recognised no longer is once its first two bytes say 999 for the application
/// identifier.
pub proof fn lemma_another_identifier_is_not_recognised(data: Seq<u8>)
    requires
        data.len() >= 2,
    ensures
        dispatched(flight_shapes(), data.update(0, 0x03).update(1, 0xE7)) == Err::<
            (int, Seq<Datum>),
            Fault,
        >(Fault::Unrecognized),
{
    let changed = data.update(0, 0x03).update(1, 0xE7);
    lemma2_to64();
    lemma_number_byte(changed, 0);
    lemma_number_byte(changed, 1);
    lemma_number_split(changed, 0, 5, 3);
    lemma_number_split(changed, 5, 3, 8);
    lemma_number_bound(changed, 5, 3);
    lemma_other_identifiers_are_not_recognised(changed);
}

} // verus!
