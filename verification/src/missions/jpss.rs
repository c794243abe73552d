//! A real mission packet: the attitude and ephemeris of JPSS-1.

use vstd::arithmetic::power2::*;
use vstd::prelude::*;

use crate::builder::constant_models;
use crate::codec::decode;
use crate::layout::{
    enum_models, Constant, ConstantModel, Container, ContainerModel, EnumModel, EnumType,
    FieldModel, Kind, KindModel,
};
use crate::missions::parts::{
    constant, container, criterion, lemma_numbers_decode, place, placed, plain, require,
};

verus! {

/// The fields the caller supplies.
pub open spec fn jpss_fields() -> Seq<FieldModel> {
    seq![
        plain("SEC_HDR_FLAG"@, "sec_hdr_flag"@, 4, 1, KindModel::Unsigned),
        plain("SEQ_FLGS"@, "seq_flgs"@, 16, 2, KindModel::Unsigned),
        plain("SRC_SEQ_CTR"@, "src_seq_ctr"@, 18, 14, KindModel::Unsigned),
        plain("PKT_LEN"@, "pkt_len"@, 32, 16, KindModel::Unsigned),
        plain("DOY"@, "doy"@, 48, 16, KindModel::Unsigned),
        plain("MSEC"@, "msec"@, 64, 32, KindModel::Unsigned),
        plain("USEC"@, "usec"@, 96, 16, KindModel::Unsigned),
        plain("ADAESCID"@, "adaescid"@, 112, 8, KindModel::Unsigned),
        plain("ADAET1DAY"@, "adaet1day"@, 120, 16, KindModel::Unsigned),
        plain("ADAET1MS"@, "adaet1ms"@, 136, 32, KindModel::Unsigned),
        plain("ADAET1US"@, "adaet1us"@, 168, 16, KindModel::Unsigned),
        plain("ADGPSPOSX"@, "adgpsposx"@, 184, 32, KindModel::Float32),
        plain("ADGPSPOSY"@, "adgpsposy"@, 216, 32, KindModel::Float32),
        plain("ADGPSPOSZ"@, "adgpsposz"@, 248, 32, KindModel::Float32),
        plain("ADGPSVELX"@, "adgpsvelx"@, 280, 32, KindModel::Float32),
        plain("ADGPSVELY"@, "adgpsvely"@, 312, 32, KindModel::Float32),
        plain("ADGPSVELZ"@, "adgpsvelz"@, 344, 32, KindModel::Float32),
        plain("ADAET2DAY"@, "adaet2day"@, 376, 16, KindModel::Unsigned),
        plain("ADAET2MS"@, "adaet2ms"@, 392, 32, KindModel::Unsigned),
        plain("ADAET2US"@, "adaet2us"@, 424, 16, KindModel::Unsigned),
        plain("ADCFAQ1"@, "adcfaq1"@, 440, 32, KindModel::Float32),
        plain("ADCFAQ2"@, "adcfaq2"@, 472, 32, KindModel::Float32),
        plain("ADCFAQ3"@, "adcfaq3"@, 504, 32, KindModel::Float32),
        plain("ADCFAQ4"@, "adcfaq4"@, 536, 32, KindModel::Float32),
    ]
}

/// What makes a packet one of these.
pub open spec fn jpss_criteria() -> Seq<ConstantModel> {
    seq![
        criterion("VERSION"@, "version"@, 0, 3, 0),
        criterion("TYPE"@, "type_"@, 3, 1, 0),
        criterion("PKT_APID"@, "pkt_apid"@, 5, 11, 11),
    ]
}

/// The container of the definition.
pub open spec fn jpss() -> ContainerModel {
    ContainerModel {
        xtce_name: "JPSS_ATT_EPHEM"@,
        type_ident: "JpssAttEphem"@,
        len_bytes: 71,
        fields: jpss_fields(),
        constants: jpss_criteria(),
        fixed: Seq::empty(),
        borrows: false,
    }
}

/// The container of the definition.
pub fn jpss_container() -> (made: Container)
    ensures
        made@ == jpss(),
        placed(made@, Seq::empty(), 568),
{
    let ghost enums = Seq::<EnumModel>::empty();
    let mut constants: Vec<Constant> = Vec::new();
    assert(constant_models(constants@) =~= Seq::empty());
    require(&mut constants, constant("VERSION", "version", 0, 3, 0));
    require(&mut constants, constant("TYPE", "type_", 3, 1, 0));
    require(&mut constants, constant("PKT_APID", "pkt_apid", 5, 11, 11));
    let mut made = container("JPSS_ATT_EPHEM", "JpssAttEphem", 71, constants, Vec::new(), false);
    proof {
        lemma2_to64();
        assert(made@.fixed =~= Seq::empty());
        assert(made@.constants == jpss_criteria());
    }
    place(&mut made, "SEC_HDR_FLAG", "sec_hdr_flag", 4, 1, Kind::Unsigned, false, Ghost(enums));
    place(&mut made, "SEQ_FLGS", "seq_flgs", 16, 2, Kind::Unsigned, false, Ghost(enums));
    place(&mut made, "SRC_SEQ_CTR", "src_seq_ctr", 18, 14, Kind::Unsigned, false, Ghost(enums));
    place(&mut made, "PKT_LEN", "pkt_len", 32, 16, Kind::Unsigned, false, Ghost(enums));
    place(&mut made, "DOY", "doy", 48, 16, Kind::Unsigned, false, Ghost(enums));
    place(&mut made, "MSEC", "msec", 64, 32, Kind::Unsigned, false, Ghost(enums));
    place(&mut made, "USEC", "usec", 96, 16, Kind::Unsigned, false, Ghost(enums));
    place(&mut made, "ADAESCID", "adaescid", 112, 8, Kind::Unsigned, false, Ghost(enums));
    place(&mut made, "ADAET1DAY", "adaet1day", 120, 16, Kind::Unsigned, false, Ghost(enums));
    place(&mut made, "ADAET1MS", "adaet1ms", 136, 32, Kind::Unsigned, false, Ghost(enums));
    place(&mut made, "ADAET1US", "adaet1us", 168, 16, Kind::Unsigned, false, Ghost(enums));
    place(&mut made, "ADGPSPOSX", "adgpsposx", 184, 32, Kind::Float32, false, Ghost(enums));
    place(&mut made, "ADGPSPOSY", "adgpsposy", 216, 32, Kind::Float32, false, Ghost(enums));
    place(&mut made, "ADGPSPOSZ", "adgpsposz", 248, 32, Kind::Float32, false, Ghost(enums));
    place(&mut made, "ADGPSVELX", "adgpsvelx", 280, 32, Kind::Float32, false, Ghost(enums));
    place(&mut made, "ADGPSVELY", "adgpsvely", 312, 32, Kind::Float32, false, Ghost(enums));
    place(&mut made, "ADGPSVELZ", "adgpsvelz", 344, 32, Kind::Float32, false, Ghost(enums));
    place(&mut made, "ADAET2DAY", "adaet2day", 376, 16, Kind::Unsigned, false, Ghost(enums));
    place(&mut made, "ADAET2MS", "adaet2ms", 392, 32, Kind::Unsigned, false, Ghost(enums));
    place(&mut made, "ADAET2US", "adaet2us", 424, 16, Kind::Unsigned, false, Ghost(enums));
    place(&mut made, "ADCFAQ1", "adcfaq1", 440, 32, Kind::Float32, false, Ghost(enums));
    place(&mut made, "ADCFAQ2", "adcfaq2", 472, 32, Kind::Float32, false, Ghost(enums));
    place(&mut made, "ADCFAQ3", "adcfaq3", 504, 32, Kind::Float32, false, Ghost(enums));
    place(&mut made, "ADCFAQ4", "adcfaq4", 536, 32, Kind::Float32, false, Ghost(enums));
    assert(made@.fields =~= jpss_fields());
    made
}

/// Whether a buffer decodes as a mission packet: numbers leave nothing to refuse, so it does
/// wherever there are enough bytes.
pub fn decode_jpss(data: &[u8]) -> (decoded: bool)
    ensures
        decoded == (data@.len() >= 71),
{
    let made = jpss_container();
    let enums: Vec<EnumType> = Vec::new();
    assert(enum_models(enums@) =~= Seq::empty());
    proof {
        lemma_numbers_decode(made@, Seq::empty(), data@.take(71));
    }
    decode(&made, &enums, data).is_ok()
}

} // verus!
