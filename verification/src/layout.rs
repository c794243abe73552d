//! What an encoder is written from: containers, their fields, and the bits that are not the
//! caller's.
//!
//! * The type a caller supplies for a field is part of the layout: a 12-bit field that took 64
//!   bits would invite a value that does not fit.
//! * A container is chosen by its restriction criteria. Those bits make the packet recognisable,
//!   so they are constants and not fields.

use vstd::arithmetic::power2::*;
use vstd::prelude::*;

pub use crate::builder::build;
pub use crate::names::type_ident;

use crate::plan::{
    Calibration, CalibrationModel, ComparisonModel, ContextComparison, DelimiterModel,
    IntegerCoding, TextCharset, TextDelimiter,
};
use crate::plan::calibration_model;
use crate::scalar::bytes_value;

verus! {

/// Everything the emitter needs.
#[derive(Debug)]
pub struct Layout {
    /// One entry per concrete container, in definition order.
    pub containers: Vec<Container>,
    /// Enumerations lifted out of the fields that use them, deduplicated.
    pub enums: Vec<EnumType>,
    /// Name of the root container.
    pub root_name: String,
}

/// One concrete container: a struct, an `encode` and a `decode`.
#[derive(Debug)]
pub struct Container {
    /// Name as written in the definition.
    pub xtce_name: String,
    /// Name of the generated struct.
    pub type_ident: String,
    /// Total encoded size. A container that is not a whole number of bytes is rounded up,
    /// because a packet is bytes.
    pub len_bytes: usize,
    /// Fields the caller supplies.
    pub fields: Vec<FlightField>,
    /// Bits `encode` writes itself, so that the packet matches this container's criteria.
    pub constants: Vec<Constant>,
    /// Bits the definition fixes without making them a criterion.
    pub fixed: Vec<FixedValue>,
    /// Whether any field borrows from the buffer, which decides if the struct has a lifetime.
    pub borrows: bool,
}

/// A field the caller sets.
#[derive(Debug)]
pub struct FlightField {
    /// Name as written in the definition, for diagnostics.
    pub xtce_name: String,
    /// Name of the generated struct field.
    pub ident: String,
    /// Bit offset from the start of the packet.
    pub bit_offset: usize,
    /// Width in bits.
    pub bit_width: u32,
    /// What the caller supplies and how it becomes bits.
    pub kind: Kind,
    /// Whether its bytes go least significant first.
    pub swap_bytes: bool,
    /// The calibrator that applies where no context does.
    pub calibration: Option<Calibration>,
    /// Calibrators the packet chooses between, tried in order before the default.
    pub contexts: Vec<FlightContext>,
}

/// A restriction criterion, as bits the encoder writes.
#[derive(Clone, Debug)]
pub struct Constant {
    /// The parameter the criterion tests.
    pub xtce_name: String,
    /// That name as a Rust identifier.
    pub ident: String,
    /// Where its bits sit.
    pub bit_offset: usize,
    /// How wide they are.
    pub bit_width: u32,
    /// The value a decoder reports for them, masked to the width.
    pub reported: u64,
    /// The bits to write: the reported value, with its bytes reversed where the field is
    /// little-endian.
    pub raw: u64,
}

/// Bits the definition fixes: a sync marker, a spare nibble, a trailer.
#[derive(Clone, Debug)]
pub struct FixedValue {
    /// The entry's name, if it has one.
    pub xtce_name: Option<String>,
    /// That name as a Rust identifier.
    pub ident: Option<String>,
    /// Where its bits sit.
    pub bit_offset: usize,
    /// How wide they are.
    pub bit_width: u32,
    /// The value, most significant byte first, reduced to the width.
    pub value: Vec<u8>,
}

/// What the caller supplies for a field, and therefore how it is written.
#[derive(Clone, Debug, PartialEq)]
pub enum Kind {
    /// An unsigned integer, in the narrowest Rust type that holds the width.
    Unsigned,
    /// A signed integer, in one of the codings.
    Signed(IntegerCoding),
    /// IEEE-754 binary16, exposed as a binary32. Encoding rounds to nearest, ties to even.
    Float16,
    /// IEEE-754 binary32.
    Float32,
    /// IEEE-754 binary64.
    Float64,
    /// A flag, exposed as `bool`.
    Bool,
    /// An enumeration, exposed as a generated Rust enum. Holds its index in [`Layout::enums`].
    Enumerated(usize),
    /// Text, exposed as `&str`.
    Text {
        /// Which characters are allowed.
        charset: TextCharset,
        /// How the string is delimited inside its fixed buffer.
        delimiter: TextDelimiter,
    },
    /// Raw bytes, exposed as `&[u8]`.
    Binary,
}

/// One generated Rust enum.
#[derive(Clone, Debug)]
pub struct EnumType {
    /// Name of the generated type.
    pub type_ident: String,
    /// `(variant identifier, raw value, label)`, in definition order.
    pub variants: Vec<(String, u64, String)>,
}

/// A calibrator, and when it applies.
#[derive(Debug)]
pub struct FlightContext {
    /// What has to hold of the packet.
    pub criteria: ContextCriterion,
    /// The calibrator to apply then.
    pub calibration: Calibration,
}

/// A condition on the fields of one packet.
#[derive(Debug)]
pub enum ContextCriterion {
    /// One comparison.
    Test(ContextTest),
    /// A conjunction.
    All(Vec<ContextCriterion>),
    /// A disjunction.
    Any(Vec<ContextCriterion>),
}

/// One comparison, resolved to a field of the struct.
#[derive(Clone, Debug)]
pub struct ContextTest {
    /// The parameter whose bits are compared.
    pub xtce_name: String,
    /// The struct field that holds it.
    pub ident: String,
    /// Whether that field is an enumeration.
    pub enumerated: bool,
    /// What is asked of it.
    pub test: ContextComparison,
}

// ---------------------------------------------------------------------------------------
// Contents
// ---------------------------------------------------------------------------------------

/// The contents of a [`Layout`].
pub struct LayoutModel {
    /// See [`Layout::containers`].
    pub containers: Seq<ContainerModel>,
    /// See [`Layout::enums`].
    pub enums: Seq<EnumModel>,
    /// See [`Layout::root_name`].
    pub root_name: Seq<char>,
}

/// The contents of a [`Container`].
pub struct ContainerModel {
    /// See [`Container::xtce_name`].
    pub xtce_name: Seq<char>,
    /// See [`Container::type_ident`].
    pub type_ident: Seq<char>,
    /// See [`Container::len_bytes`].
    pub len_bytes: int,
    /// See [`Container::fields`].
    pub fields: Seq<FieldModel>,
    /// See [`Container::constants`].
    pub constants: Seq<ConstantModel>,
    /// See [`Container::fixed`].
    pub fixed: Seq<FixedModel>,
    /// See [`Container::borrows`].
    pub borrows: bool,
}

/// The contents of a [`FlightField`].
pub struct FieldModel {
    /// See [`FlightField::xtce_name`].
    pub xtce_name: Seq<char>,
    /// See [`FlightField::ident`].
    pub ident: Seq<char>,
    /// See [`FlightField::bit_offset`].
    pub bit_offset: int,
    /// See [`FlightField::bit_width`].
    pub bit_width: int,
    /// See [`FlightField::kind`].
    pub kind: KindModel,
    /// See [`FlightField::swap_bytes`].
    pub swap_bytes: bool,
    /// See [`FlightField::calibration`].
    pub calibration: Option<CalibrationModel>,
    /// See [`FlightField::contexts`].
    pub contexts: Seq<ContextModel>,
}

/// The contents of a [`Constant`].
pub struct ConstantModel {
    /// See [`Constant::xtce_name`].
    pub xtce_name: Seq<char>,
    /// See [`Constant::ident`].
    pub ident: Seq<char>,
    /// See [`Constant::bit_offset`].
    pub bit_offset: int,
    /// See [`Constant::bit_width`].
    pub bit_width: int,
    /// See [`Constant::reported`].
    pub reported: u64,
    /// See [`Constant::raw`].
    pub raw: u64,
}

/// The contents of a [`FixedValue`].
pub struct FixedModel {
    /// See [`FixedValue::xtce_name`].
    pub xtce_name: Option<Seq<char>>,
    /// See [`FixedValue::ident`].
    pub ident: Option<Seq<char>>,
    /// See [`FixedValue::bit_offset`].
    pub bit_offset: int,
    /// See [`FixedValue::bit_width`].
    pub bit_width: int,
    /// See [`FixedValue::value`].
    pub value: Seq<u8>,
}

/// The contents of a [`Kind`].
pub enum KindModel {
    /// See [`Kind::Unsigned`].
    Unsigned,
    /// See [`Kind::Signed`].
    Signed(IntegerCoding),
    /// See [`Kind::Float16`].
    Float16,
    /// See [`Kind::Float32`].
    Float32,
    /// See [`Kind::Float64`].
    Float64,
    /// See [`Kind::Bool`].
    Bool,
    /// See [`Kind::Enumerated`].
    Enumerated(int),
    /// See [`Kind::Text`].
    Text(TextCharset, DelimiterModel),
    /// See [`Kind::Binary`].
    Binary,
}

/// The contents of one variant of an [`EnumType`].
pub struct VariantModel {
    /// The variant's identifier.
    pub ident: Seq<char>,
    /// The value written into the packet.
    pub raw: u64,
    /// The label as the definition spells it.
    pub label: Seq<char>,
}

/// The contents of an [`EnumType`].
pub struct EnumModel {
    /// See [`EnumType::type_ident`].
    pub type_ident: Seq<char>,
    /// See [`EnumType::variants`].
    pub variants: Seq<VariantModel>,
}

/// The contents of a [`FlightContext`].
pub struct ContextModel {
    /// See [`FlightContext::criteria`].
    pub criteria: CriterionModel,
    /// See [`FlightContext::calibration`].
    pub calibration: CalibrationModel,
}

/// The contents of a [`ContextCriterion`].
pub enum CriterionModel {
    /// See [`ContextCriterion::Test`].
    Test(TestModel),
    /// See [`ContextCriterion::All`].
    All(Seq<CriterionModel>),
    /// See [`ContextCriterion::Any`].
    Any(Seq<CriterionModel>),
}

/// The contents of a [`ContextTest`].
pub struct TestModel {
    /// See [`ContextTest::xtce_name`].
    pub xtce_name: Seq<char>,
    /// See [`ContextTest::ident`].
    pub ident: Seq<char>,
    /// See [`ContextTest::enumerated`].
    pub enumerated: bool,
    /// See [`ContextTest::test`].
    pub test: ComparisonModel,
}

impl View for Layout {
    type V = LayoutModel;

    open spec fn view(&self) -> LayoutModel {
        LayoutModel {
            containers: self.containers@.map_values(|container: Container| container@),
            enums: enum_models(self.enums@),
            root_name: self.root_name@,
        }
    }
}

impl View for Container {
    type V = ContainerModel;

    open spec fn view(&self) -> ContainerModel {
        ContainerModel {
            xtce_name: self.xtce_name@,
            type_ident: self.type_ident@,
            len_bytes: self.len_bytes as int,
            fields: self.fields@.map_values(|field: FlightField| field@),
            constants: self.constants@.map_values(|constant: Constant| constant@),
            fixed: self.fixed@.map_values(|fixed: FixedValue| fixed@),
            borrows: self.borrows,
        }
    }
}

impl View for FlightField {
    type V = FieldModel;

    open spec fn view(&self) -> FieldModel {
        FieldModel {
            xtce_name: self.xtce_name@,
            ident: self.ident@,
            bit_offset: self.bit_offset as int,
            bit_width: self.bit_width as int,
            kind: self.kind@,
            swap_bytes: self.swap_bytes,
            calibration: calibration_model(self.calibration),
            contexts: self.contexts@.map_values(|context: FlightContext| context@),
        }
    }
}

impl View for Constant {
    type V = ConstantModel;

    open spec fn view(&self) -> ConstantModel {
        ConstantModel {
            xtce_name: self.xtce_name@,
            ident: self.ident@,
            bit_offset: self.bit_offset as int,
            bit_width: self.bit_width as int,
            reported: self.reported,
            raw: self.raw,
        }
    }
}

/// The text of an optional string.
pub open spec fn optional_text(text: Option<String>) -> Option<Seq<char>> {
    match text {
        Some(text) => Some(text@),
        None => None,
    }
}

impl View for FixedValue {
    type V = FixedModel;

    open spec fn view(&self) -> FixedModel {
        FixedModel {
            xtce_name: optional_text(self.xtce_name),
            ident: optional_text(self.ident),
            bit_offset: self.bit_offset as int,
            bit_width: self.bit_width as int,
            value: self.value@,
        }
    }
}

impl View for Kind {
    type V = KindModel;

    open spec fn view(&self) -> KindModel {
        match *self {
            Kind::Unsigned => KindModel::Unsigned,
            Kind::Signed(coding) => KindModel::Signed(coding),
            Kind::Float16 => KindModel::Float16,
            Kind::Float32 => KindModel::Float32,
            Kind::Float64 => KindModel::Float64,
            Kind::Bool => KindModel::Bool,
            Kind::Enumerated(index) => KindModel::Enumerated(index as int),
            Kind::Text { charset, delimiter } => KindModel::Text(charset, delimiter@),
            Kind::Binary => KindModel::Binary,
        }
    }
}

/// The contents of one variant.
pub open spec fn variant_model(variant: (String, u64, String)) -> VariantModel {
    VariantModel { ident: variant.0@, raw: variant.1, label: variant.2@ }
}

impl View for EnumType {
    type V = EnumModel;

    open spec fn view(&self) -> EnumModel {
        EnumModel {
            type_ident: self.type_ident@,
            variants: self.variants@.map_values(|v: (String, u64, String)| variant_model(v)),
        }
    }
}

/// The contents of a list of enumerations.
pub open spec fn enum_models(enums: Seq<EnumType>) -> Seq<EnumModel> {
    enums.map_values(|definition: EnumType| definition@)
}

impl View for FlightContext {
    type V = ContextModel;

    open spec fn view(&self) -> ContextModel {
        ContextModel { criteria: self.criteria@, calibration: self.calibration@ }
    }
}

impl View for ContextTest {
    type V = TestModel;

    open spec fn view(&self) -> TestModel {
        TestModel {
            xtce_name: self.xtce_name@,
            ident: self.ident@,
            enumerated: self.enumerated,
            test: self.test@,
        }
    }
}

impl View for ContextCriterion {
    type V = CriterionModel;

    open spec fn view(&self) -> CriterionModel {
        criterion_model(*self)
    }
}

/// The contents of a criterion.
pub open spec fn criterion_model(criterion: ContextCriterion) -> CriterionModel
    decreases criterion,
{
    match criterion {
        ContextCriterion::Test(test) => CriterionModel::Test(test@),
        ContextCriterion::All(children) => CriterionModel::All(
            criterion_models(children@, children@.len()),
        ),
        ContextCriterion::Any(children) => CriterionModel::Any(
            criterion_models(children@, children@.len()),
        ),
    }
}

/// The contents of the first `count` criteria of a list.
pub open spec fn criterion_models(children: Seq<ContextCriterion>, count: nat) -> Seq<
    CriterionModel,
>
    decreases children, count,
{
    if count == 0 || count > children.len() {
        Seq::empty()
    } else {
        criterion_models(children, (count - 1) as nat).push(criterion_model(children[count - 1]))
    }
}

/// The first criteria of a list are the same in a longer one.
pub proof fn lemma_criterion_models_prefix(
    short: Seq<ContextCriterion>,
    long: Seq<ContextCriterion>,
    count: nat,
)
    requires
        count <= short.len() <= long.len(),
        forall|i: int| 0 <= i < short.len() ==> short[i] == #[trigger] long[i],
    ensures
        criterion_models(short, count) == criterion_models(long, count),
    decreases count,
{
    if count > 0 {
        lemma_criterion_models_prefix(short, long, (count - 1) as nat);
        assert(short[count - 1] == long[count - 1]);
    }
}

/// The contents of each criterion of a list.
pub proof fn lemma_criterion_models(children: Seq<ContextCriterion>, count: nat)
    requires
        count <= children.len(),
    ensures
        criterion_models(children, count).len() == count,
        forall|i: int|
            0 <= i < count ==> #[trigger] criterion_models(children, count)[i] == criterion_model(
                children[i],
            ),
    decreases count,
{
    if count > 0 {
        lemma_criterion_models(children, (count - 1) as nat);
    }
}

// ---------------------------------------------------------------------------------------
// Validity
// ---------------------------------------------------------------------------------------

impl KindModel {
    /// Whether a value of this kind borrows from the caller's buffer.
    pub open spec fn borrows(self) -> bool {
        self is Text || self is Binary
    }
}

/// Whether a text field can hold its delimiter.
pub open spec fn delimiter_fits(delimiter: DelimiterModel, bit_width: int) -> bool {
    match delimiter {
        DelimiterModel::WholeBuffer => true,
        DelimiterModel::TerminationChar(terminator) => 1 <= terminator.len() && 8
            * terminator.len() <= bit_width,
        DelimiterModel::LeadingSize(size) => size % 8 == 0 && 8 <= size <= 32 && size <= bit_width,
    }
}

impl FieldModel {
    /// Whether code can be written for the field: its place can be counted, and a number has a
    /// width that a Rust type has.
    pub open spec fn emittable(self) -> bool {
        &&& 0 <= self.bit_offset
        &&& 0 <= self.bit_width
        &&& self.bit_offset + self.bit_width <= usize::MAX
        &&& !self.kind.borrows() ==> 1 <= self.bit_width <= 64
        &&& self.kind matches KindModel::Text(_, DelimiterModel::LeadingSize(size)) ==> 1 <= size
            <= 64 && size / 8 <= self.bit_width / 8 && self.bit_offset + size <= usize::MAX
    }

    /// Whether the field lies inside a packet of `len_bytes` bytes, in a shape that can be
    /// written.
    pub open spec fn valid(self, enums: Seq<EnumModel>, len_bytes: int) -> bool {
        &&& 0 <= self.bit_offset
        &&& 0 <= self.bit_width
        &&& self.bit_offset + self.bit_width <= 8 * len_bytes
        &&& self.bit_offset + self.bit_width <= usize::MAX
        &&& if self.kind.borrows() {
            self.bit_offset % 8 == 0 && self.bit_width % 8 == 0
        } else {
            1 <= self.bit_width <= 64 && (self.swap_bytes ==> self.bit_width % 8 == 0)
        }
        &&& match self.kind {
            KindModel::Float16 => self.bit_width == 16,
            KindModel::Float32 => self.bit_width == 32,
            KindModel::Float64 => self.bit_width == 64,
            KindModel::Enumerated(index) => 0 <= index < enums.len(),
            KindModel::Text(_, delimiter) => delimiter_fits(delimiter, self.bit_width),
            _ => true,
        }
    }
}

impl ConstantModel {
    /// Whether code can be written for the criterion.
    pub open spec fn emittable(self) -> bool {
        &&& 0 <= self.bit_offset
        &&& 1 <= self.bit_width <= 64
        &&& self.bit_offset + self.bit_width <= usize::MAX
    }

    /// Whether the criterion's bits lie inside a packet of `len_bytes` bytes.
    pub open spec fn valid(self, len_bytes: int) -> bool {
        &&& 0 <= self.bit_offset
        &&& 1 <= self.bit_width <= 64
        &&& self.bit_offset + self.bit_width <= 8 * len_bytes
        &&& self.bit_offset + self.bit_width <= usize::MAX
        &&& self.raw < pow2(self.bit_width as nat)
    }
}

impl FixedModel {
    /// Whether code can be written for the fixed bits.
    pub open spec fn emittable(self) -> bool {
        &&& 0 <= self.bit_offset
        &&& 1 <= self.bit_width
        &&& self.bit_offset + self.bit_width <= usize::MAX
        &&& if self.bit_width <= 64 {
            self.value.len() <= 8
        } else {
            self.bit_offset / 8 + self.value.len() <= usize::MAX
        }
    }

    /// Whether the fixed bits lie inside a packet of `len_bytes` bytes, in a shape that can be
    /// written: as one literal, or as whole bytes.
    pub open spec fn valid(self, len_bytes: int) -> bool {
        &&& 0 <= self.bit_offset
        &&& 1 <= self.bit_width
        &&& self.bit_offset + self.bit_width <= 8 * len_bytes
        &&& self.bit_offset + self.bit_width <= usize::MAX
        &&& if self.bit_width <= 64 {
            self.value.len() <= 8 && bytes_value(self.value) < pow2(self.bit_width as nat)
        } else {
            self.bit_offset % 8 == 0 && 8 * self.value.len() == self.bit_width
        }
    }
}

impl ContainerModel {
    /// Whether code can be written for the container.
    pub open spec fn emittable(self) -> bool {
        &&& forall|i: int| 0 <= i < self.fields.len() ==> (#[trigger] self.fields[i]).emittable()
        &&& forall|i: int|
            0 <= i < self.constants.len() ==> (#[trigger] self.constants[i]).emittable()
        &&& forall|i: int| 0 <= i < self.fixed.len() ==> (#[trigger] self.fixed[i]).emittable()
    }

    /// Whether every run of bits of the container lies inside it, in a shape that can be
    /// written.
    pub open spec fn valid(self, enums: Seq<EnumModel>) -> bool {
        &&& 0 <= self.len_bytes
        &&& forall|i: int|
            0 <= i < self.fields.len() ==> (#[trigger] self.fields[i]).valid(enums, self.len_bytes)
        &&& forall|i: int|
            0 <= i < self.constants.len() ==> (#[trigger] self.constants[i]).valid(self.len_bytes)
        &&& forall|i: int|
            0 <= i < self.fixed.len() ==> (#[trigger] self.fixed[i]).valid(self.len_bytes)
    }
}

impl LayoutModel {
    /// Whether code can be written for every container.
    pub open spec fn emittable(self) -> bool {
        forall|i: int|
            0 <= i < self.containers.len() ==> (#[trigger] self.containers[i]).emittable()
    }

    /// Whether every container is valid.
    pub open spec fn valid(self) -> bool {
        forall|i: int|
            0 <= i < self.containers.len() ==> (#[trigger] self.containers[i]).valid(self.enums)
    }
}

impl Kind {
    /// Whether a value of this kind borrows from the caller's buffer.
    pub fn borrows(&self) -> (borrows: bool)
        ensures
            borrows == self@.borrows(),
    {
        match self {
            Kind::Text { .. } => true,
            Kind::Binary => true,
            _ => false,
        }
    }
}

impl FixedValue {
    /// The value as one integer, where it is no wider than one.
    pub fn as_u64(&self) -> (value: Option<u64>)
        requires
            self.bit_width <= 64 ==> self.value@.len() <= 8,
        ensures
            value == fixed_as_u64(self@),
    {
        if self.bit_width > 64 {
            return None;
        }
        let mut value: u64 = 0;
        let mut index: usize = 0;
        while index < self.value.len()
            invariant
                index <= self.value@.len() <= 8,
                value == bytes_value(self.value@.take(index as int)),
            decreases self.value@.len() - index,
        {
            proof {
                let next = self.value@.take(index + 1);
                assert(next.drop_last() =~= self.value@.take(index as int));
                crate::scalar::lemma_bytes_value_bound(next);
                lemma2_to64_rest();
                if index + 1 < 8 {
                    lemma_pow2_strictly_increases((8 * (index + 1)) as nat, 64);
                }
            }
            value = value * 256 + self.value[index] as u64;
            index = index + 1;
        }
        assert(self.value@.take(index as int) =~= self.value@);
        proof {
            crate::scalar::lemma_bytes_value_bound(self.value@);
        }
        Some(value)
    }
}

/// The value of fixed bits as one integer, where they are no wider than one.
pub open spec fn fixed_as_u64(fixed: FixedModel) -> Option<u64> {
    if fixed.bit_width > 64 {
        None
    } else {
        Some(bytes_value(fixed.value) as u64)
    }
}

} // verus!
