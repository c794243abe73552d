//! What a definition says, once its containers have been flattened.
//!
//! A [`Plan`] answers where every field sits and how its bits become a value. It is what the
//! front end hands over: inheritance is a tree of [`Node`]s, each edge of it carries the
//! criteria that select the branch, and each concrete container lists its fields with their
//! place in the packet already worked out.

use vstd::prelude::*;

verus! {

/// How an integer's sign is carried in its bits.
#[derive(Clone, Copy, Debug, PartialEq, Eq, Structural)]
pub enum IntegerCoding {
    /// No sign bit.
    Unsigned,
    /// Two's complement.
    TwosComplement,
    /// A sign bit above a magnitude.
    SignMagnitude,
    /// A negative number is the complement of its magnitude.
    OnesComplement,
}

/// A comparison operator.
#[derive(Clone, Copy, Debug, PartialEq, Eq, Structural)]
pub enum CompareOp {
    /// `==`
    Equal,
    /// `!=`
    NotEqual,
    /// `<`
    Less,
    /// `<=`
    LessOrEqual,
    /// `>`
    Greater,
    /// `>=`
    GreaterOrEqual,
}

/// Which characters a text field may hold.
#[derive(Clone, Copy, Debug, PartialEq, Eq, Structural)]
pub enum TextCharset {
    /// Seven-bit characters only.
    UsAscii,
    /// Any text.
    Utf8,
}

/// How a string is delimited inside its fixed buffer.
#[derive(Clone, Debug, PartialEq, Eq)]
pub enum TextDelimiter {
    /// The whole buffer is the string.
    WholeBuffer,
    /// The string ends where these bytes first occur.
    TerminationChar(Vec<u8>),
    /// The string is preceded by its length, counted in bits.
    LeadingSize {
        /// Width of the length itself.
        size_in_bits: u32,
    },
}

/// The contents of a [`TextDelimiter`].
pub enum DelimiterModel {
    /// See [`TextDelimiter::WholeBuffer`].
    WholeBuffer,
    /// See [`TextDelimiter::TerminationChar`].
    TerminationChar(Seq<u8>),
    /// See [`TextDelimiter::LeadingSize`].
    LeadingSize(u32),
}

impl View for TextDelimiter {
    type V = DelimiterModel;

    open spec fn view(&self) -> DelimiterModel {
        match *self {
            TextDelimiter::WholeBuffer => DelimiterModel::WholeBuffer,
            TextDelimiter::TerminationChar(bytes) => DelimiterModel::TerminationChar(bytes@),
            TextDelimiter::LeadingSize { size_in_bits } => DelimiterModel::LeadingSize(
                size_in_bits,
            ),
        }
    }
}

/// One term of a polynomial calibrator.
#[derive(Clone, Debug)]
pub struct Term {
    /// The coefficient, as a Rust floating-point literal.
    pub coefficient: String,
    /// The power the raw value is raised to.
    pub exponent: i32,
}

/// One point of a spline calibrator.
#[derive(Clone, Debug)]
pub struct SplinePoint {
    /// The raw value, as a Rust floating-point literal.
    pub raw: String,
    /// The engineering value, as a Rust floating-point literal.
    pub calibrated: String,
}

/// A spline calibrator.
#[derive(Clone, Debug)]
pub struct Spline {
    /// The points, in ascending order of their raw values.
    pub points: Vec<SplinePoint>,
    /// Zero for steps, one for straight lines.
    pub order: u8,
    /// Whether a value outside the points has an answer.
    pub extrapolate: bool,
}

/// How a raw value becomes an engineering value.
///
/// The numbers are the literals the flight code will hold. Nothing here computes with them.
#[derive(Clone, Debug)]
pub enum Calibration {
    /// A sum of powers of the raw value, in document order.
    Polynomial(Vec<Term>),
    /// Interpolation between points.
    Spline(Spline),
}

/// The contents of a [`Term`].
pub struct TermModel {
    /// See [`Term::coefficient`].
    pub coefficient: Seq<char>,
    /// See [`Term::exponent`].
    pub exponent: i32,
}

/// The contents of a [`SplinePoint`].
pub struct PointModel {
    /// See [`SplinePoint::raw`].
    pub raw: Seq<char>,
    /// See [`SplinePoint::calibrated`].
    pub calibrated: Seq<char>,
}

/// The contents of a [`Calibration`].
pub enum CalibrationModel {
    /// See [`Calibration::Polynomial`].
    Polynomial(Seq<TermModel>),
    /// See [`Calibration::Spline`].
    Spline {
        /// See [`Spline::points`].
        points: Seq<PointModel>,
        /// See [`Spline::order`].
        order: u8,
        /// See [`Spline::extrapolate`].
        extrapolate: bool,
    },
}

impl View for Term {
    type V = TermModel;

    open spec fn view(&self) -> TermModel {
        TermModel { coefficient: self.coefficient@, exponent: self.exponent }
    }
}

impl View for SplinePoint {
    type V = PointModel;

    open spec fn view(&self) -> PointModel {
        PointModel { raw: self.raw@, calibrated: self.calibrated@ }
    }
}

impl View for Calibration {
    type V = CalibrationModel;

    open spec fn view(&self) -> CalibrationModel {
        match *self {
            Calibration::Polynomial(terms) => CalibrationModel::Polynomial(
                terms@.map_values(|term: Term| term@),
            ),
            Calibration::Spline(spline) => CalibrationModel::Spline {
                points: spline.points@.map_values(|point: SplinePoint| point@),
                order: spline.order,
                extrapolate: spline.extrapolate,
            },
        }
    }
}

/// The contents of an optional calibrator.
pub open spec fn calibration_model(calibration: Option<Calibration>) -> Option<CalibrationModel> {
    match calibration {
        Some(calibration) => Some(calibration@),
        None => None,
    }
}

/// What one comparison of a context asks of a value.
#[derive(Clone, Debug)]
pub enum ContextComparison {
    /// A comparison with a number.
    Value {
        /// The operator.
        operator: CompareOp,
        /// The number on its right.
        value: i128,
    },
    /// A comparison with a label, resolved to the inclusive ranges of raw values it stands for.
    Labels(Vec<(i128, i128)>),
}

/// The contents of a [`ContextComparison`].
pub enum ComparisonModel {
    /// See [`ContextComparison::Value`].
    Value(CompareOp, i128),
    /// See [`ContextComparison::Labels`].
    Labels(Seq<(i128, i128)>),
}

impl View for ContextComparison {
    type V = ComparisonModel;

    open spec fn view(&self) -> ComparisonModel {
        match *self {
            ContextComparison::Value { operator, value } => ComparisonModel::Value(operator, value),
            ContextComparison::Labels(ranges) => ComparisonModel::Labels(ranges@),
        }
    }
}

/// How a field's bits become a value.
#[derive(Clone, Debug)]
pub enum Repr {
    /// An unsigned integer.
    Unsigned,
    /// A signed integer, in one of the codings.
    Signed(IntegerCoding),
    /// IEEE-754 binary16.
    Float16,
    /// IEEE-754 binary32.
    Float32,
    /// IEEE-754 binary64.
    Float64,
    /// MIL-STD-1750A.
    MilStd1750A,
    /// A flag.
    Bool,
    /// An enumeration: `(lowest value, highest value, label)`, in definition order.
    Enumerated(Vec<(i128, i128, String)>),
    /// Text.
    Text {
        /// Which characters are allowed.
        charset: TextCharset,
        /// How the string is delimited inside its buffer.
        delimiter: TextDelimiter,
    },
    /// Raw bytes.
    Binary,
}

impl Repr {
    /// Whether a value of this representation is a slice of the packet.
    pub open spec fn spec_borrows(self) -> bool {
        self is Text || self is Binary
    }

    /// Whether a value of this representation is a slice of the packet.
    pub fn borrows(&self) -> (borrows: bool)
        ensures
            borrows == self.spec_borrows(),
    {
        match self {
            Repr::Text { .. } => true,
            Repr::Binary => true,
            _ => false,
        }
    }
}

/// One comparison of a context, by the bits it reads.
#[derive(Clone, Debug)]
pub struct PlanTest {
    /// The parameter whose bits are compared.
    pub xtce_name: String,
    /// Where its bits sit.
    pub bit_offset: usize,
    /// How wide they are.
    pub bit_width: u32,
    /// What is asked of them.
    pub comparison: ContextComparison,
}

/// A condition on the bits of one packet.
#[derive(Debug)]
pub enum PlanCriterion {
    /// One comparison.
    Test(PlanTest),
    /// A conjunction.
    All(Vec<PlanCriterion>),
    /// A disjunction.
    Any(Vec<PlanCriterion>),
}

/// A calibrator, and when it applies.
#[derive(Debug)]
pub struct PlanContext {
    /// What has to hold of the packet.
    pub criteria: PlanCriterion,
    /// The calibrator to apply then.
    pub calibration: Calibration,
}

/// One entry of a container.
#[derive(Debug)]
pub struct Field {
    /// Name as written in the definition.
    pub xtce_name: String,
    /// That name as a Rust identifier.
    pub ident: String,
    /// Offset and width in bits, unless they come from the packet.
    pub span: Option<(usize, u32)>,
    /// How its bits become a value.
    pub repr: Repr,
    /// Whether its bytes go least significant first.
    pub swap_bytes: bool,
    /// The calibrator that applies where no context does.
    pub calibration: Option<Calibration>,
    /// Calibrators the packet chooses between, in order.
    pub contexts: Vec<PlanContext>,
}

/// One comparison of a restriction criterion.
#[derive(Clone, Debug)]
pub struct Guard {
    /// The parameter that is tested.
    pub xtce_name: String,
    /// That name as a Rust identifier.
    pub ident: String,
    /// Where its bits sit.
    pub bit_offset: usize,
    /// How wide they are.
    pub bit_width: u32,
    /// How they are compared.
    pub operator: CompareOp,
    /// What they are compared with. Signed, because the parameter may be.
    pub value: i128,
    /// Whether the parameter's bytes go least significant first.
    pub swap_bytes: bool,
}

/// Bits that the definition fixes.
#[derive(Clone, Debug)]
pub struct FixedEntry {
    /// The entry's name, if it has one.
    pub xtce_name: Option<String>,
    /// That name as a Rust identifier.
    pub ident: Option<String>,
    /// Where its bits sit.
    pub bit_offset: usize,
    /// How wide they are.
    pub bit_width: u32,
    /// The value as it was given, most significant byte first. It may be wider than its bits.
    pub value: Vec<u8>,
}

/// One concrete container, with its inherited entries in front of its own.
#[derive(Debug)]
pub struct ContainerPlan {
    /// Name as written in the definition.
    pub xtce_name: String,
    /// Length in bits, unless it comes from the packet.
    pub bit_length: Option<usize>,
    /// Its entries, in order.
    pub fields: Vec<Field>,
    /// Its fixed values, in order.
    pub fixed: Vec<FixedEntry>,
}

/// A container in the inheritance tree.
#[derive(Debug)]
pub struct Node {
    /// Its position in [`Plan::containers`], if it is concrete.
    pub plan: Option<usize>,
    /// The containers that extend it, each with the criteria that select it.
    pub children: Vec<(Vec<Guard>, Node)>,
}

/// A definition, once its containers have been flattened.
#[derive(Debug)]
pub struct Plan {
    /// The concrete containers.
    pub containers: Vec<ContainerPlan>,
    /// The inheritance tree.
    pub root: Node,
    /// Name of the root container.
    pub root_name: String,
}

/// Why there is no plan.
#[derive(Clone, Debug)]
pub enum PlanError {
    /// No container to start from.
    NoSuchContainer {
        /// The name that was looked up.
        name: String,
    },
    /// There is no unambiguous container to start from, and none was named.
    AmbiguousRoot,
    /// Anything else, in words.
    Other(String),
}

} // verus!
