//! The parts of a module that every definition shares.

use vstd::prelude::*;
use vstd::string::*;

use crate::layout::{ContextModel, FieldModel, FlightField, Kind, KindModel, Layout, LayoutModel};
use crate::plan::{Calibration, CalibrationModel, TextDelimiter};

verus! {

/// The two error types and their messages.
pub const ERRORS: &'static str = r#"#[doc = r" Why a packet could not be encoded."]
#[derive(Clone, Copy, PartialEq, Eq, Debug)]
pub enum EncodeError {
    #[doc = r" The buffer is smaller than the container needs."]
    TooShort {
        #[doc = r" Bytes the container needs."]
        needed: usize,
    },
    #[doc = r" A value does not fit the bits the definition gives its parameter."]
    OutOfRange {
        #[doc = r" The parameter, named as the definition spells it."]
        parameter: & 'static str,
    },
    #[doc = r" A string does not fit its field, or does not fill it."]
    TextLength {
        #[doc = r" The parameter, named as the definition spells it."]
        parameter: & 'static str,
    },
    #[doc = r" A string contains the byte sequence that terminates it."]
    EmbeddedTerminator {
        #[doc = r" The parameter, named as the definition spells it."]
        parameter: & 'static str,
    },
    #[doc = r" A string holds characters its declared character set cannot represent."]
    InvalidText {
        #[doc = r" The parameter, named as the definition spells it."]
        parameter: & 'static str,
    },
    #[doc = r" A binary value is not exactly as wide as its field."]
    BinaryLength {
        #[doc = r" The parameter, named as the definition spells it."]
        parameter: & 'static str,
    },
}
impl core::fmt::Display for EncodeError {
    fn fmt(&self, f: &mut core::fmt::Formatter< '_>) -> core::fmt::Result {
        match self {
            Self::TooShort { needed } => {
                write!(f, "buffer is smaller than the {needed} byte(s) the container needs")
            }
            Self::OutOfRange { parameter } => {
                write!(f, "{parameter}: value does not fit the field")
            }
            Self::TextLength { parameter } => {
                write!(f, "{parameter}: string does not fit the field")
            }
            Self::EmbeddedTerminator { parameter } => {
                write!(f, "{parameter}: string contains its own terminator")
            }
            Self::InvalidText { parameter } => {
                write!(f, "{parameter}: characters outside the declared character set")
            }
            Self::BinaryLength { parameter } => {
                write!(f, "{parameter}: value is not exactly as wide as the field")
            }
        }
    }
}
impl core::error::Error for EncodeError {}
#[doc = r" Why a packet could not be decoded."]
#[derive(Clone, Copy, PartialEq, Eq, Debug)]
pub enum DecodeError {
    #[doc = r" The packet is shorter than the container it was read as."]
    TooShort {
        #[doc = r" Bytes the container needs."]
        needed: usize,
    },
    #[doc = r" No container's restriction criteria hold."]
    Unrecognized,
    #[doc = r" More than one container's restriction criteria hold."]
    Ambiguous,
    #[doc = r" A field's bytes are not valid text."]
    InvalidText {
        #[doc = r" The parameter, named as the definition spells it."]
        parameter: & 'static str,
    },
    #[doc = r" A terminated string has no terminator inside its buffer."]
    UnterminatedString {
        #[doc = r" The parameter, named as the definition spells it."]
        parameter: & 'static str,
    },
    #[doc = r" A length-prefixed string declares a length its buffer cannot hold."]
    BadStringLength {
        #[doc = r" The parameter, named as the definition spells it."]
        parameter: & 'static str,
    },
    #[doc = r" An enumerated field holds a value the definition has no label for."]
    UnknownLabel {
        #[doc = r" The parameter, named as the definition spells it."]
        parameter: & 'static str,
    },
    #[doc = r" A spline calibrator was asked for a value outside its points, and the"]
    #[doc = r" definition does not allow extrapolation."]
    Calibration {
        #[doc = r" The parameter, named as the definition spells it."]
        parameter: & 'static str,
    },
}
impl core::fmt::Display for DecodeError {
    fn fmt(&self, f: &mut core::fmt::Formatter< '_>) -> core::fmt::Result {
        match self {
            Self::TooShort { needed } => {
                write!(f, "packet is shorter than the {needed} byte(s) the container needs")
            }
            Self::Unrecognized => write!(f, "no container's restriction criteria hold"),
            Self::Ambiguous => {
                write!(f, "more than one container's restriction criteria hold")
            }
            Self::InvalidText { parameter } => {
                write!(f, "{parameter}: bytes are not valid text")
            }
            Self::UnterminatedString { parameter } => {
                write!(f, "{parameter}: termination character not found")
            }
            Self::BadStringLength { parameter } => {
                write!(f, "{parameter}: leading size is larger than the buffer")
            }
            Self::UnknownLabel { parameter } => {
                write!(f, "{parameter}: no label for this value")
            }
            Self::Calibration { parameter } => write!(
                f,
                "{parameter}: query point falls outside the spline points and \
                         extrapolate is false"
            ),
        }
    }
}
impl core::error::Error for DecodeError {}
"#;

/// The conversions between binary16 and binary32.
pub const HALF_HELPERS: &'static str = r#"#[doc = r" Widens IEEE-754 binary16 to `f32`, exactly."]
#[doc = r""]
#[doc = r" Public because a caller that has to build a binary16 value by hand — a test"]
#[doc = r" fixture, a ground tool checking what the spacecraft will see — needs the same"]
#[doc = r" conversion the generated code uses, not a second one that might differ."]
#[doc = r""]
#[doc = r" Every binary16 value is representable in `f32`, subnormals included, so this"]
#[doc = r" loses nothing. A binary16 subnormal is a normal `f32`, which is why the"]
#[doc = r" subnormal arm renormalises rather than shifting the fraction into place."]
pub fn half_to_f32(bits: u16) -> f32 {
    let sign = u32::from(bits & 0x8000) << 16;
    let exponent = u32::from((bits >> 10) & 0x1F);
    let fraction = u32::from(bits & 0x03FF);
    match exponent {
        0 if fraction == 0 => f32::from_bits(sign),
        0 => {
            let shift = fraction.leading_zeros() - 21;
            let fraction = (fraction << shift) & 0x03FF;
            let exponent = 113 - shift;
            f32::from_bits(sign | (exponent << 23) | (fraction << 13))
        }
        0x1F => f32::from_bits(sign | 0x7F80_0000 | (fraction << 13)),
        _ => f32::from_bits(sign | ((exponent + 127 - 15) << 23) | (fraction << 13)),
    }
}
#[doc = r" Narrows `f32` to IEEE-754 binary16, rounding to nearest and ties to even."]
#[doc = r""]
#[doc = r" Rounding, not rejection: a flight computer holding a temperature in `f32` should"]
#[doc = r" be able to put it in a 16-bit field, and the definition already said how much"]
#[doc = r" precision that field has. What the ground reads back is this rounded value."]
pub fn f32_to_half(value: f32) -> u16 {
    let bits = value.to_bits();
    let sign = ((bits >> 16) & 0x8000) as u16;
    let exponent = ((bits >> 23) & 0xFF) as i32;
    let fraction = bits & 0x007F_FFFF;
    if exponent == 0xFF {
        let payload = if fraction == 0 {
            0
        } else {
            ((fraction >> 13) as u16) | 0x0200
        };
        return sign | 0x7C00 | payload;
    }
    let unbiased = exponent - 127;
    if unbiased > 15 {
        return sign | 0x7C00;
    }
    if unbiased < -25 {
        return sign;
    }
    if unbiased < -14 {
        let shift = (-14 - unbiased) as u32;
        let significand = fraction | 0x0080_0000;
        let total = 13 + shift;
        let truncated = significand >> total;
        let remainder = significand & ((1u32 << total) - 1);
        let halfway = 1u32 << (total - 1);
        let round =
            u32::from(remainder > halfway || (remainder == halfway && truncated & 1 == 1));
        return sign | ((truncated + round) as u16);
    }
    let truncated = (((unbiased + 15) as u32) << 10) | (fraction >> 13);
    let remainder = fraction & 0x1FFF;
    let round =
        u32::from(remainder > 0x1000 || (remainder == 0x1000 && truncated & 1 == 1));
    sign | ((truncated + round) as u16)
}
"#;

/// The search for a terminator, and for one that stands too early.
pub const FIND: &'static str = r#"#[doc = r" The index of the first occurrence of `needle` in `haystack`."]
#[doc = r""]
#[doc = r" A plain scan, matching what the reference implementation does. `windows`"]
#[doc = r" would panic on an empty needle, which cannot happen here: a definition with"]
#[doc = r" an empty termination character is refused when the code is generated."]
fn find(haystack: &[u8], needle: &[u8]) -> Option<usize> {
    if needle.is_empty() || haystack.len() < needle.len() {
        return None;
    }
    let mut at = 0usize;
    while at + needle.len() <= haystack.len() {
        match haystack.get(at..at + needle.len()) {
            Some(window) if window == needle => return Some(at),
            _ => {}
        }
        at += 1;
    }
    None
}
#[doc = r" Whether `terminator` behind `text` is found before the end of `text`: inside it, or beginning"]
#[doc = r" in it and ending behind it. Either would make the decoded value a prefix of what was encoded."]
fn ends_early(text: &[u8], terminator: &[u8]) -> bool {
    (0..text.len()).any(|at| {
        text.iter()
            .skip(at)
            .chain(terminator)
            .zip(terminator)
            .all(|(found, wanted)| found == wanted)
    })
}
"#;

/// Powers of a float, in the order of multiplications that `powi` uses.
pub const POWI: &'static str = r#"fn powi(x: f64, exponent: i32) -> f64 {
    let mut remaining = exponent.unsigned_abs();
    let mut result = 1.0f64;
    let mut base = x;
    let mut started = false;
    while remaining > 0 {
        if remaining & 1 == 1 {
            result = if started { result * base } else { base };
            started = true;
        }
        remaining >>= 1;
        if remaining > 0 {
            base = base * base;
        }
    }
    let value = if started { result } else { 1.0 };
    if exponent < 0 { 1.0 / value } else { value }
}
"#;

/// Powers of a whole number: exact, and rounded once.
pub const INTEGER_POWER: &'static str = r#"fn integer_power(base: i128, exponent: i32) -> f64 {
    if exponent < 0 {
        return powi(base as f64, exponent);
    }
    match u32::try_from(exponent)
        .ok()
        .and_then(|exponent| base.checked_pow(exponent))
    {
        Some(exact) => exact as f64,
        None => powi(base as f64, exponent),
    }
}
"#;

/// Interpolation between the points of a spline.
pub const SPLINE_HELPERS: &'static str = r#"fn spline_line(x: f64, x0: f64, x1: f64, y0: f64, y1: f64) -> f64 {
    if (x1 - x0) == 0.0 {
        return y0;
    }
    let slope = (y1 - y0) / (x1 - x0);
    slope * (x - x0) + y0
}
fn spline_value(
    points: &[(f64, f64)],
    order: u8,
    extrapolate: bool,
    query: f64,
) -> Option<f64> {
    let first = *points.first()? ;
    let last = *points.last()? ;
    if query < first.0 {
        if !extrapolate {
            return None;
        }
        return Some(match order {
            0 => first.1,
            _ => match points.get(1) {
                Some(second) => {
                    spline_line(query, first.0, second.0, first.1, second.1)
                }
                None => first.1,
            },
        });
    }
    if query > last.0 {
        if !extrapolate {
            return None;
        }
        return Some(match order {
            0 => last.1,
            _ => match points.len().checked_sub(2).and_then(|at| points.get(at)) {
                Some(previous) => {
                    spline_line(query, previous.0, last.0, previous.1, last.1)
                }
                None => last.1,
            },
        });
    }
    let hi = points.partition_point(|point| point.0 <= query).max(1);
    Some(match order {
        0 => points
            .get(hi.saturating_sub(1))
            .map_or(first.1, |point| point.1),
        _ => {
            if points.len() < 2 {
                return Some(first.1);
            }
            let upper = hi.min(points.len() - 1);
            match (points.get(upper.saturating_sub(1)), points.get(upper)) {
                (Some(lower), Some(higher)) => {
                    spline_line(query, lower.0, higher.0, lower.1, higher.1)
                }
                _ => first.1,
            }
        }
    })
}
"#;

/// Which shared parts code needs.
#[derive(Clone, Copy, Debug, PartialEq, Eq, Structural)]
pub struct Needs {
    /// A binary16 field.
    pub half: bool,
    /// A terminated string.
    pub find: bool,
    /// Any polynomial.
    pub powi: bool,
    /// A polynomial over whole numbers.
    pub power: bool,
    /// Any spline.
    pub spline: bool,
}

/// What either of two parts needs.
pub open spec fn either(a: Needs, b: Needs) -> Needs {
    Needs {
        half: a.half || b.half,
        find: a.find || b.find,
        powi: a.powi || b.powi,
        power: a.power || b.power,
        spline: a.spline || b.spline,
    }
}

/// Nothing.
pub open spec fn no_needs() -> Needs {
    Needs { half: false, find: false, powi: false, power: false, spline: false }
}

/// What a calibrator needs. The exact power is reached from whole numbers only, and falls back on
/// the other one.
pub open spec fn calibration_needs(kind: KindModel, calibration: CalibrationModel) -> Needs {
    match calibration {
        CalibrationModel::Polynomial(_) => Needs {
            powi: true,
            power: kind is Unsigned || kind is Signed,
            ..no_needs()
        },
        CalibrationModel::Spline { .. } => Needs { spline: true, ..no_needs() },
    }
}

/// What the first `count` contexts of a field need.
pub open spec fn contexts_need(kind: KindModel, contexts: Seq<ContextModel>, count: nat) -> Needs
    decreases count,
{
    if count == 0 {
        no_needs()
    } else {
        either(
            contexts_need(kind, contexts, (count - 1) as nat),
            calibration_needs(kind, contexts[count - 1].calibration),
        )
    }
}

/// What a field needs: what its kind does, and every calibrator it can apply.
pub open spec fn field_needs(field: FieldModel) -> Needs {
    let kind = Needs {
        half: field.kind is Float16,
        find: field.kind matches KindModel::Text(_, delimiter) && delimiter is TerminationChar,
        ..no_needs()
    };
    let default = match field.calibration {
        Some(calibration) => calibration_needs(field.kind, calibration),
        None => no_needs(),
    };
    either(
        either(kind, default),
        contexts_need(field.kind, field.contexts, field.contexts.len()),
    )
}

/// What the first `count` fields need.
pub open spec fn fields_need(fields: Seq<FieldModel>, count: nat) -> Needs
    decreases count,
{
    if count == 0 {
        no_needs()
    } else {
        either(fields_need(fields, (count - 1) as nat), field_needs(fields[count - 1]))
    }
}

/// What the first `count` containers need.
pub open spec fn layout_needs(layout: LayoutModel, count: nat) -> Needs
    decreases count,
{
    if count == 0 {
        no_needs()
    } else {
        let fields = layout.containers[count - 1].fields;
        either(layout_needs(layout, (count - 1) as nat), fields_need(fields, fields.len()))
    }
}

/// A part, where it is needed.
pub open spec fn part(needed: bool, source: Seq<char>) -> Seq<char> {
    if needed {
        source
    } else {
        ""@
    }
}

/// The shared parts, with those that a set of needs asks for.
pub open spec fn needed_text(needs: Needs) -> Seq<char> {
    ERRORS@ + part(needs.half, HALF_HELPERS@) + part(needs.find, FIND@) + part(needs.powi, POWI@)
        + part(needs.power, INTEGER_POWER@) + part(needs.spline, SPLINE_HELPERS@)
}

/// The shared parts of a module.
pub open spec fn helpers_text(layout: LayoutModel) -> Seq<char> {
    needed_text(layout_needs(layout, layout.containers.len()))
}

/// What either of two parts needs.
fn join(a: Needs, b: Needs) -> (needs: Needs)
    ensures
        needs == either(a, b),
{
    Needs {
        half: a.half || b.half,
        find: a.find || b.find,
        powi: a.powi || b.powi,
        power: a.power || b.power,
        spline: a.spline || b.spline,
    }
}

/// Nothing.
fn nothing() -> (needs: Needs)
    ensures
        needs == no_needs(),
{
    Needs { half: false, find: false, powi: false, power: false, spline: false }
}

/// What a calibrator needs.
fn needs_of_calibration(kind: &Kind, calibration: &Calibration) -> (needs: Needs)
    ensures
        needs == calibration_needs(kind@, calibration@),
{
    match calibration {
        Calibration::Polynomial(_) => {
            let power = match kind {
                Kind::Unsigned => true,
                Kind::Signed(_) => true,
                _ => false,
            };
            Needs { half: false, find: false, powi: true, power, spline: false }
        },
        Calibration::Spline(_) => Needs {
            half: false,
            find: false,
            powi: false,
            power: false,
            spline: true,
        },
    }
}

/// What a field needs.
fn needs_of_field(field: &FlightField) -> (needs: Needs)
    ensures
        needs == field_needs(field@),
{
    let half = match &field.kind {
        Kind::Float16 => true,
        _ => false,
    };
    let find = match &field.kind {
        Kind::Text { delimiter: TextDelimiter::TerminationChar(_), .. } => true,
        _ => false,
    };
    let mut needs = Needs { half, find, powi: false, power: false, spline: false };
    match &field.calibration {
        Some(calibration) => {
            needs = join(needs, needs_of_calibration(&field.kind, calibration));
        },
        None => {},
    }
    let mut chosen = nothing();
    let mut at: usize = 0;
    while at < field.contexts.len()
        invariant
            at <= field.contexts@.len(),
            chosen == contexts_need(field@.kind, field@.contexts, at as nat),
        decreases field.contexts@.len() - at,
    {
        assert(field@.contexts[at as int] == field.contexts@[at as int]@);
        chosen =
        join(chosen, needs_of_calibration(&field.kind, &field.contexts[at].calibration));
        at = at + 1;
    }
    join(needs, chosen)
}

/// What the code of a layout needs.
fn needs_of_layout(layout: &Layout) -> (needs: Needs)
    ensures
        needs == layout_needs(layout@, layout@.containers.len()),
{
    let mut needs = nothing();
    let mut index: usize = 0;
    while index < layout.containers.len()
        invariant
            index <= layout.containers@.len(),
            needs == layout_needs(layout@, index as nat),
        decreases layout.containers@.len() - index,
    {
        let container = &layout.containers[index];
        assert(layout@.containers[index as int] == container@);
        let mut inside = nothing();
        let mut at: usize = 0;
        while at < container.fields.len()
            invariant
                at <= container.fields@.len(),
                inside == fields_need(container@.fields, at as nat),
            decreases container.fields@.len() - at,
        {
            assert(container@.fields[at as int] == container.fields@[at as int]@);
            inside = join(inside, needs_of_field(&container.fields[at]));
            at = at + 1;
        }
        needs = join(needs, inside);
        index = index + 1;
    }
    needs
}

/// A part, where it is needed.
fn choose_part(needed: bool, source: &'static str) -> (chosen: &'static str)
    ensures
        chosen@ == part(needed, source@),
{
    if needed {
        source
    } else {
        ""
    }
}

/// The shared parts of a module: the errors, and of the rest what its fields need.
pub fn helpers(layout: &Layout) -> (source: String)
    ensures
        source@ == helpers_text(layout@),
{
    let needs = needs_of_layout(layout);
    let mut source = ERRORS.to_owned();
    source.append(choose_part(needs.half, HALF_HELPERS));
    source.append(choose_part(needs.find, FIND));
    source.append(choose_part(needs.powi, POWI));
    source.append(choose_part(needs.power, INTEGER_POWER));
    source.append(choose_part(needs.spline, SPLINE_HELPERS));
    source
}

} // verus!
