//! Compiles an XTCE definition into a `no_std` Rust encoder and decoder for on-board use.
//!
//! Ground software reads packets. Flight software writes them, on a part with no heap, no
//! operating system and a hard rule against a code path that can panic. Given a plan of a
//! definition, this library decides what an encoder looks like, refuses by name what cannot be
//! encoded, and renders a `struct` per container with `encode` and `decode`.
//!
//! * [`plan`] is what comes in: a definition whose containers have been flattened.
//! * [`layout`] and [`builder`] are what an encoder is written from, and how it is decided.
//! * [`emit`] and [`harness`] render source from a layout.
//! * [`codec`] does what the rendered code does, from the layout itself, so that its behaviour can
//!   be stated and proved for every container. [`bits`], [`scalar`] and [`half`] are its parts, and
//!   [`calibration`] says which of a field's calibrators a packet chooses.
//! * [`code`] gives flight code a meaning, and holds what the emitted source does by it.
//! * [`fidelity`], [`roundtrip`] and [`structure`] hold what is true of all of these together.
//! * [`missions`] lays out a handful of definitions and encodes packets of them.
//! * [`report`] says what would be generated.

pub mod bits;
pub mod builder;
pub mod calibration;
pub mod code;
pub mod codec;
pub mod emit;
pub mod error;
pub mod fidelity;
pub mod half;
pub mod harness;
pub mod layout;
pub mod missions;
pub mod names;
pub mod plan;
pub mod report;
pub mod roundtrip;
pub mod scalar;
pub mod structure;

use vstd::prelude::*;
use vstd::string::*;

pub use crate::error::FlightError;
pub use crate::layout::{
    Constant, Container, ContextCriterion, ContextTest, EnumType, FixedValue, FlightContext,
    FlightField, Kind, Layout,
};
pub use crate::plan::{Plan, PlanError};

use crate::builder::{build, layout_of};
use crate::emit::{header_text, module, module_body};
use crate::error::ErrorModel;
use crate::layout::LayoutModel;
use crate::structure::{lemma_layout_emittable, plan_counts};

verus! {

/// What to generate.
#[derive(Clone, Debug)]
pub struct Options {
    /// Container to start from. Defaults to the definition's own root.
    pub root: Option<String>,
    /// Text recorded in the generated file's header, usually the source path.
    pub source_label: Option<String>,
}

impl Default for Options {
    fn default() -> (options: Options)
        ensures
            options.root is None,
            options.source_label is None,
    {
        Options { root: None, source_label: None }
    }
}

/// What a definition is laid out as, or why it is not.
pub open spec fn laid_out(planned: Result<Plan, PlanError>) -> Result<LayoutModel, ErrorModel> {
    match planned {
        Ok(plan) => layout_of(plan),
        Err(PlanError::NoSuchContainer { name }) => Err(ErrorModel::NoSuchContainer(name@)),
        Err(PlanError::AmbiguousRoot) => Err(ErrorModel::AmbiguousRoot),
        Err(PlanError::Other(text)) => Err(ErrorModel::Plan(text@)),
    }
}

/// Where the source says it comes from: the label that was asked for, or else the place the
/// definition was read from, or else nowhere.
pub open spec fn label_of(options: Options, origin: Option<String>) -> Seq<char> {
    match options.source_label {
        Some(label) => label@,
        None => match origin {
            Some(origin) => origin@,
            None => "<memory>"@,
        },
    }
}

/// Analyses a definition without generating code, to report what would compile.
pub fn layout(planned: &Result<Plan, PlanError>) -> (result: Result<Layout, FlightError>)
    ensures
        match laid_out(*planned) {
            Ok(model) => result matches Ok(layout) && layout@ == model,
            Err(error) => result matches Err(found) && found@ == error,
        },
{
    match planned {
        Ok(plan) => build(plan),
        Err(PlanError::NoSuchContainer { name }) => Err(
            FlightError::NoSuchContainer { name: name.clone() },
        ),
        Err(PlanError::AmbiguousRoot) => Err(FlightError::AmbiguousRoot),
        Err(PlanError::Other(text)) => Err(FlightError::Plan(text.clone())),
    }
}

/// Compiles a definition into `no_std` Rust source. `origin` is where the definition was read
/// from, if it was read from anywhere.
pub fn generate(
    planned: &Result<Plan, PlanError>,
    options: &Options,
    origin: &Option<String>,
) -> (result: Result<String, FlightError>)
    requires
        *planned matches Ok(plan) ==> plan_counts(plan),
    ensures
        match laid_out(*planned) {
            Ok(model) => result matches Ok(source) && source@ == header_text(
                model,
                label_of(*options, *origin),
            ) + module_body(model),
            Err(error) => result matches Err(found) && found@ == error,
        },
{
    match layout(planned) {
        Ok(found) => {
            proof {
                lemma_layout_emittable(planned->Ok_0);
            }
            let source = match &options.source_label {
                Some(label) => module(&found, label.as_str()),
                None => match origin {
                    Some(origin) => module(&found, origin.as_str()),
                    None => module(&found, "<memory>"),
                },
            };
            Ok(source)
        },
        Err(error) => Err(error),
    }
}

} // verus!
