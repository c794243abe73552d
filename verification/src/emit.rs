//! Turning a layout into Rust source.
//!
//! Two rules shape everything here.
//!
//! * Every index is a literal. `encode` and `decode` convert the caller's slice to a reference to
//!   an array of known length once, at the top, and everything after that indexes the array at
//!   offsets computed when the source was written. A literal index into such an array is in
//!   bounds, so no check and no panic is left behind.
//! * A value that does not fit is an error, not a truncation.
//!
//! Source is written as the tokens it stands for: documentation is an attribute, and two operators
//! next to one another have a space between them.

pub mod bits;
pub mod calibrate;
pub mod clean;
pub mod decode;
pub mod encode;
pub mod format;
pub mod helpers;
pub mod items;
pub mod laws;
pub mod text;

use vstd::prelude::*;
use vstd::string::*;

use crate::emit::clean::{is_clean, layout_clean};
use crate::emit::format::{format_source, give_out, given_out, rendered, tokens};
use crate::emit::helpers::{helpers, helpers_text};
use crate::emit::items::{
    container_source, container_text, dispatcher, dispatcher_text, enumeration, enumeration_text,
};
use crate::emit::text::{pad_left, pad_right, padded_left, padded_right};
use crate::layout::{optional_text, ContainerModel, EnumModel, Layout, LayoutModel};
use crate::names::{decimal, decimal_text};

verus! {

// ---------------------------------------------------------------------------------------
// The header
// ---------------------------------------------------------------------------------------

/// The start of the header.
pub const HEADER_HEAD: &'static str = "// Flight encoder and decoder generated from `";

/// What the header says of every module.
pub const HEADER_BODY: &'static str = r#" container(s). Every bit offset, mask and length below was computed when this
// file was generated; nothing consults the XTCE definition at run time.
//
// The code is `no_std`: it names nothing outside `core`, allocates nothing, and
// contains no `unsafe`. `encode` and `decode` have no panicking branch.
//
// Do not edit: regenerate instead. Intended to be included inside a module that
// carries the lint allowances generated code needs, for example:
//
//     #[allow(dead_code, clippy::all, clippy::pedantic)]
//     mod telemetry {
//         include!(concat!(env!("OUT_DIR"), "/telemetry.rs"));
//     }

"#;

/// The lines of the header for the first `count` containers.
pub open spec fn header_lines(containers: Seq<ContainerModel>, count: nat) -> Seq<char>
    decreases count,
{
    if count == 0 {
        Seq::empty()
    } else {
        let container = containers[count - 1];
        header_lines(containers, (count - 1) as nat) + "// "@ + padded_right(
            container.xtce_name,
            28,
        ) + " "@ + padded_left(decimal_text(container.len_bytes as nat), 5) + " byte(s), "@
            + decimal_text(container.fields.len()) + " field(s), "@ + decimal_text(
            container.constants.len(),
        ) + " constant(s)\n"@
    }
}

/// The lines of the header for the containers.
fn list_containers(layout: &Layout) -> (text: String)
    ensures
        text@ == header_lines(layout@.containers, layout@.containers.len()),
{
    let mut text = String::new();
    let mut at: usize = 0;
    while at < layout.containers.len()
        invariant
            at <= layout.containers@.len(),
            text@ == header_lines(layout@.containers, at as nat),
        decreases layout.containers@.len() - at,
    {
        let container = &layout.containers[at];
        assert(layout@.containers[at as int] == container@);
        text.append("// ");
        text.append(pad_right(container.xtce_name.as_str(), 28).as_str());
        text.append(" ");
        text.append(pad_left(decimal(container.len_bytes as u128).as_str(), 5).as_str());
        text.append(" byte(s), ");
        text.append(decimal(container.fields.len() as u128).as_str());
        text.append(" field(s), ");
        text.append(decimal(container.constants.len() as u128).as_str());
        text.append(" constant(s)\n");
        at = at + 1;
    }
    text
}

/// The comment at the top of a module.
pub open spec fn header_text(layout: LayoutModel, source_label: Seq<char>) -> Seq<char> {
    HEADER_HEAD@ + source_label + "` by `xtce-flight`, rooted at `"@ + layout.root_name
        + "`.\n//\n// "@ + decimal_text(layout.containers.len()) + HEADER_BODY@
        + header_lines(layout.containers, layout.containers.len()) + "\n"@
}

/// The comment at the top of a module.
pub fn header(layout: &Layout, source_label: &str) -> (source: String)
    ensures
        source@ == header_text(layout@, source_label@),
{
    let mut source = HEADER_HEAD.to_owned();
    source.append(source_label);
    source.append("` by `xtce-flight`, rooted at `");
    source.append(layout.root_name.as_str());
    source.append("`.\n//\n// ");
    source.append(decimal(layout.containers.len() as u128).as_str());
    source.append(HEADER_BODY);
    source.append(list_containers(layout).as_str());
    source.append("\n");
    source
}

// ---------------------------------------------------------------------------------------
// The module
// ---------------------------------------------------------------------------------------

/// The first `count` enumerations.
pub open spec fn enums_text(enums: Seq<EnumModel>, count: nat) -> Seq<char>
    decreases count,
{
    if count == 0 {
        Seq::empty()
    } else {
        enums_text(enums, (count - 1) as nat) + enumeration_text(enums[count - 1])
    }
}

/// The first `count` containers.
pub open spec fn containers_text(layout: LayoutModel, count: nat) -> Seq<char>
    decreases count,
{
    if count == 0 {
        Seq::empty()
    } else {
        containers_text(layout, (count - 1) as nat) + container_text(
            layout.containers[count - 1],
            layout.enums,
        )
    }
}

/// The source of a module, before it is formatted.
pub open spec fn module_text(layout: LayoutModel) -> Seq<char> {
    enums_text(layout.enums, layout.enums.len()) + containers_text(layout, layout.containers.len())
        + dispatcher_text(layout) + helpers_text(layout)
}

/// The body of a module: its source, formatted if it can be. Unformatted source is still valid
/// Rust, and giving up because the formatter does would be the wrong trade.
pub open spec fn module_body(layout: LayoutModel) -> Seq<char> {
    rendered(module_text(layout), layout_clean(layout))
}

/// The enumerations.
fn enums(layout: &Layout) -> (source: String)
    ensures
        source@ == enums_text(layout@.enums, layout@.enums.len()),
{
    let mut source = String::new();
    let mut at: usize = 0;
    while at < layout.enums.len()
        invariant
            at <= layout.enums@.len(),
            source@ == enums_text(layout@.enums, at as nat),
        decreases layout.enums@.len() - at,
    {
        assert(layout@.enums[at as int] == layout.enums@[at as int]@);
        source.append(enumeration(&layout.enums[at]).as_str());
        at = at + 1;
    }
    source
}

/// The containers.
fn containers(layout: &Layout) -> (source: String)
    requires
        layout@.emittable(),
    ensures
        source@ == containers_text(layout@, layout@.containers.len()),
{
    let mut source = String::new();
    let mut at: usize = 0;
    while at < layout.containers.len()
        invariant
            at <= layout.containers@.len(),
            layout@.emittable(),
            source@ == containers_text(layout@, at as nat),
        decreases layout.containers@.len() - at,
    {
        assert(layout@.containers[at as int] == layout.containers@[at as int]@);
        source.append(container_source(&layout.containers[at], &layout.enums).as_str());
        at = at + 1;
    }
    source
}

/// Renders the source of a module, before it is formatted.
pub fn unformatted(layout: &Layout) -> (source: String)
    requires
        layout@.emittable(),
    ensures
        source@ == module_text(layout@),
{
    let mut source = enums(layout);
    source.append(containers(layout).as_str());
    source.append(dispatcher(layout).as_str());
    source.append(helpers(layout).as_str());
    source
}

/// Puts a module together from its header and what the formatter made of its source or else its
/// tokens as they are printed, if there are any.
pub fn assemble(
    layout: &Layout,
    source_label: &str,
    formatted: &Option<String>,
    printed: &Option<String>,
) -> (source: String)
    requires
        layout@.emittable(),
    ensures
        source@ == header_text(layout@, source_label@) + given_out(
            module_text(layout@),
            optional_text(*formatted),
            optional_text(*printed),
        ),
{
    let mut source = header(layout, source_label);
    source.append(give_out(unformatted(layout), formatted, printed).as_str());
    source
}

/// Renders the whole module.
pub fn module(layout: &Layout, source_label: &str) -> (source: String)
    requires
        layout@.emittable(),
    ensures
        source@ == header_text(layout@, source_label@) + module_body(layout@),
{
    let formatted = if is_clean(layout) {
        format_source(unformatted(layout).as_str())
    } else {
        None
    };
    let printed = match formatted {
        Some(_) => None,
        None => tokens(unformatted(layout).as_str()),
    };
    assemble(layout, source_label, &formatted, &printed)
}

} // verus!
