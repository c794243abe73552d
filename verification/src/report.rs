//! What would be generated, said in a few lines.

use vstd::prelude::*;
use vstd::string::*;

use crate::emit::text::{pad_left, pad_right, padded_left, padded_right};
use crate::layout::{Container, ContainerModel, Layout, LayoutModel};
use crate::names::{decimal, decimal_text};

verus! {

/// The line of one container.
pub open spec fn container_line(container: ContainerModel) -> Seq<char> {
    "  "@ + padded_right(container.xtce_name, 30) + " "@ + padded_left(
        decimal_text(container.len_bytes as nat),
        5,
    ) + " byte(s)  "@ + padded_left(decimal_text(container.fields.len()), 3) + " field(s)  "@
        + padded_left(decimal_text(container.constants.len()), 2) + " criterion(s)\n"@
}

/// The lines of the first `count` containers.
pub open spec fn container_lines(containers: Seq<ContainerModel>, count: nat) -> Seq<char>
    decreases count,
{
    if count == 0 {
        Seq::empty()
    } else {
        container_lines(containers, (count - 1) as nat) + container_line(containers[count - 1])
    }
}

/// The definition, its root, and a line per container.
pub open spec fn summary_text(layout: LayoutModel, definition: Seq<char>) -> Seq<char> {
    definition + "\n"@ + "  rooted at "@ + layout.root_name + ": "@ + decimal_text(
        layout.containers.len(),
    ) + " container(s), "@ + decimal_text(layout.enums.len()) + " enumeration(s)\n"@
        + container_lines(layout.containers, layout.containers.len())
}

/// The line of one container.
fn line(container: &Container) -> (text: String)
    ensures
        text@ == container_line(container@),
{
    let mut text = "  ".to_owned();
    text.append(pad_right(container.xtce_name.as_str(), 30).as_str());
    text.append(" ");
    text.append(pad_left(decimal(container.len_bytes as u128).as_str(), 5).as_str());
    text.append(" byte(s)  ");
    text.append(pad_left(decimal(container.fields.len() as u128).as_str(), 3).as_str());
    text.append(" field(s)  ");
    text.append(pad_left(decimal(container.constants.len() as u128).as_str(), 2).as_str());
    text.append(" criterion(s)\n");
    text
}

/// What would be generated from a definition.
pub fn summary(layout: &Layout, definition: &str) -> (text: String)
    ensures
        text@ == summary_text(layout@, definition@),
{
    let mut text = definition.to_owned();
    text.append("\n");
    text.append("  rooted at ");
    text.append(layout.root_name.as_str());
    text.append(": ");
    text.append(decimal(layout.containers.len() as u128).as_str());
    text.append(" container(s), ");
    text.append(decimal(layout.enums.len() as u128).as_str());
    text.append(" enumeration(s)\n");
    let mut lines = String::new();
    let mut at: usize = 0;
    while at < layout.containers.len()
        invariant
            at <= layout.containers@.len(),
            lines@ == container_lines(layout@.containers, at as nat),
        decreases layout.containers@.len() - at,
    {
        lines.append(line(&layout.containers[at]).as_str());
        at = at + 1;
    }
    text.append(lines.as_str());
    text
}

} // verus!
