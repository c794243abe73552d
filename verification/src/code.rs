//! The Rust that flight code is made of: how it is spelled, and what it does.
//!
//! The emitter writes text. This module gives that text a meaning: expressions and statements with
//! the values and effects that Rust gives them. The modules below it say of each piece of source
//! that the emitter writes which expression or statement it spells, and what that does to a
//! packet, in the terms in which [`crate::codec`] says it.
//!
//! * [`language`]: the expressions and statements.
//! * [`bits`]: what the code for one run of bits reads and writes.
//! * [`reads`], [`strings`] and [`fields`]: what the code for one field reads.
//! * [`writes`] and [`texts`]: what the code for one field writes.
//! * [`encoding`], [`decoding`] and [`matching`]: what `encode`, `decode` and `matches` do.
//! * [`choices`]: what enums and the dispatcher choose. [`conditions`] and [`calibrators`]: when a
//!   context applies, and what is applied then.
//! * [`built`]: what the code of a layout does that was built from a plan.
//! * [`modules`] and [`documents`]: what a module holds, and what it says of itself.
//! * [`harnesses`]: what a harness draws, and what it expects.
//! * [`spelling`]: how numbers and names are spelled.

pub mod bits;
pub mod built;
pub mod calibrators;
pub mod choices;
pub mod conditions;
pub mod decoding;
pub mod documents;
pub mod encoding;
pub mod fields;
pub mod harnesses;
pub mod language;
pub mod matching;
pub mod modules;
pub mod reads;
pub mod spelling;
pub mod strings;
pub mod texts;
pub mod writes;
