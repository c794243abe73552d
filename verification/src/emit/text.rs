//! Pieces of source text.

use vstd::prelude::*;
use vstd::string::*;

use crate::names::{decimal, decimal_text};

verus! {

/// Whether a string holds nothing that a Rust string literal escapes: printable ASCII, without
/// quotation marks and backslashes.
pub open spec fn is_plain(text: Seq<char>) -> bool {
    forall|i: int|
        0 <= i < text.len() ==> ' ' <= #[trigger] text[i] <= '~' && text[i] != '"' && text[i]
            != '\\'
}

/// What `proc_macro2::Literal::string` prints for a string that it has to escape.
pub uninterp spec fn escaped_literal(text: Seq<char>) -> Seq<char>;

/// A Rust string literal that stands for a string: the string between quotation marks, with
/// escapes where it needs them.
pub open spec fn string_literal(text: Seq<char>) -> Seq<char> {
    if is_plain(text) {
        "\""@ + text + "\""@
    } else {
        escaped_literal(text)
    }
}

/// `proc_macro2::Literal::string`, printed.
///
/// Taken on trust, of a program that is no procedural macro: the literal depends on the string
/// alone, and is the string between quotation marks where there is nothing to escape.
#[verifier::external_body]
pub(crate) fn literal(text: &str) -> (source: String)
    ensures
        is_plain(text@) ==> source@ == "\""@ + text@ + "\""@,
        !is_plain(text@) ==> source@ == escaped_literal(text@),
{
    proc_macro2::Literal::string(text).to_string()
}

/// An attribute that documents the item behind it.
pub open spec fn doc_attribute(doc: Seq<char>) -> Seq<char> {
    "#[doc = "@ + string_literal(doc) + "]\n"@
}

/// An attribute that documents the item behind it.
pub fn doc_line(doc: &str) -> (source: String)
    ensures
        source@ == doc_attribute(doc@),
{
    let mut source = "#[doc = ".to_owned();
    source.append(literal(doc).as_str());
    source.append("]\n");
    source
}

/// So many spaces.
pub open spec fn spaces(count: nat) -> Seq<char> {
    Seq::new(count, |i: int| ' ')
}

/// A text followed by spaces up to a width.
pub open spec fn padded_right(text: Seq<char>, width: nat) -> Seq<char> {
    if text.len() < width {
        text + spaces((width - text.len()) as nat)
    } else {
        text
    }
}

/// A text preceded by spaces up to a width.
pub open spec fn padded_left(text: Seq<char>, width: nat) -> Seq<char> {
    if text.len() < width {
        spaces((width - text.len()) as nat) + text
    } else {
        text
    }
}

/// So many spaces.
fn blank_text(count: usize) -> (text: String)
    ensures
        text@ == spaces(count as nat),
{
    let mut text = String::new();
    let mut at: usize = 0;
    assert(text@ =~= spaces(0));
    while at < count
        invariant
            at <= count,
            text@ == spaces(at as nat),
        decreases count - at,
    {
        text.push(' ');
        at = at + 1;
        assert(text@ =~= spaces(at as nat));
    }
    text
}

/// A text followed by spaces up to a width.
pub fn pad_right(text: &str, width: usize) -> (padded: String)
    ensures
        padded@ == padded_right(text@, width as nat),
{
    let mut padded = text.to_owned();
    let len = text.unicode_len();
    if len < width {
        padded.append(blank_text(width - len).as_str());
    }
    padded
}

/// A text preceded by spaces up to a width.
pub fn pad_left(text: &str, width: usize) -> (padded: String)
    ensures
        padded@ == padded_left(text@, width as nat),
{
    let len = text.unicode_len();
    if len < width {
        let mut padded = blank_text(width - len);
        padded.append(text);
        padded
    } else {
        text.to_owned()
    }
}

/// A name without the underscores at its end.
pub open spec fn trimmed(name: Seq<char>) -> Seq<char>
    decreases name.len(),
{
    if name.len() > 0 && name.last() == '_' {
        trimmed(name.drop_last())
    } else {
        name
    }
}

/// A name without the underscores at its end.
pub fn trim(name: &str) -> (short: String)
    ensures
        short@ == trimmed(name@),
{
    let mut len = name.unicode_len();
    assert(name@.take(len as int) =~= name@);
    while len > 0 && name.get_char(len - 1) == '_'
        invariant
            len <= name@.len(),
            trimmed(name@) == trimmed(name@.take(len as int)),
        decreases len,
    {
        assert(name@.take(len as int).drop_last() =~= name@.take(len - 1));
        len = len - 1;
    }
    let short = name.substring_char(0, len);
    assert(short@ =~= name@.take(len as int));
    short.to_owned()
}

/// Bytes as decimal numbers, with commas between them.
pub open spec fn byte_list(bytes: Seq<u8>) -> Seq<char>
    decreases bytes.len(),
{
    if bytes.len() == 0 {
        Seq::empty()
    } else if bytes.len() == 1 {
        decimal_text(bytes[0] as nat)
    } else {
        byte_list(bytes.drop_last()) + ", "@ + decimal_text(bytes.last() as nat)
    }
}

/// Bytes as decimal numbers, with commas between them.
pub fn bytes_listed(bytes: &Vec<u8>) -> (text: String)
    ensures
        text@ == byte_list(bytes@),
{
    let mut text = String::new();
    let mut at: usize = 0;
    assert(bytes@.take(0) =~= Seq::empty());
    while at < bytes.len()
        invariant
            at <= bytes@.len(),
            text@ == byte_list(bytes@.take(at as int)),
        decreases bytes@.len() - at,
    {
        assert(bytes@.take(at + 1).drop_last() =~= bytes@.take(at as int));
        if at == 0 {
            text = decimal(bytes[at] as u128);
        } else {
            text.append(", ");
            text.append(decimal(bytes[at] as u128).as_str());
        }
        at = at + 1;
    }
    assert(bytes@.take(at as int) =~= bytes@);
    text
}

} // verus!
