//! Formatting of source text.

use vstd::prelude::*;
use vstd::string::*;

use crate::emit::clean::{in_word, layout_clean, word_char};
use crate::emit::module_text;
use crate::harness::harness_text;
use crate::layout::{optional_text, LayoutModel};
use crate::names::{characters, texts};

verus! {

// ---------------------------------------------------------------------------------------
// Tokens
// ---------------------------------------------------------------------------------------

/// The tokens that `proc_macro2` reads in a text, as it prints them, unless the text is not made of
/// Rust tokens.
pub uninterp spec fn printed_tokens(text: Seq<char>) -> Option<Seq<char>>;

/// `<proc_macro2::TokenStream as FromStr>::from_str`, and `to_string` of what it reads.
///
/// Taken on trust, of a program that is no procedural macro: whether a text is made of tokens, and
/// how they are printed, depends on the text alone.
#[verifier::external_body]
pub(crate) fn tokens(text: &str) -> (printed: Option<String>)
    ensures
        optional_text(printed) == printed_tokens(text@),
{
    match text.parse::<proc_macro2::TokenStream>() {
        Ok(tokens) => Some(tokens.to_string()),
        Err(_) => None,
    }
}

/// Whether a text is how some tokens are printed.
pub open spec fn is_printed(text: Seq<char>) -> bool {
    exists|given: Seq<char>| #[trigger] printed_tokens(given) == Some(text)
}

/// Whether a character stands in a word with its neighbours. A raw identifier is one word.
pub open spec fn joins(character: char) -> bool {
    word_char(character) || character == '#'
}

/// The pieces of a text: its words, and each other character but spaces by itself.
pub open spec fn pieces(text: Seq<char>) -> Seq<Seq<char>>
    decreases text.len(),
{
    if text.len() == 0 {
        Seq::empty()
    } else {
        let before = pieces(text.drop_last());
        let last = text.last();
        if joins(last) && text.len() > 1 && joins(text[text.len() - 2]) {
            before.drop_last().push(before.last().push(last))
        } else if last == ' ' {
            before
        } else {
            before.push(seq![last])
        }
    }
}

/// The pieces of a text.
fn split(text: &str) -> (list: Vec<String>)
    ensures
        texts(list@) == pieces(text@),
{
    let found = characters(text);
    let mut list: Vec<String> = Vec::new();
    let mut at: usize = 0;
    assert(texts(list@) =~= pieces(text@.take(0)));
    while at < found.len()
        invariant
            at <= found@.len(),
            found@ == text@,
            texts(list@) == pieces(text@.take(at as int)),
            at > 0 && joins(text@[at - 1]) ==> list@.len() > 0,
        decreases found@.len() - at,
    {
        let character = found[at];
        let ghost before = list@;
        assert(text@.take(at + 1).drop_last() =~= text@.take(at as int));
        if (in_word(character) || character == '#') && at > 0 && (in_word(found[at - 1])
            || found[at - 1] == '#') {
            assert(texts(before).last() == before.last()@);
            match list.pop() {
                Some(mut word) => {
                    word.push(character);
                    list.push(word);
                    assert(texts(list@) =~= texts(before).drop_last().push(
                        texts(before).last().push(character),
                    ));
                },
                None => {},
            }
        } else if character != ' ' {
            let mut word = String::new();
            word.push(character);
            assert(word@ =~= seq![character]);
            list.push(word);
            assert(texts(list@) =~= texts(before).push(seq![character]));
        }
        at = at + 1;
    }
    assert(text@.take(at as int) =~= text@);
    list
}

// ---------------------------------------------------------------------------------------
// What the formatter stops on
// ---------------------------------------------------------------------------------------

/// Whether a word begins an expression, a pattern or a macro that the formatter may not print.
pub open spec fn is_unprintable(word: Seq<char>) -> bool {
    word == "become"@ || word == "box"@ || word == "macro_rules"@
}

/// Whether a word begins an item, some forms of which the formatter does not print.
pub open spec fn begins_item(word: Seq<char>) -> bool {
    ||| word == "enum"@
    ||| word == "extern"@
    ||| word == "fn"@
    ||| word == "impl"@
    ||| word == "macro"@
    ||| word == "static"@
    ||| word == "struct"@
    ||| word == "trait"@
    ||| word == "type"@
    ||| word == "union"@
    ||| word == "use"@
}

/// Whether two pieces that follow one another begin something that the formatter does not print.
pub open spec fn clash(first: Seq<char>, second: Seq<char>) -> bool {
    ||| first == "builtin"@ && second == "#"@
    ||| first == "dyn"@ && second == "*"@
    ||| first == "mut"@ && second == "self"@
    ||| first != "*"@ && second == "const"@
}

/// Whether a piece ends a statement or a block, so that an item may stand behind it.
pub open spec fn parts_statements(piece: Seq<char>) -> bool {
    piece == ";"@ || piece == "{"@ || piece == "}"@
}

/// Whether there are no statements in a list of pieces.
pub open spec fn is_expression(list: Seq<Seq<char>>) -> bool {
    forall|i: int| 0 <= i < list.len() ==> !parts_statements(#[trigger] list[i])
}

/// Whether a piece can be printed where it stands. A pointer is the one place where a `const` can
/// be.
pub open spec fn piece_prints(list: Seq<Seq<char>>, at: int) -> bool {
    &&& !is_unprintable(list[at])
    &&& begins_item(list[at]) ==> is_expression(list)
    &&& at > 0 ==> !clash(list[at - 1], list[at])
    &&& at == 0 ==> list[at] != "const"@
}

/// Whether a text has nothing in it that the formatter may stop on.
pub open spec fn is_printable(text: Seq<char>) -> bool {
    forall|i: int|
        0 <= i < pieces(text).len() ==> #[trigger] piece_prints(pieces(text), i)
}

/// Whether a text is a word.
fn is_text(text: &String, word: &str) -> (same: bool)
    ensures
        same == (text@ == word@),
{
    *text == word.to_owned()
}

/// Whether a word begins something that the formatter may not print.
fn unprintable(word: &String) -> (found: bool)
    ensures
        found == is_unprintable(word@),
{
    is_text(word, "become") || is_text(word, "box") || is_text(word, "macro_rules")
}

/// Whether a word begins an item.
fn item_word(word: &String) -> (found: bool)
    ensures
        found == begins_item(word@),
{
    is_text(word, "enum") || is_text(word, "extern") || is_text(word, "fn") || is_text(word, "impl")
        || is_text(word, "macro") || is_text(word, "static") || is_text(word, "struct") || is_text(
        word,
        "trait",
    ) || is_text(word, "type") || is_text(word, "union") || is_text(word, "use")
}

/// Whether two pieces that follow one another begin something that the formatter does not print.
fn clashes(first: &String, second: &String) -> (found: bool)
    ensures
        found == clash(first@, second@),
{
    (is_text(first, "builtin") && is_text(second, "#")) || (is_text(first, "dyn") && is_text(
        second,
        "*",
    )) || (is_text(first, "mut") && is_text(second, "self")) || (!is_text(first, "*") && is_text(
        second,
        "const",
    ))
}

/// Whether there are no statements in a list of pieces.
fn expression(list: &Vec<String>) -> (found: bool)
    ensures
        found == is_expression(texts(list@)),
{
    let mut at: usize = 0;
    while at < list.len()
        invariant
            at <= list@.len(),
            forall|i: int| 0 <= i < at ==> !parts_statements(#[trigger] texts(list@)[i]),
        decreases list@.len() - at,
    {
        assert(texts(list@)[at as int] == list@[at as int]@);
        if is_text(&list[at], ";") || is_text(&list[at], "{") || is_text(&list[at], "}") {
            return false;
        }
        at = at + 1;
    }
    true
}

/// Whether a text has nothing in it that the formatter may stop on.
pub fn path_prints(text: &str) -> (prints: bool)
    ensures
        prints == is_printable(text@),
{
    let list = split(text);
    let single = expression(&list);
    let mut at: usize = 0;
    while at < list.len()
        invariant
            at <= list@.len(),
            texts(list@) == pieces(text@),
            single == is_expression(texts(list@)),
            forall|i: int| 0 <= i < at ==> #[trigger] piece_prints(pieces(text@), i),
        decreases list@.len() - at,
    {
        assert(texts(list@)[at as int] == list@[at as int]@);
        if at > 0 {
            assert(texts(list@)[at - 1] == list@[at - 1]@);
        }
        let piece = &list[at];
        if unprintable(piece) || (item_word(piece) && !single) || (at == 0 && is_text(
            piece,
            "const",
        )) || (at > 0 && clashes(&list[at - 1], piece)) {
            assert(!piece_prints(pieces(text@), at as int));
            return false;
        }
        at = at + 1;
    }
    true
}

// ---------------------------------------------------------------------------------------
// The formatter
// ---------------------------------------------------------------------------------------

/// Whether a text is source that this library writes, with nothing spliced into it but what it
/// stands for, and a path that can be printed.
pub open spec fn is_clean_source(source: Seq<char>) -> bool {
    ||| exists|layout: LayoutModel|
        layout_clean(layout) && source == #[trigger] module_text(layout)
    ||| exists|layout: LayoutModel, path: Seq<char>|
        layout_clean(layout) && is_printable(path) && (path == "super::flight"@ || is_printed(path))
            && source == #[trigger] harness_text(layout, path)
}

/// What `prettyplease::unparse` prints for the file that `syn::parse_str` reads, unless it reads
/// none.
pub uninterp spec fn formatted_source(source: Seq<char>) -> Option<Seq<char>>;

/// `syn::parse_str` to a `syn::File`, and `prettyplease::unparse` of that.
///
/// Taken on trust: whether there is a file, and how it is printed, depends on the text alone. The
/// printer stops on syntax it does not know, which no source of this library holds, and no path
/// that is made of whole tokens and has none of the words in it that such syntax begins with.
#[verifier::external_body]
pub(crate) fn format_source(source: &str) -> (formatted: Option<String>)
    requires
        is_clean_source(source@),
    ensures
        match formatted {
            Some(text) => formatted_source(source@) == Some(text@),
            None => formatted_source(source@) is None,
        },
{
    match syn::parse_str::<syn::File>(source) {
        Ok(file) => Some(prettyplease::unparse(&file)),
        Err(_) => None,
    }
}

/// A source as it is given out: as it was formatted, or else as its tokens are printed, or else as
/// it is.
pub open spec fn given_out(
    source: Seq<char>,
    formatted: Option<Seq<char>>,
    printed: Option<Seq<char>>,
) -> Seq<char> {
    match formatted {
        Some(text) => text,
        None => match printed {
            Some(text) => text,
            None => source,
        },
    }
}

/// A source as it is given out, where the formatter is handed clean sources only.
pub open spec fn rendered(source: Seq<char>, clean: bool) -> Seq<char> {
    given_out(
        source,
        if clean {
            formatted_source(source)
        } else {
            None
        },
        printed_tokens(source),
    )
}

/// Gives out a source as it was formatted, or else as its tokens are printed, or else as it is.
pub fn give_out(source: String, formatted: &Option<String>, printed: &Option<String>) -> (given:
    String)
    ensures
        given@ == given_out(source@, optional_text(*formatted), optional_text(*printed)),
{
    match formatted {
        Some(text) => text.clone(),
        None => match printed {
            Some(text) => text.clone(),
            None => source,
        },
    }
}

} // verus!
