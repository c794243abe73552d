//! How numbers and names are spelled, and read again.

use vstd::prelude::*;
use vstd::string::*;

use crate::emit::text::{padded_left, padded_right, trimmed};
use crate::names::{
    any_lowercase, decimal_text, identifier, is_digit, joined, lowered, plain, segment_end,
    signed_text, snake_text, LetterModel,
};

verus! {

/// The number that decimal digits spell.
pub open spec fn digits_value(text: Seq<char>) -> int
    decreases text.len(),
{
    if text.len() == 0 {
        0
    } else {
        10 * digits_value(text.drop_last()) + (text.last() as u32 - '0' as u32)
    }
}

/// The number that a literal spells: digits, behind a sign where it is negative.
pub open spec fn literal_value(text: Seq<char>) -> int {
    if text.len() > 0 && text[0] == '-' {
        -digits_value(text.skip(1))
    } else {
        digits_value(text)
    }
}

/// A number in decimal is made of digits, starts with a zero only where it is zero, and is read as
/// the number that it was.
pub proof fn lemma_decimal_reads_back(number: nat)
    ensures
        decimal_text(number).len() > 0,
        forall|i: int|
            0 <= i < decimal_text(number).len() ==> '0' <= #[trigger] decimal_text(number)[i]
                && decimal_text(number)[i] <= '9',
        number > 0 ==> decimal_text(number)[0] != '0',
        digits_value(decimal_text(number)) == number,
    decreases number,
{
    let text = decimal_text(number);
    if number < 10 {
        assert(text.drop_last() =~= Seq::<char>::empty());
        assert(digits_value(text.drop_last()) == 0);
    } else {
        lemma_decimal_reads_back(number / 10);
        assert(text.drop_last() =~= decimal_text(number / 10));
    }
}

/// A signed number in decimal is read as the number that it was.
pub proof fn lemma_signed_reads_back(number: int)
    ensures
        literal_value(signed_text(number)) == number,
{
    if number < 0 {
        lemma_decimal_reads_back((-number) as nat);
        assert(signed_text(number).skip(1) =~= decimal_text((-number) as nat));
    } else {
        lemma_decimal_reads_back(number as nat);
    }
}

/// A name without the underscores at its end is the front of it, with nothing but underscores
/// behind, and ends in none.
pub proof fn lemma_trimmed_is_the_front(name: Seq<char>)
    ensures
        trimmed(name).len() <= name.len(),
        trimmed(name) == name.take(trimmed(name).len() as int),
        forall|i: int| trimmed(name).len() <= i < name.len() ==> #[trigger] name[i] == '_',
        trimmed(name).len() > 0 ==> trimmed(name).last() != '_',
    decreases name.len(),
{
    if name.len() > 0 && name.last() == '_' {
        let rest = name.drop_last();
        lemma_trimmed_is_the_front(rest);
        assert(trimmed(name) =~= name.take(trimmed(name).len() as int));
        assert forall|i: int| trimmed(name).len() <= i < name.len() implies #[trigger] name[i]
            == '_' by {
            if i < rest.len() {
                assert(rest[i] == '_');
            }
        }
    } else {
        assert(name.take(name.len() as int) =~= name);
    }
}

/// A text that is padded has at least the width, and no more than it or its own; it stands at its
/// side of it, with spaces at the other.
pub proof fn lemma_padding_keeps_the_text(text: Seq<char>, width: nat)
    ensures
        padded_right(text, width).len() == if text.len() < width {
            width
        } else {
            text.len()
        },
        padded_right(text, width).take(text.len() as int) == text,
        forall|i: int|
            text.len() <= i < padded_right(text, width).len() ==> #[trigger] padded_right(
                text,
                width,
            )[i] == ' ',
        padded_left(text, width).len() == padded_right(text, width).len(),
        padded_left(text, width).skip(padded_left(text, width).len() - text.len()) == text,
        forall|i: int|
            0 <= i < padded_left(text, width).len() - text.len() ==> #[trigger] padded_left(
                text,
                width,
            )[i] == ' ',
{
    assert(padded_right(text, width).take(text.len() as int) =~= text);
    assert(padded_left(text, width).skip(padded_left(text, width).len() - text.len()) =~= text);
}

// ---------------------------------------------------------------------------------------
// Type names, letter by letter
// ---------------------------------------------------------------------------------------

/// Whether everything between two letters is a letter or a digit.
pub open spec fn same_segment(letters: Seq<LetterModel>, i: int, j: int) -> bool {
    forall|k: int| (i <= k <= j || j <= k <= i) ==> (#[trigger] letters[k]).alphanumeric
}

/// Whether a letter stands together with a small one.
pub open spec fn in_mixed_case(letters: Seq<LetterModel>, i: int) -> bool {
    exists|j: int|
        0 <= j < letters.len() && (#[trigger] letters[j]).lowercase && same_segment(letters, i, j)
}

/// What a letter of a name becomes in a type name: a capital where nothing that an identifier holds
/// stands in front of it, itself where it stands together with a small letter, and a small letter
/// elsewhere. What no identifier may hold is left out.
pub open spec fn spelled(letters: Seq<LetterModel>, i: int) -> Seq<char> {
    let letter = letters[i];
    if !letter.alphanumeric {
        Seq::empty()
    } else if i == 0 || !letters[i - 1].alphanumeric {
        letter.upper
    } else if in_mixed_case(letters, i) {
        seq![letter.character]
    } else {
        letter.lower
    }
}

/// What the letters from `from` on become.
pub open spec fn all_spelled(letters: Seq<LetterModel>, from: int) -> Seq<char>
    decreases letters.len() - from,
{
    if from < 0 || from >= letters.len() {
        Seq::empty()
    } else {
        spelled(letters, from) + all_spelled(letters, from + 1)
    }
}

proof fn lemma_end(letters: Seq<LetterModel>, from: int)
    requires
        0 <= from <= letters.len(),
    ensures
        from <= segment_end(letters, from) <= letters.len(),
        forall|k: int|
            from <= k < segment_end(letters, from) ==> (#[trigger] letters[k]).alphanumeric,
        segment_end(letters, from) < letters.len() ==> !letters[segment_end(
            letters,
            from,
        )].alphanumeric,
    decreases letters.len() - from,
{
    if from < letters.len() && letters[from].alphanumeric {
        lemma_end(letters, from + 1);
    }
}

proof fn lemma_lowered_front(letters: Seq<LetterModel>)
    requires
        letters.len() > 0,
    ensures
        lowered(letters) == letters[0].lower + lowered(letters.skip(1)),
    decreases letters.len(),
{
    if letters.len() == 1 {
        assert(letters.drop_last() =~= Seq::<LetterModel>::empty());
        assert(letters.skip(1) =~= Seq::<LetterModel>::empty());
        assert(lowered(letters.drop_last()) =~= Seq::<char>::empty());
        assert(lowered(letters) =~= letters[0].lower + lowered(letters.skip(1)));
    } else {
        let short = letters.drop_last();
        lemma_lowered_front(short);
        assert(letters.skip(1).drop_last() =~= short.skip(1));
        assert(letters.skip(1).last() == letters.last());
        assert(lowered(letters) =~= letters[0].lower + lowered(letters.skip(1)));
    }
}

proof fn lemma_mixed(letters: Seq<LetterModel>, from: int, end: int, i: int)
    requires
        0 <= from <= i < end <= letters.len(),
        forall|k: int| from <= k < end ==> (#[trigger] letters[k]).alphanumeric,
        from == 0 || !letters[from - 1].alphanumeric,
        end == letters.len() || !letters[end].alphanumeric,
    ensures
        in_mixed_case(letters, i) == any_lowercase(letters.subrange(from, end)),
{
    let part = letters.subrange(from, end);
    if in_mixed_case(letters, i) {
        let j = choose|j: int|
            0 <= j < letters.len() && (#[trigger] letters[j]).lowercase && same_segment(
                letters,
                i,
                j,
            );
        assert(from <= j) by {
            if j < from {
                assert(letters[from - 1].alphanumeric);
            }
        }
        assert(j < end) by {
            if j >= end {
                assert(letters[end].alphanumeric);
            }
        }
        assert(part[j - from].lowercase);
    }
    if any_lowercase(part) {
        let k = choose|k: int| 0 <= k < part.len() && (#[trigger] part[k]).lowercase;
        assert(letters[from + k].lowercase);
        assert(same_segment(letters, i, from + k));
    }
}

proof fn lemma_rest_of_segment(letters: Seq<LetterModel>, from: int, end: int, at: int)
    requires
        0 <= from < at <= end <= letters.len(),
        forall|k: int| from <= k < end ==> (#[trigger] letters[k]).alphanumeric,
        from == 0 || !letters[from - 1].alphanumeric,
        end == letters.len() || !letters[end].alphanumeric,
    ensures
        all_spelled(letters, at) == if any_lowercase(letters.subrange(from, end)) {
            plain(letters.subrange(at, end))
        } else {
            lowered(letters.subrange(at, end))
        } + all_spelled(letters, end),
    decreases end - at,
{
    let mixed = any_lowercase(letters.subrange(from, end));
    let part = letters.subrange(at, end);
    if at == end {
        assert(part =~= Seq::<LetterModel>::empty());
        assert(plain(part) =~= Seq::<char>::empty());
        assert(lowered(part) =~= Seq::<char>::empty());
        assert(Seq::<char>::empty() + all_spelled(letters, end) =~= all_spelled(letters, end));
    } else {
        lemma_rest_of_segment(letters, from, end, at + 1);
        lemma_mixed(letters, from, end, at);
        let rest = letters.subrange(at + 1, end);
        assert(part.skip(1) =~= rest);
        lemma_lowered_front(part);
        assert(plain(part) =~= seq![letters[at].character] + plain(rest));
        assert(letters[at - 1].alphanumeric);
        let tail = all_spelled(letters, end);
        if mixed {
            assert(seq![letters[at].character] + (plain(rest) + tail) =~= plain(part) + tail);
        } else {
            assert(letters[at].lower + (lowered(rest) + tail) =~= lowered(part) + tail);
        }
    }
}

proof fn lemma_joined(letters: Seq<LetterModel>, from: int)
    requires
        0 <= from <= letters.len(),
        from == 0 || from == letters.len() || !letters[from - 1].alphanumeric
            || !letters[from].alphanumeric,
    ensures
        joined(letters, from) == all_spelled(letters, from),
    decreases letters.len() - from,
{
    if from < letters.len() {
        lemma_end(letters, from);
        if letters[from].alphanumeric {
            let end = segment_end(letters, from);
            lemma_end(letters, from + 1);
            assert(end == segment_end(letters, from + 1));
            let part = letters.subrange(from, end);
            lemma_joined(letters, end);
            lemma_rest_of_segment(letters, from, end, from + 1);
            assert(part.skip(1) =~= letters.subrange(from + 1, end));
            let rest = if any_lowercase(part) {
                plain(part.skip(1))
            } else {
                lowered(part.skip(1))
            };
            let tail = all_spelled(letters, end);
            assert(letters[from].upper + rest + tail =~= letters[from].upper + (rest + tail));
        } else {
            lemma_joined(letters, from + 1);
            assert(Seq::<char>::empty() + all_spelled(letters, from + 1) =~= all_spelled(
                letters,
                from + 1,
            ));
        }
    }
}

/// A type name is the name letter by letter, in the case that each letter takes, behind a `C` where
/// that starts with a digit; `Value` where there are no letters and digits in the name.
pub proof fn lemma_type_name_letter_by_letter(letters: Seq<LetterModel>)
    ensures
        ({
            let text = all_spelled(letters, 0);
            &&& text.len() > 0 && !is_digit(text[0]) ==> identifier(letters) == text
            &&& text.len() > 0 && is_digit(text[0]) ==> identifier(letters) == "C"@ + text
            &&& text.len() == 0 ==> identifier(letters) == "Value"@
        }),
{
    lemma_joined(letters, 0);
    reveal_strlit("C");
    reveal_strlit("Value");
    assert("C"@ =~= seq!['C']);
    assert("Value"@ =~= seq!['V', 'a', 'l', 'u', 'e']);
}

/// The name of a function is the name letter by letter in lower case, and has one character more in
/// front of each capital but the first letter: an underscore.
pub proof fn lemma_function_name_letter_by_letter(letters: Seq<LetterModel>, last: LetterModel)
    ensures
        snake_text(letters.push(last)) == snake_text(letters) + if last.uppercase && letters.len()
            > 0 {
            "_"@
        } else {
            ""@
        } + last.lower,
        snake_text(Seq::empty()).len() == 0,
{
    reveal_strlit("_");
    reveal_strlit("");
    assert(letters.push(last).drop_last() =~= letters);
    assert(letters.push(last).last() == last);
    assert(snake_text(letters.push(last)) =~= snake_text(letters) + if last.uppercase
        && letters.len() > 0 {
        "_"@
    } else {
        ""@
    } + last.lower);
}

} // verus!
