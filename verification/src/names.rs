//! Names: identifiers out of free text, numbers out of collisions, and numbers as text.

use vstd::prelude::*;
use vstd::seq_lib::seq_to_set_is_finite;
use vstd::set_lib::lemma_len_subset;
use vstd::string::*;

verus! {

// ---------------------------------------------------------------------------------------
// Numbers
// ---------------------------------------------------------------------------------------

/// `String::push`.
///
/// Taken on trust: it appends the character and changes nothing else.
pub assume_specification[ String::push ](text: &mut String, character: char)
    ensures
        final(text)@ == old(text)@.push(character),
;

/// The character for one decimal digit.
pub open spec fn digit_char(digit: int) -> char {
    (48 + digit) as char
}

/// A number in decimal, without leading zeros.
pub open spec fn decimal_text(number: nat) -> Seq<char>
    decreases number,
{
    if number < 10 {
        seq![digit_char(number as int)]
    } else {
        decimal_text(number / 10).push(digit_char(number as int % 10))
    }
}

/// A signed number in decimal.
pub open spec fn signed_text(number: int) -> Seq<char> {
    if number < 0 {
        seq!['-'] + decimal_text((-number) as nat)
    } else {
        decimal_text(number as nat)
    }
}

/// A number in decimal.
pub fn decimal(number: u128) -> (text: String)
    ensures
        text@ == decimal_text(number as nat),
    decreases number,
{
    let mut text = if number < 10 {
        String::new()
    } else {
        decimal(number / 10)
    };
    let digit = (number % 10) as u8;
    text.push((48 + digit) as char);
    assert(number < 10 ==> text@ =~= seq![digit_char(number as int)]);
    text
}

/// A signed number in decimal.
pub fn signed_decimal(number: i128) -> (text: String)
    ensures
        text@ == signed_text(number as int),
{
    if number < 0 {
        let mut text = String::new();
        text.push('-');
        let magnitude: u128 = (-(number + 1)) as u128 + 1;
        text.append(decimal(magnitude).as_str());
        assert(text@ =~= seq!['-'] + decimal_text((-number) as nat));
        text
    } else {
        decimal(number as u128)
    }
}

// ---------------------------------------------------------------------------------------
// Letters
// ---------------------------------------------------------------------------------------

/// What `char::is_alphanumeric` says of a character.
pub uninterp spec fn char_is_alphanumeric(character: char) -> bool;

/// What `char::is_lowercase` says of a character.
pub uninterp spec fn char_is_lowercase(character: char) -> bool;

/// What `char::is_uppercase` says of a character.
pub uninterp spec fn char_is_uppercase(character: char) -> bool;

/// What `char::to_uppercase` makes of a character.
pub uninterp spec fn char_to_uppercase(character: char) -> Seq<char>;

/// What `char::to_lowercase` makes of a character.
pub uninterp spec fn char_to_lowercase(character: char) -> Seq<char>;

/// `char::is_alphanumeric`.
///
/// Taken on trust: the answer depends on the character alone.
#[verifier::external_body]
fn is_alphanumeric(character: char) -> (answer: bool)
    ensures
        answer == char_is_alphanumeric(character),
{
    character.is_alphanumeric()
}

/// `char::is_lowercase`.
///
/// Taken on trust: the answer depends on the character alone.
#[verifier::external_body]
fn is_lowercase(character: char) -> (answer: bool)
    ensures
        answer == char_is_lowercase(character),
{
    character.is_lowercase()
}

/// `char::is_uppercase`.
///
/// Taken on trust: the answer depends on the character alone.
#[verifier::external_body]
fn is_uppercase(character: char) -> (answer: bool)
    ensures
        answer == char_is_uppercase(character),
{
    character.is_uppercase()
}

/// `char::to_uppercase`.
///
/// Taken on trust: the characters it gives depend on the character alone.
#[verifier::external_body]
fn to_uppercase(character: char) -> (text: String)
    ensures
        text@ == char_to_uppercase(character),
{
    character.to_uppercase().to_string()
}

/// `char::to_lowercase`.
///
/// Taken on trust: the characters it gives depend on the character alone.
#[verifier::external_body]
fn to_lowercase(character: char) -> (text: String)
    ensures
        text@ == char_to_lowercase(character),
{
    character.to_lowercase().to_string()
}

/// A character, with what is known of it.
#[derive(Clone, Debug)]
pub struct Letter {
    /// The character itself.
    pub character: char,
    /// Whether it may stand in an identifier.
    pub alphanumeric: bool,
    /// Whether it is a small letter.
    pub lowercase: bool,
    /// Whether it is a capital letter.
    pub uppercase: bool,
    /// The character as a capital.
    pub upper: String,
    /// The character as a small letter.
    pub lower: String,
}

/// The contents of a [`Letter`].
pub struct LetterModel {
    /// See [`Letter::character`].
    pub character: char,
    /// See [`Letter::alphanumeric`].
    pub alphanumeric: bool,
    /// See [`Letter::lowercase`].
    pub lowercase: bool,
    /// See [`Letter::uppercase`].
    pub uppercase: bool,
    /// See [`Letter::upper`].
    pub upper: Seq<char>,
    /// See [`Letter::lower`].
    pub lower: Seq<char>,
}

impl View for Letter {
    type V = LetterModel;

    open spec fn view(&self) -> LetterModel {
        LetterModel {
            character: self.character,
            alphanumeric: self.alphanumeric,
            lowercase: self.lowercase,
            uppercase: self.uppercase,
            upper: self.upper@,
            lower: self.lower@,
        }
    }
}

/// The contents of a list of letters.
pub open spec fn letter_models(letters: Seq<Letter>) -> Seq<LetterModel> {
    letters.map_values(|letter: Letter| letter@)
}

/// What is known of a character.
pub open spec fn letter_of(character: char) -> LetterModel {
    LetterModel {
        character,
        alphanumeric: char_is_alphanumeric(character),
        lowercase: char_is_lowercase(character),
        uppercase: char_is_uppercase(character),
        upper: char_to_uppercase(character),
        lower: char_to_lowercase(character),
    }
}

/// What is known of each character of a text.
pub open spec fn letters_of(text: Seq<char>) -> Seq<LetterModel> {
    text.map_values(|character: char| letter_of(character))
}

proof fn lemma_letter_models_push(found: Seq<Letter>, letter: Letter)
    ensures
        letter_models(found.push(letter)) == letter_models(found).push(letter@),
{
    assert(letter_models(found.push(letter)) =~= letter_models(found).push(letter@));
}

/// The characters of a text.
pub fn characters(text: &str) -> (found: Vec<char>)
    ensures
        found@ == text@,
{
    let mut found: Vec<char> = Vec::new();
    for character in it: text.chars()
        invariant
            found@ == it.seq().take(it.index()),
    {
        let ghost index = it.index();
        found.push(character);
        assert(it.seq().take(index + 1) =~= it.seq().take(index).push(character));
    }
    assert(text@.take(text@.len() as int) =~= text@);
    found
}

/// Looks up each character of a text.
pub fn letters(text: &str) -> (found: Vec<Letter>)
    ensures
        letter_models(found@) == letters_of(text@),
{
    let mut found: Vec<Letter> = Vec::new();
    for character in it: text.chars()
        invariant
            letter_models(found@) == letters_of(it.seq().take(it.index())),
    {
        let ghost before = found@;
        let ghost index = it.index();
        let letter = Letter {
            character,
            alphanumeric: is_alphanumeric(character),
            lowercase: is_lowercase(character),
            uppercase: is_uppercase(character),
            upper: to_uppercase(character),
            lower: to_lowercase(character),
        };
        assert(letter@ == letter_of(character));
        found.push(letter);
        proof {
            lemma_letter_models_push(before, letter);
            assert(it.seq().take(index + 1) =~= it.seq().take(index).push(character));
            assert(letters_of(it.seq().take(index + 1)) =~= letters_of(
                it.seq().take(index),
            ).push(letter_of(character)));
        }
    }
    assert(text@.take(text@.len() as int) =~= text@);
    found
}

// ---------------------------------------------------------------------------------------
// Type names
// ---------------------------------------------------------------------------------------

/// Where the segment that starts at `from` ends: at the first letter no identifier may hold.
pub open spec fn segment_end(letters: Seq<LetterModel>, from: int) -> int
    decreases letters.len() - from,
{
    if from < 0 || from >= letters.len() || !letters[from].alphanumeric {
        from
    } else {
        segment_end(letters, from + 1)
    }
}

/// Letters as they are.
pub open spec fn plain(letters: Seq<LetterModel>) -> Seq<char> {
    letters.map_values(|letter: LetterModel| letter.character)
}

/// Letters as small letters.
pub open spec fn lowered(letters: Seq<LetterModel>) -> Seq<char>
    decreases letters.len(),
{
    if letters.len() == 0 {
        Seq::empty()
    } else {
        lowered(letters.drop_last()) + letters.last().lower
    }
}

/// Whether any letter is a small one.
pub open spec fn any_lowercase(letters: Seq<LetterModel>) -> bool {
    exists|i: int| 0 <= i < letters.len() && (#[trigger] letters[i]).lowercase
}

/// One segment of a type name: its first letter is a capital, and the others are left alone
/// where the segment is in mixed case, and small where it shouts.
pub open spec fn segment_text(letters: Seq<LetterModel>) -> Seq<char> {
    letters[0].upper + if any_lowercase(letters) {
        plain(letters.skip(1))
    } else {
        lowered(letters.skip(1))
    }
}

/// The segments of a name from `from` on, joined.
pub open spec fn joined(letters: Seq<LetterModel>, from: int) -> Seq<char>
    decreases letters.len() - from,
{
    if from < 0 || from >= letters.len() {
        Seq::empty()
    } else if from < segment_end(letters, from) <= letters.len() {
        segment_text(letters.subrange(from, segment_end(letters, from))) + joined(
            letters,
            segment_end(letters, from),
        )
    } else {
        joined(letters, from + 1)
    }
}

/// Whether a character is a decimal digit.
pub open spec fn is_digit(character: char) -> bool {
    '0' <= character <= '9'
}

/// A name as a Rust type or variant identifier: its segments joined, `Value` where there are
/// none, and with a `C` in front where they start with a digit.
pub open spec fn identifier(letters: Seq<LetterModel>) -> Seq<char> {
    let text = joined(letters, 0);
    if text.len() == 0 {
        seq!['V', 'a', 'l', 'u', 'e']
    } else if is_digit(text[0]) {
        seq!['C'] + text
    } else {
        text
    }
}

proof fn lemma_segment_end(letters: Seq<LetterModel>, from: int, at: int)
    requires
        0 <= from <= at <= letters.len(),
        forall|i: int| from <= i < at ==> (#[trigger] letters[i]).alphanumeric,
    ensures
        segment_end(letters, from) == segment_end(letters, at),
        at == letters.len() || !letters[at].alphanumeric ==> segment_end(letters, at) == at,
    decreases at - from,
{
    if from < at {
        assert(letters[from].alphanumeric);
        lemma_segment_end(letters, from + 1, at);
    }
}

/// Writes one segment of a type name.
fn segment(letters: &Vec<Letter>, from: usize, end: usize) -> (text: String)
    requires
        from < end <= letters@.len(),
    ensures
        text@ == segment_text(letter_models(letters@).subrange(from as int, end as int)),
{
    let ghost part = letter_models(letters@).subrange(from as int, end as int);
    let mut mixed = false;
    let mut at = from;
    while at < end
        invariant
            from <= at <= end <= letters@.len(),
            part == letter_models(letters@).subrange(from as int, end as int),
            mixed == any_lowercase(part.take(at - from)),
        decreases end - at,
    {
        proof {
            let index = at - from;
            let next = part.take(index + 1);
            assert(next[index] == letters@[at as int]@);
            if any_lowercase(part.take(index)) {
                let i = choose|i: int|
                    0 <= i < part.take(index).len() && (#[trigger] part.take(index)[i]).lowercase;
                assert(next[i].lowercase);
            }
            if any_lowercase(next) && !letters@[at as int].lowercase {
                let i = choose|i: int| 0 <= i < next.len() && (#[trigger] next[i]).lowercase;
                assert(part.take(index)[i].lowercase);
            }
        }
        if letters[at].lowercase {
            mixed = true;
        }
        at = at + 1;
    }
    assert(part.take(end - from) =~= part);

    let mut text = String::new();
    assert(letters@[from as int]@ == part[0]);
    text.append(letters[from].upper.as_str());
    assert(text@ =~= part[0].upper);
    let ghost rest = part.skip(1);
    let ghost head = text@;
    let mut at = from + 1;
    assert(rest.take(0) =~= Seq::<LetterModel>::empty());
    assert(head + plain(rest.take(0)) =~= head);
    assert(head + lowered(rest.take(0)) =~= head);
    while at < end
        invariant
            from < at <= end <= letters@.len(),
            part == letter_models(letters@).subrange(from as int, end as int),
            rest == part.skip(1),
            text@ == head + if mixed {
                plain(rest.take(at - from - 1))
            } else {
                lowered(rest.take(at - from - 1))
            },
        decreases end - at,
    {
        let ghost index = at - from - 1;
        assert(letters@[at as int]@ == rest[index]);
        assert(rest.take(index + 1).drop_last() =~= rest.take(index));
        let letter = &letters[at];
        if mixed {
            text.push(letter.character);
            assert(plain(rest.take(index + 1)) =~= plain(rest.take(index)).push(letter.character));
            assert(text@ =~= head + plain(rest.take(index + 1)));
        } else {
            text.append(letter.lower.as_str());
            assert(text@ =~= head + lowered(rest.take(index + 1)));
        }
        at = at + 1;
    }
    assert(rest.take(end - from - 1) =~= rest);
    text
}

/// A name as a Rust type or variant identifier, from what is known of its letters.
pub fn type_ident_of(letters: &Vec<Letter>) -> (ident: String)
    ensures
        ident@ == identifier(letter_models(letters@)),
{
    let ghost models = letter_models(letters@);
    let mut out = String::new();
    let mut at: usize = 0;
    assert(out@ + joined(models, 0) =~= joined(models, 0));
    while at < letters.len()
        invariant
            at <= letters@.len(),
            models == letter_models(letters@),
            joined(models, 0) == out@ + joined(models, at as int),
        decreases letters@.len() - at,
    {
        let from = at;
        let mut end = at;
        while end < letters.len() && letters[end].alphanumeric
            invariant
                from <= end <= letters@.len(),
                models == letter_models(letters@),
                forall|i: int| from <= i < end ==> (#[trigger] models[i]).alphanumeric,
            decreases letters@.len() - end,
        {
            assert(models[end as int] == letters@[end as int]@);
            end = end + 1;
        }
        assert(end < letters@.len() ==> models[end as int] == letters@[end as int]@);
        proof {
            lemma_segment_end(models, from as int, end as int);
        }
        if end == from {
            at = from + 1;
        } else {
            let ghost before = out@;
            let text = segment(letters, from, end);
            out.append(text.as_str());
            assert(out@ + joined(models, end as int) =~= before + (text@ + joined(
                models,
                end as int,
            )));
            at = end;
        }
    }
    assert(out@ + joined(models, at as int) =~= out@);
    if out.as_str().unicode_len() == 0 {
        let mut value = String::new();
        value.push('V');
        value.push('a');
        value.push('l');
        value.push('u');
        value.push('e');
        assert(value@ =~= seq!['V', 'a', 'l', 'u', 'e']);
        return value;
    }
    let first = out.as_str().get_char(0);
    if '0' <= first && first <= '9' {
        let mut prefixed = String::new();
        prefixed.push('C');
        prefixed.append(out.as_str());
        assert(prefixed@ =~= seq!['C'] + out@);
        return prefixed;
    }
    out
}

/// A name as a Rust type or variant identifier.
///
/// A segment that is already in mixed case is left alone and only one in capitals is folded, so
/// `StatusReport` stays as it is and `JPSS_ATT_EPHEM` becomes `JpssAttEphem`.
pub fn type_ident(name: &str) -> (ident: String)
    ensures
        ident@ == identifier(letters_of(name@)),
{
    type_ident_of(&letters(name))
}

/// A type name is never empty and never starts with a digit.
pub proof fn lemma_identifier_start(letters: Seq<LetterModel>)
    ensures
        identifier(letters).len() > 0,
        !is_digit(identifier(letters)[0]),
{
}

/// Whether a text has any letter or digit in it.
pub open spec fn any_alphanumeric(letters: Seq<LetterModel>) -> bool {
    exists|i: int| 0 <= i < letters.len() && (#[trigger] letters[i]).alphanumeric
}

/// Whether there is any letter or digit among letters.
pub fn has_alphanumeric(letters: &Vec<Letter>) -> (found: bool)
    ensures
        found == any_alphanumeric(letter_models(letters@)),
{
    let ghost models = letter_models(letters@);
    let mut at: usize = 0;
    while at < letters.len()
        invariant
            at <= letters@.len(),
            models == letter_models(letters@),
            forall|i: int| 0 <= i < at ==> !(#[trigger] models[i]).alphanumeric,
        decreases letters@.len() - at,
    {
        assert(models[at as int] == letters@[at as int]@);
        if letters[at].alphanumeric {
            return true;
        }
        at = at + 1;
    }
    false
}

// ---------------------------------------------------------------------------------------
// Function names
// ---------------------------------------------------------------------------------------

/// Letters in lower case, with an underscore in front of every capital but the first letter.
pub open spec fn snake_text(letters: Seq<LetterModel>) -> Seq<char>
    decreases letters.len(),
{
    if letters.len() == 0 {
        Seq::empty()
    } else {
        let before = snake_text(letters.drop_last());
        let last = letters.last();
        if last.uppercase && letters.len() > 1 {
            before.push('_') + last.lower
        } else {
            before + last.lower
        }
    }
}

/// A type name as a function name, from what is known of its letters.
pub fn snake_of(letters: &Vec<Letter>) -> (text: String)
    ensures
        text@ == snake_text(letter_models(letters@)),
{
    let ghost models = letter_models(letters@);
    let mut text = String::new();
    let mut at: usize = 0;
    assert(models.take(0) =~= Seq::<LetterModel>::empty());
    while at < letters.len()
        invariant
            at <= letters@.len(),
            models == letter_models(letters@),
            text@ == snake_text(models.take(at as int)),
        decreases letters@.len() - at,
    {
        assert(models[at as int] == letters@[at as int]@);
        assert(models.take(at + 1).drop_last() =~= models.take(at as int));
        let letter = &letters[at];
        if letter.uppercase && at != 0 {
            text.push('_');
        }
        text.append(letter.lower.as_str());
        at = at + 1;
    }
    assert(models.take(at as int) =~= models);
    text
}

/// `StatusReport` as `status_report`, for a function name.
pub fn snake(name: &str) -> (text: String)
    ensures
        text@ == snake_text(letters_of(name@)),
{
    snake_of(&letters(name))
}

// ---------------------------------------------------------------------------------------
// Collisions
// ---------------------------------------------------------------------------------------

/// The contents of a list of names.
pub open spec fn texts(names: Seq<String>) -> Seq<Seq<char>> {
    names.map_values(|name: String| name@)
}

/// A name as the `count`th candidate: itself, then with a number behind it.
pub open spec fn numbered(base: Seq<char>, count: nat) -> Seq<char> {
    if count <= 1 {
        base
    } else {
        base + decimal_text(count)
    }
}

/// Whether a candidate is the first that is not among the names.
pub open spec fn is_first_free(taken: Seq<Seq<char>>, base: Seq<char>, count: nat) -> bool {
    &&& count >= 1
    &&& !taken.contains(numbered(base, count))
    &&& forall|earlier: nat|
        1 <= earlier < count ==> taken.contains(#[trigger] numbered(base, earlier))
}

/// The first of `base`, `base2`, `base3`… that is not among the names.
pub open spec fn fresh(taken: Seq<Seq<char>>, base: Seq<char>) -> Seq<char> {
    numbered(base, choose|count: nat| is_first_free(taken, base, count))
}

/// What has been handed out after each of the first `count` names was asked for in turn.
pub open spec fn handed_out(bases: Seq<Seq<char>>, count: nat) -> Seq<Seq<char>>
    decreases count,
{
    if count == 0 {
        Seq::empty()
    } else {
        let before = handed_out(bases, (count - 1) as nat);
        before.push(fresh(before, bases[count - 1]))
    }
}

/// The first of `base`, `base2`, `base3`… that has not been handed out, which is then recorded as
/// handed out.
pub fn unique(taken: &mut Vec<String>, base: String) -> (name: String)
    ensures
        name@ == fresh(texts(old(taken)@), base@),
        !texts(old(taken)@).contains(name@),
        texts(final(taken)@) == texts(old(taken)@).push(name@),
{
    let ghost names = texts(taken@);
    let total: usize = taken.len();
    let mut count: u128 = 1;
    let mut name = base.clone();
    while is_taken(taken, &name)
        invariant
            taken@ == old(taken)@,
            names == texts(taken@),
            names.len() == total,
            1 <= count <= total + 1,
            name@ == numbered(base@, count as nat),
            forall|earlier: nat|
                1 <= earlier < count ==> names.contains(#[trigger] numbered(base@, earlier)),
        decreases total + 1 - count,
    {
        proof {
            assert forall|earlier: nat| 1 <= earlier < count + 1 implies names.contains(
                #[trigger] numbered(base@, earlier),
            ) by {
                if earlier == count {
                }
            }
            lemma_few_candidates(names, base@, count as nat);
        }
        count = count + 1;
        name = base.clone();
        name.append(decimal(count).as_str());
    }
    proof {
        assert(is_first_free(names, base@, count as nat));
        lemma_fresh(names, base@, count as nat);
    }
    taken.push(name.clone());
    assert(texts(taken@) =~= names.push(name@));
    name
}

/// Whether a name is in a list.
fn is_taken(taken: &Vec<String>, name: &String) -> (found: bool)
    ensures
        found == texts(taken@).contains(name@),
{
    let ghost names = texts(taken@);
    let mut at: usize = 0;
    while at < taken.len()
        invariant
            at <= taken@.len(),
            names == texts(taken@),
            forall|i: int| 0 <= i < at ==> #[trigger] names[i] != name@,
        decreases taken@.len() - at,
    {
        assert(names[at as int] == taken@[at as int]@);
        if taken[at] == *name {
            return true;
        }
        at = at + 1;
    }
    false
}

/// The first free candidate is the one that is handed out.
pub proof fn lemma_fresh(taken: Seq<Seq<char>>, base: Seq<char>, count: nat)
    requires
        is_first_free(taken, base, count),
    ensures
        fresh(taken, base) == numbered(base, count),
{
    let chosen = choose|other: nat| is_first_free(taken, base, other);
    assert(is_first_free(taken, base, chosen));
    if chosen < count {
        assert(taken.contains(numbered(base, chosen)));
    } else if count < chosen {
        assert(taken.contains(numbered(base, count)));
    }
}

/// As many candidates as are all among the names there are names.
proof fn lemma_few_candidates(taken: Seq<Seq<char>>, base: Seq<char>, count: nat)
    requires
        forall|earlier: nat|
            1 <= earlier <= count ==> taken.contains(#[trigger] numbered(base, earlier)),
    ensures
        count <= taken.len(),
{
    let candidates = Seq::new(count, |i: int| numbered(base, (i + 1) as nat));
    assert(candidates.no_duplicates()) by {
        assert forall|i: int, j: int| 0 <= i < j < count implies candidates[i] != candidates[j] by {
            lemma_numbered_distinct(base, (i + 1) as nat, (j + 1) as nat);
        }
    }
    candidates.unique_seq_to_set();
    seq_to_set_is_finite(taken);
    assert(candidates.to_set().subset_of(taken.to_set())) by {
        assert forall|name: Seq<char>| candidates.to_set().contains(name) implies taken.to_set()
            .contains(name) by {
            let i = choose|i: int| 0 <= i < candidates.len() && candidates[i] == name;
            assert(taken.contains(numbered(base, (i + 1) as nat)));
        }
    }
    lemma_len_subset(candidates.to_set(), taken.to_set());
    taken.lemma_cardinality_of_set();
}

/// There is always a candidate that is free.
pub proof fn lemma_some_free(taken: Seq<Seq<char>>, base: Seq<char>)
    ensures
        exists|count: nat| is_first_free(taken, base, count),
        !taken.contains(fresh(taken, base)),
{
    let count = lemma_first_free_from(taken, base, 1);
    lemma_fresh(taken, base, count);
}

proof fn lemma_first_free_from(taken: Seq<Seq<char>>, base: Seq<char>, from: nat) -> (count: nat)
    requires
        1 <= from <= taken.len() + 1,
        forall|earlier: nat|
            1 <= earlier < from ==> taken.contains(#[trigger] numbered(base, earlier)),
    ensures
        is_first_free(taken, base, count),
    decreases taken.len() + 1 - from,
{
    if taken.contains(numbered(base, from)) {
        assert forall|earlier: nat| 1 <= earlier <= from implies taken.contains(
            #[trigger] numbered(base, earlier),
        ) by {
            if earlier == from {
            }
        }
        lemma_few_candidates(taken, base, from);
        lemma_first_free_from(taken, base, from + 1)
    } else {
        from
    }
}

/// No name is handed out twice: what each of a list of names comes out as when they are asked for
/// in turn differs from all that came out before.
pub proof fn lemma_handed_out_once(bases: Seq<Seq<char>>, count: nat)
    ensures
        handed_out(bases, count).len() == count,
        handed_out(bases, count).no_duplicates(),
    decreases count,
{
    if count > 0 {
        let before = handed_out(bases, (count - 1) as nat);
        lemma_handed_out_once(bases, (count - 1) as nat);
        lemma_some_free(before, bases[count - 1]);
        let after = handed_out(bases, count);
        assert forall|i: int, j: int| 0 <= i < j < after.len() implies after[i] != after[j] by {
            if j == count - 1 {
                assert(before.contains(before[i]));
            }
        }
    }
}

/// Different numbers have different decimal texts.
pub proof fn lemma_decimal_distinct(a: nat, b: nat)
    requires
        a != b,
    ensures
        decimal_text(a) != decimal_text(b),
        decimal_text(a).len() > 0,
    decreases a,
{
    let left = decimal_text(a);
    let right = decimal_text(b);
    if a < 10 && b < 10 {
        assert(left[0] != right[0]);
    } else if a >= 10 && b >= 10 {
        assert(left.last() == digit_char(a as int % 10));
        assert(right.last() == digit_char(b as int % 10));
        if a % 10 == b % 10 {
            lemma_decimal_distinct(a / 10, b / 10);
            assert(left.drop_last() =~= decimal_text(a / 10));
            assert(right.drop_last() =~= decimal_text(b / 10));
        }
    } else {
        lemma_decimal_len(a);
        lemma_decimal_len(b);
    }
    lemma_decimal_len(a);
}

proof fn lemma_decimal_len(number: nat)
    ensures
        number < 10 ==> decimal_text(number).len() == 1,
        number >= 10 ==> decimal_text(number).len() >= 2,
    decreases number,
{
    if number >= 10 {
        lemma_decimal_len(number / 10);
    }
}

/// A name that is asked for again never comes out the same.
pub proof fn lemma_numbered_distinct(base: Seq<char>, earlier: nat, later: nat)
    requires
        1 <= earlier < later,
    ensures
        numbered(base, earlier) != numbered(base, later),
{
    lemma_decimal_distinct(later, earlier);
    let left = numbered(base, earlier);
    let right = numbered(base, later);
    if left == right {
        assert(right.skip(base.len() as int) =~= decimal_text(later));
        if earlier > 1 {
            assert(left.skip(base.len() as int) =~= decimal_text(earlier));
        }
    }
}

} // verus!
