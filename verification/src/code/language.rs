//! Expressions and statements of Rust, as far as flight code uses them.
//!
//! Each has a spelling ([`source`], [`script`]) and a meaning ([`means`], [`run`]). What has no
//! meaning here is what Rust would not compile, and what would panic. [`parses`] says that an
//! expression is what its spelling is read as, by the precedence of Rust's operators.

use vstd::arithmetic::power2::*;
use vstd::prelude::*;
use vstd::string::*;
use vstd::utf8::*;

use crate::codec::{ascii_bytes, first_occurrence, is_early, spliced, variant_from, Fault, Refusal};
use crate::emit::text::string_literal;
use crate::half::{narrowed, widened};
use crate::layout::EnumModel;
use crate::names::{decimal_text, signed_text};
use crate::scalar::{bytes_value, reversed, value_bytes};

verus! {

// ---------------------------------------------------------------------------------------
// Types and values
// ---------------------------------------------------------------------------------------

/// An integer type of Rust.
pub enum Int {
    /// `u8`.
    U8,
    /// `u16`.
    U16,
    /// `u32`.
    U32,
    /// `u64`.
    U64,
    /// `u128`.
    U128,
    /// `i8`.
    I8,
    /// `i16`.
    I16,
    /// `i32`.
    I32,
    /// `i64`.
    I64,
    /// `i128`.
    I128,
    /// `usize`.
    Usize,
}

impl Int {
    /// What the type is called.
    pub open spec fn name(self) -> Seq<char> {
        match self {
            Int::U8 => "u8"@,
            Int::U16 => "u16"@,
            Int::U32 => "u32"@,
            Int::U64 => "u64"@,
            Int::U128 => "u128"@,
            Int::I8 => "i8"@,
            Int::I16 => "i16"@,
            Int::I32 => "i32"@,
            Int::I64 => "i64"@,
            Int::I128 => "i128"@,
            Int::Usize => "usize"@,
        }
    }

    /// How many bits a value has. A `usize` has as many as the machine gives it.
    pub open spec fn bits(self) -> nat {
        match self {
            Int::U8 => 8,
            Int::U16 => 16,
            Int::U32 => 32,
            Int::U64 => 64,
            Int::U128 => 128,
            Int::I8 => 8,
            Int::I16 => 16,
            Int::I32 => 32,
            Int::I64 => 64,
            Int::I128 => 128,
            Int::Usize => usize::BITS as nat,
        }
    }

    /// Whether it has negative values.
    pub open spec fn signed(self) -> bool {
        self is I8 || self is I16 || self is I32 || self is I64 || self is I128
    }

    /// Whether a number is one of its values.
    pub open spec fn holds(self, number: int) -> bool {
        if self is Usize {
            0 <= number <= usize::MAX
        } else if self.signed() {
            -pow2((self.bits() - 1) as nat) <= number < pow2((self.bits() - 1) as nat)
        } else {
            0 <= number < pow2(self.bits())
        }
    }

    /// What `as` makes of a number: its low bits, read in this type.
    pub open spec fn cut(self, number: int) -> int {
        let low = number % (pow2(self.bits()) as int);
        if self.signed() && low >= pow2((self.bits() - 1) as nat) {
            low - pow2(self.bits())
        } else {
            low
        }
    }
}

/// What an expression stands for.
pub enum Thing {
    /// A number of a type.
    Number(Int, int),
    /// A number whose type is that of what it is combined with.
    Literal(int),
    /// A `bool`.
    Flag(bool),
    /// An `f32`, by its bits.
    Single(u32),
    /// An `f64`, by its bits.
    Double(u64),
    /// Bytes: an array or a slice.
    Bytes(Seq<u8>),
    /// A `str`.
    Text(Seq<char>),
    /// A variant of a generated enum: which enum, and which variant.
    Variant(int, int),
    /// An `Option`, or a `Result` whose error is dropped.
    Maybe(Option<Box<Thing>>),
}

/// Why a function returns before its end.
pub enum Failure {
    /// An `EncodeError`.
    Encode(Refusal),
    /// A `DecodeError`.
    Decode(Fault),
}

/// What becomes of an expression.
pub enum Outcome {
    /// It has a value.
    Is(Thing),
    /// The function returns with an error.
    Fails(Failure),
    /// It does not compile, or it panics.
    Stuck,
}

/// What names stand for.
pub struct Scope {
    /// Local variables.
    pub names: Map<Seq<char>, Thing>,
    /// The fields of `self`.
    pub fields: Map<Seq<char>, Thing>,
    /// The generated enums.
    pub enums: Seq<EnumModel>,
}

impl Scope {
    /// With one more local variable, which hides another of its name.
    pub open spec fn with(self, name: Seq<char>, thing: Thing) -> Scope {
        Scope { names: self.names.insert(name, thing), ..self }
    }

    /// Whether a local variable holds bytes.
    pub open spec fn has_bytes(self, name: Seq<char>) -> bool {
        self.names.contains_key(name) && self.names[name] is Bytes
    }

    /// The bytes that a local variable holds.
    pub open spec fn bytes(self, name: Seq<char>) -> Seq<u8> {
        self.names[name]->Bytes_0
    }
}

/// The first enum of a name, from `at` on.
pub open spec fn enum_named(enums: Seq<EnumModel>, name: Seq<char>, at: int) -> Option<int>
    decreases enums.len() - at,
{
    if at < 0 || at >= enums.len() {
        None
    } else if enums[at].type_ident == name {
        Some(at)
    } else {
        enum_named(enums, name, at + 1)
    }
}

// ---------------------------------------------------------------------------------------
// Operators
// ---------------------------------------------------------------------------------------

/// An operator between two expressions.
pub enum Operator {
    /// `*`.
    Times,
    /// `/`.
    Over,
    /// `%`.
    Rest,
    /// `+`.
    Plus,
    /// `<<`.
    Up,
    /// `>>`.
    Down,
    /// `&`.
    BitAnd,
    /// `^`.
    BitXor,
    /// `|`.
    BitOr,
    /// `==`.
    Equal,
    /// `!=`.
    NotEqual,
    /// `<`.
    Less,
    /// `<=`.
    LessOrEqual,
    /// `>`.
    Greater,
    /// `>=`.
    GreaterOrEqual,
    /// `&&`.
    And,
    /// `||`.
    Or,
}

impl Operator {
    /// How it is spelled, with a space on either side.
    pub open spec fn sign(self) -> Seq<char> {
        match self {
            Operator::Times => " * "@,
            Operator::Over => " / "@,
            Operator::Rest => " % "@,
            Operator::Plus => " + "@,
            Operator::Up => " << "@,
            Operator::Down => " >> "@,
            Operator::BitAnd => " & "@,
            Operator::BitXor => " ^ "@,
            Operator::BitOr => " | "@,
            Operator::Equal => " == "@,
            Operator::NotEqual => " != "@,
            Operator::Less => " < "@,
            Operator::LessOrEqual => " <= "@,
            Operator::Greater => " > "@,
            Operator::GreaterOrEqual => " >= "@,
            Operator::And => " && "@,
            Operator::Or => " || "@,
        }
    }

    /// How tightly it binds.
    pub open spec fn strength(self) -> int {
        match self {
            Operator::Times | Operator::Over | Operator::Rest => 11,
            Operator::Plus => 10,
            Operator::Up | Operator::Down => 9,
            Operator::BitAnd => 8,
            Operator::BitXor => 7,
            Operator::BitOr => 6,
            Operator::And => 4,
            Operator::Or => 3,
            _ => 5,
        }
    }

    /// Whether it compares.
    pub open spec fn compares(self) -> bool {
        self.strength() == 5
    }
}

/// Bit by bit, both.
pub open spec fn both(a: int, b: int) -> int {
    ((a as u128) & (b as u128)) as int
}

/// Bit by bit, either.
pub open spec fn either(a: int, b: int) -> int {
    ((a as u128) | (b as u128)) as int
}

/// Bit by bit, one but not both.
pub open spec fn one_of(a: int, b: int) -> int {
    ((a as u128) ^ (b as u128)) as int
}

/// What an operator makes of two numbers: none where Rust would panic. A shift is by less than the
/// bits of the type, and gives what is left in them.
pub open spec fn combined(operator: Operator, kind: Int, a: int, b: int) -> Option<Thing> {
    let number = |n: int|
        if kind.holds(n) {
            Some(Thing::Number(kind, n))
        } else {
            None::<Thing>
        };
    match operator {
        Operator::Times => number(a * b),
        Operator::Plus => number(a + b),
        Operator::Over => if a >= 0 && b > 0 {
            number(a / b)
        } else {
            None
        },
        Operator::Rest => if a >= 0 && b > 0 {
            number(a % b)
        } else {
            None
        },
        Operator::Up => if 0 <= b < kind.bits() {
            Some(Thing::Number(kind, kind.cut(a * pow2(b as nat))))
        } else {
            None
        },
        Operator::Down => if 0 <= b < kind.bits() {
            Some(Thing::Number(kind, a / (pow2(b as nat) as int)))
        } else {
            None
        },
        Operator::BitAnd => if kind.signed() {
            None
        } else {
            Some(Thing::Number(kind, both(a, b)))
        },
        Operator::BitOr => if kind.signed() {
            None
        } else {
            Some(Thing::Number(kind, either(a, b)))
        },
        Operator::BitXor => if kind.signed() {
            None
        } else {
            Some(Thing::Number(kind, one_of(a, b)))
        },
        Operator::Equal => Some(Thing::Flag(a == b)),
        Operator::NotEqual => Some(Thing::Flag(a != b)),
        Operator::Less => Some(Thing::Flag(a < b)),
        Operator::LessOrEqual => Some(Thing::Flag(a <= b)),
        Operator::Greater => Some(Thing::Flag(a > b)),
        Operator::GreaterOrEqual => Some(Thing::Flag(a >= b)),
        Operator::And => None,
        Operator::Or => None,
    }
}

/// What an operator makes of two values. Two numbers have one type; a number without a type takes
/// that of the other.
pub open spec fn operated(operator: Operator, left: Thing, right: Thing) -> Option<Thing> {
    match (left, right) {
        (Thing::Number(kind, a), Thing::Number(other, b)) => if kind == other && !(
        operator is Up || operator is Down) {
            combined(operator, kind, a, b)
        } else {
            None
        },
        (Thing::Number(kind, a), Thing::Literal(b)) => if kind.holds(b) || operator is Up
            || operator is Down {
            combined(operator, kind, a, b)
        } else {
            None
        },
        (Thing::Literal(a), Thing::Number(kind, b)) => if kind.holds(a) && !(operator is Up
            || operator is Down) {
            combined(operator, kind, a, b)
        } else {
            None
        },
        _ => None,
    }
}

/// A method without arguments.
pub enum Method {
    /// `to_be_bytes`.
    ToBytes,
    /// `swap_bytes`.
    SwapBytes,
    /// `unsigned_abs`.
    UnsignedAbs,
    /// `to_bits`.
    ToBits,
    /// `raw`, of a generated enum.
    Raw,
    /// `is_ascii`.
    IsAscii,
    /// `as_bytes`.
    AsBytes,
    /// `len`.
    Len,
}

impl Method {
    /// How a call is spelled.
    pub open spec fn call(self) -> Seq<char> {
        match self {
            Method::ToBytes => ".to_be_bytes()"@,
            Method::SwapBytes => ".swap_bytes()"@,
            Method::UnsignedAbs => ".unsigned_abs()"@,
            Method::ToBits => ".to_bits()"@,
            Method::Raw => ".raw()"@,
            Method::IsAscii => ".is_ascii()"@,
            Method::AsBytes => ".as_bytes()"@,
            Method::Len => ".len()"@,
        }
    }
}

/// What a method makes of a value.
pub open spec fn called(method: Method, thing: Thing, enums: Seq<EnumModel>) -> Option<Thing> {
    match (method, thing) {
        (Method::ToBytes, Thing::Number(kind, n)) => if kind.signed() || kind is Usize {
            None
        } else {
            Some(Thing::Bytes(value_bytes(n as nat, kind.bits() / 8)))
        },
        (Method::SwapBytes, Thing::Number(kind, n)) => if kind.signed() || kind is Usize {
            None
        } else {
            Some(Thing::Number(kind, reversed(n as nat, kind.bits() / 8) as int))
        },
        (Method::UnsignedAbs, Thing::Number(Int::I64, n)) => Some(
            Thing::Number(
                Int::U64,
                if n < 0 {
                    -n
                } else {
                    n
                },
            ),
        ),
        (Method::ToBits, Thing::Single(bits)) => Some(Thing::Number(Int::U32, bits as int)),
        (Method::ToBits, Thing::Double(bits)) => Some(Thing::Number(Int::U64, bits as int)),
        (Method::Raw, Thing::Variant(index, variant)) => Some(
            Thing::Number(Int::U64, enums[index].variants[variant].raw as int),
        ),
        (Method::IsAscii, Thing::Text(text)) => Some(Thing::Flag(is_ascii_chars(text))),
        (Method::IsAscii, Thing::Bytes(bytes)) => Some(Thing::Flag(ascii_bytes(bytes))),
        (Method::AsBytes, Thing::Text(text)) => Some(Thing::Bytes(encode_utf8(text))),
        (Method::Len, Thing::Bytes(bytes)) => Some(Thing::Number(Int::Usize, bytes.len() as int)),
        _ => None,
    }
}

/// A function of one argument.
pub enum Function {
    /// `f32_to_half`, of the module.
    Narrow,
    /// `half_to_f32`, of the module.
    Widen,
    /// `f32::from_bits`.
    Single,
    /// `f64::from_bits`.
    Double,
    /// `core::str::from_utf8`.
    Text,
}

impl Function {
    /// What it is called.
    pub open spec fn name(self) -> Seq<char> {
        match self {
            Function::Narrow => "f32_to_half"@,
            Function::Widen => "half_to_f32"@,
            Function::Single => "f32::from_bits"@,
            Function::Double => "f64::from_bits"@,
            Function::Text => "core::str::from_utf8"@,
        }
    }
}

/// What a function makes of a value.
pub open spec fn applied(function: Function, thing: Thing) -> Option<Thing> {
    match (function, thing) {
        (Function::Narrow, Thing::Single(bits)) => Some(
            Thing::Number(Int::U16, narrowed(bits) as int),
        ),
        (Function::Widen, Thing::Number(Int::U16, n)) => Some(Thing::Single(widened(n as u16))),
        (Function::Single, Thing::Number(Int::U32, n)) => Some(Thing::Single(n as u32)),
        (Function::Double, Thing::Number(Int::U64, n)) => Some(Thing::Double(n as u64)),
        (Function::Text, Thing::Bytes(bytes)) => Some(
            Thing::Maybe(
                if valid_utf8(bytes) {
                    Some(Box::new(Thing::Text(decode_utf8(bytes))))
                } else {
                    None
                },
            ),
        ),
        _ => None,
    }
}

// ---------------------------------------------------------------------------------------
// Expressions
// ---------------------------------------------------------------------------------------

/// An expression.
pub enum Expr {
    /// A number.
    Number(int),
    /// A local variable.
    Name(Seq<char>),
    /// `self.x`.
    Field(Seq<char>),
    /// `rng.next()`, of a harness: a number of 64 bits, which goes by a name here, so that two draws
    /// are not taken for one.
    Draw(Seq<char>),
    /// `x[i]`.
    At(Seq<char>, nat),
    /// `&x[i..j]`.
    Slice(Seq<char>, nat, nat),
    /// `(x)`.
    Paren(Box<Expr>),
    /// `x as T`.
    Cast(Box<Expr>, Int),
    /// `T::from(x)`.
    From(Int, Box<Expr>),
    /// `T::from_be_bytes([x, y])`.
    Join(Int, Seq<Expr>),
    /// `!x` of a number.
    Flip(Box<Expr>),
    /// `!x` of a flag.
    Not(Box<Expr>),
    /// `-x`.
    Minus(Box<Expr>),
    /// `x + y`, and all that is written so.
    Binary(Operator, Box<Expr>, Box<Expr>),
    /// `x.m()`.
    Call(Method, Box<Expr>),
    /// `f(x)`.
    Apply(Function, Box<Expr>),
    /// `matches!(x, 1 ..= 2 | 3)`.
    Among(Box<Expr>, Seq<(i128, i128)>),
    /// `true` or `false`.
    Flag(bool),
    /// `if x { y } else { z }`, on one line.
    Either(Box<Expr>, Box<Expr>, Box<Expr>),
    /// `if x { y } else { z }`, on several lines.
    Choice(Box<Expr>, Box<Expr>, Box<Expr>),
    /// `ends_early(x, y)`, of the module.
    EndsEarly(Seq<char>, Seq<char>),
    /// `find(x, y)`, of the module.
    Find(Seq<char>, Seq<char>),
    /// `x.get(..n)`.
    Head(Seq<char>, Seq<char>),
    /// `x.get(i..i + n)`.
    Part(Seq<char>, nat, Seq<char>),
    /// `T::from_raw(x)`, of a generated enum.
    FromRaw(Seq<char>, Box<Expr>),
    /// `{ x }`.
    Block(Box<Expr>),
    /// `let n = x; y`.
    Let(Seq<char>, Box<Expr>, Box<Expr>),
    /// `const N: &[u8] = &[1, 2]; y`.
    Const(Seq<char>, Seq<u8>, Box<Expr>),
    /// `if x { return e; } y`.
    Unless(Box<Expr>, Failure, Box<Expr>),
    /// `match x { Some(n) => y, None => return e, }`.
    OrFail(Box<Expr>, Seq<char>, Box<Expr>, Failure),
    /// `match x { Ok(n) => y, Err(_) => return e, }`.
    OrErr(Box<Expr>, Seq<char>, Box<Expr>, Failure),
}

/// How an early return is spelled.
pub open spec fn failure_source(failure: Failure) -> Seq<char> {
    match failure {
        Failure::Encode(refusal) => match refusal {
            Refusal::TooShort(needed) => "return Err(EncodeError::TooShort { needed: "@
                + decimal_text(needed as nat) + " })"@,
            Refusal::OutOfRange(name) => "return Err(EncodeError::"@ + "OutOfRange"@
                + " { parameter: "@ + string_literal(name) + " })"@,
            Refusal::TextLength(name) => "return Err(EncodeError::"@ + "TextLength"@
                + " { parameter: "@ + string_literal(name) + " })"@,
            Refusal::EmbeddedTerminator(name) => "return Err(EncodeError::"@
                + "EmbeddedTerminator"@ + " { parameter: "@ + string_literal(name) + " })"@,
            Refusal::InvalidText(name) => "return Err(EncodeError::"@ + "InvalidText"@
                + " { parameter: "@ + string_literal(name) + " })"@,
            Refusal::BinaryLength(name) => "return Err(EncodeError::"@ + "BinaryLength"@
                + " { parameter: "@ + string_literal(name) + " })"@,
        },
        Failure::Decode(fault) => match fault {
            Fault::TooShort(needed) => "return Err(DecodeError::TooShort { needed: "@
                + decimal_text(needed as nat) + " })"@,
            Fault::Unrecognized => "return Err(DecodeError::Unrecognized)"@,
            Fault::Ambiguous => "return Err(DecodeError::Ambiguous)"@,
            Fault::InvalidText(name) => "return Err(DecodeError::"@ + "InvalidText"@
                + " { parameter: "@ + string_literal(name) + " })"@,
            Fault::UnterminatedString(name) => "return Err(DecodeError::"@ + "UnterminatedString"@
                + " { parameter: "@ + string_literal(name) + " })"@,
            Fault::BadStringLength(name) => "return Err(DecodeError::"@ + "BadStringLength"@
                + " { parameter: "@ + string_literal(name) + " })"@,
            Fault::UnknownLabel(name) => "return Err(DecodeError::"@ + "UnknownLabel"@
                + " { parameter: "@ + string_literal(name) + " })"@,
        },
    }
}

/// Bytes, as a list of numbers.
pub open spec fn numbers(bytes: Seq<u8>) -> Seq<char>
    decreases bytes.len(),
{
    if bytes.len() == 0 {
        Seq::empty()
    } else if bytes.len() == 1 {
        decimal_text(bytes[0] as nat)
    } else {
        numbers(bytes.drop_last()) + ", "@ + decimal_text(bytes.last() as nat)
    }
}

/// Inclusive ranges, as a pattern.
pub open spec fn pattern(ranges: Seq<(i128, i128)>) -> Seq<char>
    decreases ranges.len(),
{
    if ranges.len() == 0 {
        Seq::empty()
    } else {
        let (low, high) = ranges.last();
        let one = if low == high {
            signed_text(low as int)
        } else {
            signed_text(low as int) + " ..= "@ + signed_text(high as int)
        };
        if ranges.len() == 1 {
            one
        } else {
            pattern(ranges.drop_last()) + " | "@ + one
        }
    }
}

/// How an expression is spelled.
#[verifier::opaque]
pub open spec fn source(expr: Expr) -> Seq<char>
    decreases expr, 0nat,
{
    match expr {
        Expr::Number(n) => signed_text(n),
        Expr::Name(name) => name,
        Expr::Field(name) => "self."@ + name,
        Expr::Draw(_) => "rng.next()"@,
        Expr::At(name, at) => name + "["@ + decimal_text(at) + "]"@,
        Expr::Slice(name, from, to) => "&"@ + name + "["@ + decimal_text(from) + ".."@
            + decimal_text(to) + "]"@,
        Expr::Paren(inner) => "("@ + source(*inner) + ")"@,
        Expr::Cast(inner, kind) => source(*inner) + " as "@ + kind.name(),
        Expr::From(kind, inner) => kind.name() + "::from("@ + source(*inner) + ")"@,
        Expr::Join(kind, items) => kind.name() + "::from_be_bytes(["@ + sources(items, items.len())
            + "])"@,
        Expr::Flip(inner) => "!"@ + source(*inner),
        Expr::Not(inner) => "!"@ + source(*inner),
        Expr::Minus(inner) => "-"@ + source(*inner),
        Expr::Binary(operator, left, right) => source(*left) + operator.sign() + source(*right),
        Expr::Call(method, inner) => source(*inner) + method.call(),
        Expr::Apply(function, inner) => function.name() + "("@ + source(*inner) + ")"@,
        Expr::Among(inner, ranges) => "matches!("@ + source(*inner) + ", "@ + pattern(ranges)
            + ")"@,
        Expr::Flag(flag) => if flag {
            "true"@
        } else {
            "false"@
        },
        Expr::Either(test, yes, no) => "if "@ + source(*test) + " { "@ + source(*yes)
            + " } else { "@ + source(*no) + " }"@,
        Expr::Choice(test, yes, no) => "if "@ + source(*test) + " {\n"@ + source(*yes)
            + "\n} else {\n"@ + source(*no) + "\n}"@,
        Expr::EndsEarly(text, end) => "ends_early("@ + text + ", "@ + end + ")"@,
        Expr::Find(text, end) => "find("@ + text + ", "@ + end + ")"@,
        Expr::Head(name, to) => name + ".get(.."@ + to + ")"@,
        Expr::Part(name, from, len) => name + ".get("@ + decimal_text(from) + ".."@ + decimal_text(
            from,
        ) + " + "@ + len + ")"@,
        Expr::FromRaw(name, inner) => name + "::from_raw("@ + source(*inner) + ")"@,
        Expr::Block(inner) => "{\n"@ + source(*inner) + "\n}"@,
        Expr::Let(name, value, rest) => "let "@ + name + " = "@ + source(*value) + ";\n"@ + source(
            *rest,
        ),
        Expr::Const(name, bytes, rest) => "const "@ + name + ": &[u8] = &["@ + numbers(bytes)
            + "];\n"@ + source(*rest),
        Expr::Unless(test, failure, rest) => "if "@ + source(*test) + " {\n"@ + failure_source(
            failure,
        ) + ";\n}\n"@ + source(*rest),
        Expr::OrFail(value, name, found, failure) => "match "@ + source(*value) + " {\nSome("@
            + name + ") => "@ + source(*found) + ",\nNone => "@ + failure_source(failure)
            + ",\n}"@,
        Expr::OrErr(value, name, found, failure) => "match "@ + source(*value) + " {\nOk("@ + name
            + ") => "@ + source(*found) + ",\nErr(_) => "@ + failure_source(failure) + ",\n}"@,
    }
}

/// How the first `count` of a list of expressions are spelled.
pub open spec fn sources(items: Seq<Expr>, count: nat) -> Seq<char>
    decreases items, count,
{
    if count == 0 || count > items.len() {
        Seq::empty()
    } else if count == 1 {
        source(items[0])
    } else {
        sources(items, (count - 1) as nat) + ", "@ + source(items[count - 1])
    }
}

/// How tightly an expression holds together.
pub open spec fn strength(expr: Expr) -> int {
    match expr {
        Expr::Number(n) => if n < 0 {
            13
        } else {
            14
        },
        Expr::Slice(_, _, _) | Expr::Flip(_) | Expr::Not(_) | Expr::Minus(_) => 13,
        Expr::Cast(_, _) => 12,
        Expr::Binary(operator, _, _) => operator.strength(),
        Expr::Either(_, _, _) | Expr::Choice(_, _, _) | Expr::OrFail(_, _, _, _)
        | Expr::OrErr(_, _, _, _) => 2,
        Expr::Let(_, _, _) | Expr::Const(_, _, _) | Expr::Unless(_, _, _) => 1,
        _ => 14,
    }
}

/// Whether the spelling of an expression ends in the name of a type, behind which `<` would open
/// its arguments.
pub open spec fn ends_in_type(expr: Expr) -> bool
    decreases expr,
{
    match expr {
        Expr::Cast(_, _) => true,
        Expr::Flip(inner) => ends_in_type(*inner),
        Expr::Not(inner) => ends_in_type(*inner),
        Expr::Minus(inner) => ends_in_type(*inner),
        Expr::Binary(_, _, right) => ends_in_type(*right),
        _ => false,
    }
}

/// Whether an expression is what its spelling is read as.
#[verifier::opaque]
pub open spec fn parses(expr: Expr) -> bool
    decreases expr, 0nat,
{
    match expr {
        Expr::Paren(inner) => parses(*inner) && strength(*inner) >= 2,
        Expr::Cast(inner, _) => parses(*inner) && strength(*inner) >= 12,
        Expr::From(_, inner) => parses(*inner) && strength(*inner) >= 2,
        Expr::Join(_, items) => all_parse(items, items.len()),
        Expr::Flip(inner) => parses(*inner) && strength(*inner) >= 13,
        Expr::Not(inner) => parses(*inner) && strength(*inner) >= 13,
        Expr::Minus(inner) => parses(*inner) && strength(*inner) >= 13,
        Expr::Binary(operator, left, right) => {
            &&& parses(*left)
            &&& parses(*right)
            &&& strength(*left) > operator.strength() || (!operator.compares() && strength(*left)
                == operator.strength())
            &&& strength(*right) > operator.strength() || ((operator is And || operator is Or)
                && strength(*right) == operator.strength())
            &&& operator is Up || operator is Less || operator is LessOrEqual ==> !ends_in_type(
                *left,
            )
        },
        Expr::Call(_, inner) => parses(*inner) && strength(*inner) >= 14,
        Expr::Apply(_, inner) => parses(*inner) && strength(*inner) >= 2,
        Expr::Among(inner, ranges) => parses(*inner) && strength(*inner) >= 2 && ranges.len() > 0,
        Expr::Either(test, yes, no) => parses(*test) && parses(*yes) && parses(*no) && strength(
            *test,
        ) >= 3 && strength(*yes) >= 2 && strength(*no) >= 2,
        Expr::Choice(test, yes, no) => parses(*test) && parses(*yes) && parses(*no) && strength(
            *test,
        ) >= 3 && strength(*yes) >= 2 && strength(*no) >= 2,
        Expr::FromRaw(_, inner) => parses(*inner) && strength(*inner) >= 2,
        Expr::Block(inner) => parses(*inner),
        Expr::Let(_, value, rest) => parses(*value) && parses(*rest) && strength(*value) >= 2,
        Expr::Const(_, _, rest) => parses(*rest),
        Expr::Unless(test, _, rest) => parses(*test) && parses(*rest) && strength(*test) >= 3,
        Expr::OrFail(value, _, found, _) => parses(*value) && parses(*found) && strength(*value)
            >= 3 && strength(*found) >= 2,
        Expr::OrErr(value, _, found, _) => parses(*value) && parses(*found) && strength(*value) >= 3
            && strength(*found) >= 2,
        _ => true,
    }
}

/// Whether that holds of the first `count` of a list.
pub open spec fn all_parse(items: Seq<Expr>, count: nat) -> bool
    decreases items, count,
{
    count == 0 || count > items.len() || (all_parse(items, (count - 1) as nat) && parses(
        items[count - 1],
    ) && strength(items[count - 1]) >= 2)
}

/// Whether a number lies in one of the inclusive ranges.
pub open spec fn is_among(number: int, ranges: Seq<(i128, i128)>) -> bool {
    exists|i: int| 0 <= i < ranges.len() && (#[trigger] ranges[i]).0 <= number <= ranges[i].1
}

/// What may be there is there.
pub open spec fn given(thing: Option<Thing>) -> Outcome {
    match thing {
        Some(thing) => Outcome::Is(thing),
        None => Outcome::Stuck,
    }
}

/// What an expression stands for.
#[verifier::opaque]
pub open spec fn means(expr: Expr, scope: Scope) -> Outcome
    decreases expr, 0nat,
{
    match expr {
        Expr::Number(n) => Outcome::Is(Thing::Literal(n)),
        Expr::Flag(flag) => Outcome::Is(Thing::Flag(flag)),
        Expr::Name(name) => if scope.names.contains_key(name) {
            Outcome::Is(scope.names[name])
        } else {
            Outcome::Stuck
        },
        Expr::Field(name) => if scope.fields.contains_key(name) {
            Outcome::Is(scope.fields[name])
        } else {
            Outcome::Stuck
        },
        Expr::Draw(name) => if scope.names.contains_key(name) && (
        scope.names[name] matches Thing::Number(Int::U64, _)) {
            Outcome::Is(scope.names[name])
        } else {
            Outcome::Stuck
        },
        Expr::At(name, at) => if scope.has_bytes(name) && at < scope.bytes(name).len() {
            Outcome::Is(Thing::Number(Int::U8, scope.bytes(name)[at as int] as int))
        } else {
            Outcome::Stuck
        },
        Expr::Slice(name, from, to) => if scope.has_bytes(name) && from <= to <= scope.bytes(
            name,
        ).len() {
            Outcome::Is(Thing::Bytes(scope.bytes(name).subrange(from as int, to as int)))
        } else {
            Outcome::Stuck
        },
        Expr::Paren(inner) => means(*inner, scope),
        Expr::Cast(inner, kind) => match means(*inner, scope) {
            Outcome::Is(Thing::Number(_, n)) => if kind is Usize && !kind.holds(n) {
                Outcome::Stuck
            } else if kind is Usize {
                Outcome::Is(Thing::Number(kind, n))
            } else {
                Outcome::Is(Thing::Number(kind, kind.cut(n)))
            },
            Outcome::Is(Thing::Literal(n)) => if kind.holds(n) {
                Outcome::Is(Thing::Number(kind, n))
            } else {
                Outcome::Stuck
            },
            Outcome::Is(_) => Outcome::Stuck,
            other => other,
        },
        // A lossless conversion: the type holds every value of the one that is converted.
        Expr::From(kind, inner) => match means(*inner, scope) {
            Outcome::Is(Thing::Number(from, n)) => if kind == from || (kind.bits() > from.bits() && (
            kind.signed() || !from.signed()) && !(from is Usize)) {
                Outcome::Is(Thing::Number(kind, n))
            } else {
                Outcome::Stuck
            },
            Outcome::Is(Thing::Flag(flag)) => Outcome::Is(
                Thing::Number(
                    kind,
                    if flag {
                        1
                    } else {
                        0
                    },
                ),
            ),
            Outcome::Is(_) => Outcome::Stuck,
            other => other,
        },
        Expr::Join(kind, items) => match bytes_meant(items, items.len(), scope) {
            Some(bytes) => if !kind.signed() && !(kind is Usize) && 8 * bytes.len() == kind.bits() {
                Outcome::Is(Thing::Number(kind, bytes_value(bytes) as int))
            } else {
                Outcome::Stuck
            },
            None => Outcome::Stuck,
        },
        Expr::Flip(inner) => match means(*inner, scope) {
            Outcome::Is(Thing::Number(kind, n)) => if kind.signed() {
                Outcome::Stuck
            } else {
                Outcome::Is(Thing::Number(kind, pow2(kind.bits()) - 1 - n))
            },
            Outcome::Is(_) => Outcome::Stuck,
            other => other,
        },
        Expr::Not(inner) => match means(*inner, scope) {
            Outcome::Is(Thing::Flag(flag)) => Outcome::Is(Thing::Flag(!flag)),
            Outcome::Is(_) => Outcome::Stuck,
            other => other,
        },
        Expr::Minus(inner) => match means(*inner, scope) {
            Outcome::Is(Thing::Number(kind, n)) => if kind.signed() && kind.holds(-n) {
                Outcome::Is(Thing::Number(kind, -n))
            } else {
                Outcome::Stuck
            },
            Outcome::Is(_) => Outcome::Stuck,
            other => other,
        },
        Expr::Binary(operator, left, right) => match means(*left, scope) {
            Outcome::Is(Thing::Flag(flag)) => if operator is And && !flag {
                Outcome::Is(Thing::Flag(false))
            } else if operator is Or && flag {
                Outcome::Is(Thing::Flag(true))
            } else if operator is And || operator is Or {
                match means(*right, scope) {
                    Outcome::Is(Thing::Flag(second)) => Outcome::Is(Thing::Flag(second)),
                    _ => Outcome::Stuck,
                }
            } else {
                Outcome::Stuck
            },
            Outcome::Is(first) => match means(*right, scope) {
                Outcome::Is(second) => given(operated(operator, first, second)),
                _ => Outcome::Stuck,
            },
            _ => Outcome::Stuck,
        },
        Expr::Call(method, inner) => match means(*inner, scope) {
            Outcome::Is(thing) => given(called(method, thing, scope.enums)),
            other => other,
        },
        Expr::Apply(function, inner) => match means(*inner, scope) {
            Outcome::Is(thing) => given(applied(function, thing)),
            other => other,
        },
        Expr::Among(inner, ranges) => match means(*inner, scope) {
            Outcome::Is(Thing::Number(_, n)) => Outcome::Is(Thing::Flag(is_among(n, ranges))),
            _ => Outcome::Stuck,
        },
        Expr::Either(test, yes, no) => match means(*test, scope) {
            Outcome::Is(Thing::Flag(flag)) => if flag {
                means(*yes, scope)
            } else {
                means(*no, scope)
            },
            _ => Outcome::Stuck,
        },
        Expr::Choice(test, yes, no) => match means(*test, scope) {
            Outcome::Is(Thing::Flag(flag)) => if flag {
                means(*yes, scope)
            } else {
                means(*no, scope)
            },
            _ => Outcome::Stuck,
        },
        Expr::EndsEarly(text, end) => if scope.has_bytes(text) && scope.has_bytes(end) {
            Outcome::Is(Thing::Flag(is_early(scope.bytes(text), scope.bytes(end))))
        } else {
            Outcome::Stuck
        },
        Expr::Find(text, end) => if scope.has_bytes(text) && scope.has_bytes(end) {
            Outcome::Is(
                Thing::Maybe(
                    match first_occurrence(scope.bytes(text), scope.bytes(end)) {
                        Some(at) => Some(Box::new(Thing::Number(Int::Usize, at))),
                        None => None,
                    },
                ),
            )
        } else {
            Outcome::Stuck
        },
        Expr::Head(name, to) => if scope.has_bytes(name) && scope.names.contains_key(to) {
            match scope.names[to] {
                Thing::Number(Int::Usize, n) => Outcome::Is(
                    Thing::Maybe(
                        if n <= scope.bytes(name).len() {
                            Some(Box::new(Thing::Bytes(scope.bytes(name).take(n))))
                        } else {
                            None
                        },
                    ),
                ),
                _ => Outcome::Stuck,
            }
        } else {
            Outcome::Stuck
        },
        Expr::Part(name, from, len) => if scope.has_bytes(name) && scope.names.contains_key(len) {
            match scope.names[len] {
                Thing::Number(Int::Usize, n) => if from + n <= usize::MAX {
                    Outcome::Is(
                        Thing::Maybe(
                            if from + n <= scope.bytes(name).len() {
                                Some(
                                    Box::new(
                                        Thing::Bytes(
                                            scope.bytes(name).subrange(from as int, from + n),
                                        ),
                                    ),
                                )
                            } else {
                                None
                            },
                        ),
                    )
                } else {
                    Outcome::Stuck
                },
                _ => Outcome::Stuck,
            }
        } else {
            Outcome::Stuck
        },
        Expr::FromRaw(name, inner) => match (enum_named(scope.enums, name, 0), means(
            *inner,
            scope,
        )) {
            (Some(index), Outcome::Is(Thing::Number(Int::U64, n))) => Outcome::Is(
                Thing::Maybe(
                    match variant_from(scope.enums[index], n, 0) {
                        Some(variant) => Some(Box::new(Thing::Variant(index, variant))),
                        None => None,
                    },
                ),
            ),
            _ => Outcome::Stuck,
        },
        Expr::Block(inner) => means(*inner, scope),
        Expr::Let(name, value, rest) => match means(*value, scope) {
            Outcome::Is(thing) => means(*rest, scope.with(name, thing)),
            other => other,
        },
        Expr::Const(name, bytes, rest) => means(*rest, scope.with(name, Thing::Bytes(bytes))),
        Expr::Unless(test, failure, rest) => match means(*test, scope) {
            Outcome::Is(Thing::Flag(flag)) => if flag {
                Outcome::Fails(failure)
            } else {
                means(*rest, scope)
            },
            _ => Outcome::Stuck,
        },
        Expr::OrFail(value, name, found, failure) => match means(*value, scope) {
            Outcome::Is(Thing::Maybe(maybe)) => match maybe {
                Some(thing) => means(*found, scope.with(name, *thing)),
                None => Outcome::Fails(failure),
            },
            _ => Outcome::Stuck,
        },
        Expr::OrErr(value, name, found, failure) => match means(*value, scope) {
            Outcome::Is(Thing::Maybe(maybe)) => match maybe {
                Some(thing) => means(*found, scope.with(name, *thing)),
                None => Outcome::Fails(failure),
            },
            _ => Outcome::Stuck,
        },
    }
}

/// The bytes that the first `count` of a list of expressions stand for.
pub open spec fn bytes_meant(items: Seq<Expr>, count: nat, scope: Scope) -> Option<Seq<u8>>
    decreases items, count,
{
    if count == 0 || count > items.len() {
        Some(Seq::empty())
    } else {
        match (bytes_meant(items, (count - 1) as nat, scope), means(items[count - 1], scope)) {
            (Some(before), Outcome::Is(Thing::Number(Int::U8, n))) => Some(before.push(n as u8)),
            (Some(before), Outcome::Is(Thing::Literal(n))) => if 0 <= n < 256 {
                Some(before.push(n as u8))
            } else {
                None
            },
            _ => None,
        }
    }
}

/// `(x)`.
pub open spec fn paren(inner: Expr) -> Expr {
    Expr::Paren(Box::new(inner))
}

/// `x as T`.
pub open spec fn cast(inner: Expr, kind: Int) -> Expr {
    Expr::Cast(Box::new(inner), kind)
}

/// `x + y`, and all that is written so.
pub open spec fn binary(operator: Operator, left: Expr, right: Expr) -> Expr {
    Expr::Binary(operator, Box::new(left), Box::new(right))
}

/// `x.m()`.
pub open spec fn call(method: Method, inner: Expr) -> Expr {
    Expr::Call(method, Box::new(inner))
}

/// `f(x)`.
pub open spec fn apply(function: Function, inner: Expr) -> Expr {
    Expr::Apply(function, Box::new(inner))
}

/// `{ x }`.
pub open spec fn braces(inner: Expr) -> Expr {
    Expr::Block(Box::new(inner))
}

/// `let n = x; y`.
pub open spec fn binding(name: Seq<char>, value: Expr, rest: Expr) -> Expr {
    Expr::Let(name, Box::new(value), Box::new(rest))
}

// ---------------------------------------------------------------------------------------
// One step at a time
// ---------------------------------------------------------------------------------------

/// A number.
pub proof fn step_number(n: int, scope: Scope)
    ensures
        source(Expr::Number(n)) == signed_text(n),
        n >= 0 ==> source(Expr::Number(n)) == decimal_text(n as nat),
        parses(Expr::Number(n)),
        means(Expr::Number(n), scope) == Outcome::Is(Thing::Literal(n)),
{
    reveal(source);
    reveal(parses);
    reveal(means);
}

/// `true` or `false`.
pub proof fn step_flag(flag: bool, scope: Scope)
    ensures
        source(Expr::Flag(flag)) == if flag {
            "true"@
        } else {
            "false"@
        },
        parses(Expr::Flag(flag)),
        means(Expr::Flag(flag), scope) == Outcome::Is(Thing::Flag(flag)),
{
    reveal(source);
    reveal(parses);
    reveal(means);
}

/// A local variable.
pub proof fn step_name(name: Seq<char>, scope: Scope)
    ensures
        source(Expr::Name(name)) == name,
        parses(Expr::Name(name)),
        scope.names.contains_key(name) ==> means(Expr::Name(name), scope) == Outcome::Is(
            scope.names[name],
        ),
{
    reveal(source);
    reveal(parses);
    reveal(means);
}

/// `self.x`.
pub proof fn step_field(name: Seq<char>, scope: Scope)
    ensures
        source(Expr::Field(name)) == "self."@ + name,
        parses(Expr::Field(name)),
        scope.fields.contains_key(name) ==> means(Expr::Field(name), scope) == Outcome::Is(
            scope.fields[name],
        ),
{
    reveal(source);
    reveal(parses);
    reveal(means);
}

/// `rng.next()`.
pub proof fn step_draw(name: Seq<char>, scope: Scope)
    ensures
        source(Expr::Draw(name)) == "rng.next()"@,
        parses(Expr::Draw(name)),
        scope.names.contains_key(name) ==> (scope.names[name] matches Thing::Number(kind, _) ==> (
        kind is U64 ==> means(Expr::Draw(name), scope) == Outcome::Is(scope.names[name]))),
{
    reveal(source);
    reveal(parses);
    reveal(means);
}

/// `x[i]`.
pub proof fn step_at(name: Seq<char>, at: nat, scope: Scope)
    ensures
        source(Expr::At(name, at)) == name + "["@ + decimal_text(at) + "]"@,
        parses(Expr::At(name, at)),
        scope.has_bytes(name) && at < scope.bytes(name).len() ==> means(Expr::At(name, at), scope)
            == Outcome::Is(Thing::Number(Int::U8, scope.bytes(name)[at as int] as int)),
{
    reveal(source);
    reveal(parses);
    reveal(means);
}

/// `&x[i..j]`.
pub proof fn step_slice(name: Seq<char>, from: nat, to: nat, scope: Scope)
    ensures
        source(Expr::Slice(name, from, to)) == "&"@ + name + "["@ + decimal_text(from) + ".."@
            + decimal_text(to) + "]"@,
        parses(Expr::Slice(name, from, to)),
        scope.has_bytes(name) && from <= to <= scope.bytes(name).len() ==> means(
            Expr::Slice(name, from, to),
            scope,
        ) == Outcome::Is(Thing::Bytes(scope.bytes(name).subrange(from as int, to as int))),
{
    reveal(source);
    reveal(parses);
    reveal(means);
}

/// `(x)`.
pub proof fn step_paren(inner: Expr, scope: Scope)
    ensures
        source(Expr::Paren(Box::new(inner))) == "("@ + source(inner) + ")"@,
        parses(Expr::Paren(Box::new(inner))) == (parses(inner) && strength(inner) >= 2),
        means(Expr::Paren(Box::new(inner)), scope) == means(inner, scope),
{
    reveal(source);
    reveal(parses);
    reveal(means);
}

/// `x as T`.
pub proof fn step_cast(inner: Expr, kind: Int, scope: Scope)
    ensures
        source(Expr::Cast(Box::new(inner), kind)) == source(inner) + " as "@ + kind.name(),
        parses(Expr::Cast(Box::new(inner), kind)) == (parses(inner) && strength(inner) >= 12),
        means(inner, scope) matches Outcome::Is(Thing::Number(_, n)) ==> {
            &&& !(kind is Usize) ==> means(Expr::Cast(Box::new(inner), kind), scope) == Outcome::Is(
                Thing::Number(kind, kind.cut(n)),
            )
            &&& kind is Usize && kind.holds(n) ==> means(Expr::Cast(Box::new(inner), kind), scope)
                == Outcome::Is(Thing::Number(kind, n))
        },
        means(inner, scope) matches Outcome::Is(Thing::Literal(n)) ==> (kind.holds(n) ==> means(
            Expr::Cast(Box::new(inner), kind),
            scope,
        ) == Outcome::Is(Thing::Number(kind, n))),
{
    reveal(source);
    reveal(parses);
    reveal(means);
}

/// `T::from(x)`.
pub proof fn step_from(kind: Int, inner: Expr, scope: Scope)
    ensures
        source(Expr::From(kind, Box::new(inner))) == kind.name() + "::from("@ + source(inner)
            + ")"@,
        parses(Expr::From(kind, Box::new(inner))) == (parses(inner) && strength(inner) >= 2),
        means(inner, scope) matches Outcome::Is(Thing::Number(from, n)) ==> (kind == from || (
        kind.bits() > from.bits() && (kind.signed() || !from.signed()) && !(from is Usize))
            ==> means(
            Expr::From(kind, Box::new(inner)),
            scope,
        ) == Outcome::Is(Thing::Number(kind, n))),
        means(inner, scope) matches Outcome::Is(Thing::Flag(flag)) ==> means(
            Expr::From(kind, Box::new(inner)),
            scope,
        ) == Outcome::Is(
            Thing::Number(
                kind,
                if flag {
                    1
                } else {
                    0
                },
            ),
        ),
{
    reveal(source);
    reveal(parses);
    reveal(means);
}

/// `T::from_be_bytes([x, y])`.
pub proof fn step_join(kind: Int, items: Seq<Expr>, scope: Scope)
    ensures
        source(Expr::Join(kind, items)) == kind.name() + "::from_be_bytes(["@ + sources(
            items,
            items.len(),
        ) + "])"@,
        parses(Expr::Join(kind, items)) == all_parse(items, items.len()),
        bytes_meant(items, items.len(), scope) matches Some(bytes) ==> (!kind.signed() && !(
        kind is Usize) && 8 * bytes.len() == kind.bits() ==> means(Expr::Join(kind, items), scope)
            == Outcome::Is(Thing::Number(kind, bytes_value(bytes) as int))),
{
    reveal(source);
    reveal(parses);
    reveal(means);
}

/// `!x` of a number.
pub proof fn step_flip(inner: Expr, scope: Scope)
    ensures
        source(Expr::Flip(Box::new(inner))) == "!"@ + source(inner),
        parses(Expr::Flip(Box::new(inner))) == (parses(inner) && strength(inner) >= 13),
        means(inner, scope) matches Outcome::Is(Thing::Number(kind, n)) ==> (!kind.signed()
            ==> means(Expr::Flip(Box::new(inner)), scope) == Outcome::Is(
            Thing::Number(kind, pow2(kind.bits()) - 1 - n),
        )),
{
    reveal(source);
    reveal(parses);
    reveal(means);
}

/// `!x` of a flag.
pub proof fn step_not(inner: Expr, scope: Scope)
    ensures
        source(Expr::Not(Box::new(inner))) == "!"@ + source(inner),
        parses(Expr::Not(Box::new(inner))) == (parses(inner) && strength(inner) >= 13),
        means(inner, scope) matches Outcome::Is(Thing::Flag(flag)) ==> means(
            Expr::Not(Box::new(inner)),
            scope,
        ) == Outcome::Is(Thing::Flag(!flag)),
{
    reveal(source);
    reveal(parses);
    reveal(means);
}

/// `-x`.
pub proof fn step_minus(inner: Expr, scope: Scope)
    ensures
        source(Expr::Minus(Box::new(inner))) == "-"@ + source(inner),
        parses(Expr::Minus(Box::new(inner))) == (parses(inner) && strength(inner) >= 13),
        means(inner, scope) matches Outcome::Is(Thing::Number(kind, n)) ==> (kind.signed()
            && kind.holds(-n) ==> means(Expr::Minus(Box::new(inner)), scope) == Outcome::Is(
            Thing::Number(kind, -n),
        )),
{
    reveal(source);
    reveal(parses);
    reveal(means);
}

/// Whether two expressions may stand on the sides of an operator.
pub open spec fn joins(operator: Operator, left: Expr, right: Expr) -> bool {
    &&& strength(left) > operator.strength() || (!operator.compares() && strength(left)
        == operator.strength())
    &&& strength(right) > operator.strength() || ((operator is And || operator is Or) && strength(
        right,
    ) == operator.strength())
    &&& operator is Up || operator is Less || operator is LessOrEqual ==> !ends_in_type(left)
}

/// `x + y`, of two values.
pub proof fn step_binary(operator: Operator, left: Expr, right: Expr, scope: Scope)
    ensures
        source(Expr::Binary(operator, Box::new(left), Box::new(right))) == source(left)
            + operator.sign() + source(right),
        parses(Expr::Binary(operator, Box::new(left), Box::new(right))) == (parses(left) && parses(
            right,
        ) && joins(operator, left, right)),
        means(left, scope) matches Outcome::Is(a) ==> (means(right, scope) matches Outcome::Is(b)
            ==> (!(a is Flag) ==> means(
            Expr::Binary(operator, Box::new(left), Box::new(right)),
            scope,
        ) == given(operated(operator, a, b)))),
        means(left, scope) matches Outcome::Is(Thing::Flag(a)) ==> (means(
            right,
            scope,
        ) matches Outcome::Is(Thing::Flag(b)) ==> (operator is And ==> means(
            Expr::Binary(operator, Box::new(left), Box::new(right)),
            scope,
        ) == Outcome::Is(Thing::Flag(a && b))) && (operator is Or ==> means(
            Expr::Binary(operator, Box::new(left), Box::new(right)),
            scope,
        ) == Outcome::Is(Thing::Flag(a || b)))),
{
    reveal(source);
    reveal(parses);
    reveal(means);
}

/// `x.m()`.
pub proof fn step_call(method: Method, inner: Expr, scope: Scope)
    ensures
        source(Expr::Call(method, Box::new(inner))) == source(inner) + method.call(),
        parses(Expr::Call(method, Box::new(inner))) == (parses(inner) && strength(inner) >= 14),
        means(inner, scope) matches Outcome::Is(thing) ==> means(
            Expr::Call(method, Box::new(inner)),
            scope,
        ) == given(called(method, thing, scope.enums)),
{
    reveal(source);
    reveal(parses);
    reveal(means);
}

/// `f(x)`.
pub proof fn step_apply(function: Function, inner: Expr, scope: Scope)
    ensures
        source(Expr::Apply(function, Box::new(inner))) == function.name() + "("@ + source(inner)
            + ")"@,
        parses(Expr::Apply(function, Box::new(inner))) == (parses(inner) && strength(inner) >= 2),
        means(inner, scope) matches Outcome::Is(thing) ==> means(
            Expr::Apply(function, Box::new(inner)),
            scope,
        ) == given(applied(function, thing)),
{
    reveal(source);
    reveal(parses);
    reveal(means);
}

/// `matches!(x, 1 ..= 2 | 3)`.
pub proof fn step_among(inner: Expr, ranges: Seq<(i128, i128)>, scope: Scope)
    ensures
        source(Expr::Among(Box::new(inner), ranges)) == "matches!("@ + source(inner) + ", "@
            + pattern(ranges) + ")"@,
        parses(Expr::Among(Box::new(inner), ranges)) == (parses(inner) && strength(inner) >= 2
            && ranges.len() > 0),
        means(inner, scope) matches Outcome::Is(Thing::Number(_, n)) ==> means(
            Expr::Among(Box::new(inner), ranges),
            scope,
        ) == Outcome::Is(Thing::Flag(is_among(n, ranges))),
{
    reveal(source);
    reveal(parses);
    reveal(means);
}

/// `if x { y } else { z }`, on one line.
pub proof fn step_either(test: Expr, yes: Expr, no: Expr, scope: Scope)
    ensures
        source(Expr::Either(Box::new(test), Box::new(yes), Box::new(no))) == "if "@ + source(test)
            + " { "@ + source(yes) + " } else { "@ + source(no) + " }"@,
        parses(Expr::Either(Box::new(test), Box::new(yes), Box::new(no))) == (parses(test)
            && parses(yes) && parses(no) && strength(test) >= 3 && strength(yes) >= 2 && strength(
            no,
        ) >= 2),
        means(test, scope) matches Outcome::Is(Thing::Flag(flag)) ==> means(
            Expr::Either(Box::new(test), Box::new(yes), Box::new(no)),
            scope,
        ) == if flag {
            means(yes, scope)
        } else {
            means(no, scope)
        },
{
    reveal(source);
    reveal(parses);
    reveal(means);
}

/// `if x { y } else { z }`, on several lines.
pub proof fn step_choice(test: Expr, yes: Expr, no: Expr, scope: Scope)
    ensures
        source(Expr::Choice(Box::new(test), Box::new(yes), Box::new(no))) == "if "@ + source(test)
            + " {\n"@ + source(yes) + "\n} else {\n"@ + source(no) + "\n}"@,
        parses(Expr::Choice(Box::new(test), Box::new(yes), Box::new(no))) == (parses(test)
            && parses(yes) && parses(no) && strength(test) >= 3 && strength(yes) >= 2 && strength(
            no,
        ) >= 2),
        means(test, scope) matches Outcome::Is(Thing::Flag(flag)) ==> means(
            Expr::Choice(Box::new(test), Box::new(yes), Box::new(no)),
            scope,
        ) == if flag {
            means(yes, scope)
        } else {
            means(no, scope)
        },
{
    reveal(source);
    reveal(parses);
    reveal(means);
}

/// `ends_early(x, y)`, of the module.
pub proof fn step_ends_early(text: Seq<char>, end: Seq<char>, scope: Scope)
    ensures
        source(Expr::EndsEarly(text, end)) == "ends_early("@ + text + ", "@ + end + ")"@,
        parses(Expr::EndsEarly(text, end)),
        scope.has_bytes(text) && scope.has_bytes(end) ==> means(Expr::EndsEarly(text, end), scope)
            == Outcome::Is(Thing::Flag(is_early(scope.bytes(text), scope.bytes(end)))),
{
    reveal(source);
    reveal(parses);
    reveal(means);
}

/// `find(x, y)`, of the module.
pub proof fn step_find(text: Seq<char>, end: Seq<char>, scope: Scope)
    ensures
        source(Expr::Find(text, end)) == "find("@ + text + ", "@ + end + ")"@,
        parses(Expr::Find(text, end)),
        scope.has_bytes(text) && scope.has_bytes(end) ==> means(Expr::Find(text, end), scope)
            == Outcome::Is(
            Thing::Maybe(
                match first_occurrence(scope.bytes(text), scope.bytes(end)) {
                    Some(at) => Some(Box::new(Thing::Number(Int::Usize, at))),
                    None => None,
                },
            ),
        ),
{
    reveal(source);
    reveal(parses);
    reveal(means);
}

/// `x.get(..n)`.
pub proof fn step_head(name: Seq<char>, to: Seq<char>, scope: Scope)
    ensures
        source(Expr::Head(name, to)) == name + ".get(.."@ + to + ")"@,
        parses(Expr::Head(name, to)),
        scope.has_bytes(name) && scope.names.contains_key(to) ==> (
        scope.names[to] matches Thing::Number(Int::Usize, n) ==> (n <= scope.bytes(name).len()
            ==> means(Expr::Head(name, to), scope) == Outcome::Is(
            Thing::Maybe(Some(Box::new(Thing::Bytes(scope.bytes(name).take(n))))),
        ))),
{
    reveal(source);
    reveal(parses);
    reveal(means);
}

/// `x.get(i..i + n)`.
pub proof fn step_part(name: Seq<char>, from: nat, len: Seq<char>, scope: Scope)
    ensures
        source(Expr::Part(name, from, len)) == name + ".get("@ + decimal_text(from) + ".."@
            + decimal_text(from) + " + "@ + len + ")"@,
        parses(Expr::Part(name, from, len)),
        scope.has_bytes(name) && scope.names.contains_key(len) ==> (
        scope.names[len] matches Thing::Number(Int::Usize, n) ==> (from + n <= usize::MAX ==> means(
            Expr::Part(name, from, len),
            scope,
        ) == Outcome::Is(
            Thing::Maybe(
                if from + n <= scope.bytes(name).len() {
                    Some(
                        Box::new(
                            Thing::Bytes(scope.bytes(name).subrange(from as int, from + n)),
                        ),
                    )
                } else {
                    None
                },
            ),
        ))),
{
    reveal(source);
    reveal(parses);
    reveal(means);
}

/// `T::from_raw(x)`, of a generated enum.
pub proof fn step_from_raw(name: Seq<char>, inner: Expr, scope: Scope)
    ensures
        source(Expr::FromRaw(name, Box::new(inner))) == name + "::from_raw("@ + source(inner)
            + ")"@,
        parses(Expr::FromRaw(name, Box::new(inner))) == (parses(inner) && strength(inner) >= 2),
        enum_named(scope.enums, name, 0) matches Some(index) ==> (means(
            inner,
            scope,
        ) matches Outcome::Is(Thing::Number(kind, n)) ==> (kind is U64 ==> means(
            Expr::FromRaw(name, Box::new(inner)),
            scope,
        ) == Outcome::Is(
            Thing::Maybe(
                match variant_from(scope.enums[index], n, 0) {
                    Some(variant) => Some(Box::new(Thing::Variant(index, variant))),
                    None => None,
                },
            ),
        ))),
{
    reveal(source);
    reveal(parses);
    reveal(means);
}

/// `{ x }`.
pub proof fn step_braces(inner: Expr, scope: Scope)
    ensures
        source(Expr::Block(Box::new(inner))) == "{\n"@ + source(inner) + "\n}"@,
        parses(Expr::Block(Box::new(inner))) == parses(inner),
        means(Expr::Block(Box::new(inner)), scope) == means(inner, scope),
{
    reveal(source);
    reveal(parses);
    reveal(means);
}

/// `let n = x; y`.
pub proof fn step_binding(name: Seq<char>, value: Expr, rest: Expr, scope: Scope)
    ensures
        source(Expr::Let(name, Box::new(value), Box::new(rest))) == "let "@ + name + " = "@
            + source(value) + ";\n"@ + source(rest),
        parses(Expr::Let(name, Box::new(value), Box::new(rest))) == (parses(value) && parses(rest)
            && strength(value) >= 2),
        means(Expr::Let(name, Box::new(value), Box::new(rest)), scope) == match means(
            value,
            scope,
        ) {
            Outcome::Is(thing) => means(rest, scope.with(name, thing)),
            other => other,
        },
{
    reveal(source);
    reveal(parses);
    reveal(means);
}

/// `const N: &[u8] = &[1, 2]; y`.
pub proof fn step_constant(name: Seq<char>, bytes: Seq<u8>, rest: Expr, scope: Scope)
    ensures
        source(Expr::Const(name, bytes, Box::new(rest))) == "const "@ + name + ": &[u8] = &["@
            + numbers(bytes) + "];\n"@ + source(rest),
        parses(Expr::Const(name, bytes, Box::new(rest))) == parses(rest),
        means(Expr::Const(name, bytes, Box::new(rest)), scope) == means(
            rest,
            scope.with(name, Thing::Bytes(bytes)),
        ),
{
    reveal(source);
    reveal(parses);
    reveal(means);
}

/// `if x { return e; } y`.
pub proof fn step_unless(test: Expr, failure: Failure, rest: Expr, scope: Scope)
    ensures
        source(Expr::Unless(Box::new(test), failure, Box::new(rest))) == "if "@ + source(test)
            + " {\n"@ + failure_source(failure) + ";\n}\n"@ + source(rest),
        parses(Expr::Unless(Box::new(test), failure, Box::new(rest))) == (parses(test) && parses(
            rest,
        ) && strength(test) >= 3),
        means(test, scope) matches Outcome::Is(Thing::Flag(flag)) ==> means(
            Expr::Unless(Box::new(test), failure, Box::new(rest)),
            scope,
        ) == if flag {
            Outcome::Fails(failure)
        } else {
            means(rest, scope)
        },
{
    reveal(source);
    reveal(parses);
    reveal(means);
}

/// `match x { Some(n) => y, None => return e, }`.
pub proof fn step_or_fail(
    value: Expr,
    name: Seq<char>,
    found: Expr,
    failure: Failure,
    scope: Scope,
)
    ensures
        source(Expr::OrFail(Box::new(value), name, Box::new(found), failure)) == "match "@ + source(
            value,
        ) + " {\nSome("@ + name + ") => "@ + source(found) + ",\nNone => "@ + failure_source(
            failure,
        ) + ",\n}"@,
        parses(Expr::OrFail(Box::new(value), name, Box::new(found), failure)) == (parses(value)
            && parses(found) && strength(value) >= 3 && strength(found) >= 2),
        means(value, scope) matches Outcome::Is(Thing::Maybe(maybe)) ==> means(
            Expr::OrFail(Box::new(value), name, Box::new(found), failure),
            scope,
        ) == match maybe {
            Some(thing) => means(found, scope.with(name, *thing)),
            None => Outcome::Fails(failure),
        },
{
    reveal(source);
    reveal(parses);
    reveal(means);
}

/// `match x { Ok(n) => y, Err(_) => return e, }`.
pub proof fn step_or_err(
    value: Expr,
    name: Seq<char>,
    found: Expr,
    failure: Failure,
    scope: Scope,
)
    ensures
        source(Expr::OrErr(Box::new(value), name, Box::new(found), failure)) == "match "@ + source(
            value,
        ) + " {\nOk("@ + name + ") => "@ + source(found) + ",\nErr(_) => "@ + failure_source(
            failure,
        ) + ",\n}"@,
        parses(Expr::OrErr(Box::new(value), name, Box::new(found), failure)) == (parses(value)
            && parses(found) && strength(value) >= 3 && strength(found) >= 2),
        means(value, scope) matches Outcome::Is(Thing::Maybe(maybe)) ==> means(
            Expr::OrErr(Box::new(value), name, Box::new(found), failure),
            scope,
        ) == match maybe {
            Some(thing) => means(found, scope.with(name, *thing)),
            None => Outcome::Fails(failure),
        },
{
    reveal(source);
    reveal(parses);
    reveal(means);
}

// ---------------------------------------------------------------------------------------
// Statements
// ---------------------------------------------------------------------------------------

/// A statement, or several.
pub enum Command {
    /// Nothing.
    Nothing,
    /// One behind another.
    Chain(Box<Command>, Box<Command>),
    /// `let n = x;`.
    Let(Seq<char>, Expr),
    /// `let n: T = x;`.
    LetAs(Seq<char>, Int, Expr),
    /// `let n: &[u8] = x;`.
    LetBytes(Seq<char>, Expr),
    /// `const N: &[u8] = &[1, 2];`.
    Const(Seq<char>, Seq<u8>),
    /// `{ c }`.
    Block(Box<Command>),
    /// `a[i] = x;`.
    Store(Seq<char>, nat, Expr),
    /// `a[i] |= x;`.
    Merge(Seq<char>, nat, Expr),
    /// `a[i] = b[j];`.
    Move(Seq<char>, nat, Seq<char>, nat),
    /// `if x { return Err(e); }`.
    Refuse(Expr, Refusal),
    /// `for (slot, byte) in a[i..j].iter_mut().zip(b) { *slot = *byte; }`.
    Copy(Seq<char>, nat, nat, Seq<char>),
    /// `match a.get_mut(i..i + n) { Some(s) => { c } None => return Err(e), }`.
    Within(Seq<char>, Seq<char>, nat, Seq<char>, Box<Command>, Refusal),
}

/// How a statement is spelled.
#[verifier::opaque]
pub open spec fn script(command: Command) -> Seq<char>
    decreases command,
{
    match command {
        Command::Nothing => Seq::empty(),
        Command::Chain(first, second) => script(*first) + script(*second),
        Command::Let(name, value) => "let "@ + name + " = "@ + source(value) + ";\n"@,
        Command::LetAs(name, kind, value) => "let "@ + name + ": "@ + kind.name() + " = "@ + source(
            value,
        ) + ";\n"@,
        Command::LetBytes(name, value) => "let "@ + name + ": &[u8] = "@ + source(value) + ";\n"@,
        Command::Const(name, bytes) => "const "@ + name + ": &[u8] = &["@ + numbers(bytes)
            + "];\n"@,
        Command::Block(inner) => "{\n"@ + script(*inner) + "}\n"@,
        Command::Store(name, at, value) => name + "["@ + decimal_text(at) + "] = "@ + source(value)
            + ";\n"@,
        Command::Merge(name, at, value) => name + "["@ + decimal_text(at) + "] |= "@ + source(value)
            + ";\n"@,
        Command::Move(name, at, from, place) => name + "["@ + decimal_text(at) + "] = "@ + from
            + "["@ + decimal_text(place) + "];\n"@,
        Command::Refuse(test, refusal) => "if "@ + source(test) + " {\n"@ + failure_source(
            Failure::Encode(refusal),
        ) + ";\n}\n"@,
        Command::Copy(name, from, to, bytes) => "for (slot, byte) in "@ + name + "["@
            + decimal_text(from) + ".."@ + decimal_text(to) + "].iter_mut().zip("@ + bytes
            + ") {\n*slot = *byte;\n}\n"@,
        Command::Within(name, from, len, slot, inner, refusal) => "match "@ + name + ".get_mut("@
            + from + ".."@ + from + " + "@ + decimal_text(len) + ") {\nSome("@ + slot + ") => {\n"@
            + script(*inner) + "}\nNone => "@ + failure_source(Failure::Encode(refusal))
            + ",\n}\n"@,
    }
}

/// What becomes of a statement.
pub enum Step {
    /// It is over, and this is what names stand for.
    Goes(Scope),
    /// The function returns an error, and this is the buffer by then.
    Stops(Refusal, Seq<u8>),
    /// It does not compile, or it panics.
    Stuck,
}

/// Puts a byte into bytes that a variable holds.
pub open spec fn stored(scope: Scope, name: Seq<char>, at: int, byte: u8) -> Step {
    if scope.has_bytes(name) && 0 <= at < scope.bytes(name).len() {
        Step::Goes(scope.with(name, Thing::Bytes(scope.bytes(name).update(at, byte))))
    } else {
        Step::Stuck
    }
}

/// A byte that a value stands for.
pub open spec fn byte_of(thing: Thing) -> Option<u8> {
    match thing {
        Thing::Number(Int::U8, n) => Some(n as u8),
        Thing::Literal(n) => if 0 <= n < 256 {
            Some(n as u8)
        } else {
            None
        },
        _ => None,
    }
}

/// What a statement does.
#[verifier::opaque]
pub open spec fn run(command: Command, scope: Scope) -> Step
    decreases command,
{
    match command {
        Command::Nothing => Step::Goes(scope),
        Command::Chain(first, second) => match run(*first, scope) {
            Step::Goes(after) => run(*second, after),
            other => other,
        },
        Command::Let(name, value) => match means(value, scope) {
            Outcome::Is(thing) => Step::Goes(scope.with(name, thing)),
            _ => Step::Stuck,
        },
        Command::LetAs(name, kind, value) => match means(value, scope) {
            Outcome::Is(Thing::Number(found, n)) => if found == kind {
                Step::Goes(scope.with(name, Thing::Number(kind, n)))
            } else {
                Step::Stuck
            },
            Outcome::Is(Thing::Literal(n)) => if kind.holds(n) {
                Step::Goes(scope.with(name, Thing::Number(kind, n)))
            } else {
                Step::Stuck
            },
            _ => Step::Stuck,
        },
        Command::LetBytes(name, value) => match means(value, scope) {
            Outcome::Is(Thing::Bytes(bytes)) => Step::Goes(scope.with(name, Thing::Bytes(bytes))),
            _ => Step::Stuck,
        },
        Command::Const(name, bytes) => Step::Goes(scope.with(name, Thing::Bytes(bytes))),
        // What was named inside is gone behind it; what was written stays.
        Command::Block(inner) => match run(*inner, scope) {
            Step::Goes(after) => Step::Goes(scope.with("out"@, after.names["out"@])),
            other => other,
        },
        Command::Store(name, at, value) => match means(value, scope) {
            Outcome::Is(thing) => match byte_of(thing) {
                Some(byte) => stored(scope, name, at as int, byte),
                None => Step::Stuck,
            },
            _ => Step::Stuck,
        },
        Command::Merge(name, at, value) => match means(value, scope) {
            Outcome::Is(thing) => match byte_of(thing) {
                Some(byte) => stored(
                    scope,
                    name,
                    at as int,
                    either(scope.bytes(name)[at as int] as int, byte as int) as u8,
                ),
                None => Step::Stuck,
            },
            _ => Step::Stuck,
        },
        Command::Move(name, at, from, place) => if scope.has_bytes(from) && place < scope.bytes(
            from,
        ).len() {
            stored(scope, name, at as int, scope.bytes(from)[place as int])
        } else {
            Step::Stuck
        },
        Command::Refuse(test, refusal) => match means(test, scope) {
            Outcome::Is(Thing::Flag(flag)) => if flag {
                Step::Stops(refusal, scope.bytes("out"@))
            } else {
                Step::Goes(scope)
            },
            _ => Step::Stuck,
        },
        // As many bytes as there are, and as there is room for.
        Command::Copy(name, from, to, bytes) => if scope.has_bytes(name) && scope.has_bytes(bytes)
            && from <= to <= scope.bytes(name).len() {
            let given = scope.bytes(bytes);
            let copied = if given.len() <= to - from {
                given
            } else {
                given.take(to - from)
            };
            Step::Goes(
                scope.with(name, Thing::Bytes(spliced(scope.bytes(name), from as int, copied))),
            )
        } else {
            Step::Stuck
        },
        Command::Within(name, from, len, slot, inner, refusal) => if scope.has_bytes(name)
            && scope.names.contains_key(from) {
            match scope.names[from] {
                Thing::Number(Int::Usize, at) => if at + len > usize::MAX {
                    Step::Stuck
                } else if at + len <= scope.bytes(name).len() {
                    let part = scope.bytes(name).subrange(at, at + len);
                    match run(*inner, scope.with(slot, Thing::Bytes(part))) {
                        Step::Goes(after) => if after.has_bytes(slot) {
                            Step::Goes(
                                scope.with(
                                    name,
                                    Thing::Bytes(
                                        spliced(scope.bytes(name), at, after.bytes(slot)),
                                    ),
                                ),
                            )
                        } else {
                            Step::Stuck
                        },
                        other => other,
                    }
                } else {
                    Step::Stops(refusal, scope.bytes("out"@))
                },
                _ => Step::Stuck,
            }
        } else {
            Step::Stuck
        },
    }
}

// ---------------------------------------------------------------------------------------
// One statement at a time
// ---------------------------------------------------------------------------------------

/// Nothing.
pub proof fn step_nothing(scope: Scope)
    ensures
        script(Command::Nothing) == Seq::<char>::empty(),
        run(Command::Nothing, scope) == Step::Goes(scope),
{
    reveal(script);
    reveal(run);
}

/// One behind another.
pub proof fn step_chain(first: Command, second: Command, scope: Scope)
    ensures
        script(Command::Chain(Box::new(first), Box::new(second))) == script(first) + script(second),
        run(Command::Chain(Box::new(first), Box::new(second)), scope) == match run(first, scope) {
            Step::Goes(after) => run(second, after),
            other => other,
        },
{
    reveal(script);
    reveal(run);
}

/// `let n = x;`.
pub proof fn step_let(name: Seq<char>, value: Expr, scope: Scope)
    ensures
        script(Command::Let(name, value)) == "let "@ + name + " = "@ + source(value) + ";\n"@,
        means(value, scope) matches Outcome::Is(thing) ==> run(Command::Let(name, value), scope)
            == Step::Goes(scope.with(name, thing)),
{
    reveal(script);
    reveal(run);
}

/// `let n: T = x;`.
pub proof fn step_let_as(name: Seq<char>, kind: Int, value: Expr, scope: Scope)
    ensures
        script(Command::LetAs(name, kind, value)) == "let "@ + name + ": "@ + kind.name() + " = "@
            + source(value) + ";\n"@,
        means(value, scope) matches Outcome::Is(Thing::Number(found, n)) ==> (found == kind ==> run(
            Command::LetAs(name, kind, value),
            scope,
        ) == Step::Goes(scope.with(name, Thing::Number(kind, n)))),
        means(value, scope) matches Outcome::Is(Thing::Literal(n)) ==> (kind.holds(n) ==> run(
            Command::LetAs(name, kind, value),
            scope,
        ) == Step::Goes(scope.with(name, Thing::Number(kind, n)))),
{
    reveal(script);
    reveal(run);
}

/// `let n: &[u8] = x;`.
pub proof fn step_let_bytes(name: Seq<char>, value: Expr, scope: Scope)
    ensures
        script(Command::LetBytes(name, value)) == "let "@ + name + ": &[u8] = "@ + source(value)
            + ";\n"@,
        means(value, scope) matches Outcome::Is(Thing::Bytes(bytes)) ==> run(
            Command::LetBytes(name, value),
            scope,
        ) == Step::Goes(scope.with(name, Thing::Bytes(bytes))),
{
    reveal(script);
    reveal(run);
}

/// `const N: &[u8] = &[1, 2];`.
pub proof fn step_const(name: Seq<char>, bytes: Seq<u8>, scope: Scope)
    ensures
        script(Command::Const(name, bytes)) == "const "@ + name + ": &[u8] = &["@ + numbers(bytes)
            + "];\n"@,
        run(Command::Const(name, bytes), scope) == Step::Goes(
            scope.with(name, Thing::Bytes(bytes)),
        ),
{
    reveal(script);
    reveal(run);
}

/// `{ c }`.
pub proof fn step_block(inner: Command, scope: Scope)
    ensures
        script(Command::Block(Box::new(inner))) == "{\n"@ + script(inner) + "}\n"@,
        run(Command::Block(Box::new(inner)), scope) == match run(inner, scope) {
            Step::Goes(after) => Step::Goes(scope.with("out"@, after.names["out"@])),
            other => other,
        },
{
    reveal(script);
    reveal(run);
}

/// `a[i] = x;`.
pub proof fn step_store(name: Seq<char>, at: nat, value: Expr, scope: Scope)
    ensures
        script(Command::Store(name, at, value)) == name + "["@ + decimal_text(at) + "] = "@
            + source(value) + ";\n"@,
        means(value, scope) matches Outcome::Is(thing) ==> (byte_of(thing) matches Some(byte)
            ==> run(Command::Store(name, at, value), scope) == stored(
            scope,
            name,
            at as int,
            byte,
        )),
{
    reveal(script);
    reveal(run);
}

/// `a[i] |= x;`.
pub proof fn step_merge(name: Seq<char>, at: nat, value: Expr, scope: Scope)
    ensures
        script(Command::Merge(name, at, value)) == name + "["@ + decimal_text(at) + "] |= "@
            + source(value) + ";\n"@,
        means(value, scope) matches Outcome::Is(thing) ==> (byte_of(thing) matches Some(byte)
            ==> run(Command::Merge(name, at, value), scope) == stored(
            scope,
            name,
            at as int,
            either(scope.bytes(name)[at as int] as int, byte as int) as u8,
        )),
{
    reveal(script);
    reveal(run);
}

/// `a[i] = b[j];`.
pub proof fn step_move(name: Seq<char>, at: nat, from: Seq<char>, place: nat, scope: Scope)
    ensures
        script(Command::Move(name, at, from, place)) == name + "["@ + decimal_text(at) + "] = "@
            + from + "["@ + decimal_text(place) + "];\n"@,
        scope.has_bytes(from) && place < scope.bytes(from).len() ==> run(
            Command::Move(name, at, from, place),
            scope,
        ) == stored(scope, name, at as int, scope.bytes(from)[place as int]),
{
    reveal(script);
    reveal(run);
}

/// `if x { return Err(e); }`.
pub proof fn step_refuse(test: Expr, refusal: Refusal, scope: Scope)
    ensures
        script(Command::Refuse(test, refusal)) == "if "@ + source(test) + " {\n"@ + failure_source(
            Failure::Encode(refusal),
        ) + ";\n}\n"@,
        means(test, scope) matches Outcome::Is(Thing::Flag(flag)) ==> run(
            Command::Refuse(test, refusal),
            scope,
        ) == if flag {
            Step::Stops(refusal, scope.bytes("out"@))
        } else {
            Step::Goes(scope)
        },
{
    reveal(script);
    reveal(run);
}

/// `for (slot, byte) in a[i..j].iter_mut().zip(b) { *slot = *byte; }`, where there is room for all.
pub proof fn step_copy(name: Seq<char>, from: nat, to: nat, bytes: Seq<char>, scope: Scope)
    ensures
        script(Command::Copy(name, from, to, bytes)) == "for (slot, byte) in "@ + name + "["@
            + decimal_text(from) + ".."@ + decimal_text(to) + "].iter_mut().zip("@ + bytes
            + ") {\n*slot = *byte;\n}\n"@,
        scope.has_bytes(name) && scope.has_bytes(bytes) && from <= to <= scope.bytes(name).len()
            && scope.bytes(bytes).len() <= to - from ==> run(
            Command::Copy(name, from, to, bytes),
            scope,
        ) == Step::Goes(
            scope.with(
                name,
                Thing::Bytes(spliced(scope.bytes(name), from as int, scope.bytes(bytes))),
            ),
        ),
{
    reveal(script);
    reveal(run);
}

/// `match a.get_mut(i..i + n) { Some(s) => { c } None => return Err(e), }`.
pub proof fn step_within(
    name: Seq<char>,
    from: Seq<char>,
    len: nat,
    slot: Seq<char>,
    inner: Command,
    refusal: Refusal,
    scope: Scope,
)
    ensures
        script(Command::Within(name, from, len, slot, Box::new(inner), refusal)) == "match "@ + name
            + ".get_mut("@ + from + ".."@ + from + " + "@ + decimal_text(len) + ") {\nSome("@ + slot
            + ") => {\n"@ + script(inner) + "}\nNone => "@ + failure_source(
            Failure::Encode(refusal),
        ) + ",\n}\n"@,
        scope.has_bytes(name) && scope.names.contains_key(from) ==> (
        scope.names[from] matches Thing::Number(Int::Usize, at) ==> (0 <= at && at + len
            <= scope.bytes(name).len() <= usize::MAX ==> (run(
            inner,
            scope.with(slot, Thing::Bytes(scope.bytes(name).subrange(at, at + len))),
        ) matches Step::Goes(after) ==> (after.has_bytes(slot) ==> run(
            Command::Within(name, from, len, slot, Box::new(inner), refusal),
            scope,
        ) == Step::Goes(
            scope.with(name, Thing::Bytes(spliced(scope.bytes(name), at, after.bytes(slot)))),
        ))))),
{
    reveal(script);
    reveal(run);
}

} // verus!
