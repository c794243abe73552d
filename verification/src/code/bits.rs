//! What the code for one run of bits reads and writes.

use vstd::arithmetic::div_mod::*;
use vstd::arithmetic::power2::*;
use vstd::bits::*;
use vstd::prelude::*;
use vstd::string::*;

use crate::bits::{
    is_whole, lemma_number_bound, lemma_number_byte, lemma_number_split, mask_value, natural_width,
    number, shift_of, slots_of, span_of, written,
};
use crate::code::language::{
    all_parse, both, bytes_meant, means, parses, run, script, source, sources, step_at, step_binary,
    step_block, step_call, step_cast, step_chain, step_join, step_let, step_merge, step_move,
    step_nothing, step_number, step_paren, step_store, strength, Command, Expr, Int, Method,
    Operator, Outcome, Scope, Step, Thing,
};
use crate::emit::bits::{
    accumulator_text, combined_text, load_text, loaded_byte, loaded_bytes, ordered_text,
    read_in_order_text, read_text, shifted_text, signed_name, stores_text, unsigned_text,
    write_text,
};
use crate::layout::FieldModel;
use crate::names::{decimal_text, signed_text};
use crate::scalar::{
    bytes_value, lemma_bytes_value_bound, lemma_bytes_value_inverse, lemma_swapped,
    lemma_value_bytes_len, reversed, swapped, value_bytes,
};

verus! {

// ---------------------------------------------------------------------------------------
// Types
// ---------------------------------------------------------------------------------------

/// The values of the powers of two that types are bounded by.
pub proof fn lemma_type_powers()
    ensures
        pow2(7) == 0x80,
        pow2(8) == 0x100,
        pow2(15) == 0x8000,
        pow2(16) == 0x1_0000,
        pow2(31) == 0x8000_0000,
        pow2(32) == 0x1_0000_0000,
        pow2(63) == 0x8000_0000_0000_0000,
        pow2(64) == 0x1_0000_0000_0000_0000,
        pow2(127) == 0x8000_0000_0000_0000_0000_0000_0000_0000,
        pow2(128) == 0x1_0000_0000_0000_0000_0000_0000_0000_0000,
{
    lemma2_to64();
    lemma2_to64_rest();
    lemma_pow2_adds(63, 64);
    lemma_pow2_adds(64, 64);
}

/// Types of different names are different: a type can be read off its name.
pub proof fn lemma_types_have_their_own_names(a: Int, b: Int)
    requires
        a.name() == b.name(),
    ensures
        a == b,
{
    reveal_strlit("u8");
    reveal_strlit("u16");
    reveal_strlit("u32");
    reveal_strlit("u64");
    reveal_strlit("u128");
    reveal_strlit("i8");
    reveal_strlit("i16");
    reveal_strlit("i32");
    reveal_strlit("i64");
    reveal_strlit("i128");
    reveal_strlit("usize");
    assert("u8"@.len() == 2 && "i8"@.len() == 2 && "u128"@.len() == 4 && "i128"@.len() == 4);
    assert("u16"@.len() == 3 && "u32"@.len() == 3 && "u64"@.len() == 3 && "usize"@.len() == 5);
    assert("i16"@.len() == 3 && "i32"@.len() == 3 && "i64"@.len() == 3);
    assert("u16"@[1] == '1' && "u32"@[1] == '3' && "u64"@[1] == '6');
    assert("i16"@[1] == '1' && "i32"@[1] == '3' && "i64"@[1] == '6');
    assert("u8"@[0] == 'u' && "i8"@[0] == 'i' && "u128"@[0] == 'u' && "i128"@[0] == 'i');
    assert("u16"@[0] == 'u' && "u32"@[0] == 'u' && "u64"@[0] == 'u');
    assert("i16"@[0] == 'i' && "i32"@[0] == 'i' && "i64"@[0] == 'i');
    assert(a.name().len() == b.name().len());
    assert(a.name()[0] == b.name()[0]);
    assert(a.name()[1] == b.name()[1]);
}

/// A number that a type holds is what `as` makes of it there.
pub proof fn lemma_cut_keeps(kind: Int, n: int)
    requires
        kind.holds(n),
        !(kind is Usize),
    ensures
        kind.cut(n) == n,
{
    lemma_type_powers();
    let all = pow2(kind.bits()) as int;
    if n >= 0 {
        lemma_small_mod(n as nat, all as nat);
    } else {
        lemma_fundamental_div_mod_converse(n, all, -1, n + all);
    }
}

/// The unsigned type of so many bits.
pub open spec fn unsigned_int(bits: int) -> Int {
    if bits == 8 {
        Int::U8
    } else if bits == 16 {
        Int::U16
    } else if bits == 32 {
        Int::U32
    } else if bits == 64 {
        Int::U64
    } else {
        Int::U128
    }
}

/// The signed type of so many bits.
pub open spec fn signed_int(bits: int) -> Int {
    if bits == 8 {
        Int::I8
    } else if bits == 16 {
        Int::I16
    } else if bits == 32 {
        Int::I32
    } else if bits == 64 {
        Int::I64
    } else {
        Int::I128
    }
}

/// The type named for a signed field of a width is a signed one of as many bits as its natural
/// width, which is at least the width: whatever `width` bits mean in two's complement is a value of
/// it, and survives the cast to it.
pub proof fn lemma_signed_type_holds_its_fields(width: int)
    requires
        1 <= width <= 64,
    ensures
        exists|kind: Int|
            #![trigger kind.name()]
            {
                &&& kind.name() == signed_name(natural_width(width))
                &&& kind.signed()
                &&& kind.bits() == natural_width(width)
                &&& kind.bits() >= width
                &&& forall|n: int|
                    #![trigger kind.holds(n)]
                    #![trigger kind.cut(n)]
                    -pow2((width - 1) as nat) <= n < pow2((width - 1) as nat) ==> kind.holds(n)
                        && kind.cut(n) == n
            },
        signed_name(natural_width(width)) == signed_int(natural_width(width)).name(),
        signed_int(natural_width(width)).bits() == natural_width(width),
        signed_int(natural_width(width)).signed(),
{
    let kind = signed_int(natural_width(width));
    assert(kind.name() == signed_name(natural_width(width)));
    assert forall|n: int|
        #![trigger kind.holds(n)]
        #![trigger kind.cut(n)]
        -pow2((width - 1) as nat) <= n < pow2((width - 1) as nat) implies kind.holds(n) && kind.cut(
        n,
    ) == n by {
        if width < natural_width(width) {
            lemma_pow2_strictly_increases((width - 1) as nat, (natural_width(width) - 1) as nat);
        }
        lemma_cut_keeps(kind, n);
    }
}

/// The type named for an unsigned field of a width is an unsigned one of as many bits as its
/// natural width, which is at least the width: every number of `width` bits survives the cast to
/// it.
pub proof fn lemma_unsigned_type_holds_its_fields(width: int)
    requires
        1 <= width <= 64,
    ensures
        exists|kind: Int|
            #![trigger kind.name()]
            {
                &&& kind.name() == unsigned_text(natural_width(width))
                &&& !kind.signed()
                &&& kind.bits() == natural_width(width)
                &&& kind.bits() >= width
                &&& forall|n: int|
                    #![trigger kind.holds(n)]
                    #![trigger kind.cut(n)]
                    0 <= n < pow2(width as nat) ==> kind.holds(n) && kind.cut(n) == n
            },
        unsigned_text(natural_width(width)) == unsigned_int(natural_width(width)).name(),
        unsigned_int(natural_width(width)).bits() == natural_width(width),
        !unsigned_int(natural_width(width)).signed(),
{
    let kind = unsigned_int(natural_width(width));
    assert(kind.name() == unsigned_text(natural_width(width)));
    assert forall|n: int|
        #![trigger kind.holds(n)]
        #![trigger kind.cut(n)]
        0 <= n < pow2(width as nat) implies kind.holds(n) && kind.cut(n) == n by {
        if width < natural_width(width) {
            lemma_pow2_strictly_increases(width as nat, natural_width(width) as nat);
        }
        lemma_cut_keeps(kind, n);
    }
}

/// The natural width of some bits is the narrowest width of a Rust integer that holds them.
pub proof fn lemma_natural_width_is_narrowest(width: int, other: Int)
    requires
        1 <= width <= 64,
        !(other is Usize),
        other.bits() >= width,
    ensures
        width <= natural_width(width) <= other.bits(),
        exists|kind: Int| !(kind is Usize) && #[trigger] kind.bits() == natural_width(width),
{
    assert(unsigned_int(natural_width(width)).bits() == natural_width(width));
}

/// The type named for a number of bytes is the unsigned one of that many.
pub proof fn lemma_accumulator_type(slots: int)
    requires
        slots == 1 || slots == 2 || slots == 4 || slots == 8 || slots == 16,
    ensures
        accumulator_text(slots) == unsigned_int(8 * slots).name(),
        unsigned_int(8 * slots).bits() == 8 * slots,
        !unsigned_int(8 * slots).signed(),
{
}

// ---------------------------------------------------------------------------------------
// Loading
// ---------------------------------------------------------------------------------------

/// Bytes behind zero bytes spell the same number.
pub proof fn lemma_padded_value(pad: nat, bytes: Seq<u8>)
    ensures
        bytes_value(Seq::new(pad, |i: int| 0u8) + bytes) == bytes_value(bytes),
    decreases pad + bytes.len(),
{
    let zeros = Seq::new(pad, |i: int| 0u8);
    if bytes.len() > 0 {
        assert((zeros + bytes).drop_last() =~= zeros + bytes.drop_last());
        lemma_padded_value(pad, bytes.drop_last());
    } else if pad > 0 {
        let fewer = Seq::new((pad - 1) as nat, |i: int| 0u8);
        assert((zeros + bytes).drop_last() =~= fewer + bytes);
        assert((zeros + bytes).last() == 0);
        lemma_padded_value((pad - 1) as nat, bytes);
    } else {
        assert(zeros + bytes =~= bytes);
    }
}

/// Whole bytes of a packet spell the number that their bits do.
pub proof fn lemma_bytes_are_bits(data: Seq<u8>, first: int, count: nat)
    requires
        0 <= first,
        first + count <= data.len(),
    ensures
        bytes_value(data.subrange(first, first + count)) == number(data, 8 * first, 8 * count),
    decreases count,
{
    let bytes = data.subrange(first, first + count);
    if count > 0 {
        let before = (count - 1) as nat;
        assert(bytes.drop_last() =~= data.subrange(first, first + before));
        lemma_bytes_are_bits(data, first, before);
        lemma_number_split(data, 8 * first, 8 * before, 8);
        lemma_number_byte(data, first + before);
        assert(8 * first + 8 * before == 8 * (first + before));
        lemma2_to64();
    }
}

/// The bytes that a run touches, as one number.
pub open spec fn covered_number(data: Seq<u8>, offset: int, width: int) -> int {
    number(data, 8 * (offset / 8), (8 * span_of(offset, width)) as nat) as int
}

/// A run is the low bits of the bytes that it touches, once these are moved down.
pub proof fn lemma_run_in_its_bytes(data: Seq<u8>, offset: int, width: int)
    requires
        0 <= offset,
        1 <= width <= 64,
        offset + width <= 8 * data.len(),
    ensures
        (covered_number(data, offset, width) / (pow2(shift_of(offset, width) as nat) as int)) % (
        pow2(width as nat) as int) == number(data, offset, width as nat),
        0 <= covered_number(data, offset, width) < pow2((8 * span_of(offset, width)) as nat),
{
    let from = 8 * (offset / 8);
    let shift = shift_of(offset, width) as nat;
    let w = width as nat;
    let high = (offset % 8) as nat;
    lemma_number_bound(data, from, (8 * span_of(offset, width)) as nat);
    lemma_number_split(data, from, high, (w + shift) as nat);
    lemma_number_split(data, offset, w, shift);
    lemma_number_bound(data, offset + w, shift);
    lemma_number_bound(data, offset, w);
    lemma_pow2_pos(shift);
    lemma_pow2_pos(w);
    lemma_pow2_adds(w, shift);
    let load = covered_number(data, offset, width);
    let a = number(data, from, high) as int;
    let v = number(data, offset, w) as int;
    let r = number(data, offset + w, shift) as int;
    let ps = pow2(shift) as int;
    let pw = pow2(w) as int;
    assert(load == a * (pw * ps) + (v * ps + r));
    assert(load == (a * pw + v) * ps + r) by (nonlinear_arith)
        requires
            load == a * (pw * ps) + (v * ps + r),
    ;
    lemma_fundamental_div_mod_converse(load, ps, a * pw + v, r);
    lemma_mod_multiples_vanish(a, v, pw);
    assert(a * pw + v == pw * a + v) by (nonlinear_arith);
    lemma_small_mod(v as nat, pw as nat);
}

/// One byte that is loaded: a byte of the packet, or a zero above it.
pub open spec fn byte_code(name: Seq<char>, first: int, pad: int, at: int) -> Expr {
    if at < pad {
        Expr::Number(0)
    } else {
        Expr::At(name, (first + at - pad) as nat)
    }
}

/// The bytes that are loaded.
pub open spec fn bytes_code(name: Seq<char>, first: int, pad: int, slots: int) -> Seq<Expr> {
    Seq::new(slots as nat, |at: int| byte_code(name, first, pad, at))
}

/// The bytes a run touches, as one integer.
pub open spec fn load_code(name: Seq<char>, offset: int, width: int) -> Expr {
    let span = span_of(offset, width);
    let slots = slots_of(span);
    Expr::Join(unsigned_int(8 * slots), bytes_code(name, offset / 8, slots - span, slots))
}

/// How zero is spelled.
pub proof fn lemma_zero_text()
    ensures
        signed_text(0) == "0"@,
        decimal_text(0) == "0"@,
{
    reveal_strlit("0");
    assert(decimal_text(0) =~= "0"@);
}

proof fn lemma_bytes_source(name: Seq<char>, first: int, pad: int, slots: int, count: nat)
    requires
        0 <= first,
        0 <= pad,
        count <= slots,
    ensures
        sources(bytes_code(name, first, pad, slots), count) == loaded_bytes(
            name,
            first,
            pad,
            count,
        ),
        all_parse(bytes_code(name, first, pad, slots), count),
    decreases count,
{
    let items = bytes_code(name, first, pad, slots);
    lemma_zero_text();
    if count > 0 {
        lemma_bytes_source(name, first, pad, slots, (count - 1) as nat);
        let item = items[count - 1];
        assert(item == byte_code(name, first, pad, count - 1));
        step_number(0, arbitrary());
        step_at(name, (first + count - 1 - pad) as nat, arbitrary());
        assert(source(item) == loaded_byte(name, first, pad, count - 1));
    }
}

proof fn lemma_bytes_meant(
    scope: Scope,
    name: Seq<char>,
    first: int,
    pad: int,
    slots: int,
    count: nat,
)
    requires
        0 <= first,
        0 <= pad <= slots,
        count <= slots,
        scope.has_bytes(name),
        first + slots - pad <= scope.bytes(name).len(),
    ensures
        bytes_meant(bytes_code(name, first, pad, slots), count, scope) == Some(
            (Seq::new(pad as nat, |i: int| 0u8) + scope.bytes(name).subrange(
                first,
                first + slots - pad,
            )).take(count as int),
        ),
    decreases count,
{
    let items = bytes_code(name, first, pad, slots);
    let all = Seq::new(pad as nat, |i: int| 0u8) + scope.bytes(name).subrange(
        first,
        first + slots - pad,
    );
    if count > 0 {
        lemma_bytes_meant(scope, name, first, pad, slots, (count - 1) as nat);
        let item = items[count - 1];
        assert(item == byte_code(name, first, pad, count - 1));
        assert(all.take(count as int) =~= all.take(count - 1).push(all[count - 1]));
        step_number(0, scope);
        step_at(name, (first + count - 1 - pad) as nat, scope);
        assert(means(item, scope) == if count - 1 < pad {
            Outcome::Is(Thing::Literal(0))
        } else {
            Outcome::Is(Thing::Number(Int::U8, all[count - 1] as int))
        });
    } else {
        assert(all.take(0) =~= Seq::<u8>::empty());
    }
}

/// The code that loads the bytes of a run gives the number that their bits spell.
pub proof fn lemma_loads_bytes(scope: Scope, name: Seq<char>, offset: int, width: int)
    requires
        0 <= offset,
        1 <= width <= 64,
        scope.has_bytes(name),
        offset + width <= 8 * scope.bytes(name).len(),
    ensures
        source(load_code(name, offset, width)) == accumulator_text(slots_of(span_of(offset, width)))
            + "::from_be_bytes(["@ + loaded_bytes(
            name,
            offset / 8,
            slots_of(span_of(offset, width)) - span_of(offset, width),
            slots_of(span_of(offset, width)) as nat,
        ) + "])"@,
        parses(load_code(name, offset, width)),
        means(load_code(name, offset, width), scope) == Outcome::Is(
            Thing::Number(
                unsigned_int(8 * slots_of(span_of(offset, width))),
                covered_number(scope.bytes(name), offset, width),
            ),
        ),
{
    let span = span_of(offset, width);
    let slots = slots_of(span);
    let first = offset / 8;
    let data = scope.bytes(name);
    let items = bytes_code(name, first, slots - span, slots);
    lemma_accumulator_type(slots);
    lemma_bytes_source(name, first, slots - span, slots, slots as nat);
    lemma_bytes_meant(scope, name, first, slots - span, slots, slots as nat);
    let all = Seq::new((slots - span) as nat, |i: int| 0u8) + data.subrange(first, first + span);
    assert(all.take(slots) =~= all);
    lemma_padded_value((slots - span) as nat, data.subrange(first, first + span));
    lemma_bytes_are_bits(data, first, span as nat);
    assert(items.len() == slots);
    step_join(unsigned_int(8 * slots), items, scope);
}

// ---------------------------------------------------------------------------------------
// Reading
// ---------------------------------------------------------------------------------------

/// A mask of low bits leaves the rest of a division.
pub proof fn lemma_mask_is_rest(n: int, width: int)
    requires
        0 <= n < 0x1_0000_0000_0000_0000,
        1 <= width <= 64,
    ensures
        both(n, mask_value(width)) == n % (pow2(width as nat) as int),
{
    lemma_type_powers();
    let value = n as u64;
    let mask = mask_value(width) as u64;
    lemma_pow2_pos(width as nat);
    if width < 64 {
        lemma_pow2_strictly_increases(width as nat, 64);
        lemma_u64_low_bits_mask_is_mod(value, width as nat);
    } else {
        assert(value & 0xffff_ffff_ffff_ffffu64 == value) by (bit_vector);
        lemma_small_mod(n as nat, pow2(64));
    }
    assert((value as u128) & (mask as u128) == ((value & mask) as u128)) by (bit_vector);
}

/// The bytes a run touches, as they are loaded to be read.
pub open spec fn loaded_code(offset: int, width: int) -> Expr {
    if slots_of(span_of(offset, width)) == 1 {
        Expr::At("data"@, (offset / 8) as nat)
    } else {
        load_code("data"@, offset, width)
    }
}

proof fn lemma_loads_to_read(scope: Scope, offset: int, width: int)
    requires
        0 <= offset,
        1 <= width <= 64,
        scope.has_bytes("data"@),
        offset + width <= 8 * scope.bytes("data"@).len(),
    ensures
        source(loaded_code(offset, width)) == load_text(offset, width),
        parses(loaded_code(offset, width)),
        means(loaded_code(offset, width), scope) == Outcome::Is(
            Thing::Number(
                unsigned_int(8 * slots_of(span_of(offset, width))),
                covered_number(scope.bytes("data"@), offset, width),
            ),
        ),
{
    let data = scope.bytes("data"@);
    let first = offset / 8;
    if slots_of(span_of(offset, width)) == 1 {
        lemma_bytes_are_bits(data, first, 1);
        let one = data.subrange(first, first + 1);
        assert(one.drop_last() =~= Seq::<u8>::empty());
        assert(bytes_value(one.drop_last()) == 0);
        assert(bytes_value(one) == data[first]);
        step_at("data"@, first as nat, scope);
        reveal_strlit("data[");
        reveal_strlit("data");
        reveal_strlit("[");
        assert("data["@ =~= "data"@ + "["@);
    } else {
        lemma_loads_bytes(scope, "data"@, offset, width);
    }
}

/// The code that reads a run.
pub open spec fn read_code(offset: int, width: int) -> Expr {
    let load = loaded_code(offset, width);
    let shift = Expr::Number(shift_of(offset, width));
    let mask = Expr::Number(mask_value(width));
    let value = if slots_of(span_of(offset, width)) == 16 {
        let down = Expr::Binary(Operator::Down, Box::new(load), Box::new(shift));
        Expr::Paren(Box::new(Expr::Cast(Box::new(Expr::Paren(Box::new(down))), Int::U64)))
    } else if shift_of(offset, width) == 0 {
        Expr::Cast(Box::new(load), Int::U64)
    } else {
        let wide = Expr::Paren(Box::new(Expr::Cast(Box::new(load), Int::U64)));
        Expr::Paren(
            Box::new(Expr::Binary(Operator::Down, Box::new(wide), Box::new(shift))),
        )
    };
    Expr::Binary(Operator::BitAnd, Box::new(value), Box::new(mask))
}

/// A mask of some bits is a number of 64 bits.
pub proof fn lemma_mask_bounds(width: int)
    requires
        1 <= width <= 64,
    ensures
        1 <= mask_value(width) < 0x1_0000_0000_0000_0000,
        mask_value(width) == pow2(width as nat) - 1,
{
    lemma_type_powers();
    lemma2_to64();
    if width < 64 {
        lemma_pow2_strictly_increases(width as nat, 64);
    }
    if width > 1 {
        lemma_pow2_strictly_increases(1, width as nat);
    }
}

/// The source that reads a run of bits out of a packet gives the number that the bits spell, and
/// indexes nothing outside it.
#[verifier::rlimit(30)]
pub proof fn lemma_reads_the_run(scope: Scope, offset: int, width: int)
    requires
        0 <= offset,
        1 <= width <= 64,
        scope.has_bytes("data"@),
        offset + width <= 8 * scope.bytes("data"@).len(),
    ensures
        source(read_code(offset, width)) == read_text(offset, width),
        parses(read_code(offset, width)),
        strength(read_code(offset, width)) == 8,
        means(read_code(offset, width), scope) == Outcome::Is(
            Thing::Number(
                Int::U64,
                number(scope.bytes("data"@), offset, width as nat) as int,
            ),
        ),
{
    let data = scope.bytes("data"@);
    let span = span_of(offset, width);
    let slots = slots_of(span);
    let kind = unsigned_int(8 * slots);
    let load = loaded_code(offset, width);
    let shift = shift_of(offset, width);
    let big = covered_number(data, offset, width);
    let text = load_text(offset, width);
    lemma_mask_bounds(width);
    lemma_type_powers();
    lemma_run_in_its_bytes(data, offset, width);
    lemma_pow2_pos(shift as nat);
    lemma_pow2_pos(width as nat);
    lemma_loads_to_read(scope, offset, width);
    let by = Expr::Number(shift);
    let moved = big / (pow2(shift as nat) as int);
    assert(0 <= moved <= big) by {
        lemma_div_pos_is_pos(big, pow2(shift as nat) as int);
        lemma_div_is_ordered_by_denominator(big, 1, pow2(shift as nat) as int);
    }
    let low = moved % 0x1_0000_0000_0000_0000;
    assert(low % (pow2(width as nat) as int) == moved % (pow2(width as nat) as int)) by {
        lemma_pow2_adds(width as nat, (64 - width) as nat);
        lemma_pow2_pos((64 - width) as nat);
        lemma_mod_mod(moved, pow2(width as nat) as int, pow2((64 - width) as nat) as int);
    }
    lemma_mask_is_rest(low, width);
    if slots < 16 {
        if span < 8 {
            lemma_pow2_strictly_increases((8 * span) as nat, 64);
        }
        assert(big < 0x1_0000_0000_0000_0000);
        lemma_small_mod(big as nat, pow2(64));
        lemma_small_mod(moved as nat, pow2(64));
    }
    assert(Int::U64.cut(moved) == low);
    assert(Int::U64.holds(mask_value(width)));
    let mask = Expr::Number(mask_value(width));
    step_number(mask_value(width), scope);
    step_number(shift, scope);
    reveal_strlit("((");
    reveal_strlit("(");
    reveal_strlit(")");
    reveal_strlit(" as ");
    reveal_strlit("u64");
    reveal_strlit(" >> ");
    reveal_strlit(" & ");
    if slots == 16 {
        let down = Expr::Binary(Operator::Down, Box::new(load), Box::new(by));
        let inner = Expr::Paren(Box::new(down));
        let cast = Expr::Cast(Box::new(inner), Int::U64);
        let value = Expr::Paren(Box::new(cast));
        step_binary(Operator::Down, load, by, scope);
        step_paren(down, scope);
        step_cast(inner, Int::U64, scope);
        step_paren(cast, scope);
        step_binary(Operator::BitAnd, value, mask, scope);
        reveal_strlit(") as u64) & ");
        assert(source(read_code(offset, width)) =~= read_text(offset, width));
    } else if shift == 0 {
        let value = Expr::Cast(Box::new(load), Int::U64);
        lemma2_to64();
        assert(big / 1 == big);
        assert(pow2(shift as nat) == 1);
        step_cast(load, Int::U64, scope);
        step_binary(Operator::BitAnd, value, mask, scope);
        reveal_strlit(" as u64 & ");
        assert(source(read_code(offset, width)) =~= read_text(offset, width));
    } else {
        let cast = Expr::Cast(Box::new(load), Int::U64);
        let wide = Expr::Paren(Box::new(cast));
        let down = Expr::Binary(Operator::Down, Box::new(wide), Box::new(by));
        let value = Expr::Paren(Box::new(down));
        step_cast(load, Int::U64, scope);
        step_paren(cast, scope);
        step_binary(Operator::Down, wide, by, scope);
        step_paren(down, scope);
        step_binary(Operator::BitAnd, value, mask, scope);
        reveal_strlit(" as u64) >> ");
        reveal_strlit(") & ");
        assert(source(read_code(offset, width)) =~= read_text(offset, width));
    }
}

// ---------------------------------------------------------------------------------------
// Byte order
// ---------------------------------------------------------------------------------------

/// The code that puts the bytes of a field in order.
pub open spec fn ordered_code(field: FieldModel, raw: Expr) -> Expr {
    let natural = natural_width(field.bit_width);
    if !field.swap_bytes || field.bit_width <= 8 {
        raw
    } else {
        let narrow = Expr::Cast(Box::new(Expr::Paren(Box::new(raw))), unsigned_int(natural));
        let swap = Expr::Call(Method::SwapBytes, Box::new(Expr::Paren(Box::new(narrow))));
        if natural == field.bit_width {
            Expr::Cast(Box::new(swap), Int::U64)
        } else {
            let down = Expr::Binary(
                Operator::Down,
                Box::new(swap),
                Box::new(Expr::Number(natural - field.bit_width)),
            );
            Expr::Cast(Box::new(Expr::Paren(Box::new(down))), Int::U64)
        }
    }
}

/// How the code that puts the bytes of a field in order is spelled.
pub proof fn lemma_ordered_source(field: FieldModel, raw: Expr)
    requires
        1 <= field.bit_width <= 64,
        parses(raw),
        strength(raw) >= 2,
    ensures
        source(ordered_code(field, raw)) == ordered_text(field, source(raw)),
        parses(ordered_code(field, raw)),
        strength(ordered_code(field, raw)) >= 12 || ordered_code(field, raw) == raw,
{
    let width = field.bit_width;
    let natural = natural_width(width);
    let kind = unsigned_int(natural);
    if field.swap_bytes && width > 8 {
        let text = source(raw);
        let scope = arbitrary::<Scope>();
        let first = Expr::Paren(Box::new(raw));
        let narrow = Expr::Cast(Box::new(first), kind);
        let held = Expr::Paren(Box::new(narrow));
        let swap = Expr::Call(Method::SwapBytes, Box::new(held));
        lemma_unsigned_type_holds_its_fields(width);
        step_paren(raw, scope);
        step_cast(first, kind, scope);
        step_paren(narrow, scope);
        step_call(Method::SwapBytes, held, scope);
        reveal_strlit("((");
        reveal_strlit("(((");
        reveal_strlit("(");
        reveal_strlit(")");
        reveal_strlit(") as ");
        reveal_strlit(" as ");
        reveal_strlit("u64");
        reveal_strlit(".swap_bytes()");
        if natural == width {
            step_cast(swap, Int::U64, scope);
            reveal_strlit(").swap_bytes() as u64");
            assert(source(ordered_code(field, raw)) =~= ordered_text(field, text));
        } else {
            let by = Expr::Number(natural - width);
            let down = Expr::Binary(Operator::Down, Box::new(swap), Box::new(by));
            let whole = Expr::Paren(Box::new(down));
            step_number(natural - width, scope);
            step_binary(Operator::Down, swap, by, scope);
            step_paren(down, scope);
            step_cast(whole, Int::U64, scope);
            reveal_strlit(").swap_bytes() >> ");
            reveal_strlit(" >> ");
            reveal_strlit(") as u64");
            assert(source(ordered_code(field, raw)) =~= ordered_text(field, text));
        }
    }
}

/// The source that puts a field's bytes in order leaves a number alone where the field is
/// big-endian or no wider than a byte, and reverses the bytes of the field elsewhere: exactly its
/// `width / 8` bytes where it has whole ones, as packets are encoded.
pub proof fn lemma_orders_the_bytes(scope: Scope, field: FieldModel, raw: Expr, n: int)
    requires
        1 <= field.bit_width <= 64,
        parses(raw),
        strength(raw) >= 2,
        means(raw, scope) == Outcome::Is(Thing::Number(Int::U64, n)) || means(raw, scope)
            == Outcome::Is(Thing::Literal(n)),
        0 <= n < pow2(field.bit_width as nat),
    ensures
        source(ordered_code(field, raw)) == ordered_text(field, source(raw)),
        parses(ordered_code(field, raw)),
        strength(ordered_code(field, raw)) >= 12 || ordered_code(field, raw) == raw,
        !field.swap_bytes || field.bit_width <= 8 ==> means(ordered_code(field, raw), scope)
            == means(raw, scope),
        field.swap_bytes && field.bit_width > 8 ==> means(ordered_code(field, raw), scope)
            == Outcome::Is(Thing::Number(Int::U64, swapped(n, field.bit_width))),
        field.swap_bytes && field.bit_width > 8 && field.bit_width % 8 == 0 ==> means(
            ordered_code(field, raw),
            scope,
        ) == Outcome::Is(
            Thing::Number(Int::U64, reversed(n as nat, (field.bit_width / 8) as nat) as int),
        ),
{
    let width = field.bit_width;
    let natural = natural_width(width);
    let kind = unsigned_int(natural);
    lemma_ordered_source(field, raw);
    if field.swap_bytes && width > 8 {
        let all = reversed(n as nat, (natural / 8) as nat) as int;
        let p = pow2((natural - width) as nat) as int;
        let first = Expr::Paren(Box::new(raw));
        let narrow = Expr::Cast(Box::new(first), kind);
        let held = Expr::Paren(Box::new(narrow));
        let swap = Expr::Call(Method::SwapBytes, Box::new(held));
        lemma_swapped_parts(n, width);
        if width % 8 == 0 {
            lemma_swapped(n, width);
        }
        lemma_unsigned_type_holds_its_fields(width);
        step_paren(raw, scope);
        step_cast(first, kind, scope);
        step_paren(narrow, scope);
        step_call(Method::SwapBytes, held, scope);
        assert(means(swap, scope) == Outcome::Is(Thing::Number(kind, all)));
        if natural == width {
            step_cast(swap, Int::U64, scope);
        } else {
            let by = Expr::Number(natural - width);
            let down = Expr::Binary(Operator::Down, Box::new(swap), Box::new(by));
            step_number(natural - width, scope);
            step_binary(Operator::Down, swap, by, scope);
            step_paren(down, scope);
            step_cast(Expr::Paren(Box::new(down)), Int::U64, scope);
        }
    }
}

proof fn lemma_swapped_parts(n: int, width: int)
    requires
        8 < width <= 64,
        0 <= n < pow2(width as nat),
    ensures
        unsigned_int(natural_width(width)).holds(n),
        unsigned_int(natural_width(width)).cut(n) == n,
        ({
            let natural = natural_width(width);
            let all = reversed(n as nat, (natural / 8) as nat) as int;
            let p = pow2((natural - width) as nat) as int;
            &&& swapped(n, width) == all / p
            &&& natural == width ==> swapped(n, width) == all
            &&& 0 <= all / p
            &&& Int::U64.cut(all / p) == all / p
        }),
{
    let natural = natural_width(width);
    let all = reversed(n as nat, (natural / 8) as nat) as int;
    let p = pow2((natural - width) as nat) as int;
    lemma_type_powers();
    lemma2_to64();
    lemma_value_bytes_len(n as nat, (natural / 8) as nat);
    lemma_bytes_value_bound(value_bytes(n as nat, (natural / 8) as nat).reverse());
    assert(8 * (natural / 8) == natural);
    if width < natural {
        lemma_pow2_strictly_increases(width as nat, natural as nat);
    }
    lemma_small_mod(n as nat, pow2(natural as nat));
    lemma_cut_keeps(unsigned_int(natural), n);
    lemma_pow2_pos((natural - width) as nat);
    lemma_div_pos_is_pos(all, p);
    lemma_div_is_ordered_by_denominator(all, 1, p);
    assert(all / 1 == all);
    lemma_cut_keeps(Int::U64, all / p);
}

/// The code that reads a field's bits in order.
pub open spec fn read_in_order_code(field: FieldModel) -> Expr {
    ordered_code(field, read_code(field.bit_offset, field.bit_width))
}

/// The source that reads a field gives the number that its bits spell, with the bytes of a
/// little-endian one the other way round.
pub proof fn lemma_reads_in_order(scope: Scope, field: FieldModel)
    requires
        0 <= field.bit_offset,
        1 <= field.bit_width <= 64,
        scope.has_bytes("data"@),
        field.bit_offset + field.bit_width <= 8 * scope.bytes("data"@).len(),
    ensures
        source(read_in_order_code(field)) == read_in_order_text(field),
        parses(read_in_order_code(field)),
        strength(read_in_order_code(field)) >= 8,
        means(read_in_order_code(field), scope) == Outcome::Is(
            Thing::Number(
                Int::U64,
                crate::codec::bits_in_order(field, scope.bytes("data"@)),
            ),
        ),
{
    let data = scope.bytes("data"@);
    lemma_reads_the_run(scope, field.bit_offset, field.bit_width);
    lemma_number_bound(data, field.bit_offset, field.bit_width as nat);
    lemma_orders_the_bytes(
        scope,
        field,
        read_code(field.bit_offset, field.bit_width),
        number(data, field.bit_offset, field.bit_width as nat) as int,
    );
}

// ---------------------------------------------------------------------------------------
// Writing
// ---------------------------------------------------------------------------------------

/// The byte of a number that lies `k` bytes above its last.
pub open spec fn byte_above(n: u128, k: int) -> u8 {
    ((n >> ((8 * k) as u128)) & 0xffu128) as u8
}

/// The bytes of a number, one by one.
pub proof fn lemma_value_byte(n: u128, count: nat, at: int)
    requires
        0 <= at < count <= 16,
    ensures
        value_bytes(n as nat, count).len() == count,
        value_bytes(n as nat, count)[at] == byte_above(n, count - 1 - at),
    decreases count,
{
    lemma_value_bytes_len(n as nat, count);
    lemma_value_bytes_len(n as nat / 256, (count - 1) as nat);
    assert(n >> 0u128 & 0xffu128 == n % 256 && n >> 8u128 == n / 256) by (bit_vector);
    if at < count - 1 {
        let rest = (n / 256) as u128;
        lemma_value_byte(rest, (count - 1) as nat, at);
        let k = (8 * (count - 2 - at)) as u128;
        let more = (8 * (count - 1 - at)) as u128;
        assert((n >> 8u128) >> k == n >> more) by (bit_vector)
            requires
                more == k + 8,
                k <= 112,
        ;
    }
}

/// A number of 64 bits moved up by less than a byte.
pub proof fn lemma_moved_up(n: u64, shift: int)
    requires
        0 <= shift < 8,
    ensures
        (n as u128) << (shift as u128) == n * pow2(shift as nat),
{
    let big = n as u128;
    assert(big << 0u128 == big && big << 1u128 == big * 2 && big << 2u128 == big * 4 && big << 3u128
        == big * 8 && big << 4u128 == big * 16 && big << 5u128 == big * 32 && big << 6u128 == big
        * 64 && big << 7u128 == big * 128) by (bit_vector)
        requires
            big < 0x1_0000_0000_0000_0000u128,
    ;
    lemma2_to64();
    let p = pow2(shift as nat) as int;
    assert(shift == 0 ==> p == 1);
    assert(shift == 1 ==> p == 2);
    assert(shift == 2 ==> p == 4);
    assert(shift == 3 ==> p == 8);
    assert(shift == 4 ==> p == 16);
    assert(shift == 5 ==> p == 32);
    assert(shift == 6 ==> p == 64);
    assert(shift == 7 ==> p == 128);
    let by = shift as u128;
    assert(by == 0 ==> (big << by) == n * 1);
    assert(by == 1 ==> (big << by) == n * 2);
    assert(by == 2 ==> (big << by) == n * 4);
    assert(by == 3 ==> (big << by) == n * 8);
    assert(by == 4 ==> (big << by) == n * 16);
    assert(by == 5 ==> (big << by) == n * 32);
    assert(by == 6 ==> (big << by) == n * 64);
    assert(by == 7 ==> (big << by) == n * 128);
}

/// The code that moves a value to where its bits go.
pub open spec fn shifted_code(offset: int, width: int, value: Expr) -> Expr {
    let kind = unsigned_int(8 * slots_of(span_of(offset, width)));
    let wide = Expr::Cast(Box::new(value), kind);
    if shift_of(offset, width) == 0 {
        wide
    } else {
        Expr::Binary(
            Operator::Up,
            Box::new(Expr::Paren(Box::new(wide))),
            Box::new(Expr::Number(shift_of(offset, width))),
        )
    }
}

/// The first `count` stores of the bytes a run touches.
pub open spec fn moves_code(first: int, pad: int, count: nat) -> Command
    decreases count,
{
    if count == 0 {
        Command::Nothing
    } else {
        Command::Chain(
            Box::new(moves_code(first, pad, (count - 1) as nat)),
            Box::new(
                Command::Move(
                    "out"@,
                    (first + count - 1) as nat,
                    "bytes"@,
                    (pad + count - 1) as nat,
                ),
            ),
        )
    }
}

/// What goes back into the bytes a run touches.
pub open spec fn combined_code(offset: int, width: int, value: Expr) -> Expr {
    if is_whole(offset, width) {
        shifted_code(offset, width, value)
    } else {
        Expr::Binary(
            Operator::BitOr,
            Box::new(load_code("out"@, offset, width)),
            Box::new(shifted_code(offset, width, value)),
        )
    }
}

/// The code that writes a run.
pub open spec fn write_code(offset: int, width: int, value: Expr) -> Command {
    let span = span_of(offset, width);
    let slots = slots_of(span);
    if slots == 1 {
        if is_whole(offset, width) {
            Command::Store("out"@, (offset / 8) as nat, shifted_code(offset, width, value))
        } else {
            Command::Merge("out"@, (offset / 8) as nat, shifted_code(offset, width, value))
        }
    } else {
        let all = Expr::Paren(Box::new(combined_code(offset, width, value)));
        Command::Block(
            Box::new(
                Command::Chain(
                    Box::new(
                        Command::Let("bytes"@, Expr::Call(Method::ToBytes, Box::new(all))),
                    ),
                    Box::new(moves_code(offset / 8, slots - span, span as nat)),
                ),
            ),
        )
    }
}

proof fn lemma_shifted(scope: Scope, offset: int, width: int, value: Expr, n: u64)
    requires
        0 <= offset,
        1 <= width <= 64,
        parses(value),
        strength(value) >= 12,
        means(value, scope) == Outcome::Is(Thing::Number(Int::U64, n as int)),
        n < pow2(width as nat),
    ensures
        source(shifted_code(offset, width, value)) == shifted_text(offset, width, source(value)),
        parses(shifted_code(offset, width, value)),
        strength(shifted_code(offset, width, value)) >= 9,
        means(shifted_code(offset, width, value), scope) == Outcome::Is(
            Thing::Number(
                unsigned_int(8 * slots_of(span_of(offset, width))),
                ((n as u128) << (shift_of(offset, width) as u128)) as int,
            ),
        ),
        ((n as u128) << (shift_of(offset, width) as u128)) < pow2(
            (8 * span_of(offset, width)) as nat,
        ),
{
    let span = span_of(offset, width);
    let slots = slots_of(span);
    let shift = shift_of(offset, width);
    let kind = unsigned_int(8 * slots);
    let wide = Expr::Cast(Box::new(value), kind);
    let held = Expr::Paren(Box::new(wide));
    let by = Expr::Number(shift);
    lemma_type_powers();
    lemma2_to64();
    lemma_accumulator_type(slots);
    lemma_moved_up(n, shift);
    lemma_pow2_adds(width as nat, shift as nat);
    lemma_pow2_pos(shift as nat);
    let p = pow2(shift as nat) as int;
    assert(n * p < pow2(width as nat) * p) by (nonlinear_arith)
        requires
            n < pow2(width as nat),
            p > 0,
    ;
    assert(n <= n * p) by (nonlinear_arith)
        requires
            p >= 1,
            n >= 0,
    ;
    if width + shift < 8 * span {
        lemma_pow2_strictly_increases((width + shift) as nat, (8 * span) as nat);
    }
    if span < slots {
        lemma_pow2_strictly_increases((8 * span) as nat, (8 * slots) as nat);
    }
    lemma_cut_keeps(kind, n as int);
    lemma_cut_keeps(kind, n * p);
    if shift == 0 {
        assert(p == 1);
        assert(n * 1 == n);
    }
    step_cast(value, kind, scope);
    step_paren(wide, scope);
    step_number(shift, scope);
    step_binary(Operator::Up, held, by, scope);
    reveal_strlit("(");
    reveal_strlit(")");
    reveal_strlit(" << ");
    reveal_strlit(") << ");
    assert(source(shifted_code(offset, width, value)) =~= shifted_text(
        offset,
        width,
        source(value),
    ));
}

proof fn lemma_moves_source(first: int, pad: int, count: nat)
    ensures
        script(moves_code(first, pad, count)) == stores_text(first, pad, count),
    decreases count,
{
    let scope = arbitrary::<Scope>();
    step_nothing(scope);
    if count > 0 {
        let fewer = (count - 1) as nat;
        lemma_moves_source(first, pad, fewer);
        let at = (first + fewer) as nat;
        let place = (pad + fewer) as nat;
        let last = Command::Move("out"@, at, "bytes"@, place);
        step_chain(moves_code(first, pad, fewer), last, scope);
        step_move("out"@, at, "bytes"@, place, scope);
        reveal_strlit("out");
        reveal_strlit("[");
        reveal_strlit("out[");
        reveal_strlit("bytes");
        reveal_strlit("] = ");
        reveal_strlit("] = bytes[");
        assert(script(moves_code(first, pad, count)) =~= stores_text(first, pad, count));
    }
}

proof fn lemma_moves(scope: Scope, first: int, pad: int, count: nat)
    requires
        0 <= first,
        0 <= pad,
        scope.has_bytes("out"@),
        scope.has_bytes("bytes"@),
        first + count <= scope.bytes("out"@).len(),
        pad + count <= scope.bytes("bytes"@).len(),
    ensures
        script(moves_code(first, pad, count)) == stores_text(first, pad, count),
        run(moves_code(first, pad, count), scope) matches Step::Goes(after) && after == scope.with(
            "out"@,
            Thing::Bytes(
                Seq::new(
                    scope.bytes("out"@).len(),
                    |j: int|
                        if first <= j < first + count {
                            scope.bytes("bytes"@)[pad + j - first]
                        } else {
                            scope.bytes("out"@)[j]
                        },
                ),
            ),
        ),
    decreases count,
{
    let out = scope.bytes("out"@);
    let bytes = scope.bytes("bytes"@);
    let done = Seq::new(
        out.len(),
        |j: int|
            if first <= j < first + count {
                bytes[pad + j - first]
            } else {
                out[j]
            },
    );
    lemma_moves_source(first, pad, count);
    step_nothing(scope);
    lemma_out_is_not_bytes();
    if count == 0 {
        assert(done =~= out);
        assert(scope.with("out"@, Thing::Bytes(done)).names =~= scope.names);
    } else {
        let fewer = (count - 1) as nat;
        lemma_moves(scope, first, pad, fewer);
        let before = run(moves_code(first, pad, fewer), scope)->Goes_0;
        let at = (first + fewer) as nat;
        let place = (pad + fewer) as nat;
        let last = Command::Move("out"@, at, "bytes"@, place);
        step_chain(moves_code(first, pad, fewer), last, scope);
        step_move("out"@, at, "bytes"@, place, before);
        assert(before.bytes("bytes"@) == bytes);
        assert(before.bytes("out"@).update(at as int, bytes[place as int]) =~= done);
        assert(before.with("out"@, Thing::Bytes(done)).names =~= scope.with(
            "out"@,
            Thing::Bytes(done),
        ).names);
    }
}

/// The names that the code around a run uses are different.
pub proof fn lemma_out_is_not_bytes()
    ensures
        "out"@ != "bytes"@,
{
    reveal_strlit("out");
    reveal_strlit("bytes");
    assert("out"@.len() == 3);
}

/// The source that writes a run of bits into a packet does to its bytes what writing the run does,
/// and to nothing else; it indexes nothing outside the packet.
pub proof fn lemma_writes_the_run(scope: Scope, offset: int, width: int, value: Expr, n: u64)
    requires
        0 <= offset,
        1 <= width <= 64,
        scope.has_bytes("out"@),
        offset + width <= 8 * scope.bytes("out"@).len(),
        parses(value),
        strength(value) >= 12,
        means(value, scope) == Outcome::Is(Thing::Number(Int::U64, n as int)),
        n < pow2(width as nat),
    ensures
        script(write_code(offset, width, value)) == write_text(offset, width, source(value)),
        run(write_code(offset, width, value), scope) == Step::Goes(
            scope.with("out"@, Thing::Bytes(written(scope.bytes("out"@), offset, width, n))),
        ),
{
    let out = scope.bytes("out"@);
    let span = span_of(offset, width);
    let slots = slots_of(span);
    let first = offset / 8;
    let shifted = shifted_code(offset, width, value);
    lemma_shifted(scope, offset, width, value, n);
    if slots == 1 {
        let moved = (n as u128) << (shift_of(offset, width) as u128);
        let part = moved as u8;
        lemma_type_powers();
        assert(moved < 256);
        let old_byte = out[first];
        assert(((moved >> 0u128) & 0xffu128) as u8 == part && ((old_byte as u128) | (
        part as u128)) as u8 == (old_byte | part)) by (bit_vector)
            requires
                moved < 256,
                part == moved as u8,
        ;
        let after = written(out, offset, width, n);
        step_store("out"@, first as nat, shifted, scope);
        step_merge("out"@, first as nat, shifted, scope);
        assert(after =~= out.update(
            first,
            if is_whole(offset, width) {
                part
            } else {
                old_byte | part
            },
        ));
        reveal_strlit("out");
        reveal_strlit("[");
        reveal_strlit("out[");
        assert("out["@ =~= "out"@ + "["@);
        assert(script(write_code(offset, width, value)) =~= write_text(
            offset,
            width,
            source(value),
        ));
    } else {
        lemma_writes_several(scope, offset, width, value, n);
    }
}

#[verifier::rlimit(30)]
proof fn lemma_writes_several(scope: Scope, offset: int, width: int, value: Expr, n: u64)
    requires
        0 <= offset,
        1 <= width <= 64,
        slots_of(span_of(offset, width)) > 1,
        scope.has_bytes("out"@),
        offset + width <= 8 * scope.bytes("out"@).len(),
        parses(value),
        strength(value) >= 12,
        means(value, scope) == Outcome::Is(Thing::Number(Int::U64, n as int)),
        n < pow2(width as nat),
    ensures
        script(write_code(offset, width, value)) == write_text(offset, width, source(value)),
        run(write_code(offset, width, value), scope) == Step::Goes(
            scope.with("out"@, Thing::Bytes(written(scope.bytes("out"@), offset, width, n))),
        ),
{
    let out = scope.bytes("out"@);
    let span = span_of(offset, width);
    let slots = slots_of(span);
    let first = offset / 8;
    let pad = slots - span;
    let kind = unsigned_int(8 * slots);
    let shifted = shifted_code(offset, width, value);
    let load = load_code("out"@, offset, width);
    let whole = combined_code(offset, width, value);
    let held = Expr::Paren(Box::new(whole));
    let call = Expr::Call(Method::ToBytes, Box::new(held));
    let moved = (n as u128) << (shift_of(offset, width) as u128);
    let big = covered_number(out, offset, width);
    lemma_shifted(scope, offset, width, value, n);
    lemma_loads_bytes(scope, "out"@, offset, width);
    lemma_accumulator_type(slots);
    lemma_run_in_its_bytes(out, offset, width);
    lemma_type_powers();
    if span < slots {
        lemma_pow2_strictly_increases((8 * span) as nat, (8 * slots) as nat);
    }
    if slots < 16 {
        lemma_pow2_strictly_increases((8 * slots) as nat, 128);
    }
    let total: u128 = if is_whole(offset, width) {
        moved
    } else {
        (big as u128) | moved
    };
    step_binary(Operator::BitOr, load, shifted, scope);
    assert(means(whole, scope) == Outcome::Is(Thing::Number(kind, total as int)));
    step_paren(whole, scope);
    step_call(Method::ToBytes, held, scope);
    let bytes = value_bytes(total as nat, slots as nat);
    assert(means(call, scope) == Outcome::Is(Thing::Bytes(bytes)));
    let inside = scope.with("bytes"@, Thing::Bytes(bytes));
    step_let("bytes"@, call, scope);
    lemma_out_is_not_bytes();
    lemma_value_bytes_len(total as nat, slots as nat);
    lemma_moves(inside, first, pad, span as nat);
    let binding = Command::Let("bytes"@, call);
    let moves = moves_code(first, pad, span as nat);
    step_chain(binding, moves, scope);
    step_block(Command::Chain(Box::new(binding), Box::new(moves)), scope);
    let done = Seq::new(
        out.len(),
        |j: int|
            if first <= j < first + span {
                bytes[pad + j - first]
            } else {
                out[j]
            },
    );
    lemma_bytes_go_back(out, offset, width, n, total);
    lemma_write_texts(offset, width, value);
}

proof fn lemma_write_texts(offset: int, width: int, value: Expr)
    requires
        slots_of(span_of(offset, width)) > 1,
        source(shifted_code(offset, width, value)) == shifted_text(offset, width, source(value)),
        source(load_code("out"@, offset, width)) == accumulator_text(
            slots_of(span_of(offset, width)),
        ) + "::from_be_bytes(["@ + loaded_bytes(
            "out"@,
            offset / 8,
            slots_of(span_of(offset, width)) - span_of(offset, width),
            slots_of(span_of(offset, width)) as nat,
        ) + "])"@,
    ensures
        script(write_code(offset, width, value)) == write_text(offset, width, source(value)),
{
    let scope = arbitrary::<Scope>();
    let span = span_of(offset, width);
    let slots = slots_of(span);
    let pad = slots - span;
    let shifted = shifted_code(offset, width, value);
    let load = load_code("out"@, offset, width);
    let whole = combined_code(offset, width, value);
    let held = Expr::Paren(Box::new(whole));
    let call = Expr::Call(Method::ToBytes, Box::new(held));
    let binding = Command::Let("bytes"@, call);
    let moves = moves_code(offset / 8, pad, span as nat);
    step_binary(Operator::BitOr, load, shifted, scope);
    step_paren(whole, scope);
    step_call(Method::ToBytes, held, scope);
    step_let("bytes"@, call, scope);
    lemma_moves_source(offset / 8, pad, span as nat);
    step_chain(binding, moves, scope);
    step_block(Command::Chain(Box::new(binding), Box::new(moves)), scope);
    assert(source(whole) =~= combined_text(offset, width, source(value))) by {
        reveal_strlit("])");
        reveal_strlit("]) | ");
        reveal_strlit(" | ");
    }
    let all = combined_text(offset, width, source(value));
    let stores = stores_text(offset / 8, pad, span as nat);
    assert("{\n"@ + ("let "@ + "bytes"@ + " = "@ + (("("@ + all + ")"@) + ".to_be_bytes()"@)
        + ";\n"@ + stores) + "}\n"@ =~= "{\nlet bytes = ("@ + all + ").to_be_bytes();\n"@ + stores
        + "}\n"@) by {
        reveal_strlit("{\n");
        reveal_strlit("let ");
        reveal_strlit("bytes");
        reveal_strlit(" = ");
        reveal_strlit("(");
        reveal_strlit(")");
        reveal_strlit(".to_be_bytes()");
        reveal_strlit(";\n");
        reveal_strlit("{\nlet bytes = (");
        reveal_strlit(").to_be_bytes();\n");
    }
}

/// The bytes of the number that goes back are those that writing the run leaves.
#[verifier::rlimit(30)]
proof fn lemma_bytes_go_back(out: Seq<u8>, offset: int, width: int, n: u64, total: u128)
    requires
        0 <= offset,
        1 <= width <= 64,
        offset + width <= 8 * out.len(),
        total == if is_whole(offset, width) {
            (n as u128) << (shift_of(offset, width) as u128)
        } else {
            (covered_number(out, offset, width) as u128) | ((n as u128) << (shift_of(
                offset,
                width,
            ) as u128))
        },
    ensures
        Seq::new(
            out.len(),
            |j: int|
                if offset / 8 <= j < offset / 8 + span_of(offset, width) {
                    value_bytes(total as nat, slots_of(span_of(offset, width)) as nat)[slots_of(
                        span_of(offset, width),
                    ) - span_of(offset, width) + j - offset / 8]
                } else {
                    out[j]
                },
        ) =~= written(out, offset, width, n),
{
    let span = span_of(offset, width);
    let slots = slots_of(span);
    let first = offset / 8;
    let pad = slots - span;
    let moved = (n as u128) << (shift_of(offset, width) as u128);
    let bytes = value_bytes(total as nat, slots as nat);
    assert forall|j: int| first <= j < first + span implies bytes[pad + j - first] == written(
        out,
        offset,
        width,
        n,
    )[j] by {
        let k = first + span - 1 - j;
        lemma_value_byte(total, slots as nat, pad + j - first);
        assert(slots - 1 - (pad + j - first) == k);
        if !is_whole(offset, width) {
            lemma_loaded_byte(out, offset, width, j);
            let a = covered_number(out, offset, width) as u128;
            let up = (8 * k) as u128;
            assert((((a | moved) >> up) & 0xffu128) as u8 == (((a >> up) & 0xffu128) as u8) | (((
            moved >> up) & 0xffu128) as u8)) by (bit_vector);
        }
    }
}

/// A byte that was loaded is still there in the number.
proof fn lemma_loaded_byte(data: Seq<u8>, offset: int, width: int, j: int)
    requires
        0 <= offset,
        1 <= width <= 64,
        offset + width <= 8 * data.len(),
        offset / 8 <= j < offset / 8 + span_of(offset, width),
    ensures
        byte_above(
            covered_number(data, offset, width) as u128,
            offset / 8 + span_of(offset, width) - 1 - j,
        ) == data[j],
{
    let span = span_of(offset, width);
    let first = offset / 8;
    let bytes = data.subrange(first, first + span);
    lemma_bytes_are_bits(data, first, span as nat);
    lemma_bytes_value_inverse(bytes);
    lemma_run_in_its_bytes(data, offset, width);
    lemma_type_powers();
    lemma_pow2_strictly_increases((8 * span) as nat, 128);
    lemma_value_byte(covered_number(data, offset, width) as u128, span as nat, j - first);
}

} // verus!
