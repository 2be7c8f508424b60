//! Little-endian words inside a byte buffer.
//!
//! Every header field of the shared buffers is an unsigned little-endian word
//! of four or eight bytes; the response word is an `i64` in two's complement.
//! Here the bytes are related to the numbers they stand for.

#[allow(unused_imports)]
use vstd::arithmetic::power::{lemma_pow0, lemma_pow1, lemma_pow_adds, lemma_pow_positive, pow};
use vstd::prelude::*;

verus! {

/// `256` to the power `width`: how many values fit in `width` bytes.
pub open spec fn word_values(width: nat) -> nat
    decreases width,
{
    if width == 0 {
        1
    } else {
        256 * word_values((width - 1) as nat)
    }
}

/// The number that `bytes` stand for, least significant byte first.
pub open spec fn le_value(bytes: Seq<u8>) -> nat
    decreases bytes.len(),
{
    if bytes.len() == 0 {
        0
    } else {
        bytes[0] as nat + 256 * le_value(bytes.drop_first())
    }
}

/// The `width` bytes that stand for `value`, least significant byte first.
pub open spec fn le_bytes(value: nat, width: nat) -> Seq<u8>
    decreases width,
{
    if width == 0 {
        Seq::empty()
    } else {
        seq![(value % 256) as u8] + le_bytes(value / 256, (width - 1) as nat)
    }
}

/// The unsigned 64-bit word that holds `value` in two's complement.
pub open spec fn i64_word(value: i64) -> nat {
    if value >= 0 {
        value as nat
    } else {
        (value + 0x1_0000_0000_0000_0000) as nat
    }
}

/// The number that an unsigned 64-bit word holds in two's complement.
pub open spec fn word_i64(word: nat) -> int {
    if word < 0x8000_0000_0000_0000 {
        word as int
    } else {
        word - 0x1_0000_0000_0000_0000
    }
}

/// The bytes of an `i64` as they stand in a buffer.
pub open spec fn i64_bytes(value: i64) -> Seq<u8> {
    le_bytes(i64_word(value), 8)
}

/// The `i64` that eight bytes of a buffer hold.
pub open spec fn i64_value(bytes: Seq<u8>) -> int {
    word_i64(le_value(bytes))
}

/// The encoding of a number has the width that was asked for.
pub proof fn lemma_le_bytes_len(value: nat, width: nat)
    ensures
        le_bytes(value, width).len() == width,
    decreases width,
{
    if width > 0 {
        lemma_le_bytes_len(value / 256, (width - 1) as nat);
    }
}

/// A word of `n` bytes stays below `256` to the power `n`.
pub proof fn lemma_le_value_bound(bytes: Seq<u8>)
    ensures
        le_value(bytes) < word_values(bytes.len()),
    decreases bytes.len(),
{
    if bytes.len() > 0 {
        lemma_le_value_bound(bytes.drop_first());
    }
}

/// Reading a word gives back the number that was written, when it fits.
pub proof fn law_word_round_trip(value: nat, width: nat)
    requires
        value < word_values(width),
    ensures
        le_value(le_bytes(value, width)) == value,
    decreases width,
{
    lemma_le_bytes_len(value, width);
    if width > 0 {
        law_word_round_trip(value / 256, (width - 1) as nat);
        lemma_le_bytes_len(value / 256, (width - 1) as nat);
        assert(le_bytes(value, width).drop_first() =~= le_bytes(value / 256, (width - 1) as nat));
    }
}

/// Writing a word that was read gives back the bytes it was read from.
pub proof fn law_bytes_round_trip(bytes: Seq<u8>)
    ensures
        le_bytes(le_value(bytes), bytes.len()) == bytes,
    decreases bytes.len(),
{
    if bytes.len() > 0 {
        law_bytes_round_trip(bytes.drop_first());
        assert(le_bytes(le_value(bytes), bytes.len()) =~= bytes);
    }
}

/// Reading an `i64` gives back the `i64` that was written.
pub proof fn law_i64_round_trip(value: i64)
    ensures
        i64_bytes(value).len() == 8,
        i64_value(i64_bytes(value)) == value,
{
    assert(word_values(8) == 0x1_0000_0000_0000_0000) by {
        reveal_with_fuel(word_values, 9);
    }
    lemma_le_bytes_len(i64_word(value), 8);
    law_word_round_trip(i64_word(value), 8);
}

/// All-zero bytes stand for zero.
pub proof fn lemma_zero_bytes(bytes: Seq<u8>)
    requires
        forall|i: int| 0 <= i < bytes.len() ==> bytes[i] == 0,
    ensures
        le_value(bytes) == 0,
    decreases bytes.len(),
{
    if bytes.len() > 0 {
        lemma_zero_bytes(bytes.drop_first());
    }
}

/// The word that holds `value` in two's complement.
pub fn word_of_i64(value: i64) -> (word: u64)
    ensures
        word == i64_word(value),
{
    if value >= 0 {
        value as u64
    } else {
        u64::MAX - ((-(value + 1)) as u64)
    }
}

/// Reads the little-endian word of `width` bytes at offset `at`.
pub fn read_word(buf: &[u8], at: usize, width: usize) -> (word: u64)
    requires
        width <= 8,
        at + width <= buf@.len(),
    ensures
        word == le_value(buf@.subrange(at as int, at + width)),
{
    assert(buf@.len() == buf.len());
    let mut i: usize = width;
    let mut word: u64 = 0;
    assert(buf@.subrange(at + width, at + width) =~= Seq::<u8>::empty());
    while i > 0
        invariant
            i <= width <= 8,
            at + width <= buf@.len() <= usize::MAX,
            word == le_value(buf@.subrange(at + i, at + width)),
        decreases i,
    {
        let ghost rest = buf@.subrange(at + i, at + width);
        proof {
            lemma_le_value_bound(rest);
            reveal_with_fuel(word_values, 9);
        }
        i = i - 1;
        let ghost longer = buf@.subrange(at + i, at + width);
        assert(longer.drop_first() =~= rest);
        word = buf[at + i] as u64 + 256 * word;
    }
    word
}

/// Writes `value` as a little-endian word of `width` bytes at offset `at`.
pub fn write_word(buf: &mut [u8], at: usize, width: usize, value: u64)
    requires
        at + width <= old(buf)@.len(),
    ensures
        final(buf)@ == old(buf)@.subrange(0, at as int) + le_bytes(value as nat, width as nat)
            + old(buf)@.subrange(at + width, old(buf)@.len() as int),
{
    let ghost before = buf@;
    assert(buf@.len() == buf.len());
    let mut i: usize = 0;
    let mut left: u64 = value;
    proof {
        lemma_le_bytes_len(value as nat, width as nat);
    }
    assert(le_bytes(value as nat, width as nat).skip(0) =~= le_bytes(value as nat, width as nat));
    while i < width
        invariant
            i <= width,
            at + width <= before.len() <= usize::MAX,
            buf@.len() == before.len(),
            le_bytes(value as nat, width as nat).len() == width,
            le_bytes(value as nat, width as nat).skip(i as int) == le_bytes(
                left as nat,
                (width - i) as nat,
            ),
            forall|j: int| 0 <= j < at ==> buf@[j] == before[j],
            forall|j: int|
                at <= j < at + i ==> buf@[j] == le_bytes(value as nat, width as nat)[j - at],
            forall|j: int| at + i <= j < before.len() ==> buf@[j] == before[j],
        decreases width - i,
    {
        let ghost word = le_bytes(value as nat, width as nat);
        let ghost rest = le_bytes(left as nat, (width - i) as nat);
        assert(rest[0] == word[i as int]);
        buf[at + i] = (left % 256) as u8;
        proof {
            lemma_le_bytes_len((left / 256) as nat, (width - i - 1) as nat);
        }
        assert(rest.skip(1) =~= le_bytes((left / 256) as nat, (width - i - 1) as nat));
        assert(word.skip(i + 1) =~= rest.skip(1));
        left = left / 256;
        i = i + 1;
    }
    assert(buf@ =~= before.subrange(0, at as int) + le_bytes(value as nat, width as nat)
        + before.subrange(at + width, before.len() as int));
}

/// How many values fit in some bytes is `256` to the power of their number.
proof fn lemma_word_values_are_powers(width: nat)
    ensures
        word_values(width) == pow(256, width),
    decreases width,
{
    if width == 0 {
        lemma_pow0(256);
    } else {
        lemma_word_values_are_powers((width - 1) as nat);
        lemma_pow_adds(256, 1, (width - 1) as nat);
        lemma_pow1(256);
    }
}

/// Bytes stand for a number in the base 256, the least significant one first:
/// none for zero, one for itself, and what follows other bytes counts for 256
/// times as much with each of them.
pub proof fn law_word_is_little_endian(low: Seq<u8>, high: Seq<u8>, byte: u8)
    ensures
        le_value(Seq::empty()) == 0,
        le_value(seq![byte]) == byte,
        le_value(low + high) == le_value(low) + pow(256, low.len()) * le_value(high),
        0 <= le_value(low) < pow(256, low.len()),
    decreases low.len(),
{
    lemma_le_value_bound(low);
    lemma_word_values_are_powers(low.len());
    assert(seq![byte].drop_first() =~= Seq::empty());
    assert(le_value(seq![byte].drop_first()) == 0);
    if low.len() == 0 {
        lemma_pow0(256);
        assert(low + high =~= high);
    } else {
        let rest = low.drop_first();
        law_word_is_little_endian(rest, high, byte);
        assert((low + high).drop_first() =~= rest + high);
        lemma_pow_adds(256, 1, rest.len());
        lemma_pow1(256);
        let (r, h, p) = (le_value(rest) as int, le_value(high) as int, pow(256, rest.len()));
        assert(256 * (r + p * h) == 256 * r + (256 * p) * h) by (nonlinear_arith);
    }
}

/// A number is cut to as many bytes as there is room for, and no byte of it is
/// changed: what is read back is the number up to multiples of what fits.
pub proof fn law_word_is_cut_to_its_width(value: nat, width: nat)
    ensures
        le_bytes(value, width).len() == width,
        le_value(le_bytes(value, width)) == value as int % pow(256, width),
    decreases width,
{
    lemma_le_bytes_len(value, width);
    lemma_pow_positive(256, width);
    if width == 0 {
        lemma_pow0(256);
    } else {
        let less = (width - 1) as nat;
        law_word_is_cut_to_its_width(value / 256, less);
        assert(le_bytes(value, width).drop_first() =~= le_bytes(value / 256, less));
        lemma_pow_adds(256, 1, less);
        lemma_pow1(256);
        lemma_pow_positive(256, less);
        vstd::arithmetic::div_mod::lemma_mod_breakdown(value as int, 256, pow(256, less));
    }
}

/// A signed word is in two's complement: it stands for the same number as its
/// unsigned reading, up to the number of values of a word, and is in range.
pub proof fn law_signed_word_is_twos_complement(value: i64, bytes: Seq<u8>)
    requires
        bytes.len() == 8,
    ensures
        i64_bytes(value).len() == 8,
        le_value(i64_bytes(value)) == if value >= 0 {
            value as int
        } else {
            value + 0x1_0000_0000_0000_0000
        },
        i64::MIN <= i64_value(bytes) <= i64::MAX,
        i64_value(bytes) == le_value(bytes) || i64_value(bytes) == le_value(bytes)
            - 0x1_0000_0000_0000_0000,
        i64_value(bytes) == value <==> bytes == i64_bytes(value),
{
    reveal_with_fuel(word_values, 9);
    law_i64_round_trip(value);
    law_word_round_trip(i64_word(value), 8);
    lemma_le_value_bound(bytes);
    law_bytes_round_trip(bytes);
}

} // verus!
