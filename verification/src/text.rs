//! Text: guest bytes read as text, and numbers written out in messages.

use vstd::prelude::*;
#[allow(unused_imports)]
use vstd::utf8::{
    decode_utf8, decode_utf8_encode_utf8, encode_utf8, encode_utf8_decode_utf8,
    encode_utf8_valid_utf8, valid_utf8,
};

verus! {

/// What `String::from_utf8_lossy` makes of a byte sequence.
pub uninterp spec fn lossy_utf8(bytes: Seq<u8>) -> Seq<char>;

/// Calls `String::from_utf8_lossy` and takes ownership of the text.
///
/// Trusted: the text is a function of the bytes alone, named [`lossy_utf8`].
/// Bytes that are valid UTF-8 decode to the characters they encode; in any
/// other case the text holds the replacement character U+FFFD. Where the
/// replacement characters stand, and how many there are, is left unsaid.
#[verifier::external_body]
fn decode_lossy(bytes: &[u8]) -> (text: String)
    ensures
        text@ == lossy_utf8(bytes@),
        valid_utf8(bytes@) ==> text@ == decode_utf8(bytes@),
        !valid_utf8(bytes@) ==> text@.contains('\u{FFFD}'),
{
    String::from_utf8_lossy(bytes).into_owned()
}

/// Guest bytes read as text: valid UTF-8 is decoded, and in anything else what
/// is not UTF-8 is replaced.
pub open spec fn text_of(bytes: Seq<u8>) -> Seq<char> {
    if valid_utf8(bytes) {
        decode_utf8(bytes)
    } else {
        lossy_utf8(bytes)
    }
}

/// Text that the guest encodes as UTF-8 is read as it was.
pub proof fn law_text_survives(text: Seq<char>)
    ensures
        text_of(encode_utf8(text)) == text,
{
    encode_utf8_valid_utf8(text);
    encode_utf8_decode_utf8(text);
}

/// Valid UTF-8 that was read as text encodes to the bytes that it was.
pub proof fn law_utf8_survives(bytes: Seq<u8>)
    requires
        valid_utf8(bytes),
    ensures
        encode_utf8(text_of(bytes)) == bytes,
{
    decode_utf8_encode_utf8(bytes);
}

/// Reads guest bytes as text. The guest may write anything, so bytes that are
/// not UTF-8 are accepted and replaced.
pub fn read_text(bytes: &[u8]) -> (text: String)
    ensures
        text@ == text_of(bytes@),
        text@ == lossy_utf8(bytes@),
        valid_utf8(bytes@) ==> encode_utf8(text@) == bytes@,
        !valid_utf8(bytes@) ==> text@.contains('\u{FFFD}'),
{
    proof {
        if valid_utf8(bytes@) {
            law_utf8_survives(bytes@);
        }
    }
    decode_lossy(bytes)
}

/// The ten decimal digits, in order.
pub open spec fn digits() -> Seq<char> {
    seq!['0', '1', '2', '3', '4', '5', '6', '7', '8', '9']
}

/// `value` in decimal, without leading zeros.
pub open spec fn decimal(value: nat) -> Seq<char>
    decreases value,
{
    if value < 10 {
        seq![digits()[value as int]]
    } else {
        decimal(value / 10).push(digits()[(value % 10) as int])
    }
}

fn digit_text(digit: u64) -> (text: &'static str)
    requires
        digit < 10,
    ensures
        text@ == seq![digits()[digit as int]],
{
    proof {
        reveal_strlit("0");
        reveal_strlit("1");
        reveal_strlit("2");
        reveal_strlit("3");
        reveal_strlit("4");
        reveal_strlit("5");
        reveal_strlit("6");
        reveal_strlit("7");
        reveal_strlit("8");
        reveal_strlit("9");
    }
    match digit {
        0 => "0",
        1 => "1",
        2 => "2",
        3 => "3",
        4 => "4",
        5 => "5",
        6 => "6",
        7 => "7",
        8 => "8",
        _ => "9",
    }
}

/// Appends `value` in decimal.
pub fn push_decimal(out: &mut String, value: u64)
    ensures
        final(out)@ == old(out)@ + decimal(value as nat),
    decreases value,
{
    if value >= 10 {
        push_decimal(out, value / 10);
    }
    out.append(digit_text(value % 10));
}

/// Bytes that are not UTF-8 are read as `String::from_utf8_lossy` reads them,
/// and nothing is added or left out.
pub proof fn law_other_bytes_are_read_lossily(bytes: Seq<u8>)
    requires
        !valid_utf8(bytes),
    ensures
        text_of(bytes) == lossy_utf8(bytes),
{
}

/// The number that a text of decimal digits is read as, from the left.
pub open spec fn read_decimal(text: Seq<char>) -> int
    decreases text.len(),
{
    if text.len() == 0 {
        0
    } else {
        10 * read_decimal(text.drop_last()) + (text.last() as int - '0' as int)
    }
}

/// A number in decimal is made of digits, has no leading zero, and is read as
/// that number; so different numbers look different.
pub proof fn law_decimal_is_read_back(value: nat)
    ensures
        decimal(value).len() > 0,
        read_decimal(decimal(value)) == value,
        forall|i: int|
            0 <= i < decimal(value).len() ==> '0' as int <= #[trigger] decimal(value)[i] as int
                <= '9' as int,
        decimal(value)[0] == '0' ==> value == 0 && decimal(value).len() == 1,
    decreases value,
{
    let text = decimal(value);
    if value < 10 {
        reveal_with_fuel(read_decimal, 2);
    } else {
        law_decimal_is_read_back(value / 10);
        let front = decimal(value / 10);
        assert(text.drop_last() =~= front);
        assert forall|i: int| 0 <= i < text.len() implies '0' as int <= #[trigger] text[i] as int
            <= '9' as int by {
            if i < front.len() {
                assert(text[i] == front[i]);
            }
        }
        assert(text[0] == front[0]);
    }
}

} // verus!
