//! Response headers and payloads inside a shared buffer.
//!
//! Both channels answer in the same shape: the header starts with an `i64`
//! result, the rest of the header is zeroed, and what follows is payload.

use vstd::prelude::*;

use crate::word::{word_of_i64, write_word};
#[allow(unused_imports)]
use crate::word::{i64_bytes, i64_value, i64_word, le_bytes, law_i64_round_trip, lemma_le_bytes_len};

verus! {

/// `len` zero bytes.
pub open spec fn zeros(len: nat) -> Seq<u8> {
    Seq::new(len, |i: int| 0u8)
}

/// A response header of `header_len` bytes: the result word, then zeros.
pub open spec fn response_header(result: i64, header_len: nat) -> Seq<u8> {
    i64_bytes(result) + zeros((header_len - 8) as nat)
}

/// A buffer after a response header was written over its start.
pub open spec fn with_response(buf: Seq<u8>, result: i64, header_len: nat) -> Seq<u8> {
    response_header(result, header_len) + buf.skip(header_len as int)
}

/// A buffer after `bytes` were written into it at offset `at`.
pub open spec fn with_bytes(buf: Seq<u8>, at: int, bytes: Seq<u8>) -> Seq<u8> {
    buf.take(at) + bytes + buf.skip(at + bytes.len())
}

/// What a reader finds after a response header was written: the result word,
/// zeros in the rest of the header, and the payload as it was.
pub proof fn law_response_read_back(buf: Seq<u8>, result: i64, header_len: nat)
    requires
        8 <= header_len <= buf.len(),
    ensures
        with_response(buf, result, header_len).len() == buf.len(),
        i64_value(with_response(buf, result, header_len).subrange(0, 8)) == result,
        forall|i: int|
            8 <= i < header_len ==> #[trigger] with_response(buf, result, header_len)[i] == 0,
        forall|i: int|
            header_len <= i < buf.len() ==> #[trigger] with_response(buf, result, header_len)[i]
                == buf[i],
{
    law_i64_round_trip(result);
    assert(with_response(buf, result, header_len).subrange(0, 8) =~= i64_bytes(result));
}

/// Writes the result word into the header and zeroes the rest of the header.
pub fn write_header(buf: &mut [u8], header_len: usize, result: i64)
    requires
        8 <= header_len <= old(buf)@.len(),
    ensures
        final(buf)@ == with_response(old(buf)@, result, header_len as nat),
{
    let ghost before = buf@;
    write_word(buf, 0, 8, word_of_i64(result));
    proof {
        lemma_le_bytes_len(i64_word(result), 8);
    }
    let ghost worded = buf@;
    assert(worded =~= i64_bytes(result) + before.skip(8));
    let mut i: usize = 8;
    while i < header_len
        invariant
            8 <= i <= header_len <= buf@.len(),
            buf@.len() == worded.len(),
            forall|j: int| 0 <= j < 8 ==> buf@[j] == worded[j],
            forall|j: int| 8 <= j < i ==> buf@[j] == 0,
            forall|j: int| i <= j < buf@.len() ==> buf@[j] == worded[j],
        decreases header_len - i,
    {
        buf[i] = 0;
        i = i + 1;
    }
    proof {
        let expected = with_response(before, result, header_len as nat);
        assert(i64_bytes(result).len() == 8);
        assert(buf@.len() == expected.len());
        assert forall|j: int| 0 <= j < buf@.len() implies buf@[j] == expected[j] by {
            if j < 8 {
                assert(buf@[j] == worded[j]);
                assert(worded[j] == i64_bytes(result)[j]);
            } else if j < header_len {
            } else {
                assert(buf@[j] == worded[j]);
                assert(worded[j] == before.skip(8)[j - 8]);
            }
        }
        assert(buf@ =~= expected);
    }
}

/// Copies `bytes` into the buffer at offset `at`.
pub fn copy_bytes(buf: &mut [u8], at: usize, bytes: &[u8])
    requires
        at + bytes@.len() <= old(buf)@.len(),
    ensures
        final(buf)@ == with_bytes(old(buf)@, at as int, bytes@),
{
    let ghost before = buf@;
    assert(buf@.len() == buf.len());
    let mut i: usize = 0;
    while i < bytes.len()
        invariant
            i <= bytes@.len(),
            at + bytes@.len() <= before.len() <= usize::MAX,
            buf@.len() == before.len(),
            forall|j: int| 0 <= j < at ==> buf@[j] == before[j],
            forall|j: int| at <= j < at + i ==> buf@[j] == bytes@[j - at],
            forall|j: int| at + i <= j < buf@.len() ==> buf@[j] == before[j],
        decreases bytes@.len() - i,
    {
        buf[at + i] = bytes[i];
        i = i + 1;
    }
    assert(buf@ =~= with_bytes(before, at as int, bytes@));
}

/// Bytes that are written into a buffer stand at their offset, byte for byte,
/// and every other byte of the buffer is as it was.
pub proof fn law_bytes_stand_at_their_offset(buf: Seq<u8>, at: int, bytes: Seq<u8>)
    requires
        0 <= at,
        at + bytes.len() <= buf.len(),
    ensures
        with_bytes(buf, at, bytes).len() == buf.len(),
        forall|i: int|
            0 <= i < buf.len() ==> #[trigger] with_bytes(buf, at, bytes)[i] == if at <= i < at
                + bytes.len() {
                bytes[i - at]
            } else {
                buf[i]
            },
{
}

} // verus!
