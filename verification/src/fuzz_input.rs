//! Fuzz-input channel: the host half of the `HYPERCALL_FUZZ_NEXT_INPUT` ABI.
//!
//! This is how a guest harness receives testcases from a host-side fuzzer. The
//! guest registers one feedback buffer under [`FUZZ_INPUT_BUFFER_ID`], and the
//! host writes into that buffer's (copy-on-write) pages before resuming the VM.
//!
//! 1. During its one-time setup the guest registers a buffer sized for the
//!    largest testcase it expects plus [`FUZZ_INPUT_HEADER_LEN`].
//! 2. The guest issues `HYPERCALL_FUZZ_NEXT_INPUT`, which exits to the host.
//! 3. The host ([`InputServer::serve`]) overwrites the buffer with a response
//!    header (the input's length, or [`FUZZ_INPUT_RESULT_EOF`]) followed by the
//!    input bytes, and runs the VM again.
//! 4. The guest reads the result back out of the buffer and executes that input.
//!
//! A fuzzer checkpoints the guest at its first request and forks that
//! checkpoint once per testcase. No testcase may see anything of another one:
//! [`law_serve_depends_on_input_only`] and [`law_serve_clears_report`] say so
//! for the part of it that goes through the buffer.
//!
//! The header carries both directions of the exchange:
//!
//! | range      | writer | meaning                                                  |
//! |------------|--------|----------------------------------------------------------|
//! | `[0..8)`   | host   | `i64` result: input length, or [`FUZZ_INPUT_RESULT_EOF`] |
//! | `[8..16)`  | guest  | `u64` status of the previous testcase ([`FuzzOutcome`])  |
//! | `[16..24)` | guest  | `u64` aux: message length when the status is `Fail`      |
//! | `[24..32)` |        | reserved (zero)                                          |
//!
//! The payload after the header is the input bytes (host to guest) or, when the
//! guest reports `Fail`, its message (guest to host).

use vstd::prelude::*;
#[allow(unused_imports)]
use vstd::utf8::encode_utf8;

use crate::error::ErrorKind;
use crate::feedback::{Channel, Failure, SlotCache, VmReply, VmRequest};
#[allow(unused_imports)]
use crate::feedback::{
    cache_after, channel_walk, first_request, law_each_vm_maps_the_cached_slot,
    law_walk_locates_buffer, located, next_cache, next_request, resolved_slot, VmAnswers,
};
use crate::frame::{copy_bytes, write_header};
#[allow(unused_imports)]
use crate::frame::{law_response_read_back, with_bytes, with_response};
use crate::text::{push_decimal, read_text};
#[allow(unused_imports)]
use crate::text::{decimal, law_text_survives, text_of};
use crate::word::read_word;
#[allow(unused_imports)]
use crate::word::{
    i64_value, law_i64_round_trip, law_signed_word_is_twos_complement, law_word_round_trip, le_bytes,
    le_value, lemma_le_bytes_len, lemma_le_value_bound, lemma_zero_bytes, word_values,
};

verus! {

/// Identifier the guest registers its fuzz-input buffer under; the host finds
/// the buffer by the bytes of this id.
pub const FUZZ_INPUT_BUFFER_ID: &'static str = "fuzzamoto-input";

/// Bytes reserved at the start of the shared buffer for the header. Payload
/// begins at this offset.
pub const FUZZ_INPUT_HEADER_LEN: usize = 32;

/// Response result: no further inputs, the guest should shut down.
pub const FUZZ_INPUT_RESULT_EOF: i64 = -1;

/// Status word: the testcase ran to completion.
pub const STATUS_OK: u64 = 0;

/// Status word: the harness could not use the testcase.
pub const STATUS_SKIP: u64 = 1;

/// Status word: the harness detected a bug.
pub const STATUS_FAIL: u64 = 2;

/// What the guest reported about the testcase it just finished.
///
/// The guest writes this into the header immediately before asking for its next
/// input, so one exit means both "here is how the last one went" and "give me
/// another".
#[derive(Debug, PartialEq, Eq)]
pub enum FuzzOutcome {
    /// The testcase ran to completion without the harness detecting a bug.
    Pass,
    /// The harness could not use this testcase (e.g. it failed to decode).
    /// The fuzzer should not count it as an execution.
    Skip,
    /// The harness detected a bug, with this message.
    Fail(String),
    /// The guest wrote a status word this host build does not know.
    Unknown(u64),
}

/// A [`FuzzOutcome`] with its message as a sequence of characters.
pub enum FuzzOutcomeView {
    Pass,
    Skip,
    Fail(Seq<char>),
    Unknown(u64),
}

impl View for FuzzOutcome {
    type V = FuzzOutcomeView;

    open spec fn view(&self) -> FuzzOutcomeView {
        match self {
            FuzzOutcome::Pass => FuzzOutcomeView::Pass,
            FuzzOutcome::Skip => FuzzOutcomeView::Skip,
            FuzzOutcome::Fail(message) => FuzzOutcomeView::Fail(message@),
            FuzzOutcome::Unknown(status) => FuzzOutcomeView::Unknown(*status),
        }
    }
}

/// The outcome that a status word stands for, given the guest's message.
pub open spec fn outcome_of(status: u64, message: Seq<char>) -> FuzzOutcomeView {
    if status == STATUS_OK {
        FuzzOutcomeView::Pass
    } else if status == STATUS_SKIP {
        FuzzOutcomeView::Skip
    } else if status == STATUS_FAIL {
        FuzzOutcomeView::Fail(message)
    } else {
        FuzzOutcomeView::Unknown(status)
    }
}

impl FuzzOutcome {
    /// The outcome that a status word stands for. The message is the guest's
    /// text, and only a failed testcase carries it.
    pub fn from_status(status: u64, message: String) -> (outcome: FuzzOutcome)
        ensures
            outcome@ == outcome_of(status, message@),
    {
        match status {
            STATUS_OK => FuzzOutcome::Pass,
            STATUS_SKIP => FuzzOutcome::Skip,
            STATUS_FAIL => FuzzOutcome::Fail(message),
            other => FuzzOutcome::Unknown(other),
        }
    }
}

impl Clone for FuzzOutcome {
    fn clone(&self) -> (copy: Self)
        ensures
            copy@ == self@,
    {
        match self {
            FuzzOutcome::Pass => FuzzOutcome::Pass,
            FuzzOutcome::Skip => FuzzOutcome::Skip,
            FuzzOutcome::Fail(message) => FuzzOutcome::Fail(message.clone()),
            FuzzOutcome::Unknown(status) => FuzzOutcome::Unknown(*status),
        }
    }
}

/// Why a fuzz-input operation failed.
#[derive(Debug, Clone, Copy, PartialEq, Eq, Structural)]
pub enum FuzzInputError {
    /// The guest asked for an input without having registered a buffer.
    NotRegistered,
    /// The buffer is not there, although it was mapped.
    Disappeared,
    /// The buffer cannot hold a header.
    BufferTooSmall,
    /// The input does not fit in the buffer.
    InputTooLarge { len: usize, capacity: usize },
}

impl FuzzInputError {
    /// The kind of this failure.
    pub open spec fn spec_kind(self) -> ErrorKind {
        match self {
            FuzzInputError::NotRegistered => ErrorKind::NotFound,
            FuzzInputError::Disappeared => ErrorKind::Other,
            FuzzInputError::BufferTooSmall => ErrorKind::InvalidData,
            FuzzInputError::InputTooLarge { .. } => ErrorKind::InvalidInput,
        }
    }

    /// The text of this failure.
    pub open spec fn spec_message(self) -> Seq<char> {
        match self {
            FuzzInputError::NotRegistered =>
                "guest issued HYPERCALL_FUZZ_NEXT_INPUT but registered no fuzzamoto-input buffer"@,
            FuzzInputError::Disappeared => "fuzz-input buffer disappeared after mapping"@,
            FuzzInputError::BufferTooSmall => "fuzz-input buffer smaller than header"@,
            FuzzInputError::InputTooLarge { len, capacity } => "fuzz input of "@ + decimal(
                len as nat,
            ) + " bytes exceeds the guest's "@ + decimal(capacity as nat) + "-byte input buffer"@,
        }
    }

    /// The kind of this failure, for callers that sort I/O errors.
    pub fn kind(&self) -> (kind: ErrorKind)
        ensures
            kind == self.spec_kind(),
    {
        match self {
            FuzzInputError::NotRegistered => ErrorKind::NotFound,
            FuzzInputError::Disappeared => ErrorKind::Other,
            FuzzInputError::BufferTooSmall => ErrorKind::InvalidData,
            FuzzInputError::InputTooLarge { .. } => ErrorKind::InvalidInput,
        }
    }

    /// The text of this failure.
    pub fn message(&self) -> (text: String)
        ensures
            text@ == self.spec_message(),
    {
        match self {
            FuzzInputError::NotRegistered =>
                "guest issued HYPERCALL_FUZZ_NEXT_INPUT but registered no fuzzamoto-input buffer".to_owned(),
            FuzzInputError::Disappeared => "fuzz-input buffer disappeared after mapping".to_owned(),
            FuzzInputError::BufferTooSmall => "fuzz-input buffer smaller than header".to_owned(),
            FuzzInputError::InputTooLarge { len, capacity } => {
                let mut text: String = "fuzz input of ".to_owned();
                push_decimal(&mut text, *len as u64);
                text.append(" bytes exceeds the guest's ");
                push_decimal(&mut text, *capacity as u64);
                text.append("-byte input buffer");
                text
            },
        }
    }
}

/// The guest's status word.
pub open spec fn guest_status(buf: Seq<u8>) -> u64 {
    le_value(buf.subrange(8, 16)) as u64
}

/// The guest's aux word.
pub open spec fn guest_aux(buf: Seq<u8>) -> u64 {
    le_value(buf.subrange(16, 24)) as u64
}

/// The payload part of a buffer.
pub open spec fn payload(buf: Seq<u8>) -> Seq<u8> {
    buf.skip(FUZZ_INPUT_HEADER_LEN as int)
}

/// The guest's message: as many payload bytes as the aux word says, or all of
/// the payload when it says more than there are.
pub open spec fn guest_message(buf: Seq<u8>) -> Seq<u8> {
    if guest_aux(buf) <= payload(buf).len() {
        payload(buf).take(guest_aux(buf) as int)
    } else {
        payload(buf)
    }
}

/// What a buffer reports about the testcase that the guest just finished.
pub open spec fn guest_outcome(buf: Seq<u8>) -> FuzzOutcomeView {
    outcome_of(guest_status(buf), text_of(guest_message(buf)))
}

/// What a fetched buffer is good for: one that is there and can hold a header
/// is accepted as it is.
pub open spec fn accepted_buffer(fetched: Option<Seq<u8>>) -> Result<Seq<u8>, FuzzInputError> {
    match fetched {
        None => Err(FuzzInputError::Disappeared),
        Some(bytes) => if bytes.len() < FUZZ_INPUT_HEADER_LEN {
            Err(FuzzInputError::BufferTooSmall)
        } else {
            Ok(bytes)
        },
    }
}

/// A buffer after `input` was served into it: a fresh header, the input behind
/// it, and whatever was behind that left alone.
pub open spec fn served(buf: Seq<u8>, input: Seq<u8>) -> Seq<u8> {
    with_bytes(
        with_response(buf, input.len() as i64, FUZZ_INPUT_HEADER_LEN as nat),
        FUZZ_INPUT_HEADER_LEN as int,
        input,
    )
}

/// A buffer after the end of the inputs was served into it.
pub open spec fn served_eof(buf: Seq<u8>) -> Seq<u8> {
    with_response(buf, FUZZ_INPUT_RESULT_EOF, FUZZ_INPUT_HEADER_LEN as nat)
}

/// Writes fuzzer testcases into a guest's registered input buffer.
///
/// One server drives one guest. Walk [`begin`](Self::begin) and
/// [`advance`](Self::advance) to the fetch request, and hand what the VM
/// fetched (`None` when the slot turned out not to be mapped) to the operation.
///
/// The resolved slot is cached, the mapping is not: a forked VM has its own
/// copy-on-write pages, so each fork must be mapped separately. That makes a
/// server cheap to create per branch of a fork-per-testcase loop.
#[derive(Debug)]
pub struct InputServer {
    slot: SlotCache,
}

impl View for InputServer {
    type V = Option<usize>;

    /// The cached slot.
    closed spec fn view(&self) -> Option<usize> {
        self.slot@
    }
}

impl Default for InputServer {
    fn default() -> (server: Self)
        ensures
            server@ == None::<usize>,
    {
        Self::new()
    }
}

impl InputServer {
    /// Builds a server for one guest. No slot is resolved yet.
    #[must_use]
    pub fn new() -> (server: Self)
        ensures
            server@ == None::<usize>,
    {
        InputServer { slot: SlotCache::new() }
    }

    /// The first request to the VM in an operation.
    pub fn begin(&self) -> (request: VmRequest)
        ensures
            request == first_request(Channel::FuzzInput, self@),
    {
        self.slot.begin(Channel::FuzzInput)
    }

    /// Resolves (and caches) the slot that the guest registered the input
    /// buffer under, from what the lookup by [`FUZZ_INPUT_BUFFER_ID`] found.
    pub fn resolve_slot<E>(&mut self, found: Result<Vec<usize>, E>) -> (slot: Result<
        usize,
        Failure<E, FuzzInputError>,
    >)
        ensures
            slot == resolved_slot(old(self)@, found, FuzzInputError::NotRegistered),
            final(self)@ == cache_after(old(self)@, found),
    {
        self.slot.resolve(found, FuzzInputError::NotRegistered)
    }

    /// Takes the VM's reply to the last request and gives the next request,
    /// until it is the one to fetch the mapped buffer.
    pub fn advance<E>(&mut self, reply: VmReply<E>) -> (request: Result<
        VmRequest,
        Failure<E, FuzzInputError>,
    >)
        ensures
            request == next_request(old(self)@, reply, FuzzInputError::NotRegistered),
            final(self)@ == next_cache(old(self)@, reply),
    {
        match reply {
            VmReply::Slots(found) => match self.resolve_slot(found) {
                Ok(slot) => Ok(VmRequest::CheckMapped { slot }),
                Err(e) => Err(e),
            },
            other => self.slot.advance(other, FuzzInputError::NotRegistered),
        }
    }

    /// Accepts a fetched buffer that can hold a header.
    pub fn buffer<'a>(fetched: Option<&'a mut [u8]>) -> (buf: Result<&'a mut [u8], FuzzInputError>)
        ensures
            match fetched {
                None => buf == Err::<&mut [u8], _>(FuzzInputError::Disappeared),
                Some(bytes) => match accepted_buffer(Some(bytes@)) {
                    Err(e) => {
                        &&& buf == Err::<&mut [u8], _>(e)
                        &&& final(bytes)@ == bytes@
                    },
                    Ok(accepted) => {
                        &&& buf is Ok
                        &&& buf->Ok_0@ == accepted
                        &&& final(buf->Ok_0)@ == final(bytes)@
                    },
                },
            },
    {
        match fetched {
            None => Err(FuzzInputError::Disappeared),
            Some(bytes) => {
                if bytes.len() < FUZZ_INPUT_HEADER_LEN {
                    Err(FuzzInputError::BufferTooSmall)
                } else {
                    Ok(bytes)
                }
            },
        }
    }

    /// The same for an operation that only reads.
    pub fn buffer_ref<'a>(fetched: Option<&'a [u8]>) -> (buf: Result<&'a [u8], FuzzInputError>)
        ensures
            match fetched {
                None => buf == Err::<&[u8], _>(FuzzInputError::Disappeared),
                Some(bytes) => match accepted_buffer(Some(bytes@)) {
                    Err(e) => buf == Err::<&[u8], _>(e),
                    Ok(_) => buf == Ok::<_, FuzzInputError>(bytes),
                },
            },
    {
        match fetched {
            None => Err(FuzzInputError::Disappeared),
            Some(bytes) => {
                if bytes.len() < FUZZ_INPUT_HEADER_LEN {
                    Err(FuzzInputError::BufferTooSmall)
                } else {
                    Ok(bytes)
                }
            },
        }
    }

    /// The usable input capacity of the guest's buffer, in bytes: its total
    /// size less the header.
    pub fn capacity(&self, fetched: Option<&[u8]>) -> (capacity: Result<usize, FuzzInputError>)
        ensures
            match fetched {
                None => capacity == Err::<usize, _>(FuzzInputError::Disappeared),
                Some(bytes) => if bytes@.len() < FUZZ_INPUT_HEADER_LEN {
                    capacity == Err::<usize, _>(FuzzInputError::BufferTooSmall)
                } else {
                    &&& capacity == Ok::<_, FuzzInputError>(payload(bytes@).len() as usize)
                    &&& capacity->Ok_0 + FUZZ_INPUT_HEADER_LEN == bytes@.len()
                },
            },
    {
        match Self::buffer_ref(fetched) {
            Err(e) => Err(e),
            Ok(buf) => Ok(buf.len() - FUZZ_INPUT_HEADER_LEN),
        }
    }

    /// Writes one testcase into the guest's input buffer. Call this when the
    /// guest asks for an input, then run the VM again.
    ///
    /// An over-large input is the caller's bug (the fuzzer should respect
    /// [`capacity`](Self::capacity)), so it is a hard error rather than a
    /// truncation, and nothing is written.
    ///
    /// The header's guest-written words are zeroed, so the outcome read after
    /// the run is always the guest's report on this input and never a leftover
    /// from the checkpoint it forked from.
    pub fn serve(&self, fetched: Option<&mut [u8]>, input: &[u8]) -> (done: Result<
        (),
        FuzzInputError,
    >)
        requires
            fetched matches Some(bytes) ==> FUZZ_INPUT_HEADER_LEN + input@.len() <= bytes@.len()
                ==> input@.len() <= i64::MAX,
        ensures
            match fetched {
                None => done == Err::<(), _>(FuzzInputError::Disappeared),
                Some(bytes) => if bytes@.len() < FUZZ_INPUT_HEADER_LEN {
                    &&& done == Err::<(), _>(FuzzInputError::BufferTooSmall)
                    &&& final(bytes)@ == bytes@
                } else if input@.len() > payload(bytes@).len() {
                    &&& done == Err::<(), _>(
                        FuzzInputError::InputTooLarge {
                            len: input@.len() as usize,
                            capacity: payload(bytes@).len() as usize,
                        },
                    )
                    &&& final(bytes)@ == bytes@
                } else {
                    &&& done == Ok::<(), FuzzInputError>(())
                    &&& final(bytes)@ == served(bytes@, input@)
                },
            },
    {
        match Self::buffer(fetched) {
            Err(e) => Err(e),
            Ok(buf) => {
                let capacity: usize = buf.len() - FUZZ_INPUT_HEADER_LEN;
                if input.len() > capacity {
                    return Err(FuzzInputError::InputTooLarge { len: input.len(), capacity });
                }
                proof {
                    law_response_read_back(
                        buf@,
                        input@.len() as i64,
                        FUZZ_INPUT_HEADER_LEN as nat,
                    );
                }
                write_result(buf, input.len() as i64);
                copy_bytes(buf, FUZZ_INPUT_HEADER_LEN, input);
                Ok(())
            },
        }
    }

    /// Tells the guest that there are no more inputs, so it should shut down.
    pub fn serve_eof(&self, fetched: Option<&mut [u8]>) -> (done: Result<(), FuzzInputError>)
        ensures
            match fetched {
                None => done == Err::<(), _>(FuzzInputError::Disappeared),
                Some(bytes) => if bytes@.len() < FUZZ_INPUT_HEADER_LEN {
                    &&& done == Err::<(), _>(FuzzInputError::BufferTooSmall)
                    &&& final(bytes)@ == bytes@
                } else {
                    &&& done == Ok::<(), FuzzInputError>(())
                    &&& final(bytes)@ == served_eof(bytes@)
                },
            },
    {
        match Self::buffer(fetched) {
            Err(e) => Err(e),
            Ok(buf) => {
                write_result(buf, FUZZ_INPUT_RESULT_EOF);
                Ok(())
            },
        }
    }

    /// Reads back what the guest reported about the testcase it just finished.
    ///
    /// The very first request follows the guest's setup, not a testcase, so
    /// its status is meaningless: that is the exit a fuzzer checkpoints at
    /// rather than scores.
    pub fn outcome(&self, fetched: Option<&[u8]>) -> (outcome: Result<FuzzOutcome, FuzzInputError>)
        ensures
            match fetched {
                None => outcome == Err::<FuzzOutcome, _>(FuzzInputError::Disappeared),
                Some(bytes) => if bytes@.len() < FUZZ_INPUT_HEADER_LEN {
                    outcome == Err::<FuzzOutcome, _>(FuzzInputError::BufferTooSmall)
                } else {
                    outcome matches Ok(report) && report@ == guest_outcome(bytes@)
                },
            },
    {
        match Self::buffer_ref(fetched) {
            Err(e) => Err(e),
            Ok(buf) => {
                let status: u64 = read_word(buf, 8, 8);
                let message: String = if status == STATUS_FAIL {
                    read_text(message_bytes(buf))
                } else {
                    String::new()
                };
                Ok(FuzzOutcome::from_status(status, message))
            },
        }
    }

    /// The raw aux word that the guest wrote.
    ///
    /// Only meaningful to a guest and host that agree on what it holds; the
    /// harness ABI uses it for the length of a `Fail` message.
    pub fn aux(&self, fetched: Option<&[u8]>) -> (aux: Result<u64, FuzzInputError>)
        ensures
            match fetched {
                None => aux == Err::<u64, _>(FuzzInputError::Disappeared),
                Some(bytes) => if bytes@.len() < FUZZ_INPUT_HEADER_LEN {
                    aux == Err::<u64, _>(FuzzInputError::BufferTooSmall)
                } else {
                    aux == Ok::<_, FuzzInputError>(guest_aux(bytes@))
                },
            },
    {
        match Self::buffer_ref(fetched) {
            Err(e) => Err(e),
            Ok(buf) => Ok(read_word(buf, 16, 8)),
        }
    }
}

/// The bytes of the guest's message.
///
/// The guest is the untrusted side of this boundary: its length is clamped to
/// the buffer rather than trusted.
pub fn message_bytes(buf: &[u8]) -> (message: &[u8])
    requires
        buf@.len() >= FUZZ_INPUT_HEADER_LEN,
    ensures
        message@ == guest_message(buf@),
        message@ == buf@.subrange(
            FUZZ_INPUT_HEADER_LEN as int,
            FUZZ_INPUT_HEADER_LEN + message@.len(),
        ),
{
    let len: u64 = read_word(buf, 16, 8);
    let room: usize = buf.len() - FUZZ_INPUT_HEADER_LEN;
    let end: usize = if len <= room as u64 {
        FUZZ_INPUT_HEADER_LEN + len as usize
    } else {
        buf.len()
    };
    let message: &[u8] = &buf[FUZZ_INPUT_HEADER_LEN..end];
    assert(message@ =~= guest_message(buf@));
    message
}

/// Writes the result word into the buffer header and zeroes the rest of the
/// header, the guest-written status and aux words included, so each run starts
/// from a clean slate.
fn write_result(buf: &mut [u8], result: i64)
    requires
        old(buf)@.len() >= FUZZ_INPUT_HEADER_LEN,
    ensures
        final(buf)@ == with_response(old(buf)@, result, FUZZ_INPUT_HEADER_LEN as nat),
{
    write_header(buf, FUZZ_INPUT_HEADER_LEN, result);
}

/// A served buffer holds the input's length in its result word, zeros in the
/// rest of its header, and the input behind the header; what was behind the
/// input stays.
pub proof fn law_serve_delivers(buf: Seq<u8>, input: Seq<u8>)
    requires
        FUZZ_INPUT_HEADER_LEN + input.len() <= buf.len(),
        input.len() <= i64::MAX,
    ensures
        served(buf, input).len() == buf.len(),
        i64_value(served(buf, input).subrange(0, 8)) == input.len(),
        forall|i: int|
            8 <= i < FUZZ_INPUT_HEADER_LEN ==> #[trigger] served(buf, input)[i] == 0,
        payload(served(buf, input)).take(input.len() as int) == input,
        payload(served(buf, input)).skip(input.len() as int) == payload(buf).skip(
            input.len() as int,
        ),
{
    let header_len = FUZZ_INPUT_HEADER_LEN as nat;
    let result = input.len() as i64;
    law_response_read_back(buf, result, header_len);
    let headed = with_response(buf, result, header_len);
    let after = served(buf, input);
    assert(after.subrange(0, 8) =~= headed.subrange(0, 8));
    assert(payload(after).take(input.len() as int) =~= input);
    assert(payload(after).skip(input.len() as int) =~= payload(buf).skip(input.len() as int));
}

/// After the end of the inputs was served the result word is the end mark, and
/// the payload is as it was.
pub proof fn law_eof_delivers(buf: Seq<u8>)
    requires
        FUZZ_INPUT_HEADER_LEN <= buf.len(),
    ensures
        served_eof(buf).len() == buf.len(),
        i64_value(served_eof(buf).subrange(0, 8)) == FUZZ_INPUT_RESULT_EOF,
        payload(served_eof(buf)) == payload(buf),
{
    law_response_read_back(buf, FUZZ_INPUT_RESULT_EOF, FUZZ_INPUT_HEADER_LEN as nat);
    assert(payload(served_eof(buf)) =~= payload(buf));
}

/// No input can be mistaken for the end of the inputs.
pub proof fn law_input_is_not_eof(buf: Seq<u8>, input: Seq<u8>)
    requires
        FUZZ_INPUT_HEADER_LEN + input.len() <= buf.len(),
        input.len() <= i64::MAX,
    ensures
        i64_value(served(buf, input).subrange(0, 8)) != FUZZ_INPUT_RESULT_EOF,
{
    law_serve_delivers(buf, input);
}

proof fn lemma_zero_words(buf: Seq<u8>)
    requires
        FUZZ_INPUT_HEADER_LEN <= buf.len(),
        forall|i: int| 8 <= i < FUZZ_INPUT_HEADER_LEN ==> #[trigger] buf[i] == 0,
    ensures
        guest_status(buf) == STATUS_OK,
        guest_aux(buf) == 0,
        guest_outcome(buf) == FuzzOutcomeView::Pass,
{
    lemma_zero_bytes(buf.subrange(8, 16));
    lemma_zero_bytes(buf.subrange(16, 24));
}

/// Serving clears the guest's report: whatever the buffer held, the status and
/// aux words read as zero until the guest writes them.
pub proof fn law_serve_clears_report(buf: Seq<u8>, input: Seq<u8>)
    requires
        FUZZ_INPUT_HEADER_LEN + input.len() <= buf.len(),
        input.len() <= i64::MAX,
    ensures
        guest_status(served(buf, input)) == STATUS_OK,
        guest_aux(served(buf, input)) == 0,
        guest_outcome(served(buf, input)) == FuzzOutcomeView::Pass,
{
    law_serve_delivers(buf, input);
    lemma_zero_words(served(buf, input));
}

/// Serving the end of the inputs clears the guest's report too.
pub proof fn law_eof_clears_report(buf: Seq<u8>)
    requires
        FUZZ_INPUT_HEADER_LEN <= buf.len(),
    ensures
        guest_status(served_eof(buf)) == STATUS_OK,
        guest_aux(served_eof(buf)) == 0,
        guest_outcome(served_eof(buf)) == FuzzOutcomeView::Pass,
{
    law_response_read_back(buf, FUZZ_INPUT_RESULT_EOF, FUZZ_INPUT_HEADER_LEN as nat);
    lemma_zero_words(served_eof(buf));
}

/// What a guest finds in the header and in its input depends on the input
/// alone, not on what the buffer held before.
pub proof fn law_serve_depends_on_input_only(buf: Seq<u8>, other: Seq<u8>, input: Seq<u8>)
    requires
        FUZZ_INPUT_HEADER_LEN + input.len() <= buf.len(),
        FUZZ_INPUT_HEADER_LEN + input.len() <= other.len(),
        input.len() <= i64::MAX,
    ensures
        served(buf, input).take(FUZZ_INPUT_HEADER_LEN + input.len()) == served(other, input).take(
            FUZZ_INPUT_HEADER_LEN + input.len(),
        ),
{
    law_i64_round_trip(input.len() as i64);
    assert(served(buf, input).take(FUZZ_INPUT_HEADER_LEN + input.len()) =~= served(
        other,
        input,
    ).take(FUZZ_INPUT_HEADER_LEN + input.len()));
}

/// Serving again replaces the earlier input: where the new one is no shorter,
/// nothing of the earlier one is left, and where it is shorter, the rest of the
/// earlier one stays behind it.
pub proof fn law_serve_replaces(buf: Seq<u8>, earlier: Seq<u8>, input: Seq<u8>)
    requires
        FUZZ_INPUT_HEADER_LEN + earlier.len() <= buf.len(),
        FUZZ_INPUT_HEADER_LEN + input.len() <= buf.len(),
        earlier.len() <= i64::MAX,
        input.len() <= i64::MAX,
    ensures
        earlier.len() <= input.len() ==> served(served(buf, earlier), input) == served(buf, input),
        input.len() < earlier.len() ==> payload(served(served(buf, earlier), input)).subrange(
            input.len() as int,
            earlier.len() as int,
        ) == earlier.skip(input.len() as int),
{
    law_i64_round_trip(input.len() as i64);
    law_i64_round_trip(earlier.len() as i64);
    if earlier.len() <= input.len() {
        assert(served(served(buf, earlier), input) =~= served(buf, input));
    } else {
        law_serve_delivers(buf, earlier);
        let once = served(buf, earlier);
        law_serve_delivers(once, input);
        let twice = served(once, input);
        assert forall|i: int| input.len() <= i < earlier.len() implies #[trigger] payload(twice)[i]
            == earlier[i] by {
            assert(payload(twice).skip(input.len() as int)[i - input.len()] == payload(once).skip(
                input.len() as int,
            )[i - input.len()]);
            assert(payload(once).take(earlier.len() as int)[i] == earlier[i]);
        }
        assert(payload(twice).subrange(input.len() as int, earlier.len() as int) =~= earlier.skip(
            input.len() as int,
        ));
    }
}

/// A buffer after the guest wrote its report: the status and aux words, and a
/// message at the start of the payload.
pub open spec fn reported(buf: Seq<u8>, status: u64, aux: u64, message: Seq<u8>) -> Seq<u8> {
    with_bytes(
        with_bytes(buf, 8, le_bytes(status as nat, 8) + le_bytes(aux as nat, 8)),
        FUZZ_INPUT_HEADER_LEN as int,
        message,
    )
}

/// The host reads back the report that the guest wrote: the status and aux
/// words as they are, and for a failure the message whose length is in aux.
pub proof fn law_report_read_back(buf: Seq<u8>, status: u64, aux: u64, message: Seq<u8>)
    requires
        FUZZ_INPUT_HEADER_LEN + message.len() <= buf.len(),
    ensures
        guest_status(reported(buf, status, aux, message)) == status,
        guest_aux(reported(buf, status, aux, message)) == aux,
        aux == message.len() ==> guest_message(reported(buf, status, aux, message)) == message,
        aux == message.len() ==> guest_outcome(reported(buf, status, aux, message)) == outcome_of(
            status,
            text_of(message),
        ),
{
    let after = reported(buf, status, aux, message);
    reveal_with_fuel(word_values, 9);
    lemma_le_bytes_len(status as nat, 8);
    lemma_le_bytes_len(aux as nat, 8);
    law_word_round_trip(status as nat, 8);
    law_word_round_trip(aux as nat, 8);
    assert(after.subrange(8, 16) =~= le_bytes(status as nat, 8));
    assert(after.subrange(16, 24) =~= le_bytes(aux as nat, 8));
    if aux == message.len() {
        assert(payload(after).take(aux as int) =~= message);
    }
}

/// The message of a failure is the text that the guest wrote as UTF-8.
pub proof fn law_failure_text_read_back(buf: Seq<u8>, text: Seq<char>)
    requires
        FUZZ_INPUT_HEADER_LEN + encode_utf8(text).len() <= buf.len(),
        encode_utf8(text).len() <= u64::MAX,
    ensures
        guest_outcome(
            reported(buf, STATUS_FAIL, encode_utf8(text).len() as u64, encode_utf8(text)),
        ) == FuzzOutcomeView::Fail(text),
{
    law_report_read_back(buf, STATUS_FAIL, encode_utf8(text).len() as u64, encode_utf8(text));
    law_text_survives(text);
}

/// Whatever length the guest claims, its message is a prefix of the payload.
pub proof fn law_message_stays_in_buffer(buf: Seq<u8>)
    requires
        FUZZ_INPUT_HEADER_LEN <= buf.len(),
    ensures
        guest_message(buf).len() <= payload(buf).len(),
        guest_message(buf) == payload(buf).take(guest_message(buf).len() as int),
        guest_message(buf).len() <= guest_aux(buf),
{
    assert(payload(buf).take(payload(buf).len() as int) =~= payload(buf));
}

/// What an operation gets to see of a VM: the bytes of the slot that its walk
/// led to, or why there are none.
pub open spec fn reached_buffer<E>(vm: VmAnswers<E>, cached: Option<usize>) -> Result<
    Seq<u8>,
    Failure<E, FuzzInputError>,
> {
    match channel_walk(vm, Channel::FuzzInput, FuzzInputError::NotRegistered, cached).end {
        Err(e) => Err(e),
        Ok(request) => match accepted_buffer((vm.bytes)(request->Fetch_slot)) {
            Ok(bytes) => Ok(bytes),
            Err(e) => Err(Failure::Channel(e)),
        },
    }
}

/// A server that reached the buffer of one VM serves any fork in the fork's own
/// pages: the slot is not looked up again and stays cached, the fork is asked to
/// map that slot where it has not yet, and the bytes are the fork's.
pub proof fn law_fork_uses_its_own_buffer<E>(
    vm: VmAnswers<E>,
    cached: Option<usize>,
    fork: VmAnswers<E>,
)
    requires
        reached_buffer(vm, cached) is Ok,
    ensures
        ({
            let missing = FuzzInputError::NotRegistered;
            let first = channel_walk(vm, Channel::FuzzInput, missing, cached);
            let second = channel_walk(fork, Channel::FuzzInput, missing, first.cached);
            let slot = first.end->Ok_0->Fetch_slot;
            &&& first.end == Ok::<_, Failure<E, FuzzInputError>>(VmRequest::Fetch { slot })
            &&& first.cached == Some(slot)
            &&& second.cached == Some(slot)
            &&& (fork.mapped)(slot) ==> second.asked == seq![
                VmRequest::CheckMapped { slot },
                VmRequest::Fetch { slot },
            ]
            &&& !(fork.mapped)(slot) && (fork.mapping)(slot) is Ok ==> second.asked == seq![
                VmRequest::CheckMapped { slot },
                VmRequest::MapSlot { slot },
                VmRequest::Fetch { slot },
            ]
            &&& (fork.mapped)(slot) || (fork.mapping)(slot) is Ok ==> reached_buffer(
                fork,
                first.cached,
            ) == match accepted_buffer((fork.bytes)(slot)) {
                Ok(bytes) => Ok::<_, Failure<E, FuzzInputError>>(bytes),
                Err(e) => Err(Failure::Channel(e)),
            }
        }),
{
    let missing = FuzzInputError::NotRegistered;
    law_walk_locates_buffer(vm, Channel::FuzzInput, missing, cached);
    let first = channel_walk(vm, Channel::FuzzInput, missing, cached);
    let slot = located(vm, Channel::FuzzInput, missing, cached)->Ok_0;
    assert(first.cached == Some(slot));
    law_walk_locates_buffer(fork, Channel::FuzzInput, missing, first.cached);
    law_each_vm_maps_the_cached_slot(fork, Channel::FuzzInput, missing, slot);
}

/// A status word of zero is a pass, one is a skip, two is a failure with the
/// guest's message, and every other word is unknown and kept as it is.
pub proof fn law_status_words_mean_outcomes(status: u64, message: Seq<char>)
    ensures
        outcome_of(0, message) == FuzzOutcomeView::Pass,
        outcome_of(1, message) == FuzzOutcomeView::Skip,
        outcome_of(2, message) == FuzzOutcomeView::Fail(message),
        status > 2 ==> outcome_of(status, message) == FuzzOutcomeView::Unknown(status),
{
}

/// The host learns from a guest's report what the guest put there: whether it
/// passed, skipped or failed, the whole text of a failure, and any other status
/// word.
pub proof fn law_report_tells_the_outcome(
    buf: Seq<u8>,
    status: u64,
    aux: u64,
    message: Seq<u8>,
    text: Seq<char>,
)
    requires
        FUZZ_INPUT_HEADER_LEN + message.len() <= buf.len(),
        FUZZ_INPUT_HEADER_LEN + encode_utf8(text).len() <= buf.len(),
        encode_utf8(text).len() <= u64::MAX,
    ensures
        guest_outcome(reported(buf, 0, aux, message)) == FuzzOutcomeView::Pass,
        guest_outcome(reported(buf, 1, aux, message)) == FuzzOutcomeView::Skip,
        guest_outcome(reported(buf, 2, encode_utf8(text).len() as u64, encode_utf8(text)))
            == FuzzOutcomeView::Fail(text),
        status > 2 ==> guest_outcome(reported(buf, status, aux, message))
            == FuzzOutcomeView::Unknown(status),
        guest_aux(reported(buf, status, aux, message)) == aux,
{
    law_report_read_back(buf, 0, aux, message);
    law_report_read_back(buf, 1, aux, message);
    law_report_read_back(buf, status, aux, message);
    law_failure_text_read_back(buf, text);
}

/// The status and aux words are the little-endian words at bytes 8 and 16.
pub proof fn law_report_words_are_in_the_header(buf: Seq<u8>)
    requires
        FUZZ_INPUT_HEADER_LEN <= buf.len(),
    ensures
        guest_status(buf) == le_value(buf.subrange(8, 16)),
        guest_aux(buf) == le_value(buf.subrange(16, 24)),
{
    reveal_with_fuel(word_values, 9);
    lemma_le_value_bound(buf.subrange(8, 16));
    lemma_le_value_bound(buf.subrange(16, 24));
}

/// The message is as long as the guest says, or as long as there is room for
/// where the guest claims more, and it is what stands right behind the header.
pub proof fn law_message_is_what_the_guest_wrote(buf: Seq<u8>)
    requires
        FUZZ_INPUT_HEADER_LEN <= buf.len(),
    ensures
        guest_message(buf).len() == if guest_aux(buf) <= buf.len() - 32 {
            guest_aux(buf) as int
        } else {
            buf.len() - 32
        },
        forall|i: int|
            0 <= i < guest_message(buf).len() ==> #[trigger] guest_message(buf)[i] == buf[32 + i],
        guest_status(buf) == 2 ==> guest_outcome(buf) == FuzzOutcomeView::Fail(
            text_of(guest_message(buf)),
        ),
{
}

/// Byte for byte, a served buffer holds the input behind 24 zeros behind its
/// length, and is otherwise as it was; the end of the inputs changes nothing but
/// the header.
pub proof fn law_served_bytes(buf: Seq<u8>, input: Seq<u8>)
    requires
        FUZZ_INPUT_HEADER_LEN + input.len() <= buf.len(),
        input.len() <= i64::MAX,
    ensures
        served(buf, input).len() == buf.len(),
        le_value(served(buf, input).subrange(0, 8)) == input.len(),
        forall|i: int|
            8 <= i < buf.len() ==> #[trigger] served(buf, input)[i] == if i < 32 {
                0
            } else if i < 32 + input.len() {
                input[i - 32]
            } else {
                buf[i]
            },
        served_eof(buf).len() == buf.len(),
        i64_value(served_eof(buf).subrange(0, 8)) == -1,
        forall|i: int|
            8 <= i < buf.len() ==> #[trigger] served_eof(buf)[i] == if i < 32 {
                0
            } else {
                buf[i]
            },
{
    let result = input.len() as i64;
    law_response_read_back(buf, result, FUZZ_INPUT_HEADER_LEN as nat);
    law_response_read_back(buf, FUZZ_INPUT_RESULT_EOF, FUZZ_INPUT_HEADER_LEN as nat);
    let headed = with_response(buf, result, FUZZ_INPUT_HEADER_LEN as nat);
    assert(served(buf, input).subrange(0, 8) =~= headed.subrange(0, 8));
    law_signed_word_is_twos_complement(result, headed.subrange(0, 8));
}

/// The payload is what stands behind the 32 bytes of the header, all of it.
pub proof fn law_payload_is_behind_the_header(buf: Seq<u8>)
    requires
        FUZZ_INPUT_HEADER_LEN <= buf.len(),
    ensures
        payload(buf).len() == buf.len() - 32,
        forall|i: int| 0 <= i < payload(buf).len() ==> #[trigger] payload(buf)[i] == buf[32 + i],
{
}

/// Every buffer that has room for a header is accepted, whatever it holds, and
/// none that has not.
pub proof fn law_header_is_all_a_buffer_needs(bytes: Seq<u8>)
    ensures
        accepted_buffer(None) == Err::<Seq<u8>, _>(FuzzInputError::Disappeared),
        bytes.len() < 32 ==> accepted_buffer(Some(bytes)) == Err::<Seq<u8>, _>(
            FuzzInputError::BufferTooSmall,
        ),
        bytes.len() >= 32 ==> accepted_buffer(Some(bytes)) == Ok::<_, FuzzInputError>(bytes),
{
}

/// What an outcome is seen as tells outcomes apart: the variants, the whole
/// message of a failure, and the whole of an unknown word.
pub proof fn law_outcomes_are_told_apart(message: String, status: u64)
    ensures
        FuzzOutcome::Pass@ == FuzzOutcomeView::Pass,
        FuzzOutcome::Skip@ == FuzzOutcomeView::Skip,
        FuzzOutcome::Fail(message)@ == FuzzOutcomeView::Fail(message@),
        FuzzOutcome::Unknown(status)@ == FuzzOutcomeView::Unknown(status),
{
}

/// Each failure has its kind and its words, and an input that is too large is
/// reported with both of its sizes, whatever they are.
pub proof fn law_failures_say_what_happened(len: usize, capacity: usize)
    ensures
        FuzzInputError::NotRegistered.spec_kind() == ErrorKind::NotFound,
        FuzzInputError::Disappeared.spec_kind() == ErrorKind::Other,
        FuzzInputError::BufferTooSmall.spec_kind() == ErrorKind::InvalidData,
        (FuzzInputError::InputTooLarge { len, capacity }).spec_kind() == ErrorKind::InvalidInput,
        (FuzzInputError::InputTooLarge { len, capacity }).spec_message() == "fuzz input of "@
            + decimal(len as nat) + " bytes exceeds the guest's "@ + decimal(capacity as nat)
            + "-byte input buffer"@,
{
}

} // verus!
