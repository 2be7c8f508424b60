//! Inputs and scores for measuring fork-per-testcase throughput.
//!
//! The bench guest does nothing but sum the bytes of each input, and reports
//! the sum in its aux word. The host makes every testcase's bytes depend on its
//! number, and no two testcases of a campaign agree
//! ([`law_no_two_testcases_agree`](crate::generator::law_no_two_testcases_agree)),
//! so a fork that wrongly inherited a sibling's bytes computes the sum of other
//! bytes. Sums can coincide where bytes differ; the checksum catches what makes
//! a difference to it.

use vstd::prelude::*;

use crate::fuzz_input::FuzzOutcome;
use crate::generator::SEED_MULTIPLIER;
#[allow(unused_imports)]
use crate::generator::{byte_of, generated, state_after};
use crate::text::push_decimal;
#[allow(unused_imports)]
use crate::text::decimal;

verus! {

/// A testcase whose bytes depend on `seed`.
pub fn synthetic_input(seed: usize, len: usize) -> (input: Vec<u8>)
    ensures
        input@ == generated(seed, len as nat),
{
    let mut state: u64 = (seed as u64).wrapping_mul(SEED_MULTIPLIER) | 1;
    let mut input: Vec<u8> = Vec::new();
    let mut i: usize = 0;
    while i < len
        invariant
            i <= len,
            input@.len() == i,
            state == state_after(seed, i as nat),
            forall|j: int|
                0 <= j < i ==> input@[j] == byte_of(state_after(seed, (j + 1) as nat)),
        decreases len - i,
    {
        state = state ^ (state << 13);
        state = state ^ (state >> 7);
        state = state ^ (state << 17);
        assert(state == state_after(seed, (i + 1) as nat));
        input.push(
            #[verifier::truncate]
            ((state >> 24) as u8),
        );
        i = i + 1;
    }
    assert(input@ =~= generated(seed, len as nat));
    input
}

/// Byte `i` of the fixed testcase: `7 * i + 13`, reduced to a byte.
pub open spec fn pattern_byte(i: int) -> u8 {
    ((7 * i + 13) % 256) as u8
}

proof fn lemma_pattern_step(i: int)
    ensures
        pattern_byte(i + 1) == (pattern_byte(i) + 7) % 256,
{
    assert((7 * (i + 1) + 13) % 256 == ((7 * i + 13) % 256 + 7) % 256);
}

/// The fixed testcase of a replay check.
pub fn patterned_input(len: usize) -> (input: Vec<u8>)
    ensures
        input@ == Seq::new(len as nat, |i: int| pattern_byte(i)),
{
    let mut input: Vec<u8> = Vec::new();
    let mut byte: u8 = 13;
    let mut i: usize = 0;
    while i < len
        invariant
            i <= len,
            input@.len() == i,
            byte == pattern_byte(i as int),
            forall|j: int| 0 <= j < i ==> input@[j] == pattern_byte(j),
        decreases len - i,
    {
        input.push(byte);
        proof {
            lemma_pattern_step(i as int);
        }
        byte = ((byte as u16 + 7) % 256) as u8;
        i = i + 1;
    }
    assert(input@ =~= Seq::new(len as nat, |i: int| pattern_byte(i)));
    input
}

/// The sum of some bytes.
pub open spec fn byte_sum(bytes: Seq<u8>) -> nat
    decreases bytes.len(),
{
    if bytes.len() == 0 {
        0
    } else {
        byte_sum(bytes.drop_last()) + bytes.last() as nat
    }
}

proof fn lemma_prefix_sum(bytes: Seq<u8>, count: int)
    requires
        0 <= count <= bytes.len(),
    ensures
        byte_sum(bytes.take(count)) <= byte_sum(bytes),
    decreases bytes.len() - count,
{
    if count == bytes.len() {
        assert(bytes.take(count) =~= bytes);
    } else {
        lemma_prefix_sum(bytes, count + 1);
        assert(bytes.take(count + 1).drop_last() =~= bytes.take(count));
    }
}

/// The checksum that the bench guest computes over an input.
pub fn checksum(input: &[u8]) -> (sum: u64)
    requires
        byte_sum(input@) <= u64::MAX,
    ensures
        sum == byte_sum(input@),
{
    let mut sum: u64 = 0;
    let mut i: usize = 0;
    assert(input@.take(0) =~= Seq::empty());
    while i < input.len()
        invariant
            i <= input@.len(),
            byte_sum(input@) <= u64::MAX,
            sum == byte_sum(input@.take(i as int)),
        decreases input@.len() - i,
    {
        proof {
            lemma_prefix_sum(input@, i + 1);
            assert(input@.take(i + 1).drop_last() =~= input@.take(i as int));
        }
        sum = sum + input[i] as u64;
        i = i + 1;
    }
    assert(input@.take(i as int) =~= input@);
    sum
}

/// The guest reported another checksum than that of the bytes it was served.
#[derive(Debug, Clone, Copy, PartialEq, Eq, Structural)]
pub struct ChecksumMismatch {
    pub got: u64,
    pub want: u64,
}

impl ChecksumMismatch {
    /// The text of this failure.
    pub open spec fn spec_message(self) -> Seq<char> {
        "checksum "@ + decimal(self.got as nat) + " != "@ + decimal(self.want as nat)
    }

    /// The text of this failure.
    pub fn message(&self) -> (text: String)
        ensures
            text@ == self.spec_message(),
    {
        let mut text: String = "checksum ".to_owned();
        push_decimal(&mut text, self.got);
        text.append(" != ");
        push_decimal(&mut text, self.want);
        text
    }
}

/// Holds the checksum that the guest reported against the input that it was
/// served.
pub fn check_delivery(input: &[u8], got: u64) -> (delivered: Result<(), ChecksumMismatch>)
    requires
        byte_sum(input@) <= u64::MAX,
    ensures
        delivered == if got == byte_sum(input@) {
            Ok(())
        } else {
            Err(ChecksumMismatch { got, want: byte_sum(input@) as u64 })
        },
{
    let want: u64 = checksum(input);
    if got == want {
        Ok(())
    } else {
        Err(ChecksumMismatch { got, want })
    }
}

/// How one testcase of the bench ended.
#[derive(Debug)]
pub enum BenchRun {
    /// The guest asked for its next input, which is how it says that it is
    /// done, with this report. The aux word comes with a pass.
    Finished { outcome: FuzzOutcome, aux: Option<u64> },
    /// The testcase ran out of time, or ended in any other way.
    NotFinished,
}

/// How many testcases were executed, and how many of those gave the right
/// checksum. A testcase that the guest skipped was not executed.
#[derive(Debug, Clone, Copy, PartialEq, Eq, Structural)]
pub struct BenchScore {
    pub executed: usize,
    pub verified: usize,
}

impl BenchScore {
    /// The score after one more testcase with the checksum `expected`.
    pub open spec fn spec_after(self, run: BenchRun, expected: u64) -> BenchScore {
        match run {
            BenchRun::NotFinished => self,
            BenchRun::Finished { outcome: FuzzOutcome::Skip, .. } => self,
            BenchRun::Finished { outcome, aux } => BenchScore {
                executed: (self.executed + 1) as usize,
                verified: if outcome is Pass && aux == Some(expected) {
                    (self.verified + 1) as usize
                } else {
                    self.verified
                },
            },
        }
    }

    /// Counts one more testcase, whose input has the checksum `expected`.
    pub fn record(&mut self, run: &BenchRun, expected: u64)
        requires
            old(self).verified <= old(self).executed < usize::MAX,
        ensures
            *final(self) == old(self).spec_after(*run, expected),
            final(self).verified <= final(self).executed <= old(self).executed + 1,
    {
        match run {
            BenchRun::NotFinished => {},
            BenchRun::Finished { outcome: FuzzOutcome::Skip, .. } => {},
            BenchRun::Finished { outcome: FuzzOutcome::Pass, aux } => {
                self.executed = self.executed + 1;
                if let Some(sum) = aux {
                    if *sum == expected {
                        self.verified = self.verified + 1;
                    }
                }
            },
            BenchRun::Finished { .. } => {
                self.executed = self.executed + 1;
            },
        }
    }

    /// Whether every one of `iterations` testcases was executed and verified.
    pub fn is_complete(&self, iterations: usize) -> (complete: bool)
        ensures
            complete == (self.verified == iterations),
    {
        self.verified == iterations
    }
}

/// The guest's command line: each knob that is not zero is appended to the
/// base, the resident set first.
pub open spec fn cmdline_with(base: Seq<char>, ballast_mb: nat, work: nat) -> Seq<char> {
    let ballasted = if ballast_mb > 0 {
        base + " ballast="@ + decimal(ballast_mb)
    } else {
        base
    };
    if work > 0 {
        ballasted + " work="@ + decimal(work)
    } else {
        ballasted
    }
}

/// Tells the guest on its command line how many megabytes to touch before it
/// asks for its first input, and how much work to do per testcase.
pub fn guest_cmdline(base: &str, ballast_mb: usize, work: u64) -> (cmdline: String)
    ensures
        cmdline@ == cmdline_with(base@, ballast_mb as nat, work as nat),
{
    let mut cmdline: String = base.to_owned();
    if ballast_mb > 0 {
        cmdline.append(" ballast=");
        push_decimal(&mut cmdline, ballast_mb as u64);
    }
    if work > 0 {
        cmdline.append(" work=");
        push_decimal(&mut cmdline, work);
    }
    cmdline
}

/// Every byte counts, at every length: no bytes sum to zero, one byte to itself,
/// and bytes behind one another to the sum of both parts.
pub proof fn law_sum_is_the_sum_of_the_parts(front: Seq<u8>, back: Seq<u8>, byte: u8)
    ensures
        byte_sum(Seq::empty()) == 0,
        byte_sum(seq![byte]) == byte,
        byte_sum(front + back) == byte_sum(front) + byte_sum(back),
    decreases back.len(),
{
    assert(seq![byte].drop_last() =~= Seq::empty());
    assert(byte_sum(seq![byte].drop_last()) == 0);
    if back.len() == 0 {
        assert(front + back =~= front);
    } else {
        law_sum_is_the_sum_of_the_parts(front, back.drop_last(), byte);
        assert((front + back).drop_last() =~= front + back.drop_last());
    }
}

/// Putting another byte in one place changes the sum by the difference of the
/// two bytes, wherever the place is; so every changed byte changes the checksum.
pub proof fn law_each_byte_changes_the_sum(bytes: Seq<u8>, place: int, byte: u8)
    requires
        0 <= place < bytes.len(),
    ensures
        byte_sum(bytes.update(place, byte)) - byte_sum(bytes) == byte - bytes[place],
        byte != bytes[place] ==> byte_sum(bytes.update(place, byte)) != byte_sum(bytes),
{
    let front = bytes.take(place);
    let back = bytes.skip(place + 1);
    let (old_byte, new_byte) = (seq![bytes[place]], seq![byte]);
    assert(bytes =~= front + old_byte + back);
    assert(bytes.update(place, byte) =~= front + new_byte + back);
    law_sum_is_the_sum_of_the_parts(front + old_byte, back, bytes[place]);
    law_sum_is_the_sum_of_the_parts(front, old_byte, bytes[place]);
    law_sum_is_the_sum_of_the_parts(front + new_byte, back, byte);
    law_sum_is_the_sum_of_the_parts(front, new_byte, byte);
}

/// The fixed testcase starts at 13, goes up by 7 with each byte, around at 256,
/// and repeats after 256 bytes.
pub proof fn law_pattern_goes_up_by_seven(i: int)
    requires
        i >= 0,
    ensures
        pattern_byte(i) == (7 * i + 13) % 256,
        pattern_byte(0) == 13,
        pattern_byte(i + 1) == if pattern_byte(i) < 249 {
            pattern_byte(i) + 7
        } else {
            pattern_byte(i) - 249
        },
        pattern_byte(i + 256) == pattern_byte(i),
{
    let x = 7 * i + 13;
    assert(0 <= x % 256 < 256);
    lemma_pattern_step(i);
    vstd::arithmetic::div_mod::lemma_mod_multiples_vanish(7, x, 256);
    assert(7 * (i + 256) + 13 == 256 * 7 + x);
}

/// One more testcase counts as executed exactly if the guest finished it and did
/// not skip it, and as verified exactly if the guest passed it and its aux word
/// is the expected checksum. No other count changes.
pub proof fn law_testcase_is_scored_by_its_report(score: BenchScore, run: BenchRun, expected: u64)
    requires
        score.executed < usize::MAX,
        score.verified < usize::MAX,
    ensures
        score.spec_after(run, expected).executed == score.executed + if run is Finished
            && !(run->outcome is Skip) {
            1int
        } else {
            0
        },
        score.spec_after(run, expected).verified == score.verified + if run is Finished
            && run->outcome is Pass && run->aux == Some(expected) {
            1int
        } else {
            0
        },
{
}

/// The score after some testcases, each with its expected checksum.
pub open spec fn score_of(runs: Seq<(BenchRun, u64)>) -> BenchScore
    decreases runs.len(),
{
    if runs.len() == 0 {
        BenchScore { executed: 0, verified: 0 }
    } else {
        score_of(runs.drop_last()).spec_after(runs.last().0, runs.last().1)
    }
}

/// After any run of testcases, `executed` is the number of those that the guest
/// finished and did not skip, and `verified` the number of those that it passed
/// with the expected checksum.
pub proof fn law_score_counts_the_testcases(runs: Seq<(BenchRun, u64)>)
    requires
        runs.len() <= usize::MAX,
    ensures
        score_of(runs).executed == runs.filter(
            |run: (BenchRun, u64)| run.0 is Finished && !(run.0->outcome is Skip),
        ).len(),
        score_of(runs).verified == runs.filter(
            |run: (BenchRun, u64)|
                run.0 is Finished && run.0->outcome is Pass && run.0->aux == Some(run.1),
        ).len(),
        score_of(runs).executed <= runs.len(),
        score_of(runs).verified <= runs.len(),
    decreases runs.len(),
{
    reveal(Seq::filter);
    if runs.len() > 0 {
        let earlier = runs.drop_last();
        law_score_counts_the_testcases(earlier);
        law_testcase_is_scored_by_its_report(
            score_of(earlier),
            runs.last().0,
            runs.last().1,
        );
    }
}

/// The guest is told each knob that is not zero, behind whatever the base says,
/// in decimal, and no other.
pub proof fn law_command_line_names_the_knobs(base: Seq<char>, ballast_mb: nat, work: nat)
    ensures
        cmdline_with(base, 0, 0) == base,
        ballast_mb > 0 ==> cmdline_with(base, ballast_mb, 0) == base + " ballast="@ + decimal(
            ballast_mb,
        ),
        work > 0 ==> cmdline_with(base, 0, work) == base + " work="@ + decimal(work),
        cmdline_with(base, ballast_mb, work) == cmdline_with(
            cmdline_with(base, ballast_mb, 0),
            0,
            work,
        ),
{
}

/// A mismatch is reported with both checksums, whatever they are.
pub proof fn law_mismatch_names_both_checksums(got: u64, want: u64)
    ensures
        (ChecksumMismatch { got, want }).spec_message() == "checksum "@ + decimal(got as nat)
            + " != "@ + decimal(want as nat),
{
}

} // verus!
