//! Judging whether replays of one testcase are deterministic.
//!
//! Replaying one input from one checkpoint has to give a bit-identical
//! execution. The exits of a replay are split by cause, because not all of them
//! can be reproduced: what the host imposes asynchronously is only counted, and
//! how many copy-on-write faults are taken also depends on host page state, so
//! those are compared only where their numbers agree. Everything else that the
//! guest's instruction stream causes must match exactly.
//!
//! A second pass samples a hash of guest memory along the run, and a negative
//! control makes sure that a flipped input byte is noticed at all.
//! [`ReplayCheck`] keeps what the replays of a check came to so far.

use vstd::prelude::*;

use crate::exit_trace::{compare, Divergence, ExitSnapshot};
#[allow(unused_imports)]
use crate::exit_trace::{divergence_view, law_divergence_is_unique, parts_at, DivergenceView};
use crate::fuzz_input::FuzzOutcome;
#[allow(unused_imports)]
use crate::fuzz_input::FuzzOutcomeView;

verus! {

/// VMX exit reason of an EPT violation: here, a copy-on-write fault.
pub const EPT_VIOLATION: u32 = 48;

/// VMX exit reason: a host interrupt landed while the guest ran.
pub const EXTERNAL_INTERRUPT: u32 = 1;

/// VMX exit reason: interrupt window.
pub const INTERRUPT_WINDOW: u32 = 7;

/// VMX exit reason: NMI window.
pub const NMI_WINDOW: u32 = 8;

/// VMX exit reason: the preemption timer fired.
pub const PREEMPTION_TIMER: u32 = 52;

/// Hypervisor exit reason: the run loop yielded, or a pool ran out.
pub const RUN_LOOP_YIELD: u32 = 256;

/// Hypervisor exit reason: the event buffer is full.
pub const EVENT_BUFFER_FULL: u32 = 267;

/// The exit reasons that the host imposes on the guest.
pub open spec fn host_reasons() -> Set<u32> {
    set![
        EXTERNAL_INTERRUPT,
        INTERRUPT_WINDOW,
        NMI_WINDOW,
        PREEMPTION_TIMER,
        RUN_LOOP_YIELD,
        EVENT_BUFFER_FULL,
    ]
}

/// Exit reasons that the host imposes on the guest asynchronously, and whose
/// count legitimately varies between otherwise identical runs.
pub fn is_host_asynchronous(reason: u32) -> (host: bool)
    ensures
        host == host_reasons().contains(reason),
{
    match reason {
        EXTERNAL_INTERRUPT => true,
        INTERRUPT_WINDOW => true,
        NMI_WINDOW => true,
        PREEMPTION_TIMER => true,
        RUN_LOOP_YIELD => true,
        EVENT_BUFFER_FULL => true,
        _ => false,
    }
}

/// Exits that the host imposed.
pub open spec fn host_exit() -> spec_fn(ExitSnapshot) -> bool {
    |exit: ExitSnapshot| host_reasons().contains(exit.exit_reason)
}

/// Copy-on-write faults of the guest.
pub open spec fn ept_exit() -> spec_fn(ExitSnapshot) -> bool {
    |exit: ExitSnapshot|
        !host_reasons().contains(exit.exit_reason) && exit.exit_reason == EPT_VIOLATION
}

/// All other exits that the guest caused.
pub open spec fn other_exit() -> spec_fn(ExitSnapshot) -> bool {
    |exit: ExitSnapshot|
        !host_reasons().contains(exit.exit_reason) && exit.exit_reason != EPT_VIOLATION
}

/// One replay's exits, split by how reproducible each class is.
#[derive(Debug)]
pub struct Replay {
    /// Guest-caused exits other than copy-on-write faults. Strictly compared.
    pub other: Vec<ExitSnapshot>,
    /// Copy-on-write faults. Compared when the counts agree.
    pub ept: Vec<ExitSnapshot>,
    /// Host-imposed asynchronous exits. Counted only.
    pub host: Vec<ExitSnapshot>,
    /// What the guest harness reported for the testcase.
    pub outcome: FuzzOutcome,
}

proof fn lemma_filter_step(
    exits: Seq<ExitSnapshot>,
    i: int,
    kept: spec_fn(ExitSnapshot) -> bool,
)
    requires
        0 <= i < exits.len(),
    ensures
        exits.take(i + 1).filter(kept) == if kept(exits[i]) {
            exits.take(i).filter(kept).push(exits[i])
        } else {
            exits.take(i).filter(kept)
        },
{
    reveal(Seq::filter);
    assert(exits.take(i + 1).drop_last() =~= exits.take(i));
}

impl Replay {
    /// Splits a replay's exits by cause, each class in the order of the run.
    pub fn split(exits: &[ExitSnapshot], outcome: FuzzOutcome) -> (replay: Replay)
        ensures
            replay.other@ == exits@.filter(other_exit()),
            replay.ept@ == exits@.filter(ept_exit()),
            replay.host@ == exits@.filter(host_exit()),
            replay.outcome == outcome,
    {
        let mut other: Vec<ExitSnapshot> = Vec::new();
        let mut ept: Vec<ExitSnapshot> = Vec::new();
        let mut host: Vec<ExitSnapshot> = Vec::new();
        let mut i: usize = 0;
        proof {
            reveal(Seq::filter);
            assert(exits@.take(0) =~= Seq::empty());
        }
        while i < exits.len()
            invariant
                i <= exits@.len(),
                other@ == exits@.take(i as int).filter(other_exit()),
                ept@ == exits@.take(i as int).filter(ept_exit()),
                host@ == exits@.take(i as int).filter(host_exit()),
            decreases exits@.len() - i,
        {
            proof {
                lemma_filter_step(exits@, i as int, other_exit());
                lemma_filter_step(exits@, i as int, ept_exit());
                lemma_filter_step(exits@, i as int, host_exit());
            }
            let exit: ExitSnapshot = exits[i];
            if is_host_asynchronous(exit.exit_reason) {
                host.push(exit);
            } else if exit.exit_reason == EPT_VIOLATION {
                ept.push(exit);
            } else {
                other.push(exit);
            }
            i = i + 1;
        }
        assert(exits@.take(i as int) =~= exits@);
        Replay { other, ept, host, outcome }
    }
}

/// Splitting loses no exit and counts none twice.
pub proof fn law_split_is_complete(exits: Seq<ExitSnapshot>)
    ensures
        exits.filter(other_exit()).len() + exits.filter(ept_exit()).len() + exits.filter(
            host_exit(),
        ).len() == exits.len(),
        forall|exit: ExitSnapshot|
            #![trigger host_exit()(exit)]
            #![trigger ept_exit()(exit)]
            #![trigger other_exit()(exit)]
            {
                ||| host_exit()(exit) && !ept_exit()(exit) && !other_exit()(exit)
                ||| !host_exit()(exit) && ept_exit()(exit) && !other_exit()(exit)
                ||| !host_exit()(exit) && !ept_exit()(exit) && other_exit()(exit)
            },
    decreases exits.len(),
{
    reveal(Seq::filter);
    if exits.len() > 0 {
        law_split_is_complete(exits.drop_last());
    }
}

/// Whether `found` is where a replay parts from the baseline: in the strictly
/// compared exits, else in the copy-on-write faults if there are as many.
pub open spec fn replay_parts_at(
    base: Replay,
    replay: Replay,
    found: Option<DivergenceView>,
) -> bool {
    if base.other@ != replay.other@ {
        parts_at(base.other@, replay.other@, found)
    } else if base.ept@.len() == replay.ept@.len() {
        parts_at(base.ept@, replay.ept@, found)
    } else {
        found is None
    }
}

/// Where a replay parts from the baseline, if it does.
pub fn verdict(base: &Replay, replay: &Replay) -> (found: Option<Divergence>)
    ensures
        replay_parts_at(*base, *replay, divergence_view(found)),
{
    let strict: Option<Divergence> = compare(base.other.as_slice(), replay.other.as_slice());
    if strict.is_some() {
        return strict;
    }
    if base.ept.len() == replay.ept.len() {
        compare(base.ept.as_slice(), replay.ept.as_slice())
    } else {
        None
    }
}

/// A replay is held against itself without a divergence, and one without a
/// divergence has the baseline's strictly compared exits and, where there are
/// as many, its copy-on-write faults.
pub proof fn law_identical_replays(base: Replay, replay: Replay)
    ensures
        replay_parts_at(base, replay, None) <==> {
            &&& base.other@ == replay.other@
            &&& base.ept@.len() == replay.ept@.len() ==> base.ept@ == replay.ept@
        },
        replay_parts_at(base, base, None),
{
}

/// The input of the negative control: the same, with one bit of its first byte
/// flipped.
pub fn perturbed(input: &[u8]) -> (other: Vec<u8>)
    requires
        input@.len() > 0,
    ensures
        other@ == input@.update(0, input@[0] ^ 1),
        other@ != input@,
{
    let mut other: Vec<u8> = Vec::new();
    other.extend_from_slice(input);
    assert(other@ =~= input@);
    let first: u8 = input[0];
    other.set(0, first ^ 1);
    proof {
        assert(first ^ 1 != first) by (bit_vector);
        assert(other@[0] != input@[0]);
    }
    other
}

/// How the negative control noticed the flipped input byte.
#[derive(Debug, PartialEq, Eq)]
pub enum Detection {
    /// The guest reported another outcome.
    OutcomeChanged,
    /// An exit stream diverged.
    Diverged(Divergence),
    /// The number of copy-on-write faults changed.
    EptCount { count: usize, baseline: usize },
}

fn same_outcome(a: &FuzzOutcome, b: &FuzzOutcome) -> (same: bool)
    ensures
        same == (a@ == b@),
{
    match (a, b) {
        (FuzzOutcome::Pass, FuzzOutcome::Pass) => true,
        (FuzzOutcome::Skip, FuzzOutcome::Skip) => true,
        (FuzzOutcome::Fail(x), FuzzOutcome::Fail(y)) => *x == *y,
        (FuzzOutcome::Unknown(x), FuzzOutcome::Unknown(y)) => *x == *y,
        _ => false,
    }
}

/// Whether `found` is how a perturbed replay gives itself away against the
/// baseline: by its outcome, else by its strictly compared exits, else by its
/// copy-on-write faults; `None` when it does not.
pub open spec fn gives_itself_away(base: Replay, replay: Replay, found: Option<Detection>) -> bool {
    match found {
        None => {
            &&& base.outcome@ == replay.outcome@
            &&& base.other@ == replay.other@
            &&& base.ept@ == replay.ept@
        },
        Some(Detection::OutcomeChanged) => base.outcome@ != replay.outcome@,
        Some(Detection::Diverged(divergence)) => {
            &&& base.outcome@ == replay.outcome@
            &&& if base.other@ != replay.other@ {
                parts_at(base.other@, replay.other@, Some(divergence@))
            } else {
                &&& base.ept@.len() == replay.ept@.len()
                &&& parts_at(base.ept@, replay.ept@, Some(divergence@))
            }
        },
        Some(Detection::EptCount { count, baseline }) => {
            &&& base.outcome@ == replay.outcome@
            &&& base.other@ == replay.other@
            &&& base.ept@.len() != replay.ept@.len()
            &&& count == replay.ept@.len()
            &&& baseline == base.ept@.len()
        },
    }
}

/// Looks for anything in which a perturbed replay differs from the baseline.
pub fn detect(base: &Replay, replay: &Replay) -> (found: Option<Detection>)
    ensures
        gives_itself_away(*base, *replay, found),
{
    if !same_outcome(&base.outcome, &replay.outcome) {
        return Some(Detection::OutcomeChanged);
    }
    match compare(base.other.as_slice(), replay.other.as_slice()) {
        Some(divergence) => Some(Detection::Diverged(divergence)),
        None => {
            if base.ept.len() == replay.ept.len() {
                match compare(base.ept.as_slice(), replay.ept.as_slice()) {
                    Some(divergence) => Some(Detection::Diverged(divergence)),
                    None => None,
                }
            } else {
                Some(
                    Detection::EptCount { count: replay.ept.len(), baseline: base.ept.len() },
                )
            }
        },
    }
}

/// A perturbed replay goes unnoticed only if it is the same in its outcome and
/// in every exit that the guest caused.
pub proof fn law_detection_is_complete(base: Replay, replay: Replay, found: Option<Detection>)
    requires
        gives_itself_away(base, replay, found),
    ensures
        found is None <==> {
            &&& base.outcome@ == replay.outcome@
            &&& base.other@ == replay.other@
            &&& base.ept@ == replay.ept@
        },
{
}

/// What a whole check came to.
#[derive(Debug, Clone, Copy, PartialEq, Eq, Structural)]
pub enum Conclusion {
    /// All replays were identical, and the control was noticed.
    Deterministic,
    /// The control went unnoticed: the comparison cannot detect divergence.
    ControlFailed,
    /// Replays diverged.
    Diverged,
}

/// What a check comes to.
pub open spec fn concluded(
    exits_identical: bool,
    memory_identical: bool,
    control_noticed: bool,
) -> Conclusion {
    if !control_noticed {
        Conclusion::ControlFailed
    } else if exits_identical && memory_identical {
        Conclusion::Deterministic
    } else {
        Conclusion::Diverged
    }
}

/// Draws the conclusion. Where the control failed the comparison is worthless,
/// and nothing else is worth saying.
pub fn conclude(exits_identical: bool, memory_identical: bool, control_noticed: bool) -> (
    conclusion: Conclusion)
    ensures
        conclusion == concluded(exits_identical, memory_identical, control_noticed),
{
    if exits_identical && memory_identical && control_noticed {
        Conclusion::Deterministic
    } else if !control_noticed {
        Conclusion::ControlFailed
    } else {
        Conclusion::Diverged
    }
}

/// The distance between memory samples: the run's span divided evenly into
/// `points`, but at least one tick. `None` when there is nothing to sample,
/// because no points were asked for or the run took no time.
pub fn sample_interval(span: u64, points: u64) -> (interval: Option<u64>)
    ensures
        interval == if points == 0 || span == 0 {
            None
        } else if span / points >= 1 {
            Some(span / points)
        } else {
            Some(1u64)
        },
{
    if points == 0 || span == 0 {
        return None;
    }
    let interval: u64 = span / points;
    if interval >= 1 {
        Some(interval)
    } else {
        Some(1)
    }
}

/// The time and memory hash of one exit.
pub open spec fn sample_of() -> spec_fn(ExitSnapshot) -> (u64, u64) {
    |exit: ExitSnapshot| (exit.tsc, exit.memory_hash)
}

/// Samples at one point in time.
pub open spec fn at_time(tsc: u64) -> spec_fn((u64, u64)) -> bool {
    |sample: (u64, u64)| sample.0 == tsc
}

/// Whether `sorted` holds the samples in order of time, those at the same time
/// in the order that they had.
pub open spec fn in_time_order(samples: Seq<(u64, u64)>, sorted: Seq<(u64, u64)>) -> bool {
    &&& forall|i: int, j: int| 0 <= i <= j < sorted.len() ==> sorted[i].0 <= sorted[j].0
    &&& forall|tsc: u64| #[trigger]
        sorted.filter(at_time(tsc)) == samples.filter(at_time(tsc))
    &&& sorted.len() == samples.len()
}

proof fn lemma_filter_none(samples: Seq<(u64, u64)>, tsc: u64)
    requires
        forall|i: int| 0 <= i < samples.len() ==> samples[i].0 != tsc,
    ensures
        samples.filter(at_time(tsc)) == Seq::<(u64, u64)>::empty(),
    decreases samples.len(),
{
    reveal(Seq::filter);
    if samples.len() > 0 {
        lemma_filter_none(samples.drop_last(), tsc);
    }
}

/// Putting a sample behind all those that are no later keeps the time order.
proof fn lemma_insert_in_time_order(
    samples: Seq<(u64, u64)>,
    sorted: Seq<(u64, u64)>,
    place: int,
    sample: (u64, u64),
)
    requires
        in_time_order(samples, sorted),
        0 <= place <= sorted.len(),
        forall|i: int| 0 <= i < place ==> sorted[i].0 <= sample.0,
        forall|i: int| place <= i < sorted.len() ==> sorted[i].0 > sample.0,
    ensures
        in_time_order(samples.push(sample), sorted.insert(place, sample)),
{
    let after = sorted.insert(place, sample);
    let front = sorted.take(place);
    let back = sorted.skip(place);
    assert(sorted =~= front + back);
    assert(after =~= front.push(sample) + back);
    assert forall|tsc: u64| #[trigger]
        after.filter(at_time(tsc)) == samples.push(sample).filter(at_time(tsc)) by {
        Seq::filter_distributes_over_add(front, back, at_time(tsc));
        Seq::filter_distributes_over_add(front.push(sample), back, at_time(tsc));
        assert(sorted.filter(at_time(tsc)) == samples.filter(at_time(tsc)));
        reveal(Seq::filter);
        assert(front.push(sample).drop_last() =~= front);
        assert(samples.push(sample).drop_last() =~= samples);
        if tsc == sample.0 {
            lemma_filter_none(back, tsc);
            assert(front.filter(at_time(tsc)) + Seq::<(u64, u64)>::empty() =~= front.filter(
                at_time(tsc),
            ));
            assert(after.filter(at_time(tsc)) =~= front.filter(at_time(tsc)).push(sample));
        }
    }
    assert forall|i: int, j: int| 0 <= i <= j < after.len() implies after[i].0 <= after[j].0 by {
        if i < place {
            if j > place {
                assert(after[j] == sorted[j - 1]);
            }
        } else if i > place {
            assert(after[i] == sorted[i - 1]);
            assert(after[j] == sorted[j - 1]);
        } else if j > place {
            assert(after[j] == sorted[j - 1]);
        }
    }
}

fn insert_sample(sorted: &mut Vec<(u64, u64)>, sample: (u64, u64), Ghost(samples): Ghost<
    Seq<(u64, u64)>,
>)
    requires
        in_time_order(samples, old(sorted)@),
    ensures
        in_time_order(samples.push(sample), final(sorted)@),
{
    let mut place: usize = sorted.len();
    while place > 0 && sorted[place - 1].0 > sample.0
        invariant
            place <= sorted@.len(),
            forall|i: int| place <= i < sorted@.len() ==> sorted@[i].0 > sample.0,
        decreases place,
    {
        place = place - 1;
    }
    proof {
        lemma_insert_in_time_order(samples, sorted@, place as int, sample);
    }
    sorted.insert(place, sample);
}

impl Replay {
    /// Everything that the guest caused, the copy-on-write faults first.
    pub open spec fn guest_exits(self) -> Seq<ExitSnapshot> {
        self.ept@ + self.other@
    }

    /// The time and memory hash at each sample point, in order of time.
    pub fn memory_samples(&self) -> (sorted: Vec<(u64, u64)>)
        ensures
            in_time_order(self.guest_exits().map_values(sample_of()), sorted@),
            sorted@.len() == self.ept@.len() + self.other@.len(),
            forall|i: int|
                0 <= i < self.ept@.len() ==> sorted@.contains(
                    ((#[trigger] self.ept@[i]).tsc, self.ept@[i].memory_hash),
                ),
            forall|i: int|
                0 <= i < self.other@.len() ==> sorted@.contains(
                    ((#[trigger] self.other@[i]).tsc, self.other@[i].memory_hash),
                ),
    {
        let mut sorted: Vec<(u64, u64)> = Vec::new();
        let ghost all = self.guest_exits();
        let mut i: usize = 0;
        proof {
            assert(all.take(0).map_values(sample_of()) =~= Seq::empty());
            assert(in_time_order(Seq::empty(), sorted@));
        }
        while i < self.ept.len()
            invariant
                i <= self.ept@.len(),
                all == self.ept@ + self.other@,
                in_time_order(all.take(i as int).map_values(sample_of()), sorted@),
            decreases self.ept@.len() - i,
        {
            let exit: ExitSnapshot = self.ept[i];
            let ghost before = all.take(i as int).map_values(sample_of());
            insert_sample(&mut sorted, (exit.tsc, exit.memory_hash), Ghost(before));
            assert(all.take(i + 1).map_values(sample_of()) =~= before.push(
                (exit.tsc, exit.memory_hash),
            ));
            i = i + 1;
        }
        let mut j: usize = 0;
        assert(i == self.ept@.len());
        while j < self.other.len()
            invariant
                j <= self.other@.len(),
                all == self.ept@ + self.other@,
                in_time_order(
                    all.take(self.ept@.len() + j).map_values(sample_of()),
                    sorted@,
                ),
            decreases self.other@.len() - j,
        {
            let exit: ExitSnapshot = self.other[j];
            let ghost before = all.take(self.ept@.len() + j).map_values(sample_of());
            insert_sample(&mut sorted, (exit.tsc, exit.memory_hash), Ghost(before));
            assert(all.take(self.ept@.len() + j + 1).map_values(sample_of()) =~= before.push(
                (exit.tsc, exit.memory_hash),
            ));
            j = j + 1;
        }
        assert(all.take(all.len() as int) =~= all);
        proof {
            law_samples_are_the_memory_hashes(*self, sorted@);
        }
        sorted
    }
}

/// There is only one way to put samples in order of time.
pub proof fn law_time_order_is_unique(
    samples: Seq<(u64, u64)>,
    sorted: Seq<(u64, u64)>,
    again: Seq<(u64, u64)>,
)
    requires
        in_time_order(samples, sorted),
        in_time_order(samples, again),
    ensures
        sorted == again,
{
    assert(in_time_order(sorted, again)) by {
        assert forall|tsc: u64| #[trigger]
            again.filter(at_time(tsc)) == sorted.filter(at_time(tsc)) by {
            assert(samples.filter(at_time(tsc)) == sorted.filter(at_time(tsc)));
        }
    }
    lemma_same_order(sorted, again);
}

proof fn lemma_same_order(sorted: Seq<(u64, u64)>, again: Seq<(u64, u64)>)
    requires
        forall|i: int, j: int| 0 <= i <= j < sorted.len() ==> sorted[i].0 <= sorted[j].0,
        in_time_order(sorted, again),
    ensures
        sorted == again,
    decreases sorted.len(),
{
    if sorted.len() > 0 {
        let x = sorted.last();
        let y = again.last();
        reveal(Seq::filter);
        // Each last sample occurs in the other sequence, so neither is later.
        assert(sorted.filter(at_time(x.0)).last() == x);
        assert(again.filter(at_time(y.0)).last() == y);
        assert(again.filter(at_time(x.0)) == sorted.filter(at_time(x.0)));
        assert(again.filter(at_time(y.0)) == sorted.filter(at_time(y.0)));
        if x.0 > y.0 {
            lemma_filter_none(again, x.0);
        } else if y.0 > x.0 {
            lemma_filter_none(sorted, y.0);
        }
        assert(x == y);
        let front = sorted.drop_last();
        let other = again.drop_last();
        assert forall|tsc: u64| #[trigger]
            other.filter(at_time(tsc)) == front.filter(at_time(tsc)) by {
            assert(again.filter(at_time(tsc)) == sorted.filter(at_time(tsc)));
            if tsc == x.0 {
                assert(other.filter(at_time(tsc)) =~= again.filter(at_time(tsc)).drop_last());
                assert(front.filter(at_time(tsc)) =~= sorted.filter(at_time(tsc)).drop_last());
            }
        }
        lemma_same_order(front, other);
        assert(sorted =~= front.push(x));
        assert(again =~= other.push(y));
    } else {
        assert(sorted =~= again);
    }
}

/// How two replays' memory samples compare.
#[derive(Debug, Clone, Copy, PartialEq, Eq, Structural)]
pub enum SampleVerdict {
    /// They are the same.
    Identical,
    /// They are not. The first sample in which they differ, if there is one
    /// before the shorter of the two ends.
    Diverged { first: Option<usize> },
}

/// Whether `verdict` is how the samples of a replay compare with those of the
/// baseline.
pub open spec fn samples_part_at(
    base: Seq<(u64, u64)>,
    samples: Seq<(u64, u64)>,
    verdict: SampleVerdict,
) -> bool {
    match verdict {
        SampleVerdict::Identical => base == samples,
        SampleVerdict::Diverged { first: Some(i) } => {
            &&& i < base.len()
            &&& i < samples.len()
            &&& base.take(i as int) == samples.take(i as int)
            &&& base[i as int] != samples[i as int]
        },
        SampleVerdict::Diverged { first: None } => {
            &&& base.len() != samples.len()
            &&& forall|i: int| 0 <= i < base.len() && i < samples.len() ==> base[i] == samples[i]
        },
    }
}

/// Compares the memory samples of a replay with those of the baseline.
pub fn compare_samples(base: &[(u64, u64)], samples: &[(u64, u64)]) -> (verdict: SampleVerdict)
    ensures
        samples_part_at(base@, samples@, verdict),
{
    let mut i: usize = 0;
    while i < base.len() && i < samples.len()
        invariant
            i <= base@.len(),
            i <= samples@.len(),
            forall|j: int| 0 <= j < i ==> base@[j] == samples@[j],
        decreases base@.len() - i,
    {
        if base[i].0 != samples[i].0 || base[i].1 != samples[i].1 {
            assert(base@.take(i as int) =~= samples@.take(i as int));
            return SampleVerdict::Diverged { first: Some(i) };
        }
        i = i + 1;
    }
    if base.len() == samples.len() {
        assert(base@ =~= samples@);
        SampleVerdict::Identical
    } else {
        SampleVerdict::Diverged { first: None }
    }
}

/// What the replays of a check came to so far.
#[derive(Debug)]
pub struct ReplayCheck {
    baseline: Option<Replay>,
    exits_identical: bool,
    samples: Option<Vec<(u64, u64)>>,
    memory_identical: bool,
    control_noticed: bool,
}

/// A [`ReplayCheck`] with its memory samples as a sequence.
pub struct ReplayCheckView {
    /// The first replay, which all others are held against.
    pub baseline: Option<Replay>,
    /// Whether no replay's exits parted from the baseline.
    pub exits_identical: bool,
    /// The first replay's memory samples.
    pub samples: Option<Seq<(u64, u64)>>,
    /// Whether no replay's memory samples were others.
    pub memory_identical: bool,
    /// Whether no negative control went unnoticed.
    pub control_noticed: bool,
}

impl View for ReplayCheck {
    type V = ReplayCheckView;

    closed spec fn view(&self) -> ReplayCheckView {
        ReplayCheckView {
            baseline: self.baseline,
            exits_identical: self.exits_identical,
            samples: match self.samples {
                None => None,
                Some(samples) => Some(samples@),
            },
            memory_identical: self.memory_identical,
            control_noticed: self.control_noticed,
        }
    }
}

/// How a replay fits into its check.
#[derive(Debug)]
pub enum ReplayVerdict {
    /// The guest reported something other than a pass, so there is nothing to
    /// compare.
    NotPassed(FuzzOutcome),
    /// It is the first, and so the baseline.
    Baseline,
    /// It does not part from the baseline.
    Identical,
    /// It parts from the baseline.
    Parted(Divergence),
}

/// A check before its first replay.
pub open spec fn fresh_check() -> ReplayCheckView {
    ReplayCheckView {
        baseline: None,
        exits_identical: true,
        samples: None,
        memory_identical: true,
        control_noticed: true,
    }
}

/// A check after one more replay.
pub open spec fn after_replay(check: ReplayCheckView, replay: Replay) -> ReplayCheckView {
    if replay.outcome@ != FuzzOutcomeView::Pass {
        check
    } else {
        match check.baseline {
            None => ReplayCheckView { baseline: Some(replay), ..check },
            Some(base) => ReplayCheckView {
                exits_identical: check.exits_identical && replay_parts_at(base, replay, None),
                ..check
            },
        }
    }
}

/// A check after one more replay's memory samples.
pub open spec fn after_samples(
    check: ReplayCheckView,
    samples: Seq<(u64, u64)>,
) -> ReplayCheckView {
    match check.samples {
        None => ReplayCheckView { samples: Some(samples), ..check },
        Some(base) => ReplayCheckView {
            memory_identical: check.memory_identical && base == samples,
            ..check
        },
    }
}

/// A check after a negative control.
pub open spec fn after_control(check: ReplayCheckView, replay: Replay) -> ReplayCheckView {
    ReplayCheckView {
        control_noticed: check.control_noticed && !gives_itself_away(
            check.baseline->0,
            replay,
            None,
        ),
        ..check
    }
}

/// Whether `verdict` is what a check says of its next replay.
pub open spec fn fits_in(check: ReplayCheckView, replay: Replay, verdict: ReplayVerdict) -> bool {
    match verdict {
        ReplayVerdict::NotPassed(outcome) => {
            &&& replay.outcome@ != FuzzOutcomeView::Pass
            &&& outcome == replay.outcome
        },
        ReplayVerdict::Baseline => {
            &&& replay.outcome@ == FuzzOutcomeView::Pass
            &&& check.baseline is None
        },
        ReplayVerdict::Identical => {
            &&& replay.outcome@ == FuzzOutcomeView::Pass
            &&& check.baseline matches Some(base)
            &&& replay_parts_at(base, replay, None)
        },
        ReplayVerdict::Parted(divergence) => {
            &&& replay.outcome@ == FuzzOutcomeView::Pass
            &&& check.baseline matches Some(base)
            &&& replay_parts_at(base, replay, Some(divergence@))
        },
    }
}

impl ReplayCheck {
    /// A check before its first replay.
    pub fn new() -> (check: Self)
        ensures
            check@ == fresh_check(),
    {
        ReplayCheck {
            baseline: None,
            exits_identical: true,
            samples: None,
            memory_identical: true,
            control_noticed: true,
        }
    }

    /// The baseline, once there is one.
    pub fn baseline(&self) -> (baseline: Option<&Replay>)
        ensures
            match baseline {
                None => self@.baseline is None,
                Some(replay) => self@.baseline == Some(*replay),
            },
    {
        self.baseline.as_ref()
    }

    /// The baseline's memory samples, once there are any.
    pub fn samples(&self) -> (samples: Option<&Vec<(u64, u64)>>)
        ensures
            match samples {
                None => self@.samples is None,
                Some(samples) => self@.samples == Some(samples@),
            },
    {
        self.samples.as_ref()
    }

    /// Takes one more replay of the same input.
    pub fn record(&mut self, replay: Replay) -> (verdict: ReplayVerdict)
        ensures
            fits_in(old(self)@, replay, verdict),
            final(self)@ == after_replay(old(self)@, replay),
    {
        let passed: bool = match &replay.outcome {
            FuzzOutcome::Pass => true,
            _ => false,
        };
        if !passed {
            return ReplayVerdict::NotPassed(replay.outcome);
        }
        let found: Option<Divergence> = match &self.baseline {
            None => {
                self.baseline = Some(replay);
                return ReplayVerdict::Baseline;
            },
            Some(base) => {
                let found: Option<Divergence> = verdict(base, &replay);
                proof {
                    law_replay_divergence_is_unique(
                        *base,
                        replay,
                        divergence_view(found),
                    );
                }
                found
            },
        };
        match found {
            None => ReplayVerdict::Identical,
            Some(divergence) => {
                self.exits_identical = false;
                ReplayVerdict::Parted(divergence)
            },
        }
    }

    /// Takes one more replay's memory samples. `None` for the first, which are
    /// the baseline's.
    pub fn record_samples(&mut self, samples: Vec<(u64, u64)>) -> (verdict: Option<SampleVerdict>)
        ensures
            match old(self)@.samples {
                None => verdict is None,
                Some(base) => verdict matches Some(verdict) && samples_part_at(
                    base,
                    samples@,
                    verdict,
                ),
            },
            final(self)@ == after_samples(old(self)@, samples@),
    {
        let verdict: SampleVerdict = match &self.samples {
            None => {
                self.samples = Some(samples);
                return None;
            },
            Some(base) => compare_samples(base.as_slice(), samples.as_slice()),
        };
        match verdict {
            SampleVerdict::Identical => {},
            SampleVerdict::Diverged { .. } => {
                self.memory_identical = false;
            },
        }
        Some(verdict)
    }

    /// Takes the replay of the perturbed input, and says how it gave itself
    /// away.
    pub fn record_control(&mut self, replay: &Replay) -> (found: Option<Detection>)
        requires
            old(self)@.baseline is Some,
        ensures
            gives_itself_away(old(self)@.baseline->0, *replay, found),
            final(self)@ == after_control(old(self)@, *replay),
    {
        let found: Option<Detection> = match &self.baseline {
            None => None,
            Some(base) => detect(base, replay),
        };
        if found.is_none() {
            self.control_noticed = false;
        }
        found
    }

    /// What the check came to.
    pub fn conclusion(&self) -> (conclusion: Conclusion)
        requires
            self@.baseline is Some,
        ensures
            conclusion == concluded(
                self@.exits_identical,
                self@.memory_identical,
                self@.control_noticed,
            ),
    {
        conclude(self.exits_identical, self.memory_identical, self.control_noticed)
    }
}

/// A replay parts from its baseline in one place at most.
pub proof fn law_replay_divergence_is_unique(
    base: Replay,
    replay: Replay,
    found: Option<DivergenceView>,
)
    requires
        replay_parts_at(base, replay, found),
    ensures
        forall|again: Option<DivergenceView>|
            replay_parts_at(base, replay, again) ==> again == found,
{
    assert forall|again: Option<DivergenceView>| replay_parts_at(base, replay, again) implies again
        == found by {
        if base.other@ != replay.other@ {
            law_divergence_is_unique(base.other@, replay.other@, found, again);
        } else if base.ept@.len() == replay.ept@.len() {
            law_divergence_is_unique(base.ept@, replay.ept@, found, again);
        }
    }
}

/// A check after some replays.
pub open spec fn after_replays(replays: Seq<Replay>) -> ReplayCheckView
    decreases replays.len(),
{
    if replays.len() == 0 {
        fresh_check()
    } else {
        after_replay(after_replays(replays.drop_last()), replays.last())
    }
}

/// A check after some replays' memory samples.
pub open spec fn after_all_samples(
    check: ReplayCheckView,
    samples: Seq<Seq<(u64, u64)>>,
) -> ReplayCheckView
    decreases samples.len(),
{
    if samples.len() == 0 {
        check
    } else {
        after_samples(after_all_samples(check, samples.drop_last()), samples.last())
    }
}

/// A whole check: the replays, their memory samples where memory was sampled,
/// and the negative control where there was one.
pub open spec fn whole_check(
    replays: Seq<Replay>,
    samples: Seq<Seq<(u64, u64)>>,
    control: Option<Replay>,
) -> ReplayCheckView {
    let check = after_all_samples(after_replays(replays), samples);
    match control {
        None => check,
        Some(replay) => after_control(check, replay),
    }
}

/// Whether every replay agrees with the first one.
pub open spec fn all_agree(replays: Seq<Replay>) -> bool {
    forall|i: int|
        0 <= i < replays.len() ==> replay_parts_at(replays[0], #[trigger] replays[i], None)
}

/// Whether all memory samples are those of the first replay.
pub open spec fn all_same(samples: Seq<Seq<(u64, u64)>>) -> bool {
    forall|i: int| 0 <= i < samples.len() ==> #[trigger] samples[i] == samples[0]
}

proof fn lemma_after_replays(replays: Seq<Replay>)
    requires
        replays.len() > 0,
        forall|i: int|
            0 <= i < replays.len() ==> (#[trigger] replays[i]).outcome@ == FuzzOutcomeView::Pass,
    ensures
        after_replays(replays) == (ReplayCheckView {
            baseline: Some(replays[0]),
            exits_identical: all_agree(replays),
            ..fresh_check()
        }),
    decreases replays.len(),
{
    let earlier = replays.drop_last();
    assert(replays.last() == replays[replays.len() - 1]);
    law_identical_replays(replays[0], replays[0]);
    if earlier.len() == 0 {
        assert(after_replays(earlier) == fresh_check());
        assert(all_agree(replays));
    } else {
        assert forall|i: int| 0 <= i < earlier.len() implies (#[trigger] earlier[i]).outcome@
            == FuzzOutcomeView::Pass by {
            assert(earlier[i] == replays[i]);
        }
        lemma_after_replays(earlier);
        let agrees = replay_parts_at(replays[0], replays.last(), None);
        assert(all_agree(replays) <==> all_agree(earlier) && agrees) by {
            if all_agree(replays) {
                assert forall|i: int| 0 <= i < earlier.len() implies replay_parts_at(
                    earlier[0],
                    #[trigger] earlier[i],
                    None,
                ) by {
                    assert(earlier[i] == replays[i]);
                }
            }
            if all_agree(earlier) && agrees {
                assert forall|i: int| 0 <= i < replays.len() implies replay_parts_at(
                    replays[0],
                    #[trigger] replays[i],
                    None,
                ) by {
                    if i < earlier.len() {
                        assert(earlier[i] == replays[i]);
                    }
                }
            }
        }
    }
}

proof fn lemma_after_all_samples(check: ReplayCheckView, samples: Seq<Seq<(u64, u64)>>)
    requires
        check.samples is None,
    ensures
        after_all_samples(check, samples) == (ReplayCheckView {
            samples: if samples.len() == 0 {
                None
            } else {
                Some(samples[0])
            },
            memory_identical: check.memory_identical && all_same(samples),
            ..check
        }),
    decreases samples.len(),
{
    if samples.len() > 0 {
        let earlier = samples.drop_last();
        lemma_after_all_samples(check, earlier);
        assert(samples.last() == samples[samples.len() - 1]);
        assert(all_same(samples) <==> all_same(earlier) && samples[0] == samples.last()) by {
            if all_same(samples) {
                assert forall|i: int| 0 <= i < earlier.len() implies #[trigger] earlier[i]
                    == earlier[0] by {
                    assert(earlier[i] == samples[i]);
                }
            }
            if all_same(earlier) && samples[0] == samples.last() {
                assert forall|i: int| 0 <= i < samples.len() implies #[trigger] samples[i]
                    == samples[0] by {
                    if i < earlier.len() {
                        assert(earlier[i] == samples[i]);
                    }
                }
            }
        }
    }
}

/// A check calls its replays deterministic exactly if every replay agreed with
/// the first, all memory samples were the same, and the negative control, where
/// there was one, was noticed. A control that went unnoticed overrides all else.
pub proof fn law_deterministic_iff_all_agree(
    replays: Seq<Replay>,
    samples: Seq<Seq<(u64, u64)>>,
    control: Option<Replay>,
)
    requires
        replays.len() > 0,
        forall|i: int|
            0 <= i < replays.len() ==> (#[trigger] replays[i]).outcome@ == FuzzOutcomeView::Pass,
    ensures
        ({
            let check = whole_check(replays, samples, control);
            let conclusion = concluded(
                check.exits_identical,
                check.memory_identical,
                check.control_noticed,
            );
            let unnoticed = control matches Some(replay) && gives_itself_away(
                replays[0],
                replay,
                None,
            );
            &&& check.baseline == Some(replays[0])
            &&& conclusion == Conclusion::ControlFailed <==> unnoticed
            &&& conclusion == Conclusion::Deterministic <==> {
                &&& all_agree(replays)
                &&& all_same(samples)
                &&& !unnoticed
            }
        }),
{
    lemma_after_replays(replays);
    lemma_after_all_samples(after_replays(replays), samples);
}

/// The least and the greatest of some counts; zeros if there are none.
pub fn min_max(counts: &[usize]) -> (range: (usize, usize))
    ensures
        counts@.len() == 0 ==> range == (0usize, 0usize),
        counts@.len() > 0 ==> counts@.contains(range.0) && counts@.contains(range.1),
        forall|i: int| 0 <= i < counts@.len() ==> range.0 <= #[trigger] counts@[i] <= range.1,
{
    if counts.len() == 0 {
        return (0, 0);
    }
    let mut low: usize = counts[0];
    let mut high: usize = counts[0];
    let mut i: usize = 1;
    assert(counts@[0] == low);
    while i < counts.len()
        invariant
            1 <= i <= counts@.len(),
            counts@.contains(low),
            counts@.contains(high),
            forall|j: int| 0 <= j < i ==> low <= #[trigger] counts@[j] <= high,
        decreases counts@.len() - i,
    {
        let count: usize = counts[i];
        assert(counts@[i as int] == count);
        if count < low {
            low = count;
        }
        if count > high {
            high = count;
        }
        i = i + 1;
    }
    (low, high)
}

/// The exits that the host imposes are those with one of these six reasons, and
/// of the others those with reason 48 are copy-on-write faults. An exit's class
/// depends on nothing but its reason.
pub proof fn law_reason_decides_the_class(exit: ExitSnapshot)
    ensures
        ({
            let reason = exit.exit_reason;
            let host = reason == 1 || reason == 7 || reason == 8 || reason == 52 || reason == 256
                || reason == 267;
            &&& host_reasons().contains(reason) == host
            &&& host_exit()(exit) == host
            &&& ept_exit()(exit) == (reason == 48)
            &&& other_exit()(exit) == (!host && reason != 48)
        }),
{
}

/// Exits at one point in time.
spec fn taken_at(tsc: u64) -> spec_fn(ExitSnapshot) -> bool {
    |exit: ExitSnapshot| exit.tsc == tsc
}

proof fn lemma_samples_at(exits: Seq<ExitSnapshot>, tsc: u64)
    ensures
        exits.map_values(sample_of()).filter(at_time(tsc)) == exits.filter(
            taken_at(tsc),
        ).map_values(sample_of()),
    decreases exits.len(),
{
    reveal(Seq::filter);
    let samples = exits.map_values(sample_of());
    if exits.len() == 0 {
        assert(samples.filter(at_time(tsc)) =~= exits.filter(taken_at(tsc)).map_values(
            sample_of(),
        ));
    } else {
        let front = exits.drop_last();
        lemma_samples_at(front, tsc);
        assert(samples.drop_last() =~= front.map_values(sample_of()));
        assert(samples.last() == sample_of()(exits.last()));
        let kept = front.filter(taken_at(tsc));
        assert(kept.push(exits.last()).map_values(sample_of()) =~= kept.map_values(
            sample_of(),
        ).push(sample_of()(exits.last())));
    }
}

/// The memory samples of a replay are the times and the memory hashes of the
/// exits that the guest caused, each hash with all of its bits: as many as there
/// are exits, in order of time, and none is left out.
pub proof fn law_samples_are_the_memory_hashes(replay: Replay, sorted: Seq<(u64, u64)>)
    requires
        in_time_order(replay.guest_exits().map_values(sample_of()), sorted),
    ensures
        sorted.len() == replay.ept@.len() + replay.other@.len(),
        forall|i: int, j: int| 0 <= i <= j < sorted.len() ==> sorted[i].0 <= sorted[j].0,
        forall|i: int|
            0 <= i < replay.ept@.len() ==> sorted.contains(
                ((#[trigger] replay.ept@[i]).tsc, replay.ept@[i].memory_hash),
            ),
        forall|i: int|
            0 <= i < replay.other@.len() ==> sorted.contains(
                ((#[trigger] replay.other@[i]).tsc, replay.other@[i].memory_hash),
            ),
{
    let all = replay.ept@ + replay.other@;
    let samples = all.map_values(sample_of());
    assert forall|tsc: u64| sorted.filter(at_time(tsc)) == #[trigger] all.filter(
        taken_at(tsc),
    ).map_values(sample_of()) by {
        lemma_samples_at(all, tsc);
        assert(sorted.filter(at_time(tsc)) == samples.filter(at_time(tsc)));
    }
    assert forall|i: int| 0 <= i < all.len() implies sorted.contains(
        ((#[trigger] all[i]).tsc, all[i].memory_hash),
    ) by {
        lemma_exit_is_sampled(all, sorted, i);
    }
    assert forall|i: int| 0 <= i < replay.ept@.len() implies sorted.contains(
        ((#[trigger] replay.ept@[i]).tsc, replay.ept@[i].memory_hash),
    ) by {
        assert(all[i] == replay.ept@[i]);
    }
    assert forall|i: int| 0 <= i < replay.other@.len() implies sorted.contains(
        ((#[trigger] replay.other@[i]).tsc, replay.other@[i].memory_hash),
    ) by {
        assert(all[replay.ept@.len() + i] == replay.other@[i]);
    }
}

proof fn lemma_exit_is_sampled(all: Seq<ExitSnapshot>, sorted: Seq<(u64, u64)>, i: int)
    requires
        0 <= i < all.len(),
        sorted.filter(at_time(all[i].tsc)) == all.filter(taken_at(all[i].tsc)).map_values(
            sample_of(),
        ),
    ensures
        sorted.contains((all[i].tsc, all[i].memory_hash)),
{
    let tsc = all[i].tsc;
    let exits = all.filter(taken_at(tsc));
    all.lemma_filter_contains(taken_at(tsc), i);
    let j = choose|j: int| 0 <= j < exits.len() && exits[j] == all[i];
    let kept = sorted.filter(at_time(tsc));
    assert(kept[j] == sample_of()(all[i]));
    lemma_filtered_is_held(sorted, at_time(tsc), j);
}

proof fn lemma_filtered_is_held(
    samples: Seq<(u64, u64)>,
    kept: spec_fn((u64, u64)) -> bool,
    j: int,
)
    requires
        0 <= j < samples.filter(kept).len(),
    ensures
        samples.contains(samples.filter(kept)[j]),
    decreases samples.len(),
{
    reveal(Seq::filter);
    let front = samples.drop_last();
    let found = samples.filter(kept)[j];
    if j < front.filter(kept).len() {
        lemma_filtered_is_held(front, kept, j);
        let k = choose|k: int| 0 <= k < front.len() && front[k] == found;
        assert(samples[k] == found);
    } else {
        assert(samples[samples.len() - 1] == found);
    }
}

/// At each time, the samples are the memory hashes of the exits at that time, in
/// the order of the exits, and nothing else.
pub proof fn law_samples_keep_the_order_at_one_time(
    replay: Replay,
    sorted: Seq<(u64, u64)>,
    tsc: u64,
)
    requires
        in_time_order(replay.guest_exits().map_values(sample_of()), sorted),
    ensures
        ({
            let exits = (replay.ept@ + replay.other@).filter(
                |exit: ExitSnapshot| exit.tsc == tsc,
            );
            sorted.filter(|sample: (u64, u64)| sample.0 == tsc) == Seq::new(
                exits.len(),
                |i: int| (tsc, exits[i].memory_hash),
            )
        }),
{
    let all = replay.ept@ + replay.other@;
    let exits = all.filter(|exit: ExitSnapshot| exit.tsc == tsc);
    let samples = all.map_values(sample_of());
    lemma_samples_at(all, tsc);
    assert(sorted.filter(at_time(tsc)) == samples.filter(at_time(tsc)));
    assert(taken_at(tsc) =~= |exit: ExitSnapshot| exit.tsc == tsc);
    assert(at_time(tsc) =~= |sample: (u64, u64)| sample.0 == tsc);
    assert forall|i: int| 0 <= i < exits.len() implies (#[trigger] exits[i]).tsc == tsc by {
        all.lemma_filter_pred(taken_at(tsc), i);
    }
    assert(exits.map_values(sample_of()) =~= Seq::new(
        exits.len(),
        |i: int| (tsc, exits[i].memory_hash),
    ));
}

/// Two replays of one exit each have the same samples exactly if the time and
/// the memory hash are the same.
pub proof fn law_equal_samples_mean_equal_memory(
    a: Replay,
    b: Replay,
    first: Seq<(u64, u64)>,
    second: Seq<(u64, u64)>,
)
    requires
        in_time_order(a.guest_exits().map_values(sample_of()), first),
        in_time_order(b.guest_exits().map_values(sample_of()), second),
        (a.ept@ + a.other@).len() == 1,
        (b.ept@ + b.other@).len() == 1,
    ensures
        ({
            let x = (a.ept@ + a.other@)[0];
            let y = (b.ept@ + b.other@)[0];
            &&& first == seq![(x.tsc, x.memory_hash)]
            &&& second == seq![(y.tsc, y.memory_hash)]
            &&& first == second <==> x.tsc == y.tsc && x.memory_hash == y.memory_hash
        }),
{
    law_samples_are_the_memory_hashes(a, first);
    law_samples_are_the_memory_hashes(b, second);
    let x = (a.ept@ + a.other@)[0];
    let y = (b.ept@ + b.other@)[0];
    assert(first.contains((x.tsc, x.memory_hash))) by {
        if a.ept@.len() == 1 {
            assert(a.ept@[0] == x);
        } else {
            assert(a.other@[0] == x);
        }
    }
    assert(second.contains((y.tsc, y.memory_hash))) by {
        if b.ept@.len() == 1 {
            assert(b.ept@[0] == y);
        } else {
            assert(b.other@[0] == y);
        }
    }
    assert(first =~= seq![(x.tsc, x.memory_hash)]);
    assert(second =~= seq![(y.tsc, y.memory_hash)]);
    assert(first == second ==> first[0] == second[0]);
}

/// Samples are called identical only if all of them are the same, and what is
/// pointed out is the first that is not.
pub proof fn law_sample_verdict_is_the_first_difference(
    base: Seq<(u64, u64)>,
    samples: Seq<(u64, u64)>,
    verdict: SampleVerdict,
)
    requires
        samples_part_at(base, samples, verdict),
    ensures
        verdict == SampleVerdict::Identical <==> {
            &&& base.len() == samples.len()
            &&& forall|i: int|
                0 <= i < base.len() ==> (#[trigger] base[i]).0 == samples[i].0 && base[i].1
                    == samples[i].1
        },
        verdict matches SampleVerdict::Diverged { first: Some(i) } ==> {
            &&& 0 <= i < base.len()
            &&& i < samples.len()
            &&& base[i as int] != samples[i as int]
            &&& forall|j: int| 0 <= j < i ==> #[trigger] base[j] == samples[j]
        },
        verdict matches SampleVerdict::Diverged { first: None } ==> {
            &&& base.len() != samples.len()
            &&& forall|j: int|
                0 <= j < base.len() && j < samples.len() ==> #[trigger] base[j] == samples[j]
        },
{
    if let SampleVerdict::Diverged { first: Some(i) } = verdict {
        assert forall|j: int| 0 <= j < i implies #[trigger] base[j] == samples[j] by {
            assert(base.take(i as int)[j] == samples.take(i as int)[j]);
        }
        assert(base[i as int].0 != samples[i as int].0 || base[i as int].1
            != samples[i as int].1);
    }
    if base.len() == samples.len() && forall|i: int|
        0 <= i < base.len() ==> (#[trigger] base[i]).0 == samples[i].0 && base[i].1
            == samples[i].1 {
        assert(base =~= samples);
    }
}

/// A replay that parts from the baseline does so in its strictly compared exits
/// where those differ, and otherwise in as many copy-on-write faults.
pub proof fn law_replay_parts_where_exits_differ(
    base: Replay,
    replay: Replay,
    divergence: DivergenceView,
)
    requires
        replay_parts_at(base, replay, Some(divergence)),
    ensures
        base.other@ != replay.other@ ==> parts_at(base.other@, replay.other@, Some(divergence)),
        base.other@ == replay.other@ ==> {
            &&& base.ept@.len() == replay.ept@.len()
            &&& base.ept@ != replay.ept@
            &&& parts_at(base.ept@, replay.ept@, Some(divergence))
        },
{
}

/// A perturbed replay is noticed by the first thing in which it differs: its
/// outcome, its strictly compared exits, or its copy-on-write faults, by their
/// number where that differs.
pub proof fn law_detection_names_the_difference(
    base: Replay,
    replay: Replay,
    found: Option<Detection>,
)
    requires
        gives_itself_away(base, replay, found),
    ensures
        found == Some(Detection::OutcomeChanged) <==> base.outcome@ != replay.outcome@,
        found matches Some(Detection::EptCount { count, baseline }) ==> {
            &&& base.outcome@ == replay.outcome@
            &&& base.other@ == replay.other@
            &&& count == replay.ept@.len()
            &&& baseline == base.ept@.len()
            &&& count != baseline
        },
        found matches Some(Detection::Diverged(divergence)) ==> {
            &&& base.outcome@ == replay.outcome@
            &&& parts_at(base.other@, replay.other@, Some(divergence@)) || {
                &&& base.other@ == replay.other@
                &&& base.ept@.len() == replay.ept@.len()
                &&& parts_at(base.ept@, replay.ept@, Some(divergence@))
            }
        },
{
}

/// What a check says of one replay is what the exits say: a replay that did not
/// pass is handed back with its outcome, the first is the baseline, an identical
/// one has the baseline's exits, and one that parted has not.
pub proof fn law_verdict_is_what_the_exits_say(
    check: ReplayCheckView,
    replay: Replay,
    verdict: ReplayVerdict,
)
    requires
        fits_in(check, replay, verdict),
    ensures
        match verdict {
            ReplayVerdict::NotPassed(outcome) => {
                &&& replay.outcome@ != FuzzOutcomeView::Pass
                &&& outcome == replay.outcome
            },
            ReplayVerdict::Baseline => {
                &&& replay.outcome@ == FuzzOutcomeView::Pass
                &&& check.baseline is None
            },
            ReplayVerdict::Identical => {
                &&& replay.outcome@ == FuzzOutcomeView::Pass
                &&& check.baseline matches Some(base)
                &&& base.other@ == replay.other@
                &&& base.ept@.len() == replay.ept@.len() ==> base.ept@ == replay.ept@
            },
            ReplayVerdict::Parted(divergence) => {
                &&& replay.outcome@ == FuzzOutcomeView::Pass
                &&& check.baseline matches Some(base)
                &&& base.other@ != replay.other@ || base.ept@ != replay.ept@
                &&& replay_parts_at(base, replay, Some(divergence@))
            },
        },
{
}

/// One replay changes a check only so far as it shows: a replay that did not
/// pass changes nothing, the first becomes the baseline and nothing else, and a
/// later one can only take away that the exits were identical, which it does
/// exactly if its exits are not the baseline's.
pub proof fn law_replay_changes_the_check_by_its_exits(check: ReplayCheckView, replay: Replay)
    ensures
        ({
            let after = after_replay(check, replay);
            &&& replay.outcome@ != FuzzOutcomeView::Pass ==> after == check
            &&& replay.outcome@ == FuzzOutcomeView::Pass && check.baseline is None ==> {
                &&& after.baseline == Some(replay)
                &&& after.exits_identical == check.exits_identical
            }
            &&& replay.outcome@ == FuzzOutcomeView::Pass && check.baseline is Some ==> {
                &&& after.baseline == check.baseline
                &&& after.exits_identical <==> {
                    &&& check.exits_identical
                    &&& check.baseline->0.other@ == replay.other@
                    &&& check.baseline->0.ept@.len() == replay.ept@.len()
                        ==> check.baseline->0.ept@ == replay.ept@
                }
            }
            &&& after.samples == check.samples
            &&& after.memory_identical == check.memory_identical
            &&& after.control_noticed == check.control_noticed
        }),
{
}

/// Memory samples change a check only in what it says of memory, and a control
/// only in whether it was noticed: that all samples were the first ones, and
/// that the perturbed replay differed in its outcome or in an exit that the
/// guest caused.
pub proof fn law_samples_and_control_change_the_check(
    check: ReplayCheckView,
    samples: Seq<(u64, u64)>,
    replay: Replay,
)
    ensures
        ({
            let after = after_samples(check, samples);
            &&& check.samples is None ==> {
                &&& after.samples == Some(samples)
                &&& after.memory_identical == check.memory_identical
            }
            &&& check.samples is Some ==> {
                &&& after.samples == check.samples
                &&& after.memory_identical == (check.memory_identical && check.samples->0 == samples)
            }
            &&& after.baseline == check.baseline
            &&& after.exits_identical == check.exits_identical
            &&& after.control_noticed == check.control_noticed
        }),
        ({
            let base = check.baseline->0;
            let after = after_control(check, replay);
            &&& after.control_noticed <==> check.control_noticed && {
                ||| base.outcome@ != replay.outcome@
                ||| base.other@ != replay.other@
                ||| base.ept@ != replay.ept@
            }
            &&& after.baseline == check.baseline
            &&& after.exits_identical == check.exits_identical
            &&& after.samples == check.samples
            &&& after.memory_identical == check.memory_identical
        }),
        fresh_check().baseline is None,
        fresh_check().samples is None,
        fresh_check().exits_identical && fresh_check().memory_identical
            && fresh_check().control_noticed,
{
}

/// A check is called deterministic exactly if nothing was found against it, and
/// a control that went unnoticed decides alone.
pub proof fn law_conclusion_weighs_all_findings(
    exits_identical: bool,
    memory_identical: bool,
    control_noticed: bool,
)
    ensures
        concluded(exits_identical, memory_identical, control_noticed) == Conclusion::Deterministic
            <==> exits_identical && memory_identical && control_noticed,
        concluded(exits_identical, memory_identical, control_noticed) == Conclusion::ControlFailed
            <==> !control_noticed,
{
}

/// A whole check is called deterministic exactly if every replay had the first
/// one's exits, all memory samples were the same, and the control, where there
/// was one, differed in something that the guest caused.
pub proof fn law_deterministic_means_identical(
    replays: Seq<Replay>,
    samples: Seq<Seq<(u64, u64)>>,
    control: Option<Replay>,
)
    requires
        replays.len() > 0,
        forall|i: int|
            0 <= i < replays.len() ==> (#[trigger] replays[i]).outcome@ == FuzzOutcomeView::Pass,
    ensures
        ({
            let check = whole_check(replays, samples, control);
            concluded(check.exits_identical, check.memory_identical, check.control_noticed)
                == Conclusion::Deterministic
        }) <==> {
            &&& forall|i: int|
                0 <= i < replays.len() ==> (#[trigger] replays[i]).other@ == replays[0].other@ && (
                replays[i].ept@.len() == replays[0].ept@.len() ==> replays[i].ept@
                    == replays[0].ept@)
            &&& forall|i: int| 0 <= i < samples.len() ==> #[trigger] samples[i] == samples[0]
            &&& control matches Some(replay) ==> {
                ||| replay.outcome@ != replays[0].outcome@
                ||| replay.other@ != replays[0].other@
                ||| replay.ept@ != replays[0].ept@
            }
        },
{
    law_deterministic_iff_all_agree(replays, samples, control);
    let agree = forall|i: int|
        0 <= i < replays.len() ==> (#[trigger] replays[i]).other@ == replays[0].other@ && (
        replays[i].ept@.len() == replays[0].ept@.len() ==> replays[i].ept@ == replays[0].ept@);
    assert(agree <==> all_agree(replays)) by {
        if all_agree(replays) {
            assert forall|i: int| 0 <= i < replays.len() implies (#[trigger] replays[i]).other@
                == replays[0].other@ && (replays[i].ept@.len() == replays[0].ept@.len()
                ==> replays[i].ept@ == replays[0].ept@) by {
                assert(replay_parts_at(replays[0], replays[i], None));
            }
        }
    }
}

} // verus!
