//! Running a corpus of testcases: which files they are and in what order they
//! are run, what became of them, and what they covered.
//!
//! The target reports coverage through a buffer of edge hit counters. Every
//! fork has its own view of that buffer, so what is read back after a run is
//! the coverage of that testcase alone; [`fold_coverage`] adds it to what the
//! corpus reached so far.

use vstd::prelude::*;
#[allow(unused_imports)]
use vstd::utf8::{encode_utf8, encode_utf8_decode_utf8};

use crate::fuzz_input::FuzzOutcome;
use crate::text::read_text;
#[allow(unused_imports)]
use crate::text::text_of;

verus! {

/// Whether a file name is that of a program: something, and then `.ir`.
pub open spec fn is_program(file_name: Seq<u8>) -> bool {
    &&& file_name.len() > 3
    &&& file_name.skip(file_name.len() - 3) == seq![0x2eu8, 0x69, 0x72]
}

/// The name of the program in a file, which is the file's name without its
/// extension; `None` for a file that is no program.
pub fn program_name(file_name: &[u8]) -> (name: Option<String>)
    ensures
        match name {
            None => !is_program(file_name@),
            Some(name) => {
                &&& is_program(file_name@)
                &&& name@ == text_of(file_name@.take(file_name@.len() - 3))
            },
        },
{
    let len: usize = file_name.len();
    let ghost extension = file_name@.skip(file_name@.len() - 3);
    if len > 3 && file_name[len - 3] == 0x2e && file_name[len - 2] == 0x69 && file_name[len - 1]
        == 0x72 {
        assert(extension =~= seq![0x2eu8, 0x69, 0x72]);
        let stem: &[u8] = &file_name[0..len - 3];
        assert(stem@ =~= file_name@.take(file_name@.len() - 3));
        Some(read_text(stem))
    } else {
        proof {
            if is_program(file_name@) {
                assert(extension[0] == 0x2e && extension[1] == 0x69 && extension[2] == 0x72);
            }
        }
        None
    }
}

/// Whether `a` comes strictly before `b`: in the first byte in which they
/// differ, or by being a shorter beginning of it.
pub open spec fn precedes(a: Seq<u8>, b: Seq<u8>) -> bool
    decreases a.len(),
{
    if b.len() == 0 {
        false
    } else if a.len() == 0 {
        true
    } else if a[0] != b[0] {
        a[0] < b[0]
    } else {
        precedes(a.drop_first(), b.drop_first())
    }
}

proof fn lemma_precedes_is_asymmetric(a: Seq<u8>, b: Seq<u8>)
    requires
        precedes(a, b),
    ensures
        !precedes(b, a),
    decreases a.len(),
{
    if a.len() > 0 && a[0] == b[0] {
        lemma_precedes_is_asymmetric(a.drop_first(), b.drop_first());
    }
}

proof fn lemma_not_before(a: Seq<u8>, b: Seq<u8>, c: Seq<u8>)
    requires
        !precedes(b, a),
        !precedes(c, b),
    ensures
        !precedes(c, a),
    decreases a.len(),
{
    if a.len() > 0 && b.len() > 0 && c.len() > 0 && a[0] == b[0] && b[0] == c[0] {
        lemma_not_before(a.drop_first(), b.drop_first(), c.drop_first());
    }
}

fn comes_before(a: &[u8], b: &[u8]) -> (before: bool)
    ensures
        before == precedes(a@, b@),
{
    let mut i: usize = 0;
    assert(a@.skip(0) =~= a@);
    assert(b@.skip(0) =~= b@);
    while i < a.len() && i < b.len()
        invariant
            i <= a@.len(),
            i <= b@.len(),
            precedes(a@, b@) == precedes(a@.skip(i as int), b@.skip(i as int)),
        decreases a@.len() - i,
    {
        if a[i] != b[i] {
            return a[i] < b[i];
        }
        assert(a@.skip(i as int).drop_first() =~= a@.skip(i + 1));
        assert(b@.skip(i as int).drop_first() =~= b@.skip(i + 1));
        i = i + 1;
    }
    i < b.len()
}

/// The bytes of a program's name.
pub open spec fn name_of(program: (String, Vec<u8>)) -> Seq<u8> {
    encode_utf8(program.0@)
}

/// Programs of one name.
pub open spec fn named(name: Seq<u8>) -> spec_fn((String, Vec<u8>)) -> bool {
    |program: (String, Vec<u8>)| name_of(program) == name
}

/// Whether `sorted` holds the programs in order of their names, those of the
/// same name in the order that they had.
pub open spec fn in_name_order(
    programs: Seq<(String, Vec<u8>)>,
    sorted: Seq<(String, Vec<u8>)>,
) -> bool {
    &&& forall|i: int, j: int|
        0 <= i <= j < sorted.len() ==> !precedes(
            name_of(#[trigger] sorted[j]),
            name_of(#[trigger] sorted[i]),
        )
    &&& forall|name: Seq<u8>| #[trigger]
        sorted.filter(named(name)) == programs.filter(named(name))
    &&& sorted.len() == programs.len()
}

proof fn lemma_none_named(programs: Seq<(String, Vec<u8>)>, name: Seq<u8>)
    requires
        forall|i: int| 0 <= i < programs.len() ==> name_of(#[trigger] programs[i]) != name,
    ensures
        programs.filter(named(name)) == Seq::<(String, Vec<u8>)>::empty(),
    decreases programs.len(),
{
    reveal(Seq::filter);
    if programs.len() > 0 {
        assert(name_of(programs[programs.len() - 1]) != name);
        assert forall|i: int| 0 <= i < programs.drop_last().len() implies name_of(
            #[trigger] programs.drop_last()[i],
        ) != name by {
            assert(name_of(programs[i]) != name);
        }
        lemma_none_named(programs.drop_last(), name);
    }
}

/// Putting a program in front of all those that do not come before it keeps
/// the order, where it was in front of the others.
proof fn lemma_insert_in_name_order(
    programs: Seq<(String, Vec<u8>)>,
    sorted: Seq<(String, Vec<u8>)>,
    place: int,
    program: (String, Vec<u8>),
)
    requires
        in_name_order(programs, sorted),
        0 <= place <= sorted.len(),
        forall|i: int|
            0 <= i < place ==> precedes(name_of(#[trigger] sorted[i]), name_of(program)),
        place < sorted.len() ==> !precedes(name_of(sorted[place]), name_of(program)),
    ensures
        in_name_order(seq![program] + programs, sorted.insert(place, program)),
{
    let after = sorted.insert(place, program);
    let front = sorted.take(place);
    let back = sorted.skip(place);
    let one = seq![program];
    assert(sorted =~= front + back);
    assert(after =~= front + one + back);
    assert forall|i: int| 0 <= i < place implies name_of(#[trigger] front[i]) != name_of(
        program,
    ) by {
        assert(front[i] == sorted[i]);
        lemma_precedes_is_asymmetric(name_of(sorted[i]), name_of(program));
    }
    assert forall|name: Seq<u8>| #[trigger]
        after.filter(named(name)) == (one + programs).filter(named(name)) by {
        Seq::filter_distributes_over_add(front, back, named(name));
        Seq::filter_distributes_over_add(front + one, back, named(name));
        Seq::filter_distributes_over_add(front, one, named(name));
        Seq::filter_distributes_over_add(one, programs, named(name));
        assert(sorted.filter(named(name)) == programs.filter(named(name)));
        if name == name_of(program) {
            lemma_none_named(front, name);
            assert(after.filter(named(name)) =~= one.filter(named(name)) + programs.filter(
                named(name),
            ));
        } else {
            lemma_none_named(one, name);
            assert(after.filter(named(name)) =~= programs.filter(named(name)));
            assert((one + programs).filter(named(name)) =~= programs.filter(named(name)));
        }
    }
    assert forall|i: int, j: int| 0 <= i <= j < after.len() implies !precedes(
        name_of(#[trigger] after[j]),
        name_of(#[trigger] after[i]),
    ) by {
        if i < place && j == place {
            assert(after[i] == sorted[i]);
            lemma_precedes_is_asymmetric(name_of(sorted[i]), name_of(program));
        } else if i == place && j == place {
            if precedes(name_of(program), name_of(program)) {
                lemma_precedes_is_asymmetric(name_of(program), name_of(program));
            }
        } else if i == place {
            assert(after[j] == sorted[j - 1]);
            assert(!precedes(name_of(sorted[j - 1]), name_of(sorted[place])));
            lemma_not_before(name_of(program), name_of(sorted[place]), name_of(sorted[j - 1]));
        } else {
            let x = if i < place {
                i
            } else {
                i - 1
            };
            let y = if j < place {
                j
            } else {
                j - 1
            };
            assert(after[i] == sorted[x]);
            assert(after[j] == sorted[y]);
        }
    }
}

/// Puts the programs of a corpus in the order in which they are run: that of
/// their names, compared byte by byte.
pub fn sort_programs(programs: Vec<(String, Vec<u8>)>) -> (sorted: Vec<(String, Vec<u8>)>)
    ensures
        in_name_order(programs@, sorted@),
{
    let ghost all = programs@;
    let mut left: Vec<(String, Vec<u8>)> = programs;
    let mut sorted: Vec<(String, Vec<u8>)> = Vec::new();
    assert(all.skip(all.len() as int) =~= Seq::empty());
    while left.len() > 0
        invariant
            left@.len() <= all.len(),
            left@ == all.take(left@.len() as int),
            in_name_order(all.skip(left@.len() as int), sorted@),
        decreases left@.len(),
    {
        let ghost count = left@.len() as int;
        match left.pop() {
            None => {},
            Some(program) => {
                let mut place: usize = 0;
                while place < sorted.len() && comes_before(
                    sorted[place].0.as_str().as_bytes(),
                    program.0.as_str().as_bytes(),
                )
                    invariant
                        place <= sorted@.len(),
                        forall|i: int|
                            0 <= i < place ==> precedes(
                                name_of(#[trigger] sorted@[i]),
                                name_of(program),
                            ),
                    decreases sorted@.len() - place,
                {
                    place = place + 1;
                }
                proof {
                    lemma_insert_in_name_order(
                        all.skip(count),
                        sorted@,
                        place as int,
                        program,
                    );
                    assert(seq![program] + all.skip(count) =~= all.skip(count - 1));
                    assert(left@ =~= all.take(count - 1));
                }
                sorted.insert(place, program);
            },
        }
    }
    assert(all.skip(0) =~= all);
    sorted
}

proof fn lemma_neither_before(a: Seq<u8>, b: Seq<u8>)
    requires
        !precedes(a, b),
        !precedes(b, a),
    ensures
        a == b,
    decreases a.len(),
{
    if a.len() > 0 && b.len() > 0 {
        lemma_neither_before(a.drop_first(), b.drop_first());
        assert(a =~= seq![a[0]] + a.drop_first());
        assert(b =~= seq![b[0]] + b.drop_first());
    } else {
        assert(a =~= b);
    }
}

/// There is only one order in which the programs of a corpus are run.
pub proof fn law_name_order_is_unique(
    programs: Seq<(String, Vec<u8>)>,
    sorted: Seq<(String, Vec<u8>)>,
    again: Seq<(String, Vec<u8>)>,
)
    requires
        in_name_order(programs, sorted),
        in_name_order(programs, again),
    ensures
        sorted == again,
{
    assert(in_name_order(sorted, again)) by {
        assert forall|name: Seq<u8>| #[trigger]
            again.filter(named(name)) == sorted.filter(named(name)) by {
            assert(programs.filter(named(name)) == sorted.filter(named(name)));
        }
    }
    lemma_same_name_order(sorted, again);
}

proof fn lemma_last_is_last_named(programs: Seq<(String, Vec<u8>)>)
    requires
        programs.len() > 0,
    ensures
        programs.filter(named(name_of(programs.last()))).len() > 0,
        programs.filter(named(name_of(programs.last()))).last() == programs.last(),
{
    reveal(Seq::filter);
}

proof fn lemma_occurs(programs: Seq<(String, Vec<u8>)>, name: Seq<u8>) -> (place: int)
    requires
        programs.filter(named(name)).len() > 0,
    ensures
        0 <= place < programs.len(),
        name_of(programs[place]) == name,
    decreases programs.len(),
{
    reveal(Seq::filter);
    if name_of(programs.last()) == name {
        programs.len() - 1
    } else {
        lemma_occurs(programs.drop_last(), name)
    }
}

proof fn lemma_same_name_order(
    sorted: Seq<(String, Vec<u8>)>,
    again: Seq<(String, Vec<u8>)>,
)
    requires
        forall|i: int, j: int|
            0 <= i <= j < sorted.len() ==> !precedes(
                name_of(#[trigger] sorted[j]),
                name_of(#[trigger] sorted[i]),
            ),
        in_name_order(sorted, again),
    ensures
        sorted == again,
    decreases sorted.len(),
{
    if sorted.len() > 0 {
        let x = sorted.last();
        let y = again.last();
        lemma_last_is_last_named(sorted);
        lemma_last_is_last_named(again);
        assert(again.filter(named(name_of(x))) == sorted.filter(named(name_of(x))));
        assert(again.filter(named(name_of(y))) == sorted.filter(named(name_of(y))));
        // Each last name occurs in the other sequence, so neither comes later.
        let i = lemma_occurs(again, name_of(x));
        let j = lemma_occurs(sorted, name_of(y));
        assert(!precedes(name_of(again[again.len() - 1]), name_of(again[i])));
        assert(!precedes(name_of(sorted[sorted.len() - 1]), name_of(sorted[j])));
        lemma_neither_before(name_of(x), name_of(y));
        assert(x == y);
        let front = sorted.drop_last();
        let other = again.drop_last();
        assert forall|name: Seq<u8>| #[trigger]
            other.filter(named(name)) == front.filter(named(name)) by {
            assert(again.filter(named(name)) == sorted.filter(named(name)));
            reveal(Seq::filter);
            if name == name_of(x) {
                assert(other.filter(named(name)) =~= again.filter(named(name)).drop_last());
                assert(front.filter(named(name)) =~= sorted.filter(named(name)).drop_last());
            }
        }
        assert forall|i: int, j: int| 0 <= i <= j < other.len() implies !precedes(
            name_of(#[trigger] other[j]),
            name_of(#[trigger] other[i]),
        ) by {
            assert(other[i] == again[i] && other[j] == again[j]);
        }
        assert forall|i: int, j: int| 0 <= i <= j < front.len() implies !precedes(
            name_of(#[trigger] front[j]),
            name_of(#[trigger] front[i]),
        ) by {
            assert(front[i] == sorted[i] && front[j] == sorted[j]);
        }
        lemma_same_name_order(front, other);
        assert(sorted =~= front.push(x));
        assert(again =~= other.push(y));
    } else {
        assert(sorted =~= again);
    }
}

/// Whether an input of `len` bytes is too large for the guest's buffer.
pub fn is_oversized(len: usize, capacity: usize) -> (oversized: bool)
    ensures
        oversized == (len > capacity),
{
    len > capacity
}

/// How one testcase of a corpus ended.
#[derive(Debug)]
pub enum CaseEnd {
    /// It does not fit in the guest's input buffer, so it was not run.
    Oversized,
    /// The guest asked for its next input, with this report.
    Reported(FuzzOutcome),
    /// It ran out of time.
    TimedOut,
    /// It ended in any other way.
    Unexpected,
}

/// What became of the testcases of a corpus.
#[derive(Debug, Clone, Copy, PartialEq, Eq, Structural)]
pub struct Tally {
    pub passed: usize,
    pub skipped: usize,
    pub failed: usize,
    pub timed_out: usize,
}

impl Tally {
    /// A tally of nothing.
    pub fn new() -> (tally: Self)
        ensures
            tally == (Tally { passed: 0, skipped: 0, failed: 0, timed_out: 0 }),
    {
        Tally { passed: 0, skipped: 0, failed: 0, timed_out: 0 }
    }

    /// How many testcases were counted.
    pub open spec fn spec_total(self) -> nat {
        (self.passed + self.skipped + self.failed + self.timed_out) as nat
    }

    /// How many testcases were executed. One that was skipped was not.
    pub open spec fn spec_executions(self) -> nat {
        (self.passed + self.failed + self.timed_out) as nat
    }

    /// The tally after one more testcase.
    pub open spec fn spec_after(self, end: CaseEnd) -> Tally {
        match end {
            CaseEnd::Oversized => Tally { skipped: (self.skipped + 1) as usize, ..self },
            CaseEnd::TimedOut => Tally { timed_out: (self.timed_out + 1) as usize, ..self },
            CaseEnd::Unexpected => Tally { failed: (self.failed + 1) as usize, ..self },
            CaseEnd::Reported(outcome) => match outcome {
                FuzzOutcome::Pass => Tally { passed: (self.passed + 1) as usize, ..self },
                FuzzOutcome::Skip => Tally { skipped: (self.skipped + 1) as usize, ..self },
                FuzzOutcome::Fail(_) => Tally { failed: (self.failed + 1) as usize, ..self },
                FuzzOutcome::Unknown(_) => Tally { failed: (self.failed + 1) as usize, ..self },
            },
        }
    }

    /// Counts one more testcase.
    pub fn record(&mut self, end: &CaseEnd)
        requires
            old(self).spec_total() < usize::MAX,
        ensures
            *final(self) == old(self).spec_after(*end),
            match *end {
                CaseEnd::Reported(FuzzOutcome::Pass) => final(self).passed == old(self).passed + 1,
                CaseEnd::Reported(FuzzOutcome::Skip) => final(self).skipped == old(self).skipped + 1,
                CaseEnd::Reported(_) => final(self).failed == old(self).failed + 1,
                CaseEnd::Oversized => final(self).skipped == old(self).skipped + 1,
                CaseEnd::TimedOut => final(self).timed_out == old(self).timed_out + 1,
                CaseEnd::Unexpected => final(self).failed == old(self).failed + 1,
            },
            final(self).spec_total() == old(self).spec_total() + 1,
            final(self).spec_executions() == old(self).spec_executions() + match *end {
                CaseEnd::Oversized => 0nat,
                CaseEnd::Reported(FuzzOutcome::Skip) => 0nat,
                _ => 1nat,
            },
    {
        match end {
            CaseEnd::Oversized => {
                self.skipped = self.skipped + 1;
            },
            CaseEnd::TimedOut => {
                self.timed_out = self.timed_out + 1;
            },
            CaseEnd::Unexpected => {
                self.failed = self.failed + 1;
            },
            CaseEnd::Reported(outcome) => match outcome {
                FuzzOutcome::Pass => {
                    self.passed = self.passed + 1;
                },
                FuzzOutcome::Skip => {
                    self.skipped = self.skipped + 1;
                },
                FuzzOutcome::Fail(_) => {
                    self.failed = self.failed + 1;
                },
                FuzzOutcome::Unknown(_) => {
                    self.failed = self.failed + 1;
                },
            },
        }
    }

    /// How many testcases were counted.
    pub fn total(&self) -> (total: usize)
        requires
            self.spec_total() <= usize::MAX,
        ensures
            total == self.spec_total(),
    {
        self.passed + self.skipped + self.failed + self.timed_out
    }

    /// How many testcases were executed. One that was skipped was not.
    pub fn executions(&self) -> (executions: usize)
        requires
            self.spec_executions() <= usize::MAX,
        ensures
            executions == self.spec_executions(),
    {
        self.passed + self.failed + self.timed_out
    }
}

/// A counter of a coverage map; zero behind the map's end.
pub open spec fn counter(map: Seq<u8>, edge: int) -> u8 {
    if 0 <= edge < map.len() {
        map[edge]
    } else {
        0
    }
}

/// Two coverage maps as one, as long as the longer of the two.
pub open spec fn merged(a: Seq<u8>, b: Seq<u8>) -> Seq<u8> {
    Seq::new(
        if a.len() < b.len() {
            b.len()
        } else {
            a.len()
        },
        |edge: int| counter(a, edge) | counter(b, edge),
    )
}

/// Folds one testcase's edge hit counts into a running union.
pub fn fold_coverage(union: &mut Vec<u8>, map: &[u8])
    ensures
        final(union)@ == merged(old(union)@, map@),
{
    let ghost before = union@;
    while union.len() < map.len()
        invariant
            before.len() <= union@.len(),
            union@.len() <= before.len() || union@.len() <= map@.len(),
            forall|edge: int| 0 <= edge < union@.len() ==> union@[edge] == counter(before, edge),
        decreases map@.len() - union@.len(),
    {
        union.push(0);
    }
    let mut i: usize = 0;
    while i < map.len()
        invariant
            i <= map@.len() <= union@.len(),
            union@.len() == if before.len() < map@.len() {
                map@.len()
            } else {
                before.len()
            },
            forall|edge: int|
                0 <= edge < i ==> union@[edge] == counter(before, edge) | counter(map@, edge),
            forall|edge: int| i <= edge < union@.len() ==> union@[edge] == counter(before, edge),
        decreases map@.len() - i,
    {
        let both: u8 = union[i] | map[i];
        union.set(i, both);
        i = i + 1;
    }
    proof {
        assert forall|edge: int| 0 <= edge < union@.len() implies union@[edge] == merged(
            before,
            map@,
        )[edge] by {
            let byte = counter(before, edge);
            assert(byte | 0 == byte) by (bit_vector);
        }
        assert(union@ =~= merged(before, map@));
    }
}

/// How many counters of a map are not zero.
pub open spec fn hits(map: Seq<u8>) -> nat
    decreases map.len(),
{
    if map.len() == 0 {
        0
    } else if map.last() != 0 {
        hits(map.drop_last()) + 1
    } else {
        hits(map.drop_last())
    }
}

/// How many edges were hit.
pub fn count_hits(map: &[u8]) -> (count: usize)
    ensures
        count == hits(map@),
        count == map@.filter(|count: u8| count != 0).len(),
{
    let mut count: usize = 0;
    let mut i: usize = 0;
    assert(map@.take(0) =~= Seq::empty());
    while i < map.len()
        invariant
            i <= map@.len(),
            count <= i,
            count == hits(map@.take(i as int)),
        decreases map@.len() - i,
    {
        assert(map@.take(i + 1).drop_last() =~= map@.take(i as int));
        if map[i] != 0 {
            count = count + 1;
        }
        i = i + 1;
    }
    assert(map@.take(i as int) =~= map@);
    proof {
        law_hits_are_the_places_that_were_hit(map@);
    }
    count
}

proof fn lemma_merged_counter(a: Seq<u8>, b: Seq<u8>, edge: int)
    ensures
        counter(merged(a, b), edge) == counter(a, edge) | counter(b, edge),
{
    assert(0u8 | 0u8 == 0u8) by (bit_vector);
}

/// The order in which testcases are folded in makes no difference, and folding
/// one in twice adds nothing.
pub proof fn law_coverage_ignores_order(union: Seq<u8>, a: Seq<u8>, b: Seq<u8>)
    ensures
        merged(merged(union, a), b) == merged(merged(union, b), a),
        merged(merged(union, a), a) == merged(union, a),
{
    let ab = merged(merged(union, a), b);
    let ba = merged(merged(union, b), a);
    let aa = merged(merged(union, a), a);
    assert forall|edge: int| 0 <= edge < ab.len() implies ab[edge] == ba[edge] by {
        lemma_merged_counter(union, a, edge);
        lemma_merged_counter(union, b, edge);
        let (x, y, z) = (counter(union, edge), counter(a, edge), counter(b, edge));
        assert((x | y) | z == (x | z) | y) by (bit_vector);
    }
    assert forall|edge: int| 0 <= edge < aa.len() implies aa[edge] == merged(union, a)[edge] by {
        lemma_merged_counter(union, a, edge);
        let (x, y) = (counter(union, edge), counter(a, edge));
        assert((x | y) | y == x | y) by (bit_vector);
    }
    assert(ab =~= ba);
    assert(aa =~= merged(union, a));
}

/// An edge counts as hit in the union exactly when some testcase hit it, so
/// that folding one in never loses an edge.
pub proof fn law_coverage_keeps_edges(union: Seq<u8>, map: Seq<u8>, edge: int)
    ensures
        counter(merged(union, map), edge) != 0 <==> counter(union, edge) != 0 || counter(map, edge)
            != 0,
{
    let (x, y) = (counter(union, edge), counter(map, edge));
    assert(x | y != 0 <==> x != 0 || y != 0) by (bit_vector);
}

/// Whether a text starts with `cov-`.
pub open spec fn is_coverage_id(id: Seq<char>) -> bool {
    &&& id.len() >= 4
    &&& id.take(4) == seq!['c', 'o', 'v', '-']
}

/// The place of the first registered buffer that holds coverage.
pub fn find_coverage(ids: &[String]) -> (place: Option<usize>)
    ensures
        match place {
            Some(i) => {
                &&& i < ids@.len()
                &&& is_coverage_id(ids@[i as int]@)
                &&& forall|j: int| 0 <= j < i ==> !is_coverage_id(#[trigger] ids@[j]@)
            },
            None => forall|j: int| 0 <= j < ids@.len() ==> !is_coverage_id(#[trigger] ids@[j]@),
        },
{
    let mut i: usize = 0;
    while i < ids.len()
        invariant
            i <= ids@.len(),
            forall|j: int| 0 <= j < i ==> !is_coverage_id(#[trigger] ids@[j]@),
        decreases ids@.len() - i,
    {
        let id: &str = ids[i].as_str();
        if id.unicode_len() >= 4 && id.get_char(0) == 'c' && id.get_char(1) == 'o' && id.get_char(2)
            == 'v' && id.get_char(3) == '-' {
            assert(id@.take(4) =~= seq!['c', 'o', 'v', '-']);
            return Some(i);
        }
        proof {
            if is_coverage_id(id@) {
                assert(id@.take(4)[0] == 'c');
                assert(id@.take(4)[1] == 'o');
                assert(id@.take(4)[2] == 'v');
                assert(id@.take(4)[3] == '-');
            }
        }
        i = i + 1;
    }
    None
}

/// A program's file is a name, of any length but none, and `.ir` behind it; no
/// other file is one.
pub proof fn law_programs_end_in_ir(stem: Seq<u8>, file_name: Seq<u8>)
    ensures
        is_program(stem + seq![0x2eu8, 0x69, 0x72]) <==> stem.len() > 0,
        is_program(file_name) ==> {
            &&& file_name.len() > 3
            &&& file_name == file_name.take(file_name.len() - 3) + seq![0x2eu8, 0x69, 0x72]
        },
{
    let file = stem + seq![0x2eu8, 0x69, 0x72];
    assert(file.skip(file.len() - 3) =~= seq![0x2eu8, 0x69, 0x72]);
    if is_program(file_name) {
        assert(file_name =~= file_name.take(file_name.len() - 3) + file_name.skip(
            file_name.len() - 3,
        ));
    }
}

/// Whether two byte strings agree up to a place, and the first ends there or has
/// the smaller byte there.
pub open spec fn ahead_at(a: Seq<u8>, b: Seq<u8>, place: int) -> bool {
    &&& 0 <= place <= a.len()
    &&& place < b.len()
    &&& forall|i: int| 0 <= i < place ==> a[i] == b[i]
    &&& place == a.len() || a[place] < b[place]
}

proof fn lemma_ahead_somewhere(a: Seq<u8>, b: Seq<u8>) -> (place: int)
    requires
        precedes(a, b),
    ensures
        ahead_at(a, b, place),
    decreases a.len(),
{
    if a.len() == 0 || a[0] != b[0] {
        0
    } else {
        let rest = lemma_ahead_somewhere(a.drop_first(), b.drop_first());
        assert forall|i: int| 0 <= i < rest + 1 implies a[i] == b[i] by {
            if i > 0 {
                assert(a.drop_first()[i - 1] == b.drop_first()[i - 1]);
            }
        }
        rest + 1
    }
}

proof fn lemma_ahead_precedes(a: Seq<u8>, b: Seq<u8>, place: int)
    requires
        ahead_at(a, b, place),
    ensures
        precedes(a, b),
    decreases a.len(),
{
    if a.len() > 0 && place > 0 {
        assert(a[0] == b[0]);
        assert forall|i: int| 0 <= i < place - 1 implies a.drop_first()[i] == b.drop_first()[i] by {
            assert(a[i + 1] == b[i + 1]);
        }
        lemma_ahead_precedes(a.drop_first(), b.drop_first(), place - 1);
    }
}

/// Names are in lexicographic order, byte by byte: one comes before another
/// exactly if it has the smaller byte in the first place where they differ, or
/// is a shorter beginning of it. Of two different names exactly one comes first.
pub proof fn law_names_are_in_lexicographic_order(a: Seq<u8>, b: Seq<u8>)
    ensures
        precedes(a, b) <==> exists|place: int| ahead_at(a, b, place),
        !precedes(a, a),
        precedes(a, b) ==> !precedes(b, a),
        a != b ==> precedes(a, b) || precedes(b, a),
{
    if precedes(a, b) {
        let place = lemma_ahead_somewhere(a, b);
        lemma_precedes_is_asymmetric(a, b);
    }
    if exists|place: int| ahead_at(a, b, place) {
        let place = choose|place: int| ahead_at(a, b, place);
        lemma_ahead_precedes(a, b, place);
    }
    if precedes(a, a) {
        lemma_precedes_is_asymmetric(a, a);
    }
    if !precedes(a, b) && !precedes(b, a) {
        lemma_neither_before(a, b);
    }
}

/// Sorting keeps every program, with its bytes, and those of one name in their
/// order, and no name comes before an earlier one.
pub proof fn law_sorting_keeps_the_programs(
    programs: Seq<(String, Vec<u8>)>,
    sorted: Seq<(String, Vec<u8>)>,
    name: Seq<char>,
)
    requires
        in_name_order(programs, sorted),
    ensures
        sorted.len() == programs.len(),
        sorted.filter(|program: (String, Vec<u8>)| program.0@ == name) == programs.filter(
            |program: (String, Vec<u8>)| program.0@ == name,
        ),
        forall|i: int, j: int|
            0 <= i <= j < sorted.len() ==> !precedes(
                encode_utf8((#[trigger] sorted[j]).0@),
                encode_utf8((#[trigger] sorted[i]).0@),
            ),
{
    let bytes = encode_utf8(name);
    assert forall|program: (String, Vec<u8>)|
        (encode_utf8(program.0@) == bytes) == (#[trigger] program.0@ == name) by {
        encode_utf8_decode_utf8(program.0@);
        encode_utf8_decode_utf8(name);
    }
    assert(named(bytes) =~= |program: (String, Vec<u8>)| program.0@ == name);
    assert(sorted.filter(named(bytes)) == programs.filter(named(bytes)));
    assert forall|i: int, j: int| 0 <= i <= j < sorted.len() implies !precedes(
        encode_utf8((#[trigger] sorted[j]).0@),
        encode_utf8((#[trigger] sorted[i]).0@),
    ) by {
        assert(!precedes(name_of(sorted[j]), name_of(sorted[i])));
    }
}

/// One more testcase raises exactly one counter by one. That is `passed` for a
/// pass, `failed` for a failure with any message, an unknown status of any value
/// and an unexpected end, `skipped` for a skip and an input that does not fit,
/// and `timed_out` for one that ran out of time.
pub proof fn law_each_end_raises_its_counter(tally: Tally, end: CaseEnd)
    requires
        tally.passed < usize::MAX,
        tally.skipped < usize::MAX,
        tally.failed < usize::MAX,
        tally.timed_out < usize::MAX,
    ensures
        tally.spec_after(end).passed == tally.passed + if end is Reported
            && end->Reported_0 is Pass {
            1int
        } else {
            0
        },
        tally.spec_after(end).failed == tally.failed + if end is Unexpected || (end is Reported && (
        end->Reported_0 is Fail || end->Reported_0 is Unknown)) {
            1int
        } else {
            0
        },
        tally.spec_after(end).skipped == tally.skipped + if end is Oversized || (end is Reported
            && end->Reported_0 is Skip) {
            1int
        } else {
            0
        },
        tally.spec_after(end).timed_out == tally.timed_out + if end is TimedOut {
            1int
        } else {
            0
        },
{
}

/// The tally of some testcases.
pub open spec fn tally_of(ends: Seq<CaseEnd>) -> Tally
    decreases ends.len(),
{
    if ends.len() == 0 {
        Tally { passed: 0, skipped: 0, failed: 0, timed_out: 0 }
    } else {
        tally_of(ends.drop_last()).spec_after(ends.last())
    }
}

/// After any run of testcases, each counter is the number of those that ended in
/// its way: passes, bugs with the unknown and the unexpected, skips with what
/// did not fit, and timeouts. The total is the number of all, and those that
/// were executed are all but the skipped.
pub proof fn law_tally_counts_the_testcases(ends: Seq<CaseEnd>)
    requires
        ends.len() <= usize::MAX,
    ensures
        tally_of(ends).passed == ends.filter(
            |end: CaseEnd| end is Reported && end->Reported_0 is Pass,
        ).len(),
        tally_of(ends).failed == ends.filter(
            |end: CaseEnd|
                end is Unexpected || (end is Reported && (end->Reported_0 is Fail
                    || end->Reported_0 is Unknown)),
        ).len(),
        tally_of(ends).skipped == ends.filter(
            |end: CaseEnd| end is Oversized || (end is Reported && end->Reported_0 is Skip),
        ).len(),
        tally_of(ends).timed_out == ends.filter(|end: CaseEnd| end is TimedOut).len(),
        tally_of(ends).spec_total() == ends.len(),
        tally_of(ends).spec_executions() == ends.len() - tally_of(ends).skipped,
        tally_of(ends).passed + tally_of(ends).skipped + tally_of(ends).failed + tally_of(
            ends,
        ).timed_out == ends.len(),
    decreases ends.len(),
{
    reveal(Seq::filter);
    if ends.len() > 0 {
        let earlier = ends.drop_last();
        law_tally_counts_the_testcases(earlier);
        law_each_end_raises_its_counter(tally_of(earlier), ends.last());
    }
}

/// The totals of a tally are sums of its counters.
pub proof fn law_totals_are_sums(tally: Tally)
    ensures
        tally.spec_total() == tally.passed + tally.skipped + tally.failed + tally.timed_out,
        tally.spec_executions() == tally.passed + tally.failed + tally.timed_out,
{
}

/// The union is as long as the longer map and has in each place the bits of
/// both, or those of the one that reaches so far.
pub proof fn law_union_has_the_bits_of_both(a: Seq<u8>, b: Seq<u8>)
    ensures
        merged(a, b).len() == if a.len() < b.len() {
            b.len()
        } else {
            a.len()
        },
        forall|i: int|
            0 <= i < a.len() && i < b.len() ==> #[trigger] merged(a, b)[i] == a[i] | b[i],
        forall|i: int| b.len() <= i < a.len() ==> #[trigger] merged(a, b)[i] == a[i],
        forall|i: int| a.len() <= i < b.len() ==> #[trigger] merged(a, b)[i] == b[i],
        forall|i: int| 0 <= i < a.len() ==> #[trigger] counter(a, i) == a[i],
        forall|i: int| i >= a.len() ==> #[trigger] counter(a, i) == 0,
{
    assert forall|i: int| b.len() <= i < a.len() implies #[trigger] merged(a, b)[i] == a[i] by {
        let byte = a[i];
        assert(byte | 0 == byte) by (bit_vector);
    }
    assert forall|i: int| a.len() <= i < b.len() implies #[trigger] merged(a, b)[i] == b[i] by {
        let byte = b[i];
        assert(0 | byte == byte) by (bit_vector);
    }
}

/// The number of hits is the number of places whose counter is not zero,
/// whatever its value is.
pub proof fn law_hits_are_the_places_that_were_hit(map: Seq<u8>)
    ensures
        hits(map) == map.filter(|count: u8| count != 0).len(),
        Set::new(|edge: int| 0 <= edge < map.len() && map[edge] != 0).finite(),
        hits(map) == Set::new(|edge: int| 0 <= edge < map.len() && map[edge] != 0).len(),
        hits(map) == 0 <==> forall|edge: int| 0 <= edge < map.len() ==> map[edge] == 0,
    decreases map.len(),
{
    reveal(Seq::filter);
    let places = Set::new(|edge: int| 0 <= edge < map.len() && map[edge] != 0);
    if map.len() == 0 {
        assert(places =~= Set::empty());
    } else {
        let front = map.drop_last();
        law_hits_are_the_places_that_were_hit(front);
        let earlier = Set::new(|edge: int| 0 <= edge < front.len() && front[edge] != 0);
        let last = map.len() - 1;
        if map.last() != 0 {
            assert(places =~= earlier.insert(last));
            assert(!earlier.contains(last));
            assert(map[last] != 0);
        } else {
            assert(places =~= earlier);
            assert(map[last] == 0);
        }
        assert(forall|edge: int| 0 <= edge < front.len() ==> front[edge] == map[edge]);
    }
}

/// Each counter that is not zero is one hit, and hits add up over the parts of a
/// map.
pub proof fn law_hits_add_up(front: Seq<u8>, back: Seq<u8>, count: u8)
    ensures
        hits(seq![count]) == if count == 0 {
            0nat
        } else {
            1
        },
        hits(front + back) == hits(front) + hits(back),
    decreases back.len(),
{
    assert(seq![count].drop_last() =~= Seq::empty());
    assert(hits(seq![count].drop_last()) == 0);
    if back.len() == 0 {
        assert(front + back =~= front);
    } else {
        law_hits_add_up(front, back.drop_last(), count);
        assert((front + back).drop_last() =~= front + back.drop_last());
    }
}

/// A coverage buffer is one whose id is `cov-` with anything behind it.
pub proof fn law_coverage_ids_start_with_cov(id: Seq<char>, rest: Seq<char>)
    ensures
        is_coverage_id("cov-"@ + rest),
        is_coverage_id(id) ==> id.len() >= 4 && id == "cov-"@ + id.skip(4),
{
    reveal_strlit("cov-");
    assert(("cov-"@ + rest).take(4) =~= seq!['c', 'o', 'v', '-']);
    if is_coverage_id(id) {
        assert("cov-"@ =~= seq!['c', 'o', 'v', '-']);
        assert(id =~= id.take(4) + id.skip(4));
    }
}

} // verus!
