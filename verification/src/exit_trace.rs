//! Streams of VM exits, compared field by field.
//!
//! Every VM exit of a run is recorded as an [`ExitSnapshot`]. [`compare`] looks
//! for the first exit in which two streams differ and says what differs there.

use vstd::prelude::*;

use crate::text::push_decimal;
#[allow(unused_imports)]
use crate::text::decimal;

verus! {

/// How many fields an [`ExitSnapshot`] has.
pub const EXIT_FIELDS: usize = 23;

/// The fields of one exit that have to be identical across replays.
///
/// Deliberately a flat, comparable snapshot rather than the raw record: what a
/// record says about how the host took the exit is not guest state.
#[derive(Debug, Clone, Copy, PartialEq, Eq)]
pub struct ExitSnapshot {
    /// Emulated TSC.
    pub tsc: u64,
    /// VMX exit reason.
    pub exit_reason: u32,
    /// Flags of the record.
    pub flags: u32,
    /// General-purpose registers, `rax` to `r15`.
    pub gprs: [u64; 16],
    pub rip: u64,
    pub rflags: u64,
    pub cr3: u64,
    pub fs_base: u64,
    pub gs_base: u64,
    pub kernel_gs_base: u64,
    pub cs_base: u64,
    pub ds_base: u64,
    pub es_base: u64,
    pub ss_base: u64,
    pub interruptibility_state: u32,
    /// Copy-on-write pages so far.
    pub cow_page_count: u32,
    pub apic_hash: u64,
    pub serial_hash: u64,
    pub ioapic_hash: u64,
    pub rtc_hash: u64,
    pub mtrr_hash: u64,
    pub rdrand_hash: u64,
    /// Hash of all of guest memory, where one was taken.
    pub memory_hash: u64,
}

/// The names of the fields, in the order in which they are compared.
pub open spec fn field_names() -> Seq<Seq<char>> {
    seq![
        "tsc"@,
        "exit_reason"@,
        "flags"@,
        "gprs"@,
        "rip"@,
        "rflags"@,
        "cr3"@,
        "fs_base"@,
        "gs_base"@,
        "kernel_gs_base"@,
        "cs_base"@,
        "ds_base"@,
        "es_base"@,
        "ss_base"@,
        "interruptibility_state"@,
        "cow_page_count"@,
        "apic_hash"@,
        "serial_hash"@,
        "ioapic_hash"@,
        "rtc_hash"@,
        "mtrr_hash"@,
        "rdrand_hash"@,
        "memory_hash"@,
    ]
}

/// Whether two snapshots differ in the field with this number.
pub open spec fn field_differs(a: ExitSnapshot, b: ExitSnapshot, field: int) -> bool {
    if field == 0 {
        a.tsc != b.tsc
    } else if field == 1 {
        a.exit_reason != b.exit_reason
    } else if field == 2 {
        a.flags != b.flags
    } else if field == 3 {
        a.gprs@ != b.gprs@
    } else if field == 4 {
        a.rip != b.rip
    } else if field == 5 {
        a.rflags != b.rflags
    } else if field == 6 {
        a.cr3 != b.cr3
    } else if field == 7 {
        a.fs_base != b.fs_base
    } else if field == 8 {
        a.gs_base != b.gs_base
    } else if field == 9 {
        a.kernel_gs_base != b.kernel_gs_base
    } else if field == 10 {
        a.cs_base != b.cs_base
    } else if field == 11 {
        a.ds_base != b.ds_base
    } else if field == 12 {
        a.es_base != b.es_base
    } else if field == 13 {
        a.ss_base != b.ss_base
    } else if field == 14 {
        a.interruptibility_state != b.interruptibility_state
    } else if field == 15 {
        a.cow_page_count != b.cow_page_count
    } else if field == 16 {
        a.apic_hash != b.apic_hash
    } else if field == 17 {
        a.serial_hash != b.serial_hash
    } else if field == 18 {
        a.ioapic_hash != b.ioapic_hash
    } else if field == 19 {
        a.rtc_hash != b.rtc_hash
    } else if field == 20 {
        a.mtrr_hash != b.mtrr_hash
    } else if field == 21 {
        a.rdrand_hash != b.rdrand_hash
    } else {
        a.memory_hash != b.memory_hash
    }
}

/// The names of those among the first `count` fields in which two snapshots
/// differ.
pub open spec fn differing(a: ExitSnapshot, b: ExitSnapshot, count: nat) -> Seq<Seq<char>>
    decreases count,
{
    if count == 0 {
        Seq::empty()
    } else if field_differs(a, b, count - 1) {
        differing(a, b, (count - 1) as nat).push(field_names()[count - 1])
    } else {
        differing(a, b, (count - 1) as nat)
    }
}

/// The names of all fields in which two snapshots differ.
pub open spec fn difference(a: ExitSnapshot, b: ExitSnapshot) -> Seq<Seq<char>> {
    differing(a, b, EXIT_FIELDS as nat)
}

/// The texts behind a vector of string slices.
pub open spec fn texts(names: Seq<&'static str>) -> Seq<Seq<char>> {
    Seq::new(names.len(), |i: int| names[i]@)
}

fn field_name(field: usize) -> (name: &'static str)
    requires
        field < EXIT_FIELDS,
    ensures
        name@ == field_names()[field as int],
{
    match field {
        0 => "tsc",
        1 => "exit_reason",
        2 => "flags",
        3 => "gprs",
        4 => "rip",
        5 => "rflags",
        6 => "cr3",
        7 => "fs_base",
        8 => "gs_base",
        9 => "kernel_gs_base",
        10 => "cs_base",
        11 => "ds_base",
        12 => "es_base",
        13 => "ss_base",
        14 => "interruptibility_state",
        15 => "cow_page_count",
        16 => "apic_hash",
        17 => "serial_hash",
        18 => "ioapic_hash",
        19 => "rtc_hash",
        20 => "mtrr_hash",
        21 => "rdrand_hash",
        _ => "memory_hash",
    }
}

fn same_registers(a: &[u64; 16], b: &[u64; 16]) -> (same: bool)
    ensures
        same == (a@ == b@),
{
    let mut i: usize = 0;
    while i < 16
        invariant
            i <= 16,
            a@.len() == 16,
            b@.len() == 16,
            forall|j: int| 0 <= j < i ==> a@[j] == b@[j],
        decreases 16 - i,
    {
        if a[i] != b[i] {
            assert(a@[i as int] != b@[i as int]);
            return false;
        }
        i = i + 1;
    }
    assert(a@ =~= b@);
    true
}

impl ExitSnapshot {
    fn differs(&self, other: &Self, field: usize) -> (differs: bool)
        requires
            field < EXIT_FIELDS,
        ensures
            differs == field_differs(*self, *other, field as int),
    {
        match field {
            0 => self.tsc != other.tsc,
            1 => self.exit_reason != other.exit_reason,
            2 => self.flags != other.flags,
            3 => !same_registers(&self.gprs, &other.gprs),
            4 => self.rip != other.rip,
            5 => self.rflags != other.rflags,
            6 => self.cr3 != other.cr3,
            7 => self.fs_base != other.fs_base,
            8 => self.gs_base != other.gs_base,
            9 => self.kernel_gs_base != other.kernel_gs_base,
            10 => self.cs_base != other.cs_base,
            11 => self.ds_base != other.ds_base,
            12 => self.es_base != other.es_base,
            13 => self.ss_base != other.ss_base,
            14 => self.interruptibility_state != other.interruptibility_state,
            15 => self.cow_page_count != other.cow_page_count,
            16 => self.apic_hash != other.apic_hash,
            17 => self.serial_hash != other.serial_hash,
            18 => self.ioapic_hash != other.ioapic_hash,
            19 => self.rtc_hash != other.rtc_hash,
            20 => self.mtrr_hash != other.mtrr_hash,
            21 => self.rdrand_hash != other.rdrand_hash,
            _ => self.memory_hash != other.memory_hash,
        }
    }

    /// Names every field that differs, so that a divergence report says what
    /// drifted rather than just that something did.
    pub fn diff(&self, other: &Self) -> (names: Vec<&'static str>)
        ensures
            texts(names@) == difference(*self, *other),
    {
        let mut names: Vec<&'static str> = Vec::new();
        let mut field: usize = 0;
        assert(texts(names@) =~= differing(*self, *other, 0));
        while field < EXIT_FIELDS
            invariant
                field <= EXIT_FIELDS,
                texts(names@) == differing(*self, *other, field as nat),
            decreases EXIT_FIELDS - field,
        {
            if self.differs(other, field) {
                let ghost before = names@;
                names.push(field_name(field));
                assert(texts(names@) =~= texts(before).push(field_names()[field as int]));
            }
            field = field + 1;
        }
        names
    }
}

proof fn lemma_no_difference(a: ExitSnapshot, b: ExitSnapshot, count: nat)
    ensures
        differing(a, b, count).len() == 0 <==> forall|field: int|
            0 <= field < count ==> !field_differs(a, b, field),
    decreases count,
{
    if count > 0 {
        lemma_no_difference(a, b, (count - 1) as nat);
        if differing(a, b, count).len() == 0 {
            assert forall|field: int| 0 <= field < count implies !field_differs(a, b, field) by {
                if field < count - 1 {
                    assert(!field_differs(a, b, field));
                }
            }
        }
    }
}

/// Two snapshots have no difference exactly when they are the same.
pub proof fn law_no_difference_iff_same(a: ExitSnapshot, b: ExitSnapshot)
    ensures
        difference(a, b).len() == 0 <==> a == b,
{
    lemma_no_difference(a, b, EXIT_FIELDS as nat);
    if difference(a, b).len() == 0 {
        assert(!field_differs(a, b, 0));
        assert(!field_differs(a, b, 1));
        assert(!field_differs(a, b, 2));
        assert(!field_differs(a, b, 3));
        assert(!field_differs(a, b, 4));
        assert(!field_differs(a, b, 5));
        assert(!field_differs(a, b, 6));
        assert(!field_differs(a, b, 7));
        assert(!field_differs(a, b, 8));
        assert(!field_differs(a, b, 9));
        assert(!field_differs(a, b, 10));
        assert(!field_differs(a, b, 11));
        assert(!field_differs(a, b, 12));
        assert(!field_differs(a, b, 13));
        assert(!field_differs(a, b, 14));
        assert(!field_differs(a, b, 15));
        assert(!field_differs(a, b, 16));
        assert(!field_differs(a, b, 17));
        assert(!field_differs(a, b, 18));
        assert(!field_differs(a, b, 19));
        assert(!field_differs(a, b, 20));
        assert(!field_differs(a, b, 21));
        assert(!field_differs(a, b, 22));
        assert(a.gprs =~= b.gprs);
    }
}

proof fn lemma_differing_is_symmetric(a: ExitSnapshot, b: ExitSnapshot, count: nat)
    ensures
        differing(a, b, count) == differing(b, a, count),
    decreases count,
{
    if count > 0 {
        lemma_differing_is_symmetric(a, b, (count - 1) as nat);
    }
}

/// A difference is the same whichever snapshot comes first.
pub proof fn law_difference_is_symmetric(a: ExitSnapshot, b: ExitSnapshot)
    ensures
        difference(a, b) == difference(b, a),
{
    lemma_differing_is_symmetric(a, b, EXIT_FIELDS as nat);
}

/// Where two streams of exits part.
#[derive(Debug, PartialEq, Eq)]
pub enum Divergence {
    /// They are not of the same length.
    Count { count: usize, baseline: usize },
    /// This is the first exit in which they differ, as the baseline has it, and
    /// these are the fields in which they do.
    Exit { index: usize, reason: u32, tsc: u64, fields: Vec<&'static str> },
}

/// A [`Divergence`] with its field names as character sequences.
pub enum DivergenceView {
    Count { count: nat, baseline: nat },
    Exit { index: nat, reason: u32, tsc: u64, fields: Seq<Seq<char>> },
}

impl View for Divergence {
    type V = DivergenceView;

    open spec fn view(&self) -> DivergenceView {
        match self {
            Divergence::Count { count, baseline } => DivergenceView::Count {
                count: *count as nat,
                baseline: *baseline as nat,
            },
            Divergence::Exit { index, reason, tsc, fields } => DivergenceView::Exit {
                index: *index as nat,
                reason: *reason,
                tsc: *tsc,
                fields: texts(fields@),
            },
        }
    }
}

/// Whether `found` is where `other` parts from `base`; `None` when it does not.
pub open spec fn parts_at(
    base: Seq<ExitSnapshot>,
    other: Seq<ExitSnapshot>,
    found: Option<DivergenceView>,
) -> bool {
    match found {
        None => base == other,
        Some(DivergenceView::Count { count, baseline }) => {
            &&& base.len() != other.len()
            &&& count == other.len()
            &&& baseline == base.len()
        },
        Some(DivergenceView::Exit { index, reason, tsc, fields }) => {
            &&& base.len() == other.len()
            &&& index < base.len()
            &&& base.take(index as int) == other.take(index as int)
            &&& base[index as int] != other[index as int]
            &&& reason == base[index as int].exit_reason
            &&& tsc == base[index as int].tsc
            &&& fields == difference(base[index as int], other[index as int])
        },
    }
}

/// An optional divergence with its field names as character sequences.
pub open spec fn divergence_view(found: Option<Divergence>) -> Option<DivergenceView> {
    match found {
        None => None,
        Some(divergence) => Some(divergence@),
    }
}

/// `None` if the two exit streams are identical, else the first divergence.
pub fn compare(base: &[ExitSnapshot], other: &[ExitSnapshot]) -> (found: Option<Divergence>)
    ensures
        parts_at(base@, other@, divergence_view(found)),
{
    if base.len() != other.len() {
        return Some(Divergence::Count { count: other.len(), baseline: base.len() });
    }
    let mut i: usize = 0;
    while i < base.len()
        invariant
            i <= base@.len(),
            base@.len() == other@.len(),
            base@.take(i as int) == other@.take(i as int),
        decreases base@.len() - i,
    {
        let fields: Vec<&'static str> = base[i].diff(&other[i]);
        proof {
            law_no_difference_iff_same(base@[i as int], other@[i as int]);
            assert(texts(fields@).len() == fields@.len());
        }
        if fields.len() != 0 {
            return Some(
                Divergence::Exit {
                    index: i,
                    reason: base[i].exit_reason,
                    tsc: base[i].tsc,
                    fields,
                },
            );
        }
        assert(base@.take(i + 1) =~= base@.take(i as int).push(base@[i as int]));
        assert(other@.take(i + 1) =~= other@.take(i as int).push(other@[i as int]));
        i = i + 1;
    }
    assert(base@.take(i as int) =~= base@);
    assert(other@.take(i as int) =~= other@);
    None
}

/// What [`compare`] finds is determined by the two streams: there is one
/// answer, and it is `None` exactly when the streams are identical.
pub proof fn law_divergence_is_unique(
    base: Seq<ExitSnapshot>,
    other: Seq<ExitSnapshot>,
    found: Option<DivergenceView>,
    again: Option<DivergenceView>,
)
    requires
        parts_at(base, other, found),
        parts_at(base, other, again),
    ensures
        found == again,
        found is None <==> base == other,
{
    if let Some(DivergenceView::Exit { index: i, .. }) = found {
        if let Some(DivergenceView::Exit { index: j, .. }) = again {
            if i < j {
                assert(base.take(j as int)[i as int] == other.take(j as int)[i as int]);
            } else if j < i {
                assert(base.take(i as int)[j as int] == other.take(i as int)[j as int]);
            }
        }
    }
}

/// The first `count` of some names, separated by a comma and a space.
pub open spec fn listed(names: Seq<Seq<char>>, count: nat) -> Seq<char>
    decreases count,
{
    if count == 0 {
        Seq::empty()
    } else if count == 1 {
        names[0]
    } else {
        listed(names, (count - 1) as nat) + ", "@ + names[count - 1]
    }
}

impl DivergenceView {
    /// The divergence in words.
    pub open spec fn spec_message(self) -> Seq<char> {
        match self {
            DivergenceView::Count { count, baseline } => "exit count "@ + decimal(count)
                + " != baseline "@ + decimal(baseline),
            DivergenceView::Exit { index, reason, tsc, fields } => "exit #"@ + decimal(index)
                + " (reason "@ + decimal(reason as nat) + ", tsc "@ + decimal(tsc as nat)
                + ") differs in: "@ + listed(fields, fields.len()),
        }
    }
}

impl Divergence {
    /// The divergence in words.
    pub fn message(&self) -> (text: String)
        ensures
            text@ == self@.spec_message(),
    {
        match self {
            Divergence::Count { count, baseline } => {
                let mut text: String = "exit count ".to_owned();
                push_decimal(&mut text, *count as u64);
                text.append(" != baseline ");
                push_decimal(&mut text, *baseline as u64);
                text
            },
            Divergence::Exit { index, reason, tsc, fields } => {
                let mut text: String = "exit #".to_owned();
                push_decimal(&mut text, *index as u64);
                text.append(" (reason ");
                push_decimal(&mut text, *reason as u64);
                text.append(", tsc ");
                push_decimal(&mut text, *tsc);
                text.append(") differs in: ");
                let ghost start = text@;
                let ghost names = texts(fields@);
                let mut i: usize = 0;
                assert(start + listed(names, 0) =~= start);
                while i < fields.len()
                    invariant
                        i <= fields@.len(),
                        names == texts(fields@),
                        text@ == start + listed(names, i as nat),
                    decreases fields@.len() - i,
                {
                    if i > 0 {
                        text.append(", ");
                    }
                    text.append(fields[i]);
                    assert(text@ =~= start + listed(names, (i + 1) as nat));
                    i = i + 1;
                }
                text
            },
        }
    }
}

/// Whether a field is one in which snapshots differ, given with its name.
spec fn flagged() -> spec_fn((Seq<char>, bool)) -> bool {
    |field: (Seq<char>, bool)| field.1
}

/// The name of a field, given with whether snapshots differ in it.
spec fn labelled() -> spec_fn((Seq<char>, bool)) -> Seq<char> {
    |field: (Seq<char>, bool)| field.0
}

/// Whether a table holds each field's name and whether snapshots differ in it.
#[verifier::opaque]
spec fn tabulated(a: ExitSnapshot, b: ExitSnapshot, table: Seq<(Seq<char>, bool)>) -> bool {
    forall|i: int|
        0 <= i < 23 ==> #[trigger] table[i] == (field_names()[i], field_differs(a, b, i))
}

proof fn lemma_differing_fields(
    a: ExitSnapshot,
    b: ExitSnapshot,
    table: Seq<(Seq<char>, bool)>,
    count: nat,
)
    requires
        count <= table.len() == 23,
        tabulated(a, b, table),
    ensures
        differing(a, b, count) == table.take(count as int).filter(flagged()).map_values(
            labelled(),
        ),
    decreases count,
{
    reveal(Seq::filter);
    if count == 0 {
        assert(table.take(0).filter(flagged()).map_values(labelled()) =~= Seq::empty());
    } else {
        let less = (count - 1) as nat;
        lemma_differing_fields(a, b, table, less);
        assert(table.take(count as int).drop_last() =~= table.take(less as int));
        assert(table.take(count as int).last() == table[less as int]);
        let kept = table.take(less as int).filter(flagged());
        assert(table[less as int] == (field_names()[less as int], field_differs(a, b, less as int)))
            by {
            reveal(tabulated);
        }
        assert(kept.push(table[less as int]).map_values(labelled()) =~= kept.map_values(
            labelled(),
        ).push(field_names()[less as int]));
    }
}

proof fn lemma_field_row(
    a: ExitSnapshot,
    b: ExitSnapshot,
    table: Seq<(Seq<char>, bool)>,
    field: int,
)
    requires
        0 <= field < 23,
        table[0] == ("tsc"@, a.tsc != b.tsc),
        table[1] == ("exit_reason"@, a.exit_reason != b.exit_reason),
        table[2] == ("flags"@, a.flags != b.flags),
        table[3] == ("gprs"@, a.gprs@ != b.gprs@),
        table[4] == ("rip"@, a.rip != b.rip),
        table[5] == ("rflags"@, a.rflags != b.rflags),
        table[6] == ("cr3"@, a.cr3 != b.cr3),
        table[7] == ("fs_base"@, a.fs_base != b.fs_base),
        table[8] == ("gs_base"@, a.gs_base != b.gs_base),
        table[9] == ("kernel_gs_base"@, a.kernel_gs_base != b.kernel_gs_base),
        table[10] == ("cs_base"@, a.cs_base != b.cs_base),
        table[11] == ("ds_base"@, a.ds_base != b.ds_base),
        table[12] == ("es_base"@, a.es_base != b.es_base),
        table[13] == ("ss_base"@, a.ss_base != b.ss_base),
        table[14] == ("interruptibility_state"@, a.interruptibility_state != b.interruptibility_state),
        table[15] == ("cow_page_count"@, a.cow_page_count != b.cow_page_count),
        table[16] == ("apic_hash"@, a.apic_hash != b.apic_hash),
        table[17] == ("serial_hash"@, a.serial_hash != b.serial_hash),
        table[18] == ("ioapic_hash"@, a.ioapic_hash != b.ioapic_hash),
        table[19] == ("rtc_hash"@, a.rtc_hash != b.rtc_hash),
        table[20] == ("mtrr_hash"@, a.mtrr_hash != b.mtrr_hash),
        table[21] == ("rdrand_hash"@, a.rdrand_hash != b.rdrand_hash),
        table[22] == ("memory_hash"@, a.memory_hash != b.memory_hash),
    ensures
        table[field] == (field_names()[field], field_differs(a, b, field)),
{
    if field == 0 {
        assert(field_names()[0] == "tsc"@);
    }
    if field == 1 {
        assert(field_names()[1] == "exit_reason"@);
    }
    if field == 2 {
        assert(field_names()[2] == "flags"@);
    }
    if field == 3 {
        assert(field_names()[3] == "gprs"@);
    }
    if field == 4 {
        assert(field_names()[4] == "rip"@);
    }
    if field == 5 {
        assert(field_names()[5] == "rflags"@);
    }
    if field == 6 {
        assert(field_names()[6] == "cr3"@);
    }
    if field == 7 {
        assert(field_names()[7] == "fs_base"@);
    }
    if field == 8 {
        assert(field_names()[8] == "gs_base"@);
    }
    if field == 9 {
        assert(field_names()[9] == "kernel_gs_base"@);
    }
    if field == 10 {
        assert(field_names()[10] == "cs_base"@);
    }
    if field == 11 {
        assert(field_names()[11] == "ds_base"@);
    }
    if field == 12 {
        assert(field_names()[12] == "es_base"@);
    }
    if field == 13 {
        assert(field_names()[13] == "ss_base"@);
    }
    if field == 14 {
        assert(field_names()[14] == "interruptibility_state"@);
    }
    if field == 15 {
        assert(field_names()[15] == "cow_page_count"@);
    }
    if field == 16 {
        assert(field_names()[16] == "apic_hash"@);
    }
    if field == 17 {
        assert(field_names()[17] == "serial_hash"@);
    }
    if field == 18 {
        assert(field_names()[18] == "ioapic_hash"@);
    }
    if field == 19 {
        assert(field_names()[19] == "rtc_hash"@);
    }
    if field == 20 {
        assert(field_names()[20] == "mtrr_hash"@);
    }
    if field == 21 {
        assert(field_names()[21] == "rdrand_hash"@);
    }
    if field == 22 {
        assert(field_names()[22] == "memory_hash"@);
    }
}

/// The difference of two snapshots names exactly the fields in which they
/// differ, each by its own name, in the order in which they stand in a snapshot:
/// of all the fields, each with its name and whether it differs, the names of
/// those that do.
pub proof fn law_difference_names_each_field(
    a: ExitSnapshot,
    b: ExitSnapshot,
    table: Seq<(Seq<char>, bool)>,
)
    requires
        table.len() == 23,
        table[0] == ("tsc"@, a.tsc != b.tsc),
        table[1] == ("exit_reason"@, a.exit_reason != b.exit_reason),
        table[2] == ("flags"@, a.flags != b.flags),
        table[3] == ("gprs"@, a.gprs@ != b.gprs@),
        table[4] == ("rip"@, a.rip != b.rip),
        table[5] == ("rflags"@, a.rflags != b.rflags),
        table[6] == ("cr3"@, a.cr3 != b.cr3),
        table[7] == ("fs_base"@, a.fs_base != b.fs_base),
        table[8] == ("gs_base"@, a.gs_base != b.gs_base),
        table[9] == ("kernel_gs_base"@, a.kernel_gs_base != b.kernel_gs_base),
        table[10] == ("cs_base"@, a.cs_base != b.cs_base),
        table[11] == ("ds_base"@, a.ds_base != b.ds_base),
        table[12] == ("es_base"@, a.es_base != b.es_base),
        table[13] == ("ss_base"@, a.ss_base != b.ss_base),
        table[14] == ("interruptibility_state"@, a.interruptibility_state != b.interruptibility_state),
        table[15] == ("cow_page_count"@, a.cow_page_count != b.cow_page_count),
        table[16] == ("apic_hash"@, a.apic_hash != b.apic_hash),
        table[17] == ("serial_hash"@, a.serial_hash != b.serial_hash),
        table[18] == ("ioapic_hash"@, a.ioapic_hash != b.ioapic_hash),
        table[19] == ("rtc_hash"@, a.rtc_hash != b.rtc_hash),
        table[20] == ("mtrr_hash"@, a.mtrr_hash != b.mtrr_hash),
        table[21] == ("rdrand_hash"@, a.rdrand_hash != b.rdrand_hash),
        table[22] == ("memory_hash"@, a.memory_hash != b.memory_hash),
    ensures
        difference(a, b) == table.filter(|field: (Seq<char>, bool)| field.1).map_values(
            |field: (Seq<char>, bool)| field.0,
        ),
{
    assert(tabulated(a, b, table)) by {
        reveal(tabulated);
        assert forall|i: int| 0 <= i < 23 implies #[trigger] table[i] == (
            field_names()[i],
            field_differs(a, b, i),
        ) by {
            lemma_field_row(a, b, table, i);
        }
    }
    lemma_named_fields(a, b, table);
}

proof fn lemma_named_fields(a: ExitSnapshot, b: ExitSnapshot, table: Seq<(Seq<char>, bool)>)
    requires
        table.len() == 23,
        tabulated(a, b, table),
    ensures
        difference(a, b) == table.filter(|field: (Seq<char>, bool)| field.1).map_values(
            |field: (Seq<char>, bool)| field.0,
        ),
{
    lemma_differing_fields(a, b, table, 23);
    assert(table.take(23) =~= table);
    assert(flagged() =~= |field: (Seq<char>, bool)| field.1);
    assert(labelled() =~= |field: (Seq<char>, bool)| field.0);
}

/// A divergence is where two streams first part: streams of different lengths
/// part by their lengths, and others at the first exit that differs, which is
/// described as the baseline has it and by the fields that differ there.
pub proof fn law_divergence_is_the_first_difference(
    base: Seq<ExitSnapshot>,
    other: Seq<ExitSnapshot>,
    found: Option<DivergenceView>,
)
    requires
        parts_at(base, other, found),
    ensures
        match found {
            None => {
                &&& base.len() == other.len()
                &&& forall|i: int| 0 <= i < base.len() ==> #[trigger] base[i] == other[i]
            },
            Some(DivergenceView::Count { count, baseline }) => {
                &&& base.len() != other.len()
                &&& count == other.len()
                &&& baseline == base.len()
            },
            Some(DivergenceView::Exit { index, reason, tsc, fields }) => {
                &&& base.len() == other.len()
                &&& 0 <= index < base.len()
                &&& forall|i: int| 0 <= i < index ==> #[trigger] base[i] == other[i]
                &&& base[index as int] != other[index as int]
                &&& reason == base[index as int].exit_reason
                &&& tsc == base[index as int].tsc
                &&& fields.len() > 0
                &&& fields == difference(base[index as int], other[index as int])
            },
        },
{
    if let Some(DivergenceView::Exit { index, .. }) = found {
        law_no_difference_iff_same(base[index as int], other[index as int]);
        assert forall|i: int| 0 <= i < index implies #[trigger] base[i] == other[i] by {
            assert(base.take(index as int)[i] == other.take(index as int)[i]);
        }
    }
}

/// What a divergence is seen as keeps its numbers and every field's name.
pub proof fn law_divergences_are_told_apart(
    count: usize,
    baseline: usize,
    reason: u32,
    tsc: u64,
    fields: Vec<&'static str>,
)
    ensures
        (Divergence::Count { count, baseline })@ == (DivergenceView::Count {
            count: count as nat,
            baseline: baseline as nat,
        }),
        (Divergence::Exit { index: count, reason, tsc, fields })@ matches DivergenceView::Exit {
            index: i,
            reason: r,
            tsc: t,
            fields: names,
        } && {
            &&& i == count
            &&& r == reason
            &&& t == tsc
            &&& names.len() == fields@.len()
            &&& forall|k: int| 0 <= k < fields@.len() ==> #[trigger] names[k] == fields@[k]@
        },
        divergence_view(None) is None,
        divergence_view(Some(Divergence::Count { count, baseline })) == Some(
            (Divergence::Count { count, baseline })@,
        ),
        divergence_view(Some(Divergence::Exit { index: count, reason, tsc, fields })) == Some(
            (Divergence::Exit { index: count, reason, tsc, fields })@,
        ),
{
}

proof fn lemma_listed_prefix(names: Seq<Seq<char>>, more: Seq<Seq<char>>, count: nat)
    requires
        count <= names.len(),
    ensures
        listed(names + more, count) == listed(names, count),
    decreases count,
{
    if count > 1 {
        lemma_listed_prefix(names, more, (count - 1) as nat);
    }
}

/// Names are listed in order, all of them, with a comma and a space between
/// neighbours: none gives nothing, one gives itself, and a further one comes
/// behind the others.
pub proof fn law_names_are_listed_in_order(names: Seq<Seq<char>>, name: Seq<char>)
    ensures
        listed(Seq::empty(), 0) == Seq::<char>::empty(),
        listed(seq![name], 1) == name,
        names.len() > 0 ==> listed(names.push(name), names.len() + 1) == listed(names, names.len())
            + ", "@ + name,
{
    assert(names.push(name) =~= names + seq![name]);
    lemma_listed_prefix(names, seq![name], names.len());
}

/// A divergence in words holds all its numbers and names.
pub proof fn law_divergence_in_words(
    count: nat,
    baseline: nat,
    reason: u32,
    tsc: u64,
    fields: Seq<Seq<char>>,
)
    ensures
        (DivergenceView::Count { count, baseline }).spec_message() == "exit count "@ + decimal(
            count,
        ) + " != baseline "@ + decimal(baseline),
        (DivergenceView::Exit { index: count, reason, tsc, fields }).spec_message() == "exit #"@
            + decimal(count) + " (reason "@ + decimal(reason as nat) + ", tsc "@ + decimal(
            tsc as nat,
        ) + ") differs in: "@ + listed(fields, fields.len()),
{
}

} // verus!
