use bedrock_vm::exit_trace::{compare, Divergence, ExitSnapshot};
use bedrock_vm::fuzz_input::FuzzOutcome;
use bedrock_vm::replay::{
    compare_samples, conclude, detect, is_host_asynchronous, min_max, perturbed, sample_interval,
    verdict, Conclusion, Detection, Replay, ReplayCheck, ReplayVerdict, SampleVerdict,
    EPT_VIOLATION,
};

fn exit(tsc: u64, exit_reason: u32) -> ExitSnapshot {
    ExitSnapshot {
        tsc,
        exit_reason,
        flags: 0,
        gprs: [0; 16],
        rip: 0,
        rflags: 0,
        cr3: 0,
        fs_base: 0,
        gs_base: 0,
        kernel_gs_base: 0,
        cs_base: 0,
        ds_base: 0,
        es_base: 0,
        ss_base: 0,
        interruptibility_state: 0,
        cow_page_count: 0,
        apic_hash: 0,
        serial_hash: 0,
        ioapic_hash: 0,
        rtc_hash: 0,
        mtrr_hash: 0,
        rdrand_hash: 0,
        memory_hash: 0,
    }
}

fn replay(exits: &[ExitSnapshot]) -> Replay {
    Replay::split(exits, FuzzOutcome::Pass)
}

#[test]
fn diff_names_every_field_in_order() {
    let base = exit(0, 0);
    let other = ExitSnapshot {
        tsc: 1,
        exit_reason: 1,
        flags: 1,
        gprs: [1; 16],
        rip: 1,
        rflags: 1,
        cr3: 1,
        fs_base: 1,
        gs_base: 1,
        kernel_gs_base: 1,
        cs_base: 1,
        ds_base: 1,
        es_base: 1,
        ss_base: 1,
        interruptibility_state: 1,
        cow_page_count: 1,
        apic_hash: 1,
        serial_hash: 1,
        ioapic_hash: 1,
        rtc_hash: 1,
        mtrr_hash: 1,
        rdrand_hash: 1,
        memory_hash: 1,
    };
    let names = [
        "tsc",
        "exit_reason",
        "flags",
        "gprs",
        "rip",
        "rflags",
        "cr3",
        "fs_base",
        "gs_base",
        "kernel_gs_base",
        "cs_base",
        "ds_base",
        "es_base",
        "ss_base",
        "interruptibility_state",
        "cow_page_count",
        "apic_hash",
        "serial_hash",
        "ioapic_hash",
        "rtc_hash",
        "mtrr_hash",
        "rdrand_hash",
        "memory_hash",
    ];
    assert_eq!(base.diff(&other), names);
    assert_eq!(other.diff(&base), names);
    assert!(base.diff(&base).is_empty());
}

#[test]
fn diff_sees_the_last_register() {
    let base = exit(0, 0);
    let mut other = base;
    other.gprs[15] = 1;
    assert_eq!(base.diff(&other), ["gprs"]);
}

#[test]
fn compare_accepts_identical_streams() {
    let stream = [exit(1, 10), exit(2, 18)];
    assert_eq!(compare(&stream, &stream), None);
    assert_eq!(compare(&[], &[]), None);
}

#[test]
fn compare_reports_the_counts() {
    let found = compare(&[exit(1, 10), exit(2, 10)], &[exit(9, 10)]).unwrap();
    assert_eq!(found, Divergence::Count { count: 1, baseline: 2 });
    assert_eq!(found.message(), "exit count 1 != baseline 2");
}

#[test]
fn compare_reports_the_first_divergence() {
    let base = [exit(1, 10), exit(200, 18), exit(3, 10)];
    let mut other = base;
    other[1].rip = 5;
    other[1].memory_hash = 6;
    other[2].tsc = 7;
    let found = compare(&base, &other).unwrap();
    assert_eq!(
        found,
        Divergence::Exit { index: 1, reason: 18, tsc: 200, fields: vec!["rip", "memory_hash"] }
    );
    assert_eq!(
        found.message(),
        "exit #1 (reason 18, tsc 200) differs in: rip, memory_hash"
    );
    let found = compare(&base[2..], &other[2..]).unwrap();
    assert_eq!(found.message(), "exit #0 (reason 10, tsc 3) differs in: tsc");
}

#[test]
fn host_asynchronous_reasons() {
    for reason in 0..300 {
        let expected = [1, 7, 8, 52, 256, 267].contains(&reason);
        assert_eq!(is_host_asynchronous(reason), expected, "{reason}");
    }
}

#[test]
fn split_keeps_the_order_of_each_class() {
    let r = replay(&[exit(1, 10), exit(2, 48), exit(3, 1), exit(4, 18), exit(5, 48), exit(6, 267)]);
    let times = |exits: &[ExitSnapshot]| exits.iter().map(|e| e.tsc).collect::<Vec<_>>();
    assert_eq!(times(&r.other), [1, 4]);
    assert_eq!(times(&r.ept), [2, 5]);
    assert_eq!(times(&r.host), [3, 6]);
    assert_eq!(r.outcome, FuzzOutcome::Pass);
}

#[test]
fn verdict_ignores_host_exits_and_fault_counts() {
    let base = replay(&[exit(1, 10), exit(2, EPT_VIOLATION)]);
    let other = replay(&[exit(1, 10), exit(2, 48), exit(3, 48), exit(4, 52)]);
    assert_eq!(verdict(&base, &base), None);
    assert_eq!(verdict(&base, &other), None);
}

#[test]
fn verdict_compares_faults_when_there_are_as_many() {
    let base = replay(&[exit(1, 10), exit(2, 48)]);
    let other = replay(&[exit(1, 10), exit(9, 48)]);
    assert_eq!(
        verdict(&base, &other),
        Some(Divergence::Exit { index: 0, reason: 48, tsc: 2, fields: vec!["tsc"] })
    );
    let strict = replay(&[exit(7, 10), exit(9, 48)]);
    assert_eq!(
        verdict(&base, &strict),
        Some(Divergence::Exit { index: 0, reason: 10, tsc: 1, fields: vec!["tsc"] })
    );
}

#[test]
fn perturbed_input_differs_in_one_bit() {
    assert_eq!(perturbed(&[4, 5]), [5, 5]);
    assert_eq!(perturbed(&[0xff]), [0xfe]);
}

#[test]
fn detection_prefers_the_outcome() {
    let base = replay(&[exit(1, 10), exit(2, 48)]);
    let skipped = Replay::split(&[exit(3, 10)], FuzzOutcome::Skip);
    assert_eq!(detect(&base, &skipped), Some(Detection::OutcomeChanged));
    let failed = |text: &str| Replay::split(&[], FuzzOutcome::Fail(text.to_string()));
    assert_eq!(detect(&failed("a"), &failed("b")), Some(Detection::OutcomeChanged));
    assert_eq!(detect(&failed("a"), &failed("a")), None);
    let unknown = |status| Replay::split(&[], FuzzOutcome::Unknown(status));
    assert_eq!(detect(&unknown(3), &unknown(4)), Some(Detection::OutcomeChanged));
    assert_eq!(detect(&unknown(3), &unknown(3)), None);
}

#[test]
fn detection_looks_at_both_streams() {
    let base = replay(&[exit(1, 10), exit(2, 48)]);
    assert_eq!(detect(&base, &base), None);
    assert_eq!(
        detect(&base, &replay(&[exit(2, 48)])),
        Some(Detection::Diverged(Divergence::Count { count: 0, baseline: 1 }))
    );
    assert_eq!(
        detect(&base, &replay(&[exit(1, 10), exit(3, 48)])),
        Some(Detection::Diverged(Divergence::Exit {
            index: 0,
            reason: 48,
            tsc: 2,
            fields: vec!["tsc"],
        }))
    );
    assert_eq!(
        detect(&base, &replay(&[exit(1, 10)])),
        Some(Detection::EptCount { count: 0, baseline: 1 })
    );
}

#[test]
fn conclusions() {
    assert_eq!(conclude(true, true, true), Conclusion::Deterministic);
    assert_eq!(conclude(false, true, true), Conclusion::Diverged);
    assert_eq!(conclude(true, false, true), Conclusion::Diverged);
    assert_eq!(conclude(true, true, false), Conclusion::ControlFailed);
    assert_eq!(conclude(false, false, false), Conclusion::ControlFailed);
}

#[test]
fn sample_intervals() {
    assert_eq!(sample_interval(1200, 12), Some(100));
    assert_eq!(sample_interval(11, 12), Some(1));
    assert_eq!(sample_interval(u64::MAX, 1), Some(u64::MAX));
    assert_eq!(sample_interval(0, 1), None);
    assert_eq!(sample_interval(5, 0), None);
}

#[test]
fn memory_samples_are_in_order_of_time() {
    let sample = |tsc, reason, memory_hash| ExitSnapshot { memory_hash, ..exit(tsc, reason) };
    let r = replay(&[
        sample(5, 10, 50),
        sample(3, 48, 30),
        sample(5, 48, 51),
        sample(1, 18, 10),
        sample(2, 1, 99),
        sample(3, 10, 31),
    ]);
    assert_eq!(r.memory_samples(), [(1, 10), (3, 30), (3, 31), (5, 51), (5, 50)]);
    assert_eq!(replay(&[]).memory_samples(), []);
}

#[test]
fn memory_samples_compare() {
    let base = [(1, 10), (2, 20)];
    assert_eq!(compare_samples(&base, &base), SampleVerdict::Identical);
    assert_eq!(
        compare_samples(&base, &[(1, 10), (2, 21)]),
        SampleVerdict::Diverged { first: Some(1) }
    );
    assert_eq!(
        compare_samples(&base, &[(9, 10)]),
        SampleVerdict::Diverged { first: Some(0) }
    );
    assert_eq!(
        compare_samples(&base, &[(1, 10)]),
        SampleVerdict::Diverged { first: None }
    );
}

#[test]
fn ranges_of_counts() {
    assert_eq!(min_max(&[]), (0, 0));
    assert_eq!(min_max(&[7]), (7, 7));
    assert_eq!(min_max(&[5, 2, 9, 2]), (2, 9));
}

#[test]
fn check_with_agreeing_replays_is_deterministic() {
    let mut check = ReplayCheck::new();
    assert!(check.baseline().is_none());
    let first = check.record(replay(&[exit(1, 10), exit(2, 48)]));
    assert!(matches!(first, ReplayVerdict::Baseline));
    let next = check.record(replay(&[exit(1, 10), exit(2, 48), exit(3, 1)]));
    assert!(matches!(next, ReplayVerdict::Identical));
    assert_eq!(check.baseline().unwrap().ept.len(), 1);
    assert_eq!(check.record_samples(vec![(1, 7)]), None);
    assert_eq!(check.record_samples(vec![(1, 7)]), Some(SampleVerdict::Identical));
    assert_eq!(check.samples(), Some(&vec![(1, 7)]));
    assert_eq!(check.conclusion(), Conclusion::Deterministic);
    let control = replay(&[exit(1, 10)]);
    assert_eq!(check.record_control(&control), Some(Detection::EptCount { count: 0, baseline: 1 }));
    assert_eq!(check.conclusion(), Conclusion::Deterministic);
}

#[test]
fn one_replay_that_parts_decides() {
    let mut check = ReplayCheck::new();
    check.record(replay(&[exit(1, 10)]));
    let parted = check.record(replay(&[exit(1, 10), exit(2, 10)]));
    assert!(matches!(
        parted,
        ReplayVerdict::Parted(Divergence::Count { count: 2, baseline: 1 })
    ));
    assert!(matches!(check.record(replay(&[exit(1, 10)])), ReplayVerdict::Identical));
    assert_eq!(check.conclusion(), Conclusion::Diverged);
}

#[test]
fn one_memory_sample_that_differs_decides() {
    let mut check = ReplayCheck::new();
    check.record(replay(&[]));
    check.record_samples(vec![(1, 7)]);
    assert_eq!(
        check.record_samples(vec![(1, 8)]),
        Some(SampleVerdict::Diverged { first: Some(0) })
    );
    assert_eq!(check.record_samples(vec![(1, 7)]), Some(SampleVerdict::Identical));
    assert_eq!(check.conclusion(), Conclusion::Diverged);
}

#[test]
fn unnoticed_control_overrides_the_rest() {
    let mut check = ReplayCheck::new();
    check.record(replay(&[exit(1, 10)]));
    check.record(replay(&[]));
    assert_eq!(check.record_control(&replay(&[exit(1, 10)])), None);
    assert_eq!(check.conclusion(), Conclusion::ControlFailed);
}

#[test]
fn replay_that_did_not_pass_is_not_compared() {
    let mut check = ReplayCheck::new();
    let failed = check.record(Replay::split(&[exit(1, 10)], FuzzOutcome::Skip));
    assert!(matches!(failed, ReplayVerdict::NotPassed(FuzzOutcome::Skip)));
    assert!(check.baseline().is_none());
    check.record(replay(&[exit(1, 10)]));
    let failed = check.record(Replay::split(&[], FuzzOutcome::Unknown(9)));
    assert!(matches!(failed, ReplayVerdict::NotPassed(FuzzOutcome::Unknown(9))));
    assert_eq!(check.conclusion(), Conclusion::Deterministic);
}
