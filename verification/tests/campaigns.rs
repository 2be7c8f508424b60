use bedrock_vm::bench::{
    check_delivery, checksum, guest_cmdline, patterned_input, synthetic_input, BenchRun, BenchScore,
    ChecksumMismatch,
};
use bedrock_vm::corpus::{
    count_hits, find_coverage, fold_coverage, is_oversized, program_name, sort_programs, CaseEnd,
    Tally,
};
use bedrock_vm::fuzz_input::FuzzOutcome;

#[test]
fn synthetic_inputs_are_fixed_by_their_seed() {
    assert_eq!(synthetic_input(0, 6), [64, 12, 110, 85, 144, 229]);
    assert_eq!(synthetic_input(1, 6), [11, 2, 229, 54, 161, 78]);
    assert_eq!(synthetic_input(499, 6), [249, 253, 147, 64, 250, 218]);
    assert!(synthetic_input(3, 0).is_empty());
}

#[test]
fn synthetic_inputs_of_a_campaign_differ() {
    let inputs: Vec<Vec<u8>> = (0..500).map(|i| synthetic_input(i, 64)).collect();
    for i in 0..inputs.len() {
        for j in 0..i {
            assert_ne!(inputs[i], inputs[j]);
        }
    }
}

#[test]
fn patterned_input_wraps() {
    let input = patterned_input(300);
    assert_eq!(input[..4], [13, 20, 27, 34]);
    for (i, byte) in input.iter().enumerate() {
        assert_eq!(*byte, (i * 7 + 13) as u8);
    }
}

#[test]
fn checksums() {
    assert_eq!(checksum(&[]), 0);
    assert_eq!(checksum(&[1, 2, 255]), 258);
    assert_eq!(checksum(&[255; 1000]), 255_000);
}

#[test]
fn eight_bytes_tell_testcases_apart() {
    let inputs: Vec<Vec<u8>> = (0..500).map(|i| synthetic_input(i, 8)).collect();
    for i in 0..inputs.len() {
        for j in 0..i {
            assert_ne!(inputs[i], inputs[j]);
        }
    }
    let far = 0x0e21_7c1e_66c8_8cc3;
    assert_eq!(synthetic_input(1, 64), synthetic_input(1 + far, 64));
    assert_ne!(synthetic_input(1, 8), synthetic_input(far, 8));
    assert_ne!(synthetic_input(0, 8), synthetic_input(far, 8));
}

#[test]
fn delivery_is_checked_by_its_checksum() {
    assert_eq!(check_delivery(&[1, 2, 3], 6), Ok(()));
    assert_eq!(check_delivery(&[], 0), Ok(()));
    let mismatch = check_delivery(&[1, 2, 3], 70).unwrap_err();
    assert_eq!(mismatch, ChecksumMismatch { got: 70, want: 6 });
    assert_eq!(mismatch.message(), "checksum 70 != 6");
}

#[test]
fn bench_scores() {
    let mut score = BenchScore { executed: 0, verified: 0 };
    let passed = |aux| BenchRun::Finished { outcome: FuzzOutcome::Pass, aux: Some(aux) };
    score.record(&passed(9), 9);
    assert_eq!(score, BenchScore { executed: 1, verified: 1 });
    score.record(&passed(9), 8);
    assert_eq!(score, BenchScore { executed: 2, verified: 1 });
    score.record(&BenchRun::NotFinished, 9);
    assert_eq!(score, BenchScore { executed: 2, verified: 1 });
    let failed = FuzzOutcome::Fail("bug".to_string());
    score.record(&BenchRun::Finished { outcome: failed, aux: None }, 9);
    assert_eq!(score, BenchScore { executed: 3, verified: 1 });
    score.record(&BenchRun::Finished { outcome: FuzzOutcome::Unknown(7), aux: Some(9) }, 9);
    assert_eq!(score, BenchScore { executed: 4, verified: 1 });
    assert!(score.is_complete(1));
    assert!(!score.is_complete(4));
}

#[test]
fn skipped_testcase_is_no_execution() {
    let mut score = BenchScore { executed: 2, verified: 1 };
    score.record(&BenchRun::Finished { outcome: FuzzOutcome::Skip, aux: Some(9) }, 9);
    assert_eq!(score, BenchScore { executed: 2, verified: 1 });
    let mut tally = Tally::new();
    tally.record(&CaseEnd::Reported(FuzzOutcome::Skip));
    tally.record(&CaseEnd::Oversized);
    assert_eq!((tally.total(), tally.executions()), (2, 0));
    tally.record(&CaseEnd::TimedOut);
    assert_eq!((tally.total(), tally.executions()), (3, 1));
}

#[test]
fn program_files_are_known_by_their_extension() {
    assert_eq!(program_name(b"case-1.ir"), Some("case-1".to_string()));
    assert_eq!(program_name(b"a.b.ir"), Some("a.b".to_string()));
    assert_eq!(program_name(b"..ir"), Some(".".to_string()));
    assert_eq!(program_name(b"\xff.ir"), Some("\u{fffd}".to_string()));
    for name in ["", "ir", ".ir", "x.IR", "x.ir~", "xir", "x.iR", "x.ar", "x-ir"] {
        assert_eq!(program_name(name.as_bytes()), None, "{name}");
    }
}

#[test]
fn program_names_agree_with_std() {
    for name in ["x.ir", ".ir", "..ir", "a.b.ir", "a.ir.b", "ir", "a..ir", "\u{e9}.ir", "x.irx"] {
        let path = std::path::Path::new(name);
        let expected = if path.extension().is_some_and(|e| e == "ir") {
            path.file_stem().map(|stem| stem.to_string_lossy().into_owned())
        } else {
            None
        };
        assert_eq!(program_name(name.as_bytes()), expected, "{name}");
    }
}

#[test]
fn programs_run_in_order_of_their_names() {
    let names = ["b", "a", "ab", "", "b", "\u{e9}", "Z", "aa", "a", "~"];
    let programs: Vec<(String, Vec<u8>)> =
        names.iter().enumerate().map(|(i, n)| (n.to_string(), vec![i as u8])).collect();
    let mut expected = programs.clone();
    expected.sort_by(|a, b| a.0.cmp(&b.0));
    assert_eq!(sort_programs(programs), expected);
    assert_eq!(expected[2].1, [1]);
    assert_eq!(expected[3].1, [8]);
    assert!(sort_programs(Vec::new()).is_empty());
}

#[test]
fn oversized_inputs() {
    assert!(is_oversized(5, 4));
    assert!(!is_oversized(4, 4));
    assert!(!is_oversized(0, 0));
}

#[test]
fn command_lines() {
    assert_eq!(guest_cmdline("console=ttyS0", 0, 0), "console=ttyS0");
    assert_eq!(guest_cmdline("quiet", 64, 0), "quiet ballast=64");
    assert_eq!(guest_cmdline("quiet", 0, 200_000), "quiet work=200000");
    assert_eq!(guest_cmdline("quiet", 8, 10), "quiet ballast=8 work=10");
}

#[test]
fn tally_counts_each_end() {
    let mut tally = Tally::new();
    tally.record(&CaseEnd::Reported(FuzzOutcome::Pass));
    tally.record(&CaseEnd::Reported(FuzzOutcome::Pass));
    tally.record(&CaseEnd::Reported(FuzzOutcome::Skip));
    tally.record(&CaseEnd::Oversized);
    tally.record(&CaseEnd::Reported(FuzzOutcome::Fail("bug".to_string())));
    tally.record(&CaseEnd::Reported(FuzzOutcome::Unknown(7)));
    tally.record(&CaseEnd::Unexpected);
    tally.record(&CaseEnd::TimedOut);
    assert_eq!(tally, Tally { passed: 2, skipped: 2, failed: 3, timed_out: 1 });
    assert_eq!(tally.total(), 8);
    assert_eq!(tally.executions(), 6);
}

#[test]
fn coverage_is_a_union() {
    let mut union = Vec::new();
    fold_coverage(&mut union, &[0, 1, 0]);
    assert_eq!(union, [0, 1, 0]);
    fold_coverage(&mut union, &[4, 2, 0, 0, 8]);
    assert_eq!(union, [4, 3, 0, 0, 8]);
    fold_coverage(&mut union, &[1]);
    assert_eq!(union, [5, 3, 0, 0, 8]);
    assert_eq!(count_hits(&union), 3);
    assert_eq!(count_hits(&[]), 0);
}

#[test]
fn coverage_ignores_the_order_of_testcases() {
    let (a, b) = ([1, 0, 6], [3, 9]);
    let (mut one, mut two) = (Vec::new(), Vec::new());
    fold_coverage(&mut one, &a);
    fold_coverage(&mut one, &b);
    fold_coverage(&mut two, &b);
    fold_coverage(&mut two, &a);
    assert_eq!(one, two);
    fold_coverage(&mut two, &b);
    assert_eq!(one, two);
}

#[test]
fn coverage_buffer_is_found_by_its_id() {
    let ids = |names: &[&str]| names.iter().map(|n| n.to_string()).collect::<Vec<_>>();
    assert_eq!(find_coverage(&ids(&["fuzzamoto-input", "cov-1", "cov-2"])), Some(1));
    assert_eq!(find_coverage(&ids(&["cov-"])), Some(0));
    assert_eq!(find_coverage(&ids(&["cov", "COV-1", "xcov-"])), None);
    assert_eq!(find_coverage(&[]), None);
}
