use bedrock_vm::error::ErrorKind;
use bedrock_vm::fuzz_input::{
    message_bytes, FuzzInputError, FuzzOutcome, InputServer, FUZZ_INPUT_BUFFER_ID,
    FUZZ_INPUT_HEADER_LEN, FUZZ_INPUT_RESULT_EOF, STATUS_FAIL, STATUS_OK, STATUS_SKIP,
};

fn buffer(capacity: usize) -> Vec<u8> {
    vec![0xaa; FUZZ_INPUT_HEADER_LEN + capacity]
}

fn report(buf: &mut [u8], status: u64, aux: u64, message: &[u8]) {
    buf[8..16].copy_from_slice(&status.to_le_bytes());
    buf[16..24].copy_from_slice(&aux.to_le_bytes());
    buf[32..32 + message.len()].copy_from_slice(message);
}

#[test]
fn abi_constants() {
    assert_eq!(FUZZ_INPUT_BUFFER_ID.as_bytes(), b"fuzzamoto-input");
    assert_eq!(FUZZ_INPUT_HEADER_LEN, 32);
    assert_eq!(FUZZ_INPUT_RESULT_EOF, -1);
    assert_eq!((STATUS_OK, STATUS_SKIP, STATUS_FAIL), (0, 1, 2));
}

#[test]
fn serve_writes_length_zeros_and_input() {
    let server = InputServer::new();
    let mut buf = buffer(8);
    assert_eq!(server.serve(Some(&mut buf), &[1, 2, 3]), Ok(()));
    assert_eq!(buf[0..8], 3i64.to_le_bytes());
    assert_eq!(buf[8..32], [0; 24]);
    assert_eq!(buf[32..35], [1, 2, 3]);
    assert_eq!(buf[35..], [0xaa; 5]);
}

#[test]
fn serve_length_word_is_little_endian() {
    let server = InputServer::new();
    let mut buf = buffer(70_000);
    let input = vec![7u8; 65_539];
    assert_eq!(server.serve(Some(&mut buf), &input), Ok(()));
    assert_eq!(buf[0..8], [3, 0, 1, 0, 0, 0, 0, 0]);
    assert_eq!(buf[32..32 + 65_539], input[..]);
}

#[test]
fn serve_accepts_exactly_the_capacity() {
    let server = InputServer::new();
    let mut buf = buffer(4);
    assert_eq!(server.capacity(Some(&buf)), Ok(4));
    assert_eq!(server.serve(Some(&mut buf), &[9; 4]), Ok(()));
    assert_eq!(buf[32..], [9; 4]);
}

#[test]
fn serve_accepts_an_empty_input() {
    let server = InputServer::new();
    let mut buf = buffer(0);
    assert_eq!(server.capacity(Some(&buf)), Ok(0));
    assert_eq!(server.serve(Some(&mut buf), &[]), Ok(()));
    assert_eq!(buf, [0; 32]);
}

#[test]
fn serve_refuses_an_oversized_input_and_writes_nothing() {
    let server = InputServer::new();
    let mut buf = buffer(4);
    let error = server.serve(Some(&mut buf), &[1; 5]).unwrap_err();
    assert_eq!(error, FuzzInputError::InputTooLarge { len: 5, capacity: 4 });
    assert_eq!(error.kind(), ErrorKind::InvalidInput);
    assert_eq!(
        error.message(),
        "fuzz input of 5 bytes exceeds the guest's 4-byte input buffer"
    );
    assert_eq!(buf, buffer(4));
}

#[test]
fn operations_refuse_a_buffer_smaller_than_the_header() {
    let server = InputServer::new();
    let mut buf = vec![5u8; 31];
    assert_eq!(server.serve(Some(&mut buf), &[]), Err(FuzzInputError::BufferTooSmall));
    assert_eq!(server.serve_eof(Some(&mut buf)), Err(FuzzInputError::BufferTooSmall));
    assert_eq!(server.capacity(Some(&buf)), Err(FuzzInputError::BufferTooSmall));
    assert_eq!(server.outcome(Some(&buf)), Err(FuzzInputError::BufferTooSmall));
    assert_eq!(server.aux(Some(&buf)), Err(FuzzInputError::BufferTooSmall));
    assert_eq!(buf, [5; 31]);
    assert_eq!(FuzzInputError::BufferTooSmall.kind(), ErrorKind::InvalidData);
    assert_eq!(
        FuzzInputError::BufferTooSmall.message(),
        "fuzz-input buffer smaller than header"
    );
}

#[test]
fn operations_report_a_buffer_that_disappeared() {
    let server = InputServer::default();
    assert_eq!(server.serve(None, &[1]), Err(FuzzInputError::Disappeared));
    assert_eq!(server.serve_eof(None), Err(FuzzInputError::Disappeared));
    assert_eq!(server.capacity(None), Err(FuzzInputError::Disappeared));
    assert_eq!(server.outcome(None), Err(FuzzInputError::Disappeared));
    assert_eq!(server.aux(None), Err(FuzzInputError::Disappeared));
    assert_eq!(FuzzInputError::Disappeared.kind(), ErrorKind::Other);
    assert_eq!(
        FuzzInputError::Disappeared.message(),
        "fuzz-input buffer disappeared after mapping"
    );
}

#[test]
fn serve_eof_writes_the_end_mark_and_keeps_the_payload() {
    let server = InputServer::new();
    let mut buf = buffer(3);
    assert_eq!(server.serve_eof(Some(&mut buf)), Ok(()));
    assert_eq!(buf[0..8], [0xff; 8]);
    assert_eq!(buf[8..32], [0; 24]);
    assert_eq!(buf[32..], [0xaa; 3]);
}

#[test]
fn outcome_reads_each_status() {
    let server = InputServer::new();
    let mut buf = buffer(16);
    report(&mut buf, STATUS_OK, 5, b"hello");
    assert_eq!(server.outcome(Some(&buf)), Ok(FuzzOutcome::Pass));
    report(&mut buf, STATUS_SKIP, 5, b"hello");
    assert_eq!(server.outcome(Some(&buf)), Ok(FuzzOutcome::Skip));
    report(&mut buf, STATUS_FAIL, 5, b"hello");
    assert_eq!(server.outcome(Some(&buf)), Ok(FuzzOutcome::Fail("hello".to_string())));
    report(&mut buf, 0x1_0000_0000, 5, b"hello");
    assert_eq!(server.outcome(Some(&buf)), Ok(FuzzOutcome::Unknown(0x1_0000_0000)));
    assert_eq!(server.aux(Some(&buf)), Ok(5));
}

#[test]
fn outcome_from_a_status_word() {
    let text = || "m".to_string();
    assert_eq!(FuzzOutcome::from_status(0, text()), FuzzOutcome::Pass);
    assert_eq!(FuzzOutcome::from_status(1, text()), FuzzOutcome::Skip);
    assert_eq!(FuzzOutcome::from_status(2, text()), FuzzOutcome::Fail(text()));
    assert_eq!(FuzzOutcome::from_status(3, text()), FuzzOutcome::Unknown(3));
    assert_eq!(FuzzOutcome::Fail(text()).clone(), FuzzOutcome::Fail(text()));
}

#[test]
fn failure_message_is_clamped_to_the_buffer() {
    let server = InputServer::new();
    let mut buf = buffer(4);
    for claimed in [5, 1 << 32, u64::MAX - 31, u64::MAX] {
        report(&mut buf, STATUS_FAIL, claimed, b"oops");
        assert_eq!(message_bytes(&buf), b"oops");
        assert_eq!(server.outcome(Some(&buf)), Ok(FuzzOutcome::Fail("oops".to_string())));
        assert_eq!(server.aux(Some(&buf)), Ok(claimed));
    }
    report(&mut buf, STATUS_FAIL, 2, b"oops");
    assert_eq!(server.outcome(Some(&buf)), Ok(FuzzOutcome::Fail("oo".to_string())));
}

#[test]
fn failure_message_keeps_utf8_and_replaces_the_rest() {
    let server = InputServer::new();
    let mut buf = buffer(16);
    let text = "bug \u{e9}\u{1f41b}";
    report(&mut buf, STATUS_FAIL, text.len() as u64, text.as_bytes());
    assert_eq!(server.outcome(Some(&buf)), Ok(FuzzOutcome::Fail(text.to_string())));
    report(&mut buf, STATUS_FAIL, 4, b"a\xffb\xc3");
    assert_eq!(
        server.outcome(Some(&buf)),
        Ok(FuzzOutcome::Fail("a\u{fffd}b\u{fffd}".to_string()))
    );
}

#[test]
fn serving_clears_an_earlier_report() {
    let server = InputServer::new();
    let mut buf = buffer(8);
    report(&mut buf, STATUS_FAIL, 3, b"bad");
    assert_eq!(server.serve(Some(&mut buf), &[1]), Ok(()));
    assert_eq!(server.outcome(Some(&buf)), Ok(FuzzOutcome::Pass));
    assert_eq!(server.aux(Some(&buf)), Ok(0));
    report(&mut buf, STATUS_SKIP, 9, b"");
    assert_eq!(server.serve_eof(Some(&mut buf)), Ok(()));
    assert_eq!(server.outcome(Some(&buf)), Ok(FuzzOutcome::Pass));
    assert_eq!(server.aux(Some(&buf)), Ok(0));
}

#[test]
fn served_input_does_not_depend_on_the_buffer() {
    let server = InputServer::new();
    let (mut one, mut two) = (vec![0u8; 40], vec![0xffu8; 50]);
    assert_eq!(server.serve(Some(&mut one), &[4, 5, 6]), Ok(()));
    assert_eq!(server.serve(Some(&mut two), &[4, 5, 6]), Ok(()));
    assert_eq!(one[..35], two[..35]);
}

#[test]
fn serving_a_longer_input_replaces_the_earlier_one() {
    let server = InputServer::new();
    let (mut twice, mut once) = (buffer(8), buffer(8));
    assert_eq!(server.serve(Some(&mut twice), &[1, 2]), Ok(()));
    assert_eq!(server.serve(Some(&mut twice), &[3, 4, 5]), Ok(()));
    assert_eq!(server.serve(Some(&mut once), &[3, 4, 5]), Ok(()));
    assert_eq!(twice, once);
}

#[test]
fn serving_a_shorter_input_leaves_the_rest_behind_it() {
    let server = InputServer::new();
    let mut buf = vec![0xaa; FUZZ_INPUT_HEADER_LEN + 6];
    server.serve(Some(&mut buf), b"abcd").unwrap();
    server.serve(Some(&mut buf), b"x").unwrap();
    assert_eq!(buf[0..8], 1i64.to_le_bytes());
    assert_eq!(buf[FUZZ_INPUT_HEADER_LEN..], *b"xbcd\xaa\xaa");
}
