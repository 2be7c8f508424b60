use bedrock_vm::frame::{copy_bytes, write_header};
use bedrock_vm::text::{push_decimal, read_text};
use bedrock_vm::word::{read_word, word_of_i64, write_word};

#[test]
fn words_are_little_endian() {
    let buf = [0xff, 1, 2, 3, 4, 5, 6, 7, 8, 0xff];
    assert_eq!(read_word(&buf, 1, 8), 0x0807_0605_0403_0201);
    assert_eq!(read_word(&buf, 1, 4), 0x0403_0201);
    assert_eq!(read_word(&buf, 9, 1), 0xff);
    assert_eq!(read_word(&buf, 10, 0), 0);
    assert_eq!(read_word(&[0xff; 8], 0, 8), u64::MAX);
}

#[test]
fn written_word_is_read_back() {
    for value in [0, 1, 255, 256, 0x0123_4567_89ab_cdef, u64::MAX] {
        let mut buf = [0x55u8; 12];
        write_word(&mut buf, 2, 8, value);
        assert_eq!(buf[2..10], value.to_le_bytes());
        assert_eq!((buf[1], buf[10]), (0x55, 0x55));
        assert_eq!(read_word(&buf, 2, 8), value);
    }
    let mut buf = [0u8; 4];
    write_word(&mut buf, 0, 2, 0x1_0203);
    assert_eq!(buf, [3, 2, 0, 0]);
}

#[test]
fn signed_words_are_twos_complement() {
    for value in [0, 1, -1, 42, -42, i64::MAX, i64::MIN] {
        assert_eq!(word_of_i64(value), value as u64);
    }
}

#[test]
fn header_is_the_result_and_zeros() {
    let mut buf = [9u8; 18];
    write_header(&mut buf, 16, -2);
    assert_eq!(buf[0..8], (-2i64).to_le_bytes());
    assert_eq!(buf[8..16], [0; 8]);
    assert_eq!(buf[16..], [9, 9]);
}

#[test]
fn bytes_are_copied_in_place() {
    let mut buf = [0u8; 5];
    copy_bytes(&mut buf, 2, &[7, 8]);
    assert_eq!(buf, [0, 0, 7, 8, 0]);
}

#[test]
fn numbers_are_written_in_decimal() {
    for value in [0, 7, 10, 99, 100, 4096, 1_234_567_890, u64::MAX] {
        let mut text = "n=".to_string();
        push_decimal(&mut text, value);
        assert_eq!(text, format!("n={value}"));
    }
}

#[test]
fn text_is_read_leniently() {
    assert_eq!(read_text(b""), "");
    assert_eq!(read_text("na\u{ef}ve".as_bytes()), "na\u{ef}ve");
    assert_eq!(read_text(b"\xf0\x9f"), "\u{fffd}");
    assert_eq!(read_text(b"x\x80y"), "x\u{fffd}y");
}
