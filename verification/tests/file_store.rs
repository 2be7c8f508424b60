use bedrock_vm::error::ErrorKind;
use bedrock_vm::file_store::{
    join_path, FileStoreError, FileWriter, StoreReply, StoreRequest, StoreStep, StoreTarget,
    FILE_STORE_BUFFER_ID, FILE_STORE_HEADER_LEN, FILE_STORE_IO_ERROR,
};

fn request(name: &[u8], chunk: &[u8], spare: usize) -> Vec<u8> {
    let mut buf = Vec::new();
    buf.extend_from_slice(&(name.len() as u32).to_le_bytes());
    buf.extend_from_slice(&(chunk.len() as u32).to_le_bytes());
    buf.extend_from_slice(&[0xee; 8]);
    buf.extend_from_slice(name);
    buf.extend_from_slice(chunk);
    buf.extend_from_slice(&vec![0xdd; spare]);
    buf
}

fn create(base_dir: Option<&[u8]>, path: &[u8]) -> StoreTarget {
    StoreTarget::Create { base_dir: base_dir.map(<[u8]>::to_vec), path: path.to_vec() }
}

#[test]
fn file_store_abi_constants() {
    assert_eq!(FILE_STORE_BUFFER_ID.as_bytes(), b"bedrock-file-store");
    assert_eq!(FILE_STORE_HEADER_LEN, 16);
    assert_eq!(FILE_STORE_IO_ERROR, -1);
}

#[test]
fn write_reads_name_and_chunk() {
    let writer = FileWriter::new();
    let buf = request(b"out/log.txt", b"hello", 7);
    let store = writer.write(Some(&buf)).unwrap();
    assert_eq!(store.name, "out/log.txt");
    assert_eq!(store.target, create(None, b"out/log.txt"));
    assert_eq!(store.chunk_len, 5);
    assert_eq!(&buf[store.chunk_start..store.chunk_end], b"hello");
}

#[test]
fn write_accepts_a_request_that_fills_the_buffer() {
    let writer = FileWriter::default();
    let buf = request(b"n", b"c", 0);
    let store = writer.write(Some(&buf)).unwrap();
    assert_eq!((store.chunk_start, store.chunk_end), (17, 18));
}

#[test]
fn write_accepts_empty_name_and_chunk() {
    let writer = FileWriter::new();
    let buf = request(b"", b"", 0);
    let store = writer.write(Some(&buf)).unwrap();
    assert_eq!(store.name, "");
    assert_eq!((store.chunk_start, store.chunk_end, store.chunk_len), (16, 16, 0));
}

#[test]
fn write_refuses_lengths_past_the_buffer() {
    let writer = FileWriter::new();
    let mut buf = request(b"name", b"chunk", 0);
    buf.pop();
    let error = writer.write(Some(&buf)).unwrap_err();
    assert_eq!(error, FileStoreError::Overflow { name_len: 4, chunk_len: 5 });
    assert_eq!(error.kind(), ErrorKind::InvalidData);
    assert_eq!(error.message(), "file-store overflows buffer, name_len 4, chunk_len 5");
    buf[0..8].copy_from_slice(&[0xff; 8]);
    assert_eq!(
        writer.write(Some(&buf)).unwrap_err().message(),
        "file-store overflows buffer, name_len 4294967295, chunk_len 4294967295"
    );
}

#[test]
fn write_refuses_a_small_or_missing_buffer() {
    let writer = FileWriter::new();
    let error = writer.write(Some(&[0; 15])).unwrap_err();
    assert_eq!(error, FileStoreError::BufferTooSmall);
    assert_eq!(error.kind(), ErrorKind::InvalidData);
    assert_eq!(error.message(), "file-store buffer smaller than header");
    let error = writer.write(None).unwrap_err();
    assert_eq!(error, FileStoreError::Disappeared);
    assert_eq!(error.kind(), ErrorKind::Other);
    assert_eq!(error.message(), "file-store buffer disappeared after mapping");
}

#[test]
fn name_that_is_not_utf8_is_replaced() {
    let writer = FileWriter::new();
    let store = writer.write(Some(&request(b"a\xff", b"", 0))).unwrap();
    assert_eq!(store.name, "a\u{fffd}");
    assert_eq!(store.target, create(None, b"a\xef\xbf\xbd"));
    let name = "\u{e9}\u{1f41b}";
    let store = writer.write(Some(&request(name.as_bytes(), b"", 0))).unwrap();
    assert_eq!(store.name, name);
    assert_eq!(store.target, create(None, name.as_bytes()));
}

#[test]
fn base_dir_redirects_relative_names_only() {
    let writer = FileWriter::new().with_base_dir(b"/srv/out".to_vec());
    let target = |name: &str| writer.target(&name.to_string());
    assert_eq!(target("a/b"), create(Some(b"/srv/out"), b"/srv/out/a/b"));
    assert_eq!(target("/etc/x"), create(Some(b"/srv/out"), b"/etc/x"));
    assert_eq!(FileWriter::new().target(&"/etc/x".to_string()), create(None, b"/etc/x"));
    let writer = writer.with_base_dir(b"rel\xff/".to_vec());
    assert_eq!(writer.target(&"n".to_string()), create(Some(b"rel\xff/"), b"rel\xff/n"));
}

#[test]
fn join_path_agrees_with_std() {
    for dir in ["", "/", "d", "d/", "/a/b", "/a/b/", "."] {
        for name in ["", "n", "n/m", "/", "/n", "../n", "n/"] {
            let expected = std::path::Path::new(dir).join(name);
            let joined = join_path(dir.as_bytes(), name.as_bytes());
            assert_eq!(joined, expected.to_str().unwrap().as_bytes(), "{dir:?} {name:?}");
        }
    }
}

#[test]
fn later_chunks_go_to_the_open_file() {
    let mut writer = FileWriter::new().with_base_dir(b"d".to_vec());
    assert_eq!(writer.opened("a".to_string()), 0);
    assert_eq!(writer.opened("b".to_string()), 1);
    assert_eq!(writer.target(&"a".to_string()), StoreTarget::Opened { handle: 0 });
    assert_eq!(writer.target(&"b".to_string()), StoreTarget::Opened { handle: 1 });
    assert_eq!(writer.target(&"c".to_string()), create(Some(b"d"), b"d/c"));
    assert_eq!(writer.opened("a".to_string()), 0);
    let store = writer.write(Some(&request(b"b", b"xyz", 0))).unwrap();
    assert_eq!(store.target, StoreTarget::Opened { handle: 1 });
}

#[test]
fn interleaved_files_hold_their_own_chunks() {
    let mut writer = FileWriter::new();
    let mut files: Vec<Vec<u8>> = Vec::new();
    let sent: [(&[u8], &[u8]); 5] =
        [(b"x", b"1"), (b"y", b"22"), (b"x", b"3"), (b"z", b""), (b"y", b"44")];
    for (name, chunk) in sent {
        let mut buf = request(name, chunk, 3);
        let store = writer.write(Some(&buf)).unwrap();
        let handle = match store.target {
            StoreTarget::Opened { handle } => handle,
            StoreTarget::Create { .. } => {
                files.push(Vec::new());
                writer.opened(store.name)
            }
        };
        files[handle].extend_from_slice(&buf[store.chunk_start..store.chunk_end]);
        let accepted = writer.respond::<()>(&mut buf, store.chunk_len, Ok(()));
        assert_eq!(accepted, Ok(chunk.len()));
    }
    assert_eq!(files, [b"13".to_vec(), b"2244".to_vec(), Vec::new()]);
}

#[test]
fn response_holds_the_accepted_length() {
    let writer = FileWriter::new();
    let mut buf = request(b"name", b"chunk", 2);
    let tail = buf[16..].to_vec();
    assert_eq!(writer.respond::<()>(&mut buf, 5, Ok(())), Ok(5));
    assert_eq!(buf[0..8], 5i64.to_le_bytes());
    assert_eq!(buf[8..16], [0; 8]);
    assert_eq!(buf[16..], tail[..]);
    assert_eq!(writer.respond::<()>(&mut buf, u32::MAX, Ok(())), Ok(u32::MAX as usize));
    assert_eq!(buf[0..8], [0xff, 0xff, 0xff, 0xff, 0, 0, 0, 0]);
}

#[test]
fn response_holds_the_error_mark() {
    let writer = FileWriter::new();
    let mut buf = request(b"name", b"chunk", 2);
    let tail = buf[16..].to_vec();
    assert_eq!(writer.respond(&mut buf, 5, Err("disk full")), Err("disk full"));
    assert_eq!(buf[0..8], [0xff; 8]);
    assert_eq!(buf[8..16], [0; 8]);
    assert_eq!(buf[16..], tail[..]);
}

fn first_step(store: &StoreRequest) -> StoreStep<&'static str> {
    store.first_step()
}

#[test]
fn new_file_in_a_base_dir_takes_three_steps() {
    let mut writer = FileWriter::new().with_base_dir(b"d".to_vec());
    let mut buf = request(b"n", b"abc", 0);
    let store = writer.write(Some(&buf)).unwrap();
    assert!(matches!(first_step(&store), StoreStep::CreateDir { dir } if dir == b"d"));
    let step = writer.settle::<&str>(&store, StoreReply::DirCreated(Ok(())));
    assert!(matches!(step, StoreStep::OpenFile { path } if path == b"d/n"));
    let step = writer.settle::<&str>(&store, StoreReply::FileOpened(Ok(())));
    assert!(matches!(step, StoreStep::Append { handle: 0 }));
    assert_eq!(writer.respond::<&str>(&mut buf, store.chunk_len, Ok(())), Ok(3));

    let store = writer.write(Some(&request(b"n", b"de", 0))).unwrap();
    assert!(matches!(first_step(&store), StoreStep::Append { handle: 0 }));
    let store = writer.write(Some(&request(b"m", b"", 0))).unwrap();
    let step = writer.settle::<&str>(&store, StoreReply::FileOpened(Ok(())));
    assert!(matches!(step, StoreStep::Append { handle: 1 }));
}

#[test]
fn new_file_without_a_base_dir_is_opened_at_once() {
    let writer = FileWriter::new();
    let store = writer.write(Some(&request(b"/x/n", b"abc", 0))).unwrap();
    assert!(matches!(first_step(&store), StoreStep::OpenFile { path } if path == b"/x/n"));
}

#[test]
fn failed_directory_is_an_error_and_is_tried_again() {
    let mut writer = FileWriter::new().with_base_dir(b"d".to_vec());
    let buf = request(b"n", b"abc", 0);
    let store = writer.write(Some(&buf)).unwrap();
    let step = writer.settle(&store, StoreReply::DirCreated(Err("no space")));
    assert!(matches!(step, StoreStep::Done(Err("no space"))));
    let mut answer = buf.clone();
    assert_eq!(writer.finish(&mut answer, Err("no space")), Err("no space"));
    assert_eq!(answer, buf);
    let store = writer.write(Some(&buf)).unwrap();
    assert!(matches!(first_step(&store), StoreStep::CreateDir { dir } if dir == b"d"));
}

#[test]
fn disallowed_name_accepts_nothing() {
    let mut writer = FileWriter::new();
    let buf = request(b"/etc/shadow", b"abc", 0);
    let store = writer.write(Some(&buf)).unwrap();
    let refused = StoreReply::FileOpened(Err((ErrorKind::PermissionDenied, "denied")));
    assert!(matches!(writer.settle(&store, refused), StoreStep::Done(Ok(0))));
    let mut answer = buf.clone();
    assert_eq!(writer.finish::<&str>(&mut answer, Ok(0)), Ok(0));
    assert_eq!(answer[0..16], [0; 16]);
    assert_eq!(answer[16..], buf[16..]);
    let store = writer.write(Some(&buf)).unwrap();
    assert!(matches!(first_step(&store), StoreStep::OpenFile { path } if path == b"/etc/shadow"));
}

#[test]
fn other_failures_to_open_are_errors() {
    let mut writer = FileWriter::new();
    let store = writer.write(Some(&request(b"n", b"abc", 0))).unwrap();
    for kind in [ErrorKind::NotFound, ErrorKind::InvalidInput, ErrorKind::Other] {
        let step = writer.settle(&store, StoreReply::FileOpened(Err((kind, "open"))));
        assert!(matches!(step, StoreStep::Done(Err("open"))));
    }
    assert_eq!(writer.target(&"n".to_string()), create(None, b"n"));
}

#[test]
fn run_with_failures_stores_what_could_be_written() {
    let mut writer = FileWriter::new();
    let mut files: Vec<Vec<u8>> = Vec::new();
    // Name, chunk, how opening goes, how many bytes can be written.
    let sent: [(&[u8], &[u8], Result<(), ErrorKind>, usize); 6] = [
        (b"x", b"11", Ok(()), 2),
        (b"no", b"22", Err(ErrorKind::PermissionDenied), 0),
        (b"y", b"33", Err(ErrorKind::Other), 0),
        (b"x", b"4567", Ok(()), 1),
        (b"y", b"88", Ok(()), 2),
        (b"x", b"9", Ok(()), 1),
    ];
    let mut results: Vec<Result<usize, &str>> = Vec::new();
    for (name, chunk, open, room) in sent {
        let mut buf = request(name, chunk, 0);
        let store = writer.write(Some(&buf)).unwrap();
        let mut step = first_step(&store);
        results.push(loop {
            let reply = match step {
                StoreStep::CreateDir { .. } => panic!("there is no base directory"),
                StoreStep::OpenFile { .. } => {
                    if open.is_ok() {
                        files.push(Vec::new());
                    }
                    StoreReply::FileOpened(open.map_err(|kind| (kind, "open")))
                }
                StoreStep::Append { handle } => {
                    let chunk = &buf[store.chunk_start..store.chunk_end];
                    files[handle].extend_from_slice(&chunk[..room]);
                    let written = if room == chunk.len() { Ok(()) } else { Err("full") };
                    break writer.respond(&mut buf, store.chunk_len, written);
                }
                StoreStep::Done(accepted) => break writer.finish(&mut buf, accepted),
            };
            step = writer.settle(&store, reply);
        });
    }
    assert_eq!(results, [Ok(2), Ok(0), Err("open"), Err("full"), Ok(2), Ok(1)]);
    assert_eq!(files, [b"1149".to_vec(), b"88".to_vec()]);
}
