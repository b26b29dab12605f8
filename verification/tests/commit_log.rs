use ringlog::error::{Error, ErrorKind, IoFailure};
use ringlog::log::{LogRead, PrefixRead, UringCommitLog};

/// Writes `buf` into the file at `offset`.
fn write_at(file: &mut Vec<u8>, offset: u64, buf: &[u8]) {
    let end = offset as usize + buf.len();
    if file.len() < end {
        file.resize(end, 0);
    }
    file[offset as usize..end].copy_from_slice(buf);
}

/// Reads from the file at `offset` as many bytes as there are.
fn fill(file: &[u8], offset: u64, buf: &mut [u8]) -> usize {
    let from = (offset as usize).min(file.len());
    let n = buf.len().min(file.len() - from);
    buf[..n].copy_from_slice(&file[from..from + n]);
    n
}

fn append(log: &mut UringCommitLog, file: &mut Vec<u8>, message: &[u8]) -> u64 {
    let request = log.append(message.to_vec());
    write_at(file, request.offset, &request.buf);
    let n = request.buf.len();
    log.append_written::<()>(n, Ok(n)).unwrap()
}

fn read(log: &UringCommitLog, file: &[u8], offset: u64) -> LogRead<()> {
    let mut request = log.read_at(offset);
    assert_eq!(request.offset, offset);
    let n = fill(file, request.offset, &mut request.buf);
    match UringCommitLog::read_at_prefix(offset, Ok(n), &request.buf) {
        PrefixRead::End => Ok(None),
        PrefixRead::Failed(e) => Err(e),
        PrefixRead::Payload(mut request) => {
            assert_eq!(request.offset, offset + 4);
            let n = fill(file, request.offset, &mut request.buf);
            UringCommitLog::read_at_payload(offset, Ok(n), request.buf)
        }
    }
}

#[test]
fn open_starts_at_the_end_of_the_file() {
    assert_eq!(UringCommitLog::open(Some(4711)).write_offset, 4711);
    assert_eq!(UringCommitLog::open(Some(0)).write_offset, 0);
    assert_eq!(UringCommitLog::open(None).write_offset, 0);
}

#[test]
fn append_writes_a_frame_at_the_end() {
    let log = UringCommitLog::open(Some(100));
    let request = log.append(b"abc".to_vec());
    assert_eq!(request.offset, 100);
    assert_eq!(request.buf, vec![0, 0, 0, 3, b'a', b'b', b'c']);
}

#[test]
fn append_moves_the_end_by_the_frame() {
    let mut log = UringCommitLog::open(Some(100));
    assert_eq!(log.append_written::<()>(7, Ok(7)).unwrap(), 100);
    assert_eq!(log.write_offset, 107);
}

#[test]
fn short_append_moves_nothing() {
    let mut log = UringCommitLog::open(Some(100));
    let e = log.append_written::<()>(7, Ok(6)).unwrap_err();
    assert!(matches!(e, Error::ShortAppend));
    assert_eq!(e.kind(), ErrorKind::WriteZero);
    assert_eq!(e.message(), Some("failed to write the entire frame to the WAL"));
    assert_eq!(log.write_offset, 100);
}

#[test]
fn failed_append_moves_nothing() {
    let mut log = UringCommitLog::open(Some(100));
    let failure = IoFailure { kind: ErrorKind::Other, cause: 28 };
    match log.append_written(7, Err(failure)) {
        Err(Error::Io(f)) => assert_eq!(f.cause, 28),
        other => panic!("unexpected result: {:?}", other),
    }
    assert_eq!(log.write_offset, 100);
}

#[test]
fn read_returns_what_was_appended() {
    let mut file = Vec::new();
    let mut log = UringCommitLog::open(None);
    let first = append(&mut log, &mut file, b"Rust is lightning fast");
    let second = append(&mut log, &mut file, b"");
    let third = append(&mut log, &mut file, b"io_uring");
    assert_eq!((first, second, third), (0, 26, 30));
    assert_eq!(
        read(&log, &file, first).unwrap(),
        Some((b"Rust is lightning fast".to_vec(), 26))
    );
    assert_eq!(read(&log, &file, second).unwrap(), Some((Vec::new(), 30)));
    assert_eq!(read(&log, &file, third).unwrap(), Some((b"io_uring".to_vec(), 42)));
    assert_eq!(read(&log, &file, 42).unwrap(), None);
    assert_eq!(log.write_offset, 42);
}

#[test]
fn appends_leave_earlier_messages_alone() {
    let mut file = Vec::new();
    let mut log = UringCommitLog::open(None);
    append(&mut log, &mut file, b"one");
    let before = read(&log, &file, 0).unwrap();
    for _ in 0..10 {
        append(&mut log, &mut file, b"another");
        assert_eq!(read(&log, &file, 0).unwrap(), before);
    }
}

#[test]
fn reopened_log_goes_on_where_it_ended() {
    let mut file = Vec::new();
    let mut log = UringCommitLog::open(None);
    append(&mut log, &mut file, b"before");
    let mut log = UringCommitLog::open(Some(file.len() as u64));
    assert_eq!(log.write_offset, 10);
    assert_eq!(append(&mut log, &mut file, b"after"), 10);
    assert_eq!(read(&log, &file, 10).unwrap(), Some((b"after".to_vec(), 19)));
}

#[test]
fn next_append_overwrites_a_broken_one() {
    let mut file = Vec::new();
    let mut log = UringCommitLog::open(None);
    append(&mut log, &mut file, b"good");
    let request = log.append(b"broken".to_vec());
    write_at(&mut file, request.offset, &request.buf[..6]);
    assert!(log.append_written::<()>(request.buf.len(), Ok(6)).is_err());
    assert_eq!(read(&log, &file, 0).unwrap(), Some((b"good".to_vec(), 8)));
    assert_eq!(append(&mut log, &mut file, b"again"), 8);
    assert_eq!(read(&log, &file, 8).unwrap(), Some((b"again".to_vec(), 17)));
    assert_eq!(read(&log, &file, 17).unwrap(), None);
}

#[test]
fn read_asks_for_a_prefix_first() {
    let request = UringCommitLog::open(None).read_at(99);
    assert_eq!(request.offset, 99);
    assert_eq!(request.buf, vec![0; 4]);
}

#[test]
fn cut_off_prefix_is_an_error() {
    let log = UringCommitLog::open(None);
    for len in 1..4 {
        let e = read(&log, &vec![0; len], 0).unwrap_err();
        assert!(matches!(e, Error::ShortPrefix));
        assert_eq!(e.kind(), ErrorKind::UnexpectedEof);
        assert_eq!(e.message(), Some("corrupted WAL: incomplete length prefix"));
    }
}

#[test]
fn cut_off_message_is_an_error() {
    let log = UringCommitLog::open(None);
    let e = read(&log, &[0, 0, 0, 3, b'a', b'b'], 0).unwrap_err();
    assert!(matches!(e, Error::ShortPayload));
    assert_eq!(e.kind(), ErrorKind::UnexpectedEof);
    assert_eq!(e.message(), Some("corrupted WAL: incomplete payload read"));
}

#[test]
fn read_beyond_the_end_finds_nothing() {
    let log = UringCommitLog::open(None);
    assert_eq!(read(&log, &[0, 0, 0, 0], 1000).unwrap(), None);
}

#[test]
fn failed_reads_are_passed_on() {
    let failure = IoFailure { kind: ErrorKind::Other, cause: 5 };
    match UringCommitLog::read_at_prefix(0, Err(failure), &vec![0; 4]) {
        PrefixRead::Failed(Error::Io(f)) => assert_eq!(f.cause, 5),
        other => panic!("unexpected result: {:?}", other),
    }
    let failure = IoFailure { kind: ErrorKind::UnexpectedEof, cause: 6 };
    match UringCommitLog::read_at_payload(0, Err(failure), vec![0; 4]) {
        Err(e) => assert_eq!(e.kind(), ErrorKind::UnexpectedEof),
        other => panic!("unexpected result: {:?}", other),
    }
}
