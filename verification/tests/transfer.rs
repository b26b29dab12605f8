use ringlog::error::{Error, ErrorKind, IoFailure};
use ringlog::transfer::{
    read_exact, read_exact_resume, write_all, write_all_resume, Transfer,
};

/// Receives `len` bytes from a peer that sends in these chunks and then closes.
fn receive(len: usize, chunks: &[&[u8]]) -> Result<Vec<u8>, Error<()>> {
    let mut step = read_exact::<()>(vec![0; len], len);
    let mut chunks = chunks.iter();
    loop {
        match step {
            Transfer::Pending { mut buf, done, len } => {
                let chunk: &[u8] = chunks.next().copied().unwrap_or(&[]);
                buf[done..done + chunk.len()].copy_from_slice(chunk);
                step = read_exact_resume(buf, done, len, Ok(chunk.len()));
            }
            Transfer::Complete(buf) => return Ok(buf),
            Transfer::Failed(e) => return Err(e),
        }
    }
}

#[test]
fn nothing_to_receive_is_complete_at_once() {
    assert!(matches!(read_exact::<()>(Vec::new(), 0), Transfer::Complete(buf) if buf.is_empty()));
}

#[test]
fn buffer_may_still_be_empty_when_receiving_starts() {
    match read_exact::<()>(Vec::with_capacity(4), 4) {
        Transfer::Pending { buf, done, len } => {
            assert!(buf.is_empty());
            assert_eq!((done, len), (0, 4));
        }
        other => panic!("unexpected step: {:?}", other),
    }
}

#[test]
fn chunks_are_gathered_in_order() {
    assert_eq!(receive(5, &[b"he", b"l", b"lo"]).unwrap(), b"hello");
    assert_eq!(receive(5, &[b"hello"]).unwrap(), b"hello");
}

#[test]
fn pending_step_names_the_rest_of_the_buffer() {
    match read_exact_resume::<()>(vec![1, 2, 0, 0], 1, 4, Ok(1)) {
        Transfer::Pending { buf, done, len } => {
            assert_eq!(buf, vec![1, 2, 0, 0]);
            assert_eq!((done, len), (2, 4));
        }
        other => panic!("unexpected step: {:?}", other),
    }
}

#[test]
fn early_close_is_unexpected_eof() {
    let e = receive(5, &[b"he"]).unwrap_err();
    assert!(matches!(e, Error::PeerClosed));
    assert_eq!(e.kind(), ErrorKind::UnexpectedEof);
    assert_eq!(e.message(), Some("connection closed by peer before full read"));
}

#[test]
fn read_failure_is_passed_on() {
    let failure = IoFailure { kind: ErrorKind::Other, cause: 104 };
    match read_exact_resume(vec![0; 4], 0, 4, Err(failure)) {
        Transfer::Failed(Error::Io(f)) => {
            assert_eq!(f.kind, ErrorKind::Other);
            assert_eq!(f.cause, 104);
        }
        other => panic!("unexpected step: {:?}", other),
    }
}

#[test]
fn every_byte_is_sent_once_and_in_order() {
    let message = b"zero-copy record streaming".to_vec();
    let mut sent = Vec::new();
    let mut portion = 1;
    let mut step = write_all::<()>(message.clone());
    loop {
        match step {
            Transfer::Pending { buf, done, len } => {
                let n = portion.min(len - done);
                sent.extend_from_slice(&buf[done..done + n]);
                portion += 1;
                step = write_all_resume(buf, done, len, Ok(n));
            }
            Transfer::Complete(buf) => {
                assert_eq!(buf, message);
                break;
            }
            Transfer::Failed(e) => panic!("unexpected failure: {:?}", e),
        }
    }
    assert_eq!(sent, message);
}

#[test]
fn stalled_socket_is_write_zero() {
    match write_all_resume::<()>(vec![1, 2], 1, 2, Ok(0)) {
        Transfer::Failed(e) => {
            assert!(matches!(e, Error::SocketStalled));
            assert_eq!(e.kind(), ErrorKind::WriteZero);
            assert_eq!(e.message(), Some("failed to write bytes to socket connection"));
        }
        other => panic!("unexpected step: {:?}", other),
    }
    assert!(matches!(write_all::<()>(Vec::new()), Transfer::Complete(_)));
}

#[test]
fn write_failure_is_passed_on() {
    let failure = IoFailure { kind: ErrorKind::WriteZero, cause: "broken pipe" };
    match write_all_resume(vec![1, 2], 0, 2, Err(failure)) {
        Transfer::Failed(e) => {
            assert_eq!(e.kind(), ErrorKind::WriteZero);
            assert_eq!(e.message(), None);
        }
        other => panic!("unexpected step: {:?}", other),
    }
}
