use ringlog::client::{
    ClientAction, ConsumerClient, ConsumerEvent, ProducerClient, ProducerEvent,
};
use ringlog::error::{Error, ErrorKind, IoFailure};
use ringlog::log::{PrefixRead, UringCommitLog};
use ringlog::server::{Action, Ending, Reply, Session};
use ringlog::tail::{announce, latest, watch_tail};
use ringlog::wire::{encode_frame, encode_offset};
use tokio::sync::watch;

/// A broker with a log file in memory.
struct Broker {
    log: UringCommitLog,
    file: Vec<u8>,
    tx: watch::Sender<u64>,
    rx: watch::Receiver<u64>,
}

fn broker() -> Broker {
    let (tx, rx) = watch_tail(0);
    Broker { log: UringCommitLog::open(None), file: Vec::new(), tx, rx }
}

impl Broker {
    fn fill(&self, offset: u64, buf: &mut [u8]) -> usize {
        let from = (offset as usize).min(self.file.len());
        let n = buf.len().min(self.file.len() - from);
        buf[..n].copy_from_slice(&self.file[from..from + n]);
        n
    }

    /// Serves a client that sends `input` and then closes its end, until the session ends
    /// or waits. Gives back the last state, how it ended, and what the client got.
    fn serve(&mut self, input: &[u8]) -> (Session, Option<Ending<()>>, Vec<u8>) {
        let mut input = input.to_vec();
        let mut output = Vec::new();
        let mut reaction = Session::start::<()>();
        loop {
            let reply = match reaction.action {
                Action::Receive { len } => Reply::Received(if len <= input.len() {
                    let rest = input.split_off(len);
                    Ok(std::mem::replace(&mut input, rest))
                } else {
                    Err(Error::PeerClosed)
                }),
                Action::Append { payload } => {
                    let request = self.log.append(payload);
                    assert_eq!(request.offset as usize, self.file.len());
                    self.file.extend_from_slice(&request.buf);
                    let n = request.buf.len();
                    Reply::Appended(self.log.append_written(n, Ok(n)))
                }
                Action::Send { bytes } => {
                    output.extend_from_slice(&bytes);
                    Reply::Sent(Ok(()))
                }
                Action::ReadLog { offset } => {
                    let mut request = self.log.read_at(offset);
                    let n = self.fill(request.offset, &mut request.buf);
                    Reply::LogRead(
                        match UringCommitLog::read_at_prefix(offset, Ok(n), &request.buf) {
                            PrefixRead::End => Ok(None),
                            PrefixRead::Failed(e) => Err(e),
                            PrefixRead::Payload(mut request) => {
                                let n = self.fill(request.offset, &mut request.buf);
                                UringCommitLog::read_at_payload(offset, Ok(n), request.buf)
                            }
                        },
                    )
                }
                Action::AwaitTail => return (reaction.session, None, output),
                Action::Close(ending) => return (reaction.session, Some(ending), output),
            };
            assert!(reaction.session.accepts(&reply));
            reaction = reaction.session.step(reply, &self.tx, &self.rx);
        }
    }
}

fn producer_input(messages: &[&[u8]]) -> Vec<u8> {
    let mut input = vec![0x01];
    for m in messages {
        input.extend(encode_frame(m.to_vec()));
    }
    input
}

fn consumer_input(offset: u64) -> Vec<u8> {
    let mut input = vec![0x02];
    input.extend(encode_offset(offset));
    input
}

const MESSAGES: [&[u8]; 4] = [
    b"Rust is lightning fast",
    b"io_uring bypasses thread context switches",
    b"",
    b"Zero-copy record streaming achieved",
];

#[test]
fn session_starts_with_the_handshake() {
    let first = Session::start::<()>();
    assert_eq!(first.session, Session::Handshake);
    assert!(matches!(first.action, Action::Receive { len: 1 }));
    assert_eq!(first.announce, None);
}

#[test]
fn producer_has_its_messages_appended_and_acknowledged() {
    let mut broker = broker();
    let input = producer_input(&MESSAGES);
    let (session, ending, output) = broker.serve(&input);
    assert_eq!(session, Session::Closed);
    assert!(matches!(ending, Some(Ending::ProducerLeft)));
    assert_eq!(broker.file, &input[1..]);
    let mut acks = Vec::new();
    for offset in [0, 26, 71, 75] {
        acks.extend(encode_offset(offset));
    }
    assert_eq!(output, acks);
    assert_eq!(broker.log.write_offset, 114);
    assert_eq!(*broker.rx.borrow(), 114);
}

#[test]
fn consumer_gets_what_the_producer_sent() {
    let mut broker = broker();
    let input = producer_input(&MESSAGES);
    broker.serve(&input);
    let (session, ending, output) = broker.serve(&consumer_input(0));
    assert_eq!(session, Session::ConsumerWait { offset: 114 });
    assert!(ending.is_none());
    assert_eq!(output, &input[1..]);
}

#[test]
fn consumer_may_start_at_any_acknowledged_offset() {
    let mut broker = broker();
    broker.serve(&producer_input(&MESSAGES));
    for (i, offset) in [0u64, 26, 71, 75].into_iter().enumerate() {
        let (session, _, output) = broker.serve(&consumer_input(offset));
        assert_eq!(session, Session::ConsumerWait { offset: 114 });
        assert_eq!(output, &producer_input(&MESSAGES[i..])[1..]);
    }
    let (_, _, output) = broker.serve(&consumer_input(114));
    assert!(output.is_empty());
}

#[test]
fn waiting_consumer_goes_on_where_it_stopped() {
    let mut broker = broker();
    broker.serve(&producer_input(&MESSAGES[..1]));
    let (session, _, _) = broker.serve(&consumer_input(0));
    assert_eq!(session, Session::ConsumerWait { offset: 26 });
    let woken = session.step(Reply::<()>::TailChanged(true), &broker.tx, &broker.rx);
    assert_eq!(woken.session, Session::ConsumerRead { offset: 26 });
    assert!(matches!(woken.action, Action::ReadLog { offset: 26 }));
}

#[test]
fn waiting_consumer_ends_with_the_broker() {
    let r = Session::ConsumerWait { offset: 26 }.react(Reply::<()>::TailChanged(false), 26);
    assert_eq!(r.session, Session::Closed);
    assert!(matches!(r.action, Action::Close(Ending::BrokerShutdown)));
}

#[test]
fn consumer_waits_only_when_nothing_newer_is_announced() {
    let at_end = Session::ConsumerRead { offset: 26 };
    let r = at_end.react(Reply::<()>::LogRead(Ok(None)), 27);
    assert_eq!(r.session, at_end);
    assert!(matches!(r.action, Action::ReadLog { offset: 26 }));
    let r = at_end.react(Reply::<()>::LogRead(Ok(None)), 26);
    assert_eq!(r.session, Session::ConsumerWait { offset: 26 });
    assert!(matches!(r.action, Action::AwaitTail));
}

#[test]
fn step_looks_up_the_announced_end() {
    // The channel opens with the number it is given and passes on what is announced.
    let (tx, rx) = watch_tail(30);
    assert_eq!(*rx.borrow(), 30);
    let at_end = Session::ConsumerRead { offset: 30 };
    let r = at_end.step(Reply::<()>::LogRead(Ok(None)), &tx, &rx);
    assert!(matches!(r.action, Action::AwaitTail));
    let appended = Session::ProducerAppend { len: 5 };
    let r = appended.step(Reply::<()>::Appended(Ok(30)), &tx, &rx);
    assert_eq!(r.announce, Some(39));
    assert_eq!(*rx.borrow(), 39);
    // The acknowledgement is still to be sent when the new end is announced.
    assert!(matches!(r.action, Action::Send { bytes } if bytes == encode_offset(30)));
    let r = at_end.step(Reply::<()>::LogRead(Ok(None)), &tx, &rx);
    assert!(matches!(r.action, Action::ReadLog { offset: 30 }));
}

#[test]
fn each_append_is_announced_once_and_in_order() {
    let (tx, rx) = watch_tail(0);
    let mut log = UringCommitLog::open(None);
    for (message, end) in MESSAGES.into_iter().zip([26, 71, 75, 114]) {
        let frame_len = log.append(message.to_vec()).buf.len();
        let appended = log.append_written::<()>(frame_len, Ok(frame_len));
        let session = Session::ProducerAppend { len: message.len() };
        let r = session.step(Reply::Appended(appended), &tx, &rx);
        assert_eq!(r.announce, Some(end));
        assert_eq!(latest(&rx), end);
        assert_eq!(log.write_offset, end);
        let r = r.session.step(Reply::<()>::Sent(Ok(())), &tx, &rx);
        assert_eq!(r.announce, None);
        assert_eq!(latest(&rx), end);
    }
}

#[test]
fn producers_that_take_turns_get_their_own_offsets() {
    let mut broker = broker();
    let names: [&[&[u8]]; 2] = [&[b"a1", b"a-two"], &[b"b-one", b"", b"b3"]];
    let mut expected = [Vec::new(), Vec::new()];
    let mut sent = [Vec::new(), Vec::new()];
    let mut announced = Vec::new();
    let mut ends = Vec::new();
    for (i, turn) in [(0, 0), (1, 0), (1, 1), (0, 1), (1, 2)] {
        let message = names[i][turn].to_vec();
        expected[i].extend(encode_offset(broker.log.write_offset));
        let prefix = encode_frame(message.clone())[..4].to_vec();
        let r = Session::ProducerPrefix.react(Reply::<()>::Received(Ok(prefix)), 0);
        let r = r.session.react(Reply::<()>::Received(Ok(message.clone())), 0);
        let payload = match r.action {
            Action::Append { payload } => payload,
            other => panic!("unexpected action: {:?}", other),
        };
        assert_eq!(payload, message);
        let request = broker.log.append(payload);
        let n = request.buf.len();
        broker.file.extend(request.buf);
        let appended = broker.log.append_written::<()>(n, Ok(n));
        ends.push(broker.log.write_offset);
        let r = r.session.step(Reply::Appended(appended), &broker.tx, &broker.rx);
        announced.extend(r.announce);
        match r.action {
            Action::Send { bytes } => sent[i].extend(bytes),
            other => panic!("unexpected action: {:?}", other),
        }
    }
    assert_eq!(sent, expected);
    assert_eq!(announced, ends);
    assert_eq!(ends, vec![6, 15, 19, 28, 34]);
}

#[test]
fn announcement_reaches_the_linked_receiver() {
    let (tx, rx) = watch_tail(3);
    assert_eq!(latest(&rx), 3);
    assert_eq!(announce(&tx, 17), Ok(()));
    assert_eq!(latest(&rx), 17);
    drop(rx);
    assert_eq!(announce(&tx, 18), Err(18));
}

#[test]
fn announcing_without_consumers_is_no_error() {
    let (tx, rx) = watch_tail(0);
    let (_other, other_rx) = watch_tail(0);
    drop(rx);
    let r = Session::ProducerAppend { len: 1 }.step(Reply::<()>::Appended(Ok(0)), &tx, &other_rx);
    assert_eq!(r.session, Session::ProducerAck);
    assert_eq!(r.announce, Some(5));
}

#[test]
fn unknown_client_is_turned_away() {
    let mut broker = broker();
    let (session, ending, output) = broker.serve(&[0x03, 1, 2, 3]);
    assert_eq!(session, Session::Closed);
    assert!(matches!(ending, Some(Ending::UnknownClient(0x03))));
    assert!(output.is_empty());
    assert!(broker.file.is_empty());
}

#[test]
fn client_that_never_speaks_is_a_failure() {
    let (_, ending, _) = broker().serve(&[]);
    assert!(matches!(ending, Some(Ending::Failed(Error::PeerClosed))));
}

#[test]
fn broken_message_is_not_appended() {
    let whole = producer_input(&[b"first", b"second"]);
    // One byte of the second frame, then two, and so on.
    for cut in 1..10 {
        let mut broker = broker();
        let (_, ending, output) = broker.serve(&whole[..10 + cut]);
        assert_eq!(broker.file, encode_frame(b"first".to_vec()));
        assert_eq!(output, encode_offset(0));
        if cut < 4 {
            assert!(matches!(ending, Some(Ending::ProducerLeft)));
        } else {
            assert!(matches!(ending, Some(Ending::Failed(Error::PeerClosed))));
        }
    }
}

#[test]
fn consumer_without_an_offset_is_a_failure() {
    let (_, ending, _) = broker().serve(&[0x02, 0, 0, 0]);
    assert!(matches!(ending, Some(Ending::Failed(Error::PeerClosed))));
}

#[test]
fn consumer_of_a_damaged_log_fails() {
    let mut broker = broker();
    broker.file = vec![0, 0, 0, 9, 1];
    let (_, ending, output) = broker.serve(&consumer_input(0));
    assert!(matches!(ending, Some(Ending::Failed(Error::ShortPayload))));
    assert!(output.is_empty());
}

#[test]
fn failed_operations_close_the_connection() {
    let failure = || Error::Io(IoFailure { kind: ErrorKind::Other, cause: 5 });
    let replies = [
        (Session::ProducerPrefix, Reply::Received(Err(failure()))),
        (Session::ProducerAppend { len: 1 }, Reply::Appended(Err(failure()))),
        (Session::ProducerAck, Reply::Sent(Err(failure()))),
        (Session::ConsumerRead { offset: 0 }, Reply::LogRead(Err(failure()))),
        (Session::ConsumerSend { next_offset: 9 }, Reply::Sent(Err(failure()))),
    ];
    for (session, reply) in replies {
        let r = session.react(reply, 0);
        assert_eq!(r.session, Session::Closed);
        match r.action {
            Action::Close(Ending::Failed(Error::Io(f))) => assert_eq!(f.cause, 5),
            other => panic!("unexpected action: {:?}", other),
        }
    }
}

#[test]
fn eof_from_the_system_between_messages_is_a_clean_end() {
    let eof = Error::Io(IoFailure { kind: ErrorKind::UnexpectedEof, cause: () });
    let r = Session::ProducerPrefix.react(Reply::Received(Err(eof)), 0);
    assert!(matches!(r.action, Action::Close(Ending::ProducerLeft)));
}

#[test]
fn replies_that_do_not_fit_are_not_accepted() {
    let received = |n: usize| Reply::<()>::Received(Ok(vec![0; n]));
    assert!(Session::Handshake.accepts(&received(1)));
    assert!(!Session::Handshake.accepts(&received(2)));
    assert!(Session::ProducerPayload { len: 3 }.accepts(&received(3)));
    assert!(!Session::ProducerAck.accepts(&received(8)));
    assert!(!Session::Closed.accepts(&Reply::<()>::Sent(Ok(()))));
    let appended = Session::ProducerAppend { len: 10 };
    assert!(appended.accepts(&Reply::<()>::Appended(Ok(u64::MAX - 14))));
    assert!(!appended.accepts(&Reply::<()>::Appended(Ok(u64::MAX - 13))));
}

#[test]
fn consumer_gets_a_copy_of_the_log_from_any_offset() {
    // The message looks like a frame itself, so a stream may start inside it.
    let mut broker = broker();
    broker.serve(&producer_input(&[&[0, 0, 0, 2, 7, 8], b"next"]));
    let (session, ending, output) = broker.serve(&consumer_input(4));
    assert_eq!(session, Session::ConsumerWait { offset: 18 });
    assert!(ending.is_none());
    assert_eq!(output, &broker.file[4..]);
}

#[test]
fn messages_arrive_as_they_were_published() {
    let mut broker = broker();
    broker.serve(&producer_input(&[b"earlier"]));

    // What the producer client sends, up to the point where it needs acknowledgements.
    let mut published = match ProducerClient::start::<()>().action {
        ClientAction::Send { bytes } => bytes,
        other => panic!("unexpected action: {:?}", other),
    };
    for message in MESSAGES {
        let r = ProducerClient::Idle.step::<()>(ProducerEvent::Message(message.to_vec()));
        match r.action {
            ClientAction::Send { bytes } => published.extend(bytes),
            other => panic!("unexpected action: {:?}", other),
        }
    }
    let (_, _, acks) = broker.serve(&published);
    let offsets: Vec<u64> = acks
        .chunks(8)
        .map(|ack| {
            let r = ProducerClient::Acking.step::<()>(ProducerEvent::Received(ack.to_vec()));
            r.ack.unwrap()
        })
        .collect();
    assert_eq!(offsets, vec![11, 37, 82, 86]);

    let (_, _, mut stream) = broker.serve(&consumer_input(offsets[0]));
    let mut got: Vec<Vec<u8>> = Vec::new();
    let mut r = ConsumerClient::Requesting.step(ConsumerEvent::<()>::Sent);
    while let ClientAction::Receive { len } = r.action {
        if len > stream.len() {
            break;
        }
        let rest = stream.split_off(len);
        let bytes = std::mem::replace(&mut stream, rest);
        r = r.client.step(ConsumerEvent::Received(Ok(bytes)));
        got.extend(r.message.iter().cloned());
    }
    assert_eq!(got, MESSAGES);
}
