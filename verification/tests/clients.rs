use ringlog::client::{
    ClientAction, ClientEnding, ConsumerClient, ConsumerEvent, ProducerClient, ProducerEvent,
};
use ringlog::error::{Error, ErrorKind, IoFailure};
use ringlog::wire::{encode_frame, encode_offset};

fn sent(action: ClientAction<()>) -> Vec<u8> {
    match action {
        ClientAction::Send { bytes } => bytes,
        other => panic!("unexpected action: {:?}", other),
    }
}

#[test]
fn producer_client_publishes_and_learns_offsets() {
    let r = ProducerClient::start::<()>();
    assert_eq!(sent(r.action), vec![0x01]);
    let mut client = r.client;
    let r = client.step::<()>(ProducerEvent::Sent);
    assert!(matches!(r.action, ClientAction::NextMessage));
    client = r.client;
    for (message, offset) in [("one", 0u64), ("three", 7)] {
        let r = client.step::<()>(ProducerEvent::Message(message.as_bytes().to_vec()));
        assert_eq!(sent(r.action), encode_frame(message.as_bytes().to_vec()));
        let r = r.client.step::<()>(ProducerEvent::Sent);
        assert!(matches!(r.action, ClientAction::Receive { len: 8 }));
        let r = r.client.step::<()>(ProducerEvent::Received(encode_offset(offset)));
        assert_eq!(r.ack, Some(offset));
        assert!(matches!(r.action, ClientAction::NextMessage));
        client = r.client;
    }
    let r = client.step::<()>(ProducerEvent::EndOfInput);
    assert_eq!(r.client, ProducerClient::Closed);
    assert!(matches!(r.action, ClientAction::Close(ClientEnding::Finished)));
}

#[test]
fn typed_line_is_published_without_surrounding_space() {
    let r = ProducerClient::Idle.step::<()>(ProducerEvent::Line("  hello there \n".to_string()));
    assert_eq!(r.client, ProducerClient::Publishing);
    assert_eq!(sent(r.action), encode_frame(b"hello there".to_vec()));
}

#[test]
fn blank_line_is_not_published() {
    for line in ["", "   ", "\t\r\n"] {
        let r = ProducerClient::Idle.step::<()>(ProducerEvent::Line(line.to_string()));
        assert_eq!(r.client, ProducerClient::Idle);
        assert!(matches!(r.action, ClientAction::NextMessage));
        assert_eq!(r.ack, None);
    }
}

#[test]
fn consumer_client_takes_messages_out_of_frames() {
    let r = ConsumerClient::start::<()>(42);
    assert_eq!(sent(r.action), vec![0x02]);
    let r = r.client.step(ConsumerEvent::Sent);
    assert_eq!(sent(r.action), encode_offset(42));
    let mut r = r.client.step(ConsumerEvent::<()>::Sent);
    let mut stream = Vec::new();
    for message in ["first", "", "third"] {
        stream.extend(encode_frame(message.as_bytes().to_vec()));
    }
    let mut got = Vec::new();
    loop {
        let event = match r.action {
            ClientAction::Receive { len } if len <= stream.len() => {
                let rest = stream.split_off(len);
                ConsumerEvent::Received(Ok(std::mem::replace(&mut stream, rest)))
            }
            ClientAction::Receive { .. } => ConsumerEvent::Received(Err(Error::PeerClosed)),
            ClientAction::Close(ending) => {
                assert!(matches!(ending, ClientEnding::StreamEnded));
                break;
            }
            other => panic!("unexpected action: {:?}", other),
        };
        r = r.client.step(event);
        if let Some(message) = &r.message {
            got.push(message.clone());
        }
    }
    assert_eq!(got, vec![b"first".to_vec(), Vec::new(), b"third".to_vec()]);
    assert_eq!(r.client, ConsumerClient::Closed);
}

#[test]
fn consumer_client_reports_other_failures() {
    let failure = Error::Io(IoFailure { kind: ErrorKind::Other, cause: 104 });
    let r = ConsumerClient::Prefix.step(ConsumerEvent::Received(Err(failure)));
    match r.action {
        ClientAction::Close(ClientEnding::Failed(Error::Io(f))) => assert_eq!(f.cause, 104),
        other => panic!("unexpected action: {:?}", other),
    }
}
