//! The clients' side of a connection.
//!
//! Like a session of the broker, a client is driven by events: each takes it to its next
//! state and to what it asks for next.

use crate::error::{Error, ErrorKind};
use crate::text::{message_of_line, trimmed};
use crate::wire::{
    be_bytes, be_value, be_value_of_be_bytes, decode_length, decode_offset, eight_bytes_stand_for,
    encode_frame, encode_offset, four_bytes_stand_for, frame, frame_layout, frameable,
    lemma_be_bytes_len, lemma_span_values, CONSUMER, OFFSET_LEN, PREFIX_LEN, PRODUCER,
};
use vstd::prelude::*;
use vstd::utf8::encode_utf8;

verus! {

/// How a client's connection ended.
#[derive(Debug)]
pub enum ClientEnding<E> {
    /// The producer has nothing more to publish.
    Finished,
    /// The broker closed the connection.
    StreamEnded,
    /// The connection failed.
    Failed(Error<E>),
}

/// What a client asks the caller to do.
#[derive(Debug)]
pub enum ClientAction<E> {
    /// Send all of these bytes.
    Send { bytes: Vec<u8> },
    /// Receive exactly `len` bytes.
    Receive { len: usize },
    /// Come up with the next message to publish.
    NextMessage,
    /// Close the connection.
    Close(ClientEnding<E>),
}

/// The mathematical view of a `ClientAction`.
#[verifier::ext_equal]
pub enum ClientActionView<E> {
    Send { bytes: Seq<u8> },
    Receive { len: nat },
    NextMessage,
    Close(ClientEnding<E>),
}

impl<E> View for ClientAction<E> {
    type V = ClientActionView<E>;

    open spec fn view(&self) -> ClientActionView<E> {
        match *self {
            ClientAction::Send { bytes } => ClientActionView::Send { bytes: bytes@ },
            ClientAction::Receive { len } => ClientActionView::Receive { len: len as nat },
            ClientAction::NextMessage => ClientActionView::NextMessage,
            ClientAction::Close(ending) => ClientActionView::Close(ending),
        }
    }
}

/// What a producer client is waiting for.
#[derive(Clone, Copy, PartialEq, Eq, Structural, Debug)]
pub enum ProducerClient {
    /// The broker to take the handshake byte.
    Greeting,
    /// The next message to publish.
    Idle,
    /// The broker to take a message.
    Publishing,
    /// The acknowledgement of a message.
    Acking,
    /// Nothing: the connection is over.
    Closed,
}

/// What happens to a producer client.
#[derive(Debug)]
pub enum ProducerEvent {
    /// The bytes have been sent.
    Sent,
    /// There is a message to publish.
    Message(Vec<u8>),
    /// A line has been typed.
    Line(String),
    /// There is nothing more to publish.
    EndOfInput,
    /// The bytes have been received.
    Received(Vec<u8>),
}

/// The mathematical view of a `ProducerEvent`.
#[verifier::ext_equal]
pub enum ProducerEventView {
    Sent,
    Message(Seq<u8>),
    Line(Seq<char>),
    EndOfInput,
    Received(Seq<u8>),
}

impl View for ProducerEvent {
    type V = ProducerEventView;

    open spec fn view(&self) -> ProducerEventView {
        match *self {
            ProducerEvent::Sent => ProducerEventView::Sent,
            ProducerEvent::Message(bytes) => ProducerEventView::Message(bytes@),
            ProducerEvent::Line(text) => ProducerEventView::Line(text@),
            ProducerEvent::EndOfInput => ProducerEventView::EndOfInput,
            ProducerEvent::Received(bytes) => ProducerEventView::Received(bytes@),
        }
    }
}

/// What an event leads to: the next state, the next action, and the offset at which the
/// broker has put a message, if it has just acknowledged one.
#[derive(Debug)]
pub struct ProducerReaction<E> {
    pub client: ProducerClient,
    pub action: ClientAction<E>,
    pub ack: Option<u64>,
}

/// The mathematical view of a `ProducerReaction`.
#[verifier::ext_equal]
pub struct ProducerReactionView<E> {
    pub client: ProducerClient,
    pub action: ClientActionView<E>,
    pub ack: Option<u64>,
}

impl<E> View for ProducerReaction<E> {
    type V = ProducerReactionView<E>;

    open spec fn view(&self) -> ProducerReactionView<E> {
        ProducerReactionView { client: self.client, action: self.action@, ack: self.ack }
    }
}

/// The events that fit what a producer client is waiting for.
pub open spec fn producer_expects(client: ProducerClient, event: ProducerEventView) -> bool {
    match (client, event) {
        (ProducerClient::Greeting, ProducerEventView::Sent) => true,
        (ProducerClient::Idle, ProducerEventView::Message(bytes)) => frameable(bytes.len()),
        (ProducerClient::Idle, ProducerEventView::Line(text)) => frameable(
            encode_utf8(trimmed(text)).len(),
        ),
        (ProducerClient::Idle, ProducerEventView::EndOfInput) => true,
        (ProducerClient::Publishing, ProducerEventView::Sent) => true,
        (ProducerClient::Acking, ProducerEventView::Received(bytes)) => bytes.len() == 8,
        _ => false,
    }
}

/// What an event leads to.
pub open spec fn producer_next<E>(
    client: ProducerClient,
    event: ProducerEventView,
) -> ProducerReactionView<E> {
    let (client, action, ack) = match (client, event) {
        (ProducerClient::Greeting, ProducerEventView::Sent) => (
            ProducerClient::Idle,
            ClientActionView::NextMessage,
            None,
        ),
        (ProducerClient::Idle, ProducerEventView::Message(bytes)) => (
            ProducerClient::Publishing,
            ClientActionView::Send { bytes: frame(bytes) },
            None,
        ),
        (ProducerClient::Idle, ProducerEventView::Line(text)) => if trimmed(text).len() == 0 {
            (ProducerClient::Idle, ClientActionView::NextMessage, None)
        } else {
            (
                ProducerClient::Publishing,
                ClientActionView::Send { bytes: frame(encode_utf8(trimmed(text))) },
                None,
            )
        },
        (ProducerClient::Publishing, ProducerEventView::Sent) => (
            ProducerClient::Acking,
            ClientActionView::Receive { len: 8 },
            None,
        ),
        (ProducerClient::Acking, ProducerEventView::Received(bytes)) => (
            ProducerClient::Idle,
            ClientActionView::NextMessage,
            Some(be_value(bytes) as u64),
        ),
        _ => (ProducerClient::Closed, ClientActionView::Close(ClientEnding::Finished), None),
    };
    ProducerReactionView { client, action, ack }
}

impl ProducerClient {
    /// A producer client first announces its role.
    pub fn start<E>() -> (reaction: ProducerReaction<E>)
        ensures
            reaction@ == (ProducerReactionView::<E> {
                client: ProducerClient::Greeting,
                action: ClientActionView::Send { bytes: seq![PRODUCER] },
                ack: None,
            }),
    {
        let bytes: Vec<u8> = vec![PRODUCER];
        assert(bytes@ =~= seq![PRODUCER]);
        ProducerReaction {
            client: ProducerClient::Greeting,
            action: ClientAction::Send { bytes },
            ack: None,
        }
    }

    /// What an event leads to.
    pub fn step<E>(self, event: ProducerEvent) -> (reaction: ProducerReaction<E>)
        requires
            producer_expects(self, event@),
        ensures
            reaction@ == producer_next::<E>(self, event@),
    {
        match (self, event) {
            (ProducerClient::Greeting, ProducerEvent::Sent) => ProducerReaction {
                client: ProducerClient::Idle,
                action: ClientAction::NextMessage,
                ack: None,
            },
            (ProducerClient::Idle, ProducerEvent::Message(bytes)) => ProducerReaction {
                client: ProducerClient::Publishing,
                action: ClientAction::Send { bytes: encode_frame(bytes) },
                ack: None,
            },
            (ProducerClient::Idle, ProducerEvent::Line(text)) => match message_of_line(
                text.as_str(),
            ) {
                None => ProducerReaction {
                    client: ProducerClient::Idle,
                    action: ClientAction::NextMessage,
                    ack: None,
                },
                Some(bytes) => ProducerReaction {
                    client: ProducerClient::Publishing,
                    action: ClientAction::Send { bytes: encode_frame(bytes) },
                    ack: None,
                },
            },
            (ProducerClient::Publishing, ProducerEvent::Sent) => ProducerReaction {
                client: ProducerClient::Acking,
                action: ClientAction::Receive { len: OFFSET_LEN },
                ack: None,
            },
            (ProducerClient::Acking, ProducerEvent::Received(bytes)) => {
                let offset: u64 = decode_offset(&bytes);
                assert(bytes@.take(8) =~= bytes@);
                ProducerReaction {
                    client: ProducerClient::Idle,
                    action: ClientAction::NextMessage,
                    ack: Some(offset),
                }
            },
            _ => ProducerReaction {
                client: ProducerClient::Closed,
                action: ClientAction::Close(ClientEnding::Finished),
                ack: None,
            },
        }
    }
}

/// What a consumer client is waiting for.
#[derive(Clone, Copy, PartialEq, Eq, Structural, Debug)]
pub enum ConsumerClient {
    /// The broker to take the handshake byte.
    Greeting { start_offset: u64 },
    /// The broker to take the starting offset.
    Requesting,
    /// The next length prefix.
    Prefix,
    /// The message that the broker has announced.
    Payload { len: usize },
    /// Nothing: the connection is over.
    Closed,
}

/// What happens to a consumer client.
#[derive(Debug)]
pub enum ConsumerEvent<E> {
    /// The bytes have been sent.
    Sent,
    /// Receiving has ended.
    Received(Result<Vec<u8>, Error<E>>),
}

/// The mathematical view of a `ConsumerEvent`.
#[verifier::ext_equal]
pub enum ConsumerEventView<E> {
    Sent,
    Received(Result<Seq<u8>, Error<E>>),
}

impl<E> View for ConsumerEvent<E> {
    type V = ConsumerEventView<E>;

    open spec fn view(&self) -> ConsumerEventView<E> {
        match *self {
            ConsumerEvent::Sent => ConsumerEventView::Sent,
            ConsumerEvent::Received(Ok(bytes)) => ConsumerEventView::Received(Ok(bytes@)),
            ConsumerEvent::Received(Err(e)) => ConsumerEventView::Received(Err(e)),
        }
    }
}

/// What an event leads to: the next state, the next action, and the message that has just
/// come, if one has.
#[derive(Debug)]
pub struct ConsumerReaction<E> {
    pub client: ConsumerClient,
    pub action: ClientAction<E>,
    pub message: Option<Vec<u8>>,
}

/// The mathematical view of a `ConsumerReaction`.
#[verifier::ext_equal]
pub struct ConsumerReactionView<E> {
    pub client: ConsumerClient,
    pub action: ClientActionView<E>,
    pub message: Option<Seq<u8>>,
}

impl<E> View for ConsumerReaction<E> {
    type V = ConsumerReactionView<E>;

    open spec fn view(&self) -> ConsumerReactionView<E> {
        ConsumerReactionView {
            client: self.client,
            action: self.action@,
            message: match self.message {
                Some(bytes) => Some(bytes@),
                None => None,
            },
        }
    }
}

/// The events that fit what a consumer client is waiting for. A broker that breaks off
/// inside a message is not among them.
pub open spec fn consumer_expects<E>(client: ConsumerClient, event: ConsumerEventView<E>) -> bool {
    match (client, event) {
        (ConsumerClient::Greeting { .. }, ConsumerEventView::Sent) => true,
        (ConsumerClient::Requesting, ConsumerEventView::Sent) => true,
        (ConsumerClient::Prefix, ConsumerEventView::Received(Ok(bytes))) => bytes.len() == 4,
        (ConsumerClient::Prefix, ConsumerEventView::Received(Err(_))) => true,
        (ConsumerClient::Payload { len }, ConsumerEventView::Received(Ok(bytes))) => bytes.len()
            == len,
        _ => false,
    }
}

/// What an event leads to.
pub open spec fn consumer_next<E>(
    client: ConsumerClient,
    event: ConsumerEventView<E>,
) -> ConsumerReactionView<E> {
    let (client, action, message) = match (client, event) {
        (ConsumerClient::Greeting { start_offset }, ConsumerEventView::Sent) => (
            ConsumerClient::Requesting,
            ClientActionView::Send { bytes: be_bytes(start_offset as nat, 8) },
            None,
        ),
        (ConsumerClient::Requesting, ConsumerEventView::Sent) => (
            ConsumerClient::Prefix,
            ClientActionView::Receive { len: 4 },
            None,
        ),
        (ConsumerClient::Prefix, ConsumerEventView::Received(Ok(bytes))) => (
            ConsumerClient::Payload { len: be_value(bytes) as usize },
            ClientActionView::Receive { len: be_value(bytes) },
            None,
        ),
        (ConsumerClient::Prefix, ConsumerEventView::Received(Err(e))) => (
            ConsumerClient::Closed,
            ClientActionView::Close(
                if e.spec_kind() == ErrorKind::UnexpectedEof {
                    ClientEnding::StreamEnded
                } else {
                    ClientEnding::Failed(e)
                },
            ),
            None,
        ),
        (ConsumerClient::Payload { .. }, ConsumerEventView::Received(Ok(bytes))) => (
            ConsumerClient::Prefix,
            ClientActionView::Receive { len: 4 },
            Some(bytes),
        ),
        _ => (ConsumerClient::Closed, ClientActionView::Close(ClientEnding::StreamEnded), None),
    };
    ConsumerReactionView { client, action, message }
}

impl ConsumerClient {
    /// A consumer client first announces its role.
    pub fn start<E>(start_offset: u64) -> (reaction: ConsumerReaction<E>)
        ensures
            reaction@ == (ConsumerReactionView::<E> {
                client: ConsumerClient::Greeting { start_offset },
                action: ClientActionView::Send { bytes: seq![CONSUMER] },
                message: None,
            }),
    {
        let bytes: Vec<u8> = vec![CONSUMER];
        assert(bytes@ =~= seq![CONSUMER]);
        ConsumerReaction {
            client: ConsumerClient::Greeting { start_offset },
            action: ClientAction::Send { bytes },
            message: None,
        }
    }

    /// What an event leads to.
    pub fn step<E>(self, event: ConsumerEvent<E>) -> (reaction: ConsumerReaction<E>)
        requires
            consumer_expects(self, event@),
        ensures
            reaction@ == consumer_next(self, event@),
    {
        match (self, event) {
            (ConsumerClient::Greeting { start_offset }, ConsumerEvent::Sent) => ConsumerReaction {
                client: ConsumerClient::Requesting,
                action: ClientAction::Send { bytes: encode_offset(start_offset) },
                message: None,
            },
            (ConsumerClient::Requesting, ConsumerEvent::Sent) => ConsumerReaction {
                client: ConsumerClient::Prefix,
                action: ClientAction::Receive { len: PREFIX_LEN },
                message: None,
            },
            (ConsumerClient::Prefix, ConsumerEvent::Received(Ok(bytes))) => {
                let len: usize = decode_length(&bytes);
                assert(bytes@.take(4) =~= bytes@);
                ConsumerReaction {
                    client: ConsumerClient::Payload { len },
                    action: ClientAction::Receive { len },
                    message: None,
                }
            },
            (ConsumerClient::Prefix, ConsumerEvent::Received(Err(e))) => {
                let ending = if e.kind() == ErrorKind::UnexpectedEof {
                    ClientEnding::StreamEnded
                } else {
                    ClientEnding::Failed(e)
                };
                ConsumerReaction {
                    client: ConsumerClient::Closed,
                    action: ClientAction::Close(ending),
                    message: None,
                }
            },
            (ConsumerClient::Payload { .. }, ConsumerEvent::Received(Ok(bytes))) => {
                ConsumerReaction {
                    client: ConsumerClient::Prefix,
                    action: ClientAction::Receive { len: PREFIX_LEN },
                    message: Some(bytes),
                }
            },
            _ => ConsumerReaction {
                client: ConsumerClient::Closed,
                action: ClientAction::Close(ClientEnding::StreamEnded),
                message: None,
            },
        }
    }
}

/// A typed line is published like the message of its text without the white space around it;
/// it is passed over exactly if no text is left. The client accepts it exactly if it accepts
/// that message.
pub proof fn typed_line_is_published<E>(text: Seq<char>)
    ensures
        trimmed(text).len() > 0 ==> producer_next::<E>(
            ProducerClient::Idle,
            ProducerEventView::Line(text),
        ) == producer_next::<E>(
            ProducerClient::Idle,
            ProducerEventView::Message(encode_utf8(trimmed(text))),
        ),
        trimmed(text).len() == 0 <==> producer_next::<E>(
            ProducerClient::Idle,
            ProducerEventView::Line(text),
        ) == (ProducerReactionView::<E> {
            client: ProducerClient::Idle,
            action: ClientActionView::NextMessage,
            ack: None,
        }),
        producer_expects(ProducerClient::Idle, ProducerEventView::Line(text)) <==> producer_expects(
            ProducerClient::Idle,
            ProducerEventView::Message(encode_utf8(trimmed(text))),
        ),
{
}

/// A message is sent with its length before it, whatever it holds; then its acknowledgement
/// is received, and gives the offset that its eight bytes stand for.
pub proof fn message_is_published<E>(message: Seq<u8>, ack: Seq<u8>)
    requires
        frameable(message.len()),
        ack.len() == 8,
    ensures
        ({
            let event = ProducerEventView::Message(message);
            let one = producer_next::<E>(ProducerClient::Idle, event);
            let two = producer_next::<E>(one.client, ProducerEventView::Sent);
            let three = producer_next::<E>(two.client, ProducerEventView::Received(ack));
            &&& producer_expects(ProducerClient::Idle, event)
            &&& one.client == ProducerClient::Publishing && one.ack is None
            &&& one.action matches ClientActionView::Send { bytes }
            &&& bytes.len() == 4 + message.len()
            &&& bytes[0] * 0x100_0000 + bytes[1] * 0x1_0000 + bytes[2] * 0x100 + bytes[3]
                == message.len()
            &&& bytes.skip(4) == message
            &&& producer_expects(one.client, ProducerEventView::Sent)
            &&& two.client == ProducerClient::Acking && two.ack is None
            &&& two.action == (ClientActionView::<E>::Receive { len: 8 })
            &&& producer_expects(two.client, ProducerEventView::Received(ack))
            &&& three.client == ProducerClient::Idle
            &&& three.action == ClientActionView::<E>::NextMessage
            &&& three.ack matches Some(offset)
            &&& offset == ack[0] * 0x100_0000_0000_0000 + ack[1] * 0x1_0000_0000_0000 + ack[2]
                * 0x100_0000_0000 + ack[3] * 0x1_0000_0000 + ack[4] * 0x100_0000 + ack[5] * 0x1_0000
                + ack[6] * 0x100 + ack[7]
        }),
{
    frame_layout(message);
    eight_bytes_stand_for(ack);
}

/// A producer client goes from its greeting to its first message, and closes when there is
/// nothing more to publish.
pub proof fn producer_client_starts_and_ends<E>()
    ensures
        producer_expects(ProducerClient::Greeting, ProducerEventView::Sent),
        producer_next::<E>(ProducerClient::Greeting, ProducerEventView::Sent) == (
        ProducerReactionView::<E> {
            client: ProducerClient::Idle,
            action: ClientActionView::NextMessage,
            ack: None,
        }),
        producer_expects(ProducerClient::Idle, ProducerEventView::EndOfInput),
        producer_next::<E>(ProducerClient::Idle, ProducerEventView::EndOfInput) == (
        ProducerReactionView::<E> {
            client: ProducerClient::Closed,
            action: ClientActionView::Close(ClientEnding::Finished),
            ack: None,
        }),
{
}

/// A producer client accepts every event that can come of what it has just asked for, and no
/// other.
pub proof fn producer_client_accepts_what_comes<E>(
    client: ProducerClient,
    event: ProducerEventView,
    follow: ProducerEventView,
)
    requires
        producer_expects(client, event),
    ensures
        ({
            let reaction = producer_next::<E>(client, event);
            producer_expects(reaction.client, follow) <==> match (reaction.action, follow) {
                (ClientActionView::Send { .. }, ProducerEventView::Sent) => true,
                (ClientActionView::Receive { len }, ProducerEventView::Received(bytes)) => {
                    bytes.len() == len
                },
                (ClientActionView::NextMessage, ProducerEventView::Message(bytes)) => {
                    bytes.len() <= u32::MAX && bytes.len() + 4 <= isize::MAX
                },
                (ClientActionView::NextMessage, ProducerEventView::Line(text)) => {
                    let message = encode_utf8(trimmed(text));
                    message.len() <= u32::MAX && message.len() + 4 <= isize::MAX
                },
                (ClientActionView::NextMessage, ProducerEventView::EndOfInput) => true,
                _ => false,
            }
        }),
{
}

/// A consumer client asks for the messages from its starting offset on, which it sends in
/// eight bytes, the most significant first; then it receives a length prefix.
pub proof fn consumer_client_asks_for_offset<E>(start_offset: u64)
    ensures
        ({
            let greeting = ConsumerClient::Greeting { start_offset };
            let one = consumer_next::<E>(greeting, ConsumerEventView::Sent);
            let two = consumer_next::<E>(one.client, ConsumerEventView::Sent);
            &&& consumer_expects::<E>(greeting, ConsumerEventView::Sent)
            &&& one.client == ConsumerClient::Requesting && one.message is None
            &&& one.action matches ClientActionView::Send { bytes }
            &&& bytes.len() == 8
            &&& start_offset == bytes[0] * 0x100_0000_0000_0000 + bytes[1] * 0x1_0000_0000_0000
                + bytes[2] * 0x100_0000_0000 + bytes[3] * 0x1_0000_0000 + bytes[4] * 0x100_0000
                + bytes[5] * 0x1_0000 + bytes[6] * 0x100 + bytes[7]
            &&& consumer_expects::<E>(one.client, ConsumerEventView::Sent)
            &&& two.client == ConsumerClient::Prefix && two.message is None
            &&& two.action == (ClientActionView::<E>::Receive { len: 4 })
        }),
{
    lemma_be_bytes_len(start_offset as nat, 8);
    lemma_span_values();
    be_value_of_be_bytes(start_offset as nat, 8);
    eight_bytes_stand_for(be_bytes(start_offset as nat, 8));
}

/// A consumer client takes a message as long as its prefix says, hands it on as it was
/// received, and receives the next prefix.
pub proof fn received_message_is_handed_on<E>(prefix: Seq<u8>, payload: Seq<u8>)
    requires
        prefix.len() == 4,
        payload.len() == prefix[0] * 0x100_0000 + prefix[1] * 0x1_0000 + prefix[2] * 0x100
            + prefix[3],
    ensures
        ({
            let event = ConsumerEventView::<E>::Received(Ok(prefix));
            let one = consumer_next(ConsumerClient::Prefix, event);
            let two = consumer_next(one.client, ConsumerEventView::<E>::Received(Ok(payload)));
            &&& consumer_expects(ConsumerClient::Prefix, event)
            &&& one.client matches ConsumerClient::Payload { len } && len == payload.len()
            &&& one.action == (ClientActionView::<E>::Receive { len: payload.len() })
            &&& one.message is None
            &&& consumer_expects(one.client, ConsumerEventView::<E>::Received(Ok(payload)))
            &&& two.client == ConsumerClient::Prefix
            &&& two.action == (ClientActionView::<E>::Receive { len: 4 })
            &&& two.message == Some(payload)
        }),
{
    four_bytes_stand_for(prefix);
}

/// Whatever message comes, of whatever length, this message is handed on.
pub proof fn any_message_is_handed_on<E>(payload: Seq<u8>, len: usize)
    requires
        payload.len() == len,
    ensures
        consumer_expects(
            ConsumerClient::Payload { len },
            ConsumerEventView::<E>::Received(Ok(payload)),
        ),
        consumer_next(
            ConsumerClient::Payload { len },
            ConsumerEventView::<E>::Received(Ok(payload)),
        ) == (ConsumerReactionView::<E> {
            client: ConsumerClient::Prefix,
            action: ClientActionView::Receive { len: 4 },
            message: Some(payload),
        }),
{
}

/// A stream that ends between two messages is over without an error; any other failure there
/// is kept.
pub proof fn consumer_client_ends<E>(e: Error<E>)
    ensures
        ({
            let event = ConsumerEventView::<E>::Received(Err(e));
            let reaction = consumer_next(ConsumerClient::Prefix, event);
            &&& consumer_expects(ConsumerClient::Prefix, event)
            &&& reaction.client == ConsumerClient::Closed && reaction.message is None
            &&& e.spec_kind() == ErrorKind::UnexpectedEof ==> reaction.action == ClientActionView::<
                E,
            >::Close(ClientEnding::StreamEnded)
            &&& e.spec_kind() != ErrorKind::UnexpectedEof ==> reaction.action == ClientActionView::<
                E,
            >::Close(ClientEnding::Failed(e))
        }),
{
}

/// A consumer client accepts every event that can come of what it has just asked for, other
/// than a failure inside a message, and no other event.
pub proof fn consumer_client_accepts_what_comes<E>(
    client: ConsumerClient,
    event: ConsumerEventView<E>,
    follow: ConsumerEventView<E>,
)
    requires
        consumer_expects(client, event),
    ensures
        ({
            let reaction = consumer_next(client, event);
            consumer_expects(reaction.client, follow) <==> match (reaction.action, follow) {
                (ClientActionView::Send { .. }, ConsumerEventView::Sent) => true,
                (ClientActionView::Receive { len }, ConsumerEventView::Received(Ok(bytes))) => {
                    bytes.len() == len
                },
                (ClientActionView::Receive { .. }, ConsumerEventView::Received(Err(_))) => {
                    reaction.client == ConsumerClient::Prefix
                },
                _ => false,
            }
        }),
{
    if let ConsumerEventView::Received(Ok(bytes)) = event {
        if bytes.len() == 4 {
            four_bytes_stand_for(bytes);
        }
    }
}

/// The views of what a producer client is told and asks for keep all of it.
pub proof fn producer_client_is_seen<E>(
    bytes: Vec<u8>,
    text: String,
    len: usize,
    ending: ClientEnding<E>,
    client: ProducerClient,
    action: ClientAction<E>,
    ack: Option<u64>,
)
    ensures
        ProducerEvent::Sent@ == ProducerEventView::Sent,
        ProducerEvent::Message(bytes)@ == ProducerEventView::Message(bytes@),
        ProducerEvent::Line(text)@ == ProducerEventView::Line(text@),
        ProducerEvent::EndOfInput@ == ProducerEventView::EndOfInput,
        ProducerEvent::Received(bytes)@ == ProducerEventView::Received(bytes@),
        (ClientAction::<E>::Send { bytes })@ == (ClientActionView::<E>::Send { bytes: bytes@ }),
        (ClientAction::<E>::Receive { len })@ == (ClientActionView::<E>::Receive {
            len: len as nat,
        }),
        ClientAction::<E>::NextMessage@ == ClientActionView::<E>::NextMessage,
        ClientAction::<E>::Close(ending)@ == ClientActionView::<E>::Close(ending),
        (ProducerReaction::<E> { client, action, ack })@ == (ProducerReactionView::<E> {
            client,
            action: action@,
            ack,
        }),
{
}

/// The views of what a consumer client is told and hands on keep all of it.
pub proof fn consumer_client_is_seen<E>(
    bytes: Vec<u8>,
    e: Error<E>,
    client: ConsumerClient,
    action: ClientAction<E>,
)
    ensures
        ConsumerEvent::<E>::Sent@ == ConsumerEventView::<E>::Sent,
        ConsumerEvent::<E>::Received(Ok(bytes))@ == ConsumerEventView::<E>::Received(Ok(bytes@)),
        ConsumerEvent::<E>::Received(Err(e))@ == ConsumerEventView::<E>::Received(Err(e)),
        (ConsumerReaction::<E> { client, action, message: Some(bytes) })@ == (
        ConsumerReactionView::<E> { client, action: action@, message: Some(bytes@) }),
        (ConsumerReaction::<E> { client, action, message: None })@ == (ConsumerReactionView::<E> {
            client,
            action: action@,
            message: None,
        }),
{
}

} // verus!
