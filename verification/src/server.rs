//! The broker's side of a connection.
//!
//! A session is driven by replies. Each reply to what the session asked for last
//! takes it to its next state and to what it asks for next; the caller performs the
//! action and brings the reply.

use crate::error::{Error, ErrorKind};
use crate::log::{log_read_view, LogRead, LogReadView};
use crate::tail::{latest, Announcer};
use crate::wire::{
    be_bytes, be_value, be_value_of_be_bytes, decode_length, decode_offset, eight_bytes_stand_for,
    encode_frame, encode_offset, four_bytes_stand_for, frame, frame_layout, frameable,
    lemma_be_bytes_len, lemma_be_value_bound, lemma_span_values, CONSUMER, OFFSET_LEN, PREFIX_LEN,
    PRODUCER,
};
use tokio::sync::watch;
use vstd::prelude::*;

verus! {

/// What a connection is waiting for.
#[derive(Clone, Copy, PartialEq, Eq, Structural, Debug)]
pub enum Session {
    /// The byte that tells the client's role.
    Handshake,
    /// A producer's next length prefix.
    ProducerPrefix,
    /// The message that a producer has announced.
    ProducerPayload { len: usize },
    /// The log to take a producer's message.
    ProducerAppend { len: usize },
    /// The producer to take its acknowledgement.
    ProducerAck,
    /// The offset at which a consumer wants to start.
    ConsumerStart,
    /// The log to give the message at `offset`.
    ConsumerRead { offset: u64 },
    /// The consumer to take a message; the next one is at `next_offset`.
    ConsumerSend { next_offset: u64 },
    /// New messages, with everything before `offset` sent.
    ConsumerWait { offset: u64 },
    /// Nothing: the connection is over.
    Closed,
}

/// How a connection ended.
#[derive(Debug)]
pub enum Ending<E> {
    /// The producer closed the connection between two messages.
    ProducerLeft,
    /// No producer is left that could announce new messages.
    BrokerShutdown,
    /// The client announced a role that does not exist.
    UnknownClient(u8),
    /// The connection failed.
    Failed(Error<E>),
}

/// What a session asks the caller to do.
#[derive(Debug)]
pub enum Action<E> {
    /// Receive exactly `len` bytes.
    Receive { len: usize },
    /// Append a message to the log.
    Append { payload: Vec<u8> },
    /// Send all of these bytes.
    Send { bytes: Vec<u8> },
    /// Read the message at `offset` from the log.
    ReadLog { offset: u64 },
    /// Wait until a new end of the log is announced.
    AwaitTail,
    /// Close the connection.
    Close(Ending<E>),
}

/// The outcome of an action.
#[derive(Debug)]
pub enum Reply<E> {
    Received(Result<Vec<u8>, Error<E>>),
    Appended(Result<u64, Error<E>>),
    Sent(Result<(), Error<E>>),
    LogRead(LogRead<E>),
    /// Whether the wait ended with an announcement, rather than with the last sender
    /// gone.
    TailChanged(bool),
}

/// What a reply leads to: the next state, the next action, and the end of the log to
/// announce to waiting consumers, if it has moved.
#[derive(Debug)]
pub struct Reaction<E> {
    pub session: Session,
    pub action: Action<E>,
    pub announce: Option<u64>,
}

/// The mathematical view of an `Action`.
#[verifier::ext_equal]
pub enum ActionView<E> {
    Receive { len: nat },
    Append { payload: Seq<u8> },
    Send { bytes: Seq<u8> },
    ReadLog { offset: u64 },
    AwaitTail,
    Close(Ending<E>),
}

/// The mathematical view of a `Reply`.
#[verifier::ext_equal]
pub enum ReplyView<E> {
    Received(Result<Seq<u8>, Error<E>>),
    Appended(Result<u64, Error<E>>),
    Sent(Result<(), Error<E>>),
    LogRead(LogReadView<E>),
    TailChanged(bool),
}

/// The mathematical view of a `Reaction`.
#[verifier::ext_equal]
pub struct ReactionView<E> {
    pub session: Session,
    pub action: ActionView<E>,
    pub announce: Option<u64>,
}

impl<E> View for Action<E> {
    type V = ActionView<E>;

    open spec fn view(&self) -> ActionView<E> {
        match *self {
            Action::Receive { len } => ActionView::Receive { len: len as nat },
            Action::Append { payload } => ActionView::Append { payload: payload@ },
            Action::Send { bytes } => ActionView::Send { bytes: bytes@ },
            Action::ReadLog { offset } => ActionView::ReadLog { offset },
            Action::AwaitTail => ActionView::AwaitTail,
            Action::Close(ending) => ActionView::Close(ending),
        }
    }
}

impl<E> View for Reply<E> {
    type V = ReplyView<E>;

    open spec fn view(&self) -> ReplyView<E> {
        match *self {
            Reply::Received(Ok(bytes)) => ReplyView::Received(Ok(bytes@)),
            Reply::Received(Err(e)) => ReplyView::Received(Err(e)),
            Reply::Appended(result) => ReplyView::Appended(result),
            Reply::Sent(result) => ReplyView::Sent(result),
            Reply::LogRead(read) => ReplyView::LogRead(log_read_view(read)),
            Reply::TailChanged(announced) => ReplyView::TailChanged(announced),
        }
    }
}

impl<E> View for Reaction<E> {
    type V = ReactionView<E>;

    open spec fn view(&self) -> ReactionView<E> {
        ReactionView { session: self.session, action: self.action@, announce: self.announce }
    }
}

/// Go to `session` and ask for `action`.
pub open spec fn go<E>(session: Session, action: ActionView<E>) -> ReactionView<E> {
    ReactionView { session, action, announce: None }
}

/// Close the connection.
pub open spec fn close<E>(ending: Ending<E>) -> ReactionView<E> {
    go(Session::Closed, ActionView::Close(ending))
}

/// The replies that fit what a session is waiting for: they come from the action it
/// asked for, and the offsets and sizes in them stay within machine range.
pub open spec fn expects<E>(session: Session, reply: ReplyView<E>) -> bool {
    match (session, reply) {
        (Session::Handshake, ReplyView::Received(Ok(bytes))) => bytes.len() == 1,
        (Session::ProducerPrefix, ReplyView::Received(Ok(bytes))) => bytes.len() == 4,
        (Session::ProducerPayload { len }, ReplyView::Received(Ok(bytes))) => bytes.len() == len,
        (Session::ConsumerStart, ReplyView::Received(Ok(bytes))) => bytes.len() == 8,
        (Session::Handshake, ReplyView::Received(Err(_))) => true,
        (Session::ProducerPrefix, ReplyView::Received(Err(_))) => true,
        (Session::ProducerPayload { .. }, ReplyView::Received(Err(_))) => true,
        (Session::ConsumerStart, ReplyView::Received(Err(_))) => true,
        (Session::ProducerAppend { len }, ReplyView::Appended(result)) => result matches Ok(
            offset,
        ) ==> offset + 4 + len <= u64::MAX,
        (Session::ProducerAck, ReplyView::Sent(_)) => true,
        (Session::ConsumerSend { .. }, ReplyView::Sent(_)) => true,
        (Session::ConsumerRead { .. }, ReplyView::LogRead(read)) => read matches Ok(
            Some((payload, next_offset)),
        ) ==> frameable(payload.len()) && next_offset <= u64::MAX,
        (Session::ConsumerWait { .. }, ReplyView::TailChanged(_)) => true,
        _ => false,
    }
}

/// What a reply leads to, where `tail` is the end of the log that was announced last. A
/// reply that no action asked for leads nowhere.
pub open spec fn next<E>(session: Session, reply: ReplyView<E>, tail: u64) -> ReactionView<E> {
    match (session, reply) {
        (Session::Handshake, ReplyView::Received(Ok(bytes))) => if bytes[0] == PRODUCER {
            go(Session::ProducerPrefix, ActionView::Receive { len: 4 })
        } else if bytes[0] == CONSUMER {
            go(Session::ConsumerStart, ActionView::Receive { len: 8 })
        } else {
            close(Ending::UnknownClient(bytes[0]))
        },
        (Session::ProducerPrefix, ReplyView::Received(Ok(bytes))) => go(
            Session::ProducerPayload { len: be_value(bytes) as usize },
            ActionView::Receive { len: be_value(bytes) },
        ),
        (Session::ProducerPrefix, ReplyView::Received(Err(e))) => if e.spec_kind()
            == ErrorKind::UnexpectedEof {
            close(Ending::ProducerLeft)
        } else {
            close(Ending::Failed(e))
        },
        (Session::ProducerPayload { len }, ReplyView::Received(Ok(bytes))) => go(
            Session::ProducerAppend { len },
            ActionView::Append { payload: bytes },
        ),
        (Session::ProducerAppend { len }, ReplyView::Appended(Ok(offset))) => ReactionView {
            session: Session::ProducerAck,
            action: ActionView::Send { bytes: be_bytes(offset as nat, 8) },
            announce: Some((offset + 4 + len) as u64),
        },
        (Session::ProducerAck, ReplyView::Sent(Ok(_))) => go(
            Session::ProducerPrefix,
            ActionView::Receive { len: 4 },
        ),
        (Session::ConsumerStart, ReplyView::Received(Ok(bytes))) => go(
            Session::ConsumerRead { offset: be_value(bytes) as u64 },
            ActionView::ReadLog { offset: be_value(bytes) as u64 },
        ),
        (Session::ConsumerRead { .. }, ReplyView::LogRead(Ok(Some((payload, next_offset))))) => go(
            Session::ConsumerSend { next_offset: next_offset as u64 },
            ActionView::Send { bytes: frame(payload) },
        ),
        (Session::ConsumerRead { offset }, ReplyView::LogRead(Ok(None))) => if offset < tail {
            go(Session::ConsumerRead { offset }, ActionView::ReadLog { offset })
        } else {
            go(Session::ConsumerWait { offset }, ActionView::AwaitTail)
        },
        (Session::ConsumerSend { next_offset }, ReplyView::Sent(Ok(_))) => go(
            Session::ConsumerRead { offset: next_offset },
            ActionView::ReadLog { offset: next_offset },
        ),
        (Session::ConsumerWait { offset }, ReplyView::TailChanged(announced)) => if announced {
            go(Session::ConsumerRead { offset }, ActionView::ReadLog { offset })
        } else {
            close(Ending::BrokerShutdown)
        },
        (_, ReplyView::Received(Err(e))) => close(Ending::Failed(e)),
        (_, ReplyView::Appended(Err(e))) => close(Ending::Failed(e)),
        (_, ReplyView::Sent(Err(e))) => close(Ending::Failed(e)),
        (_, ReplyView::LogRead(Err(e))) => close(Ending::Failed(e)),
        _ => go(session, ActionView::AwaitTail),
    }
}

/// Go to `session` and ask for `action`.
fn proceed<E>(session: Session, action: Action<E>) -> (reaction: Reaction<E>)
    ensures
        reaction@ == go(session, action@),
{
    Reaction { session, action, announce: None }
}

/// Close the connection.
fn finish<E>(ending: Ending<E>) -> (reaction: Reaction<E>)
    ensures
        reaction@ == close(ending),
{
    Reaction { session: Session::Closed, action: Action::Close(ending), announce: None }
}

impl Session {
    /// A new connection waits for the handshake byte.
    pub fn start<E>() -> (reaction: Reaction<E>)
        ensures
            reaction@ == go::<E>(Session::Handshake, ActionView::Receive { len: 1 }),
            reaction.session == Session::Handshake,
            reaction.action == (Action::<E>::Receive { len: 1 }),
            reaction.announce is None,
    {
        proceed(Session::Handshake, Action::Receive { len: 1 })
    }

    /// Whether a reply fits what the session is waiting for.
    pub fn accepts<E>(&self, reply: &Reply<E>) -> (fits: bool)
        ensures
            fits == expects(*self, reply@),
    {
        match (*self, reply) {
            (Session::Handshake, Reply::Received(Ok(bytes))) => bytes.len() == 1,
            (Session::ProducerPrefix, Reply::Received(Ok(bytes))) => bytes.len() == PREFIX_LEN,
            (Session::ProducerPayload { len }, Reply::Received(Ok(bytes))) => bytes.len() == len,
            (Session::ConsumerStart, Reply::Received(Ok(bytes))) => bytes.len() == OFFSET_LEN,
            (Session::Handshake, Reply::Received(Err(_))) => true,
            (Session::ProducerPrefix, Reply::Received(Err(_))) => true,
            (Session::ProducerPayload { .. }, Reply::Received(Err(_))) => true,
            (Session::ConsumerStart, Reply::Received(Err(_))) => true,
            (Session::ProducerAppend { len }, Reply::Appended(Ok(offset))) => {
                *offset as u128 + 4 + len as u128 <= u64::MAX as u128
            },
            (Session::ProducerAppend { .. }, Reply::Appended(Err(_))) => true,
            (Session::ProducerAck, Reply::Sent(_)) => true,
            (Session::ConsumerSend { .. }, Reply::Sent(_)) => true,
            (Session::ConsumerRead { .. }, Reply::LogRead(Ok(Some((payload, _))))) => {
                payload.len() as u128 <= u32::MAX as u128 && 4 + payload.len() as u128
                    <= isize::MAX as u128
            },
            (Session::ConsumerRead { .. }, Reply::LogRead(Ok(None))) => true,
            (Session::ConsumerRead { .. }, Reply::LogRead(Err(_))) => true,
            (Session::ConsumerWait { .. }, Reply::TailChanged(_)) => true,
            _ => false,
        }
    }

    /// What a reply leads to, where `tail` is the end of the log that was announced last.
    pub fn react<E>(self, reply: Reply<E>, tail: u64) -> (reaction: Reaction<E>)
        requires
            expects(self, reply@),
        ensures
            reaction@ == next(self, reply@, tail),
    {
        match (self, reply) {
            (Session::Handshake, Reply::Received(Ok(bytes))) => {
                let client_type: u8 = bytes[0];
                if client_type == PRODUCER {
                    proceed(Session::ProducerPrefix, Action::Receive { len: PREFIX_LEN })
                } else if client_type == CONSUMER {
                    proceed(Session::ConsumerStart, Action::Receive { len: OFFSET_LEN })
                } else {
                    finish(Ending::UnknownClient(client_type))
                }
            },
            (Session::ProducerPrefix, Reply::Received(Ok(bytes))) => {
                let len: usize = decode_length(&bytes);
                assert(bytes@.take(4) =~= bytes@);
                proceed(Session::ProducerPayload { len }, Action::Receive { len })
            },
            (Session::ProducerPrefix, Reply::Received(Err(e))) => {
                if e.kind() == ErrorKind::UnexpectedEof {
                    finish(Ending::ProducerLeft)
                } else {
                    finish(Ending::Failed(e))
                }
            },
            (Session::ProducerPayload { len }, Reply::Received(Ok(bytes))) => proceed(
                Session::ProducerAppend { len },
                Action::Append { payload: bytes },
            ),
            (Session::ProducerAppend { len }, Reply::Appended(Ok(offset))) => Reaction {
                session: Session::ProducerAck,
                action: Action::Send { bytes: encode_offset(offset) },
                announce: Some(offset + 4 + len as u64),
            },
            (Session::ProducerAck, Reply::Sent(Ok(_))) => proceed(
                Session::ProducerPrefix,
                Action::Receive { len: PREFIX_LEN },
            ),
            (Session::ConsumerStart, Reply::Received(Ok(bytes))) => {
                let offset: u64 = decode_offset(&bytes);
                assert(bytes@.take(8) =~= bytes@);
                proceed(Session::ConsumerRead { offset }, Action::ReadLog { offset })
            },
            (Session::ConsumerRead { .. }, Reply::LogRead(Ok(Some((payload, next_offset))))) => {
                proceed(
                    Session::ConsumerSend { next_offset },
                    Action::Send { bytes: encode_frame(payload) },
                )
            },
            (Session::ConsumerRead { offset }, Reply::LogRead(Ok(None))) => {
                if offset < tail {
                    // There is new data, so there is nothing to wait for.
                    proceed(Session::ConsumerRead { offset }, Action::ReadLog { offset })
                } else {
                    proceed(Session::ConsumerWait { offset }, Action::AwaitTail)
                }
            },
            (Session::ConsumerSend { next_offset }, Reply::Sent(Ok(_))) => proceed(
                Session::ConsumerRead { offset: next_offset },
                Action::ReadLog { offset: next_offset },
            ),
            (Session::ConsumerWait { offset }, Reply::TailChanged(announced)) => {
                if announced {
                    proceed(Session::ConsumerRead { offset }, Action::ReadLog { offset })
                } else {
                    finish(Ending::BrokerShutdown)
                }
            },
            (_, Reply::Received(Err(e))) => finish(Ending::Failed(e)),
            (_, Reply::Appended(Err(e))) => finish(Ending::Failed(e)),
            (_, Reply::Sent(Err(e))) => finish(Ending::Failed(e)),
            (_, Reply::LogRead(Err(e))) => finish(Ending::Failed(e)),
            _ => proceed(self, Action::AwaitTail),
        }
    }

    /// Takes the session through one reply: looks up the end of the log that was
    /// announced last where the reply calls for it, and announces the new end where
    /// the reply has moved it. What was announced last depends on other tasks; every
    /// other reply leads to one reaction.
    pub fn step<E, A: Announcer>(
        self,
        reply: Reply<E>,
        tx: &A,
        rx: &watch::Receiver<u64>,
    ) -> (reaction: Reaction<E>)
        requires
            expects(self, reply@),
            // All that may be announced is the offset right behind a message that has just
            // been appended.
            self matches Session::ProducerAppend { len } ==> reply@ matches ReplyView::Appended(
                Ok(offset),
            ) ==> tx.permits((offset + 4 + len) as u64),
        ensures
            exists|tail: u64| reaction@ == #[trigger] next(self, reply@, tail),
            reply@ != ReplyView::<E>::LogRead(Ok(None)) ==> reaction@ == next(self, reply@, 0),
            // At the end of the log, the end that was announced last has been looked up.
            reply@ == ReplyView::<E>::LogRead(Ok(None)) ==> exists|tail: u64| #[trigger]
                call_ensures(latest, (rx,), tail) && reaction@ == next(self, reply@, tail),
            // A new end of the log has been announced; it is there after an append and at
            // no other time.
            reaction.announce matches Some(end) ==> tx.has_announced(end),
            reaction.announce is Some <==> self is ProducerAppend && reply@ matches
                ReplyView::Appended(Ok(_)),
    {
        let tail: u64 = match &reply {
            Reply::LogRead(Ok(None)) => {
                let last: u64 = latest(rx);
                assert(call_ensures(latest, (rx,), last));
                last
            },
            _ => 0,
        };
        let reaction = self.react(reply, tail);
        if let Some(end) = reaction.announce {
            tx.tell(end);
        }
        reaction
    }
}

/// Whether `action` is what a session in this state waits for.
pub open spec fn awaits<E>(session: Session, action: ActionView<E>) -> bool {
    match session {
        Session::Handshake => action == (ActionView::<E>::Receive { len: 1 }),
        Session::ProducerPrefix => action == (ActionView::<E>::Receive { len: 4 }),
        Session::ProducerPayload { len } => action == (ActionView::<E>::Receive {
            len: len as nat,
        }),
        Session::ProducerAppend { len } => action matches ActionView::Append { payload }
            && payload.len() == len,
        Session::ProducerAck => action matches ActionView::Send { bytes } && bytes.len() == 8,
        Session::ConsumerStart => action == (ActionView::<E>::Receive { len: 8 }),
        Session::ConsumerRead { offset } => action == (ActionView::<E>::ReadLog { offset }),
        Session::ConsumerSend { .. } => action is Send,
        Session::ConsumerWait { .. } => action == ActionView::<E>::AwaitTail,
        Session::Closed => action is Close,
    }
}

/// A session always asks for what it waits for: whatever reply it gets, its next action is
/// the one that its next state needs, and it asks for nothing once it is closed.
pub proof fn session_asks_for_what_it_awaits<E>(session: Session, reply: ReplyView<E>, tail: u64)
    requires
        expects(session, reply),
    ensures
        awaits(next(session, reply, tail).session, next(session, reply, tail).action),
{
    if let ReplyView::Received(Ok(bytes)) = reply {
        lemma_be_value_bound(bytes);
        lemma_span_values();
    }
    if let ReplyView::Appended(Ok(offset)) = reply {
        lemma_be_bytes_len(offset as nat, 8);
    }
}

/// A failed operation closes the connection: with the error that it brought, or, where a
/// producer is gone between two messages, without one.
pub proof fn failure_closes_session<E>(
    session: Session,
    reply: ReplyView<E>,
    e: Error<E>,
    tail: u64,
)
    requires
        expects(session, reply),
        reply == ReplyView::<E>::Received(Err(e)) || reply == ReplyView::<E>::Appended(Err(e))
            || reply == ReplyView::<E>::Sent(Err(e)) || reply == ReplyView::<E>::LogRead(Err(e)),
    ensures
        next(session, reply, tail) == close(
            if session == Session::ProducerPrefix && e.spec_kind() == ErrorKind::UnexpectedEof {
                Ending::ProducerLeft
            } else {
                Ending::Failed(e)
            },
        ),
        next(session, reply, tail).session == Session::Closed,
        next(session, reply, tail).action == ActionView::Close(
            if session == Session::ProducerPrefix && e.spec_kind() == ErrorKind::UnexpectedEof {
                Ending::ProducerLeft
            } else {
                Ending::Failed(e)
            },
        ),
        next(session, reply, tail).announce is None,
{
}

/// A session accepts every reply that can come of what it has asked for, and no other: bytes
/// as many as it asked for, an offset with room for the message behind it, a message that can
/// be framed, either end of a wait for new messages, and the failure of any operation.
pub proof fn accepts_what_its_action_brings<E>(
    session: Session,
    action: ActionView<E>,
    reply: ReplyView<E>,
)
    requires
        awaits(session, action),
    ensures
        expects(session, reply) <==> match (action, reply) {
            (ActionView::Receive { len }, ReplyView::Received(Ok(bytes))) => bytes.len() == len,
            (ActionView::Receive { .. }, ReplyView::Received(Err(_))) => true,
            (ActionView::Append { payload }, ReplyView::Appended(Ok(offset))) => offset + 4
                + payload.len() <= u64::MAX,
            (ActionView::Append { .. }, ReplyView::Appended(Err(_))) => true,
            (ActionView::Send { .. }, ReplyView::Sent(_)) => true,
            (ActionView::ReadLog { .. }, ReplyView::LogRead(Ok(Some((payload, next_offset))))) => {
                &&& payload.len() <= u32::MAX
                &&& payload.len() + 4 <= isize::MAX
                &&& next_offset <= u64::MAX
            },
            (ActionView::ReadLog { .. }, ReplyView::LogRead(Ok(None))) => true,
            (ActionView::ReadLog { .. }, ReplyView::LogRead(Err(_))) => true,
            (ActionView::AwaitTail, ReplyView::TailChanged(_)) => true,
            _ => false,
        },
{
}

/// A session that waits for new messages accepts both ends of the wait. An announcement lets
/// it read on at the offset at which it waited; without any sender left it closes.
pub proof fn wait_ends<E>(offset: u64, tail: u64)
    ensures
        expects(Session::ConsumerWait { offset }, ReplyView::<E>::TailChanged(true)),
        expects(Session::ConsumerWait { offset }, ReplyView::<E>::TailChanged(false)),
        next(Session::ConsumerWait { offset }, ReplyView::<E>::TailChanged(true), tail) == (
        ReactionView::<E> {
            session: Session::ConsumerRead { offset },
            action: ActionView::ReadLog { offset },
            announce: None,
        }),
        next(Session::ConsumerWait { offset }, ReplyView::<E>::TailChanged(false), tail) == (
        ReactionView::<E> {
            session: Session::Closed,
            action: ActionView::Close(Ending::BrokerShutdown),
            announce: None,
        }),
{
}

/// At the end of the log a session waits exactly if no end behind its offset has been
/// announced; otherwise it reads again at the same offset.
pub proof fn end_of_log_is_waited_at<E>(offset: u64, tail: u64)
    ensures
        expects(Session::ConsumerRead { offset }, ReplyView::<E>::LogRead(Ok(None))),
        tail <= offset ==> next(
            Session::ConsumerRead { offset },
            ReplyView::<E>::LogRead(Ok(None)),
            tail,
        ) == (ReactionView::<E> {
            session: Session::ConsumerWait { offset },
            action: ActionView::AwaitTail,
            announce: None,
        }),
        offset < tail ==> next(
            Session::ConsumerRead { offset },
            ReplyView::<E>::LogRead(Ok(None)),
            tail,
        ) == (ReactionView::<E> {
            session: Session::ConsumerRead { offset },
            action: ActionView::ReadLog { offset },
            announce: None,
        }),
{
}

/// An end of the log is announced when an append has succeeded, and then it is the offset
/// right behind the message. Nothing else is ever announced.
pub proof fn announces_only_appends<E>(session: Session, reply: ReplyView<E>, tail: u64)
    requires
        expects(session, reply),
    ensures
        next(session, reply, tail).announce matches Some(end) ==> {
            &&& session is ProducerAppend
            &&& reply matches ReplyView::Appended(Ok(offset))
            &&& end == offset + 4 + session->ProducerAppend_len
        },
        (session is ProducerAppend && (reply matches ReplyView::Appended(Ok(_)))) ==> next(
            session,
            reply,
            tail,
        ).announce is Some,
{
}

/// What was announced last matters at the end of the log and nowhere else.
pub proof fn tail_matters_only_at_end_of_log<E>(
    session: Session,
    reply: ReplyView<E>,
    one: u64,
    other: u64,
)
    requires
        expects(session, reply),
        reply != ReplyView::<E>::LogRead(Ok(None)),
    ensures
        next(session, reply, one) == next(session, reply, other),
{
}

/// The first byte tells the role: 1 is a producer, which is then asked for a length prefix,
/// 2 is a consumer, which is then asked for an offset, and any other is turned away.
pub proof fn first_byte_tells_role<E>(bytes: Seq<u8>, tail: u64)
    requires
        bytes.len() == 1,
    ensures
        ({
            let reply = ReplyView::<E>::Received(Ok(bytes));
            let reaction = next(Session::Handshake, reply, tail);
            &&& expects(Session::Handshake, reply)
            &&& reaction.announce is None
            &&& bytes[0] == 1 ==> reaction.session == Session::ProducerPrefix && reaction.action
                == (ActionView::<E>::Receive { len: 4 })
            &&& bytes[0] == 2 ==> reaction.session == Session::ConsumerStart && reaction.action
                == (ActionView::<E>::Receive { len: 8 })
            &&& bytes[0] != 1 && bytes[0] != 2 ==> reaction.session == Session::Closed
                && reaction.action == ActionView::<E>::Close(Ending::UnknownClient(bytes[0]))
        }),
{
}

/// A producer's message is taken as long as its prefix says, and what is appended is what was
/// received.
pub proof fn announced_message_is_appended<E>(prefix: Seq<u8>, payload: Seq<u8>, tail: u64)
    requires
        prefix.len() == 4,
        payload.len() == prefix[0] * 0x100_0000 + prefix[1] * 0x1_0000 + prefix[2] * 0x100
            + prefix[3],
    ensures
        ({
            let one = next(Session::ProducerPrefix, ReplyView::<E>::Received(Ok(prefix)), tail);
            let two = next(one.session, ReplyView::<E>::Received(Ok(payload)), tail);
            &&& expects(Session::ProducerPrefix, ReplyView::<E>::Received(Ok(prefix)))
            &&& one.session matches Session::ProducerPayload { len } && len == payload.len()
            &&& one.action == (ActionView::<E>::Receive { len: payload.len() })
            &&& one.announce is None
            &&& expects(one.session, ReplyView::<E>::Received(Ok(payload)))
            &&& two.session matches Session::ProducerAppend { len } && len == payload.len()
            &&& two.action == (ActionView::<E>::Append { payload })
            &&& two.announce is None
        }),
{
    four_bytes_stand_for(prefix);
}

/// Whatever message a producer sends, of whatever length, this message is appended.
pub proof fn received_message_is_appended<E>(payload: Seq<u8>, len: usize, tail: u64)
    requires
        payload.len() == len,
    ensures
        expects(Session::ProducerPayload { len }, ReplyView::<E>::Received(Ok(payload))),
        next(Session::ProducerPayload { len }, ReplyView::<E>::Received(Ok(payload)), tail) == (
        ReactionView::<E> {
            session: Session::ProducerAppend { len },
            action: ActionView::Append { payload },
            announce: None,
        }),
{
}

/// A message that has been appended is acknowledged with its offset in eight bytes, the most
/// significant first, and announced by the offset right behind it; then the next one is
/// received.
pub proof fn append_is_acknowledged<E>(len: usize, offset: u64, tail: u64)
    requires
        offset + 4 + len <= u64::MAX,
    ensures
        ({
            let session = Session::ProducerAppend { len };
            let one = next(session, ReplyView::<E>::Appended(Ok(offset)), tail);
            let two = next(one.session, ReplyView::<E>::Sent(Ok(())), tail);
            &&& expects(session, ReplyView::<E>::Appended(Ok(offset)))
            &&& one.announce == Some((offset + 4 + len) as u64)
            &&& one.session == Session::ProducerAck
            &&& one.action matches ActionView::Send { bytes }
            &&& bytes.len() == 8
            &&& offset == bytes[0] * 0x100_0000_0000_0000 + bytes[1] * 0x1_0000_0000_0000
                + bytes[2] * 0x100_0000_0000 + bytes[3] * 0x1_0000_0000 + bytes[4] * 0x100_0000
                + bytes[5] * 0x1_0000 + bytes[6] * 0x100 + bytes[7]
            &&& expects(one.session, ReplyView::<E>::Sent(Ok(())))
            &&& two.session == Session::ProducerPrefix
            &&& two.action == (ActionView::<E>::Receive { len: 4 })
            &&& two.announce is None
        }),
{
    lemma_be_bytes_len(offset as nat, 8);
    lemma_span_values();
    be_value_of_be_bytes(offset as nat, 8);
    eight_bytes_stand_for(be_bytes(offset as nat, 8));
}

/// A consumer's session starts to read at the offset that the consumer asks for.
pub proof fn reads_from_asked_offset<E>(bytes: Seq<u8>, offset: u64, tail: u64)
    requires
        bytes.len() == 8,
        offset == bytes[0] * 0x100_0000_0000_0000 + bytes[1] * 0x1_0000_0000_0000 + bytes[2]
            * 0x100_0000_0000 + bytes[3] * 0x1_0000_0000 + bytes[4] * 0x100_0000 + bytes[5]
            * 0x1_0000 + bytes[6] * 0x100 + bytes[7],
    ensures
        expects(Session::ConsumerStart, ReplyView::<E>::Received(Ok(bytes))),
        next(Session::ConsumerStart, ReplyView::<E>::Received(Ok(bytes)), tail) == (ReactionView::<
            E,
        > {
            session: Session::ConsumerRead { offset },
            action: ActionView::ReadLog { offset },
            announce: None,
        }),
{
    eight_bytes_stand_for(bytes);
}

/// A message that has been read is sent with its length before it, and the session reads on
/// right behind it.
pub proof fn read_message_is_sent<E>(offset: u64, payload: Seq<u8>, next_offset: u64, tail: u64)
    requires
        frameable(payload.len()),
    ensures
        ({
            let session = Session::ConsumerRead { offset };
            let reply = ReplyView::<E>::LogRead(Ok(Some((payload, next_offset as nat))));
            let one = next(session, reply, tail);
            let two = next(one.session, ReplyView::<E>::Sent(Ok(())), tail);
            &&& expects(session, reply)
            &&& one.session == (Session::ConsumerSend { next_offset })
            &&& one.announce is None
            &&& one.action matches ActionView::Send { bytes }
            &&& bytes.len() == 4 + payload.len()
            &&& bytes[0] * 0x100_0000 + bytes[1] * 0x1_0000 + bytes[2] * 0x100 + bytes[3]
                == payload.len()
            &&& bytes.skip(4) == payload
            &&& expects(one.session, ReplyView::<E>::Sent(Ok(())))
            &&& two.session == (Session::ConsumerRead { offset: next_offset })
            &&& two.action == (ActionView::<E>::ReadLog { offset: next_offset })
            &&& two.announce is None
        }),
{
    frame_layout(payload);
}

/// The views of what a session asks for and gets keep all of it.
pub proof fn actions_are_seen<E>(
    bytes: Vec<u8>,
    number: u64,
    len: usize,
    ending: Ending<E>,
    session: Session,
    action: Action<E>,
    announce: Option<u64>,
)
    ensures
        (Action::<E>::Receive { len })@ == (ActionView::<E>::Receive { len: len as nat }),
        (Action::<E>::Append { payload: bytes })@ == (ActionView::<E>::Append { payload: bytes@ }),
        (Action::<E>::Send { bytes })@ == (ActionView::<E>::Send { bytes: bytes@ }),
        (Action::<E>::ReadLog { offset: number })@ == (ActionView::<E>::ReadLog { offset: number }),
        Action::<E>::AwaitTail@ == ActionView::<E>::AwaitTail,
        Action::<E>::Close(ending)@ == ActionView::<E>::Close(ending),
        (Reaction::<E> { session, action, announce })@ == (ReactionView::<E> {
            session,
            action: action@,
            announce,
        }),
{
}

/// The views of replies keep all of them.
pub proof fn replies_are_seen<E>(
    bytes: Vec<u8>,
    e: Error<E>,
    appended: Result<u64, Error<E>>,
    sent: Result<(), Error<E>>,
    next_offset: u64,
    announced: bool,
)
    ensures
        Reply::<E>::Received(Ok(bytes))@ == ReplyView::<E>::Received(Ok(bytes@)),
        Reply::<E>::Received(Err(e))@ == ReplyView::<E>::Received(Err(e)),
        Reply::<E>::Appended(appended)@ == ReplyView::<E>::Appended(appended),
        Reply::<E>::Sent(sent)@ == ReplyView::<E>::Sent(sent),
        Reply::<E>::LogRead(Ok(Some((bytes, next_offset))))@ == ReplyView::<E>::LogRead(
            Ok(Some((bytes@, next_offset as nat))),
        ),
        Reply::<E>::LogRead(Ok(None))@ == ReplyView::<E>::LogRead(Ok(None)),
        Reply::<E>::LogRead(Err(e))@ == ReplyView::<E>::LogRead(Err(e)),
        Reply::<E>::TailChanged(announced)@ == ReplyView::<E>::TailChanged(announced),
{
}

} // verus!
