//! The broker as its clients see it: whole connections, from the handshake on.
//!
//! A scene puts a session together with the two directions of its socket and the log
//! file. It shows what a connection amounts to when no I/O operation fails: what the
//! client sends goes in as `input`, what it gets back comes out as `output`.

use crate::error::Error;
use crate::history::{
    all_fit, file_of, frame_is_found, history_ends, history_is_readable, lemma_file_of_concat,
    lemma_frame_len, lemma_frame_stands, lemma_front, offset_of, read_tells_record, reads_at,
    record_at, written,
};
use crate::log::{after_append, recovered_offset};
use crate::server::{expects, go, next, ActionView, Ending, ReplyView, Session};
use crate::wire::{
    be_bytes, be_bytes_of_be_value, be_value, be_value_of_be_bytes, frame, frameable,
    lemma_be_bytes_len, lemma_be_value_bound, lemma_span_values, CONSUMER, PRODUCER,
};
use vstd::prelude::*;

verus! {

/// Every message can be framed.
pub open spec fn storable(messages: Seq<Seq<u8>>) -> bool {
    forall|i: int| 0 <= i < messages.len() ==> frameable((#[trigger] messages[i]).len())
}

/// A connection in its surroundings.
#[verifier::ext_equal]
pub struct Scene<E> {
    /// The state of the session.
    pub session: Session,
    /// What the session has asked for.
    pub action: ActionView<E>,
    /// What the client has sent and the session has not yet received. The client sends
    /// nothing after it and closes its end.
    pub input: Seq<u8>,
    /// What the session has sent.
    pub output: Seq<u8>,
    /// The log file.
    pub file: Seq<u8>,
    /// The end of the log.
    pub end: u64,
    /// The end of the log that was announced last, by any session.
    pub tail: u64,
    /// The ends of the log that this session has announced, in order.
    pub announced: Seq<u64>,
}

/// A client that sends `input` connects to a broker that has opened this log file.
pub open spec fn connect<E>(input: Seq<u8>, file: Seq<u8>, tail: u64) -> Scene<E> {
    let first = go::<E>(Session::Handshake, ActionView::Receive { len: 1 });
    Scene {
        session: first.session,
        action: first.action,
        input,
        output: Seq::empty(),
        file,
        end: recovered_offset(Some(file.len() as u64)),
        tail,
        announced: Seq::empty(),
    }
}

/// Whether the session has asked for something that gets a reply without anything new
/// happening in its surroundings.
pub open spec fn active<E>(scene: Scene<E>) -> bool {
    !(scene.action is AwaitTail || scene.action is Close)
}

/// The result of an append whose frame is written whole, and the end of the log after it.
pub open spec fn append_whole<E>(end: u64, payload: Seq<u8>) -> (Result<u64, Error<E>>, nat) {
    after_append(end, frame(payload).len() as usize, Ok(frame(payload).len() as usize))
}

/// The reply that an active session gets.
pub open spec fn reply_to<E>(scene: Scene<E>) -> ReplyView<E> {
    match scene.action {
        ActionView::Receive { len } => if len <= scene.input.len() {
            ReplyView::Received(Ok(scene.input.take(len as int)))
        } else {
            ReplyView::Received(Err(Error::PeerClosed))
        },
        ActionView::Append { payload } => ReplyView::Appended(append_whole(scene.end, payload).0),
        ActionView::Send { .. } => ReplyView::Sent(Ok(())),
        ActionView::ReadLog { offset } => ReplyView::LogRead(
            reads_at::<E>(scene.file, offset as nat),
        ),
        _ => ReplyView::TailChanged(true),
    }
}

/// The scene after the session's next step; it stands still where the session waits,
/// is over, or would not accept the reply.
#[verifier::opaque]
pub open spec fn advanced<E>(scene: Scene<E>) -> Scene<E> {
    let reply = reply_to(scene);
    if !active(scene) || !expects(scene.session, reply) {
        scene
    } else {
        let reaction = next(scene.session, reply, scene.tail);
        Scene {
            session: reaction.session,
            action: reaction.action,
            input: match scene.action {
                ActionView::Receive { len } => if len <= scene.input.len() {
                    scene.input.skip(len as int)
                } else {
                    Seq::empty()
                },
                _ => scene.input,
            },
            output: match scene.action {
                ActionView::Send { bytes } => scene.output + bytes,
                _ => scene.output,
            },
            file: match scene.action {
                ActionView::Append { payload } => written(
                    scene.file,
                    scene.end as nat,
                    frame(payload),
                ),
                _ => scene.file,
            },
            end: match scene.action {
                ActionView::Append { payload } => append_whole::<E>(scene.end, payload).1 as u64,
                _ => scene.end,
            },
            tail: match reaction.announce {
                Some(end) => end,
                None => scene.tail,
            },
            announced: match reaction.announce {
                Some(end) => scene.announced.push(end),
                None => scene.announced,
            },
        }
    }
}

/// The scene after `n` steps.
pub open spec fn after<E>(scene: Scene<E>, n: nat) -> Scene<E>
    decreases n,
{
    if n == 0 {
        scene
    } else {
        advanced(after(scene, (n - 1) as nat))
    }
}

/// The acknowledgements of messages that were appended from offset `base` on.
pub open spec fn acks(base: nat, messages: Seq<Seq<u8>>) -> Seq<u8>
    decreases messages.len(),
{
    if messages.len() == 0 {
        Seq::empty()
    } else {
        acks(base, messages.drop_last()) + be_bytes(
            base + file_of(messages.drop_last()).len(),
            8,
        )
    }
}

/// The ends of the log that are announced when the first `k` messages are appended from
/// offset `base` on: for each, the offset right behind it.
pub open spec fn ends_from(base: nat, messages: Seq<Seq<u8>>, k: int) -> Seq<u64> {
    Seq::new(k as nat, |i: int| (base + offset_of(messages, i + 1)) as u64)
}

/// The end of the log that was announced last when the first `k` messages have been appended
/// from offset `base` on, and `tail` was announced before.
pub open spec fn tail_after(tail: u64, base: nat, messages: Seq<Seq<u8>>, k: int) -> u64 {
    if k == 0 {
        tail
    } else {
        ends_from(base, messages, k).last()
    }
}

/// A producer's scene between two messages, with the first `k` of them dealt with. Behind
/// its messages the producer sends `rest`.
pub open spec fn produced<E>(
    messages: Seq<Seq<u8>>,
    rest: Seq<u8>,
    file: Seq<u8>,
    tail: u64,
    k: int,
) -> Scene<E> {
    Scene {
        session: Session::ProducerPrefix,
        action: ActionView::Receive { len: 4 },
        input: file_of(messages).skip(offset_of(messages, k) as int) + rest,
        output: acks(file.len(), messages.take(k)),
        file: file + file_of(messages.take(k)),
        end: (file.len() + offset_of(messages, k)) as u64,
        tail: tail_after(tail, file.len(), messages, k),
        announced: ends_from(file.len(), messages, k),
    }
}

/// The step in which a session receives a producer's length prefix.
proof fn lemma_prefix_step<E>(scene: Scene<E>, len: nat)
    requires
        scene.session == Session::ProducerPrefix,
        scene.action == (ActionView::<E>::Receive { len: 4 }),
        scene.input.len() >= 4,
        be_value(scene.input.take(4)) == len,
        len <= u32::MAX,
    ensures
        advanced(scene) == (Scene::<E> {
            session: Session::ProducerPayload { len: len as usize },
            action: ActionView::Receive { len },
            input: scene.input.skip(4),
            ..scene
        }),
{
    reveal(advanced);
}

/// The step in which a session receives a producer's message.
proof fn lemma_payload_step<E>(scene: Scene<E>, len: usize)
    requires
        scene.session == (Session::ProducerPayload { len }),
        scene.action == (ActionView::<E>::Receive { len: len as nat }),
        scene.input.len() >= len,
    ensures
        advanced(scene) == (Scene::<E> {
            session: Session::ProducerAppend { len },
            action: ActionView::Append { payload: scene.input.take(len as int) },
            input: scene.input.skip(len as int),
            ..scene
        }),
{
    reveal(advanced);
}

/// The step in which a producer's message is appended.
proof fn lemma_append_step<E>(scene: Scene<E>, len: usize, payload: Seq<u8>)
    requires
        scene.session == (Session::ProducerAppend { len }),
        scene.action == (ActionView::<E>::Append { payload }),
        payload.len() == len,
        frameable(len as nat),
        scene.end == scene.file.len(),
        scene.file.len() + 4 + len <= u64::MAX,
    ensures
        advanced(scene) == (Scene::<E> {
            session: Session::ProducerAck,
            action: ActionView::Send { bytes: be_bytes(scene.file.len(), 8) },
            file: scene.file + frame(payload),
            end: (scene.file.len() + 4 + len) as u64,
            tail: (scene.file.len() + 4 + len) as u64,
            announced: scene.announced.push((scene.file.len() + 4 + len) as u64),
            ..scene
        }),
{
    reveal(advanced);
    lemma_frame_len(payload);
    assert(written(scene.file, scene.file.len(), frame(payload)) =~= scene.file + frame(payload));
}

/// The step in which a producer gets its acknowledgement.
proof fn lemma_ack_step<E>(scene: Scene<E>, bytes: Seq<u8>)
    requires
        scene.session == Session::ProducerAck,
        scene.action == (ActionView::<E>::Send { bytes }),
    ensures
        advanced(scene) == (Scene::<E> {
            session: Session::ProducerPrefix,
            action: ActionView::Receive { len: 4 },
            output: scene.output + bytes,
            ..scene
        }),
{
    reveal(advanced);
}

/// Whether two scenes agree in what stands in the log and what has been announced of it.
pub open spec fn same_log<E>(one: Scene<E>, other: Scene<E>) -> bool {
    one.file == other.file && one.end == other.end && one.announced == other.announced
}

/// One message of a producer: receive its prefix, receive it, append it, acknowledge it.
proof fn lemma_produce_one<E>(
    messages: Seq<Seq<u8>>,
    rest: Seq<u8>,
    file: Seq<u8>,
    tail: u64,
    k: int,
)
    requires
        0 <= k < messages.len(),
        storable(messages),
        file.len() + file_of(messages).len() <= u64::MAX,
    ensures
        ({
            let s0 = produced::<E>(messages, rest, file, tail, k);
            let s1 = advanced(s0);
            let s2 = advanced(s1);
            let s3 = advanced(s2);
            let s4 = produced::<E>(messages, rest, file, tail, k + 1);
            &&& advanced(s3) == s4
            &&& same_log(s1, s0) && s1.output == s0.output
            &&& same_log(s2, s0) && s2.output == s0.output
            &&& same_log(s3, s4) && s3.output == s0.output
        }),
{
    let message = messages[k];
    let at = offset_of(messages, k);
    let input = file_of(messages).skip(at as int) + rest;
    assert(frameable(message.len()));
    lemma_front(messages, k);
    lemma_frame_stands(messages, k);
    assert(input.take(4) == be_bytes(message.len(), 4) && input.skip(4).take(message.len() as int)
        == message) by {
        lemma_be_bytes_len(message.len(), 4);
        let part = file_of(messages).subrange(at as int, offset_of(messages, k + 1) as int);
        assert(input.take(4) =~= part.take(4));
        assert(part.take(4) =~= be_bytes(message.len(), 4));
        assert(input.skip(4).take(message.len() as int) =~= part.skip(4));
        assert(part.skip(4) =~= message);
    }
    assert(be_value(input.take(4)) == message.len()) by {
        lemma_span_values();
        be_value_of_be_bytes(message.len(), 4);
    }
    assert(input.skip(4).skip(message.len() as int) =~= file_of(messages).skip(
        offset_of(messages, k + 1) as int,
    ) + rest);
    assert(messages.take(k + 1).drop_last() =~= messages.take(k));
    let s0 = produced::<E>(messages, rest, file, tail, k);
    lemma_prefix_step(s0, message.len());
    let s1 = advanced(s0);
    lemma_payload_step(s1, message.len() as usize);
    let s2 = advanced(s1);
    lemma_append_step(s2, message.len() as usize, message);
    let s3 = advanced(s2);
    lemma_ack_step(s3, be_bytes(s2.file.len(), 8));
    let s4 = advanced(s3);
    assert(s4.file =~= file + file_of(messages.take(k + 1)));
    assert(s4.output =~= acks(file.len(), messages.take(k + 1)));
    assert(s4.announced =~= ends_from(file.len(), messages, k + 1));
    assert(s4 =~= produced::<E>(messages, rest, file, tail, k + 1));
}

/// The step in which a session learns that its client is a producer.
proof fn lemma_producer_handshake<E>(
    messages: Seq<Seq<u8>>,
    rest: Seq<u8>,
    file: Seq<u8>,
    tail: u64,
)
    ensures
        advanced(connect::<E>(seq![PRODUCER] + file_of(messages) + rest, file, tail)) == produced::<
            E,
        >(messages, rest, file, tail, 0),
{
    reveal(advanced);
    let first = connect::<E>(seq![PRODUCER] + file_of(messages) + rest, file, tail);
    assert(messages.take(0) =~= Seq::empty());
    assert(first.input.take(1)[0] == PRODUCER);
    assert(first.input.skip(1) =~= file_of(messages).skip(0) + rest);
    assert(file + file_of(messages.take(0)) =~= file);
    assert(ends_from(file.len(), messages, 0) =~= Seq::empty());
    assert(advanced(first) =~= produced::<E>(messages, rest, file, tail, 0));
}

/// A producer's connection up to message `k`.
proof fn lemma_produce<E>(
    messages: Seq<Seq<u8>>,
    rest: Seq<u8>,
    file: Seq<u8>,
    tail: u64,
    k: int,
)
    requires
        0 <= k <= messages.len(),
        storable(messages),
        file.len() + file_of(messages).len() <= u64::MAX,
    ensures
        after(
            connect::<E>(seq![PRODUCER] + file_of(messages) + rest, file, tail),
            (1 + 4 * k) as nat,
        ) == produced::<E>(messages, rest, file, tail, k),
    decreases k,
{
    let first = connect::<E>(seq![PRODUCER] + file_of(messages) + rest, file, tail);
    if k == 0 {
        lemma_producer_handshake::<E>(messages, rest, file, tail);
        assert(after(first, 0) == first);
        assert(after(first, 1) == advanced(after(first, 0)));
    } else {
        lemma_produce::<E>(messages, rest, file, tail, k - 1);
        lemma_produce_one::<E>(messages, rest, file, tail, k - 1);
        let n = (1 + 4 * (k - 1)) as nat;
        assert(after(first, n + 1) == advanced(after(first, n)));
        assert(after(first, n + 2) == advanced(after(first, n + 1)));
        assert(after(first, n + 3) == advanced(after(first, n + 2)));
        assert(after(first, n + 4) == advanced(after(first, n + 3)));
    }
}

/// A producer that sends any number of messages and then closes has all of them appended
/// to the log byte for byte, in order, and gets back for each the offset at which it stands.
/// For each, the end of the log right behind it is announced, once and in order. The
/// connection ends without an error.
pub proof fn producer_is_served<E>(messages: Seq<Seq<u8>>, file: Seq<u8>, tail: u64)
    requires
        storable(messages),
        file.len() + file_of(messages).len() <= u64::MAX,
    ensures
        after(
            connect::<E>(seq![PRODUCER] + file_of(messages), file, tail),
            (2 + 4 * messages.len()) as nat,
        ) == (Scene::<E> {
            session: Session::Closed,
            action: ActionView::Close(Ending::ProducerLeft),
            input: Seq::empty(),
            output: acks(file.len(), messages),
            file: file + file_of(messages),
            end: (file.len() + file_of(messages).len()) as u64,
            tail: tail_after(tail, file.len(), messages, messages.len() as int),
            announced: ends_from(file.len(), messages, messages.len() as int),
        }),
{
    reveal(advanced);
    let first = connect::<E>(seq![PRODUCER] + file_of(messages), file, tail);
    let k = messages.len() as int;
    lemma_produce::<E>(messages, Seq::empty(), file, tail, k);
    history_ends::<E>(messages);
    assert(messages.take(k) =~= messages);
    let n = (1 + 4 * k) as nat;
    assert(seq![PRODUCER] + file_of(messages) + Seq::empty() =~= seq![PRODUCER] + file_of(messages));
    assert(after(first, n + 1) == advanced(after(first, n)));
    assert(file_of(messages).skip(file_of(messages).len() as int) =~= Seq::empty());
}

/// A message that does not arrive whole is not appended: where a producer's connection
/// breaks off inside a frame, the log holds the messages before it and nothing of it, and
/// nothing is acknowledged or announced of it. A break inside the length prefix counts as a
/// producer that has left; one behind it is an error.
pub proof fn broken_message_is_not_appended<E>(
    messages: Seq<Seq<u8>>,
    broken: Seq<u8>,
    cut: nat,
    file: Seq<u8>,
    tail: u64,
)
    requires
        storable(messages),
        broken.len() <= u32::MAX,
        0 < cut < frame(broken).len(),
        file.len() + file_of(messages).len() <= u64::MAX,
    ensures
        ({
            let last = after(
                connect::<E>(
                    seq![PRODUCER] + file_of(messages) + frame(broken).take(cut as int),
                    file,
                    tail,
                ),
                (3 + 4 * messages.len()) as nat,
            );
            &&& last.file == file + file_of(messages)
            &&& last.end == file.len() + file_of(messages).len()
            &&& last.output == acks(file.len(), messages)
            &&& last.tail == tail_after(tail, file.len(), messages, messages.len() as int)
            &&& last.announced == ends_from(file.len(), messages, messages.len() as int)
            &&& last.action == ActionView::<E>::Close(
                if cut < 4 {
                    Ending::ProducerLeft
                } else {
                    Ending::Failed(Error::PeerClosed)
                },
            )
        }),
{
    reveal(advanced);
    let rest = frame(broken).take(cut as int);
    let first = connect::<E>(seq![PRODUCER] + file_of(messages) + rest, file, tail);
    let k = messages.len() as int;
    lemma_produce::<E>(messages, rest, file, tail, k);
    history_ends::<E>(messages);
    assert(messages.take(k) =~= messages);
    assert(file_of(messages).skip(file_of(messages).len() as int) + rest =~= rest);
    let n = (1 + 4 * k) as nat;
    assert(after(first, n + 1) == advanced(after(first, n)));
    assert(after(first, n + 2) == advanced(after(first, n + 1)));
    if cut >= 4 {
        lemma_frame_len(broken);
        lemma_be_bytes_len(broken.len(), 4);
        lemma_span_values();
        be_value_of_be_bytes(broken.len(), 4);
        assert(rest.take(4) =~= be_bytes(broken.len(), 4));
        lemma_prefix_step(after(first, n), broken.len());
    }
}

/// At every moment of a producer's connection the log holds exactly the messages whose ends
/// have been announced, and of these all but at most the last have been acknowledged: each
/// message is first appended, then announced, then acknowledged.
pub proof fn announced_then_acknowledged<E>(
    messages: Seq<Seq<u8>>,
    file: Seq<u8>,
    tail: u64,
    n: nat,
)
    requires
        storable(messages),
        file.len() + file_of(messages).len() <= u64::MAX,
        n <= 2 + 4 * messages.len(),
    ensures
        ({
            let scene = after(connect::<E>(seq![PRODUCER] + file_of(messages), file, tail), n);
            let m = scene.announced.len() as int;
            &&& m <= messages.len()
            &&& scene.file == file + file_of(messages.take(m))
            &&& scene.end == scene.file.len()
            &&& scene.announced == ends_from(file.len(), messages, m)
            &&& scene.output == acks(file.len(), messages.take(m)) || m > 0 && scene.output == acks(
                file.len(),
                messages.take(m - 1),
            )
        }),
{
    let input = seq![PRODUCER] + file_of(messages);
    let first = connect::<E>(input, file, tail);
    let none = Seq::<u8>::empty();
    assert(input + none =~= input);
    if n == 0 {
        assert(messages.take(0) =~= Seq::empty());
        assert(ends_from(file.len(), messages, 0) =~= Seq::empty());
        assert(file + file_of(messages.take(0)) =~= file);
    } else if n == 2 + 4 * messages.len() {
        producer_is_served::<E>(messages, file, tail);
        assert(messages.take(messages.len() as int) =~= messages);
    } else {
        let q = (n - 1) / 4;
        let r = (n - 1) % 4;
        let start = (1 + 4 * q) as nat;
        lemma_produce::<E>(messages, none, file, tail, q);
        lemma_front(messages, q);
        if r > 0 {
            lemma_produce_one::<E>(messages, none, file, tail, q);
            lemma_front(messages, q + 1);
            assert(after(first, start + 1) == advanced(after(first, start)));
            assert(after(first, start + 2) == advanced(after(first, start + 1)));
            assert(after(first, start + 3) == advanced(after(first, start + 2)));
        }
    }
}

/// The ends that are announced rise with every message.
pub proof fn announcements_rise(base: nat, messages: Seq<Seq<u8>>, i: int)
    requires
        0 <= i,
        i + 1 < messages.len(),
        base + file_of(messages).len() <= u64::MAX,
    ensures
        ({
            let ends = ends_from(base, messages, messages.len() as int);
            ends[i] < ends[i + 1]
        }),
{
    lemma_frame_stands(messages, i + 1);
}

/// The acknowledgement of each message is the offset at which the log gives that message.
pub proof fn ack_leads_to_message<E>(messages: Seq<Seq<u8>>, file: Seq<u8>, i: int)
    requires
        0 <= i < messages.len(),
        all_fit(messages),
        file.len() + file_of(messages).len() <= u64::MAX,
    ensures
        8 * (i + 1) <= acks(file.len(), messages).len(),
        record_at::<E>(
            file + file_of(messages),
            be_value(acks(file.len(), messages).subrange(8 * i, 8 * (i + 1))),
        ) == Ok::<Option<(Seq<u8>, nat)>, Error<E>>(
            Some((messages[i], file.len() + offset_of(messages, i + 1))),
        ),
{
    let offset = file.len() + offset_of(messages, i);
    lemma_ack(file.len(), messages, i);
    lemma_front(messages, i);
    lemma_span_values();
    be_value_of_be_bytes(offset, 8);
    lemma_frame_stands(messages, i);
    lemma_frame_len(messages[i]);
    assert((file + file_of(messages)).subrange(
        offset as int,
        (offset + frame(messages[i]).len()) as int,
    ) =~= file_of(messages).subrange(
        offset_of(messages, i) as int,
        offset_of(messages, i + 1) as int,
    ));
    frame_is_found::<E>(file + file_of(messages), offset, messages[i]);
}

/// Where each acknowledgement stands.
pub proof fn lemma_ack(base: nat, messages: Seq<Seq<u8>>, i: int)
    requires
        0 <= i < messages.len(),
    ensures
        acks(base, messages).len() == 8 * messages.len(),
        acks(base, messages).subrange(8 * i, 8 * (i + 1)) == be_bytes(
            base + offset_of(messages, i),
            8,
        ),
    decreases messages.len(),
{
    let front = messages.drop_last();
    let last = be_bytes(base + file_of(front).len(), 8);
    lemma_be_bytes_len(base + file_of(front).len(), 8);
    if front.len() > 0 {
        lemma_ack(base, front, if i < front.len() { i } else { 0 });
    } else {
        assert(acks(base, front) == Seq::<u8>::empty());
    }
    if i < front.len() {
        assert(front.take(i) =~= messages.take(i));
        assert(acks(base, messages).subrange(8 * i, 8 * (i + 1)) =~= acks(base, front).subrange(
            8 * i,
            8 * (i + 1),
        ));
    } else {
        assert(messages.take(i) =~= front);
        assert(acks(base, messages).subrange(8 * i, 8 * (i + 1)) =~= last);
    }
}

/// A client that announces an unknown role is turned away: it gets no bytes, and the log
/// stays as it is.
pub proof fn unknown_client_is_turned_away<E>(input: Seq<u8>, file: Seq<u8>, tail: u64)
    requires
        input.len() > 0,
        input[0] != PRODUCER,
        input[0] != CONSUMER,
    ensures
        after(connect::<E>(input, file, tail), 1) == (Scene::<E> {
            session: Session::Closed,
            action: ActionView::Close(Ending::UnknownClient(input[0])),
            input: input.skip(1),
            ..connect::<E>(input, file, tail)
        }),
{
    reveal(advanced);
    let first = connect::<E>(input, file, tail);
    assert(after(first, 0) == first);
    assert(after(first, 1) == advanced(after(first, 0)));
}

/// A consumer's scene in which the messages from number `j` up to number `k` have been
/// streamed.
pub open spec fn streamed<E>(messages: Seq<Seq<u8>>, tail: u64, j: int, k: int) -> Scene<E> {
    Scene {
        session: Session::ConsumerRead { offset: offset_of(messages, k) as u64 },
        action: ActionView::ReadLog { offset: offset_of(messages, k) as u64 },
        input: Seq::empty(),
        output: file_of(messages).subrange(
            offset_of(messages, j) as int,
            offset_of(messages, k) as int,
        ),
        file: file_of(messages),
        end: file_of(messages).len() as u64,
        tail,
        announced: Seq::empty(),
    }
}

/// The same with all messages from number `j` on streamed, and the session waiting.
pub open spec fn caught_up<E>(messages: Seq<Seq<u8>>, tail: u64, j: int) -> Scene<E> {
    Scene {
        session: Session::ConsumerWait { offset: file_of(messages).len() as u64 },
        action: ActionView::AwaitTail,
        input: Seq::empty(),
        output: file_of(messages).skip(offset_of(messages, j) as int),
        file: file_of(messages),
        end: file_of(messages).len() as u64,
        tail,
        announced: Seq::empty(),
    }
}

/// The step in which a session finds a message for its consumer.
proof fn lemma_read_step<E>(scene: Scene<E>, offset: u64, payload: Seq<u8>, next_offset: u64)
    requires
        scene.session == (Session::ConsumerRead { offset }),
        scene.action == (ActionView::<E>::ReadLog { offset }),
        reads_at::<E>(scene.file, offset as nat) == Ok::<Option<(Seq<u8>, nat)>, Error<E>>(
            Some((payload, next_offset as nat)),
        ),
        frameable(payload.len()),
    ensures
        advanced(scene) == (Scene::<E> {
            session: Session::ConsumerSend { next_offset },
            action: ActionView::Send { bytes: frame(payload) },
            ..scene
        }),
{
    reveal(advanced);
}

/// The step in which a consumer gets a message.
proof fn lemma_send_step<E>(scene: Scene<E>, bytes: Seq<u8>, next_offset: u64)
    requires
        scene.session == (Session::ConsumerSend { next_offset }),
        scene.action == (ActionView::<E>::Send { bytes }),
    ensures
        advanced(scene) == (Scene::<E> {
            session: Session::ConsumerRead { offset: next_offset },
            action: ActionView::ReadLog { offset: next_offset },
            output: scene.output + bytes,
            ..scene
        }),
{
    reveal(advanced);
}

/// One message for a consumer: read it, send it.
proof fn lemma_consume_one<E>(messages: Seq<Seq<u8>>, tail: u64, j: int, k: int)
    requires
        0 <= j <= k < messages.len(),
        storable(messages),
        file_of(messages).len() <= u64::MAX,
    ensures
        advanced(advanced(streamed::<E>(messages, tail, j, k))) == streamed::<E>(
            messages,
            tail,
            j,
            k + 1,
        ),
{
    let message = messages[k];
    let file = file_of(messages);
    assert(frameable(message.len()));
    lemma_front(messages, k);
    lemma_front(messages, k + 1);
    lemma_offsets_rise(messages, j, k);
    lemma_frame_stands(messages, k);
    history_is_readable::<E>(messages, k);
    read_tells_record::<E>(file, offset_of(messages, k));
    let s0 = streamed::<E>(messages, tail, j, k);
    let next_offset = offset_of(messages, k + 1) as u64;
    lemma_read_step(s0, offset_of(messages, k) as u64, message, next_offset);
    let s1 = advanced(s0);
    lemma_send_step(s1, frame(message), next_offset);
    let s2 = advanced(s1);
    assert(s2.output =~= file.subrange(
        offset_of(messages, j) as int,
        offset_of(messages, k + 1) as int,
    ));
}

/// Later messages stand at higher offsets.
proof fn lemma_offsets_rise(messages: Seq<Seq<u8>>, j: int, k: int)
    requires
        0 <= j <= k <= messages.len(),
    ensures
        offset_of(messages, j) <= offset_of(messages, k) <= file_of(messages).len(),
    decreases k - j,
{
    lemma_front(messages, k);
    if j < k {
        lemma_frame_stands(messages, k - 1);
        lemma_offsets_rise(messages, j, k - 1);
    }
}

/// A consumer's connection from message `k` on, up to the end of the log.
proof fn lemma_stream_rest<E>(
    scene: Scene<E>,
    n: nat,
    messages: Seq<Seq<u8>>,
    tail: u64,
    j: int,
    k: int,
)
    requires
        0 <= j <= k <= messages.len(),
        storable(messages),
        file_of(messages).len() <= u64::MAX,
        tail <= file_of(messages).len(),
        after(scene, n) == streamed::<E>(messages, tail, j, k),
    ensures
        after(scene, (n + 2 * (messages.len() - k) + 1) as nat) == caught_up::<E>(
            messages,
            tail,
            j,
        ),
    decreases messages.len() - k,
{
    if k == messages.len() {
        reveal(advanced);
        let file = file_of(messages);
        history_ends::<E>(messages);
        read_tells_record::<E>(file, file.len());
        lemma_offsets_rise(messages, j, k);
        let last = streamed::<E>(messages, tail, j, k);
        assert(advanced(last).output =~= file.skip(offset_of(messages, j) as int));
        assert(advanced(last) =~= caught_up::<E>(messages, tail, j));
        assert(after(scene, n + 1) == advanced(after(scene, n)));
    } else {
        lemma_consume_one::<E>(messages, tail, j, k);
        assert(after(scene, n + 1) == advanced(after(scene, n)));
        assert(after(scene, n + 2) == advanced(after(scene, n + 1)));
        lemma_stream_rest::<E>(scene, n + 2, messages, tail, j, k + 1);
    }
}

/// A consumer that asks for the log from the offset of one of its messages on, or from its
/// end, gets this and all later messages, byte for byte as they stand in the log, and then
/// its session waits for more. Offset 0 replays the entire log.
pub proof fn consumer_is_served<E>(messages: Seq<Seq<u8>>, tail: u64, j: int)
    requires
        0 <= j <= messages.len(),
        storable(messages),
        file_of(messages).len() <= u64::MAX,
        tail <= file_of(messages).len(),
    ensures
        after(
            connect::<E>(
                seq![CONSUMER] + be_bytes(offset_of(messages, j), 8),
                file_of(messages),
                tail,
            ),
            (3 + 2 * (messages.len() - j)) as nat,
        ) == caught_up::<E>(messages, tail, j),
        offset_of(messages, 0) == 0,
{
    reveal(advanced);
    let at = offset_of(messages, j);
    let asked = be_bytes(at, 8);
    let first = connect::<E>(seq![CONSUMER] + asked, file_of(messages), tail);
    lemma_front(messages, j);
    lemma_be_bytes_len(at, 8);
    lemma_span_values();
    be_value_of_be_bytes(at, 8);
    assert(first.input.skip(1) =~= asked);
    assert(first.input.take(1)[0] == CONSUMER);
    let second = advanced(first);
    assert(second.session == Session::ConsumerStart);
    assert(second.action == ActionView::<E>::Receive { len: 8 });
    assert(asked.take(8) =~= asked);
    assert(asked.skip(8) =~= Seq::empty());
    let third = advanced(second);
    assert(third.output =~= file_of(messages).subrange(at as int, at as int));
    assert(third =~= streamed::<E>(messages, tail, j, j));
    assert(after(first, 0) == first);
    assert(after(first, 1) == advanced(after(first, 0)));
    assert(after(first, 2) == advanced(after(first, 1)));
    lemma_stream_rest::<E>(first, 2, messages, tail, j, j);
}

/// A consumer's session starts to wait only where a read has just found the end of the
/// log and no end beyond its offset has been announced.
pub proof fn waits_only_when_caught_up<E>(session: Session, reply: ReplyView<E>, tail: u64)
    requires
        expects(session, reply),
        next(session, reply, tail).action is AwaitTail,
    ensures
        reply == ReplyView::<E>::LogRead(Ok(None)),
        session matches Session::ConsumerRead { offset } && tail <= offset,
{
}

/// What a session announces is the end of the log that its append has left.
pub proof fn announces_end_of_log<E>(end: u64, payload: Seq<u8>, tail: u64)
    requires
        frameable(payload.len()),
        end + 4 + payload.len() <= u64::MAX,
    ensures
        ({
            let (result, new_end) = append_whole::<E>(end, payload);
            let session = Session::ProducerAppend { len: payload.len() as usize };
            next(session, ReplyView::Appended(result), tail).announce == Some(new_end as u64)
        }),
{
    lemma_frame_len(payload);
}

/// What a consumer that streams from `start` on has been sent, and where its session
/// stands, after these replies, each with the end of the log announced at the time.
pub open spec fn streaming<E>(
    start: u64,
    replies: Seq<ReplyView<E>>,
    tails: Seq<u64>,
) -> (Session, Seq<u8>)
    decreases replies.len(),
{
    if replies.len() == 0 {
        (Session::ConsumerRead { offset: start }, Seq::empty())
    } else {
        let (session, sent) = streaming(start, replies.drop_last(), tails.drop_last());
        let reaction = next(session, replies.last(), tails.last());
        (
            reaction.session,
            match reaction.action {
                ActionView::Send { bytes } => sent + bytes,
                _ => sent,
            },
        )
    }
}

/// The replies fit the session, and each message in them is read from a log that grows
/// into `log`: at the time of the read it was some front part of it.
pub open spec fn truthful<E>(
    start: u64,
    log: Seq<u8>,
    replies: Seq<ReplyView<E>>,
    tails: Seq<u64>,
) -> bool
    decreases replies.len(),
{
    replies.len() > 0 ==> {
        let session = streaming(start, replies.drop_last(), tails.drop_last()).0;
        &&& truthful(start, log, replies.drop_last(), tails.drop_last())
        &&& expects(session, replies.last())
        &&& replies.last() matches ReplyView::LogRead(Ok(Some(_))) ==> exists|len: int|
            0 <= len <= log.len() && replies.last() == ReplyView::<E>::LogRead(
                #[trigger] record_at(log.take(len), session->ConsumerRead_offset as nat),
            )
    }
}

/// How far a consumer's session has come.
pub open spec fn position(session: Session) -> Option<u64> {
    match session {
        Session::ConsumerRead { offset } => Some(offset),
        Session::ConsumerSend { next_offset } => Some(next_offset),
        Session::ConsumerWait { offset } => Some(offset),
        _ => None,
    }
}

/// Whatever offset a consumer has asked for, and however the log grows and operations fail
/// while it is served, what it is sent is a copy of the log from that offset on: no byte is
/// left out, changed or repeated.
pub proof fn stream_copies_log<E>(
    start: u64,
    log: Seq<u8>,
    replies: Seq<ReplyView<E>>,
    tails: Seq<u64>,
)
    requires
        replies.len() == tails.len(),
        truthful(start, log, replies, tails),
    ensures
        ({
            let (session, sent) = streaming(start, replies, tails);
            &&& session == Session::Closed || position(session) == Some((start + sent.len()) as u64)
            &&& start + sent.len() <= u64::MAX
            &&& sent.len() > 0 ==> start + sent.len() <= log.len() && sent == log.subrange(
                start as int,
                start + sent.len(),
            )
        }),
    decreases replies.len(),
{
    if replies.len() > 0 {
        let (session, sent) = streaming(start, replies.drop_last(), tails.drop_last());
        stream_copies_log::<E>(start, log, replies.drop_last(), tails.drop_last());
        let reply = replies.last();
        if let ReplyView::LogRead(Ok(Some((payload, next_offset)))) = reply {
            let offset = session->ConsumerRead_offset;
            let len = choose|len: int|
                0 <= len <= log.len() && reply == ReplyView::<E>::LogRead(
                    #[trigger] record_at(log.take(len), offset as nat),
                );
            let prefix = log.take(len).subrange(offset as int, offset + 4);
            lemma_be_value_bound(prefix);
            lemma_span_values();
            be_bytes_of_be_value(prefix);
            assert(frame(payload) =~= log.subrange(offset as int, next_offset as int));
            if sent.len() == 0 {
                assert(sent + frame(payload) =~= frame(payload));
            } else {
                assert(sent + frame(payload) =~= log.subrange(start as int, next_offset as int));
            }
        }
    }
}

/// What has passed between a producer and its session since the handshake.
#[verifier::ext_equal]
pub struct Exchange {
    /// The state of the session.
    pub session: Session,
    /// All bytes that have been received.
    pub input: Seq<u8>,
    /// The messages that have been received.
    pub received: Seq<Seq<u8>>,
    /// The messages that the session has asked to append.
    pub appended: Seq<Seq<u8>>,
    /// The offsets that the appends have given.
    pub offsets: Seq<u64>,
    /// The ends of the log that the session has announced.
    pub announced: Seq<u64>,
    /// The bytes that the session has sent.
    pub sent: Seq<u8>,
}

/// What has passed between a producer and its session after these replies, each with the
/// end of the log announced at the time.
pub open spec fn exchanged<E>(replies: Seq<ReplyView<E>>, tails: Seq<u64>) -> Exchange
    decreases replies.len(),
{
    if replies.len() == 0 {
        Exchange {
            session: Session::ProducerPrefix,
            input: Seq::empty(),
            received: Seq::empty(),
            appended: Seq::empty(),
            offsets: Seq::empty(),
            announced: Seq::empty(),
            sent: Seq::empty(),
        }
    } else {
        let before = exchanged(replies.drop_last(), tails.drop_last());
        let reply = replies.last();
        let reaction = next(before.session, reply, tails.last());
        Exchange {
            session: reaction.session,
            input: match reply {
                ReplyView::Received(Ok(bytes)) => before.input + bytes,
                _ => before.input,
            },
            received: match (before.session, reply) {
                (Session::ProducerPayload { .. }, ReplyView::Received(Ok(bytes))) => {
                    before.received.push(bytes)
                },
                _ => before.received,
            },
            appended: match reaction.action {
                ActionView::Append { payload } => before.appended.push(payload),
                _ => before.appended,
            },
            offsets: match reply {
                ReplyView::Appended(Ok(offset)) => before.offsets.push(offset),
                _ => before.offsets,
            },
            announced: match reaction.announce {
                Some(end) => before.announced.push(end),
                None => before.announced,
            },
            sent: match reaction.action {
                ActionView::Send { bytes } => before.sent + bytes,
                _ => before.sent,
            },
        }
    }
}

/// Each of the replies fits the session that gets it.
pub open spec fn fitting<E>(replies: Seq<ReplyView<E>>, tails: Seq<u64>) -> bool
    decreases replies.len(),
{
    replies.len() > 0 ==> {
        &&& fitting(replies.drop_last(), tails.drop_last())
        &&& expects(exchanged(replies.drop_last(), tails.drop_last()).session, replies.last())
    }
}

/// These offsets one after the other, each in eight bytes.
pub open spec fn offset_bytes(offsets: Seq<u64>) -> Seq<u8>
    decreases offsets.len(),
{
    if offsets.len() == 0 {
        Seq::empty()
    } else {
        offset_bytes(offsets.drop_last()) + be_bytes(offsets.last() as nat, 8)
    }
}

/// The ends of messages that stand at these offsets.
pub open spec fn ends_at(offsets: Seq<u64>, messages: Seq<Seq<u8>>) -> Seq<u64> {
    Seq::new(offsets.len(), |i: int| (offsets[i] + 4 + messages[i].len()) as u64)
}

/// How far the bytes and the messages that have been received go together: the bytes are the
/// frames of the messages, with the prefix of the next one behind them where the session has
/// received it.
pub open spec fn input_is_framed(exchange: Exchange) -> bool {
    let framed = file_of(exchange.received);
    match exchange.session {
        Session::ProducerPayload { len } => {
            &&& exchange.input.len() == framed.len() + 4
            &&& exchange.input == framed + be_bytes(len as nat, 4)
        },
        Session::Closed => {
            &&& framed.is_prefix_of(exchange.input)
            &&& exchange.input.len() == framed.len() || exchange.input.len() == framed.len() + 4
        },
        _ => exchange.input == framed,
    }
}

/// Whatever offsets the log gives to a producer's messages, with other producers appending
/// in between, and however operations fail: the session appends the messages that it receives,
/// one for one; it sends the offsets that the appends give, in order and nothing else; and for
/// each of them it announces the offset right behind the message. Only the last message that
/// was received can be without an offset: while it is being appended, or where that failed.
pub proof fn producer_is_answered<E>(replies: Seq<ReplyView<E>>, tails: Seq<u64>)
    requires
        replies.len() == tails.len(),
        fitting(replies, tails),
    ensures
        ({
            let exchange = exchanged(replies, tails);
            let answered = exchange.offsets.len();
            &&& exchange.appended == exchange.received
            &&& exchange.sent == offset_bytes(exchange.offsets)
            &&& exchange.announced == ends_at(exchange.offsets, exchange.received)
            &&& forall|i: int|
                0 <= i < answered ==> #[trigger] exchange.offsets[i] + 4
                    + exchange.received[i].len() <= u64::MAX
            &&& match exchange.session {
                Session::ProducerAppend { len } => exchange.received.len() == answered + 1
                    && exchange.received.last().len() == len,
                Session::Closed => answered <= exchange.received.len() <= answered + 1,
                Session::ProducerPrefix => exchange.received.len() == answered,
                Session::ProducerPayload { .. } => exchange.received.len() == answered,
                Session::ProducerAck => exchange.received.len() == answered,
                _ => false,
            }
            &&& input_is_framed(exchange)
        }),
    decreases replies.len(),
{
    let now = exchanged(replies, tails);
    if replies.len() == 0 {
        assert(now.announced =~= ends_at(now.offsets, now.received));
        assert(file_of(now.received) =~= Seq::empty());
    } else {
        producer_is_answered::<E>(replies.drop_last(), tails.drop_last());
        let before = exchanged(replies.drop_last(), tails.drop_last());
        match (before.session, replies.last()) {
            (Session::ProducerPrefix, ReplyView::Received(Ok(bytes))) => {
                lemma_be_value_bound(bytes);
                lemma_span_values();
                be_bytes_of_be_value(bytes);
            },
            (Session::ProducerPayload { len }, ReplyView::Received(Ok(bytes))) => {
                assert(now.received.drop_last() =~= before.received);
                assert(now.input =~= file_of(now.received));
                assert(now.announced =~= ends_at(now.offsets, now.received));
            },
            (Session::ProducerAppend { len }, ReplyView::Appended(Ok(offset))) => {
                assert(now.offsets.drop_last() =~= before.offsets);
                assert(now.announced =~= ends_at(now.offsets, now.received));
            },
            _ => {},
        }
    }
}

/// A waiting scene when more messages have come into the log and the new end has been
/// announced; the session stands still where it would not accept the announcement.
pub open spec fn woken<E>(scene: Scene<E>, file: Seq<u8>, tail: u64) -> Scene<E> {
    let reply = ReplyView::<E>::TailChanged(true);
    let end = recovered_offset(Some(file.len() as u64));
    if !expects(scene.session, reply) {
        Scene { file, end, tail, ..scene }
    } else {
        let reaction = next(scene.session, reply, tail);
        Scene { session: reaction.session, action: reaction.action, file, end, tail, ..scene }
    }
}

/// A consumer that waits at the end of the log gets the messages that are appended while
/// it waits: none is skipped and none comes twice.
pub proof fn waiting_consumer_is_served<E>(
    messages: Seq<Seq<u8>>,
    more: Seq<Seq<u8>>,
    tail: u64,
    new_tail: u64,
    j: int,
)
    requires
        0 <= j <= messages.len(),
        storable(messages + more),
        file_of(messages + more).len() <= u64::MAX,
        new_tail <= file_of(messages + more).len(),
    ensures
        expects(caught_up::<E>(messages, tail, j).session, ReplyView::<E>::TailChanged(true)),
        after(
            woken(caught_up::<E>(messages, tail, j), file_of(messages + more), new_tail),
            (2 * more.len() + 1) as nat,
        ) == caught_up::<E>(messages + more, new_tail, j),
{
    let all = messages + more;
    let k = messages.len() as int;
    let scene = woken(caught_up::<E>(messages, tail, j), file_of(all), new_tail);
    lemma_file_of_concat(messages, more);
    assert(all.take(k) =~= messages);
    assert(all.take(j) =~= messages.take(j));
    lemma_offsets_rise(all, j, k);
    assert(scene.output =~= file_of(all).subrange(
        offset_of(all, j) as int,
        offset_of(all, k) as int,
    ));
    assert(scene =~= streamed::<E>(all, new_tail, j, k));
    assert(after(scene, 0) == scene);
    lemma_stream_rest::<E>(scene, 0, all, new_tail, j, k);
}

/// What a producer sends is what a consumer gets: after a producer has sent some messages
/// to a broker whose log holds earlier ones, a consumer that starts where the earlier ones
/// end gets exactly the bytes that the producer sent after its handshake.
pub proof fn consumer_gets_what_producer_sent<E>(
    earlier: Seq<Seq<u8>>,
    messages: Seq<Seq<u8>>,
    tail: u64,
)
    requires
        storable(earlier + messages),
        file_of(earlier + messages).len() <= u64::MAX,
        tail <= file_of(earlier).len(),
    ensures
        ({
            let sent = file_of(messages);
            let producer = after(
                connect::<E>(seq![PRODUCER] + sent, file_of(earlier), tail),
                (2 + 4 * messages.len()) as nat,
            );
            let consumer = after(
                connect::<E>(
                    seq![CONSUMER] + be_bytes(file_of(earlier).len(), 8),
                    producer.file,
                    producer.tail,
                ),
                (3 + 2 * messages.len()) as nat,
            );
            &&& producer.action == ActionView::<E>::Close(Ending::ProducerLeft)
            &&& consumer.action == ActionView::<E>::AwaitTail
            &&& consumer.output == sent
        }),
{
    let all = earlier + messages;
    let j = earlier.len() as int;
    lemma_file_of_concat(earlier, messages);
    assert(all.take(j) =~= earlier);
    assert forall|i: int| 0 <= i < messages.len() implies frameable(
        (#[trigger] messages[i]).len(),
    ) by {
        assert(messages[i] == all[j + i]);
    }
    producer_is_served::<E>(messages, file_of(earlier), tail);
    let new_tail = tail_after(tail, file_of(earlier).len(), messages, messages.len() as int);
    history_ends::<E>(messages);
    consumer_is_served::<E>(all, new_tail, j);
    assert(file_of(all).skip(file_of(earlier).len() as int) =~= file_of(messages));
}

} // verus!
