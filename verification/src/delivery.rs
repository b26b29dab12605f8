//! Clients and broker together: a message on its whole way from the producer that
//! publishes it to the consumer that gets it.

use crate::broker::{
    acks, after, connect, consumer_gets_what_producer_sent, lemma_ack, producer_is_served, storable,
};
use crate::client::{
    consumer_expects, consumer_next, producer_expects, producer_next, ClientActionView,
    ClientEnding, ConsumerClient, ConsumerEventView, ProducerClient, ProducerEventView,
};
use crate::error::Error;
use crate::history::{
    all_fit, file_of, history_ends, lemma_file_of_concat, lemma_frame_stands, lemma_front,
    offset_of,
};
use crate::text::trimmed;
use crate::wire::{
    be_bytes, be_value, be_value_of_be_bytes, frame, frameable, lemma_be_bytes_len,
    lemma_span_values, CONSUMER, PRODUCER,
};
use vstd::prelude::*;
use vstd::utf8::encode_utf8;

verus! {

/// A producer client with what it still has to publish, what the broker has sent to it, and
/// what has become of both.
#[verifier::ext_equal]
pub struct Publishing<E> {
    pub client: ProducerClient,
    pub action: ClientActionView<E>,
    /// The messages that are still to be published.
    pub queue: Seq<Seq<u8>>,
    /// What the broker has sent and the client has not yet received.
    pub input: Seq<u8>,
    /// What the client has sent.
    pub output: Seq<u8>,
    /// The offsets that have been acknowledged.
    pub offsets: Seq<u64>,
}

/// A producer client that is about to publish these messages.
pub open spec fn publisher<E>(queue: Seq<Seq<u8>>, input: Seq<u8>) -> Publishing<E> {
    Publishing {
        client: ProducerClient::Greeting,
        action: ClientActionView::Send { bytes: seq![PRODUCER] },
        queue,
        input,
        output: Seq::empty(),
        offsets: Seq::empty(),
    }
}

/// The event that comes of a producer client's action.
pub open spec fn publishing_event<E>(scene: Publishing<E>) -> ProducerEventView {
    match scene.action {
        ClientActionView::Send { .. } => ProducerEventView::Sent,
        ClientActionView::Receive { len } => ProducerEventView::Received(
            scene.input.take(len as int),
        ),
        _ => if scene.queue.len() > 0 {
            ProducerEventView::Message(scene.queue.first())
        } else {
            ProducerEventView::EndOfInput
        },
    }
}

/// The producer client's next step; it stands still where it would not accept the event.
#[verifier::opaque]
pub open spec fn published<E>(scene: Publishing<E>) -> Publishing<E> {
    let event = publishing_event(scene);
    if !producer_expects(scene.client, event) {
        scene
    } else {
        let reaction = producer_next::<E>(scene.client, event);
        Publishing {
            client: reaction.client,
            action: reaction.action,
            queue: if event is Message {
                scene.queue.drop_first()
            } else {
                scene.queue
            },
            input: match scene.action {
                ClientActionView::Receive { len } => scene.input.skip(len as int),
                _ => scene.input,
            },
            output: match scene.action {
                ClientActionView::Send { bytes } => scene.output + bytes,
                _ => scene.output,
            },
            offsets: match reaction.ack {
                Some(offset) => scene.offsets.push(offset),
                None => scene.offsets,
            },
        }
    }
}

/// The producer client after `n` steps.
pub open spec fn publishing_after<E>(scene: Publishing<E>, n: nat) -> Publishing<E>
    decreases n,
{
    if n == 0 {
        scene
    } else {
        published(publishing_after(scene, (n - 1) as nat))
    }
}

/// The offsets of messages that are appended from offset `base` on.
pub open spec fn offsets_from(base: nat, messages: Seq<Seq<u8>>, k: int) -> Seq<u64> {
    Seq::new(k as nat, |i: int| (base + offset_of(messages, i)) as u64)
}

/// A producer client between two messages, with the first `k` of them published.
pub open spec fn published_up_to<E>(
    base: nat,
    messages: Seq<Seq<u8>>,
    k: int,
) -> Publishing<E> {
    Publishing {
        client: ProducerClient::Idle,
        action: ClientActionView::NextMessage,
        queue: messages.skip(k),
        input: acks(base, messages).skip(8 * k),
        output: seq![PRODUCER] + file_of(messages.take(k)),
        offsets: offsets_from(base, messages, k),
    }
}

/// The step in which a producer client picks up a message.
proof fn lemma_message_step<E>(scene: Publishing<E>)
    requires
        scene.client == ProducerClient::Idle,
        scene.action == ClientActionView::<E>::NextMessage,
        scene.queue.len() > 0,
        frameable(scene.queue.first().len()),
    ensures
        published(scene) == (Publishing::<E> {
            client: ProducerClient::Publishing,
            action: ClientActionView::Send { bytes: frame(scene.queue.first()) },
            queue: scene.queue.drop_first(),
            ..scene
        }),
{
    reveal(published);
}

/// The step in which a producer client has sent a message.
proof fn lemma_sent_step<E>(scene: Publishing<E>, bytes: Seq<u8>)
    requires
        scene.client == ProducerClient::Publishing,
        scene.action == (ClientActionView::<E>::Send { bytes }),
    ensures
        published(scene) == (Publishing::<E> {
            client: ProducerClient::Acking,
            action: ClientActionView::Receive { len: 8 },
            output: scene.output + bytes,
            ..scene
        }),
{
    reveal(published);
}

/// The step in which a producer client gets an acknowledgement.
proof fn lemma_acked_step<E>(scene: Publishing<E>, offset: u64)
    requires
        scene.client == ProducerClient::Acking,
        scene.action == (ClientActionView::<E>::Receive { len: 8 }),
        scene.input.len() >= 8,
        scene.input.take(8) == be_bytes(offset as nat, 8),
    ensures
        published(scene) == (Publishing::<E> {
            client: ProducerClient::Idle,
            action: ClientActionView::NextMessage,
            input: scene.input.skip(8),
            offsets: scene.offsets.push(offset),
            ..scene
        }),
{
    reveal(published);
    lemma_span_values();
    be_value_of_be_bytes(offset as nat, 8);
}

/// One message of a producer client: pick it up, send it, get its acknowledgement.
proof fn lemma_publish_one<E>(base: nat, messages: Seq<Seq<u8>>, k: int)
    requires
        0 <= k < messages.len(),
        storable(messages),
        base + file_of(messages).len() <= u64::MAX,
    ensures
        published(published(published(published_up_to::<E>(base, messages, k))))
            == published_up_to::<E>(base, messages, k + 1),
{
    let message = messages[k];
    let offset = (base + offset_of(messages, k)) as u64;
    let input = acks(base, messages).skip(8 * k);
    assert(frameable(message.len()));
    lemma_front(messages, k);
    lemma_ack(base, messages, k);
    assert(input.take(8) =~= acks(base, messages).subrange(8 * k, 8 * (k + 1)));
    assert(input.skip(8) =~= acks(base, messages).skip(8 * (k + 1)));
    assert(messages.skip(k).drop_first() =~= messages.skip(k + 1));
    assert(messages.take(k + 1).drop_last() =~= messages.take(k));
    let s0 = published_up_to::<E>(base, messages, k);
    lemma_message_step(s0);
    let s1 = published(s0);
    lemma_sent_step(s1, frame(message));
    let s2 = published(s1);
    assert(s2.output =~= seq![PRODUCER] + file_of(messages.take(k + 1)));
    lemma_acked_step(s2, offset);
    let s3 = published(s2);
    assert(s3.offsets =~= offsets_from(base, messages, k + 1));
    assert(s3 =~= published_up_to::<E>(base, messages, k + 1));
}

/// The first step of a producer client.
proof fn lemma_publisher_greets<E>(base: nat, messages: Seq<Seq<u8>>)
    ensures
        published(publisher::<E>(messages, acks(base, messages))) == published_up_to::<E>(
            base,
            messages,
            0,
        ),
{
    reveal(published);
    let first = publisher::<E>(messages, acks(base, messages));
    assert(messages.take(0) =~= Seq::empty());
    assert(messages.skip(0) =~= messages);
    assert(acks(base, messages).skip(0) =~= acks(base, messages));
    assert(published(first).output =~= seq![PRODUCER] + file_of(messages.take(0)));
    assert(published(first).offsets =~= offsets_from(base, messages, 0));
    assert(published(first) =~= published_up_to::<E>(base, messages, 0));
}

/// A producer client up to message `k`.
proof fn lemma_publish<E>(base: nat, messages: Seq<Seq<u8>>, k: int)
    requires
        0 <= k <= messages.len(),
        storable(messages),
        base + file_of(messages).len() <= u64::MAX,
    ensures
        publishing_after(publisher::<E>(messages, acks(base, messages)), (1 + 3 * k) as nat)
            == published_up_to::<E>(base, messages, k),
    decreases k,
{
    let first = publisher::<E>(messages, acks(base, messages));
    if k == 0 {
        lemma_publisher_greets::<E>(base, messages);
        assert(publishing_after(first, 0) == first);
        assert(publishing_after(first, 1) == published(publishing_after(first, 0)));
    } else {
        lemma_publish::<E>(base, messages, k - 1);
        lemma_publish_one::<E>(base, messages, k - 1);
        let n = (1 + 3 * (k - 1)) as nat;
        assert(publishing_after(first, n + 1) == published(publishing_after(first, n)));
        assert(publishing_after(first, n + 2) == published(publishing_after(first, n + 1)));
        assert(publishing_after(first, n + 3) == published(publishing_after(first, n + 2)));
    }
}

/// A producer client that gets the broker's acknowledgements sends the producer handshake
/// and then each message in a frame, learns the offset of each, and finishes.
pub proof fn producer_client_publishes<E>(base: nat, messages: Seq<Seq<u8>>)
    requires
        storable(messages),
        base + file_of(messages).len() <= u64::MAX,
    ensures
        ({
            let last = publishing_after(
                publisher::<E>(messages, acks(base, messages)),
                (2 + 3 * messages.len()) as nat,
            );
            &&& last.output == seq![PRODUCER] + file_of(messages)
            &&& last.offsets == offsets_from(base, messages, messages.len() as int)
            &&& last.action == ClientActionView::<E>::Close(ClientEnding::Finished)
        }),
{
    reveal(published);
    let first = publisher::<E>(messages, acks(base, messages));
    let k = messages.len() as int;
    lemma_publish::<E>(base, messages, k);
    assert(messages.take(k) =~= messages);
    let n = (1 + 3 * k) as nat;
    assert(publishing_after(first, n + 1) == published(publishing_after(first, n)));
}

/// The messages that typed lines stand for: the text of each without the white space around
/// it, where any is left.
pub open spec fn typed_messages(lines: Seq<Seq<char>>) -> Seq<Seq<u8>>
    decreases lines.len(),
{
    if lines.len() == 0 {
        Seq::empty()
    } else {
        let front = typed_messages(lines.drop_last());
        let text = trimmed(lines.last());
        if text.len() > 0 {
            front.push(encode_utf8(text))
        } else {
            front
        }
    }
}

/// A producer client that publishes what is typed, with the lines that are still to come.
#[verifier::ext_equal]
pub struct Typing<E> {
    /// The client; it has no messages but those that are typed.
    pub now: Publishing<E>,
    pub lines: Seq<Seq<char>>,
}

/// A producer client that is about to publish these lines.
pub open spec fn typist<E>(lines: Seq<Seq<char>>, input: Seq<u8>) -> Typing<E> {
    Typing { now: publisher(Seq::empty(), input), lines }
}

/// The client's next step: it takes the next line where it asks for a message and one is
/// left. It stands still where it would not accept the line.
#[verifier::opaque]
pub open spec fn typed<E>(scene: Typing<E>) -> Typing<E> {
    if scene.now.action is NextMessage && scene.lines.len() > 0 {
        let event = ProducerEventView::Line(scene.lines.first());
        if !producer_expects(scene.now.client, event) {
            scene
        } else {
            let reaction = producer_next::<E>(scene.now.client, event);
            Typing {
                now: Publishing {
                    client: reaction.client,
                    action: reaction.action,
                    offsets: match reaction.ack {
                        Some(offset) => scene.now.offsets.push(offset),
                        None => scene.now.offsets,
                    },
                    ..scene.now
                },
                lines: scene.lines.drop_first(),
            }
        }
    } else {
        Typing { now: published(scene.now), ..scene }
    }
}

/// The client after `n` steps.
pub open spec fn typing_after<E>(scene: Typing<E>, n: nat) -> Typing<E>
    decreases n,
{
    if n == 0 {
        scene
    } else {
        typed(typing_after(scene, (n - 1) as nat))
    }
}

/// How many steps lines take: one for each that is passed over, and three for each that is
/// published.
pub open spec fn typing_steps(lines: Seq<Seq<char>>) -> nat
    decreases lines.len(),
{
    if lines.len() == 0 {
        0
    } else {
        typing_steps(lines.drop_last()) + if trimmed(lines.last()).len() > 0 {
            3nat
        } else {
            1nat
        }
    }
}

/// A client between two lines, with the first `k` of them dealt with.
pub open spec fn typed_up_to<E>(base: nat, lines: Seq<Seq<char>>, k: int) -> Typing<E> {
    Typing {
        now: Publishing {
            queue: Seq::empty(),
            ..published_up_to(
                base,
                typed_messages(lines),
                typed_messages(lines.take(k)).len() as int,
            )
        },
        lines: lines.skip(k),
    }
}

/// The first lines make the first messages.
proof fn lemma_typed_front(lines: Seq<Seq<char>>, k: int)
    requires
        0 <= k <= lines.len(),
    ensures
        typed_messages(lines.take(k)).len() <= typed_messages(lines).len(),
        typed_messages(lines.take(k)) == typed_messages(lines).take(
            typed_messages(lines.take(k)).len() as int,
        ),
    decreases lines.len() - k,
{
    let front = typed_messages(lines.take(k));
    if k == lines.len() {
        assert(lines.take(k) =~= lines);
        assert(front.take(front.len() as int) =~= front);
    } else {
        lemma_typed_front(lines, k + 1);
        assert(lines.take(k + 1).drop_last() =~= lines.take(k));
        assert(front =~= typed_messages(lines.take(k + 1)).take(front.len() as int));
        assert(front =~= typed_messages(lines).take(front.len() as int));
    }
}

/// One line that is passed over.
proof fn lemma_type_blank<E>(base: nat, lines: Seq<Seq<char>>, k: int)
    requires
        0 <= k < lines.len(),
        trimmed(lines[k]).len() == 0,
    ensures
        typed(typed_up_to::<E>(base, lines, k)) == typed_up_to::<E>(base, lines, k + 1),
{
    reveal(typed);
    assert(trimmed(lines[k]) =~= Seq::empty());
    assert(encode_utf8(Seq::<char>::empty()).len() == 0);
    assert(lines.take(k + 1).drop_last() =~= lines.take(k));
    assert(lines.skip(k).first() == lines[k]);
    assert(lines.skip(k).drop_first() =~= lines.skip(k + 1));
}

/// One line that is published: pick it up, send it, get its acknowledgement.
proof fn lemma_type_one<E>(base: nat, lines: Seq<Seq<char>>, k: int)
    requires
        0 <= k < lines.len(),
        trimmed(lines[k]).len() > 0,
        storable(typed_messages(lines)),
        base + file_of(typed_messages(lines)).len() <= u64::MAX,
    ensures
        typed(typed(typed(typed_up_to::<E>(base, lines, k)))) == typed_up_to::<E>(
            base,
            lines,
            k + 1,
        ),
{
    reveal(typed);
    let messages = typed_messages(lines);
    let message = encode_utf8(trimmed(lines[k]));
    let m = typed_messages(lines.take(k)).len() as int;
    assert(lines.take(k + 1).drop_last() =~= lines.take(k));
    assert(lines.skip(k).first() == lines[k]);
    assert(lines.skip(k).drop_first() =~= lines.skip(k + 1));
    lemma_typed_front(lines, k + 1);
    assert(typed_messages(lines.take(k + 1)) == typed_messages(lines.take(k)).push(message));
    assert(typed_messages(lines.take(k + 1))[m] == message);
    assert(messages[m] == message);
    assert(frameable(message.len()));
    let offset = (base + offset_of(messages, m)) as u64;
    let input = acks(base, messages).skip(8 * m);
    lemma_front(messages, m);
    lemma_ack(base, messages, m);
    assert(input.take(8) =~= acks(base, messages).subrange(8 * m, 8 * (m + 1)));
    assert(input.skip(8) =~= acks(base, messages).skip(8 * (m + 1)));
    assert(messages.take(m + 1).drop_last() =~= messages.take(m));
    let s0 = typed_up_to::<E>(base, lines, k);
    let s1 = typed(s0);
    lemma_sent_step(s1.now, frame(message));
    let s2 = typed(s1);
    assert(s2.now.output =~= seq![PRODUCER] + file_of(messages.take(m + 1)));
    lemma_acked_step(s2.now, offset);
    let s3 = typed(s2);
    assert(s3.now.offsets =~= offsets_from(base, messages, m + 1));
    assert(s3 =~= typed_up_to::<E>(base, lines, k + 1));
}

/// The first step of a client that publishes what is typed.
proof fn lemma_typist_greets<E>(base: nat, lines: Seq<Seq<char>>)
    ensures
        typed(typist::<E>(lines, acks(base, typed_messages(lines)))) == typed_up_to::<E>(
            base,
            lines,
            0,
        ),
{
    reveal(typed);
    reveal(published);
    let messages = typed_messages(lines);
    let first = typist::<E>(lines, acks(base, messages));
    assert(lines.take(0) =~= Seq::empty());
    assert(lines.skip(0) =~= lines);
    assert(messages.take(0) =~= Seq::empty());
    assert(acks(base, messages).skip(0) =~= acks(base, messages));
    assert(typed(first).now.output =~= seq![PRODUCER] + file_of(messages.take(0)));
    assert(typed(first).now.offsets =~= offsets_from(base, messages, 0));
    assert(typed(first) =~= typed_up_to::<E>(base, lines, 0));
}

/// A client that publishes what is typed, up to line `k`.
proof fn lemma_type<E>(base: nat, lines: Seq<Seq<char>>, k: int)
    requires
        0 <= k <= lines.len(),
        storable(typed_messages(lines)),
        base + file_of(typed_messages(lines)).len() <= u64::MAX,
    ensures
        typing_after(
            typist::<E>(lines, acks(base, typed_messages(lines))),
            1 + typing_steps(lines.take(k)),
        ) == typed_up_to::<E>(base, lines, k),
    decreases k,
{
    let first = typist::<E>(lines, acks(base, typed_messages(lines)));
    if k == 0 {
        lemma_typist_greets::<E>(base, lines);
        assert(typing_after(first, 0) == first);
        assert(typing_after(first, 1) == typed(typing_after(first, 0)));
    } else {
        lemma_type::<E>(base, lines, k - 1);
        assert(lines.take(k).drop_last() =~= lines.take(k - 1));
        assert(lines.take(k).last() == lines[k - 1]);
        let n = 1 + typing_steps(lines.take(k - 1));
        assert(typing_after(first, n + 1) == typed(typing_after(first, n)));
        if trimmed(lines[k - 1]).len() > 0 {
            lemma_type_one::<E>(base, lines, k - 1);
            assert(typing_after(first, n + 2) == typed(typing_after(first, n + 1)));
            assert(typing_after(first, n + 3) == typed(typing_after(first, n + 2)));
        } else {
            lemma_type_blank::<E>(base, lines, k - 1);
        }
    }
}

/// What is typed is published: a producer client that gets the broker's acknowledgements sends
/// the producer handshake and then, in order and each in a frame, the text of every line that
/// is not all white space, without the white space around it. It learns the offset of each, and
/// finishes.
pub proof fn typed_lines_are_published<E>(base: nat, lines: Seq<Seq<char>>)
    requires
        storable(typed_messages(lines)),
        base + file_of(typed_messages(lines)).len() <= u64::MAX,
    ensures
        ({
            let messages = typed_messages(lines);
            let last = typing_after(
                typist::<E>(lines, acks(base, messages)),
                2 + typing_steps(lines),
            );
            &&& last.now.output == seq![PRODUCER] + file_of(messages)
            &&& last.now.offsets == offsets_from(base, messages, messages.len() as int)
            &&& last.now.action == ClientActionView::<E>::Close(ClientEnding::Finished)
            &&& last.lines.len() == 0
        }),
{
    let messages = typed_messages(lines);
    let first = typist::<E>(lines, acks(base, messages));
    let k = lines.len() as int;
    lemma_type::<E>(base, lines, k);
    assert(lines.take(k) =~= lines);
    assert(messages.take(messages.len() as int) =~= messages);
    let n = 1 + typing_steps(lines);
    assert(typing_after(first, n + 1) == typed(typing_after(first, n)));
    reveal(typed);
    reveal(published);
}

/// A line adds its message behind those of the lines before it, and adds none exactly if it is
/// all white space.
pub proof fn line_adds_its_message(lines: Seq<Seq<char>>, line: Seq<char>)
    ensures
        typed_messages(Seq::empty()) == Seq::<Seq<u8>>::empty(),
        trimmed(line).len() > 0 ==> typed_messages(lines.push(line)) == typed_messages(lines).push(
            encode_utf8(trimmed(line)),
        ),
        trimmed(line).len() == 0 ==> typed_messages(lines.push(line)) == typed_messages(lines),
{
    assert(lines.push(line).drop_last() =~= lines);
}

/// A consumer client with what the broker has sent to it, and what it has made of it.
#[verifier::ext_equal]
pub struct Consuming<E> {
    pub client: ConsumerClient,
    pub action: ClientActionView<E>,
    /// What the broker has sent and the client has not yet received; the broker then closes
    /// the connection.
    pub input: Seq<u8>,
    /// What the client has sent.
    pub output: Seq<u8>,
    /// The messages that have come.
    pub messages: Seq<Seq<u8>>,
}

/// A consumer client that is about to ask for the messages from `start_offset` on.
pub open spec fn subscriber<E>(start_offset: u64, input: Seq<u8>) -> Consuming<E> {
    Consuming {
        client: ConsumerClient::Greeting { start_offset },
        action: ClientActionView::Send { bytes: seq![CONSUMER] },
        input,
        output: Seq::empty(),
        messages: Seq::empty(),
    }
}

/// The event that comes of a consumer client's action.
pub open spec fn consuming_event<E>(scene: Consuming<E>) -> ConsumerEventView<E> {
    match scene.action {
        ClientActionView::Receive { len } => if len <= scene.input.len() {
            ConsumerEventView::Received(Ok(scene.input.take(len as int)))
        } else {
            ConsumerEventView::Received(Err(Error::PeerClosed))
        },
        _ => ConsumerEventView::Sent,
    }
}

/// The consumer client's next step; it stands still where it would not accept the event.
#[verifier::opaque]
pub open spec fn consumed<E>(scene: Consuming<E>) -> Consuming<E> {
    let event = consuming_event(scene);
    if !consumer_expects(scene.client, event) {
        scene
    } else {
        let reaction = consumer_next(scene.client, event);
        Consuming {
            client: reaction.client,
            action: reaction.action,
            input: match scene.action {
                ClientActionView::Receive { len } => if len <= scene.input.len() {
                    scene.input.skip(len as int)
                } else {
                    Seq::empty()
                },
                _ => scene.input,
            },
            output: match scene.action {
                ClientActionView::Send { bytes } => scene.output + bytes,
                _ => scene.output,
            },
            messages: match reaction.message {
                Some(message) => scene.messages.push(message),
                None => scene.messages,
            },
        }
    }
}

/// The consumer client after `n` steps.
pub open spec fn consuming_after<E>(scene: Consuming<E>, n: nat) -> Consuming<E>
    decreases n,
{
    if n == 0 {
        scene
    } else {
        consumed(consuming_after(scene, (n - 1) as nat))
    }
}

/// A consumer client between two messages, with the first `k` of them received.
pub open spec fn consumed_up_to<E>(
    start_offset: u64,
    messages: Seq<Seq<u8>>,
    k: int,
) -> Consuming<E> {
    Consuming {
        client: ConsumerClient::Prefix,
        action: ClientActionView::Receive { len: 4 },
        input: file_of(messages).skip(offset_of(messages, k) as int),
        output: seq![CONSUMER] + be_bytes(start_offset as nat, 8),
        messages: messages.take(k),
    }
}

/// The step in which a consumer client receives a length prefix.
proof fn lemma_length_step<E>(scene: Consuming<E>, len: nat)
    requires
        scene.client == ConsumerClient::Prefix,
        scene.action == (ClientActionView::<E>::Receive { len: 4 }),
        scene.input.len() >= 4,
        be_value(scene.input.take(4)) == len,
        len <= u32::MAX,
    ensures
        consumed(scene) == (Consuming::<E> {
            client: ConsumerClient::Payload { len: len as usize },
            action: ClientActionView::Receive { len },
            input: scene.input.skip(4),
            ..scene
        }),
{
    reveal(consumed);
}

/// The step in which a consumer client receives a message.
proof fn lemma_arrival_step<E>(scene: Consuming<E>, len: usize)
    requires
        scene.client == (ConsumerClient::Payload { len }),
        scene.action == (ClientActionView::<E>::Receive { len: len as nat }),
        scene.input.len() >= len,
    ensures
        consumed(scene) == (Consuming::<E> {
            client: ConsumerClient::Prefix,
            action: ClientActionView::Receive { len: 4 },
            input: scene.input.skip(len as int),
            messages: scene.messages.push(scene.input.take(len as int)),
            ..scene
        }),
{
    reveal(consumed);
}

/// One message of a consumer client.
proof fn lemma_receive_one<E>(start_offset: u64, messages: Seq<Seq<u8>>, k: int)
    requires
        0 <= k < messages.len(),
        all_fit(messages),
    ensures
        consumed(consumed(consumed_up_to::<E>(start_offset, messages, k))) == consumed_up_to::<E>(
            start_offset,
            messages,
            k + 1,
        ),
{
    let message = messages[k];
    let at = offset_of(messages, k);
    let input = file_of(messages).skip(at as int);
    assert(message.len() <= u32::MAX);
    lemma_front(messages, k);
    lemma_frame_stands(messages, k);
    assert(input.take(4) == be_bytes(message.len(), 4) && input.skip(4).take(message.len() as int)
        == message) by {
        lemma_be_bytes_len(message.len(), 4);
        let part = file_of(messages).subrange(at as int, offset_of(messages, k + 1) as int);
        assert(input.take(4) =~= part.take(4));
        assert(part.take(4) =~= be_bytes(message.len(), 4));
        assert(input.skip(4).take(message.len() as int) =~= part.skip(4));
        assert(part.skip(4) =~= message);
    }
    assert(be_value(input.take(4)) == message.len()) by {
        lemma_span_values();
        be_value_of_be_bytes(message.len(), 4);
    }
    assert(input.skip(4).skip(message.len() as int) =~= file_of(messages).skip(
        offset_of(messages, k + 1) as int,
    ));
    let s0 = consumed_up_to::<E>(start_offset, messages, k);
    lemma_length_step(s0, message.len());
    let s1 = consumed(s0);
    lemma_arrival_step(s1, message.len() as usize);
    let s2 = consumed(s1);
    assert(messages.take(k).push(message) =~= messages.take(k + 1));
    assert(s2 =~= consumed_up_to::<E>(start_offset, messages, k + 1));
}

/// The first two steps of a consumer client.
proof fn lemma_subscriber_greets<E>(start_offset: u64, messages: Seq<Seq<u8>>)
    ensures
        consumed(consumed(subscriber::<E>(start_offset, file_of(messages)))) == consumed_up_to::<E>(
            start_offset,
            messages,
            0,
        ),
{
    reveal(consumed);
    let first = subscriber::<E>(start_offset, file_of(messages));
    let second = consumed(first);
    assert(second.output =~= seq![CONSUMER]);
    assert(messages.take(0) =~= Seq::empty());
    assert(file_of(messages).skip(0) =~= file_of(messages));
    assert(consumed(second) =~= consumed_up_to::<E>(start_offset, messages, 0));
}

/// A consumer client up to message `k`.
proof fn lemma_receive<E>(start_offset: u64, messages: Seq<Seq<u8>>, k: int)
    requires
        0 <= k <= messages.len(),
        all_fit(messages),
    ensures
        consuming_after(subscriber::<E>(start_offset, file_of(messages)), (2 + 2 * k) as nat)
            == consumed_up_to::<E>(start_offset, messages, k),
    decreases k,
{
    let first = subscriber::<E>(start_offset, file_of(messages));
    if k == 0 {
        lemma_subscriber_greets::<E>(start_offset, messages);
        assert(consuming_after(first, 0) == first);
        assert(consuming_after(first, 1) == consumed(consuming_after(first, 0)));
        assert(consuming_after(first, 2) == consumed(consuming_after(first, 1)));
    } else {
        lemma_receive::<E>(start_offset, messages, k - 1);
        lemma_receive_one::<E>(start_offset, messages, k - 1);
        let n = (2 + 2 * (k - 1)) as nat;
        assert(consuming_after(first, n + 1) == consumed(consuming_after(first, n)));
        assert(consuming_after(first, n + 2) == consumed(consuming_after(first, n + 1)));
    }
}

/// A consumer client that gets frames sends the consumer handshake and its starting offset,
/// takes the messages out of the frames one by one, and ends when the broker closes the
/// connection.
pub proof fn consumer_client_receives<E>(start_offset: u64, messages: Seq<Seq<u8>>)
    requires
        all_fit(messages),
    ensures
        ({
            let last = consuming_after(
                subscriber::<E>(start_offset, file_of(messages)),
                (3 + 2 * messages.len()) as nat,
            );
            &&& last.output == seq![CONSUMER] + be_bytes(start_offset as nat, 8)
            &&& last.messages == messages
            &&& last.action == ClientActionView::<E>::Close(ClientEnding::StreamEnded)
        }),
{
    reveal(consumed);
    let first = subscriber::<E>(start_offset, file_of(messages));
    let k = messages.len() as int;
    lemma_receive::<E>(start_offset, messages, k);
    history_ends::<E>(messages);
    assert(messages.take(k) =~= messages);
    assert(file_of(messages).skip(file_of(messages).len() as int) =~= Seq::empty());
    let n = (2 + 2 * k) as nat;
    assert(consuming_after(first, n + 1) == consumed(consuming_after(first, n)));
}

/// Messages arrive as they were published: when a producer client publishes messages to a
/// broker, and a consumer client asks for them from the offset on that was acknowledged for
/// the first, the consumer client gets exactly these messages, in order.
pub proof fn messages_arrive<E>(earlier: Seq<Seq<u8>>, messages: Seq<Seq<u8>>, tail: u64)
    requires
        messages.len() > 0,
        storable(earlier + messages),
        file_of(earlier + messages).len() <= u64::MAX,
        tail <= file_of(earlier).len(),
    ensures
        ({
            let base = file_of(earlier).len();
            // The producer client and its session at the broker, each fed by the other.
            let producer = publishing_after(
                publisher::<E>(messages, acks(base, messages)),
                (2 + 3 * messages.len()) as nat,
            );
            let producer_session = after(
                connect::<E>(producer.output, file_of(earlier), tail),
                (2 + 4 * messages.len()) as nat,
            );
            // The consumer's session at the broker, and the consumer client that it feeds.
            let start_offset = producer.offsets[0];
            let consumer_session = after(
                connect::<E>(
                    seq![CONSUMER] + be_bytes(start_offset as nat, 8),
                    producer_session.file,
                    producer_session.tail,
                ),
                (3 + 2 * messages.len()) as nat,
            );
            let consumer = consuming_after(
                subscriber::<E>(start_offset, consumer_session.output),
                (3 + 2 * messages.len()) as nat,
            );
            &&& producer_session.output == acks(base, messages)
            &&& consumer.output == seq![CONSUMER] + be_bytes(start_offset as nat, 8)
            &&& consumer.messages == messages
        }),
{
    let base = file_of(earlier).len();
    let all = earlier + messages;
    lemma_file_of_concat(earlier, messages);
    assert forall|i: int| 0 <= i < messages.len() implies frameable(
        (#[trigger] messages[i]).len(),
    ) by {
        assert(messages[i] == all[earlier.len() + i]);
    }
    producer_client_publishes::<E>(base, messages);
    producer_is_served::<E>(messages, file_of(earlier), tail);
    assert(messages.take(0) =~= Seq::empty());
    assert(offset_of(messages, 0) == 0);
    consumer_gets_what_producer_sent::<E>(earlier, messages, tail);
    consumer_client_receives::<E>(base as u64, messages);
}

} // verus!
