//! The byte formats that the broker shares with its clients and with its log
//! file: big-endian integers and length-prefixed frames.

use vstd::arithmetic::div_mod::lemma_div_denominator;
use vstd::arithmetic::power::{lemma_pow0, lemma_pow_positive, pow};
use vstd::prelude::*;

verus! {

/// The byte with which a client announces itself as a producer.
pub const PRODUCER: u8 = 0x01;

/// The byte with which a client announces itself as a consumer.
pub const CONSUMER: u8 = 0x02;

/// The number of bytes in a length prefix.
pub const PREFIX_LEN: usize = 4;

/// The number of bytes in an encoded log offset.
pub const OFFSET_LEN: usize = 8;

/// The last `width` base-256 digits of `value`, most significant first.
pub open spec fn be_bytes(value: nat, width: nat) -> Seq<u8>
    decreases width,
{
    if width == 0 {
        Seq::empty()
    } else {
        be_bytes(value / 256, (width - 1) as nat).push((value % 256) as u8)
    }
}

/// The number whose base-256 digits, most significant first, are `bytes`.
pub open spec fn be_value(bytes: Seq<u8>) -> nat
    decreases bytes.len(),
{
    if bytes.len() == 0 {
        0
    } else {
        be_value(bytes.drop_last()) * 256 + bytes.last() as nat
    }
}

/// 256 to the power `width`: how many values `width` bytes can tell apart.
pub open spec fn span(width: nat) -> nat
    decreases width,
{
    if width == 0 {
        1
    } else {
        span((width - 1) as nat) * 256
    }
}

/// Whether a message can be framed: its length fits in a length prefix, and the frame
/// in memory.
pub open spec fn frameable(len: nat) -> bool {
    len <= u32::MAX && 4 + len <= isize::MAX
}

/// A frameable message as it stands on the wire and in the log: its length in four
/// big-endian bytes, then the message itself.
pub open spec fn frame(payload: Seq<u8>) -> Seq<u8>
    recommends
        payload.len() <= u32::MAX,
{
    be_bytes(payload.len(), 4) + payload
}

/// The spans of the two widths in use.
pub proof fn lemma_span_values()
    ensures
        span(4) == 0x1_0000_0000,
        span(8) == 0x1_0000_0000_0000_0000,
{
    reveal_with_fuel(span, 9);
}

/// An encoding has the width that was asked for.
pub proof fn lemma_be_bytes_len(value: nat, width: nat)
    ensures
        be_bytes(value, width).len() == width,
    decreases width,
{
    if width > 0 {
        lemma_be_bytes_len(value / 256, (width - 1) as nat);
    }
}

/// What `n` bytes decode to is below the span of `n`.
pub proof fn lemma_be_value_bound(bytes: Seq<u8>)
    ensures
        be_value(bytes) < span(bytes.len()),
    decreases bytes.len(),
{
    if bytes.len() > 0 {
        lemma_be_value_bound(bytes.drop_last());
    }
}

/// Decoding an encoded value gives the value back, as long as it fits in the width.
pub proof fn be_value_of_be_bytes(value: nat, width: nat)
    requires
        value < span(width),
    ensures
        be_value(be_bytes(value, width)) == value,
    decreases width,
{
    if width > 0 {
        be_value_of_be_bytes(value / 256, (width - 1) as nat);
        let bytes = be_bytes(value, width);
        assert(bytes.drop_last() =~= be_bytes(value / 256, (width - 1) as nat));
    }
}

/// Encoding a decoded value gives the bytes back.
pub proof fn be_bytes_of_be_value(bytes: Seq<u8>)
    ensures
        be_bytes(be_value(bytes), bytes.len()) == bytes,
    decreases bytes.len(),
{
    if bytes.len() > 0 {
        be_bytes_of_be_value(bytes.drop_last());
        assert(bytes.drop_last().push(bytes.last()) =~= bytes);
    } else {
        assert(bytes =~= Seq::empty());
    }
}

/// The `width` big-endian bytes of `value`.
fn be_encode(value: u64, width: usize) -> (bytes: Vec<u8>)
    ensures
        bytes@ == be_bytes(value as nat, width as nat),
{
    let mut bytes: Vec<u8> = vec![0u8; width];
    let mut rest: u64 = value;
    let mut i: usize = width;
    proof {
        lemma_be_bytes_len(value as nat, width as nat);
        assert(bytes@.subrange(width as int, width as int) =~= Seq::empty());
        assert(be_bytes(rest as nat, i as nat) + bytes@.subrange(i as int, width as int)
            =~= be_bytes(value as nat, width as nat));
    }
    while i > 0
        invariant
            i <= width,
            bytes@.len() == width,
            be_bytes(rest as nat, i as nat) + bytes@.subrange(i as int, width as int) == be_bytes(
                value as nat,
                width as nat,
            ),
        decreases i,
    {
        let ghost before = bytes@;
        i = i - 1;
        bytes[i] = (rest % 256) as u8;
        proof {
            lemma_be_bytes_len((rest / 256) as nat, i as nat);
            assert(be_bytes((rest / 256) as nat, i as nat) + bytes@.subrange(i as int, width as int)
                =~= be_bytes(rest as nat, (i + 1) as nat) + before.subrange(
                i + 1,
                width as int,
            ));
        }
        rest = rest / 256;
    }
    assert(be_bytes(rest as nat, 0) + bytes@.subrange(0, width as int) =~= bytes@);
    bytes
}

/// The value of at most eight big-endian bytes.
fn be_decode(bytes: &Vec<u8>, width: usize) -> (value: u64)
    requires
        width <= bytes@.len(),
        width <= 8,
    ensures
        value == be_value(bytes@.take(width as int)),
        value < span(width as nat),
{
    let mut value: u64 = 0;
    let mut i: usize = 0;
    assert(bytes@.take(0) =~= Seq::empty());
    while i < width
        invariant
            i <= width,
            width <= bytes@.len(),
            width <= 8,
            value == be_value(bytes@.take(i as int)),
        decreases width - i,
    {
        proof {
            assert(bytes@.take(i + 1).drop_last() =~= bytes@.take(i as int));
            lemma_be_value_bound(bytes@.take(i + 1));
            lemma_span_mono((i + 1) as nat, 8);
            lemma_span_values();
        }
        value = value * 256 + bytes[i] as u64;
        i = i + 1;
    }
    proof {
        lemma_be_value_bound(bytes@.take(width as int));
    }
    value
}

proof fn lemma_span_mono(a: nat, b: nat)
    requires
        a <= b,
    ensures
        span(a) <= span(b),
    decreases b - a,
{
    if a < b {
        lemma_span_mono(a, (b - 1) as nat);
    }
}

/// The message length that a four-byte prefix announces.
pub fn decode_length(prefix: &Vec<u8>) -> (len: usize)
    requires
        prefix@.len() >= PREFIX_LEN,
    ensures
        len == be_value(prefix@.take(4)),
        len == prefix@[0] * 0x100_0000 + prefix@[1] * 0x1_0000 + prefix@[2] * 0x100 + prefix@[3],
        len < 0x1_0000_0000,
{
    let value = be_decode(prefix, PREFIX_LEN);
    proof {
        lemma_span_values();
        four_bytes_stand_for(prefix@.take(4));
    }
    value as usize
}

/// The log offset that eight bytes announce.
pub fn decode_offset(bytes: &Vec<u8>) -> (offset: u64)
    requires
        bytes@.len() >= OFFSET_LEN,
    ensures
        offset == be_value(bytes@.take(8)),
        offset == bytes@[0] * 0x100_0000_0000_0000 + bytes@[1] * 0x1_0000_0000_0000 + bytes@[2]
            * 0x100_0000_0000 + bytes@[3] * 0x1_0000_0000 + bytes@[4] * 0x100_0000 + bytes@[5]
            * 0x1_0000 + bytes@[6] * 0x100 + bytes@[7],
{
    proof {
        eight_bytes_stand_for(bytes@.take(8));
    }
    be_decode(bytes, OFFSET_LEN)
}

/// The eight bytes that announce a log offset.
pub fn encode_offset(offset: u64) -> (bytes: Vec<u8>)
    ensures
        bytes@ == be_bytes(offset as nat, 8),
        bytes@.len() == 8,
        forall|i: int|
            0 <= i < 8 ==> #[trigger] bytes@[i] == (offset as int / pow(256, (7 - i) as nat)) % 256,
{
    proof {
        assert forall|i: int| 0 <= i < 8 implies #[trigger] be_bytes(offset as nat, 8)[i] == (
        offset as int / pow(256, (7 - i) as nat)) % 256 by {
            be_bytes_are_positional(offset as nat, 8, i);
        }
        lemma_be_bytes_len(offset as nat, 8);
    }
    be_encode(offset, OFFSET_LEN)
}

/// A message with its length prefix in front, in one contiguous buffer.
pub fn encode_frame(payload: Vec<u8>) -> (buf: Vec<u8>)
    requires
        frameable(payload@.len()),
    ensures
        buf@ == frame(payload@),
        buf@.len() == 4 + payload@.len(),
        buf@[0] * 0x100_0000 + buf@[1] * 0x1_0000 + buf@[2] * 0x100 + buf@[3] == payload@.len(),
        buf@.skip(4) == payload@,
{
    proof {
        frame_layout(payload@);
    }
    let mut message = payload;
    let len: u64 = message.len() as u64;
    let mut prefix = be_encode(len, PREFIX_LEN);
    let mut buf: Vec<u8> = Vec::with_capacity(PREFIX_LEN + message.len());
    buf.append(&mut prefix);
    buf.append(&mut message);
    assert(buf@ =~= frame(payload@));
    buf
}

/// Bytes are positional, most significant first: each is the digit of the value that belongs
/// to its place.
pub proof fn be_bytes_are_positional(value: nat, width: nat, i: int)
    requires
        0 <= i < width,
    ensures
        be_bytes(value, width).len() == width,
        be_bytes(value, width)[i] == (value as int / pow(256, (width - 1 - i) as nat)) % 256,
    decreases width,
{
    lemma_be_bytes_len(value, width);
    lemma_be_bytes_len(value / 256, (width - 1) as nat);
    if i == width - 1 {
        lemma_pow0(256);
    } else {
        let k = (width - 2 - i) as nat;
        be_bytes_are_positional(value / 256, (width - 1) as nat, i);
        lemma_pow_positive(256, k);
        lemma_div_denominator(value as int, 256, pow(256, k));
        assert(pow(256, k + 1) == 256 * pow(256, k)) by {
            reveal(pow);
        }
    }
}

/// What bytes stand for is positional, most significant first: the first byte counts as many
/// times as the bytes behind it can tell values apart.
pub proof fn be_value_is_positional(bytes: Seq<u8>)
    requires
        bytes.len() > 0,
    ensures
        be_value(bytes) == bytes.first() * pow(256, (bytes.len() - 1) as nat) + be_value(
            bytes.drop_first(),
        ),
        be_value(Seq::empty()) == 0,
    decreases bytes.len(),
{
    if bytes.len() == 1 {
        lemma_pow0(256);
        assert(bytes.drop_last() =~= Seq::empty());
        assert(bytes.drop_first() =~= Seq::empty());
    } else {
        let k = (bytes.len() - 2) as nat;
        let front = bytes.drop_last();
        be_value_is_positional(front);
        assert(front.drop_first() =~= bytes.drop_first().drop_last());
        assert(pow(256, k + 1) == 256 * pow(256, k)) by {
            reveal(pow);
        }
        assert(bytes.first() * pow(256, k) * 256 == bytes.first() * pow(256, k + 1))
            by (nonlinear_arith)
            requires
                pow(256, k + 1) == 256 * pow(256, k),
        ;
    }
}

/// The number that four bytes stand for.
pub proof fn four_bytes_stand_for(bytes: Seq<u8>)
    requires
        bytes.len() == 4,
    ensures
        be_value(bytes) == bytes[0] * 0x100_0000 + bytes[1] * 0x1_0000 + bytes[2] * 0x100
            + bytes[3],
{
    reveal_with_fuel(be_value, 5);
}

/// The number that eight bytes stand for.
pub proof fn eight_bytes_stand_for(bytes: Seq<u8>)
    requires
        bytes.len() == 8,
    ensures
        be_value(bytes) == bytes[0] * 0x100_0000_0000_0000 + bytes[1] * 0x1_0000_0000_0000
            + bytes[2] * 0x100_0000_0000 + bytes[3] * 0x1_0000_0000 + bytes[4] * 0x100_0000
            + bytes[5] * 0x1_0000 + bytes[6] * 0x100 + bytes[7],
{
    reveal_with_fuel(be_value, 9);
}

/// A frame is four bytes that, read as a number, are the length of the message, and then the
/// message, byte for byte.
pub proof fn frame_layout(payload: Seq<u8>)
    requires
        payload.len() <= u32::MAX,
    ensures
        ({
            let bytes = frame(payload);
            &&& bytes.len() == 4 + payload.len()
            &&& bytes[0] * 0x100_0000 + bytes[1] * 0x1_0000 + bytes[2] * 0x100 + bytes[3]
                == payload.len()
            &&& bytes.skip(4) == payload
        }),
{
    let prefix = be_bytes(payload.len(), 4);
    lemma_be_bytes_len(payload.len(), 4);
    lemma_span_values();
    be_value_of_be_bytes(payload.len(), 4);
    four_bytes_stand_for(prefix);
    assert(frame(payload).skip(4) =~= payload);
}

/// Two messages have the same frame only if they are the same message.
pub proof fn frames_tell_messages_apart(one: Seq<u8>, other: Seq<u8>)
    requires
        one.len() <= u32::MAX,
        other.len() <= u32::MAX,
        frame(one) == frame(other),
    ensures
        one == other,
{
    frame_layout(one);
    frame_layout(other);
}

/// A message can be framed exactly if its length fits in 32 bits and its frame in memory.
pub proof fn frameable_lengths(len: nat)
    ensures
        frameable(len) <==> len <= 0xffff_ffff && len + 4 <= isize::MAX,
{
}

} // verus!
