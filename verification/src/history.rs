//! What the log file holds over time: how appends change it, and what reads find in
//! it. These are the promises of the commit log as a whole.

use crate::error::Error;
use crate::log::{
    after_append, after_payload, after_prefix, recovered_offset, zeros, LogReadView, PrefixReadView,
};
use crate::wire::{
    be_bytes, be_value, be_value_of_be_bytes, frame, frameable, lemma_be_bytes_len,
    lemma_be_value_bound, lemma_span_values,
};
use vstd::prelude::*;

verus! {

/// The file after `buf` has been written whole at `offset`, inside or right at the end
/// of what it holds.
pub open spec fn written(file: Seq<u8>, offset: nat, buf: Seq<u8>) -> Seq<u8> {
    file.take(offset as int) + buf + (if offset + buf.len() < file.len() {
        file.skip((offset + buf.len()) as int)
    } else {
        Seq::empty()
    })
}

/// How many bytes a read of `len` bytes at `offset` finds in the file.
pub open spec fn found(file: Seq<u8>, offset: nat, len: nat) -> nat {
    if offset >= file.len() {
        0
    } else if offset + len <= file.len() {
        len
    } else {
        (file.len() - offset) as nat
    }
}

/// The buffer after a read at `offset` that has filled it as far as the file reaches.
pub open spec fn filled(file: Seq<u8>, offset: nat, buf: Seq<u8>) -> Seq<u8> {
    Seq::new(
        buf.len(),
        |i: int|
            if offset + i < file.len() {
                file[offset + i]
            } else {
                buf[i]
            },
    )
}

/// What the log reads at `offset` when each of its reads fills the buffer as far as
/// the file reaches.
pub open spec fn reads_at<E>(file: Seq<u8>, offset: nat) -> LogReadView<E> {
    match after_prefix::<E>(
        offset,
        Ok(found(file, offset, 4) as usize),
        filled(file, offset, zeros(4)),
    ) {
        PrefixReadView::End => Ok(None),
        PrefixReadView::Failed(e) => Err(e),
        PrefixReadView::Payload { offset: at, buf } => after_payload(
            offset,
            Ok(found(file, at, buf.len()) as usize),
            filled(file, at, buf),
        ),
    }
}

/// What stands in the file at `offset`: nothing, a cut-off prefix, a cut-off message,
/// or a whole message followed by whatever comes next.
pub open spec fn record_at<E>(file: Seq<u8>, offset: nat) -> LogReadView<E> {
    if offset >= file.len() {
        Ok(None)
    } else if offset + 4 > file.len() {
        Err(Error::ShortPrefix)
    } else {
        let len = be_value(file.subrange(offset as int, (offset + 4) as int));
        if offset + 4 + len > file.len() {
            Err(Error::ShortPayload)
        } else {
            Ok(
                Some(
                    (
                        file.subrange((offset + 4) as int, (offset + 4 + len) as int),
                        offset + 4 + len,
                    ),
                ),
            )
        }
    }
}

/// A log file that holds exactly these messages.
pub open spec fn file_of(messages: Seq<Seq<u8>>) -> Seq<u8>
    decreases messages.len(),
{
    if messages.len() == 0 {
        Seq::empty()
    } else {
        file_of(messages.drop_last()) + frame(messages.last())
    }
}

/// The offset of message number `i`, or of the end of the log behind the last one.
pub open spec fn offset_of(messages: Seq<Seq<u8>>, i: int) -> nat {
    file_of(messages.take(i)).len()
}

/// Every message is short enough for its length to fit in a prefix.
pub open spec fn all_fit(messages: Seq<Seq<u8>>) -> bool {
    forall|i: int| 0 <= i < messages.len() ==> (#[trigger] messages[i]).len() <= u32::MAX
}

/// The size of a frame.
pub proof fn lemma_frame_len(payload: Seq<u8>)
    ensures
        frame(payload).len() == 4 + payload.len(),
{
    lemma_be_bytes_len(payload.len(), 4);
}

/// A read that gets all the bytes there are tells exactly what stands in the file.
pub proof fn read_tells_record<E>(file: Seq<u8>, offset: nat)
    ensures
        reads_at::<E>(file, offset) == record_at::<E>(file, offset),
{
    let len_buf = filled(file, offset, zeros(4));
    if offset + 4 <= file.len() {
        assert(len_buf.take(4) =~= file.subrange(offset as int, (offset + 4) as int));
        let len = be_value(len_buf.take(4));
        if offset + 4 + len <= file.len() {
            assert(filled(file, offset + 4, zeros(len)) =~= file.subrange(
                (offset + 4) as int,
                (offset + 4 + len) as int,
            ));
        }
        lemma_be_value_bound(len_buf.take(4));
        lemma_span_values();
    }
}

/// Where a whole frame stands in the file, its message is found, whatever else the
/// file holds.
pub proof fn frame_is_found<E>(file: Seq<u8>, offset: nat, message: Seq<u8>)
    requires
        message.len() <= u32::MAX,
        offset + frame(message).len() <= file.len(),
        file.subrange(offset as int, (offset + frame(message).len()) as int) == frame(message),
    ensures
        record_at::<E>(file, offset) == Ok::<Option<(Seq<u8>, nat)>, Error<E>>(
            Some((message, offset + frame(message).len())),
        ),
{
    lemma_frame_len(message);
    lemma_be_bytes_len(message.len(), 4);
    lemma_span_values();
    be_value_of_be_bytes(message.len(), 4);
    let part = file.subrange(offset as int, (offset + frame(message).len()) as int);
    assert(file.subrange(offset as int, (offset + 4) as int) =~= part.take(4));
    assert(part.take(4) =~= be_bytes(message.len(), 4));
    assert(file.subrange((offset + 4) as int, (offset + 4 + message.len()) as int) =~= part.skip(4));
    assert(part.skip(4) =~= message);
}

/// A read gives back what an append wrote: once the frame of a message has been
/// written at an offset, a read at that offset gives the message, and the offset right
/// behind it as the next one.
pub proof fn read_returns_append<E>(file: Seq<u8>, write_offset: nat, message: Seq<u8>)
    requires
        write_offset <= file.len(),
        message.len() <= u32::MAX,
    ensures
        reads_at::<E>(written(file, write_offset, frame(message)), write_offset) == Ok::<
            Option<(Seq<u8>, nat)>,
            Error<E>,
        >(Some((message, write_offset + 4 + message.len()))),
{
    let after = written(file, write_offset, frame(message));
    lemma_frame_len(message);
    assert(after.subrange(
        write_offset as int,
        (write_offset + frame(message).len()) as int,
    ) =~= frame(message));
    frame_is_found::<E>(after, write_offset, message);
    read_tells_record::<E>(after, write_offset);
}

/// Writing at the end of the log, be it a whole frame or a part of one, leaves every message
/// before it as it was: whatever a read below the end of the log gave as a message it still
/// gives.
pub proof fn append_keeps_earlier<E>(
    file: Seq<u8>,
    write_offset: nat,
    buf: Seq<u8>,
    offset: nat,
    payload: Seq<u8>,
    next_offset: nat,
)
    requires
        write_offset <= file.len(),
        record_at::<E>(file, offset) == Ok::<Option<(Seq<u8>, nat)>, Error<E>>(
            Some((payload, next_offset)),
        ),
        next_offset <= write_offset,
    ensures
        record_at::<E>(written(file, write_offset, buf), offset) == record_at::<E>(file, offset),
{
    let after = written(file, write_offset, buf);
    assert(after.subrange(offset as int, (offset + 4) as int) =~= file.subrange(
        offset as int,
        (offset + 4) as int,
    ));
    assert(after.subrange((offset + 4) as int, next_offset as int) =~= file.subrange(
        (offset + 4) as int,
        next_offset as int,
    ));
}

/// Appending to a log that holds some messages makes a log that holds these and the
/// new one.
pub proof fn append_extends_history(messages: Seq<Seq<u8>>, message: Seq<u8>)
    ensures
        written(file_of(messages), file_of(messages).len(), frame(message)) == file_of(
            messages.push(message),
        ),
{
    assert(messages.push(message).drop_last() =~= messages);
    assert(written(file_of(messages), file_of(messages).len(), frame(message)) =~= file_of(
        messages,
    ) + frame(message));
}

/// Opening a log again finds its end where the last append left it, as long as every
/// append was written whole: the end of the log is then always the end of its file.
pub proof fn reopening_restores_end<E>(file: Seq<u8>, message: Seq<u8>)
    requires
        frameable(message.len()),
        file.len() + 4 + message.len() <= u64::MAX,
    ensures
        ({
            let end = recovered_offset(Some(file.len() as u64));
            let frame_len = frame(message).len() as usize;
            let grown = written(file, end as nat, frame(message));
            after_append::<E>(end, frame_len, Ok(frame_len)).1 == recovered_offset(
                Some(grown.len() as u64),
            )
        }),
{
    lemma_frame_len(message);
}

/// An append that was cut short does not count: the next append starts at the same
/// offset, and the log then holds the messages from before and the new one, followed
/// at most by remains of the broken frame.
pub proof fn failed_append_is_overwritten(
    messages: Seq<Seq<u8>>,
    remains: Seq<u8>,
    message: Seq<u8>,
)
    ensures
        file_of(messages.push(message)).is_prefix_of(
            written(file_of(messages) + remains, file_of(messages).len(), frame(message)),
        ),
        remains.len() <= frame(message).len() ==> written(
            file_of(messages) + remains,
            file_of(messages).len(),
            frame(message),
        ) == file_of(messages.push(message)),
{
    assert(messages.push(message).drop_last() =~= messages);
    let file = file_of(messages) + remains;
    let after = written(file, file_of(messages).len(), frame(message));
    assert(file.take(file_of(messages).len() as int) =~= file_of(messages));
    if remains.len() <= frame(message).len() {
        assert(after =~= file_of(messages.push(message)));
    }
    assert(file_of(messages.push(message)) =~= after.take(
        file_of(messages.push(message)).len() as int,
    ));
}

/// The first messages of a log take up the front of its file.
pub proof fn lemma_front(messages: Seq<Seq<u8>>, i: int)
    requires
        0 <= i <= messages.len(),
    ensures
        offset_of(messages, i) <= file_of(messages).len(),
        file_of(messages).take(offset_of(messages, i) as int) == file_of(messages.take(i)),
    decreases messages.len() - i,
{
    if i == messages.len() {
        assert(messages.take(i) =~= messages);
        assert(file_of(messages).take(offset_of(messages, i) as int) =~= file_of(messages));
    } else {
        lemma_front(messages, i + 1);
        let front = messages.take(i + 1);
        assert(front.drop_last() =~= messages.take(i));
        assert(file_of(front) == file_of(messages.take(i)) + frame(messages[i]));
        assert(file_of(messages).take(offset_of(messages, i) as int) =~= file_of(messages).take(
            offset_of(messages, i + 1) as int,
        ).take(offset_of(messages, i) as int));
        assert(file_of(front).take(offset_of(messages, i) as int) =~= file_of(messages.take(i)));
    }
}

/// The frame of each message of a log stands in the file at the offset of the message.
pub proof fn lemma_frame_stands(messages: Seq<Seq<u8>>, i: int)
    requires
        0 <= i < messages.len(),
    ensures
        offset_of(messages, i + 1) == offset_of(messages, i) + 4 + messages[i].len(),
        offset_of(messages, i + 1) <= file_of(messages).len(),
        file_of(messages).subrange(
            offset_of(messages, i) as int,
            offset_of(messages, i + 1) as int,
        ) == frame(messages[i]),
{
    lemma_front(messages, i);
    lemma_front(messages, i + 1);
    lemma_frame_len(messages[i]);
    let front = messages.take(i + 1);
    assert(front.drop_last() =~= messages.take(i));
    assert(file_of(front) == file_of(messages.take(i)) + frame(messages[i]));
    let at = offset_of(messages, i) as int;
    assert(file_of(messages).subrange(at, offset_of(messages, i + 1) as int) =~= file_of(
        messages,
    ).take(offset_of(messages, i + 1) as int).skip(at));
    assert(file_of(front).skip(at) =~= frame(messages[i]));
}

/// Reading a log at the offset of any of its messages gives that message, and the
/// offset of the one after it.
pub proof fn history_is_readable<E>(messages: Seq<Seq<u8>>, i: int)
    requires
        0 <= i < messages.len(),
        all_fit(messages),
    ensures
        record_at::<E>(file_of(messages), offset_of(messages, i)) == Ok::<
            Option<(Seq<u8>, nat)>,
            Error<E>,
        >(Some((messages[i], offset_of(messages, i + 1)))),
        offset_of(messages, i + 1) == offset_of(messages, i) + 4 + messages[i].len(),
{
    lemma_frame_stands(messages, i);
    lemma_frame_len(messages[i]);
    frame_is_found::<E>(file_of(messages), offset_of(messages, i), messages[i]);
}

/// The log of two runs of messages is the two logs one after the other.
pub proof fn lemma_file_of_concat(earlier: Seq<Seq<u8>>, later: Seq<Seq<u8>>)
    ensures
        file_of(earlier + later) == file_of(earlier) + file_of(later),
    decreases later.len(),
{
    if later.len() == 0 {
        assert(earlier + later =~= earlier);
        assert(file_of(earlier) + file_of(later) =~= file_of(earlier));
    } else {
        assert((earlier + later).drop_last() =~= earlier + later.drop_last());
        lemma_file_of_concat(earlier, later.drop_last());
        assert(file_of(earlier + later) =~= file_of(earlier) + file_of(later));
    }
}

/// Behind the last message of a log a read finds its end.
pub proof fn history_ends<E>(messages: Seq<Seq<u8>>)
    ensures
        record_at::<E>(file_of(messages), file_of(messages).len()) == Ok::<
            Option<(Seq<u8>, nat)>,
            Error<E>,
        >(None),
        offset_of(messages, messages.len() as int) == file_of(messages).len(),
{
    assert(messages.take(messages.len() as int) =~= messages);
}

} // verus!
