//! Moving a whole buffer through a socket that moves only a part at a time.
//!
//! A transfer is a chain of steps. Each `Pending` step names the part of the
//! buffer that the socket is to work on next; the outcome of that operation,
//! together with the buffer, leads to the next step.

use crate::error::{Error, IoFailure};
use vstd::prelude::*;

verus! {

/// Where a transfer stands.
#[derive(Debug)]
pub enum Transfer<E> {
    /// The socket is to work on `buf[done..len]`.
    Pending { buf: Vec<u8>, done: usize, len: usize },
    /// All bytes have been moved.
    Complete(Vec<u8>),
    /// The transfer has failed.
    Failed(Error<E>),
}

/// The mathematical view of a transfer.
#[verifier::ext_equal]
pub enum TransferView<E> {
    Pending { buf: Seq<u8>, done: nat, len: nat },
    Complete(Seq<u8>),
    Failed(Error<E>),
}

impl<E> View for Transfer<E> {
    type V = TransferView<E>;

    open spec fn view(&self) -> TransferView<E> {
        match *self {
            Transfer::Pending { buf, done, len } => TransferView::Pending {
                buf: buf@,
                done: done as nat,
                len: len as nat,
            },
            Transfer::Complete(buf) => TransferView::Complete(buf@),
            Transfer::Failed(e) => TransferView::Failed(e),
        }
    }
}

/// A transfer of `len` bytes of which `done` have been moved without failure.
pub open spec fn underway<E>(buf: Seq<u8>, done: nat, len: nat) -> TransferView<E> {
    if done < len {
        TransferView::Pending { buf, done, len }
    } else {
        TransferView::Complete(buf)
    }
}

/// The step that follows when an operation on `buf[done..len]` has ended in
/// `outcome`, and moving nothing counts as the failure `stuck`.
pub open spec fn moved<E>(
    buf: Seq<u8>,
    done: nat,
    len: nat,
    outcome: Result<usize, IoFailure<E>>,
    stuck: Error<E>,
) -> TransferView<E> {
    match outcome {
        Err(failure) => TransferView::Failed(Error::Io(failure)),
        Ok(n) => if n == 0 {
            TransferView::Failed(stuck)
        } else {
            underway(buf, done + n as nat, len)
        },
    }
}

/// Starts to fill the first `len` bytes of `buf` from a socket.
pub fn read_exact<E>(buf: Vec<u8>, len: usize) -> (step: Transfer<E>)
    ensures
        step@ == underway::<E>(buf@, 0, len as nat),
{
    if 0 < len {
        Transfer::Pending { buf, done: 0, len }
    } else {
        Transfer::Complete(buf)
    }
}

/// Goes on after the socket has read into `buf[done..len]` with this outcome.
pub fn read_exact_resume<E>(
    buf: Vec<u8>,
    done: usize,
    len: usize,
    outcome: Result<usize, IoFailure<E>>,
) -> (step: Transfer<E>)
    requires
        outcome matches Ok(n) ==> done + n <= usize::MAX,
    ensures
        step@ == moved(buf@, done as nat, len as nat, outcome, Error::PeerClosed),
{
    match outcome {
        Err(failure) => Transfer::Failed(Error::Io(failure)),
        Ok(n) => {
            if n == 0 {
                return Transfer::Failed(Error::PeerClosed);
            }
            let total_read: usize = done + n;
            if total_read < len {
                Transfer::Pending { buf, done: total_read, len }
            } else {
                Transfer::Complete(buf)
            }
        },
    }
}

/// Starts to send all of `buf` to a socket.
pub fn write_all<E>(buf: Vec<u8>) -> (step: Transfer<E>)
    ensures
        step@ == underway::<E>(buf@, 0, buf@.len()),
{
    let len: usize = buf.len();
    if 0 < len {
        Transfer::Pending { buf, done: 0, len }
    } else {
        Transfer::Complete(buf)
    }
}

/// Goes on after the socket has taken bytes of `buf[done..len]` with this outcome.
pub fn write_all_resume<E>(
    buf: Vec<u8>,
    done: usize,
    len: usize,
    outcome: Result<usize, IoFailure<E>>,
) -> (step: Transfer<E>)
    requires
        outcome matches Ok(n) ==> done + n <= usize::MAX,
    ensures
        step@ == moved(buf@, done as nat, len as nat, outcome, Error::SocketStalled),
{
    match outcome {
        Err(failure) => Transfer::Failed(Error::Io(failure)),
        Ok(n) => {
            if n == 0 {
                return Transfer::Failed(Error::SocketStalled);
            }
            let total_written: usize = done + n;
            if total_written < len {
                Transfer::Pending { buf, done: total_written, len }
            } else {
                Transfer::Complete(buf)
            }
        },
    }
}

/// `buf` with `chunk` copied over it from position `at` on.
pub open spec fn overwrite(buf: Seq<u8>, at: nat, chunk: Seq<u8>) -> Seq<u8> {
    buf.take(at as int) + chunk + buf.skip((at + chunk.len()) as int)
}

/// The pieces one after the other.
pub open spec fn joined(pieces: Seq<Seq<u8>>) -> Seq<u8>
    decreases pieces.len(),
{
    if pieces.len() == 0 {
        Seq::empty()
    } else {
        joined(pieces.drop_last()) + pieces.last()
    }
}

/// Where a reading transfer stands after the socket has delivered the chunks, each
/// of them copied into the part of the buffer that was pending at the time.
pub open spec fn delivered<E>(buf: Seq<u8>, len: nat, chunks: Seq<Seq<u8>>) -> TransferView<E>
    decreases chunks.len(),
{
    if chunks.len() == 0 {
        underway(buf, 0, len)
    } else {
        match delivered::<E>(buf, len, chunks.drop_last()) {
            TransferView::Pending { buf: b, done, len: l } => moved(
                overwrite(b, done, chunks.last()),
                done,
                l,
                Ok(chunks.last().len() as usize),
                Error::PeerClosed,
            ),
            other => other,
        }
    }
}

/// Where a sending transfer stands after the socket has taken bytes in portions of
/// these sizes, and what it has taken.
pub open spec fn taken<E>(buf: Seq<u8>, counts: Seq<nat>) -> (TransferView<E>, Seq<u8>)
    decreases counts.len(),
{
    if counts.len() == 0 {
        (underway(buf, 0, buf.len()), Seq::empty())
    } else {
        let (step, sent) = taken::<E>(buf, counts.drop_last());
        match step {
            TransferView::Pending { buf: b, done, len } => (
                moved(b, done, len, Ok(counts.last() as usize), Error::SocketStalled),
                sent + b.subrange(done as int, (done + counts.last()) as int),
            ),
            other => (other, sent),
        }
    }
}

/// The sum of the numbers.
pub open spec fn total(counts: Seq<nat>) -> nat
    decreases counts.len(),
{
    if counts.len() == 0 {
        0
    } else {
        total(counts.drop_last()) + counts.last()
    }
}

/// However the peer's bytes are cut into chunks, a reading transfer that gets as
/// many as it asked for completes with exactly these bytes, in order, at the front
/// of its buffer; with fewer it is still pending, right behind them.
pub proof fn read_exact_gathers<E>(buf: Seq<u8>, len: nat, chunks: Seq<Seq<u8>>)
    requires
        len <= buf.len() <= usize::MAX,
        forall|i: int| 0 <= i < chunks.len() ==> (#[trigger] chunks[i]).len() > 0,
        joined(chunks).len() <= len,
    ensures
        delivered::<E>(buf, len, chunks) == underway::<E>(
            overwrite(buf, 0, joined(chunks)),
            joined(chunks).len(),
            len,
        ),
        joined(chunks).len() == len ==> delivered::<E>(buf, len, chunks) == TransferView::<
            E,
        >::Complete(joined(chunks) + buf.skip(len as int)),
    decreases chunks.len(),
{
    if chunks.len() == 0 {
        assert(overwrite(buf, 0, joined(chunks)) =~= buf);
    } else {
        let before = chunks.drop_last();
        let last = chunks.last();
        assert(last.len() > 0);
        assert forall|i: int| 0 <= i < before.len() implies (#[trigger] before[i]).len() > 0 by {
            assert(before[i] == chunks[i]);
        }
        read_exact_gathers::<E>(buf, len, before);
        let b = overwrite(buf, 0, joined(before));
        assert(overwrite(b, joined(before).len(), last) =~= overwrite(buf, 0, joined(chunks)));
    }
    assert(overwrite(buf, 0, joined(chunks)) =~= joined(chunks) + buf.skip(
        joined(chunks).len() as int,
    ));
}

/// A peer that closes before all bytes have come makes the transfer fail as a closed
/// connection, whatever has come before.
pub proof fn read_exact_notices_close<E>(buf: Seq<u8>, len: nat, chunks: Seq<Seq<u8>>)
    requires
        len <= buf.len() <= usize::MAX,
        forall|i: int| 0 <= i < chunks.len() ==> (#[trigger] chunks[i]).len() > 0,
        joined(chunks).len() < len,
    ensures
        delivered::<E>(buf, len, chunks.push(Seq::empty())) == TransferView::<E>::Failed(
            Error::PeerClosed,
        ),
{
    read_exact_gathers::<E>(buf, len, chunks);
    assert(chunks.push(Seq::empty()).drop_last() =~= chunks);
}

/// However small the portions in which the socket takes the bytes, it is handed every
/// byte of the buffer once and in order: what it has taken is always a prefix of the
/// buffer, and the transfer completes when that prefix is all of it.
pub proof fn write_all_sends_in_order<E>(buf: Seq<u8>, counts: Seq<nat>)
    requires
        buf.len() <= usize::MAX,
        forall|i: int| 0 <= i < counts.len() ==> #[trigger] counts[i] > 0,
        total(counts) <= buf.len(),
    ensures
        taken::<E>(buf, counts) == (
            underway::<E>(buf, total(counts), buf.len()),
            buf.take(total(counts) as int),
        ),
        total(counts) == buf.len() ==> taken::<E>(buf, counts) == (
            TransferView::<E>::Complete(buf),
            buf,
        ),
    decreases counts.len(),
{
    if counts.len() > 0 {
        let before = counts.drop_last();
        assert(counts.last() > 0);
        assert forall|i: int| 0 <= i < before.len() implies #[trigger] before[i] > 0 by {
            assert(before[i] == counts[i]);
        }
        write_all_sends_in_order::<E>(buf, before);
        assert(buf.take(total(before) as int) + buf.subrange(
            total(before) as int,
            total(counts) as int,
        ) =~= buf.take(total(counts) as int));
    } else {
        assert(buf.take(0) =~= Seq::empty());
    }
    assert(buf.take(buf.len() as int) =~= buf);
}

/// A transfer that has moved bytes goes on right behind them, or is complete when none are
/// left; one that has moved nothing is stuck; and a failed operation fails it with its own
/// failure. The buffer goes along untouched.
pub proof fn transfer_goes_on<E>(
    buf: Seq<u8>,
    done: nat,
    len: nat,
    n: usize,
    failure: IoFailure<E>,
    stuck: Error<E>,
)
    ensures
        0 < n && done + n < len ==> moved(buf, done, len, Ok(n), stuck)
            == (TransferView::<E>::Pending { buf, done: done + n as nat, len }),
        0 < n && done + n >= len ==> moved(buf, done, len, Ok(n), stuck) == TransferView::<
            E,
        >::Complete(buf),
        moved(buf, done, len, Ok(0), stuck) == TransferView::<E>::Failed(stuck),
        moved(buf, done, len, Err(failure), stuck) == TransferView::<E>::Failed(Error::Io(failure)),
        0 < len ==> underway::<E>(buf, 0, len) == (TransferView::<E>::Pending { buf, done: 0, len }),
        underway::<E>(buf, 0, 0) == TransferView::<E>::Complete(buf),
{
}

/// The view of a transfer keeps all of it.
pub proof fn transfer_is_seen<E>(buf: Vec<u8>, done: usize, len: usize, e: Error<E>)
    ensures
        (Transfer::<E>::Pending { buf, done, len })@ == (TransferView::<E>::Pending {
            buf: buf@,
            done: done as nat,
            len: len as nat,
        }),
        Transfer::<E>::Complete(buf)@ == TransferView::<E>::Complete(buf@),
        Transfer::<E>::Failed(e)@ == TransferView::<E>::Failed(e),
{
}

} // verus!
