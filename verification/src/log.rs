//! The commit log: an append-only file of frames.
//!
//! The log itself only decides what is to be read or written where, and what the
//! outcome means; the file operations are performed by the caller.

use crate::error::{Error, IoFailure};
use crate::wire::{
    be_value, decode_length, encode_frame, four_bytes_stand_for, frame, frameable, PREFIX_LEN,
};
use vstd::prelude::*;

verus! {

/// The commit log. New messages go to `write_offset`, the end of the log.
#[derive(Debug)]
pub struct UringCommitLog {
    pub write_offset: u64,
}

/// A request to write all of `buf` to the log file at `offset`.
#[derive(Debug)]
pub struct WriteRequest {
    pub offset: u64,
    pub buf: Vec<u8>,
}

/// A request to read from the log file at `offset` into `buf`.
#[derive(Debug)]
pub struct ReadRequest {
    pub offset: u64,
    pub buf: Vec<u8>,
}

/// What follows from reading a length prefix.
#[derive(Debug)]
pub enum PrefixRead<E> {
    /// The log ends here: there is no message yet.
    End,
    /// The message itself is to be read next.
    Payload(ReadRequest),
    /// The log cannot be read here.
    Failed(Error<E>),
}

/// The mathematical view of a `PrefixRead`.
#[verifier::ext_equal]
pub enum PrefixReadView<E> {
    End,
    Payload { offset: nat, buf: Seq<u8> },
    Failed(Error<E>),
}

impl<E> View for PrefixRead<E> {
    type V = PrefixReadView<E>;

    open spec fn view(&self) -> PrefixReadView<E> {
        match *self {
            PrefixRead::End => PrefixReadView::End,
            PrefixRead::Payload(request) => PrefixReadView::Payload {
                offset: request.offset as nat,
                buf: request.buf@,
            },
            PrefixRead::Failed(e) => PrefixReadView::Failed(e),
        }
    }
}

/// What a read of the log gives: a message with the offset of the next one, nothing
/// at the end of the log, or an error.
pub type LogRead<E> = Result<Option<(Vec<u8>, u64)>, Error<E>>;

/// The mathematical view of a `LogRead`.
pub type LogReadView<E> = Result<Option<(Seq<u8>, nat)>, Error<E>>;

/// The mathematical view of a `LogRead`.
pub open spec fn log_read_view<E>(read: LogRead<E>) -> LogReadView<E> {
    match read {
        Ok(Some((payload, next_offset))) => Ok(Some((payload@, next_offset as nat))),
        Ok(None) => Ok(None),
        Err(e) => Err(e),
    }
}

/// A buffer of `len` zero bytes.
pub open spec fn zeros(len: nat) -> Seq<u8> {
    Seq::new(len, |i: int| 0u8)
}

/// What follows when the prefix of the message at `offset` has been read into
/// `len_buf` with this outcome.
pub open spec fn after_prefix<E>(
    offset: nat,
    outcome: Result<usize, IoFailure<E>>,
    len_buf: Seq<u8>,
) -> PrefixReadView<E> {
    match outcome {
        Err(failure) => PrefixReadView::Failed(Error::Io(failure)),
        Ok(n) => if n == 0 {
            PrefixReadView::End
        } else if n < 4 {
            PrefixReadView::Failed(Error::ShortPrefix)
        } else {
            PrefixReadView::Payload { offset: offset + 4, buf: zeros(be_value(len_buf.take(4))) }
        },
    }
}

/// What a read at `offset` gives when the message itself has been read into
/// `payload` with this outcome.
pub open spec fn after_payload<E>(
    offset: nat,
    outcome: Result<usize, IoFailure<E>>,
    payload: Seq<u8>,
) -> LogReadView<E> {
    match outcome {
        Err(failure) => Err(Error::Io(failure)),
        Ok(n) => if n < payload.len() {
            Err(Error::ShortPayload)
        } else {
            Ok(Some((payload, offset + 4 + payload.len())))
        },
    }
}

/// The result of an append at `write_offset` and the end of the log after it, when the
/// frame of `frame_len` bytes has been written with this outcome.
pub open spec fn after_append<E>(
    write_offset: u64,
    frame_len: usize,
    outcome: Result<usize, IoFailure<E>>,
) -> (Result<u64, Error<E>>, nat) {
    match outcome {
        Err(failure) => (Err(Error::Io(failure)), write_offset as nat),
        Ok(n) => if n == frame_len {
            (Ok(write_offset), (write_offset + frame_len) as nat)
        } else {
            (Err(Error::ShortAppend), write_offset as nat)
        },
    }
}

/// The end of the log in a file of this length, if the length is known.
pub open spec fn recovered_offset(file_len: Option<u64>) -> u64 {
    match file_len {
        Some(len) => len,
        None => 0,
    }
}

impl UringCommitLog {
    /// The log in a file of this length; a file whose length is unknown counts as empty.
    pub fn open(file_len: Option<u64>) -> (log: Self)
        ensures
            log.write_offset == recovered_offset(file_len),
    {
        UringCommitLog {
            write_offset: match file_len {
                Some(len) => len,
                None => 0,
            },
        }
    }

    /// Starts to append a message: its frame is to be written at the end of the log.
    pub fn append(&self, message: Vec<u8>) -> (request: WriteRequest)
        requires
            frameable(message@.len()),
        ensures
            request.offset == self.write_offset,
            request.buf@ == frame(message@),
    {
        WriteRequest { offset: self.write_offset, buf: encode_frame(message) }
    }

    /// Ends an append when the frame of `frame_len` bytes has been written with this
    /// outcome. Only a frame that was written whole moves the end of the log; the
    /// result is then the offset of the message.
    pub fn append_written<E>(
        &mut self,
        frame_len: usize,
        outcome: Result<usize, IoFailure<E>>,
    ) -> (result: Result<u64, Error<E>>)
        requires
            outcome == Ok::<usize, IoFailure<E>>(frame_len) ==> old(self).write_offset + frame_len
                <= u64::MAX,
        ensures
            (result, final(self).write_offset as nat) == after_append(
                old(self).write_offset,
                frame_len,
                outcome,
            ),
    {
        let offset: u64 = self.write_offset;
        match outcome {
            Err(failure) => Err(Error::Io(failure)),
            Ok(bytes_written) => {
                if bytes_written != frame_len {
                    return Err(Error::ShortAppend);
                }
                self.write_offset = self.write_offset + bytes_written as u64;
                Ok(offset)
            },
        }
    }

    /// Starts to read the message at `offset`: its length prefix is to be read first.
    pub fn read_at(&self, offset: u64) -> (request: ReadRequest)
        ensures
            request.offset == offset,
            request.buf@ == zeros(4),
    {
        let buf: Vec<u8> = vec![0u8; PREFIX_LEN];
        assert(buf@ =~= zeros(4));
        ReadRequest { offset, buf }
    }

    /// Goes on with a read at `offset` when its length prefix has been read into
    /// `len_buf` with this outcome.
    pub fn read_at_prefix<E>(
        offset: u64,
        outcome: Result<usize, IoFailure<E>>,
        len_buf: &Vec<u8>,
    ) -> (next: PrefixRead<E>)
        requires
            outcome matches Ok(n) ==> n >= 4 ==> {
                &&& len_buf@.len() >= 4
                &&& offset + 4 <= u64::MAX
                &&& be_value(len_buf@.take(4)) <= isize::MAX
            },
        ensures
            next@ == after_prefix(offset as nat, outcome, len_buf@),
    {
        match outcome {
            Err(failure) => PrefixRead::Failed(Error::Io(failure)),
            Ok(bytes_read) => {
                if bytes_read == 0 {
                    return PrefixRead::End;
                }
                if bytes_read < PREFIX_LEN {
                    return PrefixRead::Failed(Error::ShortPrefix);
                }
                let msg_len: usize = decode_length(len_buf);
                let buf: Vec<u8> = vec![0u8; msg_len];
                assert(buf@ =~= zeros(msg_len as nat));
                PrefixRead::Payload(ReadRequest { offset: offset + 4, buf })
            },
        }
    }

    /// Ends a read at `offset` when the message itself has been read into `payload`
    /// with this outcome.
    pub fn read_at_payload<E>(
        offset: u64,
        outcome: Result<usize, IoFailure<E>>,
        payload: Vec<u8>,
    ) -> (read: LogRead<E>)
        requires
            outcome matches Ok(n) ==> n >= payload@.len() ==> offset + 4 + payload@.len()
                <= u64::MAX,
        ensures
            log_read_view(read) == after_payload(offset as nat, outcome, payload@),
    {
        match outcome {
            Err(failure) => Err(Error::Io(failure)),
            Ok(bytes_read) => {
                let msg_len: usize = payload.len();
                if bytes_read < msg_len {
                    return Err(Error::ShortPayload);
                }
                let next_offset: u64 = offset + 4 + msg_len as u64;
                Ok(Some((payload, next_offset)))
            },
        }
    }
}

/// An append counts only if all bytes of its frame were written: then it gives the offset at
/// which the log ended, and the log ends behind the frame. Otherwise the log ends where it
/// did, and the error tells a failed operation from a short one.
pub proof fn append_outcomes<E>(end: u64, frame_len: usize, n: usize, failure: IoFailure<E>)
    ensures
        after_append::<E>(end, frame_len, Ok(frame_len)) == (
            Ok::<u64, Error<E>>(end),
            (end + frame_len) as nat,
        ),
        n != frame_len ==> after_append::<E>(end, frame_len, Ok(n)) == (
            Err::<u64, Error<E>>(Error::ShortAppend),
            end as nat,
        ),
        after_append::<E>(end, frame_len, Err(failure)) == (
            Err::<u64, Error<E>>(Error::Io(failure)),
            end as nat,
        ),
{
}

/// Two appends that succeed one after the other give offsets as far apart as the first frame
/// is long.
pub proof fn appends_follow_each_other<E>(end: u64, first: usize, second: usize)
    requires
        end + first <= u64::MAX,
    ensures
        ({
            let (one, middle) = after_append::<E>(end, first, Ok(first));
            let (two, last) = after_append::<E>(middle as u64, second, Ok(second));
            &&& one is Ok && two is Ok
            &&& two->Ok_0 == one->Ok_0 + first
            &&& last == end + first + second
        }),
{
}

/// Where a prefix has been read whole, as many bytes as it announces are read next, right
/// behind it, into zeroed memory. No byte at all is the end of the log; fewer than four are an
/// error; and so is a failed operation.
pub proof fn prefix_outcomes<E>(offset: nat, n: usize, len_buf: Seq<u8>, failure: IoFailure<E>)
    requires
        len_buf.len() >= 4,
    ensures
        after_prefix::<E>(offset, Ok(0), len_buf) == PrefixReadView::<E>::End,
        0 < n < 4 ==> after_prefix::<E>(offset, Ok(n), len_buf) == PrefixReadView::<E>::Failed(
            Error::ShortPrefix,
        ),
        n >= 4 ==> ({
            let next = after_prefix::<E>(offset, Ok(n), len_buf);
            &&& next is Payload
            &&& next->offset == offset + 4
            &&& next->buf.len() == len_buf[0] * 0x100_0000 + len_buf[1] * 0x1_0000 + len_buf[2]
                * 0x100 + len_buf[3]
            &&& forall|i: int| 0 <= i < next->buf.len() ==> #[trigger] next->buf[i] == 0
        }),
        after_prefix::<E>(offset, Err(failure), len_buf) == PrefixReadView::<E>::Failed(
            Error::Io(failure),
        ),
        zeros(4).len() == 4,
        forall|i: int| 0 <= i < 4 ==> #[trigger] zeros(4)[i] == 0,
{
    four_bytes_stand_for(len_buf.take(4));
}

/// A message that has been read whole is given as it was read, with the offset right behind
/// it; a message that was cut short is an error, and so is a failed operation.
pub proof fn payload_outcomes<E>(offset: nat, n: usize, payload: Seq<u8>, failure: IoFailure<E>)
    ensures
        n >= payload.len() ==> after_payload::<E>(offset, Ok(n), payload) == Ok::<
            Option<(Seq<u8>, nat)>,
            Error<E>,
        >(Some((payload, offset + 4 + payload.len()))),
        n < payload.len() ==> after_payload::<E>(offset, Ok(n), payload) == Err::<
            Option<(Seq<u8>, nat)>,
            Error<E>,
        >(Error::ShortPayload),
        after_payload::<E>(offset, Err(failure), payload) == Err::<
            Option<(Seq<u8>, nat)>,
            Error<E>,
        >(Error::Io(failure)),
{
}

/// A log goes on at the end of its file, and an unknown file is an empty one.
pub proof fn log_goes_on_at_file_end(len: u64)
    ensures
        recovered_offset(Some(len)) == len,
        recovered_offset(None) == 0,
{
}

/// The views of what comes of reading keep all of it.
pub proof fn reads_are_seen<E>(request: ReadRequest, payload: Vec<u8>, next: u64, e: Error<E>)
    ensures
        PrefixRead::<E>::End@ == PrefixReadView::<E>::End,
        PrefixRead::<E>::Payload(request)@ == (PrefixReadView::<E>::Payload {
            offset: request.offset as nat,
            buf: request.buf@,
        }),
        PrefixRead::<E>::Failed(e)@ == PrefixReadView::<E>::Failed(e),
        log_read_view::<E>(Ok(Some((payload, next)))) == Ok::<Option<(Seq<u8>, nat)>, Error<E>>(
            Some((payload@, next as nat)),
        ),
        log_read_view::<E>(Ok(None)) == Ok::<Option<(Seq<u8>, nat)>, Error<E>>(None),
        log_read_view::<E>(Err(e)) == Err::<Option<(Seq<u8>, nat)>, Error<E>>(e),
{
}

} // verus!
