//! The reading half of a framed connection.
//!
//! Bytes from the transport are gathered in a buffer, from which messages are decoded. A read
//! holds the read half of the connection and the buffer until it is done. Decoding, starting and
//! polling a read is the caller's work: the functions here say which of these is next, and take
//! the outcome back.

use crate::buffer::{buffer_bytes, reserve};
use crate::error::{CodecError, IoError};
use crate::poll::Poll;
use bytes::BytesMut;
use vstd::prelude::*;

verus! {

/// Bytes by which buffers grow, and their size to begin with.
pub const READ_BUF_SIZE: usize = 8 * 1024;

/// What is to be done next for the reader. `H` is the read half, `B` a buffer, `M` a message.
#[derive(Debug)]
pub enum ReadAction<H, B, M> {
    /// Decode from [`ZmqFramedRead::decode_buf`], and go on with [`ZmqFramedRead::decoded`].
    Decode,
    /// Start a read that appends to the buffer, poll it, and go on with
    /// [`ZmqFramedRead::read_polled`].
    StartRead(H, B),
    /// Poll the read, and go on with [`ZmqFramedRead::read_polled`].
    PollRead,
    /// The call gives this.
    Return(Poll<Option<Result<M, CodecError>>>),
}

impl<H, M> View for ReadAction<H, BytesMut, M> {
    type V = ReadAction<H, Seq<u8>, M>;

    open spec fn view(&self) -> ReadAction<H, Seq<u8>, M> {
        match *self {
            ReadAction::Decode => ReadAction::Decode,
            ReadAction::StartRead(h, b) => ReadAction::StartRead(h, buffer_bytes(b)),
            ReadAction::PollRead => ReadAction::PollRead,
            ReadAction::Return(p) => ReadAction::Return(p),
        }
    }
}

/// The state of a [`ZmqFramedRead`].
#[verifier::ext_equal]
pub struct ReaderView<H> {
    /// The read half, while no read holds it.
    pub inner: Option<H>,
    /// Bytes received and not yet decoded, while no read holds them.
    pub decode_buf: Seq<u8>,
    /// A read is under way.
    pub read_op: bool,
    /// The peer has closed the connection.
    pub eof: bool,
}

impl<H> ReaderView<H> {
    /// Either the reader has the read half, or the read under way has it.
    pub open spec fn wf(self) -> bool {
        self.inner is Some <==> !self.read_op
    }

    /// The next message is asked for. What has arrived is decoded before more is read.
    pub open spec fn next<M>(self) -> ReadAction<H, Seq<u8>, M> {
        if self.eof {
            ReadAction::Return(Poll::Ready(None))
        } else if self.read_op {
            ReadAction::PollRead
        } else {
            ReadAction::Decode
        }
    }

    /// Decoding gave `result`; `Ok(None)` says that a message needs more bytes.
    pub open spec fn decoded<M>(self, result: Result<Option<M>, CodecError>) -> (
        Self,
        ReadAction<H, Seq<u8>, M>,
    ) {
        match result {
            Ok(Some(item)) => (self, ReadAction::Return(Poll::Ready(Some(Ok(item))))),
            Err(e) => (self, ReadAction::Return(Poll::Ready(Some(Err(e))))),
            Ok(None) => match self.inner {
                None => (self, ReadAction::Return(Poll::Pending)),
                Some(h) => (
                    ReaderView { inner: None, decode_buf: Seq::empty(), read_op: true, ..self },
                    ReadAction::StartRead(h, self.decode_buf),
                ),
            },
        }
    }

    /// A poll of the read gave `outcome`. A read of no bytes says that the connection is closed.
    pub open spec fn read_polled<M>(
        self,
        outcome: Poll<(H, Result<usize, IoError>, Seq<u8>)>,
    ) -> (Self, ReadAction<H, Seq<u8>, M>) {
        match outcome {
            Poll::Pending => (self, ReadAction::Return(Poll::Pending)),
            Poll::Ready((h, result, buf)) => {
                let next = ReaderView { inner: Some(h), decode_buf: buf, read_op: false, ..self };
                match result {
                    Err(e) => (
                        next,
                        ReadAction::Return(Poll::Ready(Some(Err(CodecError::Io(e))))),
                    ),
                    Ok(n) => if n == 0 {
                        (
                            ReaderView { eof: true, ..next },
                            ReadAction::Return(Poll::Ready(None)),
                        )
                    } else {
                        (next, next.next())
                    },
                }
            },
        }
    }
}

/// The outcome of a read, with the bytes of the buffer that it gives back.
pub open spec fn read_outcome<H>(outcome: Poll<(H, Result<usize, IoError>, BytesMut)>) -> Poll<
    (H, Result<usize, IoError>, Seq<u8>),
> {
    match outcome {
        Poll::Pending => Poll::Pending,
        Poll::Ready((h, result, buf)) => Poll::Ready((h, result, buffer_bytes(buf))),
    }
}

/// The reading half of a framed connection; `H` is the read half of the transport.
pub struct ZmqFramedRead<H> {
    inner: Option<H>,
    decode_buf: BytesMut,
    read_op: bool,
    eof: bool,
}

impl<H> View for ZmqFramedRead<H> {
    type V = ReaderView<H>;

    closed spec fn view(&self) -> ReaderView<H> {
        ReaderView {
            inner: self.inner,
            decode_buf: buffer_bytes(self.decode_buf),
            read_op: self.read_op,
            eof: self.eof,
        }
    }
}

impl<H> ZmqFramedRead<H> {
    /// A reader that has not received anything.
    pub fn new(inner: H) -> (r: Self)
        ensures
            r@.wf(),
            r@ == (ReaderView {
                inner: Some(inner),
                decode_buf: Seq::empty(),
                read_op: false,
                eof: false,
            }),
    {
        ZmqFramedRead {
            inner: Some(inner),
            decode_buf: BytesMut::with_capacity(READ_BUF_SIZE),
            read_op: false,
            eof: false,
        }
    }

    /// Says what to do to get the next message.
    pub fn poll_next<M>(&self) -> (r: ReadAction<H, BytesMut, M>)
        ensures
            r@ == self@.next::<M>(),
    {
        if self.eof {
            return ReadAction::Return(Poll::Ready(None));
        }
        if self.read_op {
            ReadAction::PollRead
        } else {
            ReadAction::Decode
        }
    }

    /// The bytes received and not yet decoded; decoding takes from their front.
    pub fn decode_buf(&mut self) -> (r: &mut BytesMut)
        ensures
            buffer_bytes(*r) == old(self)@.decode_buf,
            final(self)@ == (ReaderView { decode_buf: buffer_bytes(*final(r)), ..old(self)@ }),
    {
        &mut self.decode_buf
    }

    /// Takes the outcome of decoding.
    pub fn decoded<M>(&mut self, result: Result<Option<M>, CodecError>) -> (r: ReadAction<
        H,
        BytesMut,
        M,
    >)
        requires
            old(self)@.wf(),
            !old(self)@.read_op,
        ensures
            final(self)@.wf(),
            (final(self)@, r@) == old(self)@.decoded(result),
    {
        match result {
            Ok(Some(item)) => ReadAction::Return(Poll::Ready(Some(Ok(item)))),
            Err(e) => ReadAction::Return(Poll::Ready(Some(Err(e)))),
            Ok(None) => match self.inner.take() {
                None => ReadAction::Return(Poll::Pending),
                Some(half) => {
                    let mut buf = BytesMut::new();
                    std::mem::swap(&mut buf, &mut self.decode_buf);
                    self.read_op = true;
                    ReadAction::StartRead(half, buf)
                },
            },
        }
    }

    /// Takes the outcome of polling the read: the read half, the number of bytes read or the
    /// error, and the buffer to which they were appended.
    pub fn read_polled<M>(&mut self, outcome: Poll<(H, Result<usize, IoError>, BytesMut)>) -> (r:
        ReadAction<H, BytesMut, M>)
        requires
            old(self)@.wf(),
            old(self)@.read_op,
        ensures
            final(self)@.wf(),
            (final(self)@, r@) == old(self)@.read_polled::<M>(read_outcome(outcome)),
    {
        match outcome {
            Poll::Pending => ReadAction::Return(Poll::Pending),
            Poll::Ready((half, result, buf)) => {
                self.read_op = false;
                self.inner = Some(half);
                self.decode_buf = buf;
                match result {
                    Err(e) => ReadAction::Return(Poll::Ready(Some(Err(CodecError::Io(e))))),
                    Ok(n) => {
                        if n == 0 {
                            self.eof = true;
                            ReadAction::Return(Poll::Ready(None))
                        } else {
                            self.poll_next()
                        }
                    },
                }
            },
        }
    }
}

/// The number of bytes by which a buffer with `len` bytes and room for `capacity` must grow
/// before a read appends to it: a full buffer has to, any other need not.
pub fn reserve_for_read(len: usize, capacity: usize) -> (r: usize)
    ensures
        r == if len == capacity {
            READ_BUF_SIZE
        } else {
            0
        },
{
    if len == capacity {
        READ_BUF_SIZE
    } else {
        0
    }
}

/// Where a read may put bytes.
#[derive(Debug)]
pub struct ReadWindow {
    /// The buffer, with room behind its bytes.
    pub buf: BytesMut,
    /// Where the bytes of the buffer end and its room begins.
    pub start: usize,
    /// Where its room ends.
    pub end: usize,
}

/// Makes room in a buffer for a read.
///
/// A full buffer gets room for [`READ_BUF_SIZE`] bytes or more, any other stays as it is. The
/// room ends where the capacity of the buffer ends, and there is always some, so that a read of
/// no bytes means the end of the connection.
pub fn prepare_read(buf: BytesMut) -> (r: ReadWindow)
    requires
        // Only a full buffer has to grow.
        forall|capacity: usize| #[trigger]
            call_ensures(BytesMut::capacity, (&buf,), capacity) && capacity == buffer_bytes(
                buf,
            ).len() ==> 4 * (buffer_bytes(buf).len() + READ_BUF_SIZE) <= isize::MAX,
    ensures
        buffer_bytes(r.buf) == buffer_bytes(buf),
        r.start == buffer_bytes(buf).len(),
        r.start < r.end,
        call_ensures(BytesMut::capacity, (&r.buf,), r.end),
        exists|capacity: usize| #[trigger]
            call_ensures(BytesMut::capacity, (&buf,), capacity) && if capacity == r.start {
                r.end >= r.start + READ_BUF_SIZE
            } else {
                r.buf == buf && r.end == capacity
            },
{
    let mut buf = buf;
    let start: usize = buf.len();
    let mut end: usize = buf.capacity();
    let additional: usize = reserve_for_read(start, end);
    if additional > 0 {
        end = reserve(&mut buf, additional);
    }
    ReadWindow { buf, start, end }
}

} // verus!
