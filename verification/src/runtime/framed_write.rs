//! The writing half of a framed connection.
//!
//! Encoded bytes are gathered in a buffer and handed to the transport as a whole. The transport
//! works on one operation at a time (write, flush or shutdown) and holds the write half of the
//! connection meanwhile. Starting and polling operations is the caller's work: the functions
//! here say which one to start or to poll, and take its outcome back.

use crate::buffer::{buffer_bytes, frozen_bytes};
use crate::error::{CodecError, ErrorKind, IoError};
use crate::poll::Poll;
use crate::runtime::framed_read::READ_BUF_SIZE;
use bytes::{Bytes, BytesMut};
use vstd::prelude::*;

verus! {

/// What the caller wants of the writer.
#[derive(Debug, Clone, Copy, PartialEq, Eq, Structural)]
pub enum Goal {
    /// All bytes handed to the transport.
    Ready,
    /// All bytes handed to the transport, and the transport flushed.
    Flush,
    /// All that, and the transport shut down.
    Close,
}

/// What is to be done next for the writer. `H` is the write half, `B` a run of bytes.
#[derive(Debug)]
pub enum WriteAction<H, B> {
    /// Start writing the bytes, poll that, and go on with [`ZmqFramedWrite::write_polled`].
    StartWrite(H, B),
    /// Poll the write, and go on with [`ZmqFramedWrite::write_polled`].
    PollWrite,
    /// Start a flush, poll it, and go on with [`ZmqFramedWrite::flush_polled`].
    StartFlush(H),
    /// Poll the flush, and go on with [`ZmqFramedWrite::flush_polled`].
    PollFlush,
    /// Start the shutdown, poll it, and go on with [`ZmqFramedWrite::shutdown_polled`].
    StartShutdown(H),
    /// Poll the shutdown, and go on with [`ZmqFramedWrite::shutdown_polled`]. No call asks for
    /// this: closing begins with a flush, for which the write half is needed, and the shutdown
    /// has it. A shutdown that is pending when it is first polled leaves closing pending.
    PollShutdown,
    /// The call gives this.
    Return(Poll<Result<(), CodecError>>),
}

impl<H> View for WriteAction<H, Bytes> {
    type V = WriteAction<H, Seq<u8>>;

    open spec fn view(&self) -> WriteAction<H, Seq<u8>> {
        match *self {
            WriteAction::StartWrite(h, b) => WriteAction::StartWrite(h, frozen_bytes(b)),
            WriteAction::PollWrite => WriteAction::PollWrite,
            WriteAction::StartFlush(h) => WriteAction::StartFlush(h),
            WriteAction::PollFlush => WriteAction::PollFlush,
            WriteAction::StartShutdown(h) => WriteAction::StartShutdown(h),
            WriteAction::PollShutdown => WriteAction::PollShutdown,
            WriteAction::Return(p) => WriteAction::Return(p),
        }
    }
}

/// The state of a [`ZmqFramedWrite`].
#[verifier::ext_equal]
pub struct WriterView<H> {
    /// The write half, while no operation holds it.
    pub inner: Option<H>,
    /// Bytes not yet handed to the transport.
    pub write_buf: Seq<u8>,
    /// A write is under way.
    pub write_op: bool,
    /// A flush is under way.
    pub flush_op: bool,
    /// A shutdown is under way.
    pub close_op: bool,
    /// The transport was shut down.
    pub closed: bool,
}

impl<H> WriterView<H> {
    /// Either the writer has the write half, or exactly one operation has it.
    pub open spec fn wf(self) -> bool {
        match (self.inner is Some, self.write_op, self.flush_op, self.close_op) {
            (true, false, false, false) => true,
            (false, true, false, false) => true,
            (false, false, true, false) => true,
            (false, false, false, true) => true,
            _ => false,
        }
    }

    /// No byte waits, and no write is under way.
    pub open spec fn drained(self) -> bool {
        !self.write_op && self.write_buf.len() == 0
    }

    /// All bytes are to be handed to the transport.
    pub open spec fn drain(self) -> (Self, WriteAction<H, Seq<u8>>) {
        if self.write_op {
            (self, WriteAction::PollWrite)
        } else if self.write_buf.len() == 0 {
            (self, WriteAction::Return(Poll::Ready(Ok(()))))
        } else {
            match self.inner {
                None => (self, WriteAction::Return(Poll::Pending)),
                Some(h) => (
                    WriterView { inner: None, write_buf: Seq::empty(), write_op: true, ..self },
                    WriteAction::StartWrite(h, self.write_buf),
                ),
            }
        }
    }

    /// All bytes are to be handed over, then the transport is to be flushed.
    pub open spec fn flush(self) -> (Self, WriteAction<H, Seq<u8>>) {
        if !self.drained() {
            self.drain()
        } else if self.flush_op {
            (self, WriteAction::PollFlush)
        } else {
            match self.inner {
                None => (self, WriteAction::Return(Poll::Pending)),
                Some(h) => (
                    WriterView { inner: None, flush_op: true, ..self },
                    WriteAction::StartFlush(h),
                ),
            }
        }
    }

    /// The transport is to be shut down behind a flush.
    pub open spec fn close(self) -> (Self, WriteAction<H, Seq<u8>>) {
        if self.closed {
            (self, WriteAction::Return(Poll::Ready(Ok(()))))
        } else {
            self.flush()
        }
    }

    /// The flush is done; the shutdown follows.
    pub open spec fn shutdown(self) -> (Self, WriteAction<H, Seq<u8>>) {
        if self.close_op {
            (self, WriteAction::PollShutdown)
        } else {
            match self.inner {
                None => (self, WriteAction::Return(Poll::Pending)),
                Some(h) => (
                    WriterView { inner: None, close_op: true, ..self },
                    WriteAction::StartShutdown(h),
                ),
            }
        }
    }

    /// A poll of the write gave `outcome`.
    pub open spec fn write_polled(
        self,
        goal: Goal,
        outcome: Poll<(H, Result<usize, IoError>)>,
    ) -> (Self, WriteAction<H, Seq<u8>>) {
        match outcome {
            Poll::Pending => (self, WriteAction::Return(Poll::Pending)),
            Poll::Ready((h, result)) => {
                let next = WriterView { inner: Some(h), write_op: false, ..self };
                match result {
                    Err(e) => (next, WriteAction::Return(Poll::Ready(Err(CodecError::Io(e))))),
                    Ok(_) => match goal {
                        Goal::Ready => next.drain(),
                        _ => next.flush(),
                    },
                }
            },
        }
    }

    /// A poll of the flush gave `outcome`.
    pub open spec fn flush_polled(
        self,
        goal: Goal,
        outcome: Poll<(H, Result<(), IoError>)>,
    ) -> (Self, WriteAction<H, Seq<u8>>) {
        match outcome {
            Poll::Pending => (self, WriteAction::Return(Poll::Pending)),
            Poll::Ready((h, result)) => {
                let next = WriterView { inner: Some(h), flush_op: false, ..self };
                match result {
                    Err(e) => (next, WriteAction::Return(Poll::Ready(Err(CodecError::Io(e))))),
                    Ok(_) => match goal {
                        Goal::Close => next.shutdown(),
                        _ => (next, WriteAction::Return(Poll::Ready(Ok(())))),
                    },
                }
            },
        }
    }

    /// A poll of the shutdown gave `outcome`.
    pub open spec fn shutdown_polled(self, outcome: Poll<(H, Result<(), IoError>)>) -> (
        Self,
        WriteAction<H, Seq<u8>>,
    ) {
        match outcome {
            Poll::Pending => (self, WriteAction::Return(Poll::Pending)),
            Poll::Ready((h, result)) => {
                let next = WriterView { inner: Some(h), close_op: false, ..self };
                match result {
                    Err(e) => (next, WriteAction::Return(Poll::Ready(Err(CodecError::Io(e))))),
                    Ok(_) => (
                        WriterView { closed: true, ..next },
                        WriteAction::Return(Poll::Ready(Ok(()))),
                    ),
                }
            },
        }
    }
}

/// The writing half of a framed connection; `H` is the write half of the transport.
pub struct ZmqFramedWrite<H> {
    inner: Option<H>,
    write_buf: BytesMut,
    write_op: bool,
    flush_op: bool,
    close_op: bool,
    closed: bool,
}

impl<H> View for ZmqFramedWrite<H> {
    type V = WriterView<H>;

    closed spec fn view(&self) -> WriterView<H> {
        WriterView {
            inner: self.inner,
            write_buf: buffer_bytes(self.write_buf),
            write_op: self.write_op,
            flush_op: self.flush_op,
            close_op: self.close_op,
            closed: self.closed,
        }
    }
}

impl<H> ZmqFramedWrite<H> {
    /// A writer without bytes.
    pub fn new(inner: H) -> (r: Self)
        ensures
            r@.wf(),
            r@ == (WriterView {
                inner: Some(inner),
                write_buf: Seq::empty(),
                write_op: false,
                flush_op: false,
                close_op: false,
                closed: false,
            }),
    {
        ZmqFramedWrite {
            inner: Some(inner),
            write_buf: BytesMut::with_capacity(READ_BUF_SIZE),
            write_op: false,
            flush_op: false,
            close_op: false,
            closed: false,
        }
    }

    /// Says what to do so that all bytes are handed to the transport.
    pub fn poll_write_buf(&mut self) -> (r: WriteAction<H, Bytes>)
        requires
            old(self)@.wf(),
        ensures
            final(self)@.wf(),
            (final(self)@, r@) == old(self)@.drain(),
    {
        if self.write_op {
            return WriteAction::PollWrite;
        }
        if self.write_buf.is_empty() {
            return WriteAction::Return(Poll::Ready(Ok(())));
        }
        match self.inner.take() {
            None => WriteAction::Return(Poll::Pending),
            Some(half) => {
                self.write_op = true;
                let chunk = self.write_buf.split().freeze();
                WriteAction::StartWrite(half, chunk)
            },
        }
    }

    /// Says what to do so that all bytes are handed to the transport and the transport is
    /// flushed.
    pub fn poll_flush_inner(&mut self) -> (r: WriteAction<H, Bytes>)
        requires
            old(self)@.wf(),
        ensures
            final(self)@.wf(),
            (final(self)@, r@) == old(self)@.flush(),
    {
        match self.poll_write_buf() {
            WriteAction::Return(Poll::Ready(Ok(_))) => {},
            action => return action,
        }
        if self.flush_op {
            return WriteAction::PollFlush;
        }
        match self.inner.take() {
            None => WriteAction::Return(Poll::Pending),
            Some(half) => {
                self.flush_op = true;
                WriteAction::StartFlush(half)
            },
        }
    }

    /// Says what to do before the next message can be encoded.
    pub fn poll_ready(&mut self) -> (r: WriteAction<H, Bytes>)
        requires
            old(self)@.wf(),
        ensures
            final(self)@.wf(),
            (final(self)@, r@) == old(self)@.drain(),
    {
        self.poll_write_buf()
    }

    /// The buffer to which the next message is to be encoded. A writer that was shut down takes
    /// no more messages.
    pub fn start_send(&mut self) -> (r: Result<&mut BytesMut, CodecError>)
        ensures
            match r {
                Ok(buf) => {
                    &&& !old(self)@.closed
                    &&& buffer_bytes(*buf) == old(self)@.write_buf
                    &&& final(self)@ == (WriterView {
                        write_buf: buffer_bytes(*final(buf)),
                        ..old(self)@
                    })
                },
                Err(e) => {
                    &&& old(self)@.closed
                    &&& final(self)@ == old(self)@
                    &&& e matches CodecError::Io(io) && io.kind == ErrorKind::BrokenPipe
                        && io.os_error is None && io.message@ == "framed writer is closed"@
                },
            },
    {
        if self.closed {
            return Err(
                CodecError::Io(
                    IoError {
                        kind: ErrorKind::BrokenPipe,
                        os_error: None,
                        message: "framed writer is closed".to_string(),
                    },
                ),
            );
        }
        Ok(&mut self.write_buf)
    }

    /// Says what to do so that the transport is flushed.
    pub fn poll_flush(&mut self) -> (r: WriteAction<H, Bytes>)
        requires
            old(self)@.wf(),
        ensures
            final(self)@.wf(),
            (final(self)@, r@) == old(self)@.flush(),
    {
        self.poll_flush_inner()
    }

    /// Says what to do so that the transport is shut down behind a flush. While a shutdown is
    /// under way this is pending.
    pub fn poll_close(&mut self) -> (r: WriteAction<H, Bytes>)
        requires
            old(self)@.wf(),
        ensures
            final(self)@.wf(),
            (final(self)@, r@) == old(self)@.close(),
    {
        if self.closed {
            return WriteAction::Return(Poll::Ready(Ok(())));
        }
        self.poll_flush_inner()
    }

    /// Takes the outcome of polling the write, on the way to `goal`.
    pub fn write_polled(&mut self, goal: Goal, outcome: Poll<(H, Result<usize, IoError>)>) -> (r:
        WriteAction<H, Bytes>)
        requires
            old(self)@.wf(),
            old(self)@.write_op,
        ensures
            final(self)@.wf(),
            (final(self)@, r@) == old(self)@.write_polled(goal, outcome),
    {
        match outcome {
            Poll::Pending => WriteAction::Return(Poll::Pending),
            Poll::Ready((half, result)) => {
                self.write_op = false;
                self.inner = Some(half);
                match result {
                    Err(e) => WriteAction::Return(Poll::Ready(Err(CodecError::Io(e)))),
                    Ok(_) => match goal {
                        Goal::Ready => self.poll_write_buf(),
                        Goal::Flush | Goal::Close => self.poll_flush_inner(),
                    },
                }
            },
        }
    }

    /// Takes the outcome of polling the flush, on the way to `goal`.
    pub fn flush_polled(&mut self, goal: Goal, outcome: Poll<(H, Result<(), IoError>)>) -> (r:
        WriteAction<H, Bytes>)
        requires
            old(self)@.wf(),
            old(self)@.flush_op,
        ensures
            final(self)@.wf(),
            (final(self)@, r@) == old(self)@.flush_polled(goal, outcome),
    {
        match outcome {
            Poll::Pending => WriteAction::Return(Poll::Pending),
            Poll::Ready((half, result)) => {
                self.flush_op = false;
                self.inner = Some(half);
                match result {
                    Err(e) => WriteAction::Return(Poll::Ready(Err(CodecError::Io(e)))),
                    Ok(_) => match goal {
                        Goal::Close => self.start_shutdown(),
                        Goal::Ready | Goal::Flush => WriteAction::Return(Poll::Ready(Ok(()))),
                    },
                }
            },
        }
    }

    fn start_shutdown(&mut self) -> (r: WriteAction<H, Bytes>)
        requires
            old(self)@.wf(),
        ensures
            final(self)@.wf(),
            (final(self)@, r@) == old(self)@.shutdown(),
    {
        if self.close_op {
            return WriteAction::PollShutdown;
        }
        match self.inner.take() {
            None => WriteAction::Return(Poll::Pending),
            Some(half) => {
                self.close_op = true;
                WriteAction::StartShutdown(half)
            },
        }
    }

    /// Takes the outcome of polling the shutdown.
    pub fn shutdown_polled(&mut self, outcome: Poll<(H, Result<(), IoError>)>) -> (r: WriteAction<
        H,
        Bytes,
    >)
        requires
            old(self)@.wf(),
            old(self)@.close_op,
        ensures
            final(self)@.wf(),
            (final(self)@, r@) == old(self)@.shutdown_polled(outcome),
    {
        match outcome {
            Poll::Pending => WriteAction::Return(Poll::Pending),
            Poll::Ready((half, result)) => {
                self.close_op = false;
                self.inner = Some(half);
                match result {
                    Err(e) => WriteAction::Return(Poll::Ready(Err(CodecError::Io(e)))),
                    Ok(_) => {
                        self.closed = true;
                        WriteAction::Return(Poll::Ready(Ok(())))
                    },
                }
            },
        }
    }
}

} // verus!
