//! A framed connection and the transports under it.

use crate::runtime::framed_read::{ReaderView, ZmqFramedRead};
use crate::runtime::framed_write::{WriterView, ZmqFramedWrite};
use vstd::prelude::*;

verus! {

/// The read half of a connection: `T` over TCP, `U` over a Unix domain socket.
#[derive(Debug)]
pub enum ReadHalf<T, U> {
    Tcp(T),
    Unix(U),
}

impl<T, U> ReadHalf<T, U> {
    pub fn tcp(half: T) -> (r: Self)
        ensures
            r == ReadHalf::<T, U>::Tcp(half),
    {
        Self::Tcp(half)
    }

    pub fn unix(half: U) -> (r: Self)
        ensures
            r == ReadHalf::<T, U>::Unix(half),
    {
        Self::Unix(half)
    }
}

/// The write half of a connection: `T` over TCP, `U` over a Unix domain socket.
#[derive(Debug)]
pub enum WriteHalf<T, U> {
    Tcp(T),
    Unix(U),
}

impl<T, U> WriteHalf<T, U> {
    pub fn tcp(half: T) -> (r: Self)
        ensures
            r == WriteHalf::<T, U>::Tcp(half),
    {
        Self::Tcp(half)
    }

    pub fn unix(half: U) -> (r: Self)
        ensures
            r == WriteHalf::<T, U>::Unix(half),
    {
        Self::Unix(half)
    }
}

/// Both halves of a framed connection.
pub struct FramedIo<R, W> {
    pub read_half: ZmqFramedRead<R>,
    pub write_half: ZmqFramedWrite<W>,
}

/// A reader over `half` that has not received anything.
pub open spec fn fresh_reader<H>(half: H) -> ReaderView<H> {
    ReaderView { inner: Some(half), decode_buf: Seq::empty(), read_op: false, eof: false }
}

/// A writer over `half` without bytes.
pub open spec fn fresh_writer<H>(half: H) -> WriterView<H> {
    WriterView {
        inner: Some(half),
        write_buf: Seq::empty(),
        write_op: false,
        flush_op: false,
        close_op: false,
        closed: false,
    }
}

impl<R, W> FramedIo<R, W> {
    /// Frames a connection.
    pub fn new(read_half: R, write_half: W) -> (r: Self)
        ensures
            r.read_half@ == fresh_reader(read_half),
            r.write_half@ == fresh_writer(write_half),
    {
        FramedIo {
            read_half: ZmqFramedRead::new(read_half),
            write_half: ZmqFramedWrite::new(write_half),
        }
    }

    /// The two halves.
    pub fn into_parts(self) -> (r: (ZmqFramedRead<R>, ZmqFramedWrite<W>))
        ensures
            r == (self.read_half, self.write_half),
    {
        (self.read_half, self.write_half)
    }
}

impl<RT, RU, WT, WU> FramedIo<ReadHalf<RT, RU>, WriteHalf<WT, WU>> {
    /// Frames a TCP connection.
    pub fn new_tcp(read_half: RT, write_half: WT) -> (r: Self)
        ensures
            r.read_half@ == fresh_reader(ReadHalf::<RT, RU>::Tcp(read_half)),
            r.write_half@ == fresh_writer(WriteHalf::<WT, WU>::Tcp(write_half)),
    {
        Self::new(ReadHalf::tcp(read_half), WriteHalf::tcp(write_half))
    }

    /// Frames a connection over a Unix domain socket.
    pub fn new_unix(read_half: RU, write_half: WU) -> (r: Self)
        ensures
            r.read_half@ == fresh_reader(ReadHalf::<RT, RU>::Unix(read_half)),
            r.write_half@ == fresh_writer(WriteHalf::<WT, WU>::Unix(write_half)),
    {
        Self::new(ReadHalf::unix(read_half), WriteHalf::unix(write_half))
    }
}

} // verus!
