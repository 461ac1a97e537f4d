//! What the calls of framed connections do, by what goes into them and what comes out.

use crate::buffer::{buffer_bytes, frozen_bytes};
use crate::endpoint::{Endpoint, Host, Port};
use crate::error::{CodecError, IoError, ZmqError};
use crate::poll::Poll;
use crate::runtime::connect::{
    accept_step, begin_accept, bound_endpoint, connect, AcceptAction, AcceptEvent, Target,
    Transports,
};
use crate::runtime::framed::{FramedIo, ReadHalf, WriteHalf};
use crate::runtime::framed_read::{
    prepare_read, reserve_for_read, ReadAction, ReadWindow, ZmqFramedRead,
};
use crate::runtime::framed_write::{Goal, WriteAction, ZmqFramedWrite};
use crate::runtime::task::JoinError;
use bytes::{Bytes, BytesMut};
use vstd::prelude::*;

verus! {

/// Law: a new reader has its half, no bytes, no read under way, and is not at the end; asked for a
/// message, it begins to decode.
pub proof fn law_new_reader_begins_to_decode<H, M>(
    half: H,
    reader: ZmqFramedRead<H>,
    r: ReadAction<H, BytesMut, M>,
)
    requires
        call_ensures(ZmqFramedRead::<H>::new, (half,), reader),
        call_ensures(ZmqFramedRead::<H>::poll_next::<M>, (&reader,), r),
    ensures
        reader@.inner == Some(half),
        reader@.decode_buf.len() == 0,
        !reader@.read_op,
        !reader@.eof,
        r is Decode,
{
}

/// Law: asked for a message, a reader at the end gives the end, one with a read under way has it
/// polled, and any other has its bytes decoded.
pub proof fn law_reader_is_asked<H, M>(reader: ZmqFramedRead<H>, r: ReadAction<H, BytesMut, M>)
    requires
        call_ensures(ZmqFramedRead::<H>::poll_next::<M>, (&reader,), r),
    ensures
        reader@.eof <==> (r matches ReadAction::Return(Poll::Ready(None))),
        !reader@.eof && reader@.read_op <==> r is PollRead,
        !reader@.eof && !reader@.read_op <==> r is Decode,
{
}

/// Law: what decoding gave is passed on: a message or an error to whoever asked, and when more bytes
/// are needed, however many there are, a read is started with the half and all of them.
pub proof fn law_decoding_is_passed_on<H, M>(
    reader: &mut ZmqFramedRead<H>,
    result: Result<Option<M>, CodecError>,
    r: ReadAction<H, BytesMut, M>,
)
    requires
        old(reader)@.inner is Some,
        !old(reader)@.read_op,
        call_ensures(ZmqFramedRead::<H>::decoded::<M>, (reader, result), r),
    ensures
        final(reader)@.eof == old(reader)@.eof,
        match result {
            Ok(Some(m)) => {
                &&& r matches ReadAction::Return(Poll::Ready(Some(Ok(given)))) && given == m
                &&& final(reader)@.inner == old(reader)@.inner
                &&& final(reader)@.decode_buf == old(reader)@.decode_buf
                &&& !final(reader)@.read_op
            },
            Err(e) => {
                &&& r matches ReadAction::Return(Poll::Ready(Some(Err(given)))) && given == e
                &&& final(reader)@.inner == old(reader)@.inner
                &&& final(reader)@.decode_buf == old(reader)@.decode_buf
                &&& !final(reader)@.read_op
            },
            Ok(None) => {
                &&& r matches ReadAction::StartRead(half, buf) && old(reader)@.inner == Some(half)
                    && buffer_bytes(buf) == old(reader)@.decode_buf
                &&& final(reader)@.inner is None
                &&& final(reader)@.read_op
            },
        },
{
}

/// Law: a read that is done gives back the half and the buffer. No bytes are the end, an error is
/// passed on as it is, and after any other read the bytes are decoded. A read that is pending
/// leaves everything as it is.
pub proof fn law_reads_are_taken_back<H, M>(
    reader: &mut ZmqFramedRead<H>,
    outcome: Poll<(H, Result<usize, IoError>, BytesMut)>,
    r: ReadAction<H, BytesMut, M>,
)
    requires
        old(reader)@.inner is None,
        old(reader)@.read_op,
        !old(reader)@.eof,
        call_ensures(ZmqFramedRead::<H>::read_polled::<M>, (reader, outcome), r),
    ensures
        match outcome {
            Poll::Pending => {
                &&& r matches ReadAction::Return(Poll::Pending)
                &&& final(reader)@ == old(reader)@
            },
            Poll::Ready((half, result, buf)) => {
                &&& final(reader)@.inner == Some(half)
                &&& final(reader)@.decode_buf == buffer_bytes(buf)
                &&& !final(reader)@.read_op
                &&& final(reader)@.eof <==> (result matches Ok(n) && n == 0)
                &&& match result {
                    Err(e) => r matches ReadAction::Return(
                        Poll::Ready(Some(Err(CodecError::Io(given)))),
                    ) && given == e,
                    Ok(n) => if n == 0 {
                        r matches ReadAction::Return(Poll::Ready(None))
                    } else {
                        r is Decode
                    },
                }
            },
        },
{
}

/// Law: decoding works on the bytes received and not yet decoded, and changes nothing else of the
/// reader; encoding appends to the bytes not yet written, and changes nothing else of the writer.
/// A writer that was shut down takes no message.
pub proof fn law_buffers_are_lent<R, W>(
    reader: &mut ZmqFramedRead<R>,
    decode_buf: &mut BytesMut,
    writer: &mut ZmqFramedWrite<W>,
    write_buf: Result<&mut BytesMut, CodecError>,
)
    requires
        call_ensures(ZmqFramedRead::<R>::decode_buf, (reader,), decode_buf),
        call_ensures(ZmqFramedWrite::<W>::start_send, (writer,), write_buf),
    ensures
        buffer_bytes(*old(decode_buf)) == old(reader)@.decode_buf,
        final(reader)@.decode_buf == buffer_bytes(*final(decode_buf)),
        final(reader)@.inner == old(reader)@.inner,
        final(reader)@.read_op == old(reader)@.read_op,
        final(reader)@.eof == old(reader)@.eof,
        write_buf is Err <==> old(writer)@.closed,
        final(writer)@.inner == old(writer)@.inner,
        final(writer)@.write_op == old(writer)@.write_op,
        final(writer)@.flush_op == old(writer)@.flush_op,
        final(writer)@.close_op == old(writer)@.close_op,
        final(writer)@.closed == old(writer)@.closed,
        match write_buf {
            Ok(buf) => buffer_bytes(*buf) == old(writer)@.write_buf && final(writer)@.write_buf
                == buffer_bytes(*final(buf)),
            Err(e) => final(writer)@.write_buf == old(writer)@.write_buf && (
            e matches CodecError::Io(io) && io.kind is BrokenPipe && io.message@
                == "framed writer is closed"@),
        },
{
}

/// Law: room for a read begins behind the bytes, which stay, and is never empty; only a full buffer
/// grows, by what [`reserve_for_read`] says.
pub proof fn law_reads_get_room(
    buf: BytesMut,
    r: ReadWindow,
    len: usize,
    capacity: usize,
    additional: usize,
)
    requires
        call_ensures(prepare_read, (buf,), r),
        call_ensures(reserve_for_read, (len, capacity), additional),
    ensures
        buffer_bytes(r.buf) == buffer_bytes(buf),
        r.start == buffer_bytes(buf).len(),
        r.start < r.end,
        call_ensures(BytesMut::capacity, (&r.buf,), r.end),
        exists|capacity: usize|
            {
                &&& #[trigger] call_ensures(BytesMut::capacity, (&buf,), capacity)
                &&& capacity == buffer_bytes(buf).len() ==> r.end - r.start >= 8192
                &&& capacity != buffer_bytes(buf).len() ==> r.buf == buf && r.end == capacity
            },
        additional == 8192 <==> len == capacity,
        additional == 0 <==> len != capacity,
{
}

/// Law: to hand all bytes to the transport, a write under way is polled; else all waiting bytes go
/// into one write, if the half is there; without waiting bytes it is done, and without the half
/// it is pending.
pub proof fn law_waiting_bytes_are_written<H>(
    writer: &mut ZmqFramedWrite<H>,
    r: WriteAction<H, Bytes>,
    other: &mut ZmqFramedWrite<H>,
    s: WriteAction<H, Bytes>,
)
    requires
        old(writer)@.wf(),
        old(other)@.wf(),
        old(other)@ == old(writer)@,
        call_ensures(ZmqFramedWrite::<H>::poll_ready, (writer,), r),
        call_ensures(ZmqFramedWrite::<H>::poll_write_buf, (other,), s),
    ensures
        final(other)@ == final(writer)@,
        s is StartWrite <==> r is StartWrite,
        !(s is StartWrite) ==> s == r,
        r is PollWrite <==> old(writer)@.write_op,
        r is StartWrite <==> old(writer)@.inner is Some && old(writer)@.write_buf.len() > 0,
        r matches WriteAction::StartWrite(half, bytes) ==> old(writer)@.inner == Some(half)
            && frozen_bytes(bytes) == old(writer)@.write_buf && final(writer)@.write_op && final(writer)@.inner is None && final(writer)@.write_buf.len() == 0 && final(writer)@.closed == old(writer)@.closed,
        (r matches WriteAction::Return(Poll::Ready(Ok(_)))) <==> !old(writer)@.write_op && old(writer)@.write_buf.len() == 0,
        (r matches WriteAction::Return(Poll::Pending)) <==> old(writer)@.write_buf.len() > 0 && (
        old(writer)@.flush_op || old(writer)@.close_op),
        !(r matches WriteAction::Return(Poll::Ready(Err(_)))),
        r !is StartFlush && r !is PollFlush && r !is StartShutdown && r !is PollShutdown,
        final(writer)@.wf(),
        !(r is StartWrite) ==> final(writer)@ == old(writer)@,
        s matches WriteAction::StartWrite(half, bytes) ==> old(writer)@.inner == Some(half)
            && frozen_bytes(bytes) == old(writer)@.write_buf,
{
    let (_, action) = old(writer)@.drain();
    assert(r@ == action && s@ == action);
}

/// Law: to flush, the bytes come first, as for being ready; once none waits and no write is under
/// way, a flush under way is polled, and else one is started, if the half is there. It is never
/// done without the outcome of a flush.
pub proof fn law_flush_comes_behind_the_bytes<H>(
    writer: &mut ZmqFramedWrite<H>,
    r: WriteAction<H, Bytes>,
    other: &mut ZmqFramedWrite<H>,
    s: WriteAction<H, Bytes>,
)
    requires
        old(writer)@.wf(),
        old(other)@.wf(),
        old(other)@ == old(writer)@,
        call_ensures(ZmqFramedWrite::<H>::poll_flush, (writer,), r),
        call_ensures(ZmqFramedWrite::<H>::poll_flush_inner, (other,), s),
    ensures
        final(other)@ == final(writer)@,
        s is StartWrite <==> r is StartWrite,
        !(s is StartWrite) ==> s == r,
        r is PollWrite <==> old(writer)@.write_op,
        r is StartWrite <==> old(writer)@.inner is Some && old(writer)@.write_buf.len() > 0,
        r matches WriteAction::StartWrite(half, bytes) ==> old(writer)@.inner == Some(half)
            && frozen_bytes(bytes) == old(writer)@.write_buf && final(writer)@.write_op && final(writer)@.write_buf.len() == 0,
        r is PollFlush <==> old(writer)@.flush_op && old(writer)@.write_buf.len() == 0,
        r is StartFlush <==> old(writer)@.inner is Some && old(writer)@.write_buf.len() == 0,
        r matches WriteAction::StartFlush(half) ==> old(writer)@.inner == Some(half) && final(writer)@.flush_op && final(writer)@.inner is None && !final(writer)@.write_op,
        (r matches WriteAction::Return(Poll::Pending)) <==> old(writer)@.close_op || (old(writer)@.flush_op && old(writer)@.write_buf.len() > 0),
        !(r matches WriteAction::Return(Poll::Ready(_))),
        r !is StartShutdown && r !is PollShutdown,
        final(writer)@.wf(),
        final(writer)@.closed == old(writer)@.closed,
        r is StartFlush ==> final(writer)@.write_buf == old(writer)@.write_buf,
        !(r is StartWrite || r is StartFlush) ==> final(writer)@ == old(writer)@,
        s matches WriteAction::StartWrite(half, bytes) ==> old(writer)@.inner == Some(half)
            && frozen_bytes(bytes) == old(writer)@.write_buf,
{
    let (_, action) = old(writer)@.flush();
    assert(r@ == action && s@ == action);
}

/// Law: closing a writer that was shut down is done at once; closing any other begins as a flush.
pub proof fn law_close_begins_as_a_flush<H>(
    writer: &mut ZmqFramedWrite<H>,
    r: WriteAction<H, Bytes>,
    other: &mut ZmqFramedWrite<H>,
    s: WriteAction<H, Bytes>,
)
    requires
        old(writer)@.wf(),
        old(other)@.wf(),
        old(other)@ == old(writer)@,
        call_ensures(ZmqFramedWrite::<H>::poll_close, (writer,), r),
        call_ensures(ZmqFramedWrite::<H>::poll_flush, (other,), s),
    ensures
        (r matches WriteAction::Return(Poll::Ready(Ok(_)))) <==> old(writer)@.closed,
        old(writer)@.closed ==> final(writer)@ == old(writer)@,
        !old(writer)@.closed ==> final(writer)@ == final(other)@ && (s is StartWrite
            <==> r is StartWrite) && (!(s is StartWrite) ==> s == r),
        r matches WriteAction::StartWrite(half, bytes) ==> old(writer)@.inner == Some(half)
            && frozen_bytes(bytes) == old(writer)@.write_buf,
{
    if !old(writer)@.closed {
        assert(r@ == s@);
    }
}

/// Law: an operation that is done gives back the half, and its error is passed on as it is. When it
/// succeeded, the way to the goal goes on from there: after a write with the waiting bytes, and
/// then, unless only readiness was wanted, with a flush; after a flush with the shutdown, if
/// closing was wanted, and else it is done; a shutdown closes the writer. One that is pending
/// changes nothing.
pub proof fn law_write_operations_are_taken_back<H>(
    writing: &mut ZmqFramedWrite<H>,
    flushing: &mut ZmqFramedWrite<H>,
    closing: &mut ZmqFramedWrite<H>,
    goal: Goal,
    wrote: Poll<(H, Result<usize, IoError>)>,
    done: Poll<(H, Result<(), IoError>)>,
    r: WriteAction<H, Bytes>,
    s: WriteAction<H, Bytes>,
    t: WriteAction<H, Bytes>,
)
    requires
        old(writing)@.wf(),
        old(writing)@.write_op,
        old(flushing)@.wf(),
        old(flushing)@.flush_op,
        old(closing)@.wf(),
        old(closing)@.close_op,
        call_ensures(ZmqFramedWrite::<H>::write_polled, (writing, goal, wrote), r),
        call_ensures(ZmqFramedWrite::<H>::flush_polled, (flushing, goal, done), s),
        call_ensures(ZmqFramedWrite::<H>::shutdown_polled, (closing, done), t),
    ensures
        final(writing)@.wf(),
        final(flushing)@.wf(),
        final(closing)@.wf(),
        final(writing)@.closed == old(writing)@.closed,
        final(flushing)@.closed == old(flushing)@.closed,
        match wrote {
            Poll::Pending => (r matches WriteAction::Return(Poll::Pending)) && final(writing)@
                == old(writing)@,
            Poll::Ready((half, Err(e))) => {
                &&& r matches WriteAction::Return(Poll::Ready(Err(CodecError::Io(given)))) && given
                    == e
                &&& final(writing)@.inner == Some(half)
                &&& final(writing)@.write_buf == old(writing)@.write_buf
                &&& !final(writing)@.write_op
            },
            Poll::Ready((half, Ok(_))) => if old(writing)@.write_buf.len() > 0 {
                &&& r matches WriteAction::StartWrite(given, bytes) && given == half
                    && frozen_bytes(bytes) == old(writing)@.write_buf
                &&& final(writing)@.write_op
                &&& final(writing)@.write_buf.len() == 0
            } else if goal is Ready {
                &&& r matches WriteAction::Return(Poll::Ready(Ok(_)))
                &&& final(writing)@.inner == Some(half)
                &&& !final(writing)@.write_op
            } else {
                &&& r matches WriteAction::StartFlush(given) && given == half
                &&& final(writing)@.flush_op
                &&& !final(writing)@.write_op
            },
        },
        match done {
            Poll::Pending => {
                &&& s matches WriteAction::Return(Poll::Pending)
                &&& final(flushing)@ == old(flushing)@
                &&& t matches WriteAction::Return(Poll::Pending)
                &&& final(closing)@ == old(closing)@
            },
            Poll::Ready((half, Err(e))) => {
                &&& s matches WriteAction::Return(Poll::Ready(Err(CodecError::Io(given)))) && given
                    == e
                &&& final(flushing)@.inner == Some(half)
                &&& !final(flushing)@.flush_op
                &&& t matches WriteAction::Return(Poll::Ready(Err(CodecError::Io(given)))) && given
                    == e
                &&& final(closing)@.inner == Some(half)
                &&& !final(closing)@.close_op
                &&& final(closing)@.closed == old(closing)@.closed
            },
            Poll::Ready((half, Ok(_))) => {
                &&& if goal is Close {
                    (s matches WriteAction::StartShutdown(given) && given == half) && final(flushing)@.close_op
                } else {
                    (s matches WriteAction::Return(Poll::Ready(Ok(_)))) && final(flushing)@.inner
                        == Some(half)
                }
                &&& !final(flushing)@.flush_op
                &&& t matches WriteAction::Return(Poll::Ready(Ok(_)))
                &&& final(closing)@.inner == Some(half)
                &&& !final(closing)@.close_op
                &&& final(closing)@.closed
            },
        },
        final(flushing)@.write_buf == old(flushing)@.write_buf,
        final(closing)@.write_buf == old(closing)@.write_buf,
{
    assert(r@ == old(writing)@.write_polled(goal, wrote).1);
    assert(s@ == old(flushing)@.flush_polled(goal, done).1);
    assert(t@ == old(closing)@.shutdown_polled(done).1);
}

/// Law: a framed connection begins with its halves, without bytes, with nothing under way, neither
/// at its end nor closed, and comes apart into the same two halves.
pub proof fn law_connections_begin_afresh<R, W>(
    read_half: R,
    write_half: W,
    io: FramedIo<R, W>,
    parts: (ZmqFramedRead<R>, ZmqFramedWrite<W>),
    writer: ZmqFramedWrite<W>,
)
    requires
        call_ensures(FramedIo::<R, W>::new, (read_half, write_half), io),
        call_ensures(FramedIo::<R, W>::into_parts, (io,), parts),
        call_ensures(ZmqFramedWrite::<W>::new, (write_half,), writer),
    ensures
        parts.0 == io.read_half,
        parts.1 == io.write_half,
        io.read_half@.inner == Some(read_half),
        io.read_half@.decode_buf.len() == 0,
        !io.read_half@.read_op,
        !io.read_half@.eof,
        io.write_half@.inner == Some(write_half),
        io.write_half@.write_buf.len() == 0,
        !io.write_half@.write_op,
        !io.write_half@.flush_op,
        !io.write_half@.close_op,
        !io.write_half@.closed,
        writer@ == io.write_half@,
{
}

/// Law: a connection over TCP or a Unix domain socket is framed with halves of that transport.
pub proof fn law_connections_keep_their_transport<RT, RU, WT, WU>(
    tcp_read: RT,
    tcp_write: WT,
    unix_read: RU,
    unix_write: WU,
    tcp: FramedIo<ReadHalf<RT, RU>, WriteHalf<WT, WU>>,
    unix: FramedIo<ReadHalf<RT, RU>, WriteHalf<WT, WU>>,
)
    requires
        call_ensures(
            FramedIo::<ReadHalf<RT, RU>, WriteHalf<WT, WU>>::new_tcp,
            (tcp_read, tcp_write),
            tcp,
        ),
        call_ensures(
            FramedIo::<ReadHalf<RT, RU>, WriteHalf<WT, WU>>::new_unix,
            (unix_read, unix_write),
            unix,
        ),
    ensures
        tcp.read_half@.inner matches Some(ReadHalf::Tcp(half)) && half == tcp_read,
        tcp.write_half@.inner matches Some(WriteHalf::Tcp(half)) && half == tcp_write,
        unix.read_half@.inner matches Some(ReadHalf::Unix(half)) && half == unix_read,
        unix.write_half@.inner matches Some(WriteHalf::Unix(half)) && half == unix_write,
        !tcp.read_half@.eof && !tcp.read_half@.read_op && tcp.read_half@.decode_buf.len() == 0,
        !unix.read_half@.eof && !unix.read_half@.read_op && unix.read_half@.decode_buf.len() == 0,
        !tcp.write_half@.closed && tcp.write_half@.wf() && tcp.write_half@.write_buf.len() == 0,
        !unix.write_half@.closed && unix.write_half@.wf() && unix.write_half@.write_buf.len() == 0,
{
}

/// Law: an endpoint is supported exactly when its own transport was built in.
pub proof fn law_supported_endpoints<P>(
    endpoint: Endpoint<P>,
    transports: Transports,
    supported: bool,
)
    requires
        call_ensures(Transports::supports::<P>, (&transports, &endpoint), supported),
    ensures
        supported <==> (endpoint is Tcp && transports.tcp) || (endpoint is Ipc && transports.ipc),
        supported <==> transports.support(endpoint),
{
}

/// Law: connecting and accepting take an endpoint to the same address, that of the endpoint, on its
/// own transport; exactly an unnamed socket is refused, each time in words of its own.
pub proof fn law_endpoints_are_taken_as_they_are<P>(
    endpoint: Endpoint<P>,
    transports: Transports,
    r: Result<Target<&Host, &P>, ZmqError>,
    s: Result<Target<Host, P>, ZmqError>,
    supported: bool,
)
    requires
        call_ensures(Transports::supports::<P>, (&transports, &endpoint), supported),
        supported,
        call_ensures(connect::<P>, (&endpoint, &transports), r),
        call_ensures(begin_accept::<P>, (endpoint, &transports), s),
    ensures
        endpoint is Tcp ==> transports.tcp,
        endpoint is Ipc ==> transports.ipc,
        match endpoint {
            Endpoint::Tcp(host, port) => {
                &&& r matches Ok(Target::Tcp(h, p)) && *h == host && p == port
                &&& s matches Ok(Target::Tcp(h, p)) && h == host && p == port
            },
            Endpoint::Ipc(Some(path)) => {
                &&& r matches Ok(Target::Ipc(p)) && *p == path
                &&& s matches Ok(Target::Ipc(p)) && p == path
            },
            Endpoint::Ipc(None) => {
                &&& r matches Err(ZmqError::Socket(m)) && m@
                    == "Cannot connect to an unnamed ipc socket"@
                &&& s matches Err(ZmqError::Socket(m)) && m@
                    == "Cannot begin accepting peers at an unnamed ipc socket"@
            },
        },
{
}

/// Law: a bound socket is reported with the port it got, and with the name it was asked for by, or
/// else the address it got.
pub proof fn law_bound_sockets_are_reported<P>(
    host: Host,
    resolved_host: Host,
    port: Port,
    r: Endpoint<P>,
)
    requires
        call_ensures(bound_endpoint::<P>, (host, resolved_host, port), r),
    ensures
        r matches Endpoint::Tcp(h, p) && p == port && (host is Domain ==> h == host) && (!(
        host is Domain) ==> h == resolved_host),
{
}

/// Law: accepting hands every outcome on as it is, and ends exactly when it is told to.
pub proof fn law_accepting_hands_on<A>(event: AcceptEvent<A>, r: AcceptAction<A>)
    requires
        call_ensures(accept_step::<A>, (event,), r),
    ensures
        event is Stop <==> r is Stop,
        event matches AcceptEvent::Accepted(a) ==> (r matches AcceptAction::Hand(b) && a == b),
{
}

/// Law: a task that gave no result was cancelled or panicked, and not both.
pub proof fn law_join_errors_have_one_cause<P>(
    error: JoinError<P>,
    cancelled: bool,
    panicked: bool,
)
    requires
        call_ensures(JoinError::<P>::is_cancelled, (&error,), cancelled),
        call_ensures(JoinError::<P>::is_panic, (&error,), panicked),
    ensures
        cancelled <==> error is Cancelled,
        panicked <==> !cancelled,
{
}

} // verus!
