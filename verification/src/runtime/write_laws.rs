//! What holds of a framed writer over several calls.

use crate::error::{CodecError, IoError};
use crate::poll::Poll;
use crate::runtime::framed_write::{Goal, WriteAction, WriterView};
use vstd::prelude::*;

verus! {

/// A call of a framed writer.
pub enum WriterCall<H> {
    /// A message is encoded to these bytes, unless the writer is closed.
    Send(Seq<u8>),
    Ready,
    Flush,
    Close,
    WritePolled(Goal, Poll<(H, Result<usize, IoError>)>),
    FlushPolled(Goal, Poll<(H, Result<(), IoError>)>),
    ShutdownPolled(Poll<(H, Result<(), IoError>)>),
}

/// What a call needs: an outcome is reported only of an operation that is under way.
pub open spec fn allowed<H>(w: WriterView<H>, call: WriterCall<H>) -> bool {
    match call {
        WriterCall::WritePolled(_, _) => w.write_op,
        WriterCall::FlushPolled(_, _) => w.flush_op,
        WriterCall::ShutdownPolled(_) => w.close_op,
        _ => true,
    }
}

/// The state after a call, and what the call asks for; encoding asks for nothing.
pub open spec fn called<H>(w: WriterView<H>, call: WriterCall<H>) -> (
    WriterView<H>,
    Option<WriteAction<H, Seq<u8>>>,
) {
    match call {
        WriterCall::Send(bytes) => (
            if w.closed {
                w
            } else {
                WriterView { write_buf: w.write_buf + bytes, ..w }
            },
            None,
        ),
        WriterCall::Ready => (w.drain().0, Some(w.drain().1)),
        WriterCall::Flush => (w.flush().0, Some(w.flush().1)),
        WriterCall::Close => (w.close().0, Some(w.close().1)),
        WriterCall::WritePolled(goal, o) => (
            w.write_polled(goal, o).0,
            Some(w.write_polled(goal, o).1),
        ),
        WriterCall::FlushPolled(goal, o) => (
            w.flush_polled(goal, o).0,
            Some(w.flush_polled(goal, o).1),
        ),
        WriterCall::ShutdownPolled(o) => (w.shutdown_polled(o).0, Some(w.shutdown_polled(o).1)),
    }
}

/// The bytes that an action hands to the transport.
pub open spec fn handed_over<H>(action: Option<WriteAction<H, Seq<u8>>>) -> Seq<u8> {
    match action {
        Some(WriteAction::StartWrite(_, bytes)) => bytes,
        _ => Seq::empty(),
    }
}

/// The bytes that a call adds to those to be written.
pub open spec fn accepted<H>(w: WriterView<H>, call: WriterCall<H>) -> Seq<u8> {
    match call {
        WriterCall::Send(bytes) if !w.closed => bytes,
        _ => Seq::empty(),
    }
}

/// The state after `calls`.
pub open spec fn after<H>(w: WriterView<H>, calls: Seq<WriterCall<H>>) -> WriterView<H>
    decreases calls.len(),
{
    if calls.len() == 0 {
        w
    } else {
        called(after(w, calls.drop_last()), calls.last()).0
    }
}

/// Each of `calls` is allowed where it stands.
pub open spec fn all_allowed<H>(w: WriterView<H>, calls: Seq<WriterCall<H>>) -> bool
    decreases calls.len(),
{
    calls.len() > 0 ==> all_allowed(w, calls.drop_last()) && allowed(
        after(w, calls.drop_last()),
        calls.last(),
    )
}

/// All bytes that `calls` hand to the transport, in order.
pub open spec fn all_handed_over<H>(w: WriterView<H>, calls: Seq<WriterCall<H>>) -> Seq<u8>
    decreases calls.len(),
{
    if calls.len() == 0 {
        Seq::empty()
    } else {
        all_handed_over(w, calls.drop_last()) + handed_over(
            called(after(w, calls.drop_last()), calls.last()).1,
        )
    }
}

/// All bytes that `calls` add, in order.
pub open spec fn all_accepted<H>(w: WriterView<H>, calls: Seq<WriterCall<H>>) -> Seq<u8>
    decreases calls.len(),
{
    if calls.len() == 0 {
        Seq::empty()
    } else {
        all_accepted(w, calls.drop_last()) + accepted(after(w, calls.drop_last()), calls.last())
    }
}

/// Law: whatever is called, the transport is handed exactly the encoded bytes, in order, none
/// lost and none twice; what it was not handed yet waits in the buffer.
pub proof fn law_bytes_are_written_in_order<H>(w: WriterView<H>, calls: Seq<WriterCall<H>>)
    requires
        w.wf(),
        all_allowed(w, calls),
    ensures
        all_handed_over(w, calls) + after(w, calls).write_buf == w.write_buf + all_accepted(
            w,
            calls,
        ),
        after(w, calls).wf(),
    decreases calls.len(),
{
    if calls.len() > 0 {
        let rest = calls.drop_last();
        law_bytes_are_written_in_order(w, rest);
        let p = after(w, rest);
        let c = calls.last();
        let (q, action) = called(p, c);
        assert(handed_over(action) + q.write_buf =~= p.write_buf + accepted(p, c));
        assert(all_handed_over(w, calls) + q.write_buf =~= all_handed_over(w, rest) + (handed_over(
            action,
        ) + q.write_buf));
        assert(w.write_buf + all_accepted(w, calls) =~= (w.write_buf + all_accepted(w, rest))
            + accepted(p, c));
        assert((all_handed_over(w, rest) + p.write_buf) + accepted(p, c) =~= all_handed_over(
            w,
            rest,
        ) + (p.write_buf + accepted(p, c)));
    } else {
        assert(all_handed_over(w, calls) + w.write_buf =~= w.write_buf);
        assert(w.write_buf + all_accepted(w, calls) =~= w.write_buf);
    }
}

/// Law: once shut down, a writer stays so.
pub proof fn law_closed_stays_closed<H>(w: WriterView<H>, call: WriterCall<H>)
    requires
        w.wf(),
        w.closed,
        allowed(w, call),
    ensures
        called(w, call).0.closed,
        w.close() == (w, WriteAction::<H, Seq<u8>>::Return(Poll::Ready(Ok(())))),
{
}

/// Law: only a shutdown that succeeds closes the writer.
pub proof fn law_only_a_shutdown_closes<H>(w: WriterView<H>, call: WriterCall<H>)
    requires
        w.wf(),
        !w.closed,
        allowed(w, call),
    ensures
        called(w, call).0.closed <==> (call matches WriterCall::ShutdownPolled(
            Poll::Ready((_, Ok(_))),
        )),
{
}

/// Law: a writer says that it is ready only when all bytes were handed over and no write is
/// under way, and it asks for a flush only then.
pub proof fn law_ready_and_flush_wait_for_the_writes<H>(w: WriterView<H>)
    requires
        w.wf(),
    ensures
        w.drain().1 == WriteAction::<H, Seq<u8>>::Return(Poll::Ready(Ok(()))) <==> w.drained(),
        w.drained() ==> w.drain().0 == w,
        (w.flush().1 is StartFlush || w.flush().1 is PollFlush) ==> w.drained(),
        w.flush().1 !is StartShutdown && w.flush().1 !is PollShutdown,
{
}

/// Law: a shutdown is asked for only by a flush that succeeded on the way to closing.
pub proof fn law_shutdown_follows_a_flush<H>(w: WriterView<H>, call: WriterCall<H>)
    requires
        w.wf(),
        allowed(w, call),
    ensures
        (called(w, call).1 matches Some(WriteAction::StartShutdown(_))) <==> (call matches WriterCall::FlushPolled(
            Goal::Close,
            Poll::Ready((_, Ok(_))),
        )),
        !(called(w, call).1 matches Some(WriteAction::PollShutdown)),
{
}

/// Law: a shutdown that was pending once is not polled again. Whatever is called, closing stays
/// pending, and so does flushing, until the outcome of the shutdown is reported.
pub proof fn law_pending_shutdown_stays_pending<H>(w: WriterView<H>, calls: Seq<WriterCall<H>>)
    requires
        w.wf(),
        w.close_op,
        !w.closed,
        all_allowed(w, calls),
        forall|i: int| 0 <= i < calls.len() ==> !((#[trigger] calls[i]) is ShutdownPolled),
    ensures
        ({
            let p = after(w, calls);
            &&& p.wf()
            &&& p.close_op
            &&& !p.closed
            &&& p.close() == (p, WriteAction::<H, Seq<u8>>::Return(Poll::Pending))
            &&& p.flush() == (p, WriteAction::<H, Seq<u8>>::Return(Poll::Pending))
        }),
    decreases calls.len(),
{
    if calls.len() > 0 {
        let rest = calls.drop_last();
        assert forall|i: int| 0 <= i < rest.len() implies !((#[trigger] rest[i]) is ShutdownPolled) by {
            assert(rest[i] == calls[i]);
        }
        law_pending_shutdown_stays_pending(w, rest);
        assert(!(calls[calls.len() - 1] is ShutdownPolled));
    }
}

/// Law: a failed operation is reported as it is, and gives the write half back.
pub proof fn law_failures_are_reported<H>(w: WriterView<H>, goal: Goal, h: H, e: IoError)
    ensures
        ({
            let failed = WriteAction::<H, Seq<u8>>::Return(Poll::Ready(Err(CodecError::Io(e))));
            &&& w.write_polled(goal, Poll::Ready((h, Err(e)))) == (
                WriterView { inner: Some(h), write_op: false, ..w },
                failed,
            )
            &&& w.flush_polled(goal, Poll::Ready((h, Err(e)))) == (
                WriterView { inner: Some(h), flush_op: false, ..w },
                failed,
            )
            &&& w.shutdown_polled(Poll::Ready((h, Err(e)))) == (
                WriterView { inner: Some(h), close_op: false, ..w },
                failed,
            )
        }),
{
}

/// Law: a writer gives that it is not done yet only while an operation is under way.
pub proof fn law_writer_waits_only_for_operations<H>(w: WriterView<H>, call: WriterCall<H>)
    requires
        w.wf(),
        allowed(w, call),
    ensures
        called(w, call).1 == Some(WriteAction::<H, Seq<u8>>::Return(Poll::Pending)) ==> {
            let p = called(w, call).0;
            p.write_op || p.flush_op || p.close_op
        },
{
}

/// Law: a writer is done exactly so: asked to be ready, when no byte waits and no write is under
/// way; asked to flush, by the success of a flush; asked to close, by the success of a shutdown,
/// or when it was shut down before.
pub proof fn law_writer_is_done<H>(w: WriterView<H>, call: WriterCall<H>)
    requires
        w.wf(),
        allowed(w, call),
    ensures
        called(w, call).1 == Some(WriteAction::<H, Seq<u8>>::Return(Poll::Ready(Ok(()))))
            <==> match call {
            WriterCall::Send(_) => false,
            WriterCall::Ready => w.write_buf.len() == 0 && !w.write_op,
            WriterCall::Flush => false,
            WriterCall::Close => w.closed,
            WriterCall::WritePolled(goal, Poll::Ready((_, Ok(_)))) => goal is Ready
                && w.write_buf.len() == 0,
            WriterCall::FlushPolled(goal, Poll::Ready((_, Ok(_)))) => !(goal is Close),
            WriterCall::ShutdownPolled(Poll::Ready((_, Ok(_)))) => true,
            _ => false,
        },
{
}

} // verus!
