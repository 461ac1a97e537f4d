//! What holds of a framed reader over several calls.

use crate::error::{CodecError, IoError};
use crate::poll::Poll;
use crate::runtime::framed_read::{ReadAction, ReaderView};
use vstd::prelude::*;

verus! {

/// Law: after the end of the connection every call gives the end, without decoding or reading.
pub proof fn law_end_is_final<H, M>(r: ReaderView<H>)
    requires
        r.eof,
    ensures
        r.next::<M>() == ReadAction::<H, Seq<u8>, M>::Return(Poll::Ready(None)),
{
}

/// Law: the end of the connection is reported exactly by a read of no bytes, and never taken
/// back.
pub proof fn law_only_an_empty_read_ends<H, M>(
    r: ReaderView<H>,
    result: Result<Option<M>, CodecError>,
    outcome: Poll<(H, Result<usize, IoError>, Seq<u8>)>,
)
    ensures
        r.decoded(result).0.eof == r.eof,
        r.read_polled::<M>(outcome).0.eof <==> r.eof || (outcome matches Poll::Ready(
            (_, Ok(n), _),
        ) && n == 0),
{
}

/// A framed reader, and the bytes that the read under way was started with.
#[verifier::ext_equal]
pub struct ReaderRun<H> {
    pub reader: ReaderView<H>,
    pub held: Seq<u8>,
}

impl<H> ReaderRun<H> {
    /// The bytes received and not yet decoded, wherever they are.
    pub open spec fn buffered(self) -> Seq<u8> {
        if self.reader.read_op {
            self.held
        } else {
            self.reader.decode_buf
        }
    }
}

/// A call of a framed reader.
pub enum ReaderCall<H, M> {
    /// The next message is asked for.
    Next,
    /// Decoding took this many bytes from the front of the buffer and gave this.
    Decoded(nat, Result<Option<M>, CodecError>),
    /// The read was polled; when it is done, it has appended these bytes to the buffer.
    ReadPolled(Poll<(H, Result<usize, IoError>, Seq<u8>)>),
}

/// What a call needs: decoding only before the end and while no read is under way, the outcome
/// of a read only while one is. A read reports the number of bytes that it appended; one that
/// failed appended none.
pub open spec fn allowed<H, M>(run: ReaderRun<H>, call: ReaderCall<H, M>) -> bool {
    match call {
        ReaderCall::Next => true,
        ReaderCall::Decoded(n, _) => !run.reader.eof && !run.reader.read_op && n
            <= run.reader.decode_buf.len(),
        ReaderCall::ReadPolled(Poll::Pending) => run.reader.read_op,
        ReaderCall::ReadPolled(Poll::Ready((_, Ok(n), more))) => run.reader.read_op && more.len()
            == n,
        ReaderCall::ReadPolled(Poll::Ready((_, Err(_), more))) => run.reader.read_op && more.len()
            == 0,
    }
}

/// The state after a call, and what the call asks for.
pub open spec fn called<H, M>(run: ReaderRun<H>, call: ReaderCall<H, M>) -> (
    ReaderRun<H>,
    ReadAction<H, Seq<u8>, M>,
) {
    match call {
        ReaderCall::Next => (run, run.reader.next()),
        ReaderCall::Decoded(n, result) => {
            let left = run.reader.decode_buf.skip(n as int);
            let (reader, action) = (ReaderView { decode_buf: left, ..run.reader }).decoded(result);
            let held = match action {
                ReadAction::StartRead(_, given) => given,
                _ => run.held,
            };
            (ReaderRun { reader, held }, action)
        },
        ReaderCall::ReadPolled(outcome) => {
            let with_buffer = match outcome {
                Poll::Pending => Poll::Pending,
                Poll::Ready((h, result, more)) => Poll::Ready((h, result, run.held + more)),
            };
            let (reader, action) = run.reader.read_polled(with_buffer);
            (ReaderRun { reader, ..run }, action)
        },
    }
}

/// The state after `calls`.
pub open spec fn after<H, M>(run: ReaderRun<H>, calls: Seq<ReaderCall<H, M>>) -> ReaderRun<H>
    decreases calls.len(),
{
    if calls.len() == 0 {
        run
    } else {
        called(after(run, calls.drop_last()), calls.last()).0
    }
}

/// Each of `calls` is allowed where it stands.
pub open spec fn all_allowed<H, M>(run: ReaderRun<H>, calls: Seq<ReaderCall<H, M>>) -> bool
    decreases calls.len(),
{
    calls.len() > 0 ==> all_allowed(run, calls.drop_last()) && allowed(
        after(run, calls.drop_last()),
        calls.last(),
    )
}

/// The bytes that a call receives.
pub open spec fn arrived<H, M>(call: ReaderCall<H, M>) -> Seq<u8> {
    match call {
        ReaderCall::ReadPolled(Poll::Ready((_, _, more))) => more,
        _ => Seq::empty(),
    }
}

/// All bytes that `calls` receive, in order.
pub open spec fn received<H, M>(calls: Seq<ReaderCall<H, M>>) -> Seq<u8>
    decreases calls.len(),
{
    if calls.len() == 0 {
        Seq::empty()
    } else {
        received(calls.drop_last()) + arrived(calls.last())
    }
}

/// The bytes that a call decodes.
pub open spec fn consumed<H, M>(run: ReaderRun<H>, call: ReaderCall<H, M>) -> Seq<u8> {
    match call {
        ReaderCall::Decoded(n, _) => run.reader.decode_buf.take(n as int),
        _ => Seq::empty(),
    }
}

/// All bytes that `calls` decode, in order.
pub open spec fn taken<H, M>(run: ReaderRun<H>, calls: Seq<ReaderCall<H, M>>) -> Seq<u8>
    decreases calls.len(),
{
    if calls.len() == 0 {
        Seq::empty()
    } else {
        taken(run, calls.drop_last()) + consumed(after(run, calls.drop_last()), calls.last())
    }
}

/// Law: whatever is called, the bytes received are exactly the bytes taken by decoding, in order,
/// followed by those that are still buffered: none is lost, none comes twice.
pub proof fn law_received_bytes_are_kept<H, M>(run: ReaderRun<H>, calls: Seq<ReaderCall<H, M>>)
    requires
        run.reader.wf(),
        all_allowed(run, calls),
    ensures
        after(run, calls).reader.wf(),
        run.buffered() + received(calls) == taken(run, calls) + after(run, calls).buffered(),
    decreases calls.len(),
{
    if calls.len() == 0 {
        assert(run.buffered() + received(calls) =~= run.buffered());
        assert(taken(run, calls) + run.buffered() =~= run.buffered());
    } else {
        let rest = calls.drop_last();
        law_received_bytes_are_kept(run, rest);
        let p = after(run, rest);
        let call = calls.last();
        let q = called(p, call).0;
        assert(p.buffered() + arrived(call) =~= consumed(p, call) + q.buffered());
        assert(run.buffered() + received(calls) =~= (run.buffered() + received(rest)) + arrived(
            call,
        ));
        assert((taken(run, rest) + p.buffered()) + arrived(call) =~= taken(run, rest) + (
        p.buffered() + arrived(call)));
        assert(taken(run, rest) + (consumed(p, call) + q.buffered()) =~= taken(run, calls)
            + q.buffered());
    }
}

/// A decoder: from its state and the buffered bytes to its next state, the number of bytes that
/// it takes from the front, and what it gives.
pub type Decode<C, M> = spec_fn(C, Seq<u8>) -> (C, nat, Result<Option<M>, CodecError>);

/// The decoder takes bytes as they come: what it gives does not depend on how many bytes behind
/// those it needs are there already, and after asking for more it goes on where it was.
pub open spec fn incremental<C, M>(decode: Decode<C, M>) -> bool {
    forall|c: C, a: Seq<u8>, more: Seq<u8>| #[trigger]
        goes_on(decode, c, a, more)
}

/// What [`incremental`] says of the bytes `a` and those behind them.
pub open spec fn goes_on<C, M>(decode: Decode<C, M>, c: C, a: Seq<u8>, more: Seq<u8>) -> bool {
    let (c1, n, result) = decode(c, a);
    &&& n <= a.len()
    &&& match result {
        Ok(Some(_)) => decode(c, a + more) == (c1, n, result),
        Ok(None) => {
            let (c2, m, later) = decode(c1, a.skip(n as int) + more);
            decode(c, a + more) == (c2, n + m, later)
        },
        Err(_) => decode(c, a + more).2 is Err,
    }
}

/// Decoding `bytes` gives exactly the messages `ms`; what is left then is at most an incomplete
/// message.
pub open spec fn decodes_to<C, M>(
    decode: Decode<C, M>,
    c: C,
    bytes: Seq<u8>,
    ms: Seq<M>,
) -> bool
    decreases ms.len(),
{
    let (c1, n, result) = decode(c, bytes);
    if ms.len() == 0 {
        result == Ok::<Option<M>, CodecError>(None)
    } else {
        result == Ok::<Option<M>, CodecError>(Some(ms[0])) && decodes_to(
            decode,
            c1,
            bytes.skip(n as int),
            ms.drop_first(),
        )
    }
}

/// The state of the decoder after `calls`.
pub open spec fn decoder_after<C, H, M>(
    decode: Decode<C, M>,
    c: C,
    run: ReaderRun<H>,
    calls: Seq<ReaderCall<H, M>>,
) -> C
    decreases calls.len(),
{
    if calls.len() == 0 {
        c
    } else {
        let rest = calls.drop_last();
        let before = decoder_after(decode, c, run, rest);
        match calls.last() {
            ReaderCall::Decoded(_, _) => decode(before, after(run, rest).reader.decode_buf).0,
            _ => before,
        }
    }
}

/// All decoding in `calls` is done by the decoder, and no read fails.
pub open spec fn served_by<C, H, M>(
    decode: Decode<C, M>,
    c: C,
    run: ReaderRun<H>,
    calls: Seq<ReaderCall<H, M>>,
) -> bool
    decreases calls.len(),
{
    calls.len() > 0 ==> {
        let rest = calls.drop_last();
        let (_, n, result) = decode(
            decoder_after(decode, c, run, rest),
            after(run, rest).reader.decode_buf,
        );
        &&& served_by(decode, c, run, rest)
        &&& match calls.last() {
            ReaderCall::Decoded(k, given) => k == n && given == result,
            ReaderCall::ReadPolled(Poll::Ready((_, Err(_), _))) => false,
            _ => true,
        }
    }
}

/// What an action gives to whoever asked for a message.
pub open spec fn given<H, M>(action: ReadAction<H, Seq<u8>, M>) -> Seq<Result<M, CodecError>> {
    match action {
        ReadAction::Return(Poll::Ready(Some(result))) => seq![result],
        _ => Seq::empty(),
    }
}

/// All that `calls` give, in order.
pub open spec fn results<H, M>(run: ReaderRun<H>, calls: Seq<ReaderCall<H, M>>) -> Seq<
    Result<M, CodecError>,
>
    decreases calls.len(),
{
    if calls.len() == 0 {
        Seq::empty()
    } else {
        results(run, calls.drop_last()) + given(
            called(after(run, calls.drop_last()), calls.last()).1,
        )
    }
}

/// The messages as they are given.
pub open spec fn delivered<M>(ms: Seq<M>) -> Seq<Result<M, CodecError>> {
    Seq::new(ms.len(), |i: int| Ok::<M, CodecError>(ms[i]))
}

/// Law: however the transport splits the bytes, and wherever it is pending, the reader gives the
/// messages that the bytes decode to, in order, each once, and then the end. Before the end it
/// has given the first of them; an incomplete message at the end is dropped without an error.
pub proof fn law_messages_do_not_depend_on_the_split<C, H, M>(
    decode: Decode<C, M>,
    c: C,
    run: ReaderRun<H>,
    calls: Seq<ReaderCall<H, M>>,
    later: Seq<u8>,
    ms: Seq<M>,
)
    requires
        incremental(decode),
        run.reader.wf(),
        !run.reader.read_op,
        !run.reader.eof,
        all_allowed(run, calls),
        served_by(decode, c, run, calls),
        // `later` is what the transport will deliver after these calls.
        decodes_to(decode, c, run.buffered() + received(calls) + later, ms),
        after(run, calls).reader.eof ==> later.len() == 0,
    ensures
        results(run, calls).len() <= ms.len(),
        results(run, calls) == delivered(ms.take(results(run, calls).len() as int)),
        after(run, calls).reader.eof ==> results(run, calls) == delivered(ms),
        after(run, calls).reader.eof ==> after(run, calls).reader.next::<M>() == ReadAction::<
            H,
            Seq<u8>,
            M,
        >::Return(Poll::Ready(None)),
{
    lemma_messages(decode, c, run, calls, later, ms);
    let out = results(run, calls);
    let end = after(run, calls);
    if end.reader.eof {
        assert(end.buffered() + later =~= end.buffered());
        assert(ms.skip(out.len() as int).len() == 0);
        assert(ms.take(out.len() as int) =~= ms);
    }
}

proof fn lemma_messages<C, H, M>(
    decode: Decode<C, M>,
    c: C,
    run: ReaderRun<H>,
    calls: Seq<ReaderCall<H, M>>,
    later: Seq<u8>,
    ms: Seq<M>,
)
    requires
        incremental(decode),
        run.reader.wf(),
        !run.reader.read_op,
        !run.reader.eof,
        all_allowed(run, calls),
        served_by(decode, c, run, calls),
        decodes_to(decode, c, run.buffered() + received(calls) + later, ms),
    ensures
        ({
            let out = results(run, calls);
            let end = after(run, calls);
            let d = decoder_after(decode, c, run, calls);
            &&& end.reader.wf()
            &&& out.len() <= ms.len()
            &&& out == delivered(ms.take(out.len() as int))
            &&& decodes_to(decode, d, end.buffered() + later, ms.skip(out.len() as int))
            &&& end.reader.read_op || end.reader.eof ==> decode(d, end.buffered()).2 == Ok::<
                Option<M>,
                CodecError,
            >(None)
            &&& !(end.reader.read_op && end.reader.eof)
        }),
    decreases calls.len(),
{
    if calls.len() == 0 {
        assert(run.buffered() + received(calls) + later =~= run.buffered() + later);
        assert(ms.skip(0) =~= ms);
        assert(results(run, calls) =~= delivered(ms.take(0)));
    } else {
        let rest = calls.drop_last();
        let call = calls.last();
        let more = arrived(call) + later;
        assert(run.buffered() + received(calls) + later =~= run.buffered() + received(rest) + more);
        lemma_messages(decode, c, run, rest, more, ms);
        let p = after(run, rest);
        let q = after(run, calls);
        let d = decoder_after(decode, c, run, rest);
        let e = decoder_after(decode, c, run, calls);
        let out = results(run, rest);
        let all = results(run, calls);
        let left = ms.skip(out.len() as int);
        match call {
            ReaderCall::Next => {
                assert(more =~= later);
                assert(all =~= out);
            },
            ReaderCall::Decoded(n, result) => {
                assert(more =~= later);
                let buf = p.reader.decode_buf;
                assert(p.buffered() == buf);
                assert(goes_on(decode, d, buf, later));
                let rest_of = buf.skip(n as int);
                assert((buf + later).skip(n as int) =~= rest_of + later);
                match result {
                    Ok(Some(m)) => {
                        assert(left.len() > 0 && left[0] == m);
                        assert(all =~= out.push(Ok(m)));
                        assert(all =~= delivered(ms.take(all.len() as int)));
                        assert(left.drop_first() =~= ms.skip(all.len() as int));
                        assert(q.buffered() == rest_of);
                    },
                    Ok(None) => {
                        assert(all =~= out);
                        assert(q.buffered() == rest_of);
                        let k = decode(e, rest_of + later).1;
                        assert(goes_on(decode, e, rest_of + later, Seq::empty()));
                        if left.len() > 0 {
                            assert((buf + later).skip((n + k) as int) =~= (rest_of + later).skip(
                                k as int,
                            ));
                        }
                        assert(goes_on(decode, d, buf, Seq::empty()));
                        assert(buf + Seq::<u8>::empty() =~= buf);
                        assert(rest_of + Seq::<u8>::empty() =~= rest_of);
                    },
                    Err(_) => {
                        assert(false);
                    },
                }
            },
            ReaderCall::ReadPolled(outcome) => {
                assert(all =~= out);
                assert(q.buffered() =~= p.buffered() + arrived(call));
                assert(p.buffered() + more =~= q.buffered() + later);
            },
        }
    }
}

/// Law: a reader gives that nothing is there yet only while a read is under way, so that the end of
/// the read brings it forward. Whenever decoding needs more bytes, however many are buffered, a
/// read is asked for with all of them.
pub proof fn law_reader_waits_only_for_reads<H, M>(run: ReaderRun<H>, call: ReaderCall<H, M>)
    requires
        run.reader.wf(),
        allowed(run, call),
    ensures
        called(run, call).0.reader.wf(),
        called(run, call).1 == ReadAction::<H, Seq<u8>, M>::Return(Poll::Pending) ==> called(
            run,
            call,
        ).0.reader.read_op,
        call matches ReaderCall::Decoded(n, Ok(None)) ==> (called(
            run,
            call,
        ).1 matches ReadAction::StartRead(h, given) && run.reader.inner == Some(h) && given
            == run.reader.decode_buf.skip(n as int) && called(run, call).0.reader.read_op),
        call matches ReaderCall::Decoded(_, Ok(Some(m))) ==> called(run, call).1 == ReadAction::<
            H,
            Seq<u8>,
            M,
        >::Return(Poll::Ready(Some(Ok(m)))),
        call matches ReaderCall::Decoded(_, Err(e)) ==> called(run, call).1 == ReadAction::<
            H,
            Seq<u8>,
            M,
        >::Return(Poll::Ready(Some(Err(e)))),
        call matches ReaderCall::ReadPolled(Poll::Ready((h, Err(e), _))) ==> called(
            run,
            call,
        ).1 == ReadAction::<H, Seq<u8>, M>::Return(Poll::Ready(Some(Err(CodecError::Io(e)))))
            && called(run, call).0.reader.inner == Some(h) && called(run, call).0.reader.eof
            == run.reader.eof,
{
}

/// The call does what the action asks for; a reader that has returned is asked again.
pub open spec fn answers<H, M>(action: ReadAction<H, Seq<u8>, M>, call: ReaderCall<H, M>) -> bool {
    match action {
        ReadAction::Decode => call is Decoded,
        ReadAction::StartRead(_, _) => call is ReadPolled,
        ReadAction::PollRead => call is ReadPolled,
        ReadAction::Return(_) => call is Next,
    }
}

/// What the last of `calls` asked for; before any, the reader is idle.
pub open spec fn last_action<H, M>(run: ReaderRun<H>, calls: Seq<ReaderCall<H, M>>) -> ReadAction<
    H,
    Seq<u8>,
    M,
> {
    if calls.len() == 0 {
        ReadAction::Return(Poll::Pending)
    } else {
        called(after(run, calls.drop_last()), calls.last()).1
    }
}

/// Each of `calls` does what the one before it asked for.
pub open spec fn obedient<H, M>(run: ReaderRun<H>, calls: Seq<ReaderCall<H, M>>) -> bool
    decreases calls.len(),
{
    calls.len() > 0 ==> obedient(run, calls.drop_last()) && answers(
        last_action(run, calls.drop_last()),
        calls.last(),
    )
}

/// The outcomes that the transport gave in `calls`, in order.
pub open spec fn outcomes<H, M>(calls: Seq<ReaderCall<H, M>>) -> Seq<
    Poll<(H, Result<usize, IoError>, Seq<u8>)>,
>
    decreases calls.len(),
{
    if calls.len() == 0 {
        Seq::empty()
    } else {
        let before = outcomes(calls.drop_last());
        match calls.last() {
            ReaderCall::ReadPolled(outcome) => before.push(outcome),
            _ => before,
        }
    }
}

/// The calls since something was given or the transport was polled, at most.
spec fn slack<H, M>(action: ReadAction<H, Seq<u8>, M>) -> nat {
    match action {
        ReadAction::Return(_) => 0,
        ReadAction::Decode => 1,
        ReadAction::PollRead => 1,
        ReadAction::StartRead(_, _) => 2,
    }
}

/// Law: a reader that is polled on does not idle: until the end, of any three calls one gives a
/// result or polls the transport.
pub proof fn law_reader_does_not_idle<H, M>(run: ReaderRun<H>, calls: Seq<ReaderCall<H, M>>)
    requires
        run.reader.wf(),
        all_allowed(run, calls),
        obedient(run, calls),
        !after(run, calls).reader.eof,
    ensures
        calls.len() <= 3 * (results(run, calls).len() + outcomes(calls).len()) + 2,
{
    lemma_progress(run, calls);
}

proof fn lemma_progress<H, M>(run: ReaderRun<H>, calls: Seq<ReaderCall<H, M>>)
    requires
        run.reader.wf(),
        all_allowed(run, calls),
        obedient(run, calls),
        !after(run, calls).reader.eof,
    ensures
        after(run, calls).reader.wf(),
        calls.len() <= 3 * (results(run, calls).len() + outcomes(calls).len()) + slack(
            last_action(run, calls),
        ),
    decreases calls.len(),
{
    if calls.len() > 0 {
        let rest = calls.drop_last();
        let p = after(run, rest);
        let call = calls.last();
        lemma_wf(run, rest);
        law_reader_waits_only_for_reads(p, call);
        assert(!p.reader.eof) by {
            if p.reader.eof {
                assert(called(p, call).0.reader.eof);
            }
        }
        lemma_progress(run, rest);
    }
}

proof fn lemma_wf<H, M>(run: ReaderRun<H>, calls: Seq<ReaderCall<H, M>>)
    requires
        run.reader.wf(),
        all_allowed(run, calls),
    ensures
        after(run, calls).reader.wf(),
    decreases calls.len(),
{
    if calls.len() > 0 {
        lemma_wf(run, calls.drop_last());
    }
}

/// The bytes that the outcomes bring, in order.
pub open spec fn brought<H>(outcomes: Seq<Poll<(H, Result<usize, IoError>, Seq<u8>)>>) -> Seq<u8>
    decreases outcomes.len(),
{
    if outcomes.len() == 0 {
        Seq::empty()
    } else {
        let before = brought(outcomes.drop_last());
        match outcomes.last() {
            Poll::Ready((_, _, more)) => before + more,
            Poll::Pending => before,
        }
    }
}

/// The outcome says that the connection is closed.
pub open spec fn closes<H>(outcome: Poll<(H, Result<usize, IoError>, Seq<u8>)>) -> bool {
    outcome matches Poll::Ready((_, Ok(n), _)) && n == 0
}

proof fn lemma_brought<H, M>(run: ReaderRun<H>, calls: Seq<ReaderCall<H, M>>)
    requires
        !run.reader.eof,
        all_allowed(run, calls),
    ensures
        received(calls) == brought(outcomes(calls)),
        after(run, calls).reader.eof <==> exists|i: int|
            0 <= i < outcomes(calls).len() && closes(#[trigger] outcomes(calls)[i]),
    decreases calls.len(),
{
    if calls.len() > 0 {
        let rest = calls.drop_last();
        let some = outcomes(rest);
        let all = outcomes(calls);
        lemma_brought(run, rest);
        match calls.last() {
            ReaderCall::ReadPolled(outcome) => {
                assert(all.drop_last() =~= some);
                assert(received(calls) =~= brought(all));
                if exists|i: int| 0 <= i < all.len() && closes(#[trigger] all[i]) {
                    let i = choose|i: int| 0 <= i < all.len() && closes(#[trigger] all[i]);
                    if i < some.len() {
                        assert(closes(some[i]));
                    }
                }
                if exists|i: int| 0 <= i < some.len() && closes(#[trigger] some[i]) {
                    let i = choose|i: int| 0 <= i < some.len() && closes(#[trigger] some[i]);
                    assert(closes(all[i]));
                }
                if closes(outcome) {
                    assert(closes(all[some.len() as int]));
                }
            },
            _ => {
                assert(received(calls) =~= received(rest));
            },
        }
    }
}

proof fn lemma_brought_split<H>(
    all: Seq<Poll<(H, Result<usize, IoError>, Seq<u8>)>>,
    n: int,
)
    requires
        0 <= n <= all.len(),
    ensures
        brought(all) == brought(all.take(n)) + brought(all.skip(n)),
    decreases all.len(),
{
    if n == all.len() {
        assert(all.take(n) =~= all);
        assert(brought(all.skip(n)) =~= Seq::<u8>::empty());
        assert(brought(all) =~= brought(all.take(n)) + brought(all.skip(n)));
    } else {
        let less = all.drop_last();
        lemma_brought_split(less, n);
        assert(less.take(n) =~= all.take(n));
        assert(all.skip(n).drop_last() =~= less.skip(n));
        assert(all.skip(n).last() == all.last());
        assert(brought(all) =~= brought(all.take(n)) + brought(all.skip(n)));
    }
}

/// Law: over a transport that delivers all bytes and then ends, pending wherever it likes, a reader
/// that is polled on comes to the end, after a number of calls bounded by what there is, and has
/// then given every message, whatever its size.
pub proof fn law_reader_comes_to_the_end<C, H, M>(
    decode: Decode<C, M>,
    c: C,
    run: ReaderRun<H>,
    calls: Seq<ReaderCall<H, M>>,
    transport: Seq<Poll<(H, Result<usize, IoError>, Seq<u8>)>>,
    ms: Seq<M>,
)
    requires
        incremental(decode),
        run.reader.wf(),
        !run.reader.read_op,
        !run.reader.eof,
        all_allowed(run, calls),
        served_by(decode, c, run, calls),
        obedient(run, calls),
        outcomes(calls).is_prefix_of(transport),
        transport.len() > 0,
        forall|i: int|
            0 <= i < transport.len() ==> (closes(#[trigger] transport[i]) <==> i == transport.len()
                - 1),
        decodes_to(decode, c, run.buffered() + brought(transport), ms),
        calls.len() > 3 * (ms.len() + transport.len()) + 2,
    ensures
        after(run, calls).reader.eof,
        results(run, calls) == delivered(ms),
{
    let done = outcomes(calls);
    let n = done.len() as int;
    let end = after(run, calls);
    let later = brought(transport.skip(n));
    assert(transport.take(n) =~= done);
    lemma_brought(run, calls);
    lemma_brought_split(transport, n);
    assert(run.buffered() + received(calls) + later =~= run.buffered() + brought(transport));
    if end.reader.eof {
        let i = choose|i: int| 0 <= i < done.len() && closes(#[trigger] done[i]);
        assert(closes(transport[i]));
        assert(transport.skip(n).len() == 0);
    }
    law_messages_do_not_depend_on_the_split(decode, c, run, calls, later, ms);
    if !end.reader.eof {
        law_reader_does_not_idle(run, calls);
        assert(false);
    }
}

} // verus!
