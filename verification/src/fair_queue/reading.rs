//! What one whole read of the queue gives.

use crate::fair_queue::laws::has_turn_of;
use crate::fair_queue::{
    lemma_stale, stepped, NextPoll, PollAction, PollEvent, QueueView, WakeState,
};
use crate::poll::Poll;
use vstd::prelude::*;

verus! {

/// What polling a stream gives, and what the stream is afterwards.
pub type PollStream<S, T> = spec_fn(S) -> (Poll<Option<T>>, S);

/// What a read gives, and the queue after it, when no stream wakes while the read goes on.
pub open spec fn read<S, K, W, D, T>(
    q: QueueView<S, K, W, D>,
    poll: PollStream<S, T>,
    block_on_no_clients: bool,
) -> (Poll<Option<(K, T)>>, QueueView<S, K, W, D>)
    decreases q.ready.len(),
{
    let (next, left) = q.pick(block_on_no_clients);
    match next {
        NextPoll::Poll(event, stream) => {
            let (outcome, polled) = poll(stream);
            match outcome {
                Poll::Ready(Some(item)) => (
                    Poll::Ready(Some((event.key, item))),
                    left.schedule(event.key, polled),
                ),
                Poll::Ready(None) => read(left, poll, block_on_no_clients),
                Poll::Pending => read(left.park(event.key, polled), poll, block_on_no_clients),
            }
        },
        NextPoll::Pending => (Poll::Pending, left),
        NextPoll::Finished => (Poll::Ready(None), left),
    }
}

/// A step of a read: the waker it was given, what it asked for, and the state after it.
#[verifier::reject_recursive_types(K)]
pub struct Step<S, K, W, D, T> {
    pub waker: W,
    pub action: PollAction<S, K, T, D>,
    pub queue: QueueView<S, K, W, D>,
    pub wake_state: WakeState<K, W>,
}

/// What the reader reports after doing what it was asked for.
pub open spec fn answer<S, K, D, T>(
    action: PollAction<S, K, T, D>,
    poll: PollStream<S, T>,
) -> PollEvent<S, K, T> {
    match action {
        PollAction::Poll(turn, stream) => PollEvent::Polled(turn, poll(stream).1, poll(stream).0),
        _ => PollEvent::Enter,
    }
}

/// `steps` take a read from `event` to what it returns, one after the other.
pub open spec fn runs<S, K, W: Clone, D: Clone, T>(
    q: QueueView<S, K, W, D>,
    wake_state: WakeState<K, W>,
    event: PollEvent<S, K, T>,
    poll: PollStream<S, T>,
    block_on_no_clients: bool,
    steps: Seq<Step<S, K, W, D, T>>,
) -> bool
    decreases steps.len(),
{
    &&& steps.len() > 0
    &&& stepped(
        q,
        wake_state,
        steps[0].waker,
        block_on_no_clients,
        event,
        steps[0].queue,
        steps[0].wake_state,
        steps[0].action,
    )
    &&& if steps[0].action is Return {
        steps.len() == 1
    } else {
        runs(
            steps[0].queue,
            steps[0].wake_state,
            answer(steps[0].action, poll),
            poll,
            block_on_no_clients,
            steps.drop_first(),
        )
    }
}

/// The queue with another waker.
pub open spec fn with_waker<S, K, W, D>(
    q: QueueView<S, K, W, D>,
    waker: Option<W>,
) -> QueueView<S, K, W, D> {
    QueueView { waker, ..q }
}

/// Law: the steps of a read come to what [`read`] says, from the queue with the turns of the
/// streams that had woken; they differ in the waker alone, which each step remembers.
pub proof fn law_steps_make_a_read<S, K, W: Clone, D: Clone, T>(
    q: QueueView<S, K, W, D>,
    wake_state: WakeState<K, W>,
    poll: PollStream<S, T>,
    block_on_no_clients: bool,
    steps: Seq<Step<S, K, W, D, T>>,
)
    requires
        runs(q, wake_state, PollEvent::Enter, poll, block_on_no_clients, steps),
    ensures
        ({
            let (outcome, left) = read(q.collect(wake_state.woken()), poll, block_on_no_clients);
            let last = steps.last();
            &&& last.action == PollAction::<S, K, T, D>::Return(outcome)
            &&& last.queue == with_waker(left, last.queue.waker)
            &&& last.wake_state.woken().len() == 0
        }),
{
    lemma_runs(q, wake_state, PollEvent::Enter, poll, block_on_no_clients, steps);
}

/// What `n` successive reads give, and the queue after them, when no stream wakes meanwhile.
pub open spec fn reads<S, K, W, D, T>(
    q: QueueView<S, K, W, D>,
    poll: PollStream<S, T>,
    block_on_no_clients: bool,
    n: nat,
) -> (Seq<Poll<Option<(K, T)>>>, QueueView<S, K, W, D>)
    decreases n,
{
    if n == 0 {
        (Seq::empty(), q)
    } else {
        let (first, p) = read(q, poll, block_on_no_clients);
        let (later, end) = reads(p, poll, block_on_no_clients, (n - 1) as nat);
        (seq![first] + later, end)
    }
}

/// `calls` are reads, one after the other, each as its steps; no stream wakes between them.
pub open spec fn all_run<S, K, W: Clone, D: Clone, T>(
    q: QueueView<S, K, W, D>,
    wake_state: WakeState<K, W>,
    poll: PollStream<S, T>,
    block_on_no_clients: bool,
    calls: Seq<Seq<Step<S, K, W, D, T>>>,
) -> bool
    decreases calls.len(),
{
    calls.len() > 0 ==> {
        &&& runs(q, wake_state, PollEvent::Enter, poll, block_on_no_clients, calls[0])
        &&& all_run(
            calls[0].last().queue,
            calls[0].last().wake_state,
            poll,
            block_on_no_clients,
            calls.drop_first(),
        )
    }
}

/// Law: successive calls, each a series of steps, return what [`reads`] says.
pub proof fn law_steps_make_reads<S, K, W: Clone, D: Clone, T>(
    q: QueueView<S, K, W, D>,
    wake_state: WakeState<K, W>,
    poll: PollStream<S, T>,
    block_on_no_clients: bool,
    calls: Seq<Seq<Step<S, K, W, D, T>>>,
    i: int,
)
    requires
        wake_state.woken().len() == 0,
        all_run(q, wake_state, poll, block_on_no_clients, calls),
        0 <= i < calls.len(),
    ensures
        reads(q, poll, block_on_no_clients, calls.len()).0.len() == calls.len(),
        calls[i].last().action == PollAction::<S, K, T, D>::Return(
            reads(q, poll, block_on_no_clients, calls.len()).0[i],
        ),
    decreases calls.len(),
{
    law_steps_make_a_read(q, wake_state, poll, block_on_no_clients, calls[0]);
    assert(wake_state.woken() =~= Seq::empty());
    assert(q.collect(Seq::empty()) =~= q);
    let last = calls[0].last();
    let left = read(q, poll, block_on_no_clients).1;
    let rest = calls.drop_first();
    lemma_reads_waker(left, last.queue.waker, poll, block_on_no_clients, rest.len());
    if rest.len() > 0 {
        let j = if i > 0 {
            i - 1
        } else {
            0
        };
        law_steps_make_reads(last.queue, last.wake_state, poll, block_on_no_clients, rest, j);
    }
}

proof fn lemma_reads_waker<S, K, W, D, T>(
    q: QueueView<S, K, W, D>,
    w: Option<W>,
    poll: PollStream<S, T>,
    block_on_no_clients: bool,
    n: nat,
)
    ensures
        reads(with_waker(q, w), poll, block_on_no_clients, n).0 == reads(
            q,
            poll,
            block_on_no_clients,
            n,
        ).0,
    decreases n,
{
    if n > 0 {
        lemma_read_waker(q, w, poll, block_on_no_clients);
        lemma_reads_waker(
            read(q, poll, block_on_no_clients).1,
            w,
            poll,
            block_on_no_clients,
            (n - 1) as nat,
        );
    }
}

/// What a read comes to that goes on with `event`.
spec fn continued<S, K, W, D, T>(
    q: QueueView<S, K, W, D>,
    wake_state: WakeState<K, W>,
    event: PollEvent<S, K, T>,
    poll: PollStream<S, T>,
    block_on_no_clients: bool,
) -> (Poll<Option<(K, T)>>, QueueView<S, K, W, D>) {
    match event {
        PollEvent::Polled(turn, stream, Poll::Ready(Some(item))) => (
            Poll::Ready(Some((turn.key, item))),
            q.schedule(turn.key, stream),
        ),
        PollEvent::Polled(turn, stream, Poll::Pending) => read(
            q.park(turn.key, stream).collect(wake_state.woken()),
            poll,
            block_on_no_clients,
        ),
        _ => read(q.collect(wake_state.woken()), poll, block_on_no_clients),
    }
}

proof fn lemma_runs<S, K, W: Clone, D: Clone, T>(
    q: QueueView<S, K, W, D>,
    wake_state: WakeState<K, W>,
    event: PollEvent<S, K, T>,
    poll: PollStream<S, T>,
    block_on_no_clients: bool,
    steps: Seq<Step<S, K, W, D, T>>,
)
    requires
        runs(q, wake_state, event, poll, block_on_no_clients, steps),
        event is Enter || wake_state.woken().len() == 0,
    ensures
        ({
            let (outcome, left) = continued(q, wake_state, event, poll, block_on_no_clients);
            let last = steps.last();
            &&& last.action == PollAction::<S, K, T, D>::Return(outcome)
            &&& last.queue == with_waker(left, last.queue.waker)
            &&& last.wake_state.woken().len() == 0
        }),
    decreases steps.len(),
{
    reveal_with_fuel(runs, 2);
    let first = steps[0];
    let base = match event {
        PollEvent::Polled(turn, stream, Poll::Pending) => q.park(turn.key, stream),
        _ => q,
    };
    let start = base.collect(wake_state.woken());
    let w = first.queue.waker;
    let (next, left) = start.pick(block_on_no_clients);
    assert(with_waker(base, w).collect(wake_state.woken()) == with_waker(start, w));
    lemma_pick_waker(start, w, block_on_no_clients);
    if !(first.action is Return) {
        let rest = steps.drop_first();
        let then = answer(first.action, poll);
        lemma_runs(first.queue, first.wake_state, then, poll, block_on_no_clients, rest);
        assert(rest.last() == steps.last());
        let p = first.queue;
        assert(p.collect(Seq::empty()) =~= p);
        assert(first.wake_state.woken() =~= Seq::empty());
        match first.action {
            PollAction::Poll(turn, stream) => {
                let (outcome, polled) = poll(stream);
                let parked = left.park(turn.key, polled);
                assert(p == with_waker(left, w));
                assert(p.park(turn.key, polled).collect(Seq::empty()) =~= with_waker(parked, w));
                assert(p.schedule(turn.key, polled) == with_waker(
                    left.schedule(turn.key, polled),
                    w,
                ));
                lemma_read_waker(left, w, poll, block_on_no_clients);
                lemma_read_waker(parked, w, poll, block_on_no_clients);
            },
            _ => {},
        }
    }
}

proof fn lemma_pick_waker<S, K, W, D>(
    q: QueueView<S, K, W, D>,
    w: Option<W>,
    block_on_no_clients: bool,
)
    ensures
        with_waker(q, w).pick(block_on_no_clients) == (
            q.pick(block_on_no_clients).0,
            with_waker(q.pick(block_on_no_clients).1, w),
        ),
{
}

/// The waker plays no part in a read.
proof fn lemma_read_waker<S, K, W, D, T>(
    q: QueueView<S, K, W, D>,
    w: Option<W>,
    poll: PollStream<S, T>,
    block_on_no_clients: bool,
)
    ensures
        read(with_waker(q, w), poll, block_on_no_clients) == (
            read(q, poll, block_on_no_clients).0,
            with_waker(read(q, poll, block_on_no_clients).1, w),
        ),
    decreases q.ready.len(),
{
    lemma_pick_waker(q, w, block_on_no_clients);
    let (next, left) = q.pick(block_on_no_clients);
    match next {
        NextPoll::Poll(event, stream) => {
            let (outcome, polled) = poll(stream);
            match outcome {
                Poll::Ready(Some(_)) => {},
                Poll::Ready(None) => lemma_read_waker(left, w, poll, block_on_no_clients),
                Poll::Pending => {
                    let parked = left.park(event.key, polled);
                    assert(with_waker(left, w).park(event.key, polled) == with_waker(parked, w));
                    lemma_read_waker(parked, w, poll, block_on_no_clients);
                },
            }
        },
        _ => {},
    }
}

/// Law: a queue without streams, such as one that was cleared, gives nothing. A read of it is a
/// single step, which polls no stream and tells no callback, whichever streams woke before; the
/// queue stays without streams.
pub proof fn law_cleared_queue_gives_nothing<S, K, W: Clone, D: Clone, T>(
    q: QueueView<S, K, W, D>,
    wake_state: WakeState<K, W>,
    poll: PollStream<S, T>,
    block_on_no_clients: bool,
    steps: Seq<Step<S, K, W, D, T>>,
)
    requires
        q.streams.is_empty(),
        runs(q, wake_state, PollEvent::Enter, poll, block_on_no_clients, steps),
    ensures
        steps.len() == 1,
        steps[0].action == PollAction::<S, K, T, D>::Return(
            if block_on_no_clients {
                Poll::Pending
            } else {
                Poll::Ready(None)
            },
        ),
        steps[0].queue.streams.is_empty(),
{
    let c = with_waker(q, steps[0].queue.waker).collect(wake_state.woken());
    lemma_stale(c.ready, c.streams);
}

/// `calls` are reads, one after the other, each with the wakes that it finds and its steps; any
/// stream may wake at any time before and between them.
pub open spec fn all_run_waking<S, K, W: Clone, D: Clone, T>(
    q: QueueView<S, K, W, D>,
    poll: PollStream<S, T>,
    block_on_no_clients: bool,
    calls: Seq<(WakeState<K, W>, Seq<Step<S, K, W, D, T>>)>,
) -> bool
    decreases calls.len(),
{
    calls.len() > 0 ==> {
        &&& runs(q, calls[0].0, PollEvent::Enter, poll, block_on_no_clients, calls[0].1)
        &&& all_run_waking(calls[0].1.last().queue, poll, block_on_no_clients, calls.drop_first())
    }
}

/// Law: from when a queue is cleared until a stream is inserted, every read gives the end, or is
/// pending if the queue blocks; it is a single step, which polls no stream and tells no callback,
/// whichever of the cleared streams wake, and whenever they do.
pub proof fn law_cleared_queue_stays_silent<S, K, W: Clone, D: Clone, T>(
    q: QueueView<S, K, W, D>,
    poll: PollStream<S, T>,
    block_on_no_clients: bool,
    calls: Seq<(WakeState<K, W>, Seq<Step<S, K, W, D, T>>)>,
    i: int,
)
    requires
        all_run_waking(q.clear(), poll, block_on_no_clients, calls),
        0 <= i < calls.len(),
    ensures
        calls[i].1.len() == 1,
        calls[i].1[0].action == PollAction::<S, K, T, D>::Return(
            if block_on_no_clients {
                Poll::Pending
            } else {
                Poll::Ready(None)
            },
        ),
{
    lemma_silent(q.clear(), poll, block_on_no_clients, calls, i);
}

proof fn lemma_silent<S, K, W: Clone, D: Clone, T>(
    q: QueueView<S, K, W, D>,
    poll: PollStream<S, T>,
    block_on_no_clients: bool,
    calls: Seq<(WakeState<K, W>, Seq<Step<S, K, W, D, T>>)>,
    i: int,
)
    requires
        q.streams.is_empty(),
        all_run_waking(q, poll, block_on_no_clients, calls),
        0 <= i < calls.len(),
    ensures
        calls[i].1.len() == 1,
        calls[i].1[0].action == PollAction::<S, K, T, D>::Return(
            if block_on_no_clients {
                Poll::Pending
            } else {
                Poll::Ready(None)
            },
        ),
    decreases calls.len(),
{
    law_cleared_queue_gives_nothing(q, calls[0].0, poll, block_on_no_clients, calls[0].1);
    if i > 0 {
        let rest = calls.drop_first();
        lemma_silent(calls[0].1.last().queue, poll, block_on_no_clients, rest, i - 1);
        assert(rest[i - 1] == calls[i]);
    }
}

/// The queue without its first turn, whose stream, if it is there, was polled and gave no item.
pub open spec fn pass<S, K, W, D, T>(
    q: QueueView<S, K, W, D>,
    poll: PollStream<S, T>,
) -> QueueView<S, K, W, D> {
    let k = q.ready[0].key;
    let rest = QueueView { ready: q.ready.drop_first(), ..q };
    if !q.streams.contains_key(k) {
        rest
    } else {
        let (outcome, polled) = poll(q.streams[k]);
        match outcome {
            Poll::Pending => rest.park(k, polled),
            _ => rest.remove(k),
        }
    }
}

/// The queue after its first `n` turns gave no item.
pub open spec fn passed<S, K, W, D, T>(
    q: QueueView<S, K, W, D>,
    poll: PollStream<S, T>,
    n: nat,
) -> QueueView<S, K, W, D>
    decreases n,
{
    if n == 0 {
        q
    } else {
        passed(pass(q, poll), poll, (n - 1) as nat)
    }
}

/// The turn at `i` gives no item: its stream is not there, or polling it gives none.
pub open spec fn gives_nothing<S, K, W, D, T>(
    q: QueueView<S, K, W, D>,
    poll: PollStream<S, T>,
    i: int,
) -> bool {
    q.streams.contains_key(q.ready[i].key) ==> match poll(q.streams[q.ready[i].key]).0 {
        Poll::Ready(Some(_)) => false,
        _ => true,
    }
}

/// Each of the first `n` turns gives no item when it comes.
pub open spec fn give_nothing<S, K, W, D, T>(
    q: QueueView<S, K, W, D>,
    poll: PollStream<S, T>,
    n: nat,
) -> bool
    decreases n,
{
    n > 0 ==> q.ready.len() > 0 && gives_nothing(q, poll, 0) && give_nothing(
        pass(q, poll),
        poll,
        (n - 1) as nat,
    )
}

proof fn lemma_pass<S, K, W, D, T>(
    q: QueueView<S, K, W, D>,
    poll: PollStream<S, T>,
    block_on_no_clients: bool,
)
    requires
        q.ready.len() > 0,
        gives_nothing(q, poll, 0),
    ensures
        read(q, poll, block_on_no_clients) == read(pass(q, poll), poll, block_on_no_clients),
{
    let p = pass(q, poll);
    let k = q.ready[0].key;
    if q.streams.contains_key(k) {
        assert(q.stale() == 0);
        assert(q.ready.skip(1) =~= q.ready.drop_first());
        assert(p == match poll(q.streams[k]).0 {
            Poll::Pending => q.take_turn().park(k, poll(q.streams[k]).1),
            _ => q.take_turn(),
        }) by {
            assert(q.streams.remove(k).insert(k, poll(q.streams[k]).1) =~= q.streams.insert(
                k,
                poll(q.streams[k]).1,
            ));
        }
    } else {
        assert(q.stale() == 1 + p.stale());
        if q.has_turn() {
            assert(q.turn() == p.turn());
            assert(q.ready.skip(q.stale() as int + 1) =~= p.ready.skip(p.stale() as int + 1));
        }
        assert(q.pick(block_on_no_clients) == p.pick(block_on_no_clients));
    }
}

/// Law: a read goes through the turns in order, whatever the streams do: it passes over each turn
/// that gives no item, and ends with the first one that does. Its stream goes to the end.
pub proof fn law_read_stops_at_an_item<S, K, W, D, T>(
    q: QueueView<S, K, W, D>,
    poll: PollStream<S, T>,
    block_on_no_clients: bool,
    n: nat,
    item: T,
)
    requires
        give_nothing(q, poll, n),
        ({
            let p = passed(q, poll, n);
            &&& p.ready.len() > 0
            &&& p.streams.contains_key(p.ready[0].key)
            &&& poll(p.streams[p.ready[0].key]).0 == Poll::Ready(Some(item))
        }),
    ensures
        ({
            let p = passed(q, poll, n);
            let k = p.ready[0].key;
            read(q, poll, block_on_no_clients) == (
                Poll::Ready(Some((k, item))),
                (QueueView { ready: p.ready.drop_first(), ..p }).remove(k).schedule(
                    k,
                    poll(p.streams[k]).1,
                ),
            )
        }),
    decreases n,
{
    if n > 0 {
        lemma_pass(q, poll, block_on_no_clients);
        law_read_stops_at_an_item(
            pass(q, poll),
            poll,
            block_on_no_clients,
            (n - 1) as nat,
            item,
        );
    } else {
        assert(q.stale() == 0);
        assert(q.ready.skip(1) =~= q.ready.drop_first());
    }
}

/// Law: a read that finds no item has gone through all turns. It ends the queue exactly when no
/// stream is left then and none is to be waited for; otherwise it is pending.
pub proof fn law_read_without_an_item<S, K, W, D, T>(
    q: QueueView<S, K, W, D>,
    poll: PollStream<S, T>,
    block_on_no_clients: bool,
)
    requires
        give_nothing(q, poll, q.ready.len()),
    ensures
        ({
            let p = passed(q, poll, q.ready.len());
            read(q, poll, block_on_no_clients) == (
                if block_on_no_clients || !p.streams.is_empty() {
                    Poll::<Option<(K, T)>>::Pending
                } else {
                    Poll::<Option<(K, T)>>::Ready(None)
                },
                p,
            )
        }),
    decreases q.ready.len(),
{
    if q.ready.len() > 0 {
        lemma_pass(q, poll, block_on_no_clients);
        law_read_without_an_item(pass(q, poll), poll, block_on_no_clients);
    } else {
        assert(q.no_turns() =~= q);
    }
}

/// No stream has two turns. Turns whose stream is gone may be there.
pub open spec fn single_turns<S, K, W, D>(q: QueueView<S, K, W, D>) -> bool {
    forall|i: int, j: int|
        0 <= i < j < q.ready.len() && (#[trigger] q.ready[i]).key == (#[trigger] q.ready[j]).key
            ==> !q.streams.contains_key(q.ready[i].key)
}

/// Passing over the first turn leaves the other turns, and the streams that have one, as they
/// are.
pub(crate) proof fn lemma_passed<S, K, W, D, T>(
    q: QueueView<S, K, W, D>,
    poll: PollStream<S, T>,
    block_on_no_clients: bool,
)
    requires
        single_turns(q),
        q.ready.len() > 0,
        gives_nothing(q, poll, 0),
    ensures
        read(q, poll, block_on_no_clients) == read(pass(q, poll), poll, block_on_no_clients),
        single_turns(pass(q, poll)),
        pass(q, poll).ready == q.ready.drop_first(),
        pass(q, poll).counter == q.counter,
        forall|k: K|
            k != q.ready[0].key ==> (#[trigger] pass(q, poll).streams.contains_key(k)
                <==> q.streams.contains_key(k)) && pass(q, poll).streams[k] == q.streams[k],
        pass(q, poll).streams.contains_key(q.ready[0].key) <==> q.streams.contains_key(
            q.ready[0].key,
        ) && poll(q.streams[q.ready[0].key]).0 is Pending,
        q.streams.contains_key(q.ready[0].key) ==> !has_turn_of(
            pass(q, poll).ready,
            q.ready[0].key,
        ),
{
    lemma_pass(q, poll, block_on_no_clients);
    let p = pass(q, poll);
    assert forall|i: int, j: int|
        0 <= i < j < p.ready.len() && (#[trigger] p.ready[i]).key == (
        #[trigger] p.ready[j]).key implies !p.streams.contains_key(p.ready[i].key) by {
        assert(p.ready[i] == q.ready[i + 1] && p.ready[j] == q.ready[j + 1]);
        assert(q.ready[0].key == q.ready[i + 1].key ==> !q.streams.contains_key(q.ready[0].key));
    }
    if q.streams.contains_key(q.ready[0].key) {
        assert forall|i: int| 0 <= i < p.ready.len() implies (#[trigger] p.ready[i]).key
            != q.ready[0].key by {
            assert(p.ready[i] == q.ready[i + 1]);
        }
    }
}

/// Law: no stream is starved by pending, ended or removed ones. A read gives the item of the
/// first turn whose stream has one, whatever the streams before it do.
pub proof fn law_read_gives_the_first_item<S, K, W, D, T>(
    q: QueueView<S, K, W, D>,
    poll: PollStream<S, T>,
    block_on_no_clients: bool,
    n: int,
    item: T,
)
    requires
        single_turns(q),
        0 <= n < q.ready.len(),
        forall|i: int| 0 <= i < n ==> #[trigger] gives_nothing(q, poll, i),
        q.streams.contains_key(q.ready[n].key),
        poll(q.streams[q.ready[n].key]).0 == Poll::Ready(Some(item)),
    ensures
        read(q, poll, block_on_no_clients).0 == Poll::Ready(Some((q.ready[n].key, item))),
    decreases n,
{
    if n == 0 {
        assert(q.stale() == 0);
    } else {
        assert(gives_nothing(q, poll, 0));
        lemma_passed(q, poll, block_on_no_clients);
        let p = pass(q, poll);
        assert forall|i: int| 0 <= i < n - 1 implies #[trigger] gives_nothing(p, poll, i) by {
            assert(gives_nothing(q, poll, i + 1));
            assert(p.ready[i] == q.ready[i + 1]);
            lemma_later_turn(q, poll, i + 1);
        }
        assert(p.ready[n - 1] == q.ready[n]);
        lemma_later_turn(q, poll, n);
        law_read_gives_the_first_item(p, poll, block_on_no_clients, n - 1, item);
    }
}

/// A later turn finds its stream as it was.
proof fn lemma_later_turn<S, K, W, D, T>(
    q: QueueView<S, K, W, D>,
    poll: PollStream<S, T>,
    i: int,
)
    requires
        single_turns(q),
        0 < i < q.ready.len(),
    ensures
        pass(q, poll).streams.contains_key(q.ready[i].key) <==> q.streams.contains_key(
            q.ready[i].key,
        ),
        pass(q, poll).streams.contains_key(q.ready[i].key) ==> pass(
            q,
            poll,
        ).streams[q.ready[i].key] == q.streams[q.ready[i].key],
{
    assert(q.ready[0].key == q.ready[i].key ==> !q.streams.contains_key(q.ready[0].key));
}

/// Some stream is left to wait for: one that has no turn, or one that is pending.
pub open spec fn someone_waits<S, K, W, D, T>(
    q: QueueView<S, K, W, D>,
    poll: PollStream<S, T>,
) -> bool {
    exists|k: K| #[trigger]
        q.streams.contains_key(k) && (!has_turn_of(q.ready, k) || poll(q.streams[k]).0 is Pending)
}

/// Law: a read without an item ends the queue exactly when every stream has ended and none is to
/// be waited for; otherwise it is pending.
pub proof fn law_read_ends_with_the_last_stream<S, K, W, D, T>(
    q: QueueView<S, K, W, D>,
    poll: PollStream<S, T>,
    block_on_no_clients: bool,
)
    requires
        single_turns(q),
        forall|i: int| 0 <= i < q.ready.len() ==> #[trigger] gives_nothing(q, poll, i),
    ensures
        read(q, poll, block_on_no_clients).0 == if block_on_no_clients || someone_waits(q, poll) {
            Poll::<Option<(K, T)>>::Pending
        } else {
            Poll::<Option<(K, T)>>::Ready(None)
        },
    decreases q.ready.len(),
{
    if q.ready.len() == 0 {
        if someone_waits(q, poll) {
            let k = choose|k: K| #[trigger]
                q.streams.contains_key(k) && (!has_turn_of(q.ready, k) || poll(
                    q.streams[k],
                ).0 is Pending);
            assert(q.streams.dom().contains(k));
            assert(!q.streams.is_empty());
        } else {
            assert(q.streams.dom() =~= Set::<K>::empty()) by {
                assert forall|k: K| !q.streams.dom().contains(k) by {
                    if q.streams.contains_key(k) {
                        assert(!has_turn_of(q.ready, k));
                    }
                }
            }
        }
    } else {
        assert(gives_nothing(q, poll, 0));
        lemma_passed(q, poll, block_on_no_clients);
        let p = pass(q, poll);
        let k0 = q.ready[0].key;
        assert forall|i: int| 0 <= i < p.ready.len() implies #[trigger] gives_nothing(
            p,
            poll,
            i,
        ) by {
            assert(gives_nothing(q, poll, i + 1));
            assert(p.ready[i] == q.ready[i + 1]);
            lemma_later_turn(q, poll, i + 1);
        }
        assert(someone_waits(p, poll) == someone_waits(q, poll)) by {
            if someone_waits(p, poll) {
                let k = choose|k: K| #[trigger]
                    p.streams.contains_key(k) && (!has_turn_of(p.ready, k) || poll(
                        p.streams[k],
                    ).0 is Pending);
                lemma_turns_left(q, poll, k);
                assert(q.streams.contains_key(k));
            }
            if someone_waits(q, poll) {
                let k = choose|k: K| #[trigger]
                    q.streams.contains_key(k) && (!has_turn_of(q.ready, k) || poll(
                        q.streams[k],
                    ).0 is Pending);
                lemma_turns_left(q, poll, k);
                assert(has_turn_of(q.ready, k0)) by {
                    assert(q.ready[0].key == k0);
                }
                assert(p.streams.contains_key(k));
            }
        }
        law_read_ends_with_the_last_stream(p, poll, block_on_no_clients);
    }
}

/// Passing over the first turn takes no turn from anybody else.
pub(crate) proof fn lemma_turns_left<S, K, W, D, T>(
    q: QueueView<S, K, W, D>,
    poll: PollStream<S, T>,
    k: K,
)
    requires
        q.ready.len() > 0,
    ensures
        k != q.ready[0].key ==> (has_turn_of(pass(q, poll).ready, k) <==> has_turn_of(q.ready, k)),
{
    let p = pass(q, poll);
    if has_turn_of(p.ready, k) {
        let i = choose|i: int| 0 <= i < p.ready.len() && (#[trigger] p.ready[i]).key == k;
        assert(q.ready[i + 1].key == k);
    }
    if has_turn_of(q.ready, k) && k != q.ready[0].key {
        let i = choose|i: int| 0 <= i < q.ready.len() && (#[trigger] q.ready[i]).key == k;
        assert(p.ready[i - 1].key == k);
    }
}

} // verus!
