//! What the calls of a fair queue do, by what goes into them and what comes out, also when streams
//! wake while a read goes on.

use crate::fair_queue::ready_queue::{
    enqueue, enqueue_all, lemma_enqueue_ordered, ordered, ReadyEvent, ReadyQueue,
};
use crate::fair_queue::{
    lawful_key, lemma_stale, stepped, FairQueue, NextPoll, PollAction, PollEvent, Polled,
    QueueInner, QueueView, WakeState,
};
use crate::poll::Poll;
use std::hash::Hash;
use vstd::prelude::*;

verus! {

proof fn lemma_enqueue_turns<K>(s: Seq<ReadyEvent<K>>, e: ReadyEvent<K>)
    ensures
        enqueue(s, e).to_multiset() == s.to_multiset().insert(e),
    decreases s.len(),
{
    broadcast use vstd::seq_lib::group_to_multiset_ensures;

    if s.len() > 0 && e.priority < s.last().priority {
        lemma_enqueue_turns(s.drop_last(), e);
        assert(s =~= s.drop_last().push(s.last()));
        assert(enqueue(s, e).to_multiset() =~= s.to_multiset().insert(e));
    }
}

/// Law: whatever turns streams ask for by waking, all of them join those that wait, in the order of
/// their priorities; none is lost and none comes twice.
pub proof fn law_woken_turns_join_the_others<K>(
    ready: Seq<ReadyEvent<K>>,
    woken: Seq<ReadyEvent<K>>,
)
    ensures
        enqueue_all(ready, woken).to_multiset() == ready.to_multiset().add(woken.to_multiset()),
        ordered(ready) ==> ordered(enqueue_all(ready, woken)),
        forall|e: ReadyEvent<K>| #[trigger]
            enqueue_all(ready, woken).contains(e) <==> ready.contains(e) || woken.contains(e),
    decreases woken.len(),
{
    broadcast use vstd::seq_lib::group_to_multiset_ensures;

    let all = enqueue_all(ready, woken);
    if woken.len() == 0 {
        assert(woken.to_multiset() =~= vstd::multiset::Multiset::<ReadyEvent<K>>::empty()) by {
            assert(woken.to_multiset().len() == 0);
        }
        assert(all.to_multiset() =~= ready.to_multiset().add(woken.to_multiset()));
    } else {
        let rest = woken.drop_last();
        law_woken_turns_join_the_others(ready, rest);
        let before = enqueue_all(ready, rest);
        lemma_enqueue_turns(before, woken.last());
        if ordered(ready) {
            lemma_enqueue_ordered(before, woken.last());
        }
        assert(woken =~= rest.push(woken.last()));
        assert(all.to_multiset() =~= ready.to_multiset().add(woken.to_multiset()));
    }
    assert forall|e: ReadyEvent<K>| #[trigger] all.contains(e) <==> ready.contains(e)
        || woken.contains(e) by {
        assert(all.contains(e) <==> all.to_multiset().count(e) > 0);
        assert(ready.contains(e) <==> ready.to_multiset().count(e) > 0);
        assert(woken.contains(e) <==> woken.to_multiset().count(e) > 0);
    }
}

/// Law: a turn is added behind those of the same or a lower priority and before the others, which
/// stay as they are; the one with the lowest priority is taken first.
pub proof fn law_ready_queue_is_ordered<K>(
    queue: &mut ReadyQueue<K>,
    event: ReadyEvent<K>,
    after: &mut ReadyQueue<K>,
    taken: Option<ReadyEvent<K>>,
)
    requires
        old(queue).wf(),
        call_ensures(ReadyQueue::<K>::push, (queue, event), ()),
        old(after).wf(),
        call_ensures(ReadyQueue::<K>::pop, (after,), taken),
    ensures
        final(queue)@.to_multiset() == old(queue)@.to_multiset().insert(event),
        forall|i: int, j: int|
            0 <= i <= j < final(queue)@.len() ==> (#[trigger] final(queue)@[i]).priority <= (
            #[trigger] final(queue)@[j]).priority,
        taken is None <==> old(after)@.len() == 0,
        taken is None ==> final(after)@ == old(after)@,
        taken matches Some(e) ==> old(after)@ == seq![e] + final(after)@ && forall|i: int|
            0 <= i < final(after)@.len() ==> e.priority <= (#[trigger] final(after)@[i]).priority,
{
    lemma_enqueue_turns(old(queue)@, event);
    if let Some(e) = taken {
        assert(old(after)@ =~= seq![e] + final(after)@);
        assert forall|i: int| 0 <= i < final(after)@.len() implies e.priority <= (
        #[trigger] final(after)@[i]).priority by {
            assert(final(after)@[i] == old(after)@[i + 1]);
            assert(old(after)@[0].priority <= old(after)@[i + 1].priority);
        }
    }
}

/// Law: a new queue of turns is empty, and so is one that was cleared.
pub proof fn law_ready_queue_can_be_empty<K>(new: ReadyQueue<K>, cleared: &mut ReadyQueue<K>)
    requires
        call_ensures(ReadyQueue::<K>::new, (), new),
        call_ensures(ReadyQueue::<K>::clear, (cleared,), ()),
    ensures
        new.wf(),
        new@.len() == 0,
        final(cleared).wf(),
        final(cleared)@.len() == 0,
{
}

/// Law: an inserted stream is stored under its key, in place of an earlier one, and gets one turn,
/// with the next priority; other streams, turns, the waker and the callback stay as they are. The
/// waker, if there is one, is to be woken.
pub proof fn law_inserting_adds_a_stream_and_a_turn<S, K: Clone + Eq + Hash, W, D>(
    queue: &mut QueueInner<S, K, W, D>,
    k: K,
    s: S,
    r: Option<&W>,
    x: K,
)
    requires
        old(queue).wf(),
        lawful_key::<K>(),
        call_ensures(QueueInner::<S, K, W, D>::insert, (queue, k, s), r),
    ensures
        final(queue).wf(),
        final(queue)@.streams.contains_key(k),
        final(queue)@.streams[k] == s,
        x != k ==> (final(queue)@.streams.contains_key(x) <==> old(queue)@.streams.contains_key(x)),
        x != k && old(queue)@.streams.contains_key(x) ==> final(queue)@.streams[x] == old(
            queue,
        )@.streams[x],
        final(queue)@.ready.to_multiset() == old(queue)@.ready.to_multiset().insert(
            ReadyEvent { priority: old(queue)@.counter, key: k },
        ),
        old(queue)@.counter < usize::MAX ==> final(queue)@.counter == old(queue)@.counter + 1,
        old(queue)@.counter == usize::MAX ==> final(queue)@.counter == 0,
        final(queue)@.waker == old(queue)@.waker,
        final(queue)@.on_disconnect == old(queue)@.on_disconnect,
        r is Some <==> old(queue)@.waker is Some,
        r matches Some(w) ==> old(queue)@.waker == Some(*w),
{
    lemma_enqueue_turns(old(queue)@.ready, ReadyEvent { priority: old(queue)@.counter, key: k });
}

/// Law: removing takes the stream of the key and nothing else.
pub proof fn law_removing_takes_one_stream<S, K: Clone + Eq + Hash, W, D>(
    queue: &mut QueueInner<S, K, W, D>,
    k: K,
    x: K,
)
    requires
        old(queue).wf(),
        lawful_key::<K>(),
        call_ensures(QueueInner::<S, K, W, D>::remove, (queue, &k), ()),
    ensures
        final(queue).wf(),
        !final(queue)@.streams.contains_key(k),
        x != k ==> (final(queue)@.streams.contains_key(x) <==> old(queue)@.streams.contains_key(x)),
        x != k && old(queue)@.streams.contains_key(x) ==> final(queue)@.streams[x] == old(
            queue,
        )@.streams[x],
        final(queue)@.ready == old(queue)@.ready,
        final(queue)@.counter == old(queue)@.counter,
        final(queue)@.waker == old(queue)@.waker,
        final(queue)@.on_disconnect == old(queue)@.on_disconnect,
{
}

/// Law: clearing drops all streams and turns and hands out the waker; the counter and the callback
/// stay.
pub proof fn law_clearing_drops_streams_and_turns<S, K: Clone + Eq + Hash, W, D>(
    queue: &mut QueueInner<S, K, W, D>,
    r: Option<W>,
    x: K,
)
    requires
        call_ensures(QueueInner::<S, K, W, D>::clear, (queue,), r),
    ensures
        final(queue).wf(),
        !final(queue)@.streams.contains_key(x),
        final(queue)@.ready.len() == 0,
        final(queue)@.waker is None,
        r == old(queue)@.waker,
        final(queue)@.counter == old(queue)@.counter,
        final(queue)@.on_disconnect == old(queue)@.on_disconnect,
{
}

/// Law: setting the callback changes nothing else, on the queue or on its parts.
pub proof fn law_setting_the_callback_changes_nothing_else<S, K: Clone + Eq + Hash, W, D>(
    queue: &mut QueueInner<S, K, W, D>,
    whole: &mut FairQueue<S, K, W, D>,
    callback: D,
)
    requires
        old(queue).wf(),
        old(whole).wf(),
        call_ensures(QueueInner::<S, K, W, D>::set_on_disconnect, (queue, callback), ()),
        call_ensures(FairQueue::<S, K, W, D>::set_on_disconnect, (whole, callback), ()),
    ensures
        final(queue)@.on_disconnect == Some(callback),
        final(queue)@.counter == old(queue)@.counter,
        final(queue)@.ready == old(queue)@.ready,
        final(queue)@.streams == old(queue)@.streams,
        final(queue)@.waker == old(queue)@.waker,
        final(whole).inner@.on_disconnect == Some(callback),
        final(whole).inner@.counter == old(whole).inner@.counter,
        final(whole).inner@.ready == old(whole).inner@.ready,
        final(whole).inner@.streams == old(whole).inner@.streams,
        final(whole).inner@.waker == old(whole).inner@.waker,
        final(whole).wake_state == old(whole).wake_state,
        final(whole).block_on_no_clients == old(whole).block_on_no_clients,
{
}

/// Law: a new queue holds nothing, and nobody is to be woken or told.
pub proof fn law_new_queue_is_empty<S, K: Clone + Eq + Hash, W, D>(
    block_on_no_clients: bool,
    whole: FairQueue<S, K, W, D>,
    queue: QueueInner<S, K, W, D>,
    wake_state: WakeState<K, W>,
    x: K,
)
    requires
        call_ensures(FairQueue::<S, K, W, D>::new, (block_on_no_clients,), whole),
        call_ensures(QueueInner::<S, K, W, D>::new, (), queue),
        call_ensures(WakeState::<K, W>::new, (), wake_state),
    ensures
        whole.block_on_no_clients == block_on_no_clients,
        whole.inner@ == queue@,
        whole.wake_state.woken().len() == 0,
        whole.wake_state.waker() is None,
        queue.wf(),
        queue@.counter == 0,
        queue@.ready.len() == 0,
        !queue@.streams.contains_key(x),
        queue@.waker is None,
        queue@.on_disconnect is None,
        wake_state.woken().len() == 0,
        wake_state.waker() is None,
{
}

/// Law: a stream that wakes asks for its turn behind those that woke before, and whoever is to be
/// woken for it is handed out, once.
pub proof fn law_waking_asks_for_the_turn<K: Clone, W>(
    wake_state: &mut WakeState<K, W>,
    event: ReadyEvent<K>,
    r: Option<W>,
)
    requires
        lawful_key::<K>(),
        call_ensures(WakeState::<K, W>::wake, (wake_state, &event), r),
    ensures
        final(wake_state).woken().len() == old(wake_state).woken().len() + 1,
        final(wake_state).woken().last() == event,
        final(wake_state).woken().drop_last() == old(wake_state).woken(),
        r == old(wake_state).waker(),
        final(wake_state).waker() is None,
{
    assert(final(wake_state).woken().drop_last() =~= old(wake_state).woken());
}

/// Law: each call that brings a read forward is a step as described by [`stepped`].
pub proof fn law_calls_are_steps<S, K: Clone + Eq + Hash, W: Clone, D: Clone, T>(
    queue: &mut QueueInner<S, K, W, D>,
    wake_state: &mut WakeState<K, W>,
    waker: W,
    block_on_no_clients: bool,
    event: PollEvent<S, K, T>,
    r: PollAction<S, K, T, D>,
    one: &mut FairQueue<S, K, W, D>,
    s: PollAction<S, K, T, D>,
    other: &mut FairQueue<S, K, W, D>,
    t: PollAction<S, K, T, D>,
)
    requires
        lawful_key::<K>(),
        old(queue).wf(),
        old(one).wf(),
        old(other).wf(),
        call_ensures(
            QueueInner::<S, K, W, D>::advance::<T>,
            (queue, wake_state, &waker, block_on_no_clients, event),
            r,
        ),
        call_ensures(FairQueue::<S, K, W, D>::poll_next_inner::<T>, (one, &waker, event), s),
        call_ensures(FairQueue::<S, K, W, D>::poll_next::<T>, (other, &waker, event), t),
    ensures
        final(queue).wf(),
        stepped(
            old(queue)@,
            *old(wake_state),
            waker,
            block_on_no_clients,
            event,
            final(queue)@,
            *final(wake_state),
            r,
        ),
        final(one).wf(),
        final(one).block_on_no_clients == old(one).block_on_no_clients,
        stepped(
            old(one).inner@,
            old(one).wake_state,
            waker,
            old(one).block_on_no_clients,
            event,
            final(one).inner@,
            final(one).wake_state,
            s,
        ),
        final(other).wf(),
        final(other).block_on_no_clients == old(other).block_on_no_clients,
        stepped(
            old(other).inner@,
            old(other).wake_state,
            waker,
            old(other).block_on_no_clients,
            event,
            final(other).inner@,
            final(other).wake_state,
            t,
        ),
{
}

/// What picking the next stream does to turns and streams.
proof fn lemma_pick<S, K, W, D>(q: QueueView<S, K, W, D>, block_on_no_clients: bool)
    ensures
        ({
            let (next, left) = q.pick(block_on_no_clients);
            &&& left.counter == q.counter
            &&& left.waker == q.waker
            &&& left.on_disconnect == q.on_disconnect
            &&& match next {
                NextPoll::Poll(turn, stream) => {
                    &&& q.ready.contains(turn)
                    &&& q.streams.contains_key(turn.key)
                    &&& stream == q.streams[turn.key]
                    &&& left.streams == q.streams.remove(turn.key)
                    &&& forall|e: ReadyEvent<K>| #[trigger]
                        q.ready.contains(e) ==> e == turn || left.ready.contains(e)
                            || !q.streams.contains_key(e.key)
                    &&& forall|e: ReadyEvent<K>| #[trigger]
                        left.ready.contains(e) ==> q.ready.contains(e)
                    &&& ordered(q.ready) ==> ordered(left.ready) && forall|e: ReadyEvent<K>|
                        #[trigger]
                        q.ready.contains(e) && q.streams.contains_key(e.key) ==> turn.priority
                            <= e.priority
                },
                _ => {
                    &&& left.streams == q.streams
                    &&& left.ready.len() == 0
                    &&& forall|e: ReadyEvent<K>| #[trigger]
                        q.ready.contains(e) ==> !q.streams.contains_key(e.key)
                    &&& next is Pending <==> block_on_no_clients || exists|x: K| #[trigger]
                        q.streams.contains_key(x)
                },
            }
        }),
{
    lemma_stale(q.ready, q.streams);
    let n = q.stale() as int;
    let left = q.pick(block_on_no_clients).1;
    if q.has_turn() {
        assert(q.ready.contains(q.ready[n]));
        assert forall|e: ReadyEvent<K>| #[trigger] q.ready.contains(e) implies e == q.turn()
            || left.ready.contains(e) || !q.streams.contains_key(e.key) by {
            let i = choose|i: int| 0 <= i < q.ready.len() && q.ready[i] == e;
            if i > n {
                assert(left.ready[i - n - 1] == e);
            }
        }
        assert forall|e: ReadyEvent<K>| #[trigger] left.ready.contains(e) implies q.ready.contains(
            e,
        ) by {
            let i = choose|i: int| 0 <= i < left.ready.len() && left.ready[i] == e;
            assert(q.ready[i + n + 1] == e);
        }
        if ordered(q.ready) {
            assert forall|e: ReadyEvent<K>| #[trigger]
                q.ready.contains(e) && q.streams.contains_key(e.key) implies q.turn().priority
                <= e.priority by {
                let i = choose|i: int| 0 <= i < q.ready.len() && q.ready[i] == e;
                assert(i >= n);
                assert(q.ready[n].priority <= q.ready[i].priority);
            }
            assert forall|i: int, j: int| 0 <= i <= j < left.ready.len() implies left.ready[i].priority
                <= left.ready[j].priority by {
                assert(left.ready[i] == q.ready[i + n + 1]);
                assert(left.ready[j] == q.ready[j + n + 1]);
            }
        }
    } else {
        assert forall|e: ReadyEvent<K>| #[trigger] q.ready.contains(e) implies !q.streams.contains_key(
            e.key,
        ) by {
            let i = choose|i: int| 0 <= i < q.ready.len() && q.ready[i] == e;
        }
        if exists|x: K| #[trigger] q.streams.contains_key(x) {
            let x = choose|x: K| #[trigger] q.streams.contains_key(x);
            assert(q.streams.dom().contains(x));
        } else {
            assert forall|x: K| !q.streams.dom().contains(x) by {
                assert(!q.streams.contains_key(x));
            }
            assert(q.streams.dom() =~= Set::<K>::empty());
        }
    }
}

/// Law: no turn and no wake is lost in a step. Each turn that waited, and each that a stream had
/// asked for by waking, is after the step still asked for, or waits, or is the one being polled,
/// or its stream has left the queue. A step that returns an item, or reports an ended stream,
/// leaves what streams have asked for as it is, and whom to wake too.
pub proof fn law_step_loses_no_wake<S, K, W: Clone, D: Clone, T>(
    before: QueueView<S, K, W, D>,
    wake_before: WakeState<K, W>,
    waker: W,
    block_on_no_clients: bool,
    event: PollEvent<S, K, T>,
    after: QueueView<S, K, W, D>,
    wake_after: WakeState<K, W>,
    action: PollAction<S, K, T, D>,
    e: ReadyEvent<K>,
)
    requires
        stepped(
            before,
            wake_before,
            waker,
            block_on_no_clients,
            event,
            after,
            wake_after,
            action,
        ),
    ensures
        before.ready.contains(e) || wake_before.woken().contains(e) ==> {
            ||| wake_after.woken().contains(e)
            ||| after.ready.contains(e)
            ||| action matches PollAction::Poll(turn, _) && turn == e
            ||| !after.streams.contains_key(e.key) && !(action matches PollAction::Poll(turn, _)
                && turn.key == e.key)
        },
        event matches PollEvent::Polled(_, _, Poll::Ready(_)) ==> wake_after.woken()
            == wake_before.woken() && wake_after.waker() == wake_before.waker() && after.waker
            == before.waker,
{
    broadcast use vstd::seq_lib::group_to_multiset_ensures;

    let base = match event {
        PollEvent::Polled(turn, stream, Poll::Pending) => before.park(turn.key, stream),
        _ => before,
    };
    let all = (QueueView { waker: after.waker, ..base }).collect(wake_before.woken());
    law_woken_turns_join_the_others(before.ready, wake_before.woken());
    lemma_pick(all, block_on_no_clients);
    match event {
        PollEvent::Polled(turn, _, Poll::Ready(Some(_))) => {
            let new = ReadyEvent { priority: before.counter, key: turn.key };
            lemma_enqueue_turns(before.ready, new);
            if before.ready.contains(e) {
                assert(before.ready.to_multiset().count(e) > 0);
                assert(after.ready.to_multiset().count(e) > 0);
            }
        },
        PollEvent::Polled(_, _, Poll::Ready(None)) => {},
        _ => {
            if before.ready.contains(e) || wake_before.woken().contains(e) {
                assert(all.ready.contains(e));
            }
        },
    }
}

/// Law: no stream is lost in a step, and none appears. After it the queue holds the streams it held
/// and the one given back, if that is pending or gave an item, each as it was, without the one
/// being polled, which is handed out as it was.
pub proof fn law_step_keeps_the_streams<S, K, W: Clone, D: Clone, T>(
    before: QueueView<S, K, W, D>,
    wake_before: WakeState<K, W>,
    waker: W,
    block_on_no_clients: bool,
    event: PollEvent<S, K, T>,
    after: QueueView<S, K, W, D>,
    wake_after: WakeState<K, W>,
    action: PollAction<S, K, T, D>,
    x: K,
)
    requires
        stepped(
            before,
            wake_before,
            waker,
            block_on_no_clients,
            event,
            after,
            wake_after,
            action,
        ),
    ensures
        ({
            let given = match event {
                PollEvent::Polled(turn, stream, Poll::Pending) => if turn.key == x {
                    Some(stream)
                } else {
                    None
                },
                PollEvent::Polled(turn, stream, Poll::Ready(Some(_))) => if turn.key == x {
                    Some(stream)
                } else {
                    None
                },
                _ => None,
            };
            let polled = match action {
                PollAction::Poll(turn, stream) => if turn.key == x {
                    Some(stream)
                } else {
                    None
                },
                _ => None,
            };
            let held = match given {
                Some(stream) => Some(stream),
                None => if before.streams.contains_key(x) {
                    Some(before.streams[x])
                } else {
                    None
                },
            };
            &&& polled is Some ==> polled == held && !after.streams.contains_key(x)
            &&& polled is None ==> (after.streams.contains_key(x) <==> held is Some)
            &&& polled is None && held is Some ==> Some(after.streams[x]) == held
        }),
{
    let base = match event {
        PollEvent::Polled(turn, stream, Poll::Pending) => before.park(turn.key, stream),
        _ => before,
    };
    let all = (QueueView { waker: after.waker, ..base }).collect(wake_before.woken());
    lemma_pick(all, block_on_no_clients);
}

/// The stream of `k` is in the queue, or was just polled.
pub open spec fn there<S, K, W, D, T>(
    before: QueueView<S, K, W, D>,
    event: PollEvent<S, K, T>,
    k: K,
) -> bool {
    before.streams.contains_key(k) || (event matches PollEvent::Polled(turn, _, _) && turn.key == k)
}

/// Law: when a read looks for a stream, it polls one of those whose turn waits or that have woken,
/// and none of them has an earlier turn. Only when no such stream is there does it return: the
/// end, if it need not wait for streams and there are none, and otherwise that nothing is there
/// yet; a wake after that finds whom to wake.
pub proof fn law_step_polls_the_earliest<S, K, W: Clone, D: Clone, T>(
    before: QueueView<S, K, W, D>,
    wake_before: WakeState<K, W>,
    waker: W,
    block_on_no_clients: bool,
    event: PollEvent<S, K, T>,
    after: QueueView<S, K, W, D>,
    wake_after: WakeState<K, W>,
    action: PollAction<S, K, T, D>,
)
    requires
        ordered(before.ready),
        stepped(
            before,
            wake_before,
            waker,
            block_on_no_clients,
            event,
            after,
            wake_after,
            action,
        ),
        event is Enter || (event matches PollEvent::Polled(_, _, Poll::Pending)),
    ensures
        ({
            &&& match action {
                PollAction::Poll(turn, _) => {
                    &&& there(before, event, turn.key)
                    &&& before.ready.contains(turn) || wake_before.woken().contains(turn)
                    &&& forall|e: ReadyEvent<K>| #[trigger]
                        before.ready.contains(e) && there(before, event, e.key) ==> turn.priority
                            <= e.priority
                    &&& forall|e: ReadyEvent<K>| #[trigger]
                        wake_before.woken().contains(e) && there(before, event, e.key)
                            ==> turn.priority <= e.priority
                },
                PollAction::Return(outcome) => {
                    &&& forall|e: ReadyEvent<K>| #[trigger]
                        before.ready.contains(e) ==> !there(before, event, e.key)
                    &&& forall|e: ReadyEvent<K>| #[trigger]
                        wake_before.woken().contains(e) ==> !there(before, event, e.key)
                    &&& outcome is Pending <==> block_on_no_clients || exists|k: K| #[trigger]
                        there(before, event, k)
                    &&& outcome is Ready ==> outcome == Poll::<Option<(K, T)>>::Ready(None)
                },
                PollAction::Disconnected(_, _, _) => true,
            }
            &&& action !is Disconnected
            &&& after.waker matches Some(w) && cloned(waker, w)
            &&& wake_after.waker() matches Some(w) && cloned(waker, w)
            &&& wake_after.woken().len() == 0
        }),
{
    let base = match event {
        PollEvent::Polled(turn, stream, Poll::Pending) => before.park(turn.key, stream),
        _ => before,
    };
    let all = (QueueView { waker: after.waker, ..base }).collect(wake_before.woken());
    law_woken_turns_join_the_others(before.ready, wake_before.woken());
    lemma_pick(all, block_on_no_clients);
    assert forall|k: K| #[trigger] there(before, event, k) <==> all.streams.contains_key(k) by {}
    assert forall|e: ReadyEvent<K>| #[trigger] before.ready.contains(e) implies all.ready.contains(
        e,
    ) by {}
    assert forall|e: ReadyEvent<K>| #[trigger]
        wake_before.woken().contains(e) implies all.ready.contains(e) by {}
    if exists|k: K| #[trigger] all.streams.contains_key(k) {
        let k = choose|k: K| #[trigger] all.streams.contains_key(k);
        assert(there(before, event, k));
    }
    if exists|k: K| #[trigger] there(before, event, k) {
        let k = choose|k: K| #[trigger] there(before, event, k);
        assert(all.streams.contains_key(k));
    }
    assert(wake_after.woken().len() == 0);
    match action {
        PollAction::Poll(turn, _) => {
            assert(all.ready.contains(turn));
            assert(before.ready.contains(turn) || wake_before.woken().contains(turn));
            assert(there(before, event, turn.key));
        },
        _ => {},
    }
}

/// Law: a stream that gave an item is put back and gets one new turn, with the next priority; the
/// item is returned under its key. One that ended is not put back, and its key goes to the
/// callback. The callback stays, and no step makes up turns.
pub proof fn law_step_reports_what_was_polled<S, K, W: Clone, D: Clone, T>(
    before: QueueView<S, K, W, D>,
    wake_before: WakeState<K, W>,
    waker: W,
    block_on_no_clients: bool,
    event: PollEvent<S, K, T>,
    after: QueueView<S, K, W, D>,
    wake_after: WakeState<K, W>,
    action: PollAction<S, K, T, D>,
)
    requires
        ordered(before.ready),
        stepped(
            before,
            wake_before,
            waker,
            block_on_no_clients,
            event,
            after,
            wake_after,
            action,
        ),
    ensures
        ordered(after.ready),
        after.on_disconnect == before.on_disconnect,
        match event {
            PollEvent::Polled(turn, _, Poll::Ready(Some(item))) => {
                &&& action matches PollAction::Return(Poll::Ready(Some((key, given)))) && key
                    == turn.key && given == item
                &&& after.ready.to_multiset() == before.ready.to_multiset().insert(
                    ReadyEvent { priority: before.counter, key: turn.key },
                )
                &&& before.counter < usize::MAX ==> after.counter == before.counter + 1
                &&& before.counter == usize::MAX ==> after.counter == 0
            },
            PollEvent::Polled(turn, stream, Poll::Ready(None)) => {
                &&& action matches PollAction::Disconnected(key, ended, callback) && key == turn.key
                    && ended == stream && (callback is Some <==> before.on_disconnect is Some)
                    && (callback is Some ==> cloned(before.on_disconnect->0, callback->0))
                &&& after.ready == before.ready
                &&& after.counter == before.counter
            },
            _ => {
                &&& after.counter == before.counter
                &&& forall|e: ReadyEvent<K>| #[trigger]
                    after.ready.contains(e) ==> before.ready.contains(e)
                        || wake_before.woken().contains(e)
            },
        },
{
    let base = match event {
        PollEvent::Polled(turn, stream, Poll::Pending) => before.park(turn.key, stream),
        _ => before,
    };
    let all = (QueueView { waker: after.waker, ..base }).collect(wake_before.woken());
    law_woken_turns_join_the_others(before.ready, wake_before.woken());
    lemma_pick(all, block_on_no_clients);
    if let PollEvent::Polled(turn, _, Poll::Ready(Some(_))) = event {
        let new = ReadyEvent { priority: before.counter, key: turn.key };
        lemma_enqueue_turns(before.ready, new);
        lemma_enqueue_ordered(before.ready, new);
    }
}

/// A step of a read, with what had woken before it.
#[verifier::reject_recursive_types(K)]
pub struct Move<S, K, W, D, T> {
    pub wake_before: WakeState<K, W>,
    pub event: PollEvent<S, K, T>,
    pub waker: W,
    pub action: PollAction<S, K, T, D>,
    pub queue: QueueView<S, K, W, D>,
    pub wake_state: WakeState<K, W>,
}

/// `moves` are steps, one after the other, of one read or of several; before each, any streams may
/// wake, and what they ask for comes behind what was asked for already.
pub open spec fn goes<S, K, W: Clone, D: Clone, T>(
    q: QueueView<S, K, W, D>,
    woken: Seq<ReadyEvent<K>>,
    block_on_no_clients: bool,
    moves: Seq<Move<S, K, W, D, T>>,
) -> bool
    decreases moves.len(),
{
    moves.len() > 0 ==> {
        &&& woken.is_prefix_of(moves[0].wake_before.woken())
        &&& stepped(
            q,
            moves[0].wake_before,
            moves[0].waker,
            block_on_no_clients,
            moves[0].event,
            moves[0].queue,
            moves[0].wake_state,
            moves[0].action,
        )
        &&& goes(
            moves[0].queue,
            moves[0].wake_state.woken(),
            block_on_no_clients,
            moves.drop_first(),
        )
    }
}

/// Law: no wake is lost over any steps, whenever streams wake. A turn that was asked for before step
/// `i` is at the end still asked for, or waits, unless it was polled in step `i` or later, or its
/// stream was out of the queue after such a step.
pub proof fn law_no_wake_is_lost<S, K, W: Clone, D: Clone, T>(
    q: QueueView<S, K, W, D>,
    woken: Seq<ReadyEvent<K>>,
    block_on_no_clients: bool,
    moves: Seq<Move<S, K, W, D, T>>,
    i: int,
    e: ReadyEvent<K>,
)
    requires
        goes(q, woken, block_on_no_clients, moves),
        0 <= i < moves.len(),
        moves[i].wake_before.woken().contains(e),
    ensures
        moves.last().wake_state.woken().contains(e) || moves.last().queue.ready.contains(e)
            || exists|j: int|
            i <= j < moves.len() && {
                ||| (#[trigger] moves[j]).action matches PollAction::Poll(turn, _) && turn == e
                ||| !moves[j].queue.streams.contains_key(e.key) && !(
                moves[j].action matches PollAction::Poll(turn, _) && turn.key == e.key)
            },
    decreases moves.len(),
{
    let rest = moves.drop_first();
    let first = moves[0];
    if i > 0 {
        law_no_wake_is_lost(
            first.queue,
            first.wake_state.woken(),
            block_on_no_clients,
            rest,
            i - 1,
            e,
        );
        lemma_shift(moves, i - 1, e);
    } else {
        lemma_kept(q, first.wake_before.woken(), block_on_no_clients, moves, e);
    }
}

/// A turn was polled in one of the moves from `i` on, or its stream was out of the queue.
spec fn served<S, K, W, D, T>(
    moves: Seq<Move<S, K, W, D, T>>,
    i: int,
    e: ReadyEvent<K>,
) -> bool {
    exists|j: int|
        i <= j < moves.len() && {
            ||| (#[trigger] moves[j]).action matches PollAction::Poll(turn, _) && turn == e
            ||| !moves[j].queue.streams.contains_key(e.key) && !(
            moves[j].action matches PollAction::Poll(turn, _) && turn.key == e.key)
        }
}

proof fn lemma_shift<S, K, W, D, T>(
    moves: Seq<Move<S, K, W, D, T>>,
    i: int,
    e: ReadyEvent<K>,
)
    requires
        0 <= i,
        moves.len() > 0,
    ensures
        served(moves.drop_first(), i, e) ==> served(moves, i + 1, e),
{
    let rest = moves.drop_first();
    if served(rest, i, e) {
        let j = choose|j: int|
            i <= j < rest.len() && {
                ||| (#[trigger] rest[j]).action matches PollAction::Poll(turn, _) && turn == e
                ||| !rest[j].queue.streams.contains_key(e.key) && !(
                rest[j].action matches PollAction::Poll(turn, _) && turn.key == e.key)
            };
        assert(moves[j + 1] == rest[j]);
    }
}

proof fn lemma_kept<S, K, W: Clone, D: Clone, T>(
    q: QueueView<S, K, W, D>,
    woken: Seq<ReadyEvent<K>>,
    block_on_no_clients: bool,
    moves: Seq<Move<S, K, W, D, T>>,
    e: ReadyEvent<K>,
)
    requires
        moves.len() > 0,
        goes(q, woken, block_on_no_clients, moves),
        q.ready.contains(e) || woken.contains(e),
    ensures
        moves.last().wake_state.woken().contains(e) || moves.last().queue.ready.contains(e)
            || served(moves, 0, e),
    decreases moves.len(),
{
    let first = moves[0];
    let rest = moves.drop_first();
    if woken.contains(e) {
        let n = choose|n: int| 0 <= n < woken.len() && woken[n] == e;
        assert(first.wake_before.woken()[n] == e);
    }
    law_step_loses_no_wake(
        q,
        first.wake_before,
        first.waker,
        block_on_no_clients,
        first.event,
        first.queue,
        first.wake_state,
        first.action,
        e,
    );
    if first.wake_state.woken().contains(e) || first.queue.ready.contains(e) {
        if rest.len() > 0 {
            lemma_kept(first.queue, first.wake_state.woken(), block_on_no_clients, rest, e);
            lemma_shift(moves, 0, e);
            if served(rest, 0, e) {
                assert(served(moves, 1, e));
                let j = choose|j: int|
                    1 <= j < moves.len() && {
                        ||| (#[trigger] moves[j]).action matches PollAction::Poll(turn, _) && turn
                            == e
                        ||| !moves[j].queue.streams.contains_key(e.key) && !(
                        moves[j].action matches PollAction::Poll(turn, _) && turn.key == e.key)
                    };
                assert(served(moves, 0, e));
            }
        }
    } else {
        assert(moves[0] == first);
    }
}

/// Law: a stream that has woken, or whose turn waits, is not kept waiting. As long as it is in the
/// queue, whatever else wakes, every step that looks for a stream polls one, and none with a later
/// turn than its own: the read does not come to a halt, and does not end, before it was polled.
pub proof fn law_woken_stream_is_not_kept_waiting<S, K, W: Clone, D: Clone, T>(
    q: QueueView<S, K, W, D>,
    woken: Seq<ReadyEvent<K>>,
    block_on_no_clients: bool,
    moves: Seq<Move<S, K, W, D, T>>,
    j: int,
    e: ReadyEvent<K>,
)
    requires
        goes(q, woken, block_on_no_clients, moves),
        ordered(q.ready),
        q.ready.contains(e) || woken.contains(e),
        q.streams.contains_key(e.key),
        0 <= j < moves.len(),
        forall|i: int| 0 <= i < j ==> (#[trigger] moves[i]).queue.streams.contains_key(e.key),
        moves[j].event is Enter || (moves[j].event matches PollEvent::Polled(_, _, Poll::Pending)),
    ensures
        moves[j].action matches PollAction::Poll(turn, _) && turn.priority <= e.priority,
    decreases j,
{
    let first = moves[0];
    let rest = moves.drop_first();
    if woken.contains(e) {
        let n = choose|n: int| 0 <= n < woken.len() && woken[n] == e;
        assert(first.wake_before.woken()[n] == e);
        assert(first.wake_before.woken().contains(e));
    }
    if j == 0 {
        law_step_polls_the_earliest(
            q,
            first.wake_before,
            first.waker,
            block_on_no_clients,
            first.event,
            first.queue,
            first.wake_state,
            first.action,
        );
        assert(there(q, first.event, e.key));
    } else {
        assert(moves[0].queue.streams.contains_key(e.key));
        law_step_loses_no_wake(
            q,
            first.wake_before,
            first.waker,
            block_on_no_clients,
            first.event,
            first.queue,
            first.wake_state,
            first.action,
            e,
        );
        law_step_keeps_the_streams(
            q,
            first.wake_before,
            first.waker,
            block_on_no_clients,
            first.event,
            first.queue,
            first.wake_state,
            first.action,
            e.key,
        );
        law_step_reports_what_was_polled(
            q,
            first.wake_before,
            first.waker,
            block_on_no_clients,
            first.event,
            first.queue,
            first.wake_state,
            first.action,
        );
        assert forall|i: int| 0 <= i < j - 1 implies (
        #[trigger] rest[i]).queue.streams.contains_key(e.key) by {
            assert(rest[i] == moves[i + 1]);
        }
        law_woken_stream_is_not_kept_waiting(
            first.queue,
            first.wake_state.woken(),
            block_on_no_clients,
            rest,
            j - 1,
            e,
        );
        assert(rest[j - 1] == moves[j]);
    }
}

/// Law: looking for the next stream agrees with a step that begins a read: the same stream is
/// handed out, or both find none, and the queue and what streams ask for are the same afterwards,
/// but for the clones of the waker.
pub proof fn law_next_stream_begins_a_read<S, K: Clone + Eq + Hash, W: Clone, D: Clone, T>(
    one: &mut QueueInner<S, K, W, D>,
    woken_one: &mut WakeState<K, W>,
    next: NextPoll<S, K>,
    other: &mut QueueInner<S, K, W, D>,
    woken_other: &mut WakeState<K, W>,
    action: PollAction<S, K, T, D>,
    waker: W,
    block_on_no_clients: bool,
)
    requires
        lawful_key::<K>(),
        old(one).wf(),
        old(other).wf(),
        old(one)@ == old(other)@,
        old(woken_one).woken() == old(woken_other).woken(),
        call_ensures(
            QueueInner::<S, K, W, D>::next_stream,
            (one, woken_one, &waker, block_on_no_clients),
            next,
        ),
        call_ensures(
            QueueInner::<S, K, W, D>::advance::<T>,
            (other, woken_other, &waker, block_on_no_clients, PollEvent::Enter),
            action,
        ),
    ensures
        final(one).wf(),
        match next {
            NextPoll::Poll(turn, stream) => action == PollAction::<S, K, T, D>::Poll(turn, stream),
            NextPoll::Pending => action == PollAction::<S, K, T, D>::Return(Poll::Pending),
            NextPoll::Finished => action == PollAction::<S, K, T, D>::Return(Poll::Ready(None)),
        },
        final(one)@.ready == final(other)@.ready,
        final(one)@.streams == final(other)@.streams,
        final(one)@.counter == final(other)@.counter,
        final(one)@.on_disconnect == final(other)@.on_disconnect,
        final(one)@.waker matches Some(w) && cloned(waker, w),
        final(woken_one).waker() matches Some(w) && cloned(waker, w),
        final(woken_one).woken().len() == 0,
{
    let woken = old(woken_one).woken();
    let p = (QueueView { waker: final(one)@.waker, ..old(one)@ }).collect(woken);
    let q = (QueueView { waker: final(other)@.waker, ..old(one)@ }).collect(woken);
    assert(p.ready == q.ready && p.streams == q.streams);
    assert(p.stale() == q.stale());
}

/// Law: a stream given back with its outcome is stored unless it ended. With an item it gets one
/// new turn, with the next priority, and the item is returned under its key; pending, it gets no
/// turn; ended, it is returned with the key and a clone of the callback. Nothing else changes.
pub proof fn law_polled_stream_is_put_back<S, K: Clone + Eq + Hash, W, D: Clone, T>(
    queue: &mut QueueInner<S, K, W, D>,
    event: ReadyEvent<K>,
    stream: S,
    outcome: Poll<Option<T>>,
    r: Polled<S, K, T, D>,
    x: K,
)
    requires
        lawful_key::<K>(),
        old(queue).wf(),
        call_ensures(QueueInner::<S, K, W, D>::polled::<T>, (queue, event, stream, outcome), r),
    ensures
        final(queue).wf(),
        final(queue)@.waker == old(queue)@.waker,
        final(queue)@.on_disconnect == old(queue)@.on_disconnect,
        final(queue)@.streams.contains_key(x) <==> old(queue)@.streams.contains_key(x) || (x
            == event.key && outcome != Poll::<Option<T>>::Ready(None)),
        final(queue)@.streams.contains_key(x) ==> final(queue)@.streams[x] == if x == event.key
            && outcome != Poll::<Option<T>>::Ready(None) {
            stream
        } else {
            old(queue)@.streams[x]
        },
        match outcome {
            Poll::Ready(Some(item)) => {
                &&& r matches Polled::Item(key, given) && key == event.key && given == item
                &&& final(queue)@.ready.to_multiset() == old(queue)@.ready.to_multiset().insert(
                    ReadyEvent { priority: old(queue)@.counter, key: event.key },
                )
                &&& old(queue)@.counter < usize::MAX ==> final(queue)@.counter == old(
                    queue,
                )@.counter + 1
                &&& old(queue)@.counter == usize::MAX ==> final(queue)@.counter == 0
            },
            Poll::Ready(None) => {
                &&& r matches Polled::Ended(key, ended, callback) && key == event.key && ended
                    == stream && (callback is Some <==> old(queue)@.on_disconnect is Some) && (
                callback is Some ==> cloned(old(queue)@.on_disconnect->0, callback->0))
                &&& final(queue)@.ready == old(queue)@.ready
                &&& final(queue)@.counter == old(queue)@.counter
            },
            Poll::Pending => {
                &&& r is Pending
                &&& final(queue)@.ready == old(queue)@.ready
                &&& final(queue)@.counter == old(queue)@.counter
            },
        },
{
    lemma_enqueue_turns(
        old(queue)@.ready,
        ReadyEvent { priority: old(queue)@.counter, key: event.key },
    );
}

} // verus!
