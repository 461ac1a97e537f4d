//! A queue that serves many streams in turn.
//!
//! Every stream is stored under a key. A stream is polled when its turn comes; a stream that
//! yields an item gets a new turn behind all others, a stream that is pending gets its next turn
//! when it wakes, and a stream that ends leaves the queue. Polling itself is the caller's work:
//! the functions here say which stream to poll next, and take the outcome back.

pub mod calls;
pub mod fairness;
pub mod laws;
pub mod reading;
pub mod ready_queue;
pub mod round_robin;

use crate::fair_queue::ready_queue::{enqueue, enqueue_all, ordered, ReadyEvent, ReadyQueue};
use crate::poll::Poll;
use std::collections::HashMap;
use std::hash::Hash;
use vstd::prelude::*;
use vstd::std_specs::hash::obeys_key_model;

verus! {

broadcast use vstd::std_specs::hash::group_hash_axioms;

/// What a key type has to fulfil: `Eq` and `Hash` agree, and a clone equals what it was cloned
/// from.
pub open spec fn lawful_key<K: Clone>() -> bool {
    &&& obeys_key_model::<K>()
    &&& forall|a: K, b: K| #[trigger] cloned(a, b) ==> a == b
}

/// The counter after a turn was handed out; it starts over behind the greatest number.
pub open spec fn next_count(counter: usize) -> usize {
    if counter == usize::MAX {
        0
    } else {
        (counter + 1) as usize
    }
}

/// The number of turns at the front of `ready` whose stream is gone.
pub open spec fn stale<S, K>(ready: Seq<ReadyEvent<K>>, streams: Map<K, S>) -> nat
    decreases ready.len(),
{
    if ready.len() == 0 || streams.contains_key(ready[0].key) {
        0
    } else {
        1 + stale(ready.drop_first(), streams)
    }
}

/// What a [`QueueInner`] holds.
#[verifier::ext_equal]
#[verifier::reject_recursive_types(K)]
pub struct QueueView<S, K, W, D> {
    /// The priority of the turn that is handed out next.
    pub counter: usize,
    /// The turns handed out and not yet taken, the next one first.
    pub ready: Seq<ReadyEvent<K>>,
    /// The streams that are not being polled.
    pub streams: Map<K, S>,
    /// Whom to wake when a stream arrives.
    pub waker: Option<W>,
    /// Whom to tell that a stream has ended.
    pub on_disconnect: Option<D>,
}

impl<S, K, W, D> QueueView<S, K, W, D> {
    /// The queue before any use.
    pub open spec fn empty() -> Self {
        QueueView {
            counter: 0,
            ready: Seq::empty(),
            streams: Map::empty(),
            waker: None,
            on_disconnect: None,
        }
    }

    /// Stream `s` stored under `k`, and a turn handed out to it.
    pub open spec fn schedule(self, k: K, s: S) -> Self {
        QueueView {
            counter: next_count(self.counter),
            ready: enqueue(self.ready, ReadyEvent { priority: self.counter, key: k }),
            streams: self.streams.insert(k, s),
            ..self
        }
    }

    /// Stream `s` stored under `k` without a turn.
    pub open spec fn park(self, k: K, s: S) -> Self {
        QueueView { streams: self.streams.insert(k, s), ..self }
    }

    /// Without the stream stored under `k`.
    pub open spec fn remove(self, k: K) -> Self {
        QueueView { streams: self.streams.remove(k), ..self }
    }

    /// Without streams, turns and waker.
    pub open spec fn clear(self) -> Self {
        QueueView { ready: Seq::empty(), streams: Map::empty(), waker: None, ..self }
    }

    /// With the turns of the streams that woke, in the order in which they woke.
    pub open spec fn collect(self, woken: Seq<ReadyEvent<K>>) -> Self {
        QueueView { ready: enqueue_all(self.ready, woken), ..self }
    }

    /// The number of turns that are dropped before one is found whose stream is there.
    pub open spec fn stale(self) -> nat {
        stale(self.ready, self.streams)
    }

    /// Some turn has its stream.
    pub open spec fn has_turn(self) -> bool {
        self.stale() < self.ready.len()
    }

    /// The first turn whose stream is there.
    pub open spec fn turn(self) -> ReadyEvent<K> {
        self.ready[self.stale() as int]
    }

    /// The stream of the first turn that has one.
    pub open spec fn turn_stream(self) -> S {
        self.streams[self.turn().key]
    }

    /// Without the first turn that has a stream, without that stream, and without the turns
    /// before it.
    pub open spec fn take_turn(self) -> Self {
        QueueView {
            ready: self.ready.skip(self.stale() as int + 1),
            streams: self.streams.remove(self.turn().key),
            ..self
        }
    }

    /// Without turns.
    pub open spec fn no_turns(self) -> Self {
        QueueView { ready: Seq::empty(), ..self }
    }

    /// What is to be polled next, and the queue without it. Without any turn, reading is over
    /// when the queue holds no stream and need not wait for one.
    pub open spec fn pick(self, block_on_no_clients: bool) -> (NextPoll<S, K>, Self) {
        if self.has_turn() {
            (NextPoll::Poll(self.turn(), self.turn_stream()), self.take_turn())
        } else if !self.streams.is_empty() || block_on_no_clients {
            (NextPoll::Pending, self.no_turns())
        } else {
            (NextPoll::Finished, self.no_turns())
        }
    }
}

/// The streams of a fair queue and the turns handed out to them.
///
/// `S` is a stream, `K` the key under which it is stored, `W` a waker, `D` a callback for ended
/// streams. The queue stores streams, wakers and callbacks and hands them out; it never looks
/// into them.
#[verifier::reject_recursive_types(K)]
pub struct QueueInner<S, K, W, D> {
    counter: usize,
    ready_queue: ReadyQueue<K>,
    streams: HashMap<K, S>,
    waker: Option<W>,
    on_disconnect: Option<D>,
}

impl<S, K, W, D> View for QueueInner<S, K, W, D> {
    type V = QueueView<S, K, W, D>;

    closed spec fn view(&self) -> QueueView<S, K, W, D> {
        QueueView {
            counter: self.counter,
            ready: self.ready_queue@,
            streams: self.streams@,
            waker: self.waker,
            on_disconnect: self.on_disconnect,
        }
    }
}

/// Which stream is to be polled next.
pub enum NextPoll<S, K> {
    /// Poll this stream, which has left the queue, and report back with [`QueueInner::polled`].
    Poll(ReadyEvent<K>, S),
    /// Nothing to poll now, but something may come.
    Pending,
    /// Nothing to poll, and nothing will come.
    Finished,
}

/// How a stream fared.
pub enum Polled<S, K, T, D> {
    /// The stream stored under the key yielded an item.
    Item(K, T),
    /// The stream ended and is not put back; its key goes to the callback, if one was set.
    Ended(K, S, Option<D>),
    /// The stream waits.
    Pending,
}

/// What brings a read of the queue forward.
pub enum PollEvent<S, K, T> {
    /// The read begins, or goes on after [`PollAction::Disconnected`].
    Enter,
    /// The stream of the turn was polled with this outcome.
    Polled(ReadyEvent<K>, S, Poll<Option<T>>),
}

/// What a read of the queue needs next.
pub enum PollAction<S, K, T, D> {
    /// Poll this stream, which has left the queue, and go on with [`PollEvent::Polled`].
    Poll(ReadyEvent<K>, S),
    /// This stream has ended: drop it, tell the callback its key, if there is one, and go on
    /// with [`PollEvent::Enter`].
    Disconnected(K, S, Option<D>),
    /// The read gives this.
    Return(Poll<Option<(K, T)>>),
}

/// The action that `next` asks for.
pub open spec fn read_on<S, K, T, D>(next: NextPoll<S, K>) -> PollAction<S, K, T, D> {
    match next {
        NextPoll::Poll(event, stream) => PollAction::Poll(event, stream),
        NextPoll::Pending => PollAction::Return(Poll::Pending),
        NextPoll::Finished => PollAction::Return(Poll::Ready(None)),
    }
}

/// The turns that streams have asked for by waking, and whom to wake for it.
pub struct WakeState<K, W> {
    ready_queue: Vec<ReadyEvent<K>>,
    waker: Option<W>,
}

impl<K, W> WakeState<K, W> {
    /// The turns asked for, in the order of asking.
    pub closed spec fn woken(&self) -> Seq<ReadyEvent<K>> {
        self.ready_queue@
    }

    /// Whom to wake when a stream asks for a turn.
    pub closed spec fn waker(&self) -> Option<W> {
        self.waker
    }

    /// No turn asked for, nobody to wake.
    pub fn new() -> (r: Self)
        ensures
            r.woken() == Seq::<ReadyEvent<K>>::empty(),
            r.waker() is None,
    {
        WakeState { ready_queue: Vec::new(), waker: None }
    }

    /// The stream of the turn `event` asks for that turn again. The result is the waker to wake,
    /// which leaves the state.
    #[must_use]
    pub fn wake(&mut self, event: &ReadyEvent<K>) -> (r: Option<W>)
        where K: Clone,
        requires
            lawful_key::<K>(),
        ensures
            final(self).woken() == old(self).woken().push(*event),
            final(self).waker() is None,
            r == old(self).waker(),
    {
        self.ready_queue.push(event.clone());
        self.waker.take()
    }
}

impl<S, K: Clone + Eq + Hash, W, D> QueueInner<S, K, W, D> {
    /// The turns stand in the order in which they were handed out.
    pub open spec fn wf(&self) -> bool {
        ordered(self@.ready)
    }

    /// A queue without streams.
    pub fn new() -> (r: Self)
        ensures
            r.wf(),
            r@ == QueueView::<S, K, W, D>::empty(),
    {
        let r = QueueInner {
            counter: 0,
            ready_queue: ReadyQueue::new(),
            streams: HashMap::new(),
            waker: None,
            on_disconnect: None,
        };
        assert(r@ =~= QueueView::<S, K, W, D>::empty());
        r
    }

    /// Stores the stream `s` under `k`, in place of one that was stored there before, and hands
    /// out a turn to it. The result is the waker to wake, which stays in the queue.
    #[must_use]
    pub fn insert(&mut self, k: K, s: S) -> (r: Option<&W>)
        requires
            old(self).wf(),
            lawful_key::<K>(),
        ensures
            final(self).wf(),
            final(self)@ == old(self)@.schedule(k, s),
            match old(self)@.waker {
                Some(w) => r == Some(&w),
                None => r is None,
            },
    {
        self.schedule(k, s);
        self.waker.as_ref()
    }

    fn schedule(&mut self, k: K, s: S)
        requires
            old(self).wf(),
            lawful_key::<K>(),
        ensures
            final(self).wf(),
            final(self)@ == old(self)@.schedule(k, s),
    {
        let stored = k.clone();
        assert(cloned(k, stored));
        self.streams.insert(stored, s);
        self.ready_queue.push(ReadyEvent { priority: self.counter, key: k });
        self.counter = self.counter.wrapping_add(1);
        assert(self@ =~= old(self)@.schedule(k, s));
    }

    /// Drops the stream stored under `k`, if there is one. Its turns stay behind and are skipped.
    pub fn remove(&mut self, k: &K)
        requires
            old(self).wf(),
            lawful_key::<K>(),
        ensures
            final(self).wf(),
            final(self)@ == old(self)@.remove(*k),
    {
        self.streams.remove(k);
        assert(self@ =~= old(self)@.remove(*k));
    }

    /// Drops all streams and all turns. The result is the waker to wake, which leaves the queue,
    /// so that a pending read comes back.
    #[must_use]
    pub fn clear(&mut self) -> (r: Option<W>)
        ensures
            final(self).wf(),
            final(self)@ == old(self)@.clear(),
            r == old(self)@.waker,
    {
        self.streams.clear();
        self.ready_queue.clear();
        let w = self.waker.take();
        assert(self@ =~= old(self)@.clear());
        w
    }

    /// Sets whom to tell that a stream has ended.
    pub fn set_on_disconnect(&mut self, callback: D)
        requires
            old(self).wf(),
        ensures
            final(self).wf(),
            final(self)@ == (QueueView { on_disconnect: Some(callback), ..old(self)@ }),
    {
        self.on_disconnect = Some(callback);
    }

    /// Finds the stream to poll next.
    ///
    /// `waker` is remembered on both sides, the turns that streams have asked for by waking are
    /// collected, and turns whose stream is gone are dropped. Without a turn left, the queue is
    /// finished when it holds no stream and need not wait for one.
    pub fn next_stream(
        &mut self,
        wake_state: &mut WakeState<K, W>,
        waker: &W,
        block_on_no_clients: bool,
    ) -> (r: NextPoll<S, K>)
        where W: Clone,
        requires
            old(self).wf(),
            lawful_key::<K>(),
        ensures
            final(self).wf(),
            final(wake_state).woken() == Seq::<ReadyEvent<K>>::empty(),
            final(wake_state).waker() matches Some(w) && cloned(*waker, w),
            final(self)@.waker matches Some(w) && cloned(*waker, w),
            (r, final(self)@) == (QueueView { waker: final(self)@.waker, ..old(self)@ }).collect(
                old(wake_state).woken(),
            ).pick(block_on_no_clients),
    {
        self.waker = Some(waker.clone());
        wake_state.waker = Some(waker.clone());
        let mut woken: Vec<ReadyEvent<K>> = Vec::new();
        std::mem::swap(&mut woken, &mut wake_state.ready_queue);
        self.collect(woken);
        self.pick(block_on_no_clients)
    }

    fn pick(&mut self, block_on_no_clients: bool) -> (r: NextPoll<S, K>)
        requires
            old(self).wf(),
            lawful_key::<K>(),
        ensures
            final(self).wf(),
            (r, final(self)@) == old(self)@.pick(block_on_no_clients),
    {
        let ghost q = self@;
        let ghost mut n: int = 0;
        proof {
            lemma_stale(q.ready, q.streams);
            assert(q.ready.skip(0) =~= q.ready);
        }
        loop
            invariant
                self.wf(),
                lawful_key::<K>(),
                q == old(self)@,
                0 <= n <= q.stale() <= q.ready.len(),
                self@ == (QueueView { ready: q.ready.skip(n), ..q }),
                stale(self@.ready, self@.streams) == q.stale() - n,
            decreases self.ready_queue@.len(),
        {
            match self.ready_queue.pop() {
                None => {
                    assert(self@ =~= q.no_turns());
                    return if !self.streams.is_empty() || block_on_no_clients {
                        NextPoll::Pending
                    } else {
                        NextPoll::Finished
                    };
                },
                Some(event) => {
                    assert(event == q.ready[n]);
                    assert(q.ready.skip(n).drop_first() =~= q.ready.skip(n + 1));
                    match self.streams.remove(&event.key) {
                        Some(stream) => {
                            assert(self@ =~= q.take_turn());
                            return NextPoll::Poll(event, stream);
                        },
                        None => {
                            assert(self@.streams =~= q.streams);
                            proof {
                                n = n + 1;
                            }
                        },
                    }
                },
            }
        }
    }

    /// Takes back the stream of the turn `event` with the outcome of polling it.
    pub fn polled<T>(&mut self, event: ReadyEvent<K>, stream: S, outcome: Poll<Option<T>>) -> (r:
        Polled<S, K, T, D>)
        where D: Clone,
        requires
            old(self).wf(),
            lawful_key::<K>(),
        ensures
            final(self).wf(),
            match outcome {
                Poll::Ready(Some(item)) => {
                    &&& final(self)@ == old(self)@.schedule(event.key, stream)
                    &&& r == Polled::<S, K, T, D>::Item(event.key, item)
                },
                Poll::Ready(None) => {
                    &&& final(self)@ == old(self)@
                    &&& r matches Polled::Ended(key, ended, callback) && key == event.key && ended == stream && match old(
                        self,
                    )@.on_disconnect {
                        Some(d) => callback matches Some(c) && cloned(d, c),
                        None => callback is None,
                    }
                },
                Poll::Pending => {
                    &&& final(self)@ == old(self)@.park(event.key, stream)
                    &&& r == Polled::<S, K, T, D>::Pending
                },
            },
    {
        match outcome {
            Poll::Ready(Some(item)) => {
                let key = event.key.clone();
                assert(cloned(event.key, key));
                self.schedule(event.key, stream);
                Polled::Item(key, item)
            },
            Poll::Ready(None) => {
                Polled::Ended(event.key, stream, self.on_disconnect.clone())
            },
            Poll::Pending => {
                self.streams.insert(event.key, stream);
                assert(self@ =~= old(self)@.park(event.key, stream));
                Polled::Pending
            },
        }
    }

    /// Takes a read of the queue one step further.
    ///
    /// A stream that yields an item ends the read. One that is pending, or has ended, does not:
    /// the other streams are polled first.
    pub fn advance<T>(
        &mut self,
        wake_state: &mut WakeState<K, W>,
        waker: &W,
        block_on_no_clients: bool,
        event: PollEvent<S, K, T>,
    ) -> (r: PollAction<S, K, T, D>)
        where W: Clone, D: Clone,
        requires
            old(self).wf(),
            lawful_key::<K>(),
        ensures
            final(self).wf(),
            stepped(
                old(self)@,
                *old(wake_state),
                *waker,
                block_on_no_clients,
                event,
                final(self)@,
                *final(wake_state),
                r,
            ),
    {
        if let PollEvent::Polled(turn, stream, outcome) = event {
            match self.polled(turn, stream, outcome) {
                Polled::Item(key, item) => {
                    return PollAction::Return(Poll::Ready(Some((key, item))));
                },
                Polled::Ended(key, ended, callback) => {
                    return PollAction::Disconnected(key, ended, callback);
                },
                Polled::Pending => {},
            }
        }
        match self.next_stream(wake_state, waker, block_on_no_clients) {
            NextPoll::Poll(turn, stream) => PollAction::Poll(turn, stream),
            NextPoll::Pending => PollAction::Return(Poll::Pending),
            NextPoll::Finished => PollAction::Return(Poll::Ready(None)),
        }
    }

    fn collect(&mut self, woken: Vec<ReadyEvent<K>>)
        requires
            old(self).wf(),
        ensures
            final(self).wf(),
            final(self)@ == old(self)@.collect(woken@),
    {
        let ghost all = woken@;
        assert(all.take(0) =~= Seq::<ReadyEvent<K>>::empty());
        assert(self@ =~= self@.collect(all.take(0)));
        for event in it: woken
            invariant
                self.wf(),
                it.seq() == all,
                self@ == old(self)@.collect(all.take(it.index() as int)),
        {
            self.ready_queue.push(event);
            proof {
                let n = it.index() as int;
                assert(all.take(n + 1).drop_last() =~= all.take(n));
                assert(self@ =~= old(self)@.collect(all.take(n + 1)));
            }
        }
        assert(all.take(all.len() as int) =~= all);
    }
}

/// The queue goes on from `before` to look for a stream to poll: `waker` is remembered on both
/// sides, and the turns that streams have asked for are collected.
pub open spec fn resumed<S, K, W: Clone, D, T>(
    before: QueueView<S, K, W, D>,
    wake_before: WakeState<K, W>,
    waker: W,
    block_on_no_clients: bool,
    after: QueueView<S, K, W, D>,
    wake_after: WakeState<K, W>,
    action: PollAction<S, K, T, D>,
) -> bool {
    let (next, left) = (QueueView { waker: after.waker, ..before }).collect(
        wake_before.woken(),
    ).pick(block_on_no_clients);
    &&& after == left
    &&& action == read_on::<S, K, T, D>(next)
    &&& after.waker matches Some(w) && cloned(waker, w)
    &&& wake_after.woken() == Seq::<ReadyEvent<K>>::empty()
    &&& wake_after.waker() matches Some(w) && cloned(waker, w)
}

/// A read of the queue goes one step, on `event`, and asks for `action`.
pub open spec fn stepped<S, K, W: Clone, D: Clone, T>(
    before: QueueView<S, K, W, D>,
    wake_before: WakeState<K, W>,
    waker: W,
    block_on_no_clients: bool,
    event: PollEvent<S, K, T>,
    after: QueueView<S, K, W, D>,
    wake_after: WakeState<K, W>,
    action: PollAction<S, K, T, D>,
) -> bool {
    match event {
        PollEvent::Polled(turn, stream, Poll::Ready(Some(item))) => {
            &&& after == before.schedule(turn.key, stream)
            &&& wake_after == wake_before
            &&& action == PollAction::<S, K, T, D>::Return(Poll::Ready(Some((turn.key, item))))
        },
        PollEvent::Polled(turn, stream, Poll::Ready(None)) => {
            &&& after == before
            &&& wake_after == wake_before
            &&& action matches PollAction::Disconnected(key, ended, callback) && key == turn.key
                && ended == stream && match before.on_disconnect {
                Some(d) => callback matches Some(c) && cloned(d, c),
                None => callback is None,
            }
        },
        PollEvent::Polled(turn, stream, Poll::Pending) => resumed(
            before.park(turn.key, stream),
            wake_before,
            waker,
            block_on_no_clients,
            after,
            wake_after,
            action,
        ),
        PollEvent::Enter => resumed(
            before,
            wake_before,
            waker,
            block_on_no_clients,
            after,
            wake_after,
            action,
        ),
    }
}

/// A fair queue in one piece, for a single reader.
///
/// Readers that share the queue with others keep `inner` and `wake_state` under locks of their
/// own, so that a stream can wake while the queue is in use.
#[verifier::reject_recursive_types(K)]
pub struct FairQueue<S, K, W, D> {
    /// Without any stream, reading waits for one instead of ending.
    pub block_on_no_clients: bool,
    pub inner: QueueInner<S, K, W, D>,
    pub wake_state: WakeState<K, W>,
}

impl<S, K: Clone + Eq + Hash, W, D> FairQueue<S, K, W, D> {
    /// The turns stand in the order in which they were handed out.
    pub open spec fn wf(&self) -> bool {
        self.inner.wf()
    }

    /// A queue without streams.
    pub fn new(block_on_no_clients: bool) -> (r: Self)
        ensures
            r.wf(),
            r.block_on_no_clients == block_on_no_clients,
            r.inner@ == QueueView::<S, K, W, D>::empty(),
            r.wake_state.woken() == Seq::<ReadyEvent<K>>::empty(),
            r.wake_state.waker() is None,
    {
        FairQueue { block_on_no_clients, inner: QueueInner::new(), wake_state: WakeState::new() }
    }

    /// Sets whom to tell that a stream has ended.
    pub fn set_on_disconnect(&mut self, callback: D)
        requires
            old(self).wf(),
        ensures
            final(self).wf(),
            final(self).inner@ == (QueueView { on_disconnect: Some(callback), ..old(self).inner@ }),
            final(self).block_on_no_clients == old(self).block_on_no_clients,
            final(self).wake_state == old(self).wake_state,
    {
        self.inner.set_on_disconnect(callback);
    }

    /// Takes a read of the queue one step further; see [`QueueInner::advance`].
    pub fn poll_next_inner<T>(&mut self, waker: &W, event: PollEvent<S, K, T>) -> (r: PollAction<
        S,
        K,
        T,
        D,
    >)
        where W: Clone, D: Clone,
        requires
            old(self).wf(),
            lawful_key::<K>(),
        ensures
            final(self).wf(),
            final(self).block_on_no_clients == old(self).block_on_no_clients,
            stepped(
                old(self).inner@,
                old(self).wake_state,
                *waker,
                old(self).block_on_no_clients,
                event,
                final(self).inner@,
                final(self).wake_state,
                r,
            ),
    {
        self.inner.advance(&mut self.wake_state, waker, self.block_on_no_clients, event)
    }

    /// Takes a read of the queue as a stream one step further; see
    /// [`FairQueue::poll_next_inner`].
    ///
    /// A queue without streams, such as one that was cleared, has nothing to poll, whichever
    /// streams have woken: the read is over at once.
    pub fn poll_next<T>(&mut self, waker: &W, event: PollEvent<S, K, T>) -> (r: PollAction<
        S,
        K,
        T,
        D,
    >)
        where W: Clone, D: Clone,
        requires
            old(self).wf(),
            lawful_key::<K>(),
        ensures
            final(self).wf(),
            final(self).block_on_no_clients == old(self).block_on_no_clients,
            stepped(
                old(self).inner@,
                old(self).wake_state,
                *waker,
                old(self).block_on_no_clients,
                event,
                final(self).inner@,
                final(self).wake_state,
                r,
            ),
            event is Enter && old(self).inner@.streams.is_empty() ==> {
                &&& r == PollAction::<S, K, T, D>::Return(
                    if old(self).block_on_no_clients {
                        Poll::Pending
                    } else {
                        Poll::Ready(None)
                    },
                )
                &&& final(self).inner@.streams.is_empty()
            },
    {
        let r = self.poll_next_inner(waker, event);
        proof {
            let q = (QueueView { waker: self.inner@.waker, ..old(self).inner@ }).collect(
                old(self).wake_state.woken(),
            );
            lemma_stale(q.ready, q.streams);
        }
        r
    }
}

/// Law: integers are lawful keys.
pub proof fn law_integers_are_lawful_keys()
    ensures
        lawful_key::<u8>(),
        lawful_key::<u16>(),
        lawful_key::<u32>(),
        lawful_key::<u64>(),
        lawful_key::<usize>(),
{
}

/// At most every turn is stale; the first one that is not has its stream.
pub proof fn lemma_stale<S, K>(ready: Seq<ReadyEvent<K>>, streams: Map<K, S>)
    ensures
        stale(ready, streams) <= ready.len(),
        stale(ready, streams) < ready.len() ==> streams.contains_key(
            ready[stale(ready, streams) as int].key,
        ),
        forall|i: int| 0 <= i < stale(ready, streams) ==> !streams.contains_key(
            (#[trigger] ready[i]).key,
        ),
    decreases ready.len(),
{
    if ready.len() > 0 && !streams.contains_key(ready[0].key) {
        let rest = ready.drop_first();
        lemma_stale(rest, streams);
        assert forall|i: int| 0 <= i < stale(ready, streams) implies !streams.contains_key(
            (#[trigger] ready[i]).key,
        ) by {
            if i > 0 {
                assert(ready[i] == rest[i - 1]);
            }
        }
    }
}

} // verus!
