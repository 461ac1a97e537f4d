use futures::stream;
use futures::task::{noop_waker, waker_ref, ArcWake};
use futures::Stream;
use std::collections::VecDeque;
use std::hash::Hash;
use std::pin::Pin;
use std::sync::atomic::{AtomicUsize, Ordering};
use std::sync::{Arc, Mutex};
use std::task::{Context, Poll, Waker};
use zeromq::fair_queue::ready_queue::{ReadyEvent, ReadyQueue};
use zeromq::fair_queue::{
    FairQueue, NextPoll, PollAction, PollEvent, Polled, QueueInner, WakeState,
};
use zeromq::poll::Poll as Outcome;
use zeromq::publisher::PeerIdentity;

type Callback<K> = Arc<dyn Fn(K) + Send + Sync>;

/// Puts a stream's turn back when the stream wakes.
struct StreamWaker<K> {
    wake_state: Arc<Mutex<WakeState<K, Waker>>>,
    event: ReadyEvent<K>,
}

impl<K: Clone + Send + Sync> ArcWake for StreamWaker<K> {
    fn wake_by_ref(arc_self: &Arc<Self>) {
        let waker = arc_self.wake_state.lock().unwrap().wake(&arc_self.event);
        if let Some(waker) = waker {
            waker.wake();
        }
    }
}

/// Polls real streams in the order that the queue gives.
struct Reader<S, K> {
    block_on_no_clients: bool,
    inner: QueueInner<S, K, Waker, Callback<K>>,
    wake_state: Arc<Mutex<WakeState<K, Waker>>>,
}

impl<S, K> Reader<S, K>
where
    S: Stream + Unpin,
    K: Clone + Eq + Hash + Send + Sync + 'static,
{
    fn new(block_on_no_clients: bool) -> Self {
        let queue = FairQueue::new(block_on_no_clients);
        Reader {
            block_on_no_clients: queue.block_on_no_clients,
            inner: queue.inner,
            wake_state: Arc::new(Mutex::new(queue.wake_state)),
        }
    }

    fn insert(&mut self, k: K, s: S) {
        if let Some(waker) = self.inner.insert(k, s) {
            waker.wake_by_ref();
        }
    }

    fn poll_next(&mut self, cx: &mut Context<'_>) -> Poll<Option<(K, S::Item)>> {
        let mut event = PollEvent::Enter;
        loop {
            let action = self.inner.advance(
                &mut self.wake_state.lock().unwrap(),
                cx.waker(),
                self.block_on_no_clients,
                event,
            );
            event = match action {
                PollAction::Poll(turn, mut stream) => {
                    let waker = Arc::new(StreamWaker {
                        wake_state: self.wake_state.clone(),
                        event: turn.clone(),
                    });
                    let waker = waker_ref(&waker);
                    let mut stream_cx = Context::from_waker(&waker);
                    let outcome = match Pin::new(&mut stream).poll_next(&mut stream_cx) {
                        Poll::Ready(item) => Outcome::Ready(item),
                        Poll::Pending => Outcome::Pending,
                    };
                    PollEvent::Polled(turn, stream, outcome)
                }
                PollAction::Disconnected(key, stream, callback) => {
                    drop(stream);
                    if let Some(callback) = callback {
                        callback(key);
                    }
                    PollEvent::Enter
                }
                PollAction::Return(Outcome::Ready(item)) => return Poll::Ready(item),
                PollAction::Return(Outcome::Pending) => return Poll::Pending,
            };
        }
    }

    fn collect(&mut self) -> Vec<(K, S::Item)> {
        let waker = noop_waker();
        let mut cx = Context::from_waker(&waker);
        let mut results = Vec::new();
        while let Poll::Ready(Some(item)) = self.poll_next(&mut cx) {
            results.push(item);
        }
        results
    }
}

/// Test stream that yields Pending for the first N polls, then emits messages FIFO
struct TestStream {
    pending_polls: usize,
    messages: VecDeque<&'static str>,
}

impl TestStream {
    fn new(pending_polls: usize, messages: &[&'static str]) -> Self {
        Self {
            pending_polls,
            messages: messages.iter().copied().collect(),
        }
    }

    fn ready(messages: &[&'static str]) -> Self {
        Self::new(0, messages)
    }

    fn pending_once(messages: &[&'static str]) -> Self {
        Self::new(1, messages)
    }
}

impl Stream for TestStream {
    type Item = &'static str;

    fn poll_next(self: Pin<&mut Self>, _cx: &mut Context<'_>) -> Poll<Option<Self::Item>> {
        let this = self.get_mut();
        if this.pending_polls > 0 {
            this.pending_polls -= 1;
            return Poll::Pending;
        }
        Poll::Ready(this.messages.pop_front())
    }
}

enum UnifiedStream {
    Test(TestStream),
}

impl Stream for UnifiedStream {
    type Item = &'static str;

    fn poll_next(self: Pin<&mut Self>, cx: &mut Context<'_>) -> Poll<Option<Self::Item>> {
        match self.get_mut() {
            UnifiedStream::Test(stream) => Pin::new(stream).poll_next(cx),
        }
    }
}

#[test]
fn test_fair_queue_ready() {
    let a = stream::iter(vec!["a1", "a2", "a3"]);
    let b = stream::iter(vec!["b1", "b2", "b3"]);
    let c = stream::iter(vec!["c1", "c2", "c3"]);

    let mut f_queue: Reader<_, u64> = Reader::new(false);
    f_queue.insert(1, a);
    f_queue.insert(2, b);
    f_queue.insert(3, c);

    let results = f_queue.collect();

    assert_eq!(
        results,
        vec![
            (1, "a1"),
            (2, "b1"),
            (3, "c1"),
            (1, "a2"),
            (2, "b2"),
            (3, "c2"),
            (1, "a3"),
            (2, "b3"),
            (3, "c3")
        ]
    );
}

#[test]
fn test_fair_queue_different_size() {
    let a = stream::iter(vec!["a1", "a2", "a3"]);
    let b = stream::iter(vec!["b1"]);
    let c = stream::iter(vec!["c1", "c2"]);

    let mut f_queue: Reader<_, u64> = Reader::new(false);
    f_queue.insert(1, a);
    f_queue.insert(2, b);
    f_queue.insert(3, c);

    let results = f_queue.collect();

    // FairQueue continues polling all streams until all are exhausted
    assert_eq!(
        results,
        vec![
            (1, "a1"),
            (2, "b1"),
            (3, "c1"),
            (1, "a2"),
            (3, "c2"),
            (1, "a3")
        ]
    );
}

#[test]
fn test_fair_queue_continues_on_pending() {
    let waker = noop_waker();
    let mut cx = Context::from_waker(&waker);

    let mut fair_queue: Reader<UnifiedStream, &str> = Reader::new(false);
    fair_queue.insert(
        "slow",
        UnifiedStream::Test(TestStream::pending_once(&["s1"])),
    );
    fair_queue.insert(
        "fast",
        UnifiedStream::Test(TestStream::ready(&["f1", "f2"])),
    );

    // First poll should return fast stream (regression test: no starvation)
    let result = fair_queue.poll_next(&mut cx);
    match result {
        Poll::Ready(Some((key, value))) => {
            assert_eq!(key, "fast");
            assert_eq!(value, "f1");
        }
        other => panic!("Expected fast stream first, got: {:#?}", other),
    }

    // Second poll: fast stream still ready, slow stream pending
    let result = fair_queue.poll_next(&mut cx);
    match result {
        Poll::Ready(Some((key, value))) => {
            assert_eq!(key, "fast");
            assert_eq!(value, "f2");
        }
        other => panic!("Expected fast stream second, got: {:#?}", other),
    }

    // Third poll: With noop_waker, slow stream hasn't been re-polled
    let result = fair_queue.poll_next(&mut cx);
    match result {
        Poll::Pending => {} // Expected with noop_waker
        other @ Poll::Ready(_) => panic!("Expected Pending, got: {:#?}", other),
    }
}

#[test]
fn test_fair_queue_multiple_clients_fairness() {
    let waker = noop_waker();
    let mut cx = Context::from_waker(&waker);

    let mut fair_queue: Reader<UnifiedStream, &str> = Reader::new(false);
    fair_queue.insert(
        "fast",
        UnifiedStream::Test(TestStream::ready(&["f1", "f2", "f3"])),
    );
    fair_queue.insert("slow", UnifiedStream::Test(TestStream::new(2, &["s1"])));
    fair_queue.insert(
        "mid",
        UnifiedStream::Test(TestStream::new(1, &["m1", "m2"])),
    );

    let mut messages = Vec::new();
    const MAX_ITERATIONS: usize = 20; // Upper bound - 3 for fast, 2 for mid, 1 for slow.

    for _ in 0..MAX_ITERATIONS {
        match fair_queue.poll_next(&mut cx) {
            Poll::Ready(Some((key, value))) => {
                messages.push(format!("{}:{}", key, value));

                let has_slow = messages.iter().any(|m| m.starts_with("slow:"));
                let fast_count = messages.iter().filter(|m| m.starts_with("fast:")).count();
                let mid_count = messages.iter().filter(|m| m.starts_with("mid:")).count();

                if has_slow && fast_count == 3 && mid_count == 2 {
                    break;
                }
            }
            Poll::Ready(None) => break,
            Poll::Pending => {}
        }
    }

    // Ensure fast stream isn't starved by pending streams
    let fast_messages = messages.iter().filter(|m| m.starts_with("fast:")).count();
    assert!(
        fast_messages >= 1,
        "Fast stream was starved: {:?}",
        messages
    );
}

/// A stream that wakes itself when it is pending.
struct SelfWaking {
    pending_polls: usize,
    messages: VecDeque<&'static str>,
}

impl Stream for SelfWaking {
    type Item = &'static str;

    fn poll_next(self: Pin<&mut Self>, cx: &mut Context<'_>) -> Poll<Option<Self::Item>> {
        let this = self.get_mut();
        if this.pending_polls > 0 {
            this.pending_polls -= 1;
            cx.waker().wake_by_ref();
            return Poll::Pending;
        }
        Poll::Ready(this.messages.pop_front())
    }
}

#[test]
fn woken_stream_gets_its_old_place_back() {
    let mut queue: Reader<SelfWaking, u64> = Reader::new(false);
    queue.insert(
        1,
        SelfWaking {
            pending_polls: 2,
            messages: VecDeque::from(vec!["a1", "a2"]),
        },
    );
    queue.insert(
        2,
        SelfWaking {
            pending_polls: 0,
            messages: VecDeque::from(vec!["b1", "b2"]),
        },
    );
    assert_eq!(
        queue.collect(),
        vec![(1, "a1"), (2, "b1"), (1, "a2"), (2, "b2")]
    );
}

#[test]
fn equal_keys_replace_the_stream() {
    let mut queue: Reader<TestStream, u64> = Reader::new(false);
    queue.insert(1, TestStream::ready(&["old"]));
    queue.insert(1, TestStream::ready(&["new1", "new2"]));
    queue.insert(2, TestStream::ready(&["b1"]));
    assert_eq!(queue.collect(), vec![(1, "new1"), (1, "new2"), (2, "b1")]);
}

#[test]
fn removed_stream_is_skipped() {
    let mut queue: Reader<TestStream, u64> = Reader::new(false);
    queue.insert(1, TestStream::ready(&["a1"]));
    queue.insert(2, TestStream::ready(&["b1"]));
    queue.inner.remove(&1);
    queue.inner.remove(&7);
    assert_eq!(queue.collect(), vec![(2, "b1")]);
}

#[test]
fn empty_queue_ends_or_blocks() {
    let waker = noop_waker();
    let mut cx = Context::from_waker(&waker);
    let mut ending: Reader<TestStream, u64> = Reader::new(false);
    assert!(matches!(ending.poll_next(&mut cx), Poll::Ready(None)));
    let mut blocking: Reader<TestStream, u64> = Reader::new(true);
    assert!(matches!(blocking.poll_next(&mut cx), Poll::Pending));
}

#[test]
fn queue_with_a_pending_stream_does_not_end() {
    let waker = noop_waker();
    let mut cx = Context::from_waker(&waker);
    let mut queue: Reader<TestStream, u64> = Reader::new(false);
    queue.insert(1, TestStream::pending_once(&["a1"]));
    assert!(matches!(queue.poll_next(&mut cx), Poll::Pending));
    assert!(matches!(queue.poll_next(&mut cx), Poll::Pending));
}

#[test]
fn clear_drops_everything_and_hands_out_the_waker() {
    let waker = noop_waker();
    let mut cx = Context::from_waker(&waker);
    let mut queue: Reader<TestStream, u64> = Reader::new(false);
    queue.insert(1, TestStream::ready(&["a1", "a2"]));
    assert!(matches!(
        queue.poll_next(&mut cx),
        Poll::Ready(Some((1, "a1")))
    ));
    assert!(queue.inner.clear().is_some());
    assert!(queue.inner.clear().is_none());
    assert!(matches!(queue.poll_next(&mut cx), Poll::Ready(None)));
}

#[test]
fn insert_hands_out_the_waker_and_keeps_it() {
    let mut inner: QueueInner<char, u64, u8, ()> = QueueInner::new();
    let mut wake_state: WakeState<u64, u8> = WakeState::new();
    assert_eq!(inner.insert(1, 'a'), None);
    assert!(matches!(
        inner.next_stream(&mut wake_state, &9, false),
        NextPoll::Poll(ReadyEvent { priority: 0, key: 1 }, 'a')
    ));
    assert_eq!(inner.insert(2, 'b'), Some(&9));
    assert_eq!(inner.insert(3, 'c'), Some(&9));
    assert_eq!(inner.clear(), Some(9));
    assert_eq!(inner.insert(4, 'd'), None);
}

#[test]
fn waking_hands_out_the_waker_once() {
    let mut inner: QueueInner<char, u64, u8, ()> = QueueInner::new();
    let mut wake_state: WakeState<u64, u8> = WakeState::new();
    let turn = ReadyEvent {
        priority: 5,
        key: 1u64,
    };
    assert_eq!(wake_state.wake(&turn), None);
    assert!(matches!(
        inner.next_stream(&mut wake_state, &9, true),
        NextPoll::Pending
    ));
    assert_eq!(wake_state.wake(&turn), Some(9));
    assert_eq!(wake_state.wake(&turn), None);
}

#[test]
fn outcomes_of_a_poll() {
    let mut inner: QueueInner<char, u64, u8, u16> = QueueInner::new();
    let mut wake_state: WakeState<u64, u8> = WakeState::new();
    let turn = ReadyEvent {
        priority: 0,
        key: 1u64,
    };
    match inner.polled(turn.clone(), 'a', Outcome::Ready(Some("item"))) {
        Polled::Item(key, item) => assert_eq!((key, item), (1, "item")),
        _ => panic!("an item is expected"),
    }
    match inner.polled(turn.clone(), 'a', Outcome::<Option<&str>>::Ready(None)) {
        Polled::Ended(key, stream, callback) => {
            assert_eq!((key, stream, callback), (1, 'a', None))
        }
        _ => panic!("the end is expected"),
    }
    inner.set_on_disconnect(77);
    match inner.polled(turn.clone(), 'a', Outcome::<Option<&str>>::Ready(None)) {
        Polled::Ended(key, stream, callback) => {
            assert_eq!((key, stream, callback), (1, 'a', Some(77)))
        }
        _ => panic!("the end is expected"),
    }
    let parked = ReadyEvent {
        priority: 1,
        key: 2u64,
    };
    assert!(matches!(
        inner.polled(parked, 'b', Outcome::<Option<&str>>::Pending),
        Polled::Pending
    ));
    // Only the stream that yielded an item has a turn.
    assert!(matches!(
        inner.next_stream(&mut wake_state, &9, false),
        NextPoll::Poll(ReadyEvent { priority: 0, key: 1 }, 'a')
    ));
    assert!(matches!(
        inner.next_stream(&mut wake_state, &9, false),
        NextPoll::Pending
    ));
}

#[test]
fn callback_is_told_of_ended_streams() {
    let told = Arc::new(AtomicUsize::new(0));
    let seen = told.clone();
    let mut queue: Reader<TestStream, u64> = Reader::new(false);
    queue.inner.set_on_disconnect(Arc::new(move |key: u64| {
        seen.fetch_add(key as usize, Ordering::SeqCst);
    }));
    queue.insert(10, TestStream::ready(&["a1"]));
    queue.insert(200, TestStream::ready(&[]));
    assert_eq!(queue.collect(), vec![(10, "a1")]);
    assert_eq!(told.load(Ordering::SeqCst), 210);
}

#[test]
fn single_reader_steps() {
    let mut queue: FairQueue<char, u64, u8, u16> = FairQueue::new(true);
    queue.set_on_disconnect(3);
    assert_eq!(queue.inner.insert(1, 'a'), None);
    assert_eq!(queue.inner.insert(2, 'b'), None);
    let step: PollAction<char, u64, &str, u16> = queue.poll_next_inner(&0, PollEvent::Enter);
    let (turn, stream) = match step {
        PollAction::Poll(turn, stream) => (turn, stream),
        _ => panic!("a stream to poll is expected"),
    };
    assert_eq!((turn.priority, turn.key, stream), (0, 1, 'a'));
    // A pending stream gives way to the next one.
    let step: PollAction<char, u64, &str, u16> =
        queue.poll_next_inner(&0, PollEvent::Polled(turn, stream, Outcome::Pending));
    let (turn, stream) = match step {
        PollAction::Poll(turn, stream) => (turn, stream),
        _ => panic!("a stream to poll is expected"),
    };
    assert_eq!((turn.priority, turn.key, stream), (1, 2, 'b'));
    let step: PollAction<char, u64, &str, u16> =
        queue.poll_next_inner(&0, PollEvent::Polled(turn, stream, Outcome::Ready(None)));
    assert!(matches!(
        step,
        PollAction::Disconnected(2, 'b', Some(3))
    ));
    let step: PollAction<char, u64, &str, u16> = queue.poll_next_inner(&0, PollEvent::Enter);
    assert!(matches!(step, PollAction::Return(Outcome::Pending)));
}

#[test]
fn ready_queue_orders_by_priority() {
    let mut queue: ReadyQueue<char> = ReadyQueue::new();
    for (priority, key) in [(4, 'a'), (2, 'b'), (4, 'c'), (1, 'd'), (9, 'e')] {
        queue.push(ReadyEvent { priority, key });
    }
    let mut keys = Vec::new();
    while let Some(event) = queue.pop() {
        keys.push(event.key);
    }
    assert_eq!(keys, vec!['d', 'b', 'a', 'c', 'e']);
    queue.push(ReadyEvent {
        priority: 1,
        key: 'f',
    });
    queue.clear();
    assert!(queue.pop().is_none());
}

#[test]
fn earlier_turns_are_greater() {
    let early = ReadyEvent {
        priority: 1,
        key: 'a',
    };
    let late = ReadyEvent {
        priority: 2,
        key: 'a',
    };
    let other = ReadyEvent {
        priority: 1,
        key: 'b',
    };
    assert!(late < early);
    assert!(early > late);
    assert!(early == other);
    assert!(early != late);
    assert_eq!(
        early.partial_cmp(&other),
        Some(std::cmp::Ordering::Equal)
    );
}

#[test]
fn leftover_turn_of_a_removed_stream_is_skipped() {
    let mut queue: Reader<TestStream, u64> = Reader::new(false);
    queue.insert(1, TestStream::ready(&["old"]));
    queue.insert(2, TestStream::pending_once(&["b1"]));
    queue.insert(3, TestStream::ready(&["c1"]));
    queue.inner.remove(&1);
    let waker = noop_waker();
    let mut cx = Context::from_waker(&waker);
    assert!(matches!(
        queue.poll_next(&mut cx),
        Poll::Ready(Some((3, "c1")))
    ));
    assert!(matches!(queue.poll_next(&mut cx), Poll::Pending));
}

#[test]
fn cleared_queue_ignores_streams_that_wake() {
    for block in [false, true] {
        let told: Arc<Mutex<Vec<u64>>> = Arc::new(Mutex::new(Vec::new()));
        let log = told.clone();
        let waker = noop_waker();
        let mut cx = Context::from_waker(&waker);
        let mut queue: Reader<TestStream, u64> = Reader::new(block);
        queue
            .inner
            .set_on_disconnect(Arc::new(move |k| log.lock().unwrap().push(k)));
        queue.insert(1, TestStream::new(2, &["a1"]));
        queue.insert(2, TestStream::new(2, &["b1"]));
        assert!(matches!(queue.poll_next(&mut cx), Poll::Pending));
        let turn = |priority: usize, key: u64| ReadyEvent { priority, key };
        assert!(queue.wake_state.lock().unwrap().wake(&turn(0, 1)).is_some());
        assert!(queue.inner.clear().is_some());
        assert!(queue.wake_state.lock().unwrap().wake(&turn(1, 2)).is_none());
        for _ in 0..2 {
            match queue.poll_next(&mut cx) {
                Poll::Ready(None) => assert!(!block),
                Poll::Pending => assert!(block),
                Poll::Ready(Some(item)) => panic!("nothing is expected, not {:?}", item),
            }
        }
        assert!(told.lock().unwrap().is_empty());
    }
}

#[test]
fn blocking_queue_waits_after_the_last_round() {
    let mut queue: Reader<TestStream, u64> = Reader::new(true);
    queue.insert(1, TestStream::ready(&["a1"]));
    queue.insert(2, TestStream::ready(&[]));
    queue.insert(3, TestStream::ready(&["c1", "c2"]));
    assert_eq!(queue.collect(), vec![(1, "a1"), (3, "c1"), (3, "c2")]);
    let waker = noop_waker();
    let mut cx = Context::from_waker(&waker);
    assert!(matches!(queue.poll_next(&mut cx), Poll::Pending));
    assert!(matches!(queue.poll_next(&mut cx), Poll::Pending));
}

#[test]
fn peers_can_be_keys() {
    let mut queue: Reader<TestStream, PeerIdentity> = Reader::new(false);
    let peer = |name: &str| PeerIdentity::new(name.as_bytes().to_vec());
    queue.insert(peer("one"), TestStream::ready(&["a1", "a2"]));
    queue.insert(peer("two"), TestStream::ready(&["b1"]));
    queue.inner.remove(&peer("two"));
    assert_eq!(
        queue.collect(),
        vec![(peer("one"), "a1"), (peer("one"), "a2")]
    );
}

#[test]
fn cleared_queue_ends_or_waits() {
    for block in [false, true] {
        let mut queue: FairQueue<char, u64, u8, u16> = FairQueue::new(block);
        assert_eq!(queue.inner.insert(1, 'a'), None);
        assert_eq!(queue.inner.clear(), None);
        let turn = ReadyEvent {
            priority: 0,
            key: 1,
        };
        assert_eq!(queue.wake_state.wake(&turn), None);
        let step: PollAction<char, u64, &str, u16> = queue.poll_next(&0, PollEvent::Enter);
        match step {
            PollAction::Return(Outcome::Ready(None)) => assert!(!block),
            PollAction::Return(Outcome::Pending) => assert!(block),
            _ => panic!("nothing to poll is expected"),
        }
        assert_eq!(queue.inner.insert(2, 'b'), Some(&0));
        let step: PollAction<char, u64, &str, u16> = queue.poll_next(&0, PollEvent::Enter);
        assert!(matches!(step, PollAction::Poll(turn, 'b') if turn.key == 2));
    }
}
