//! In what sense the queue is fair.

use crate::fair_queue::laws::{has_turn_of, issued, law_new_turn_is_last};
use crate::fair_queue::ready_queue::ReadyEvent;
use crate::fair_queue::{lemma_stale, NextPoll, QueueView};
use vstd::prelude::*;

verus! {

/// Law: nobody waits longer than for the turns before its own. Every poll, whatever its outcome,
/// brings each later turn at least one place forward, and nothing that the outcome leads to
/// sets it back.
pub proof fn law_every_poll_moves_the_others_up<S, K, W, D>(
    q: QueueView<S, K, W, D>,
    i: int,
    s: S,
)
    requires
        issued(q.ready, q.counter),
        q.has_turn(),
        q.stale() < i < q.ready.len(),
    ensures
        ({
            let p = q.take_turn();
            let k = q.turn().key;
            let place = i - q.stale() - 1;
            &&& 0 <= place < i
            &&& p.ready[place] == q.ready[i]
            &&& p.schedule(k, s).ready[place] == q.ready[i]
            &&& p.park(k, s).ready[place] == q.ready[i]
        }),
{
    let p = q.take_turn();
    let k = q.turn().key;
    assert(issued(p.ready, p.counter));
    law_new_turn_is_last(p, k, s);
}

/// Law: a pending stream does not hold up the others: when it is put back, the turns behind it
/// are what they were, and the first of them that has its stream is next.
pub proof fn law_pending_stream_gives_way<S, K, W, D>(q: QueueView<S, K, W, D>, i: int)
    requires
        q.has_turn(),
        q.stale() < i < q.ready.len(),
        q.streams.contains_key(q.ready[i].key),
    ensures
        ({
            let p = q.take_turn().park(q.turn().key, q.turn_stream());
            &&& p.ready == q.ready.skip(q.stale() as int + 1)
            &&& p.streams == q.streams
            &&& p.has_turn()
            &&& p.stale() <= i - q.stale() - 1
        }),
{
    let p = q.take_turn().park(q.turn().key, q.turn_stream());
    lemma_stale(q.ready, q.streams);
    assert(p.streams =~= q.streams);
    lemma_stale(p.ready, p.streams);
    assert(p.ready[i - q.stale() - 1] == q.ready[i]);
}

/// Law: a stream that was removed gets no turn, though turns of it may still be waiting.
pub proof fn law_removed_stream_gets_no_turn<S, K, W, D>(q: QueueView<S, K, W, D>, k: K)
    ensures
        q.remove(k).has_turn() ==> q.remove(k).turn().key != k,
        forall|x: K|
            x != k && #[trigger] q.streams.contains_key(x) ==> q.remove(k).streams.contains_key(x)
                && q.remove(k).streams[x] == q.streams[x],
{
    let r = q.remove(k);
    lemma_stale(r.ready, r.streams);
}

/// Law: a pending stream is not polled again before it has asked for a turn.
pub proof fn law_pending_stream_waits_to_be_woken<S, K, W, D>(q: QueueView<S, K, W, D>, k: K)
    requires
        !has_turn_of(q.ready, k),
    ensures
        q.has_turn() ==> q.turn().key != k,
{
    lemma_stale(q.ready, q.streams);
}

/// Law: the stream whose turn is taken has left the queue; unless it is put back, it is gone.
pub proof fn law_polled_stream_has_left<S, K, W, D>(q: QueueView<S, K, W, D>)
    requires
        q.has_turn(),
    ensures
        !q.take_turn().streams.contains_key(q.turn().key),
        forall|x: K|
            x != q.turn().key && #[trigger] q.streams.contains_key(x)
                ==> q.take_turn().streams.contains_key(x) && q.take_turn().streams[x]
                == q.streams[x],
{
}

/// Law: a cleared queue has nothing to poll, whichever streams woke before or after: reading it
/// ends, or waits for a new stream if it was told to.
pub proof fn law_cleared_queue_is_empty<S, K, W, D>(
    q: QueueView<S, K, W, D>,
    woken: Seq<ReadyEvent<K>>,
)
    ensures
        q.clear().streams.is_empty(),
        !q.clear().collect(woken).has_turn(),
        q.clear().collect(woken).pick(false).0 == NextPoll::<S, K>::Finished,
        q.clear().collect(woken).pick(true).0 == NextPoll::<S, K>::Pending,
{
    let c = q.clear().collect(woken);
    lemma_stale(c.ready, c.streams);
}

} // verus!
