//! What holds of a fair queue over several calls.

use crate::fair_queue::ready_queue::{
    enqueue, enqueue_all, lemma_enqueue_ordered, ordered, ReadyEvent,
};
use crate::fair_queue::{lemma_stale, QueueView};
use vstd::prelude::*;

verus! {

/// Every turn of `turns` was handed out before the counter reached `counter`.
pub open spec fn issued<K>(turns: Seq<ReadyEvent<K>>, counter: usize) -> bool {
    forall|i: int| 0 <= i < turns.len() ==> (#[trigger] turns[i]).priority < counter
}

/// Some turn of `turns` belongs to `k`.
pub open spec fn has_turn_of<K>(turns: Seq<ReadyEvent<K>>, k: K) -> bool {
    exists|i: int| 0 <= i < turns.len() && (#[trigger] turns[i]).key == k
}

proof fn lemma_enqueue_has<K>(s: Seq<ReadyEvent<K>>, e: ReadyEvent<K>, k: K)
    ensures
        has_turn_of(enqueue(s, e), k) <==> has_turn_of(s, k) || e.key == k,
    decreases s.len(),
{
    let r = enqueue(s, e);
    if s.len() > 0 && e.priority < s.last().priority {
        let t = s.drop_last();
        lemma_enqueue_has(t, e, k);
        let r0 = enqueue(t, e);
        assert(r == r0.push(s.last()));
        if has_turn_of(r, k) {
            let i = choose|i: int| 0 <= i < r.len() && (#[trigger] r[i]).key == k;
            if i < r0.len() {
                assert(r0[i].key == k);
                if has_turn_of(t, k) {
                    let j = choose|j: int| 0 <= j < t.len() && (#[trigger] t[j]).key == k;
                    assert(s[j].key == k);
                }
            } else {
                assert(s[s.len() - 1].key == k);
            }
        }
        if has_turn_of(s, k) {
            let j = choose|j: int| 0 <= j < s.len() && (#[trigger] s[j]).key == k;
            if j < t.len() {
                assert(t[j].key == k);
            } else {
                assert(r[r.len() - 1].key == k);
            }
        }
        if has_turn_of(r0, k) {
            let i = choose|i: int| 0 <= i < r0.len() && (#[trigger] r0[i]).key == k;
            assert(r[i].key == k);
        }
    } else {
        assert(r == s.push(e));
        assert(r[r.len() - 1] == e);
        if has_turn_of(s, k) {
            let j = choose|j: int| 0 <= j < s.len() && (#[trigger] s[j]).key == k;
            assert(r[j].key == k);
        }
        if has_turn_of(r, k) {
            let i = choose|i: int| 0 <= i < r.len() && (#[trigger] r[i]).key == k;
            if i < s.len() {
                assert(s[i].key == k);
            }
        }
    }
}

proof fn lemma_enqueue_all_has<K>(s: Seq<ReadyEvent<K>>, es: Seq<ReadyEvent<K>>, k: K)
    ensures
        has_turn_of(enqueue_all(s, es), k) <==> has_turn_of(s, k) || has_turn_of(es, k),
    decreases es.len(),
{
    if es.len() > 0 {
        let rest = es.drop_last();
        lemma_enqueue_all_has(s, rest, k);
        lemma_enqueue_has(enqueue_all(s, rest), es.last(), k);
        if has_turn_of(es, k) {
            let i = choose|i: int| 0 <= i < es.len() && (#[trigger] es[i]).key == k;
            if i < rest.len() {
                assert(rest[i].key == k);
            }
        }
        if has_turn_of(rest, k) {
            let i = choose|i: int| 0 <= i < rest.len() && (#[trigger] rest[i]).key == k;
            assert(es[i].key == k);
        }
        if es.last().key == k {
            assert(es[es.len() - 1].key == k);
        }
    }
}

/// Law: while the counter has not started over, the turns waiting in the queue, those asked for
/// by waking, and the turn that is taken next were all handed out before the counter's value;
/// every operation keeps it so.
pub proof fn law_turns_stay_issued<S, K, W, D>(
    q: QueueView<S, K, W, D>,
    woken: Seq<ReadyEvent<K>>,
    k: K,
    s: S,
)
    requires
        ordered(q.ready),
        issued(q.ready, q.counter),
        issued(woken, q.counter),
    ensures
        q.counter < usize::MAX ==> issued(q.schedule(k, s).ready, q.schedule(k, s).counter)
            && issued(woken, q.schedule(k, s).counter),
        issued(q.collect(woken).ready, q.counter),
        ordered(q.collect(woken).ready),
        q.has_turn() ==> q.turn().priority < q.counter,
        q.has_turn() ==> issued(q.take_turn().ready, q.counter),
        issued(q.park(k, s).ready, q.counter),
        issued(q.remove(k).ready, q.counter),
        issued(q.clear().ready, q.counter),
{
    let e = ReadyEvent { priority: q.counter, key: k };
    lemma_enqueue_ordered(q.ready, e);
    lemma_collect_issued(q.ready, woken, q.counter);
    lemma_stale(q.ready, q.streams);
    if q.counter < usize::MAX {
        let r = q.schedule(k, s).ready;
        assert forall|i: int| 0 <= i < r.len() implies (#[trigger] r[i]).priority
            < q.counter + 1 by {
            if r[i] != e {
                let j = choose|j: int| 0 <= j < q.ready.len() && q.ready[j] == r[i];
                assert(q.ready[j].priority < q.counter);
            }
        }
    }
}

proof fn lemma_collect_issued<K>(
    s: Seq<ReadyEvent<K>>,
    es: Seq<ReadyEvent<K>>,
    counter: usize,
)
    requires
        ordered(s),
        issued(s, counter),
        issued(es, counter),
    ensures
        ordered(enqueue_all(s, es)),
        issued(enqueue_all(s, es), counter),
    decreases es.len(),
{
    if es.len() > 0 {
        let rest = es.drop_last();
        assert forall|i: int| 0 <= i < rest.len() implies (#[trigger] rest[i]).priority
            < counter by {
            assert(rest[i] == es[i]);
        }
        lemma_collect_issued(s, rest, counter);
        let t = enqueue_all(s, rest);
        lemma_enqueue_ordered(t, es.last());
        let r = enqueue(t, es.last());
        assert(es[es.len() - 1].priority < counter);
        assert forall|i: int| 0 <= i < r.len() implies (#[trigger] r[i]).priority < counter by {
            if r[i] != es.last() {
                let j = choose|j: int| 0 <= j < t.len() && t[j] == r[i];
                assert(t[j].priority < counter);
            }
        }
    }
}

/// Law: a stream that is stored anew, or put back after it yielded an item, stands behind all
/// others.
pub proof fn law_new_turn_is_last<S, K, W, D>(q: QueueView<S, K, W, D>, k: K, s: S)
    requires
        issued(q.ready, q.counter),
    ensures
        q.schedule(k, s).ready == q.ready.push(ReadyEvent { priority: q.counter, key: k }),
{
    if q.ready.len() > 0 {
        assert(q.ready[q.ready.len() - 1].priority < q.counter);
    }
}

/// Law: a stream that wakes gets its old place back: its turn stands before every turn that was
/// handed out after it, and behind every other.
pub proof fn law_woken_stream_keeps_its_place<S, K, W, D>(
    q: QueueView<S, K, W, D>,
    e: ReadyEvent<K>,
)
    requires
        ordered(q.ready),
    ensures
        exists|n: int|
            {
                &&& 0 <= n <= q.ready.len()
                &&& #[trigger] q.ready.insert(n, e) == q.collect(seq![e]).ready
                &&& forall|i: int| 0 <= i < n ==> (#[trigger] q.ready[i]).priority <= e.priority
                &&& forall|i: int|
                    n <= i < q.ready.len() ==> e.priority < (#[trigger] q.ready[i]).priority
            },
{
    let es = seq![e];
    assert(es.drop_last() =~= Seq::<ReadyEvent<K>>::empty());
    assert(enqueue_all(q.ready, es.drop_last()) == q.ready);
    assert(q.collect(es).ready == enqueue(q.ready, e));
    let n = lemma_enqueue_place(q.ready, e);
    assert(q.ready.insert(n, e) == q.collect(seq![e]).ready);
}

proof fn lemma_enqueue_place<K>(s: Seq<ReadyEvent<K>>, e: ReadyEvent<K>) -> (n: int)
    requires
        ordered(s),
    ensures
        0 <= n <= s.len(),
        s.insert(n, e) == enqueue(s, e),
        forall|i: int| 0 <= i < n ==> (#[trigger] s[i]).priority <= e.priority,
        forall|i: int| n <= i < s.len() ==> e.priority < (#[trigger] s[i]).priority,
    decreases s.len(),
{
    if s.len() > 0 && e.priority < s.last().priority {
        let t = s.drop_last();
        let n = lemma_enqueue_place(t, e);
        assert(s.insert(n, e) =~= t.insert(n, e).push(s.last()));
        assert forall|i: int| 0 <= i < n implies (#[trigger] s[i]).priority <= e.priority by {
            assert(s[i] == t[i]);
        }
        assert forall|i: int| n <= i < s.len() implies e.priority < (#[trigger] s[i]).priority by {
            if i < t.len() {
                assert(s[i] == t[i]);
            }
        }
        n
    } else {
        let n = s.len() as int;
        assert(s.insert(n, e) =~= s.push(e));
        n
    }
}

/// Law: of all turns that have their stream, the one handed out first is taken first.
pub proof fn law_turns_are_taken_in_order<S, K, W, D>(q: QueueView<S, K, W, D>)
    requires
        ordered(q.ready),
    ensures
        q.has_turn() ==> q.streams.contains_key(q.turn().key),
        q.has_turn() <==> exists|i: int|
            0 <= i < q.ready.len() && q.streams.contains_key((#[trigger] q.ready[i]).key),
        forall|i: int|
            0 <= i < q.ready.len() && q.streams.contains_key((#[trigger] q.ready[i]).key)
                ==> q.turn().priority <= q.ready[i].priority,
{
    lemma_stale(q.ready, q.streams);
    if q.has_turn() {
        assert(q.streams.contains_key(q.ready[q.stale() as int].key));
    }
}

/// Law: no stream is forgotten. Every stream in the queue has a turn, has asked for one by
/// waking, or is pending since its last turn (`parked` holds the keys of those); every
/// operation keeps it so, and only a poll that finds the stream pending adds to `parked`.
pub proof fn law_no_stream_is_forgotten<S, K, W, D>(
    q: QueueView<S, K, W, D>,
    woken: Seq<ReadyEvent<K>>,
    parked: Set<K>,
    k: K,
    s: S,
    e: ReadyEvent<K>,
)
    requires
        remembered(q, woken, parked),
    ensures
        remembered(q.schedule(k, s), woken, parked),
        remembered(q.park(k, s), woken, parked.insert(k)),
        remembered(q.remove(k), woken, parked),
        remembered(q.clear(), woken, parked),
        remembered(q, woken.push(e), parked.remove(e.key)),
        remembered(q.collect(woken), Seq::empty(), parked),
        q.has_turn() ==> remembered(q.take_turn(), woken, parked),
        !q.has_turn() ==> remembered(q.no_turns(), woken, parked),
{
    assert forall|x: K| #[trigger] q.schedule(k, s).streams.contains_key(x) implies has_turn_of(
        q.schedule(k, s).ready,
        x,
    ) || has_turn_of(woken, x) || parked.contains(x) by {
        lemma_enqueue_has(q.ready, ReadyEvent { priority: q.counter, key: k }, x);
        if x != k {
            assert(q.streams.contains_key(x));
        }
    }
    assert forall|x: K| #[trigger] q.park(k, s).streams.contains_key(x) implies has_turn_of(
        q.park(k, s).ready,
        x,
    ) || has_turn_of(woken, x) || parked.insert(k).contains(x) by {
        if x != k {
            assert(q.streams.contains_key(x));
        }
    }
    assert forall|x: K| #[trigger] q.remove(k).streams.contains_key(x) implies has_turn_of(
        q.remove(k).ready,
        x,
    ) || has_turn_of(woken, x) || parked.contains(x) by {
        assert(q.streams.contains_key(x));
    }
    let more = woken.push(e);
    assert forall|x: K| #[trigger] q.streams.contains_key(x) implies has_turn_of(q.ready, x)
        || has_turn_of(more, x) || parked.remove(e.key).contains(x) by {
        if x == e.key {
            assert(more[woken.len() as int].key == x);
        } else if has_turn_of(woken, x) {
            let i = choose|i: int| 0 <= i < woken.len() && (#[trigger] woken[i]).key == x;
            assert(more[i].key == x);
        }
    }
    assert forall|x: K| #[trigger] q.collect(woken).streams.contains_key(x) implies has_turn_of(
        q.collect(woken).ready,
        x,
    ) || has_turn_of(Seq::<ReadyEvent<K>>::empty(), x) || parked.contains(x) by {
        assert(q.streams.contains_key(x));
        lemma_enqueue_all_has(q.ready, woken, x);
    }
    lemma_stale(q.ready, q.streams);
    if q.has_turn() {
        let r = q.take_turn();
        assert forall|x: K| #[trigger] r.streams.contains_key(x) implies has_turn_of(r.ready, x)
            || has_turn_of(woken, x) || parked.contains(x) by {
            assert(q.streams.contains_key(x));
            if has_turn_of(q.ready, x) {
                let i = choose|i: int| 0 <= i < q.ready.len() && (#[trigger] q.ready[i]).key == x;
                assert(i > q.stale());
                assert(r.ready[i - q.stale() - 1].key == x);
            }
        }
    } else {
        assert forall|x: K| #[trigger] q.no_turns().streams.contains_key(x) implies has_turn_of(
            q.no_turns().ready,
            x,
        ) || has_turn_of(woken, x) || parked.contains(x) by {
            assert(q.streams.contains_key(x));
            if has_turn_of(q.ready, x) {
                let i = choose|i: int| 0 <= i < q.ready.len() && (#[trigger] q.ready[i]).key == x;
                assert(false);
            }
        }
    }
}

/// Every stream of `q` has a turn, has asked for one, or is in `parked`.
pub open spec fn remembered<S, K, W, D>(
    q: QueueView<S, K, W, D>,
    woken: Seq<ReadyEvent<K>>,
    parked: Set<K>,
) -> bool {
    forall|x: K| #[trigger]
        q.streams.contains_key(x) ==> has_turn_of(q.ready, x) || has_turn_of(woken, x)
            || parked.contains(x)
}

} // verus!
