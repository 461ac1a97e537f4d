//! Streams that are never pending are served in rounds.

use crate::fair_queue::laws::{has_turn_of, issued, law_new_turn_is_last};
use crate::fair_queue::reading::{
    all_run, law_steps_make_reads, lemma_passed, lemma_turns_left, pass, read, reads,
    single_turns, PollStream, Step,
};
use crate::fair_queue::ready_queue::ReadyEvent;
use crate::fair_queue::{PollAction, QueueView, WakeState};
use crate::poll::Poll;
use vstd::prelude::*;

verus! {

/// What `n` polls give when the streams of `turns` stand in a line: the first one gives an item
/// and goes to the end of the line, or leaves when it has none.
pub open spec fn round_robin<T, K>(turns: Seq<(K, Seq<T>)>, n: nat) -> Seq<(K, T)>
    decreases n,
{
    if n == 0 || turns.len() == 0 {
        Seq::empty()
    } else {
        let (k, s) = turns[0];
        if s.len() == 0 {
            round_robin(turns.drop_first(), (n - 1) as nat)
        } else {
            seq![(k, s[0])] + round_robin(
                turns.drop_first().push((k, s.drop_first())),
                (n - 1) as nat,
            )
        }
    }
}

/// The first item of every stream that has one.
pub open spec fn heads<T, K>(turns: Seq<(K, Seq<T>)>) -> Seq<(K, T)>
    decreases turns.len(),
{
    if turns.len() == 0 {
        Seq::empty()
    } else if turns[0].1.len() == 0 {
        heads(turns.drop_first())
    } else {
        seq![(turns[0].0, turns[0].1[0])] + heads(turns.drop_first())
    }
}

/// The streams that had an item, without their first one.
pub open spec fn tails<T, K>(turns: Seq<(K, Seq<T>)>) -> Seq<(K, Seq<T>)>
    decreases turns.len(),
{
    if turns.len() == 0 {
        Seq::empty()
    } else if turns[0].1.len() == 0 {
        tails(turns.drop_first())
    } else {
        seq![(turns[0].0, turns[0].1.drop_first())] + tails(turns.drop_first())
    }
}

/// Law: in one round every stream that has an item yields exactly its first one, in the order of
/// the line, and the next round begins with the same line, shorter by the streams that had none.
pub proof fn law_each_round_serves_everyone_once<T, K>(turns: Seq<(K, Seq<T>)>, n: nat)
    ensures
        round_robin(turns, turns.len() + n) == heads(turns) + round_robin(tails(turns), n),
{
    lemma_round(turns, Seq::empty(), n);
    assert(turns + Seq::<(K, Seq<T>)>::empty() =~= turns);
    assert(Seq::<(K, Seq<T>)>::empty() + tails(turns) =~= tails(turns));
}

proof fn lemma_round<T, K>(a: Seq<(K, Seq<T>)>, b: Seq<(K, Seq<T>)>, n: nat)
    ensures
        round_robin(a + b, a.len() + n) == heads(a) + round_robin(b + tails(a), n),
    decreases a.len(),
{
    if a.len() == 0 {
        assert(a + b =~= b);
        assert(b + tails(a) =~= b);
        assert(heads(a) + round_robin(b, n) =~= round_robin(b, n));
    } else {
        let (k, s) = a[0];
        let rest = a.drop_first();
        let line = a + b;
        assert(line[0] == a[0]);
        assert(line.drop_first() =~= rest + b);
        if s.len() == 0 {
            lemma_round(rest, b, n);
        } else {
            let moved = b.push((k, s.drop_first()));
            assert(line.drop_first().push((k, s.drop_first())) =~= rest + moved);
            lemma_round(rest, moved, n);
            assert(b + tails(a) =~= moved + tails(rest));
            assert(heads(a) + round_robin(b + tails(a), n) =~= seq![(k, s[0])] + (heads(rest)
                + round_robin(moved + tails(rest), n)));
        }
    }
}

/// The number of items that all streams have left.
pub open spec fn total<T, K>(turns: Seq<(K, Seq<T>)>) -> nat
    decreases turns.len(),
{
    if turns.len() == 0 {
        0
    } else {
        total(turns.drop_last()) + turns.last().1.len()
    }
}

/// No two streams of the line have the same key.
pub open spec fn distinct_keys<T, K>(turns: Seq<(K, Seq<T>)>) -> bool {
    forall|i: int, j: int|
        0 <= i < j < turns.len() ==> (#[trigger] turns[i]).0 != (#[trigger] turns[j]).0
}

/// The items of `out` that came from `k`, in order.
pub open spec fn items_of<T, K>(out: Seq<(K, T)>, k: K) -> Seq<T>
    decreases out.len(),
{
    if out.len() == 0 {
        Seq::empty()
    } else if out[0].0 == k {
        seq![out[0].1] + items_of(out.drop_first(), k)
    } else {
        items_of(out.drop_first(), k)
    }
}

/// Law: reading goes on until all streams are exhausted, and every stream's items come out
/// completely and in order.
pub proof fn law_every_item_comes_out_in_order<T, K>(turns: Seq<(K, Seq<T>)>, n: nat, k: K)
    requires
        distinct_keys(turns),
        n >= total(turns) + turns.len(),
    ensures
        forall|i: int|
            0 <= i < turns.len() && (#[trigger] turns[i]).0 == k ==> items_of(
                round_robin(turns, n),
                k,
            ) == turns[i].1,
        (forall|i: int| 0 <= i < turns.len() ==> (#[trigger] turns[i]).0 != k) ==> items_of(
            round_robin(turns, n),
            k,
        ).len() == 0,
    decreases n,
{
    if turns.len() > 0 {
        let (k0, s) = turns[0];
        let rest = turns.drop_first();
        let out = round_robin(turns, n);
        lemma_total_front(turns);
        assert(n > 0);
        if s.len() == 0 {
            law_every_item_comes_out_in_order(rest, (n - 1) as nat, k);
            assert forall|i: int| 0 <= i < turns.len() && (#[trigger] turns[i]).0 == k implies items_of(
                out,
                k,
            ) == turns[i].1 by {
                if i > 0 {
                    assert(rest[i - 1] == turns[i]);
                } else {
                    assert forall|j: int| 0 <= j < rest.len() implies (#[trigger] rest[j]).0
                        != k by {
                        assert(rest[j] == turns[j + 1]);
                    }
                    assert(items_of(out, k) =~= s);
                }
            }
            if forall|i: int| 0 <= i < turns.len() ==> (#[trigger] turns[i]).0 != k {
                assert forall|j: int| 0 <= j < rest.len() implies (#[trigger] rest[j]).0 != k by {
                    assert(rest[j] == turns[j + 1]);
                }
            }
        } else {
            let line = rest.push((k0, s.drop_first()));
            let later = round_robin(line, (n - 1) as nat);
            assert(line.drop_last() =~= rest);
            assert forall|i: int, j: int| 0 <= i < j < line.len() implies (#[trigger] line[i]).0
                != (#[trigger] line[j]).0 by {
                assert(line[i] == turns[i + 1]);
                if j < rest.len() {
                    assert(line[j] == turns[j + 1]);
                }
            }
            law_every_item_comes_out_in_order(line, (n - 1) as nat, k);
            assert(out == seq![(k0, s[0])] + later);
            assert(out[0] == (k0, s[0]));
            assert(out.drop_first() =~= later);
            assert forall|i: int| 0 <= i < turns.len() && (#[trigger] turns[i]).0 == k implies items_of(
                out,
                k,
            ) == turns[i].1 by {
                if i > 0 {
                    assert(line[i - 1] == turns[i]);
                } else {
                    assert(line[rest.len() as int] == (k0, s.drop_first()));
                    assert(seq![s[0]] + s.drop_first() =~= s);
                }
            }
            if forall|i: int| 0 <= i < turns.len() ==> (#[trigger] turns[i]).0 != k {
                assert forall|j: int| 0 <= j < line.len() implies (#[trigger] line[j]).0 != k by {
                    if j < rest.len() {
                        assert(line[j] == turns[j + 1]);
                    }
                }
            }
        }
    }
}

proof fn lemma_total_front<T, K>(turns: Seq<(K, Seq<T>)>)
    requires
        turns.len() > 0,
    ensures
        total(turns) == turns[0].1.len() + total(turns.drop_first()),
    decreases turns.len(),
{
    if turns.len() > 1 {
        lemma_total_front(turns.drop_last());
        assert(turns.drop_last().drop_first() =~= turns.drop_first().drop_last());
    } else {
        assert(turns.drop_last() =~= turns.drop_first());
    }
}

/// What the streams of the line give in round `r`, in the order of the line: each that has so many
/// items gives its item number `r`.
pub open spec fn round<T, K>(turns: Seq<(K, Seq<T>)>, r: nat) -> Seq<(K, T)>
    decreases turns.len(),
{
    if turns.len() == 0 {
        Seq::empty()
    } else if r < turns[0].1.len() {
        seq![(turns[0].0, turns[0].1[r as int])] + round(turns.drop_first(), r)
    } else {
        round(turns.drop_first(), r)
    }
}

/// What the streams of the line give in the first `m` rounds, one round after the other.
pub open spec fn rounds<T, K>(turns: Seq<(K, Seq<T>)>, m: nat) -> Seq<(K, T)>
    decreases m,
{
    if m == 0 {
        Seq::empty()
    } else {
        rounds(turns, (m - 1) as nat) + round(turns, (m - 1) as nat)
    }
}

/// No stream of the line has more than `m` items.
pub open spec fn at_most<T, K>(turns: Seq<(K, Seq<T>)>, m: nat) -> bool {
    forall|i: int| 0 <= i < turns.len() ==> (#[trigger] turns[i]).1.len() <= m
}

proof fn lemma_round_of_tails<T, K>(turns: Seq<(K, Seq<T>)>, r: nat)
    ensures
        round(turns, 0) == heads(turns),
        round(tails(turns), r) == round(turns, r + 1),
    decreases turns.len(),
{
    if turns.len() > 0 {
        let rest = turns.drop_first();
        lemma_round_of_tails(rest, r);
        if turns[0].1.len() > 0 {
            assert(tails(turns).drop_first() =~= tails(rest));
        }
    }
}

proof fn lemma_rounds_of_tails<T, K>(turns: Seq<(K, Seq<T>)>, m: nat)
    ensures
        rounds(turns, m + 1) == heads(turns) + rounds(tails(turns), m),
    decreases m,
{
    if m == 0 {
        lemma_round_of_tails(turns, 0);
        assert(rounds(turns, 1) =~= rounds(turns, 0) + round(turns, 0));
        assert(rounds(turns, 0) + round(turns, 0) =~= heads(turns));
        assert(heads(turns) + rounds(tails(turns), 0) =~= heads(turns));
    } else {
        lemma_rounds_of_tails(turns, (m - 1) as nat);
        lemma_round_of_tails(turns, (m - 1) as nat);
        assert(rounds(turns, m + 1) == rounds(turns, m) + round(turns, m));
        assert(heads(turns) + rounds(tails(turns), m) =~= (heads(turns) + rounds(
            tails(turns),
            (m - 1) as nat,
        )) + round(tails(turns), (m - 1) as nat));
    }
}

proof fn lemma_tails<T, K>(turns: Seq<(K, Seq<T>)>, m: nat)
    ensures
        tails(turns).len() <= turns.len(),
        total(tails(turns)) + tails(turns).len() == total(turns),
        at_most(turns, m + 1) ==> at_most(tails(turns), m),
    decreases turns.len(),
{
    if turns.len() > 0 {
        let rest = turns.drop_first();
        let less = tails(turns);
        lemma_tails(rest, m);
        lemma_total_front(turns);
        if turns[0].1.len() > 0 {
            assert(less.drop_first() =~= tails(rest));
            lemma_total_front(less);
        }
        if at_most(turns, m + 1) {
            assert forall|i: int| 0 <= i < rest.len() implies (#[trigger] rest[i]).1.len() <= m
                + 1 by {
                assert(rest[i] == turns[i + 1]);
            }
            assert forall|i: int| 0 <= i < less.len() implies (#[trigger] less[i]).1.len() <= m by {
                if turns[0].1.len() > 0 {
                    assert(turns[0].1.len() <= m + 1);
                    if i > 0 {
                        assert(less[i] == tails(rest)[i - 1]);
                    }
                }
            }
        }
    } else {
        assert(total(turns) == 0);
    }
}

/// Law: what a line of streams gives until all are exhausted is its rounds: item `r` of the
/// stream at place `i` for every `r` and `i`, each once, ordered by `r` and within a round by
/// `i`.
pub proof fn law_line_is_served_in_rounds<T, K>(turns: Seq<(K, Seq<T>)>, n: nat, m: nat)
    requires
        n >= total(turns) + turns.len(),
        at_most(turns, m),
    ensures
        round_robin(turns, n) == rounds(turns, m),
    decreases m,
{
    let k = (n - turns.len()) as nat;
    law_each_round_serves_everyone_once(turns, k);
    if m == 0 {
        lemma_all_empty(turns);
        assert(heads(turns) + round_robin(tails(turns), k) =~= Seq::<(K, T)>::empty());
    } else {
        lemma_tails(turns, (m - 1) as nat);
        law_line_is_served_in_rounds(tails(turns), k, (m - 1) as nat);
        lemma_rounds_of_tails(turns, (m - 1) as nat);
    }
}

proof fn lemma_all_empty<T, K>(turns: Seq<(K, Seq<T>)>)
    requires
        at_most(turns, 0),
    ensures
        heads(turns).len() == 0,
        tails(turns).len() == 0,
    decreases turns.len(),
{
    if turns.len() > 0 {
        let rest = turns.drop_first();
        assert forall|i: int| 0 <= i < rest.len() implies (#[trigger] rest[i]).1.len() <= 0 by {
            assert(rest[i] == turns[i + 1]);
        }
        assert(turns[0].1.len() <= 0);
        lemma_all_empty(rest);
    }
}

/// The next item of the line and the line after it, until there is none.
pub open spec fn serve<T, K>(turns: Seq<(K, Seq<T>)>) -> Option<((K, T), Seq<(K, Seq<T>)>)>
    decreases turns.len(),
{
    if turns.len() == 0 {
        None
    } else {
        let (k, s) = turns[0];
        if s.len() == 0 {
            serve(turns.drop_first())
        } else {
            Some(((k, s[0]), turns.drop_first().push((k, s.drop_first()))))
        }
    }
}

/// All that a line gives.
spec fn all_of<T, K>(turns: Seq<(K, Seq<T>)>) -> Seq<(K, T)> {
    round_robin(turns, total(turns) + turns.len())
}

proof fn lemma_serve<T, K>(turns: Seq<(K, Seq<T>)>)
    ensures
        match serve(turns) {
            None => total(turns) == 0 && all_of(turns).len() == 0,
            Some((item, line)) => total(turns) == total(line) + 1 && all_of(turns) == seq![item]
                + all_of(line),
        },
    decreases turns.len(),
{
    if turns.len() > 0 {
        let (k, s) = turns[0];
        let rest = turns.drop_first();
        lemma_total_front(turns);
        if s.len() == 0 {
            lemma_serve(rest);
        } else {
            let line = rest.push((k, s.drop_first()));
            assert(line.drop_last() =~= rest);
        }
    } else {
        assert(total(turns) == 0);
    }
}

/// `items` tells what each stream has left: polling it gives the first of these, or the end when
/// there is none. Such a stream is never pending.
pub open spec fn steady<S, T>(poll: PollStream<S, T>, items: spec_fn(S) -> Seq<T>) -> bool {
    forall|s: S|
        if items(s).len() == 0 {
            (#[trigger] poll(s)).0 == Poll::<Option<T>>::Ready(None)
        } else {
            poll(s).0 == Poll::Ready(Some(items(s)[0])) && items(poll(s).1) == items(
                s,
            ).drop_first()
        }
}

/// The streams that have a turn, in the order of the turns, as what they have left.
pub open spec fn lineup<S, T, K>(
    ready: Seq<ReadyEvent<K>>,
    streams: Map<K, S>,
    items: spec_fn(S) -> Seq<T>,
) -> Seq<(K, Seq<T>)>
    decreases ready.len(),
{
    if ready.len() == 0 {
        Seq::empty()
    } else if streams.contains_key(ready[0].key) {
        seq![(ready[0].key, items(streams[ready[0].key]))] + lineup(
            ready.drop_first(),
            streams,
            items,
        )
    } else {
        lineup(ready.drop_first(), streams, items)
    }
}

/// Some stream has no turn.
pub open spec fn someone_idle<S, K, W, D>(q: QueueView<S, K, W, D>) -> bool {
    exists|k: K| #[trigger] q.streams.contains_key(k) && !has_turn_of(q.ready, k)
}

proof fn lemma_lineup_same<S, T, K>(
    ready: Seq<ReadyEvent<K>>,
    a: Map<K, S>,
    b: Map<K, S>,
    items: spec_fn(S) -> Seq<T>,
)
    requires
        forall|i: int|
            0 <= i < ready.len() ==> (a.contains_key((#[trigger] ready[i]).key) <==> b.contains_key(
                ready[i].key,
            )) && (a.contains_key(ready[i].key) ==> a[ready[i].key] == b[ready[i].key]),
    ensures
        lineup(ready, a, items) == lineup(ready, b, items),
    decreases ready.len(),
{
    if ready.len() > 0 {
        let rest = ready.drop_first();
        assert(a.contains_key(ready[0].key) <==> b.contains_key(ready[0].key));
        assert forall|i: int| 0 <= i < rest.len() implies (a.contains_key((#[trigger] rest[i]).key)
            <==> b.contains_key(rest[i].key)) && (a.contains_key(rest[i].key) ==> a[rest[i].key]
            == b[rest[i].key]) by {
            assert(rest[i] == ready[i + 1]);
        }
        lemma_lineup_same(rest, a, b, items);
    }
}

proof fn lemma_lineup_push<S, T, K>(
    ready: Seq<ReadyEvent<K>>,
    e: ReadyEvent<K>,
    streams: Map<K, S>,
    items: spec_fn(S) -> Seq<T>,
)
    requires
        streams.contains_key(e.key),
    ensures
        lineup(ready.push(e), streams, items) == lineup(ready, streams, items).push(
            (e.key, items(streams[e.key])),
        ),
    decreases ready.len(),
{
    let more = ready.push(e);
    let last = (e.key, items(streams[e.key]));
    if ready.len() == 0 {
        assert(lineup(more.drop_first(), streams, items) =~= Seq::<(K, Seq<T>)>::empty());
        assert(lineup(more, streams, items) =~= seq![last]);
        assert(lineup(ready, streams, items).push(last) =~= seq![last]);
    } else {
        lemma_lineup_push(ready.drop_first(), e, streams, items);
        assert(more.drop_first() =~= ready.drop_first().push(e));
        assert(more[0] == ready[0]);
        assert(lineup(more, streams, items) =~= lineup(ready, streams, items).push(last));
    }
}

/// What a read does to the line.
proof fn lemma_read_line<S, K, W, D, T>(
    q: QueueView<S, K, W, D>,
    poll: PollStream<S, T>,
    items: spec_fn(S) -> Seq<T>,
    block_on_no_clients: bool,
)
    requires
        issued(q.ready, q.counter),
        single_turns(q),
        steady(poll, items),
        serve(lineup(q.ready, q.streams, items)) is Some ==> q.counter < usize::MAX,
    ensures
        ({
            let (outcome, p) = read(q, poll, block_on_no_clients);
            &&& issued(p.ready, p.counter)
            &&& single_turns(p)
            &&& someone_idle(p) == someone_idle(q)
            &&& match serve(lineup(q.ready, q.streams, items)) {
                None => {
                    &&& outcome == if block_on_no_clients || someone_idle(q) {
                        Poll::<Option<(K, T)>>::Pending
                    } else {
                        Poll::<Option<(K, T)>>::Ready(None)
                    }
                    &&& p.ready.len() == 0
                    &&& p.counter == q.counter
                },
                Some((item, line)) => {
                    &&& outcome == Poll::Ready(Some(item))
                    &&& lineup(p.ready, p.streams, items) == line
                    &&& p.counter == q.counter + 1
                },
            }
        }),
    decreases q.ready.len(),
{
    let line = lineup(q.ready, q.streams, items);
    if q.ready.len() == 0 {
        assert(q.no_turns() =~= q);
        if someone_idle(q) {
            let k = choose|k: K| #[trigger]
                q.streams.contains_key(k) && !has_turn_of(q.ready, k);
            assert(q.streams.dom().contains(k));
        } else {
            assert forall|k: K| !q.streams.dom().contains(k) by {
                if q.streams.contains_key(k) {
                    assert(!has_turn_of(q.ready, k));
                }
            }
            assert(q.streams.dom() =~= Set::<K>::empty());
        }
    } else {
        let k = q.ready[0].key;
        let rest = q.ready.drop_first();
        assert(issued(rest, q.counter)) by {
            assert forall|i: int| 0 <= i < rest.len() implies (#[trigger] rest[i]).priority
                < q.counter by {
                assert(rest[i] == q.ready[i + 1]);
            }
        }
        if q.streams.contains_key(k) && items(q.streams[k]).len() > 0 {
            let s = q.streams[k];
            let polled = poll(s).1;
            assert(q.stale() == 0);
            assert(q.ready.skip(1) =~= rest);
            let left = q.take_turn();
            assert(left.ready == rest);
            let p = left.schedule(k, polled);
            law_new_turn_is_last(left, k, polled);
            assert(read(q, poll, block_on_no_clients).1 == p);
            assert forall|i: int| 0 <= i < rest.len() implies (#[trigger] rest[i]).key != k by {
                assert(rest[i] == q.ready[i + 1]);
            }
            lemma_lineup_push(rest, ReadyEvent { priority: q.counter, key: k }, p.streams, items);
            lemma_lineup_same(rest, q.streams, p.streams, items);
            assert(line.drop_first() =~= lineup(rest, q.streams, items));
            assert forall|i: int, j: int|
                0 <= i < j < p.ready.len() && (#[trigger] p.ready[i]).key == (
                #[trigger] p.ready[j]).key implies !p.streams.contains_key(p.ready[i].key) by {
                assert(p.ready[i] == q.ready[i + 1]);
                if j < rest.len() {
                    assert(p.ready[j] == q.ready[j + 1]);
                } else {
                    assert(rest[i].key != k);
                }
            }
            assert(issued(p.ready, p.counter)) by {
                assert forall|i: int| 0 <= i < p.ready.len() implies (#[trigger] p.ready[i]).priority
                    < p.counter by {
                    if i < rest.len() {
                        assert(p.ready[i] == rest[i]);
                    }
                }
            }
            lemma_idle_served(q, p);
        } else {
            lemma_passed(q, poll, block_on_no_clients);
            let p = pass(q, poll);
            assert forall|i: int| 0 <= i < rest.len() implies (p.streams.contains_key(
                (#[trigger] rest[i]).key,
            ) <==> q.streams.contains_key(rest[i].key)) && (p.streams.contains_key(rest[i].key)
                ==> p.streams[rest[i].key] == q.streams[rest[i].key]) by {
                assert(rest[i] == q.ready[i + 1]);
                assert(q.ready[0].key == q.ready[i + 1].key ==> !q.streams.contains_key(k));
            }
            lemma_lineup_same(rest, p.streams, q.streams, items);
            if q.streams.contains_key(k) {
                assert(line.drop_first() =~= lineup(rest, q.streams, items));
            }
            assert(serve(line) == serve(lineup(rest, q.streams, items)));
            lemma_idle_passed(q, poll);
            lemma_read_line(p, poll, items, block_on_no_clients);
        }
    }
}

proof fn lemma_idle_served<S, K, W, D>(q: QueueView<S, K, W, D>, p: QueueView<S, K, W, D>)
    requires
        q.ready.len() > 0,
        q.streams.contains_key(q.ready[0].key),
        p.ready.len() == q.ready.len(),
        forall|i: int| 0 < i < q.ready.len() ==> p.ready[i - 1] == #[trigger] q.ready[i],
        p.ready.last().key == q.ready[0].key,
        forall|x: K| #[trigger] p.streams.contains_key(x) <==> q.streams.contains_key(x),
    ensures
        someone_idle(p) == someone_idle(q),
{
    assert forall|x: K| #[trigger] has_turn_of(p.ready, x) <==> has_turn_of(q.ready, x) by {
        if has_turn_of(q.ready, x) {
            let i = choose|i: int| 0 <= i < q.ready.len() && (#[trigger] q.ready[i]).key == x;
            if i > 0 {
                assert(p.ready[i - 1].key == x);
            } else {
                assert(p.ready[p.ready.len() - 1].key == x);
            }
        }
        if has_turn_of(p.ready, x) {
            let i = choose|i: int| 0 <= i < p.ready.len() && (#[trigger] p.ready[i]).key == x;
            if i < p.ready.len() - 1 {
                assert(q.ready[i + 1].key == x);
            } else {
                assert(q.ready[0].key == x);
            }
        }
    }
    if someone_idle(p) {
        let x = choose|x: K| #[trigger] p.streams.contains_key(x) && !has_turn_of(p.ready, x);
        assert(q.streams.contains_key(x) && !has_turn_of(q.ready, x));
    }
    if someone_idle(q) {
        let x = choose|x: K| #[trigger] q.streams.contains_key(x) && !has_turn_of(q.ready, x);
        assert(p.streams.contains_key(x) && !has_turn_of(p.ready, x));
    }
}

proof fn lemma_idle_passed<S, K, W, D, T>(q: QueueView<S, K, W, D>, poll: PollStream<S, T>)
    requires
        q.ready.len() > 0,
        q.streams.contains_key(q.ready[0].key) ==> poll(q.streams[q.ready[0].key]).0 == Poll::<
            Option<T>,
        >::Ready(None),
    ensures
        someone_idle(pass(q, poll)) == someone_idle(q),
{
    let p = pass(q, poll);
    if someone_idle(p) {
        let x = choose|x: K| #[trigger] p.streams.contains_key(x) && !has_turn_of(p.ready, x);
        lemma_turns_left(q, poll, x);
        assert(q.streams.contains_key(x) && !has_turn_of(q.ready, x));
    }
    if someone_idle(q) {
        let x = choose|x: K| #[trigger] q.streams.contains_key(x) && !has_turn_of(q.ready, x);
        assert(x != q.ready[0].key);
        lemma_turns_left(q, poll, x);
        assert(p.streams.contains_key(x) && !has_turn_of(p.ready, x));
    }
}

/// What `n` reads give that give the items `out` one by one, and then the end, or nothing yet if
/// there is something to wait for.
pub open spec fn one_by_one<T, K>(out: Seq<(K, T)>, waits: bool, n: nat) -> Seq<
    Poll<Option<(K, T)>>,
> {
    Seq::new(
        n,
        |i: int|
            if i < out.len() {
                Poll::Ready(Some(out[i]))
            } else if waits {
                Poll::Pending
            } else {
                Poll::Ready(None)
            },
    )
}

/// Law: streams that are never pending are served in rounds. Successive reads give all their items,
/// none lost and none twice, a round at a time and within a round in the order of the turns; then
/// the queue ends, or is pending if it was told to block or holds a stream without a turn. Turns
/// whose stream is gone make no difference.
pub proof fn law_successive_reads_go_round<S, K, W, D, T>(
    q: QueueView<S, K, W, D>,
    poll: PollStream<S, T>,
    items: spec_fn(S) -> Seq<T>,
    block_on_no_clients: bool,
    n: nat,
    m: nat,
)
    requires
        issued(q.ready, q.counter),
        single_turns(q),
        steady(poll, items),
        at_most(lineup(q.ready, q.streams, items), m),
        q.counter + total(lineup(q.ready, q.streams, items)) <= usize::MAX,
    ensures
        reads(q, poll, block_on_no_clients, n).0 == one_by_one(
            rounds(lineup(q.ready, q.streams, items), m),
            block_on_no_clients || someone_idle(q),
            n,
        ),
{
    let line = lineup(q.ready, q.streams, items);
    lemma_reads(q, poll, items, block_on_no_clients, n);
    law_line_is_served_in_rounds(line, total(line) + line.len(), m);
}

proof fn lemma_reads<S, K, W, D, T>(
    q: QueueView<S, K, W, D>,
    poll: PollStream<S, T>,
    items: spec_fn(S) -> Seq<T>,
    block_on_no_clients: bool,
    n: nat,
)
    requires
        issued(q.ready, q.counter),
        single_turns(q),
        steady(poll, items),
        q.counter + total(lineup(q.ready, q.streams, items)) <= usize::MAX,
    ensures
        reads(q, poll, block_on_no_clients, n).0 == one_by_one(
            all_of(lineup(q.ready, q.streams, items)),
            block_on_no_clients || someone_idle(q),
            n,
        ),
    decreases n,
{
    let line = lineup(q.ready, q.streams, items);
    let waits = block_on_no_clients || someone_idle(q);
    let given = reads(q, poll, block_on_no_clients, n).0;
    if n == 0 {
        assert(given =~= one_by_one(all_of(line), waits, 0));
    } else {
        lemma_serve(line);
        lemma_read_line(q, poll, items, block_on_no_clients);
        let (first, p) = read(q, poll, block_on_no_clients);
        let less = lineup(p.ready, p.streams, items);
        lemma_serve(less);
        if serve(line) is None {
            assert(less.len() == 0);
            assert(total(less) == 0);
        }
        lemma_reads(p, poll, items, block_on_no_clients, (n - 1) as nat);
        assert(given =~= seq![first] + one_by_one(all_of(less), waits, (n - 1) as nat));
        assert(given =~= one_by_one(all_of(line), waits, n));
    }
}

/// A new queue after these streams were inserted, one after the other.
pub open spec fn filled<S, K, W, D>(streams: Seq<(K, S)>) -> QueueView<S, K, W, D>
    decreases streams.len(),
{
    if streams.len() == 0 {
        QueueView::empty()
    } else {
        filled(streams.drop_last()).schedule(streams.last().0, streams.last().1)
    }
}

/// The streams as what they have left.
pub open spec fn contents_of<S, T, K>(
    streams: Seq<(K, S)>,
    items: spec_fn(S) -> Seq<T>,
) -> Seq<(K, Seq<T>)> {
    Seq::new(streams.len(), |i: int| (streams[i].0, items(streams[i].1)))
}

/// Law: streams that are never pending and were inserted into a new queue under different keys come
/// out in rounds: successive reads give item `r` of stream `i` for every `r` and `i`, each once,
/// ordered by `r` and within a round by `i`, and every read after that gives the end, or is
/// pending if the queue blocks.
pub proof fn law_inserted_streams_go_round<S, K, W, D, T>(
    streams: Seq<(K, S)>,
    poll: PollStream<S, T>,
    items: spec_fn(S) -> Seq<T>,
    block_on_no_clients: bool,
    n: nat,
    m: nat,
)
    requires
        distinct_keys(contents_of(streams, items)),
        steady(poll, items),
        at_most(contents_of(streams, items), m),
        streams.len() + total(contents_of(streams, items)) <= usize::MAX,
    ensures
        reads(filled::<S, K, W, D>(streams), poll, block_on_no_clients, n).0 == one_by_one(
            rounds(contents_of(streams, items), m),
            block_on_no_clients,
            n,
        ),
{
    let q = filled::<S, K, W, D>(streams);
    lemma_filled::<S, K, W, D, T>(streams, items);
    if someone_idle(q) {
        let k = choose|k: K| #[trigger] q.streams.contains_key(k) && !has_turn_of(q.ready, k);
        assert(false);
    }
    law_successive_reads_go_round(q, poll, items, block_on_no_clients, n, m);
}

/// Law: the same, of the steps that the calls consist of: call `i` returns the item number `i` of
/// the rounds, and the calls after the last item return the end, or are pending if the queue
/// blocks.
pub proof fn law_calls_go_round<S, K, W: Clone, D: Clone, T>(
    streams: Seq<(K, S)>,
    wake_state: WakeState<K, W>,
    poll: PollStream<S, T>,
    items: spec_fn(S) -> Seq<T>,
    block_on_no_clients: bool,
    calls: Seq<Seq<Step<S, K, W, D, T>>>,
    m: nat,
    i: int,
)
    requires
        distinct_keys(contents_of(streams, items)),
        steady(poll, items),
        at_most(contents_of(streams, items), m),
        streams.len() + total(contents_of(streams, items)) <= usize::MAX,
        wake_state.woken().len() == 0,
        all_run(filled::<S, K, W, D>(streams), wake_state, poll, block_on_no_clients, calls),
        0 <= i < calls.len(),
    ensures
        calls[i].last().action == PollAction::<S, K, T, D>::Return(
            one_by_one(
                rounds(contents_of(streams, items), m),
                block_on_no_clients,
                calls.len(),
            )[i],
        ),
{
    let q = filled::<S, K, W, D>(streams);
    law_steps_make_reads(q, wake_state, poll, block_on_no_clients, calls, i);
    law_inserted_streams_go_round::<S, K, W, D, T>(
        streams,
        poll,
        items,
        block_on_no_clients,
        calls.len(),
        m,
    );
}

proof fn lemma_filled<S, K, W, D, T>(streams: Seq<(K, S)>, items: spec_fn(S) -> Seq<T>)
    requires
        distinct_keys(contents_of(streams, items)),
        streams.len() <= usize::MAX,
    ensures
        ({
            let q = filled::<S, K, W, D>(streams);
            &&& q.counter == streams.len()
            &&& q.ready.len() == streams.len()
            &&& forall|i: int|
                0 <= i < streams.len() ==> (#[trigger] q.ready[i]).key == streams[i].0
            &&& issued(q.ready, q.counter)
            &&& single_turns(q)
            &&& forall|k: K| #[trigger] q.streams.contains_key(k) ==> has_turn_of(q.ready, k)
            &&& lineup(q.ready, q.streams, items) == contents_of(streams, items)
        }),
    decreases streams.len(),
{
    let q = filled::<S, K, W, D>(streams);
    let line = contents_of(streams, items);
    if streams.len() == 0 {
        assert(lineup(q.ready, q.streams, items) =~= line);
    } else {
        let rest = streams.drop_last();
        let (k, s) = streams.last();
        let less = contents_of(rest, items);
        assert forall|i: int, j: int| 0 <= i < j < less.len() implies (#[trigger] less[i]).0 != (
        #[trigger] less[j]).0 by {
            assert(less[i] == line[i] && less[j] == line[j]);
        }
        lemma_filled::<S, K, W, D, T>(rest, items);
        let p = filled::<S, K, W, D>(rest);
        law_new_turn_is_last(p, k, s);
        let e = ReadyEvent { priority: p.counter, key: k };
        assert(q.ready == p.ready.push(e));
        assert forall|i: int| 0 <= i < streams.len() implies (#[trigger] q.ready[i]).key
            == streams[i].0 by {
            if i < rest.len() {
                assert(q.ready[i] == p.ready[i]);
            }
        }
        assert forall|i: int, j: int| 0 <= i < j < q.ready.len() implies (#[trigger] q.ready[i]).key
            != (#[trigger] q.ready[j]).key by {
            assert(line[i].0 != line[j].0);
        }
        assert forall|i: int| 0 <= i < q.ready.len() implies (#[trigger] q.ready[i]).priority
            < q.counter by {
            if i < rest.len() {
                assert(q.ready[i] == p.ready[i]);
            }
        }
        assert forall|x: K| #[trigger] q.streams.contains_key(x) implies has_turn_of(
            q.ready,
            x,
        ) by {
            if x == k {
                assert(q.ready[rest.len() as int].key == x);
            } else {
                assert(p.streams.contains_key(x));
                let i = choose|i: int| 0 <= i < p.ready.len() && (#[trigger] p.ready[i]).key == x;
                assert(q.ready[i].key == x);
            }
        }
        assert forall|i: int| 0 <= i < p.ready.len() implies (#[trigger] p.ready[i]).key != k by {
            assert(line[i].0 != line[rest.len() as int].0);
        }
        lemma_lineup_same(p.ready, p.streams, q.streams, items);
        lemma_lineup_push(p.ready, e, q.streams, items);
        assert(line =~= less.push((k, items(s))));
    }
}

} // verus!
