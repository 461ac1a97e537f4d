//! The order in which streams of a fair queue get their turn.

use std::cmp::Ordering;
use std::collections::VecDeque;
use vstd::prelude::*;

verus! {

/// A turn in the queue: the stream stored under `key` may be polled.
///
/// The lower `priority`, the earlier the turn was handed out.
pub struct ReadyEvent<K> {
    pub priority: usize,
    pub key: K,
}

impl<K: Clone> Clone for ReadyEvent<K> {
    fn clone(&self) -> (r: Self)
        ensures
            r.priority == self.priority,
            cloned(self.key, r.key),
    {
        ReadyEvent { priority: self.priority, key: self.key.clone() }
    }
}

impl<K> PartialEq for ReadyEvent<K> {
    /// Two turns compare equal when their priorities do; the keys play no part.
    fn eq(&self, other: &Self) -> (r: bool) {
        self.priority == other.priority
    }
}

impl<K> vstd::std_specs::cmp::PartialEqSpecImpl for ReadyEvent<K> {
    open spec fn obeys_eq_spec() -> bool {
        true
    }

    open spec fn eq_spec(&self, other: &Self) -> bool {
        self.priority == other.priority
    }
}

impl<K> PartialOrd for ReadyEvent<K> {
    /// The order is that of the priorities turned round: the greatest event is the one that was
    /// handed out first.
    fn partial_cmp(&self, other: &Self) -> (r: Option<Ordering>) {
        if other.priority < self.priority {
            Some(Ordering::Less)
        } else if other.priority == self.priority {
            Some(Ordering::Equal)
        } else {
            Some(Ordering::Greater)
        }
    }
}

impl<K> vstd::std_specs::cmp::PartialOrdSpecImpl for ReadyEvent<K> {
    open spec fn obeys_partial_cmp_spec() -> bool {
        true
    }

    open spec fn partial_cmp_spec(&self, other: &Self) -> Option<Ordering> {
        if other.priority < self.priority {
            Some(Ordering::Less)
        } else if other.priority == self.priority {
            Some(Ordering::Equal)
        } else {
            Some(Ordering::Greater)
        }
    }
}

/// The turns of `s` stand in the order of their priorities.
pub open spec fn ordered<K>(s: Seq<ReadyEvent<K>>) -> bool {
    forall|i: int, j: int| 0 <= i <= j < s.len() ==> s[i].priority <= s[j].priority
}

/// `s` with the turn `e` behind every turn that was handed out before it or together with it.
pub open spec fn enqueue<K>(s: Seq<ReadyEvent<K>>, e: ReadyEvent<K>) -> Seq<ReadyEvent<K>>
    decreases s.len(),
{
    if s.len() > 0 && e.priority < s.last().priority {
        enqueue(s.drop_last(), e).push(s.last())
    } else {
        s.push(e)
    }
}

/// `s` with the turns of `es` enqueued one after the other.
pub open spec fn enqueue_all<K>(s: Seq<ReadyEvent<K>>, es: Seq<ReadyEvent<K>>) -> Seq<ReadyEvent<K>>
    decreases es.len(),
{
    if es.len() == 0 {
        s
    } else {
        enqueue(enqueue_all(s, es.drop_last()), es.last())
    }
}

/// Where the turn `e` comes to stand in `s`.
proof fn lemma_enqueue_at<K>(s: Seq<ReadyEvent<K>>, e: ReadyEvent<K>, n: int)
    requires
        0 <= n <= s.len(),
        forall|i: int| n <= i < s.len() ==> e.priority < (#[trigger] s[i]).priority,
        n > 0 ==> s[n - 1].priority <= e.priority,
    ensures
        enqueue(s, e) == s.insert(n, e),
    decreases s.len(),
{
    if n < s.len() {
        lemma_enqueue_at(s.drop_last(), e, n);
        assert(s.insert(n, e) =~= s.drop_last().insert(n, e).push(s.last()));
    } else {
        assert(s.insert(n, e) =~= s.push(e));
    }
}

/// Enqueueing adds one turn and keeps the order.
pub proof fn lemma_enqueue_ordered<K>(s: Seq<ReadyEvent<K>>, e: ReadyEvent<K>)
    requires
        ordered(s),
    ensures
        ordered(enqueue(s, e)),
        enqueue(s, e).len() == s.len() + 1,
        forall|i: int| 0 <= i < enqueue(s, e).len() ==> (#[trigger] enqueue(s, e)[i] == e || s.contains(
            enqueue(s, e)[i],
        )),
    decreases s.len(),
{
    if s.len() > 0 && e.priority < s.last().priority {
        let t = s.drop_last();
        lemma_enqueue_ordered(t, e);
        let r = enqueue(t, e);
        assert forall|i: int| 0 <= i < r.len() implies (#[trigger] r[i]).priority
            <= s.last().priority && (r[i] == e || s.contains(r[i])) by {
            if r[i] != e {
                let j = choose|j: int| 0 <= j < t.len() && t[j] == r[i];
                assert(s[j] == r[i]);
            }
        }
        assert(enqueue(s, e) == r.push(s.last()));
        assert(s.contains(s.last()));
    } else {
        assert forall|i: int| 0 <= i < s.len() implies s.contains(#[trigger] s[i]) by {}
    }
}

/// Turns waiting to be taken, the one handed out first at the front.
pub struct ReadyQueue<K> {
    events: VecDeque<ReadyEvent<K>>,
}

impl<K> View for ReadyQueue<K> {
    type V = Seq<ReadyEvent<K>>;

    closed spec fn view(&self) -> Seq<ReadyEvent<K>> {
        self.events@
    }
}

impl<K> ReadyQueue<K> {
    /// The turns stand in the order of their priorities.
    pub open spec fn wf(&self) -> bool {
        ordered(self@)
    }

    /// A queue without turns.
    pub fn new() -> (r: Self)
        ensures
            r.wf(),
            r@ == Seq::<ReadyEvent<K>>::empty(),
    {
        ReadyQueue { events: VecDeque::new() }
    }

    /// Adds a turn behind those that were handed out before it.
    pub fn push(&mut self, event: ReadyEvent<K>)
        requires
            old(self).wf(),
        ensures
            final(self).wf(),
            final(self)@ == enqueue(old(self)@, event),
    {
        let mut n: usize = self.events.len();
        while n > 0 && self.events[n - 1] < event
            invariant
                0 <= n <= self.events@.len(),
                self.events@ == old(self).events@,
                forall|i: int| n <= i < self.events@.len() ==> event.priority < (#[trigger] self.events@[i]).priority,
            decreases n,
        {
            n = n - 1;
        }
        proof {
            lemma_enqueue_at(self.events@, event, n as int);
            lemma_enqueue_ordered(self.events@, event);
        }
        self.events.insert(n, event);
    }

    /// Takes the turn at the front.
    pub fn pop(&mut self) -> (r: Option<ReadyEvent<K>>)
        requires
            old(self).wf(),
        ensures
            final(self).wf(),
            match r {
                Some(event) => old(self)@.len() > 0 && event == old(self)@[0] && final(self)@
                    == old(self)@.drop_first(),
                None => old(self)@.len() == 0 && final(self)@ == old(self)@,
            },
    {
        self.events.pop_front()
    }

    /// Drops every turn.
    pub fn clear(&mut self)
        ensures
            final(self).wf(),
            final(self)@ == Seq::<ReadyEvent<K>>::empty(),
    {
        self.events.clear();
    }
}

/// Law: turns compare by their priorities alone: equal when these are, and greater the lower they
/// are. A clone has the same priority and a clone of the key.
pub proof fn law_earlier_turns_are_greater<K: Clone>(
    a: ReadyEvent<K>,
    b: ReadyEvent<K>,
    equal: bool,
    order: Option<Ordering>,
    copy: ReadyEvent<K>,
)
    requires
        call_ensures(ReadyEvent::<K>::eq, (&a, &b), equal),
        call_ensures(ReadyEvent::<K>::partial_cmp, (&a, &b), order),
        call_ensures(ReadyEvent::<K>::clone, (&a,), copy),
    ensures
        equal <==> a.priority == b.priority,
        order == Some(Ordering::Greater) <==> a.priority < b.priority,
        order == Some(Ordering::Equal) <==> a.priority == b.priority,
        order == Some(Ordering::Less) <==> a.priority > b.priority,
        copy.priority == a.priority,
        cloned(a.key, copy.key),
{
}

} // verus!
