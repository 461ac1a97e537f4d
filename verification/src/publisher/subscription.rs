//! Subscriptions of one peer.

use crate::message::contents;
use vstd::prelude::*;

verus! {

/// One of `topics` is a prefix of `frame`.
pub open spec fn subscribed(topics: Seq<Seq<u8>>, frame: Seq<u8>) -> bool {
    exists|i: int| 0 <= i < topics.len() && (#[trigger] topics[i]).is_prefix_of(frame)
}

/// `topics` without the first that equals `topic`.
pub open spec fn without_first(topics: Seq<Seq<u8>>, topic: Seq<u8>) -> Seq<Seq<u8>>
    decreases topics.len(),
{
    if topics.len() == 0 {
        topics
    } else if topics[0] == topic {
        topics.drop_first()
    } else {
        seq![topics[0]] + without_first(topics.drop_first(), topic)
    }
}

/// Whether `topic` is a prefix of `frame`.
pub fn is_prefix(topic: &Vec<u8>, frame: &Vec<u8>) -> (r: bool)
    ensures
        r == topic@.is_prefix_of(frame@),
{
    if topic.len() > frame.len() {
        return false;
    }
    for i in 0..topic.len()
        invariant
            topic@.len() <= frame@.len(),
            forall|j: int| 0 <= j < i ==> topic@[j] == frame@[j],
    {
        if topic[i] != frame[i] {
            assert(frame@.subrange(0, topic@.len() as int)[i as int] == frame@[i as int]);
            return false;
        }
    }
    assert(topic@ =~= frame@.subrange(0, topic@.len() as int));
    true
}

/// Whether one of `topics` is a prefix of `frame`.
pub fn any_prefix(topics: &Vec<Vec<u8>>, frame: &Vec<u8>) -> (r: bool)
    ensures
        r == subscribed(contents(topics@), frame@),
{
    for i in 0..topics.len()
        invariant
            forall|j: int| 0 <= j < i ==> !(#[trigger] topics@[j])@.is_prefix_of(frame@),
    {
        if is_prefix(&topics[i], frame) {
            assert(contents(topics@)[i as int].is_prefix_of(frame@));
            return true;
        }
    }
    assert forall|j: int| 0 <= j < contents(topics@).len() implies !(#[trigger] contents(
        topics@,
    )[j]).is_prefix_of(frame@) by {
        assert(!topics@[j]@.is_prefix_of(frame@));
    }
    false
}

/// Where the first topic that equals `topic` stands.
pub proof fn lemma_without_first_at(topics: Seq<Seq<u8>>, topic: Seq<u8>, n: int)
    requires
        0 <= n < topics.len(),
        topics[n] == topic,
        forall|i: int| 0 <= i < n ==> #[trigger] topics[i] != topic,
    ensures
        without_first(topics, topic) == topics.remove(n),
    decreases n,
{
    if n == 0 {
        assert(topics.remove(0) =~= topics.drop_first());
    } else {
        lemma_without_first_at(topics.drop_first(), topic, n - 1);
        assert(topics.remove(n) =~= seq![topics[0]] + topics.drop_first().remove(n - 1));
    }
}

/// Without the topic there is nothing to remove.
pub proof fn lemma_without_first_absent(topics: Seq<Seq<u8>>, topic: Seq<u8>)
    requires
        !topics.contains(topic),
    ensures
        without_first(topics, topic) == topics,
    decreases topics.len(),
{
    if topics.len() > 0 {
        let rest = topics.drop_first();
        assert(topics[0] != topic);
        assert forall|i: int| 0 <= i < rest.len() implies #[trigger] rest[i] != topic by {
            assert(rest[i] == topics[i + 1]);
        }
        lemma_without_first_absent(rest, topic);
        assert(seq![topics[0]] + rest =~= topics);
    }
}

/// Where the first topic that equals `topic` stands, if there is one.
pub fn position(topics: &Vec<Vec<u8>>, topic: &Vec<u8>) -> (r: Option<usize>)
    ensures
        match r {
            Some(n) => {
                &&& n < topics@.len()
                &&& topics@[n as int]@ == topic@
                &&& forall|i: int| 0 <= i < n ==> (#[trigger] topics@[i])@ != topic@
            },
            None => forall|i: int| 0 <= i < topics@.len() ==> (#[trigger] topics@[i])@ != topic@,
        },
{
    for i in 0..topics.len()
        invariant
            forall|j: int| 0 <= j < i ==> (#[trigger] topics@[j])@ != topic@,
    {
        if topics[i] == *topic {
            assert(topics@[i as int]@ =~= topic@);
            return Some(i);
        }
    }
    None
}

/// Removes the first topic that equals `topic`, if there is one.
pub fn remove_first(topics: &mut Vec<Vec<u8>>, topic: &Vec<u8>)
    ensures
        contents(final(topics)@) == without_first(contents(old(topics)@), topic@),
{
    let ghost before = contents(topics@);
    match position(topics, topic) {
        Some(n) => {
            proof {
                lemma_without_first_at(before, topic@, n as int);
            }
            topics.remove(n);
            assert(contents(topics@) =~= before.remove(n as int));
        },
        None => {
            proof {
                assert forall|i: int| 0 <= i < before.len() implies #[trigger] before[i]
                    != topic@ by {
                    assert(topics@[i]@ != topic@);
                }
                lemma_without_first_absent(before, topic@);
            }
        },
    }
}

/// Law: a topic is a prefix of a frame exactly when the frame is not shorter and begins with the
/// bytes of the topic; any of several topics will do.
pub proof fn law_prefixes_are_first_bytes(
    topic: Vec<u8>,
    topics: Vec<Vec<u8>>,
    frame: Vec<u8>,
    one: bool,
    any: bool,
)
    requires
        call_ensures(is_prefix, (&topic, &frame), one),
        call_ensures(any_prefix, (&topics, &frame), any),
    ensures
        one <==> topic@.len() <= frame@.len() && forall|b: int|
            0 <= b < topic@.len() ==> #[trigger] topic@[b] == frame@[b],
        any <==> exists|i: int|
            0 <= i < topics@.len() && (#[trigger] topics@[i])@.is_prefix_of(frame@),
{
    if one {
        assert forall|b: int| 0 <= b < topic@.len() implies #[trigger] topic@[b] == frame@[b] by {
            assert(frame@.subrange(0, topic@.len() as int)[b] == frame@[b]);
        }
    }
    if topic@.len() <= frame@.len() && forall|b: int|
        0 <= b < topic@.len() ==> #[trigger] topic@[b] == frame@[b] {
        assert(topic@ =~= frame@.subrange(0, topic@.len() as int));
    }
    let all = contents(topics@);
    if any {
        let i = choose|i: int| 0 <= i < all.len() && (#[trigger] all[i]).is_prefix_of(frame@);
        assert(topics@[i]@.is_prefix_of(frame@));
    }
    if exists|i: int| 0 <= i < topics@.len() && (#[trigger] topics@[i])@.is_prefix_of(frame@) {
        let i = choose|i: int|
            0 <= i < topics@.len() && (#[trigger] topics@[i])@.is_prefix_of(frame@);
        assert(all[i].is_prefix_of(frame@));
    }
}

/// Law: removing a topic takes away the first one that equals it, wherever that stands, and leaves
/// the others in order; without one it changes nothing.
pub proof fn law_first_topic_is_removed(
    topics: &mut Vec<Vec<u8>>,
    topic: Vec<u8>,
    n: int,
    i: int,
)
    requires
        call_ensures(remove_first, (topics, &topic), ()),
        0 <= n <= old(topics)@.len(),
        forall|j: int| 0 <= j < n ==> (#[trigger] old(topics)@[j])@ != topic@,
        n < old(topics)@.len() ==> old(topics)@[n]@ == topic@,
    ensures
        n < old(topics)@.len() ==> final(topics)@.len() == old(topics)@.len() - 1,
        n == old(topics)@.len() ==> final(topics)@.len() == old(topics)@.len(),
        0 <= i < n ==> final(topics)@[i]@ == old(topics)@[i]@,
        n <= i < final(topics)@.len() ==> final(topics)@[i]@ == old(topics)@[i + 1]@,
{
    let before = contents(old(topics)@);
    let after = contents(final(topics)@);
    assert(after.len() == final(topics)@.len());
    assert forall|j: int| 0 <= j < n implies #[trigger] before[j] != topic@ by {
        assert(old(topics)@[j]@ != topic@);
    }
    if 0 <= i < after.len() {
        assert(after[i] == final(topics)@[i]@);
    }
    if n < before.len() {
        lemma_without_first_at(before, topic@, n);
        if n <= i < after.len() {
            assert(before[i + 1] == old(topics)@[i + 1]@);
        }
    } else {
        lemma_without_first_absent(before, topic@);
    }
}

} // verus!
