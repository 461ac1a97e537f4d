//! What holds of a publishing socket over several commands and messages.

use crate::codec::Message;
use crate::error::{CodecError, ErrorKind};
use crate::message::ZmqMessage;
use crate::publisher::subscription::{lemma_without_first_absent, subscribed, without_first};
use crate::publisher::{
    broken_pipes, commands_applied, connection_applied, connections_applied, last_failure,
    recipients, request, subscription_applied, subscriptions_applied, ConnectionCommand,
    PeerIdentity, Peers, SubscriptionCommand,
};
use vstd::prelude::*;

verus! {

/// Law: the empty topic matches every frame, and a topic matches exactly the frames that begin
/// with it.
pub proof fn law_topics_are_prefixes(topic: Seq<u8>, frame: Seq<u8>)
    ensures
        subscribed(seq![Seq::<u8>::empty()], frame),
        subscribed(seq![topic], topic + frame),
        subscribed(seq![topic], frame) <==> topic.is_prefix_of(frame),
        !subscribed(Seq::empty(), frame),
{
    let all = seq![Seq::<u8>::empty()];
    assert(frame.subrange(0, 0) =~= Seq::<u8>::empty());
    assert(all[0].is_prefix_of(frame));
    let one = seq![topic];
    assert((topic + frame).subrange(0, topic.len() as int) =~= topic);
    assert(one[0].is_prefix_of(topic + frame));
    if topic.is_prefix_of(frame) {
        assert(one[0].is_prefix_of(frame));
    }
}

/// Law: how often a topic is subscribed to decides nothing, and neither does the order: what
/// matches depends on the set of the topics alone.
pub proof fn law_only_the_set_of_topics_counts(a: Seq<Seq<u8>>, b: Seq<Seq<u8>>, frame: Seq<u8>)
    requires
        forall|t: Seq<u8>| a.contains(t) <==> b.contains(t),
    ensures
        subscribed(a, frame) <==> subscribed(b, frame),
{
    lemma_subscribed(a, frame);
    lemma_subscribed(b, frame);
}

proof fn lemma_subscribed(a: Seq<Seq<u8>>, frame: Seq<u8>)
    ensures
        subscribed(a, frame) <==> exists|t: Seq<u8>| #[trigger] a.contains(t) && t.is_prefix_of(
            frame,
        ),
{
    if subscribed(a, frame) {
        let i = choose|i: int| 0 <= i < a.len() && (#[trigger] a[i]).is_prefix_of(frame);
        assert(a.contains(a[i]));
    }
    if exists|t: Seq<u8>| #[trigger] a.contains(t) && t.is_prefix_of(frame) {
        let t = choose|t: Seq<u8>| #[trigger] a.contains(t) && t.is_prefix_of(frame);
        let i = choose|i: int| 0 <= i < a.len() && a[i] == t;
        assert(a[i].is_prefix_of(frame));
    }
}

/// Law: unsubscribing undoes one subscription: each topic is subscribed to as often as before.
pub proof fn law_unsubscribing_undoes_subscribing(topics: Seq<Seq<u8>>, topic: Seq<u8>)
    ensures
        without_first(topics.push(topic), topic).to_multiset() == topics.to_multiset(),
        forall|t: Seq<u8>|
            without_first(topics.push(topic), topic).contains(t) <==> #[trigger] topics.contains(t),
        !topics.contains(topic) ==> without_first(topics.push(topic), topic) == topics,
    decreases topics.len(),
{
    broadcast use vstd::seq_lib::group_to_multiset_ensures;

    let more = topics.push(topic);
    let less = without_first(more, topic);
    if topics.len() == 0 {
        assert(less =~= topics);
    } else if topics[0] == topic {
        let rest = topics.drop_first();
        assert(less =~= rest.push(topic));
        assert(topics =~= seq![topic] + rest);
        assert(rest.push(topic).to_multiset() =~= topics.to_multiset()) by {
            vstd::seq_lib::lemma_multiset_commutative(seq![topic], rest);
            vstd::seq_lib::lemma_multiset_commutative(rest, seq![topic]);
            assert(rest.push(topic) =~= rest + seq![topic]);
        }
        assert(topics.contains(topics[0]));
    } else {
        let rest = topics.drop_first();
        law_unsubscribing_undoes_subscribing(rest, topic);
        assert(more.drop_first() =~= rest.push(topic));
        let tail = without_first(rest.push(topic), topic);
        assert(less == seq![topics[0]] + tail);
        assert(topics =~= seq![topics[0]] + rest);
        vstd::seq_lib::lemma_multiset_commutative(seq![topics[0]], tail);
        vstd::seq_lib::lemma_multiset_commutative(seq![topics[0]], rest);
        if !topics.contains(topic) {
            assert forall|i: int| 0 <= i < rest.len() implies #[trigger] rest[i] != topic by {
                assert(rest[i] == topics[i + 1]);
            }
            assert(!rest.contains(topic));
            assert(less =~= topics);
        }
    }
    assert forall|t: Seq<u8>| less.contains(t) <==> #[trigger] topics.contains(t) by {
        less.to_multiset_ensures();
        topics.to_multiset_ensures();
        assert(less.contains(t) <==> less.to_multiset().count(t) > 0);
        assert(topics.contains(t) <==> topics.to_multiset().count(t) > 0);
    }
}

/// Law: unsubscribing from a topic that was not subscribed to changes nothing.
pub proof fn law_unsubscribing_without_subscription(topics: Seq<Seq<u8>>, topic: Seq<u8>)
    requires
        !topics.contains(topic),
    ensures
        without_first(topics, topic) == topics,
{
    lemma_without_first_absent(topics, topic);
}

/// Law: commands of one peer leave every other peer as it is.
pub proof fn law_peers_are_independent<Q, T>(
    peers: Peers<Q, T>,
    connection: ConnectionCommand<Q, T>,
    subscription: SubscriptionCommand,
    id: Seq<u8>,
)
    ensures
        subject(subscription) != id ==> (subscription_applied(peers, subscription).contains_key(id)
            <==> peers.contains_key(id)) && (peers.contains_key(id) ==> subscription_applied(
            peers,
            subscription,
        )[id] == peers[id]),
        connected(connection) != id ==> (connection_applied(peers, connection).contains_key(id)
            <==> peers.contains_key(id)) && (peers.contains_key(id) ==> connection_applied(
            peers,
            connection,
        )[id] == peers[id]),
{
}

/// The peer of which a command speaks.
pub open spec fn subject(command: SubscriptionCommand) -> Seq<u8> {
    match command {
        SubscriptionCommand::Subscribe(peer, _) => peer@,
        SubscriptionCommand::Unsubscribe(peer, _) => peer@,
    }
}

/// The peer of which a command speaks.
pub open spec fn connected<Q, T>(command: ConnectionCommand<Q, T>) -> Seq<u8> {
    match command {
        ConnectionCommand::New(peer, _, _) => peer@,
        ConnectionCommand::Closed(peer) => peer@,
    }
}

/// Law: what a peer subscribes to before it is connected is lost, and no subscription connects
/// or disconnects a peer.
pub proof fn law_subscriptions_need_a_connection<Q, T>(
    peers: Peers<Q, T>,
    commands: Seq<SubscriptionCommand>,
    id: Seq<u8>,
)
    ensures
        subscriptions_applied(peers, commands).contains_key(id) <==> peers.contains_key(id),
        peers.is_empty() ==> subscriptions_applied(peers, commands) == peers,
    decreases commands.len(),
{
    if commands.len() > 0 {
        law_subscriptions_need_a_connection(peers, commands.drop_last(), id);
        let p = subscriptions_applied(peers, commands.drop_last());
        law_peers_are_independent::<Q, T>(
            p,
            ConnectionCommand::Closed(arbitrary()),
            commands.last(),
            id,
        );
    }
}

/// Law: a peer gets a message exactly when it is connected and the first frame begins with one
/// of its topics: nobody gets one after connecting, the subscriber gets it after subscribing to
/// such a topic, and a peer that left, or connected anew, gets none.
pub proof fn law_messages_follow_subscriptions<Q, T>(
    peers: Peers<Q, T>,
    peer: PeerIdentity,
    send_queue: Q,
    stop: T,
    topic: Vec<u8>,
    frames: Seq<Seq<u8>>,
)
    requires
        frames.len() > 0,
    ensures
        ({
            let new = connection_applied(peers, ConnectionCommand::New(peer, send_queue, stop));
            let after = subscription_applied(new, SubscriptionCommand::Subscribe(peer, topic));
            let undone = subscription_applied(
                after,
                SubscriptionCommand::Unsubscribe(peer, topic),
            );
            let left = connection_applied(after, ConnectionCommand::Closed(peer));
            &&& !recipients(new, frames).contains(peer@)
            &&& recipients(after, frames).contains(peer@) <==> topic@.is_prefix_of(frames[0])
            &&& undone == new
            &&& !recipients(left, frames).contains(peer@)
        }),
{
    let new = connection_applied(peers, ConnectionCommand::New(peer, send_queue, stop));
    let after = subscription_applied(new, SubscriptionCommand::Subscribe(peer, topic));
    let undone = subscription_applied(after, SubscriptionCommand::Unsubscribe(peer, topic));
    let none = Seq::<Seq<u8>>::empty();
    assert(new[peer@].subscriptions == none);
    assert(after[peer@].subscriptions =~= seq![topic@]);
    law_topics_are_prefixes(topic@, frames[0]);
    law_unsubscribing_undoes_subscribing(none, topic@);
    assert(none.push(topic@) =~= seq![topic@]);
    assert(undone =~= new);
}

/// None of `commands` from `n` on speaks of the peer `id`.
pub open spec fn untouched_from<Q, T>(
    commands: Seq<ConnectionCommand<Q, T>>,
    n: int,
    id: Seq<u8>,
) -> bool {
    forall|i: int| n <= i < commands.len() ==> connected(#[trigger] commands[i]) != id
}

/// None of `commands` from `n` on takes the topic away from the peer `id`.
pub open spec fn kept_from(
    commands: Seq<SubscriptionCommand>,
    n: int,
    id: Seq<u8>,
    topic: Seq<u8>,
) -> bool {
    forall|i: int|
        n <= i < commands.len() ==> !((#[trigger] commands[i]) matches SubscriptionCommand::Unsubscribe(
            peer,
            data,
        ) && peer@ == id && data@ == topic)
}

/// Law: commands that were queued before a message is sent count for this very message. A peer
/// whose last queued command connects it, and that then subscribed to a prefix of the first frame
/// and did not take that back, gets the message, whatever else is queued.
pub proof fn law_queued_commands_come_first<Q, T>(
    peers: Peers<Q, T>,
    connections: Seq<ConnectionCommand<Q, T>>,
    subscriptions: Seq<SubscriptionCommand>,
    frames: Seq<Seq<u8>>,
    i: int,
    j: int,
)
    requires
        frames.len() > 0,
        0 <= i < connections.len(),
        connections[i] is New,
        untouched_from(connections, i + 1, connected(connections[i])),
        0 <= j < subscriptions.len(),
        subscriptions[j] matches SubscriptionCommand::Subscribe(peer, topic) && peer@ == connected(
            connections[i],
        ) && topic@.is_prefix_of(frames[0]) && kept_from(subscriptions, j + 1, peer@, topic@),
    ensures
        recipients(commands_applied(peers, connections, subscriptions), frames).contains(
            connected(connections[i]),
        ),
{
    let id = connected(connections[i]);
    let topic = subscriptions[j]->Subscribe_1@;
    let p = connections_applied(peers, connections);
    lemma_last_connection(peers, connections, i);
    lemma_topic_kept(p, subscriptions, j);
    let topics = subscriptions_applied(p, subscriptions)[id].subscriptions;
    lemma_subscribed(topics, frames[0]);
}

/// Law: a peer whose last queued command closes it gets no message, whatever it had subscribed to
/// and whatever subscriptions of it are still queued.
pub proof fn law_closed_peers_get_nothing<Q, T>(
    peers: Peers<Q, T>,
    connections: Seq<ConnectionCommand<Q, T>>,
    subscriptions: Seq<SubscriptionCommand>,
    frames: Seq<Seq<u8>>,
    i: int,
)
    requires
        0 <= i < connections.len(),
        connections[i] is Closed,
        untouched_from(connections, i + 1, connected(connections[i])),
    ensures
        !recipients(commands_applied(peers, connections, subscriptions), frames).contains(
            connected(connections[i]),
        ),
{
    lemma_last_connection(peers, connections, i);
    law_subscriptions_need_a_connection(
        connections_applied(peers, connections),
        subscriptions,
        connected(connections[i]),
    );
}

/// The last command about a peer decides whether it is connected.
proof fn lemma_last_connection<Q, T>(
    peers: Peers<Q, T>,
    commands: Seq<ConnectionCommand<Q, T>>,
    i: int,
)
    requires
        0 <= i < commands.len(),
        untouched_from(commands, i + 1, connected(commands[i])),
    ensures
        connections_applied(peers, commands).contains_key(connected(commands[i]))
            <==> commands[i] is New,
    decreases commands.len(),
{
    if i < commands.len() - 1 {
        let rest = commands.drop_last();
        assert forall|n: int| i + 1 <= n < rest.len() implies connected(#[trigger] rest[n])
            != connected(rest[i]) by {
            assert(rest[n] == commands[n]);
        }
        lemma_last_connection(peers, rest, i);
        assert(connected(commands[commands.len() - 1]) != connected(commands[i]));
    }
}

/// A topic stays subscribed to until it is taken back.
proof fn lemma_topic_kept<Q, T>(peers: Peers<Q, T>, commands: Seq<SubscriptionCommand>, j: int)
    requires
        0 <= j < commands.len(),
        commands[j] matches SubscriptionCommand::Subscribe(peer, topic) && peers.contains_key(peer@)
            && kept_from(commands, j + 1, peer@, topic@),
    ensures
        commands[j] matches SubscriptionCommand::Subscribe(peer, topic) && subscriptions_applied(
            peers,
            commands,
        ).contains_key(peer@) && subscriptions_applied(
            peers,
            commands,
        )[peer@].subscriptions.contains(topic@),
    decreases commands.len(),
{
    let id = commands[j]->Subscribe_0@;
    let topic = commands[j]->Subscribe_1@;
    let rest = commands.drop_last();
    let last = commands.last();
    let before = subscriptions_applied(peers, rest);
    law_subscriptions_need_a_connection(peers, rest, id);
    law_subscriptions_need_a_connection(peers, commands, id);
    let topics = before[id].subscriptions;
    if j == commands.len() - 1 {
        let more = topics.push(topic);
        assert(more[topics.len() as int] == topic);
    } else {
        assert forall|n: int| j + 1 <= n < rest.len() implies !((
        #[trigger] rest[n]) matches SubscriptionCommand::Unsubscribe(peer, data) && peer@ == id
            && data@ == topic) by {
            assert(rest[n] == commands[n]);
        }
        lemma_topic_kept(peers, rest, j);
        assert(commands[commands.len() - 1] == last);
        match last {
            SubscriptionCommand::Subscribe(peer, data) => {
                if peer@ == id {
                    let n = choose|n: int| 0 <= n < topics.len() && topics[n] == topic;
                    assert(topics.push(data@)[n] == topic);
                }
            },
            SubscriptionCommand::Unsubscribe(peer, data) => {
                if peer@ == id {
                    lemma_without_first_keeps(topics, data@, topic);
                }
            },
        }
    }
}

/// Taking one topic away leaves the others.
proof fn lemma_without_first_keeps(topics: Seq<Seq<u8>>, gone: Seq<u8>, topic: Seq<u8>)
    requires
        topics.contains(topic),
        topic != gone,
    ensures
        without_first(topics, gone).contains(topic),
    decreases topics.len(),
{
    let n = choose|n: int| 0 <= n < topics.len() && topics[n] == topic;
    let rest = topics.drop_first();
    let left = without_first(topics, gone);
    if topics[0] == gone {
        assert(left[n - 1] == topic);
    } else if n == 0 {
        assert(left[0] == topic);
    } else {
        assert(rest[n - 1] == topic);
        lemma_without_first_keeps(rest, gone, topic);
        let tail = without_first(rest, gone);
        let m = choose|m: int| 0 <= m < tail.len() && tail[m] == topic;
        assert(left[m + 1] == topic);
    }
}

/// Law: a message without frames goes to nobody.
pub proof fn law_empty_message_goes_to_nobody<Q, T>(peers: Peers<Q, T>)
    ensures
        recipients(peers, Seq::empty()) == Set::<Seq<u8>>::empty(),
{
    assert(recipients(peers, Seq::empty()) =~= Set::<Seq<u8>>::empty());
}

/// Law: who was found to have a broken connection gets no further message.
pub proof fn law_broken_peers_get_nothing<Q, T>(
    peers: Peers<Q, T>,
    results: Seq<(PeerIdentity, Result<(), CodecError>)>,
    frames: Seq<Seq<u8>>,
    i: int,
)
    requires
        0 <= i < results.len(),
        results[i].1 matches Err(CodecError::Io(e)) && e.kind == ErrorKind::BrokenPipe,
    ensures
        !recipients(peers.remove_keys(broken_pipes(results).to_set()), frames).contains(
            results[i].0@,
        ),
{
    lemma_broken(results, i);
}

proof fn lemma_broken(results: Seq<(PeerIdentity, Result<(), CodecError>)>, i: int)
    requires
        0 <= i < results.len(),
        results[i].1 matches Err(CodecError::Io(e)) && e.kind == ErrorKind::BrokenPipe,
    ensures
        broken_pipes(results).contains(results[i].0@),
    decreases results.len(),
{
    let rest = broken_pipes(results.drop_last());
    let all = broken_pipes(results);
    if i == results.len() - 1 {
        assert(all[all.len() - 1] == results[i].0@);
    } else {
        lemma_broken(results.drop_last(), i);
        let j = choose|j: int| 0 <= j < rest.len() && rest[j] == results[i].0@;
        assert(all[j] == results[i].0@);
    }
}

/// Law: sending fails exactly when writing to some peer failed for another reason than the
/// transport.
pub proof fn law_transport_errors_do_not_fail_sending(
    results: Seq<(PeerIdentity, Result<(), CodecError>)>,
)
    ensures
        last_failure(results) is Some <==> exists|i: int|
            0 <= i < results.len() && ((#[trigger] results[i]).1 matches Err(
                CodecError::Protocol(_),
            )),
    decreases results.len(),
{
    if results.len() > 0 {
        let rest = results.drop_last();
        law_transport_errors_do_not_fail_sending(rest);
        let last = results.len() - 1;
        if last_failure(results) is Some {
            if results[last].1 matches Err(CodecError::Protocol(_)) {
            } else {
                let i = choose|i: int|
                    0 <= i < rest.len() && ((#[trigger] rest[i]).1 matches Err(
                        CodecError::Protocol(_),
                    ));
                assert(results[i] == rest[i]);
            }
        }
        if exists|i: int|
            0 <= i < results.len() && ((#[trigger] results[i]).1 matches Err(
                CodecError::Protocol(_),
            )) {
            let i = choose|i: int|
                0 <= i < results.len() && ((#[trigger] results[i]).1 matches Err(
                    CodecError::Protocol(_),
                ));
            if i < last {
                assert(rest[i] == results[i]);
            }
        }
    }
}

/// Law: a frame of 1 and a topic asks to subscribe to the topic, a frame of 0 and a topic to
/// unsubscribe, and no other message asks for anything.
pub proof fn law_requests_carry_the_topic<G, C>(m: ZmqMessage, topic: Seq<u8>, greeting: G, command: C)
    ensures
        m@ == seq![seq![1u8] + topic] ==> request(Message::<G, C>::Message(m)) == Some(
            (true, topic),
        ),
        m@ == seq![seq![0u8] + topic] ==> request(Message::<G, C>::Message(m)) == Some(
            (false, topic),
        ),
        m@.len() != 1 ==> request(Message::<G, C>::Message(m)) is None,
        m@.len() == 1 && (m@[0].len() == 0 || m@[0][0] > 1) ==> request(
            Message::<G, C>::Message(m),
        ) is None,
        request(Message::<G, C>::Greeting(greeting)) is None,
        request(Message::<G, C>::Command(command)) is None,
{
    assert((seq![1u8] + topic).drop_first() =~= topic);
    assert((seq![0u8] + topic).drop_first() =~= topic);
}

} // verus!
