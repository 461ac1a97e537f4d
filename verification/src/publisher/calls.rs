//! What the calls of a publishing socket do, by what goes into them and what comes out.

use crate::codec::Message;
use crate::error::{CodecError, ZmqError};
use crate::message::ZmqMessage;
use crate::publisher::subscription::{
    lemma_without_first_absent, lemma_without_first_at, subscribed, without_first,
};
use crate::publisher::{
    broken_pipes, closed_peers, connections_applied, disconnected, last_failure, lemma_place,
    message_received, peer_disconnected, peer_step, recipients, subscriptions_applied,
    ConnectionCommand, PeerAction, PeerEvent, PeerIdentity, Peers, PubSocket, SocketEvent,
    SubscriptionCommand, TryRecvError,
};
use vstd::prelude::*;

verus! {

/// Law: the peers of a socket are those on its list, each with what is listed of it: its queue,
/// what stops its task, and its topics in the order of the list.
pub proof fn law_peers_are_those_listed<Q, T>(socket: PubSocket<Q, T>, id: Seq<u8>)
    requires
        socket.wf(),
    ensures
        socket@.contains_key(id) <==> exists|i: int|
            0 <= i < socket.subscribers@.len() && (#[trigger] socket.subscribers@[i]).peer_id@
                == id,
        forall|i: int|
            0 <= i < socket.subscribers@.len() && (#[trigger] socket.subscribers@[i]).peer_id@ == id
                ==> {
                &&& socket@[id].send_queue == socket.subscribers@[i].send_queue
                &&& socket@[id].subscription_coro_stop
                    == socket.subscribers@[i].subscription_coro_stop
                &&& socket@[id].subscriptions.len() == socket.subscribers@[i].subscriptions@.len()
                &&& forall|n: int|
                    0 <= n < socket@[id].subscriptions.len() ==> #[trigger] socket@[id].subscriptions[n]
                        == socket.subscribers@[i].subscriptions@[n]@
            },
{
    assert forall|i: int|
        0 <= i < socket.subscribers@.len() && (#[trigger] socket.subscribers@[i]).peer_id@
            == id implies socket@[id] == socket.subscribers@[i]@ by {
        lemma_place(socket.subscribers@, i);
    }
}

/// Law: a message goes to exactly the peers that have a topic, whichever of theirs it is, whose
/// bytes are the first bytes of its first frame; their places are given in ascending order. A
/// message without frames goes to nobody.
pub proof fn law_fanout_matches_the_first_frame<Q, T>(
    socket: PubSocket<Q, T>,
    message: ZmqMessage,
    r: Vec<usize>,
)
    requires
        socket.wf(),
        call_ensures(PubSocket::<Q, T>::fanout, (&socket, &message), r),
    ensures
        forall|i: int, j: int| 0 <= i < j < r@.len() ==> r@[i] < r@[j],
        forall|n: usize| #[trigger]
            r@.contains(n) <==> n < socket.subscribers@.len() && message@.len() > 0 && exists|k: int|
                {
                    &&& 0 <= k < socket.subscribers@[n as int].subscriptions@.len()
                    &&& (#[trigger] socket.subscribers@[n as int].subscriptions@[k])@.len()
                        <= message@[0].len()
                    &&& forall|b: int|
                        0 <= b < socket.subscribers@[n as int].subscriptions@[k]@.len()
                            ==> #[trigger] socket.subscribers@[n as int].subscriptions@[k]@[b]
                            == message@[0][b]
                },
{
    assert forall|n: usize| #[trigger]
        r@.contains(n) <==> n < socket.subscribers@.len() && message@.len() > 0 && exists|k: int|
            {
                &&& 0 <= k < socket.subscribers@[n as int].subscriptions@.len()
                &&& (#[trigger] socket.subscribers@[n as int].subscriptions@[k])@.len()
                    <= message@[0].len()
                &&& forall|b: int|
                    0 <= b < socket.subscribers@[n as int].subscriptions@[k]@.len()
                        ==> #[trigger] socket.subscribers@[n as int].subscriptions@[k]@[b]
                        == message@[0][b]
            } by {
        if n < socket.subscribers@.len() && message@.len() > 0 {
            let entry = socket.subscribers@[n as int];
            let id = entry.peer_id@;
            let frame = message@[0];
            law_peers_are_those_listed(socket, id);
            let topics = socket@[id].subscriptions;
            if r@.contains(n) {
                let k = choose|k: int|
                    0 <= k < topics.len() && (#[trigger] topics[k]).is_prefix_of(frame);
                assert(topics[k] == entry.subscriptions@[k]@);
                assert forall|b: int| 0 <= b < topics[k].len() implies #[trigger] topics[k][b]
                    == frame[b] by {
                    assert(frame.subrange(0, topics[k].len() as int)[b] == frame[b]);
                }
            }
            if exists|k: int|
                {
                    &&& 0 <= k < entry.subscriptions@.len()
                    &&& (#[trigger] entry.subscriptions@[k])@.len() <= frame.len()
                    &&& forall|b: int|
                        0 <= b < entry.subscriptions@[k]@.len()
                            ==> #[trigger] entry.subscriptions@[k]@[b] == frame[b]
                } {
                let k = choose|k: int|
                    {
                        &&& 0 <= k < entry.subscriptions@.len()
                        &&& (#[trigger] entry.subscriptions@[k])@.len() <= frame.len()
                        &&& forall|b: int|
                            0 <= b < entry.subscriptions@[k]@.len()
                                ==> #[trigger] entry.subscriptions@[k]@[b] == frame[b]
                    };
                assert(topics[k] == entry.subscriptions@[k]@);
                assert(topics[k] =~= frame.subrange(0, topics[k].len() as int));
                assert(topics[k].is_prefix_of(frame));
            }
        }
    }
}

/// Law: who gets a message depends on its first frame alone: two messages whose first frames are
/// equal have the same receivers, whatever follows.
pub proof fn law_only_the_first_frame_counts<Q, T>(
    socket: PubSocket<Q, T>,
    one: ZmqMessage,
    other: ZmqMessage,
    r: Vec<usize>,
    s: Vec<usize>,
)
    requires
        socket.wf(),
        one@.len() > 0,
        other@.len() > 0,
        one@[0] == other@[0],
        call_ensures(PubSocket::<Q, T>::fanout, (&socket, &one), r),
        call_ensures(PubSocket::<Q, T>::fanout, (&socket, &other), s),
    ensures
        r@ == s@,
{
    law_fanout_matches_the_first_frame(socket, one, r);
    law_fanout_matches_the_first_frame(socket, other, s);
    assert(forall|n: usize| #[trigger] r@.contains(n) <==> s@.contains(n));
    lemma_same_places(r@, s@);
}

/// Ascending places are determined by which they are.
proof fn lemma_same_places(a: Seq<usize>, b: Seq<usize>)
    requires
        forall|i: int, j: int| 0 <= i < j < a.len() ==> a[i] < a[j],
        forall|i: int, j: int| 0 <= i < j < b.len() ==> b[i] < b[j],
        forall|n: usize| #[trigger] a.contains(n) <==> b.contains(n),
    ensures
        a == b,
    decreases a.len(),
{
    if a.len() == 0 {
        if b.len() > 0 {
            assert(b.contains(b[0]));
            assert(a.contains(b[0]));
        }
        assert(a =~= b);
    } else {
        assert(a.contains(a[a.len() - 1]));
        assert(b.len() > 0);
        assert(b.contains(b[b.len() - 1]));
        assert(a.contains(b[b.len() - 1]));
        let x = choose|x: int| 0 <= x < b.len() && b[x] == a.last();
        let y = choose|y: int| 0 <= y < a.len() && a[y] == b.last();
        assert(a.last() == b.last());
        let c = a.drop_last();
        let d = b.drop_last();
        assert forall|n: usize| #[trigger] c.contains(n) <==> d.contains(n) by {
            if c.contains(n) {
                let i = choose|i: int| 0 <= i < c.len() && c[i] == n;
                assert(a[i] == n && a.contains(n));
                let j = choose|j: int| 0 <= j < b.len() && b[j] == n;
                assert(d[j] == n);
            }
            if d.contains(n) {
                let i = choose|i: int| 0 <= i < d.len() && d[i] == n;
                assert(b[i] == n && b.contains(n));
                assert(a.contains(n));
                let j = choose|j: int| 0 <= j < a.len() && a[j] == n;
                assert(c[j] == n);
            }
        }
        lemma_same_places(c, d);
        assert(a =~= c.push(a.last()));
        assert(b =~= d.push(b.last()));
    }
}

/// Law: for any peers and frames, a peer gets the message if and only if it is connected, there is
/// a frame, and some one of its topics is a prefix of the first.
pub proof fn law_receivers<Q, T>(peers: Peers<Q, T>, frames: Seq<Seq<u8>>, id: Seq<u8>)
    ensures
        recipients(peers, frames).contains(id) <==> {
            &&& peers.contains_key(id)
            &&& frames.len() > 0
            &&& exists|topic: Seq<u8>| #[trigger]
                peers[id].subscriptions.contains(topic) && topic.is_prefix_of(frames[0])
        },
{
    if peers.contains_key(id) && frames.len() > 0 {
        let topics = peers[id].subscriptions;
        if subscribed(topics, frames[0]) {
            let i = choose|i: int|
                0 <= i < topics.len() && (#[trigger] topics[i]).is_prefix_of(frames[0]);
            assert(topics.contains(topics[i]));
        }
        if exists|topic: Seq<u8>| #[trigger]
            topics.contains(topic) && topic.is_prefix_of(frames[0]) {
            let topic = choose|topic: Seq<u8>| #[trigger]
                topics.contains(topic) && topic.is_prefix_of(frames[0]);
            let i = choose|i: int| 0 <= i < topics.len() && topics[i] == topic;
            assert(topics[i].is_prefix_of(frames[0]));
        }
    }
}

/// Law: whatever topics there are, and wherever it stands among them, unsubscribing from a topic
/// lowers by one the number of times it is subscribed to, if it is subscribed to at all; every
/// other topic is subscribed to as often as before.
pub proof fn law_unsubscribing_takes_one_away(topics: Seq<Seq<u8>>, topic: Seq<u8>, t: Seq<u8>)
    ensures
        without_first(topics, topic).to_multiset().count(t) == if t == topic
            && topics.to_multiset().count(topic) > 0 {
            topics.to_multiset().count(t) - 1
        } else {
            topics.to_multiset().count(t) as int
        },
{
    broadcast use vstd::seq_lib::group_to_multiset_ensures;

    if topics.contains(topic) {
        let n = lemma_first(topics, topic);
        lemma_without_first_at(topics, topic, n);
        assert(topics.remove(n).to_multiset() == topics.to_multiset().remove(topic));
    } else {
        lemma_without_first_absent(topics, topic);
    }
}

proof fn lemma_first(topics: Seq<Seq<u8>>, topic: Seq<u8>) -> (n: int)
    requires
        topics.contains(topic),
    ensures
        0 <= n < topics.len(),
        topics[n] == topic,
        forall|i: int| 0 <= i < n ==> #[trigger] topics[i] != topic,
    decreases topics.len(),
{
    if topics[0] == topic {
        0
    } else {
        let rest = topics.drop_first();
        let i = choose|i: int| 0 <= i < topics.len() && topics[i] == topic;
        assert(rest[i - 1] == topic);
        let n = lemma_first(rest, topic) + 1;
        assert forall|j: int| 0 <= j < n implies #[trigger] topics[j] != topic by {
            if j > 0 {
                assert(topics[j] == rest[j - 1]);
            }
        }
        n
    }
}

/// How often the peer `id` is subscribed to `topic` after `commands`, when it was `n` times before:
/// each of its subscriptions to the topic counts one up, each unsubscription one down, but never
/// below none.
pub open spec fn balance(
    n: nat,
    commands: Seq<SubscriptionCommand>,
    id: Seq<u8>,
    topic: Seq<u8>,
) -> nat
    decreases commands.len(),
{
    if commands.len() == 0 {
        n
    } else {
        let before = balance(n, commands.drop_last(), id, topic);
        match commands.last() {
            SubscriptionCommand::Subscribe(peer, data) => if peer@ == id && data@ == topic {
                before + 1
            } else {
                before
            },
            SubscriptionCommand::Unsubscribe(peer, data) => if peer@ == id && data@ == topic
                && before > 0 {
                (before - 1) as nat
            } else {
                before
            },
        }
    }
}

proof fn lemma_balance<Q, T>(
    peers: Peers<Q, T>,
    commands: Seq<SubscriptionCommand>,
    id: Seq<u8>,
    topic: Seq<u8>,
)
    ensures
        ({
            let after = subscriptions_applied(peers, commands);
            &&& after.contains_key(id) <==> peers.contains_key(id)
            &&& peers.contains_key(id) ==> {
                &&& after[id].send_queue == peers[id].send_queue
                &&& after[id].subscription_coro_stop == peers[id].subscription_coro_stop
                &&& after[id].subscriptions.to_multiset().count(topic) == balance(
                    peers[id].subscriptions.to_multiset().count(topic),
                    commands,
                    id,
                    topic,
                )
            }
        }),
    decreases commands.len(),
{
    broadcast use vstd::seq_lib::group_to_multiset_ensures;

    if commands.len() > 0 {
        let rest = commands.drop_last();
        lemma_balance(peers, rest, id, topic);
        let before = subscriptions_applied(peers, rest);
        match commands.last() {
            SubscriptionCommand::Subscribe(peer, data) => {
                if peers.contains_key(id) && peer@ == id {
                    let topics = before[id].subscriptions;
                    assert(topics.push(data@).to_multiset() == topics.to_multiset().insert(data@));
                }
            },
            SubscriptionCommand::Unsubscribe(peer, data) => {
                if peers.contains_key(id) && peer@ == id {
                    law_unsubscribing_takes_one_away(before[id].subscriptions, data@, topic);
                }
            },
        }
    }
}

/// Law: subscription commands change nothing but how often connected peers are subscribed to what,
/// and that by the balance of the peer's own commands; all of them are applied, also when the
/// channel can give no more, which alone is an error.
pub proof fn law_subscriptions_are_counted<Q, T>(
    socket: &mut PubSocket<Q, T>,
    commands: Vec<SubscriptionCommand>,
    end: TryRecvError,
    r: Result<(), ZmqError>,
    id: Seq<u8>,
    topic: Seq<u8>,
)
    requires
        old(socket).wf(),
        call_ensures(PubSocket::<Q, T>::process_subscriptions, (socket, commands, end), r),
    ensures
        final(socket).wf(),
        final(socket)@.contains_key(id) <==> old(socket)@.contains_key(id),
        old(socket)@.contains_key(id) ==> {
            &&& final(socket)@[id].send_queue == old(socket)@[id].send_queue
            &&& final(socket)@[id].subscription_coro_stop == old(
                socket,
            )@[id].subscription_coro_stop
            &&& final(socket)@[id].subscriptions.to_multiset().count(topic) == balance(
                old(socket)@[id].subscriptions.to_multiset().count(topic),
                commands@,
                id,
                topic,
            )
        },
        r is Ok <==> end is Empty,
        r is Err ==> (r matches Err(ZmqError::Other(m)) && m@ == "Command channel closed"@),
{
    lemma_balance(old(socket)@, commands@, id, topic);
}

/// Law: after its commands a peer gets a message exactly when some prefix of the first frame is
/// left with a positive balance. In particular, one that took back every subscription to such a
/// prefix gets none.
pub proof fn law_receivers_follow_the_balance<Q, T>(
    socket: &mut PubSocket<Q, T>,
    commands: Vec<SubscriptionCommand>,
    end: TryRecvError,
    r: Result<(), ZmqError>,
    message: ZmqMessage,
    places: Vec<usize>,
    n: usize,
)
    requires
        old(socket).wf(),
        call_ensures(PubSocket::<Q, T>::process_subscriptions, (socket, commands, end), r),
        call_ensures(PubSocket::<Q, T>::fanout, (&*final(socket), &message), places),
        n < final(socket).subscribers@.len(),
    ensures
        ({
            let id = final(socket).subscribers@[n as int].peer_id@;
            places@.contains(n) <==> message@.len() > 0 && exists|topic: Seq<u8>|
                #![trigger balance(old(socket)@[id].subscriptions.to_multiset().count(topic), commands@, id, topic)]
                topic.is_prefix_of(message@[0]) && balance(
                    old(socket)@[id].subscriptions.to_multiset().count(topic),
                    commands@,
                    id,
                    topic,
                ) > 0
        }),
{
    broadcast use vstd::seq_lib::group_to_multiset_ensures;

    let id = final(socket).subscribers@[n as int].peer_id@;
    law_peers_are_those_listed(*final(socket), id);
    law_receivers(final(socket)@, message@, id);
    assert(places@.contains(n) <==> recipients(final(socket)@, message@).contains(id));
    let topics = final(socket)@[id].subscriptions;
    if places@.contains(n) {
        let topic = choose|topic: Seq<u8>| #[trigger]
            topics.contains(topic) && topic.is_prefix_of(message@[0]);
        law_subscriptions_are_counted(socket, commands, end, r, id, topic);
        assert(topics.to_multiset().count(topic) > 0);
        assert(balance(
            old(socket)@[id].subscriptions.to_multiset().count(topic),
            commands@,
            id,
            topic,
        ) > 0);
    }
    if message@.len() > 0 && exists|topic: Seq<u8>|
        #![trigger balance(old(socket)@[id].subscriptions.to_multiset().count(topic), commands@, id, topic)]
        topic.is_prefix_of(message@[0]) && balance(
            old(socket)@[id].subscriptions.to_multiset().count(topic),
            commands@,
            id,
            topic,
        ) > 0 {
        let topic = choose|topic: Seq<u8>|
            #![trigger balance(old(socket)@[id].subscriptions.to_multiset().count(topic), commands@, id, topic)]
            topic.is_prefix_of(message@[0]) && balance(
                old(socket)@[id].subscriptions.to_multiset().count(topic),
                commands@,
                id,
                topic,
            ) > 0;
        law_subscriptions_are_counted(socket, commands, end, r, id, topic);
        assert(topics.to_multiset().count(topic) > 0);
        assert(topics.contains(topic));
    }
}

/// Law: of all queued commands about a peer the last one decides: after one that connects, the peer
/// is connected with the queue and the stop handle given there and without subscriptions, after
/// one that closes it is not connected. A peer of which no command speaks stays as it is.
pub proof fn law_last_connection_decides<Q, T>(
    socket: &mut PubSocket<Q, T>,
    commands: Vec<ConnectionCommand<Q, T>>,
    end: TryRecvError,
    r: (Result<(), ZmqError>, Vec<SocketEvent>),
    id: Seq<u8>,
)
    requires
        old(socket).wf(),
        call_ensures(PubSocket::<Q, T>::process_connections, (socket, commands, end), r),
    ensures
        final(socket).wf(),
        r.0 is Ok <==> end is Empty,
        r.0 is Err ==> (r.0 matches Err(ZmqError::Other(m)) && m@ == "Command channel closed"@),
        ({
            let about = commands@.filter(
                |c: ConnectionCommand<Q, T>|
                    match c {
                        ConnectionCommand::New(peer, _, _) => peer@ == id,
                        ConnectionCommand::Closed(peer) => peer@ == id,
                    },
            );
            if about.len() == 0 {
                &&& final(socket)@.contains_key(id) <==> old(socket)@.contains_key(id)
                &&& old(socket)@.contains_key(id) ==> final(socket)@[id] == old(socket)@[id]
            } else {
                match about.last() {
                    ConnectionCommand::New(_, send_queue, stop) => {
                        &&& final(socket)@.contains_key(id)
                        &&& final(socket)@[id].send_queue == send_queue
                        &&& final(socket)@[id].subscription_coro_stop == stop
                        &&& final(socket)@[id].subscriptions.len() == 0
                    },
                    ConnectionCommand::Closed(_) => !final(socket)@.contains_key(id),
                }
            }
        }),
{
    lemma_last_about(
        old(socket)@,
        commands@,
        id,
        |c: ConnectionCommand<Q, T>|
            match c {
                ConnectionCommand::New(peer, _, _) => peer@ == id,
                ConnectionCommand::Closed(peer) => peer@ == id,
            },
    );
}

proof fn lemma_last_about<Q, T>(
    peers: Peers<Q, T>,
    commands: Seq<ConnectionCommand<Q, T>>,
    id: Seq<u8>,
    speaks: spec_fn(ConnectionCommand<Q, T>) -> bool,
)
    requires
        forall|c: ConnectionCommand<Q, T>| #[trigger]
            speaks(c) <==> match c {
                ConnectionCommand::New(peer, _, _) => peer@ == id,
                ConnectionCommand::Closed(peer) => peer@ == id,
            },
    ensures
        ({
            let after = connections_applied(peers, commands);
            let about = commands.filter(speaks);
            if about.len() == 0 {
                &&& after.contains_key(id) <==> peers.contains_key(id)
                &&& peers.contains_key(id) ==> after[id] == peers[id]
            } else {
                match about.last() {
                    ConnectionCommand::New(_, send_queue, stop) => {
                        &&& after.contains_key(id)
                        &&& after[id].send_queue == send_queue
                        &&& after[id].subscription_coro_stop == stop
                        &&& after[id].subscriptions.len() == 0
                    },
                    ConnectionCommand::Closed(_) => !after.contains_key(id),
                }
            }
        }),
    decreases commands.len(),
{
    reveal(Seq::filter);
    if commands.len() > 0 {
        lemma_last_about(peers, commands.drop_last(), id, speaks);
        assert(speaks(commands.last()) || !speaks(commands.last()));
    }
}

/// Law: the monitor is told of exactly the peers that the commands close, in the order of the
/// commands.
pub proof fn law_closed_peers_are_reported<Q, T>(
    socket: &mut PubSocket<Q, T>,
    commands: Vec<ConnectionCommand<Q, T>>,
    end: TryRecvError,
    r: (Result<(), ZmqError>, Vec<SocketEvent>),
)
    requires
        old(socket).wf(),
        call_ensures(PubSocket::<Q, T>::process_connections, (socket, commands, end), r),
    ensures
        ({
            let closing = commands@.filter(|c: ConnectionCommand<Q, T>| c is Closed);
            &&& r.1@.len() == closing.len()
            &&& forall|i: int|
                0 <= i < closing.len() ==> (#[trigger] r.1@[i])->Disconnected_0@
                    == closing[i]->Closed_0@
        }),
{
    let closes = |c: ConnectionCommand<Q, T>| c is Closed;
    lemma_closed(commands@, closes);
    assert(disconnected(r.1@).len() == r.1@.len());
    assert forall|i: int| 0 <= i < r.1@.len() implies (#[trigger] r.1@[i])->Disconnected_0@
        == commands@.filter(closes)[i]->Closed_0@ by {
        assert(disconnected(r.1@)[i] == r.1@[i]->Disconnected_0@);
    }
}

proof fn lemma_closed<Q, T>(
    commands: Seq<ConnectionCommand<Q, T>>,
    closes: spec_fn(ConnectionCommand<Q, T>) -> bool,
)
    requires
        forall|c: ConnectionCommand<Q, T>| #[trigger] closes(c) <==> c is Closed,
    ensures
        closed_peers(commands).len() == commands.filter(closes).len(),
        forall|i: int|
            0 <= i < closed_peers(commands).len() ==> #[trigger] closed_peers(commands)[i]
                == commands.filter(closes)[i]->Closed_0@,
    decreases commands.len(),
{
    reveal(Seq::filter);
    if commands.len() > 0 {
        lemma_closed(commands.drop_last(), closes);
        assert(closes(commands.last()) <==> commands.last() is Closed);
    }
}

/// Law: taking a peer off the list removes it and nobody else, and tells the monitor of it, whether
/// it was there or not.
pub proof fn law_disconnecting_removes_one_peer<Q, T>(
    socket: &mut PubSocket<Q, T>,
    peer_id: PeerIdentity,
    r: SocketEvent,
    id: Seq<u8>,
)
    requires
        old(socket).wf(),
        call_ensures(PubSocket::<Q, T>::disconnect_peer, (socket, peer_id), r),
    ensures
        final(socket).wf(),
        !final(socket)@.contains_key(peer_id@),
        id != peer_id@ ==> (final(socket)@.contains_key(id) <==> old(socket)@.contains_key(id)),
        id != peer_id@ && old(socket)@.contains_key(id) ==> final(socket)@[id] == old(socket)@[id],
        r->Disconnected_0@ == peer_id@,
{
}

/// Law: after sending, a peer is taken off the list exactly when one of its outcomes is a broken
/// pipe. Every other peer, whatever else failed, keeps its entry as it was.
pub proof fn law_only_broken_pipes_disconnect<Q, T>(
    socket: &mut PubSocket<Q, T>,
    results: Vec<(PeerIdentity, Result<(), CodecError>)>,
    r: (Result<(), ZmqError>, Vec<SocketEvent>),
    id: Seq<u8>,
)
    requires
        old(socket).wf(),
        call_ensures(PubSocket::<Q, T>::conclude_send, (socket, results), r),
    ensures
        final(socket).wf(),
        final(socket)@.contains_key(id) <==> old(socket)@.contains_key(id) && !exists|i: int|
            0 <= i < results@.len() && (#[trigger] results@[i]).0@ == id && (results@[i].1 matches Err(
                CodecError::Io(e),
            ) && e.kind is BrokenPipe),
        final(socket)@.contains_key(id) ==> final(socket)@[id] == old(socket)@[id],
{
    let broken = |x: (PeerIdentity, Result<(), CodecError>)|
        x.1 matches Err(CodecError::Io(e)) && e.kind is BrokenPipe;
    let all = results@;
    let gone = broken_pipes(all);
    lemma_broken_pipes(all, broken);
    let few = all.filter(broken);
    broadcast use vstd::seq_lib::group_filter_ensures;

    if gone.to_set().contains(id) {
        let i = choose|i: int| 0 <= i < gone.len() && gone[i] == id;
        assert(few[i].0@ == id);
        assert(few.contains(few[i]));
        all.lemma_filter_contains_rev(broken, few[i]);
        assert(all.contains(few[i]) && broken(few[i]));
        let j = choose|j: int| 0 <= j < all.len() && all[j] == few[i];
        assert(all[j].0@ == id);
    }
    if exists|i: int|
        0 <= i < all.len() && (#[trigger] all[i]).0@ == id && (all[i].1 matches Err(
            CodecError::Io(e),
        ) && e.kind is BrokenPipe) {
        let i = choose|i: int|
            0 <= i < all.len() && (#[trigger] all[i]).0@ == id && (all[i].1 matches Err(
                CodecError::Io(e),
            ) && e.kind is BrokenPipe);
        assert(broken(all[i]));
        assert(all.contains(all[i]));
        assert(few.contains(all[i]));
        let j = choose|j: int| 0 <= j < few.len() && few[j] == all[i];
        assert(gone[j] == id);
        assert(gone.contains(id));
    }
}

/// Law: the monitor is told of exactly the peers with a broken pipe, in the order of the outcomes.
pub proof fn law_broken_pipes_are_reported<Q, T>(
    socket: &mut PubSocket<Q, T>,
    results: Vec<(PeerIdentity, Result<(), CodecError>)>,
    r: (Result<(), ZmqError>, Vec<SocketEvent>),
)
    requires
        old(socket).wf(),
        call_ensures(PubSocket::<Q, T>::conclude_send, (socket, results), r),
    ensures
        ({
            let broken = results@.filter(
                |x: (PeerIdentity, Result<(), CodecError>)|
                    x.1 matches Err(CodecError::Io(e)) && e.kind is BrokenPipe,
            );
            &&& r.1@.len() == broken.len()
            &&& forall|i: int|
                0 <= i < broken.len() ==> (#[trigger] r.1@[i])->Disconnected_0@ == broken[i].0@
        }),
{
    let broken = |x: (PeerIdentity, Result<(), CodecError>)|
        x.1 matches Err(CodecError::Io(e)) && e.kind is BrokenPipe;
    lemma_broken_pipes(results@, broken);
    assert(disconnected(r.1@).len() == r.1@.len());
    assert forall|i: int| 0 <= i < r.1@.len() implies (#[trigger] r.1@[i])->Disconnected_0@
        == results@.filter(broken)[i].0@ by {
        assert(disconnected(r.1@)[i] == r.1@[i]->Disconnected_0@);
    }
}

proof fn lemma_broken_pipes(
    results: Seq<(PeerIdentity, Result<(), CodecError>)>,
    broken: spec_fn((PeerIdentity, Result<(), CodecError>)) -> bool,
)
    requires
        forall|x: (PeerIdentity, Result<(), CodecError>)| #[trigger]
            broken(x) <==> (x.1 matches Err(CodecError::Io(e)) && e.kind is BrokenPipe),
    ensures
        broken_pipes(results).len() == results.filter(broken).len(),
        forall|i: int|
            0 <= i < broken_pipes(results).len() ==> #[trigger] broken_pipes(results)[i]
                == results.filter(broken)[i].0@,
    decreases results.len(),
{
    reveal(Seq::filter);
    if results.len() > 0 {
        lemma_broken_pipes(results.drop_last(), broken);
        let last = results.last();
        assert(broken(last) <==> (last.1 matches Err(CodecError::Io(e)) && e.kind is BrokenPipe));
    }
}

/// Law: sending succeeds exactly when no peer's outcome violates the protocol; otherwise it gives
/// the last such error.
pub proof fn law_last_protocol_error_is_given<Q, T>(
    socket: &mut PubSocket<Q, T>,
    results: Vec<(PeerIdentity, Result<(), CodecError>)>,
    r: (Result<(), ZmqError>, Vec<SocketEvent>),
)
    requires
        old(socket).wf(),
        call_ensures(PubSocket::<Q, T>::conclude_send, (socket, results), r),
    ensures
        ({
            let failed = results@.filter(
                |x: (PeerIdentity, Result<(), CodecError>)|
                    x.1 matches Err(CodecError::Protocol(_)),
            );
            if failed.len() == 0 {
                r.0 is Ok
            } else {
                r.0 matches Err(ZmqError::Codec(e)) && failed.last().1 == Err::<(), CodecError>(e)
            }
        }),
{
    let failing = |x: (PeerIdentity, Result<(), CodecError>)|
        x.1 matches Err(CodecError::Protocol(_));
    lemma_last_failure(results@, failing);
}

proof fn lemma_last_failure(
    results: Seq<(PeerIdentity, Result<(), CodecError>)>,
    failing: spec_fn((PeerIdentity, Result<(), CodecError>)) -> bool,
)
    requires
        forall|x: (PeerIdentity, Result<(), CodecError>)| #[trigger]
            failing(x) <==> (x.1 matches Err(CodecError::Protocol(_))),
    ensures
        match last_failure(results) {
            None => results.filter(failing).len() == 0,
            Some(e) => results.filter(failing).len() > 0 && results.filter(failing).last().1
                == Err::<(), CodecError>(e),
        },
    decreases results.len(),
{
    reveal(Seq::filter);
    if results.len() > 0 {
        lemma_last_failure(results.drop_last(), failing);
        assert(failing(results.last()) <==> (results.last().1 matches Err(CodecError::Protocol(_))));
    }
}

/// Law: beginning to send a message comes to the same as applying the connections, then the
/// subscriptions, and then choosing the receivers; a closed channel of connections ends it before
/// any subscription, a closed channel of subscriptions before the choice.
pub proof fn law_begin_send_does_all_in_order<Q, T>(
    socket: &mut PubSocket<Q, T>,
    connections: Vec<ConnectionCommand<Q, T>>,
    connections_end: TryRecvError,
    subscriptions: Vec<SubscriptionCommand>,
    subscriptions_end: TryRecvError,
    message: ZmqMessage,
    r: (Result<Vec<usize>, ZmqError>, Vec<SocketEvent>),
    a: &mut PubSocket<Q, T>,
    connected: (Result<(), ZmqError>, Vec<SocketEvent>),
    b: &mut PubSocket<Q, T>,
    subscribed: Result<(), ZmqError>,
)
    requires
        old(socket).wf(),
        old(a).wf(),
        old(a)@ == old(socket)@,
        old(b).wf(),
        old(b)@ == final(a)@,
        call_ensures(
            PubSocket::<Q, T>::begin_send,
            (
                socket,
                connections,
                connections_end,
                subscriptions,
                subscriptions_end,
                &message,
            ),
            r,
        ),
        call_ensures(
            PubSocket::<Q, T>::process_connections,
            (a, connections, connections_end),
            connected,
        ),
        call_ensures(
            PubSocket::<Q, T>::process_subscriptions,
            (b, subscriptions, subscriptions_end),
            subscribed,
        ),
    ensures
        final(socket).wf(),
        r.1@.len() == connected.1@.len(),
        forall|i: int|
            0 <= i < r.1@.len() ==> (#[trigger] r.1@[i])->Disconnected_0@
                == connected.1@[i]->Disconnected_0@,
        connected.0 is Err ==> final(socket)@ == final(a)@,
        connected.0 is Ok ==> final(socket)@ == final(b)@,
        r.0 is Ok <==> connected.0 is Ok && subscribed is Ok,
        r.0 is Err ==> (r.0 matches Err(ZmqError::Other(m)) && m@ == "Command channel closed"@),
        r.0 matches Ok(places) ==> forall|n: usize| #[trigger]
            places@.contains(n) <==> n < final(socket).subscribers@.len() && recipients(
                final(socket)@,
                message@,
            ).contains(final(socket).subscribers@[n as int].peer_id@),
        r.0 matches Ok(places) ==> forall|i: int, j: int|
            0 <= i < j < places@.len() ==> places@[i] < places@[j],
{
    assert(disconnected(r.1@).len() == disconnected(connected.1@).len());
    assert forall|i: int| 0 <= i < r.1@.len() implies (#[trigger] r.1@[i])->Disconnected_0@
        == connected.1@[i]->Disconnected_0@ by {
        assert(disconnected(r.1@)[i] == r.1@[i]->Disconnected_0@);
        assert(disconnected(connected.1@)[i] == connected.1@[i]->Disconnected_0@);
    }
}

/// Law: a message of a peer asks for something exactly when it is one frame that begins with 1 or 0:
/// to subscribe or to unsubscribe, in the name of that peer, to what follows in the frame.
pub proof fn law_requests_are_read_from_the_frame<G, C>(
    peer_id: PeerIdentity,
    m: ZmqMessage,
    r: Option<SubscriptionCommand>,
)
    requires
        call_ensures(message_received::<G, C>, (&peer_id, Message::<G, C>::Message(m)), r),
    ensures
        r is Some <==> m@.len() == 1 && m@[0].len() > 0 && (m@[0][0] == 0 || m@[0][0] == 1),
        r matches Some(SubscriptionCommand::Subscribe(peer, topic)) ==> m@[0] == seq![1u8] + topic@
            && peer@ == peer_id@,
        r matches Some(SubscriptionCommand::Unsubscribe(peer, topic)) ==> m@[0] == seq![0u8]
            + topic@ && peer@ == peer_id@,
{
    if r is Some {
        assert(m@[0] =~= seq![m@[0][0]] + m@[0].drop_first());
    }
}

/// Law: greetings and commands ask for no subscription.
pub proof fn law_other_messages_ask_for_nothing<G, C>(
    peer_id: PeerIdentity,
    message: Message<G, C>,
    r: Option<SubscriptionCommand>,
)
    requires
        !(message is Message),
        call_ensures(message_received::<G, C>, (&peer_id, message), r),
    ensures
        r is None,
{
}

/// Law: the task of a peer ends when it is told to, and when the connection fails or is closed it
/// ends with the command that closes this peer; of every message it passes on what
/// [`message_received`] reads from it, and goes on.
pub proof fn law_peer_task<G, C, Q, T>(
    peer_id: PeerIdentity,
    event: PeerEvent<G, C>,
    r: PeerAction<Q, T>,
)
    requires
        call_ensures(peer_step::<G, C, Q, T>, (&peer_id, event), r),
    ensures
        match event {
            PeerEvent::Stop => r is Stop,
            PeerEvent::Received(Some(Ok(Message::Message(m)))) => r matches PeerAction::Forward(command)
                && if m@.len() == 1 && m@[0].len() > 0 && m@[0][0] == 1 {
                command matches Some(SubscriptionCommand::Subscribe(peer, topic)) && peer@
                    == peer_id@ && topic@ == m@[0].skip(1)
            } else if m@.len() == 1 && m@[0].len() > 0 && m@[0][0] == 0 {
                command matches Some(SubscriptionCommand::Unsubscribe(peer, topic)) && peer@
                    == peer_id@ && topic@ == m@[0].skip(1)
            } else {
                command is None
            },
            PeerEvent::Received(Some(Ok(_))) => r matches PeerAction::Forward(None),
            PeerEvent::Received(_) => r matches PeerAction::Leave(ConnectionCommand::Closed(peer))
                && peer@ == peer_id@,
        },
{
    if let PeerEvent::Received(Some(Ok(Message::Message(m)))) = event {
        if m@.len() == 1 && m@[0].len() > 0 {
            assert(m@[0].drop_first() =~= m@[0].skip(1));
        }
    }
}

/// Law: a peer that leaves is closed by a command with its own identity.
pub proof fn law_leaving_closes_the_peer<Q, T>(peer_id: PeerIdentity, r: ConnectionCommand<Q, T>)
    requires
        call_ensures(peer_disconnected::<Q, T>, (&peer_id,), r),
    ensures
        r matches ConnectionCommand::Closed(peer) && peer@ == peer_id@,
{
}

/// Law: an identity is its bytes: it gives back those it was made of, a clone has the same, and two
/// are equal exactly when their bytes are.
pub proof fn law_identities_are_their_bytes(
    bytes: Vec<u8>,
    a: PeerIdentity,
    given: Vec<u8>,
    copy: PeerIdentity,
    b: PeerIdentity,
    equal: bool,
)
    requires
        call_ensures(PeerIdentity::new, (bytes,), a),
        call_ensures(PeerIdentity::as_bytes, (&a,), &given),
        call_ensures(PeerIdentity::clone, (&a,), copy),
        call_ensures(PeerIdentity::eq, (&a, &b), equal),
    ensures
        given@ == bytes@,
        copy@ == bytes@,
        equal <==> b@ == bytes@,
{
}

/// Law: a new socket has no peers.
pub proof fn law_new_socket_is_empty<Q, T>(r: PubSocket<Q, T>, id: Seq<u8>)
    requires
        call_ensures(PubSocket::<Q, T>::new, (), r),
    ensures
        r.wf(),
        !r@.contains_key(id),
        r.subscribers@.len() == 0,
{
    if r.subscribers@.len() > 0 {
        law_peers_are_those_listed(r, r.subscribers@[0].peer_id@);
        assert(r@.contains_key(r.subscribers@[0].peer_id@));
    }
}

} // verus!
